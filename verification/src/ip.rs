//! IP addresses as plain values.
//!
//! Only IPv4 addresses take part in the analysis; IPv6 addresses may appear
//! in a host-to-portspec mapping but are never matched against scan results.

use vstd::prelude::*;

verus! {

/// An IPv4 address, stored as its four dotted-quad octets.
#[derive(Debug, Clone, Copy, PartialEq, Eq, Structural)]
pub struct Ipv4Addr {
    pub a: u8,
    pub b: u8,
    pub c: u8,
    pub d: u8,
}

/// An IPv6 address, stored as its 128-bit value.
#[derive(Debug, Clone, Copy, PartialEq, Eq, Structural)]
pub struct Ipv6Addr {
    pub value: u128,
}

/// An IP address of either family.
#[derive(Debug, Clone, Copy, PartialEq, Eq, Structural)]
pub enum IpAddr {
    V4(Ipv4Addr),
    V6(Ipv6Addr),
}

impl Ipv4Addr {
    /// The numeric value of the address; addresses are ordered by it,
    /// which coincides with lexicographic order on the octets.
    pub open spec fn as_num(self) -> int {
        self.a * 0x1000000 + self.b * 0x10000 + self.c * 0x100 + self.d
    }

    pub fn new(a: u8, b: u8, c: u8, d: u8) -> (r: Ipv4Addr)
        ensures
            r == (Ipv4Addr { a, b, c, d }),
    {
        Ipv4Addr { a, b, c, d }
    }

    /// Numeric comparison, used to keep lookup tables in ascending order.
    pub fn lt(&self, other: &Ipv4Addr) -> (r: bool)
        ensures
            r == (self.as_num() < other.as_num()),
    {
        let x = self.num();
        let y = other.num();
        x < y
    }

    pub fn num(&self) -> (r: u32)
        ensures
            r == self.as_num(),
    {
        (self.a as u32) * 0x1000000 + (self.b as u32) * 0x10000 + (self.c as u32) * 0x100
            + (self.d as u32)
    }
}

} // verus!
