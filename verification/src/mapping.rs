//! The host-to-portspec mapping: which IP addresses are governed by which
//! named port specification.

use vstd::prelude::*;

use crate::ip::IpAddr;

verus! {

#[derive(Debug)]
pub enum Error {
    InvalidMappingFile,
    InvalidMappings,
}

/// All mapping entries of one run.
#[derive(Debug)]
pub struct Mapping {
    pub mappings: Vec<Host>,
}

/// One mapping entry: the addresses of a host and the name of the port
/// specification that governs them.  Identity fields are informational.
#[derive(Debug)]
pub struct Host {
    pub id: Option<String>,
    pub hostname: Option<String>,
    pub ips: Vec<IpAddr>,
    pub name: Option<String>,
    pub port_spec: String,
}

} // verus!
