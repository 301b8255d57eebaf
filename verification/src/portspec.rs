//! Named port specifications: which ports must be open, closed, or may be
//! either.

use vstd::prelude::*;

use crate::text;

verus! {

#[derive(Debug)]
pub enum Error {
    InvalidPortSpecsFile,
    InvalidPortSpecs,
    InvalidPortState(String),
}

/// All named port specifications known to one run.
#[derive(Debug)]
pub struct PortSpecs {
    pub port_specs: Vec<PortSpec>,
}

/// One named port specification: a list of per-port rules.
#[derive(Debug)]
pub struct PortSpec {
    pub name: String,
    pub ports: Vec<Port>,
}

/// A single rule: the named port is required to be in the given state.
#[derive(Debug, Clone, Copy, PartialEq, Eq, Structural)]
pub struct Port {
    pub id: u16,
    pub state: PortState,
}

/// The state a rule requires of a port.  `Maybe` is satisfied by any
/// observation and marks a port as explicitly out of scope.
#[derive(Debug, Clone, Copy, PartialEq, Eq, Structural)]
pub enum PortState {
    Closed,
    Open,
    Maybe,
}

impl PortState {
    /// Parses a rule state keyword; ASCII whitespace around the word and
    /// ASCII case are ignored.  Any other input is rejected, and the error
    /// carries the trimmed, lowercased input.
    pub fn from_str(s: &str) -> (r: Result<PortState, Error>)
        ensures
            r matches Ok(v) ==> {
                ||| v == PortState::Closed && text::canon(s@) == "closed"@
                ||| v == PortState::Open && text::canon(s@) == "open"@
                ||| v == PortState::Maybe && text::canon(s@) == "maybe"@
            },
            r matches Err(e) ==> {
                &&& text::canon(s@) != "closed"@
                &&& text::canon(s@) != "open"@
                &&& text::canon(s@) != "maybe"@
                &&& e matches Error::InvalidPortState(t) && t@ == text::canon(s@)
            },
    {
        if text::canon_eq(s, "closed") {
            Ok(PortState::Closed)
        } else if text::canon_eq(s, "open") {
            Ok(PortState::Open)
        } else if text::canon_eq(s, "maybe") {
            Ok(PortState::Maybe)
        } else {
            Err(Error::InvalidPortState(text::canon_string(s)))
        }
    }
}

} // verus!
