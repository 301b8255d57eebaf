//! An earlier, whitelist-flavoured shape of the port specification and
//! mapping data.  Kept for callers that still produce it.

use vstd::prelude::*;

use crate::ip::IpAddr;
use crate::text;

verus! {

#[derive(Debug)]
pub enum WhiltelistError {
    InvalidPortState { invalid: String },
}

#[derive(Debug)]
pub struct Whitelists {
    pub whitelists: Vec<Whitelist>,
}

#[derive(Debug)]
pub struct Whitelist {
    pub name: String,
    pub ports: Vec<Port>,
}

#[derive(Debug, Clone, Copy, PartialEq, Eq, Structural)]
pub struct Port {
    pub id: u16,
    pub state: PortState,
}

#[derive(Debug, Clone, Copy, PartialEq, Eq, Structural)]
pub enum PortState {
    Closed,
    Open,
}

impl PortState {
    /// Parses a whitelist port state keyword; ASCII whitespace around the
    /// word and ASCII case are ignored.  The error carries the trimmed,
    /// lowercased input.
    pub fn from_str(s: &str) -> (r: Result<PortState, WhiltelistError>)
        ensures
            r matches Ok(v) ==> {
                ||| v is Closed && text::canon(s@) == "closed"@
                ||| v is Open && text::canon(s@) == "open"@
            },
            r matches Err(e) ==> {
                &&& text::canon(s@) != "closed"@
                &&& text::canon(s@) != "open"@
                &&& e matches WhiltelistError::InvalidPortState { invalid } && invalid@
                    == text::canon(s@)
            },
    {
        if text::canon_eq(s, "closed") {
            Ok(PortState::Closed)
        } else if text::canon_eq(s, "open") {
            Ok(PortState::Open)
        } else {
            Err(WhiltelistError::InvalidPortState { invalid: text::canon_string(s) })
        }
    }
}

pub type Mapping = Vec<Host>;

/// One whitelist mapping entry; identity fields are informational.
#[derive(Debug)]
pub struct Host {
    pub id: String,
    pub hostname: String,
    pub ip: IpAddr,
    pub name: String,
    pub whitelist: String,
}

} // verus!
