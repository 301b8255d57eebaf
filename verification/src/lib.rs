//! Checks a network host's observed port states against a declared port
//! specification.
//!
//! A scan result (`nmap`), a host-to-portspec mapping (`mapping`) and a set
//! of named port specifications (`portspec`) are joined by IPv4 address,
//! and the analyzer (`analyze`) emits a per-host, per-port verdict plus
//! aggregate pass/fail/error counts.  Decoding the input file formats and
//! rendering the results belong to unverified callers; this crate holds the
//! data model and the evaluation logic, with the contracts to match.

#![verifier::loop_isolation(false)]

pub mod analyze;
pub mod ip;
pub mod mapping;
pub mod nmap;
pub mod output;
pub mod portspec;
pub mod text;
pub mod whitelist;

pub use analyze::{default_analysis, Analyzer, AnalyzerResult};
pub use mapping::Mapping;
pub use nmap::Run;
pub use portspec::PortSpecs;

use vstd::prelude::*;

verus! {

/// A value that can check itself for internal consistency before analysis.
pub trait SanityCheck {
    type Error;

    /// When the value is considered sane.
    spec fn sane(&self) -> bool;

    /// Which error an insane value yields: each implementation pins the
    /// variant and message of its first violated condition.
    spec fn sanity_error(&self, e: Self::Error) -> bool;

    fn is_sane(&self) -> (r: Result<(), Self::Error>)
        ensures
            r is Ok <==> self.sane(),
            r matches Err(e) ==> self.sanity_error(e),
    ;
}

} // verus!
