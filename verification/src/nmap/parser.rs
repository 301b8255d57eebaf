//! The raw shape of a decoded scan-result document, before the run is
//! reduced to its hosts.  An unverified decoder fills these types; the
//! conversions in the parent module turn them into the analysis model.

use vstd::prelude::*;

use crate::nmap::{Address, ExtraPorts, HostName, HostStatus, PortService, PortStatus};

verus! {

/// A whole scan run as decoded: attributes plus the sequence of elements.
#[derive(Debug)]
pub struct Run {
    pub scanner: String,
    pub args: String,
    pub start: u64,
    pub hosts: Vec<RunElement>,
}

/// One top-level element of a scan run.  Only `Host` elements carry data
/// the analysis uses; the rest are recognized and skipped.
#[derive(Debug)]
pub enum RunElement {
    ScanInfo(StructInfo),
    Verbose(Verbose),
    Debugging(Debugging),
    Target(Target),
    TaskBegin(TaskBegin),
    TaskProgress(TaskProgress),
    TaskEnd(TaskEnd),
    Prescript(Prescript),
    Postscript(Postscript),
    Host(Host),
    Output(Output),
    RunStats(RunStats),
}

#[derive(Debug)]
pub struct StructInfo {}

#[derive(Debug)]
pub struct Verbose {}

#[derive(Debug)]
pub struct Debugging {}

#[derive(Debug)]
pub struct Target {}

#[derive(Debug)]
pub struct TaskBegin {}

#[derive(Debug)]
pub struct TaskProgress {}

#[derive(Debug)]
pub struct TaskEnd {}

#[derive(Debug)]
pub struct Prescript {}

#[derive(Debug)]
pub struct Postscript {}

#[derive(Debug)]
pub struct Output {}

#[derive(Debug)]
pub struct RunStats {}

/// A host as decoded: port data still nested under `ports`.
#[derive(Debug)]
pub struct Host {
    pub starttime: usize,
    pub endtime: usize,
    pub status: HostStatus,
    pub addresses: Vec<Address>,
    pub hostnames: HostNames,
    pub ports: Ports,
}

#[derive(Debug, Default)]
pub struct HostNames {
    pub hostnames: Vec<HostName>,
}

#[derive(Debug, Default)]
pub struct Ports {
    pub extra_ports: Option<Vec<ExtraPorts>>,
    pub ports: Vec<Port>,
}

/// A port as decoded: status fields still nested under `state`.
#[derive(Debug)]
pub struct Port {
    pub protocol: String,
    pub id: u16,
    pub state: PortState,
    pub service: PortService,
}

#[derive(Debug)]
pub struct PortState {
    pub state: PortStatus,
    pub reason: String,
    pub reason_ttl: usize,
}

} // verus!
