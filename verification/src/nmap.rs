//! The scan-result data model: a run of scanned hosts with their observed
//! ports, plus the sanity conditions a run must meet before analysis.

pub mod parser;

use vstd::prelude::*;

use crate::ip::Ipv4Addr;
use crate::text;
use crate::SanityCheck;

verus! {

#[derive(Debug)]
pub enum Error {
    InvalidNmapFile,
    InsaneNmapFile(String),
    InvalidHostState(String),
    InvalidHostNameType(String),
    InvalidPortStatus(String),
}

/// A scan run reduced to the data the analysis reads.
#[derive(Debug)]
pub struct Run {
    pub scanner: String,
    pub args: String,
    pub start: u64,
    pub hosts: Vec<Host>,
}

/// One scanned host: its addresses and the observed ports.
#[derive(Debug)]
pub struct Host {
    pub starttime: usize,
    pub endtime: usize,
    pub status: HostStatus,
    pub addresses: Vec<Address>,
    pub hostnames: Vec<HostName>,
    pub ports: Vec<Port>,
    pub extra_ports: Option<Vec<ExtraPorts>>,
}

/// A host address; only IPv4 addresses take part in the analysis.
#[derive(Debug)]
#[allow(inconsistent_fields)]
pub enum Address {
    IpV4 { addr: Ipv4Addr },
    Mac { addr: String },
}

#[derive(Debug)]
pub struct HostStatus {
    pub state: HostState,
    pub reason: String,
    pub reason_ttl: usize,
}

#[derive(Debug)]
pub enum HostState {
    Up,
    Down,
    Unknown,
    Skipped,
}

#[derive(Debug)]
pub struct HostName {
    pub name: String,
    pub typ: HostNameType,
}

#[derive(Debug)]
pub enum HostNameType {
    User,
    Ptr,
}

/// An aggregated bucket of ports the scanner did not enumerate one by one.
/// A sane run has none of these.
#[derive(Debug)]
pub struct ExtraPorts {
    pub state: PortStatus,
    pub count: u16,
}

/// One observed port on a host.
#[derive(Debug)]
pub struct Port {
    pub protocol: String,
    pub id: u16,
    pub service: PortService,
    pub status: PortStatus,
    pub reason: String,
    pub reason_ttl: usize,
}

/// The observed state of a port.  Only `Open` counts as open for the
/// analysis; every other state is treated as not open.
#[derive(Debug, Clone, Copy, PartialEq, Eq, Structural)]
pub enum PortStatus {
    Open,
    Filtered,
    Unfiltered,
    Closed,
    OpenFiltered,
    CloseFiltered,
}

#[derive(Debug)]
pub struct PortService {
    pub name: String,
    pub method: String,
    pub conf: usize,
}

impl HostState {
    /// Parses a host state keyword; ASCII whitespace around the word and
    /// ASCII case are ignored.  The error carries the trimmed, lowercased
    /// input.
    pub fn from_str(s: &str) -> (r: Result<HostState, Error>)
        ensures
            r matches Ok(v) ==> {
                ||| v is Up && text::canon(s@) == "up"@
                ||| v is Down && text::canon(s@) == "down"@
                ||| v is Unknown && text::canon(s@) == "unknown"@
                ||| v is Skipped && text::canon(s@) == "skipped"@
            },
            r matches Err(e) ==> {
                &&& text::canon(s@) != "up"@
                &&& text::canon(s@) != "down"@
                &&& text::canon(s@) != "unknown"@
                &&& text::canon(s@) != "skipped"@
                &&& e matches Error::InvalidHostState(t) && t@ == text::canon(s@)
            },
    {
        if text::canon_eq(s, "up") {
            Ok(HostState::Up)
        } else if text::canon_eq(s, "down") {
            Ok(HostState::Down)
        } else if text::canon_eq(s, "unknown") {
            Ok(HostState::Unknown)
        } else if text::canon_eq(s, "skipped") {
            Ok(HostState::Skipped)
        } else {
            Err(Error::InvalidHostState(text::canon_string(s)))
        }
    }
}

impl HostNameType {
    /// Parses a host-name type keyword, as `HostState::from_str` does.
    pub fn from_str(s: &str) -> (r: Result<HostNameType, Error>)
        ensures
            r matches Ok(v) ==> {
                ||| v is User && text::canon(s@) == "user"@
                ||| v is Ptr && text::canon(s@) == "ptr"@
            },
            r matches Err(e) ==> {
                &&& text::canon(s@) != "user"@
                &&& text::canon(s@) != "ptr"@
                &&& e matches Error::InvalidHostNameType(t) && t@ == text::canon(s@)
            },
    {
        if text::canon_eq(s, "user") {
            Ok(HostNameType::User)
        } else if text::canon_eq(s, "ptr") {
            Ok(HostNameType::Ptr)
        } else {
            Err(Error::InvalidHostNameType(text::canon_string(s)))
        }
    }
}

impl PortStatus {
    /// Parses a port status keyword, as `HostState::from_str` does.
    pub fn from_str(s: &str) -> (r: Result<PortStatus, Error>)
        ensures
            r matches Ok(v) ==> {
                ||| v is Open && text::canon(s@) == "open"@
                ||| v is Filtered && text::canon(s@) == "filtered"@
                ||| v is Unfiltered && text::canon(s@) == "unfiltered"@
                ||| v is Closed && text::canon(s@) == "closed"@
                ||| v is OpenFiltered && text::canon(s@) == "open|filtered"@
                ||| v is CloseFiltered && text::canon(s@) == "close|filtered"@
            },
            r matches Err(e) ==> {
                &&& text::canon(s@) != "open"@
                &&& text::canon(s@) != "filtered"@
                &&& text::canon(s@) != "unfiltered"@
                &&& text::canon(s@) != "closed"@
                &&& text::canon(s@) != "open|filtered"@
                &&& text::canon(s@) != "close|filtered"@
                &&& e matches Error::InvalidPortStatus(t) && t@ == text::canon(s@)
            },
    {
        if text::canon_eq(s, "open") {
            Ok(PortStatus::Open)
        } else if text::canon_eq(s, "filtered") {
            Ok(PortStatus::Filtered)
        } else if text::canon_eq(s, "unfiltered") {
            Ok(PortStatus::Unfiltered)
        } else if text::canon_eq(s, "closed") {
            Ok(PortStatus::Closed)
        } else if text::canon_eq(s, "open|filtered") {
            Ok(PortStatus::OpenFiltered)
        } else if text::canon_eq(s, "close|filtered") {
            Ok(PortStatus::CloseFiltered)
        } else {
            Err(Error::InvalidPortStatus(text::canon_string(s)))
        }
    }
}

/// The analysis-model port that a decoded port denotes.
pub open spec fn spec_port_from(p: parser::Port) -> Port {
    Port {
        protocol: p.protocol,
        id: p.id,
        service: p.service,
        status: p.state.state,
        reason: p.state.reason,
        reason_ttl: p.state.reason_ttl,
    }
}

/// Whether the analysis-model host `h` is the reduction of the decoded
/// host `p`.
pub open spec fn spec_host_from(p: parser::Host, h: Host) -> bool {
    &&& h.starttime == p.starttime
    &&& h.endtime == p.endtime
    &&& h.status == p.status
    &&& h.addresses == p.addresses
    &&& h.hostnames == p.hostnames.hostnames
    &&& h.ports@ == p.ports.ports@.map_values(|q: parser::Port| spec_port_from(q))
    &&& h.extra_ports == p.ports.extra_ports
}

/// The hosts among a run's decoded elements, in document order.
pub open spec fn spec_elements_hosts(elems: Seq<parser::RunElement>) -> Seq<parser::Host>
    decreases elems.len(),
{
    if elems.len() == 0 {
        Seq::empty()
    } else {
        let rest = spec_elements_hosts(elems.drop_first());
        match elems[0] {
            parser::RunElement::Host(h) => seq![h] + rest,
            _ => rest,
        }
    }
}

impl Port {
    pub fn from(p_port: parser::Port) -> (r: Port)
        ensures
            r == spec_port_from(p_port),
    {
        let parser::Port { protocol, id, state, service } = p_port;
        let parser::PortState { state: status, reason, reason_ttl } = state;
        Port { protocol, id, service, status, reason, reason_ttl }
    }
}

impl Host {
    pub fn from(p_host: parser::Host) -> (r: Host)
        ensures
            spec_host_from(p_host, r),
    {
        let parser::Host { starttime, endtime, status, addresses, hostnames, ports } = p_host;
        let parser::Ports { extra_ports, ports: mut p_ports } = ports;
        let ghost orig = p_ports@;
        let mut out: Vec<Port> = Vec::new();
        while p_ports.len() > 0
            invariant
                out@.len() + p_ports@.len() == orig.len(),
                p_ports@ =~= orig.skip(out@.len() as int),
                forall|i: int|
                    0 <= i < out@.len() ==> out@[i] == spec_port_from(#[trigger] orig[i]),
            decreases p_ports.len(),
        {
            let q = p_ports.remove(0);
            assert(q == orig[out@.len() as int]);
            out.push(Port::from(q));
        }
        proof {
            assert(out@ =~= orig.map_values(|q: parser::Port| spec_port_from(q)));
        }
        Host {
            starttime,
            endtime,
            status,
            addresses,
            hostnames: hostnames.hostnames,
            ports: out,
            extra_ports,
        }
    }

    fn has_extra_ports(&self) -> (r: bool)
        ensures
            r == (self.extra_ports is Some),
    {
        self.extra_ports.is_some()
    }

    /// The message of the first failed sanity condition, in check order:
    /// an extra-ports bucket first, then an empty address list, then the
    /// want of an IPv4 address.
    pub open spec fn insane_reason(&self) -> Seq<char>
        recommends
            !self.sane(),
    {
        if self.extra_ports is Some {
            "Host has extraports defined; use nmap -dd ..."@
        } else if self.addresses@.len() == 0 {
            "Host has no addresses"@
        } else {
            "Host has no IP address"@
        }
    }
}

impl Run {
    /// Reduces a decoded run to its hosts, keeping them in document order.
    pub fn from(p_run: parser::Run) -> (r: Run)
        ensures
            r.scanner == p_run.scanner,
            r.args == p_run.args,
            r.start == p_run.start,
            r.hosts@.len() == spec_elements_hosts(p_run.hosts@).len(),
            forall|i: int|
                0 <= i < r.hosts@.len() ==> spec_host_from(
                    spec_elements_hosts(p_run.hosts@)[i],
                    r.hosts@[i],
                ),
    {
        let parser::Run { scanner, args, start, hosts: mut elems } = p_run;
        let ghost orig = elems@;
        let ghost mut done: Seq<parser::Host> = Seq::empty();
        let mut hosts: Vec<Host> = Vec::new();
        while elems.len() > 0
            invariant
                spec_elements_hosts(orig) =~= done + spec_elements_hosts(elems@),
                hosts@.len() == done.len(),
                forall|i: int|
                    0 <= i < hosts@.len() ==> spec_host_from(#[trigger] done[i], hosts@[i]),
            decreases elems.len(),
        {
            let ghost before = elems@;
            let e = elems.remove(0);
            proof {
                assert(elems@ =~= before.drop_first());
            }
            match e {
                parser::RunElement::Host(h) => {
                    proof {
                        done = done.push(h);
                        assert(spec_elements_hosts(before) =~= seq![h] + spec_elements_hosts(
                            elems@,
                        ));
                    }
                    hosts.push(Host::from(h));
                },
                _ => {
                    proof {
                        assert(spec_elements_hosts(before) =~= spec_elements_hosts(elems@));
                    }
                },
            }
        }
        proof {
            assert(spec_elements_hosts(orig) =~= done);
        }
        Run { scanner, args, start, hosts }
    }

    fn has_dd_options(&self) -> (r: bool)
        ensures
            r == text::contains_seq(self.args@, "-dd"@),
    {
        text::contains_str(self.args.as_str(), "-dd")
    }

    /// The message of the first failed sanity condition: the missing
    /// `-dd` argument first, then the first insane host's own reason.
    pub open spec fn insane_reason(&self) -> Seq<char>
        recommends
            !self.sane(),
    {
        if !text::contains_seq(self.args@, "-dd"@) {
            "nmap has been run without -dd option; use nmap -dd .."@
        } else {
            self.hosts@[spec_first_insane_host(self.hosts@)].insane_reason()
        }
    }
}

/// The index of the first host that fails its sanity check (the length of
/// the sequence when every host passes).
pub open spec fn spec_first_insane_host(hosts: Seq<Host>) -> int
    decreases hosts.len(),
{
    if hosts.len() == 0 {
        0
    } else if !hosts[0].sane() {
        0
    } else {
        1 + spec_first_insane_host(hosts.drop_first())
    }
}

proof fn lemma_first_insane_host(hosts: Seq<Host>, i: int)
    requires
        0 <= i < hosts.len(),
        forall|j: int| 0 <= j < i ==> hosts[j].sane(),
        !hosts[i].sane(),
    ensures
        spec_first_insane_host(hosts) == i,
    decreases i,
{
    if i == 0 {
    } else {
        assert(hosts[0].sane());
        assert forall|j: int| 0 <= j < i - 1 implies hosts.drop_first()[j].sane() by {
            assert(hosts.drop_first()[j] == hosts[j + 1]);
        }
        assert(hosts.drop_first()[i - 1] == hosts[i]);
        lemma_first_insane_host(hosts.drop_first(), i - 1);
    }
}

impl SanityCheck for Host {
    type Error = Error;

    /// A host can be analyzed when its ports were enumerated one by one
    /// (no extra-ports bucket) and it has at least one IPv4 address.
    open spec fn sane(&self) -> bool {
        &&& self.extra_ports is None
        &&& self.addresses@.len() > 0
        &&& exists|i: int| 0 <= i < self.addresses@.len() && self.addresses@[i] is IpV4
    }

    /// The error is always `InsaneNmapFile`, carrying the first failed
    /// condition's message.
    open spec fn sanity_error(&self, e: Error) -> bool {
        e matches Error::InsaneNmapFile(m) && m@ == self.insane_reason()
    }

    fn is_sane(&self) -> (r: Result<(), Error>)
        ensures
            r is Ok <==> self.sane(),
            r matches Err(e) ==> self.sanity_error(e),
    {
        if self.has_extra_ports() {
            return Err(
                Error::InsaneNmapFile("Host has extraports defined; use nmap -dd ...".to_owned()),
            );
        }
        if self.addresses.len() == 0 {
            return Err(Error::InsaneNmapFile("Host has no addresses".to_owned()));
        }
        let mut i: usize = 0;
        while i < self.addresses.len()
            invariant
                0 <= i <= self.addresses@.len(),
                forall|j: int| 0 <= j < i ==> !(self.addresses@[j] is IpV4),
            decreases self.addresses@.len() - i,
        {
            match self.addresses[i] {
                Address::IpV4 { .. } => {
                    proof {
                        assert(self.addresses@[i as int] is IpV4);
                    }
                    return Ok(());
                },
                _ => {},
            }
            i = i + 1;
        }
        Err(Error::InsaneNmapFile("Host has no IP address".to_owned()))
    }
}

impl SanityCheck for Run {
    type Error = Error;

    /// A run can be analyzed when the scanner was told to enumerate every
    /// scanned port (`-dd` among its arguments) and every host is sane.
    open spec fn sane(&self) -> bool {
        &&& text::contains_seq(self.args@, "-dd"@)
        &&& forall|i: int| 0 <= i < self.hosts@.len() ==> self.hosts@[i].sane()
    }

    /// The error is always `InsaneNmapFile`: the missing `-dd` message,
    /// or the first insane host's message.
    open spec fn sanity_error(&self, e: Error) -> bool {
        e matches Error::InsaneNmapFile(m) && m@ == self.insane_reason()
    }

    fn is_sane(&self) -> (r: Result<(), Error>)
        ensures
            r is Ok <==> self.sane(),
            r matches Err(e) ==> self.sanity_error(e),
    {
        if !self.has_dd_options() {
            return Err(
                Error::InsaneNmapFile(
                    "nmap has been run without -dd option; use nmap -dd ..".to_owned(),
                ),
            );
        }
        let mut i: usize = 0;
        while i < self.hosts.len()
            invariant
                0 <= i <= self.hosts@.len(),
                forall|j: int| 0 <= j < i ==> self.hosts@[j].sane(),
            decreases self.hosts@.len() - i,
        {
            match self.hosts[i].is_sane() {
                Ok(()) => {},
                Err(e) => {
                    proof {
                        lemma_first_insane_host(self.hosts@, i as int);
                    }
                    return Err(e);
                },
            }
            i = i + 1;
        }
        Ok(())
    }
}

} // verus!
