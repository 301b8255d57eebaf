//! The evaluation engine: scan results and port specifications are indexed
//! by IPv4 address, every scanned host is judged against its resolved port
//! specification, and the verdicts are tallied.

use vstd::prelude::*;

use crate::ip::{IpAddr, Ipv4Addr};
use crate::mapping::Mapping;
use crate::nmap::{self, Address, PortStatus, Run};
use crate::portspec::{self, PortSpec, PortSpecs, PortState};

verus! {

/// The verdict for one scanned host.
#[derive(Debug, PartialEq)]
pub enum HostAnalysisSummary {
    Pass,
    Fail,
    Error { reason: String },
}

/// The verdict for one port of a host.
#[derive(Debug, PartialEq)]
pub enum PortAnalysisResult {
    Pass(u16, PortAnalysisReason),
    Fail(u16, PortAnalysisReason),
    NotScanned(u16),
    Unknown(u16),
}

/// Why a port passed or failed: the required state paired with the
/// observed one.
#[derive(Debug, PartialEq)]
pub enum PortAnalysisReason {
    OpenAndOpen,     // Should be open and has been found to be open
    OpenButClosed,   // Should have been open, but was found to be closed
    MaybeAndOpen,    // Should be open or closed, and has been found to be open
    MaybeAndClosed,  // Should be open or closed, and has been found to be closed
    ClosedAndClosed, // Should be closed and has been found to be closed
    ClosedButOpen,   // Should have been closed, but was found to be open
    Unknown,
}

/// The analysis of one host: its address, the name of the port
/// specification it was judged against (if one was found), and the verdicts.
#[derive(Debug)]
pub struct HostAnalysisResult {
    pub ip: Ipv4Addr,
    pub portspec_name: Option<String>,
    pub summary: HostAnalysisSummary,
    pub port_results: Vec<PortAnalysisResult>,
}

/// Whether an observed status counts as open: only `Open` itself does.
pub open spec fn spec_port_open(status: PortStatus) -> bool {
    status is Open
}

/// The required state for a port: the first explicit rule with its id, or
/// implicitly `Closed` when no rule names it.
pub open spec fn spec_rule_state(rules: Seq<portspec::Port>, id: u16) -> PortState
    decreases rules.len(),
{
    if rules.len() == 0 {
        PortState::Closed
    } else if rules[0].id == id {
        rules[0].state
    } else {
        spec_rule_state(rules.drop_first(), id)
    }
}

/// Whether any explicit rule names the port.
pub open spec fn spec_has_rule(rules: Seq<portspec::Port>, id: u16) -> bool {
    exists|i: int| 0 <= i < rules.len() && rules[i].id == id
}

/// The verdict for one scanned port, from the required state and whether
/// the port was observed open.
pub open spec fn spec_port_result(id: u16, state: PortState, open: bool) -> PortAnalysisResult {
    match state {
        PortState::Open => if open {
            PortAnalysisResult::Pass(id, PortAnalysisReason::OpenAndOpen)
        } else {
            PortAnalysisResult::Fail(id, PortAnalysisReason::OpenButClosed)
        },
        PortState::Maybe => if open {
            PortAnalysisResult::Pass(id, PortAnalysisReason::MaybeAndOpen)
        } else {
            PortAnalysisResult::Pass(id, PortAnalysisReason::MaybeAndClosed)
        },
        PortState::Closed => if open {
            PortAnalysisResult::Fail(id, PortAnalysisReason::ClosedButOpen)
        } else {
            PortAnalysisResult::Pass(id, PortAnalysisReason::ClosedAndClosed)
        },
    }
}

/// The verdicts of the scanned ports, in scan order.
pub open spec fn spec_scanned_results(
    ports: Seq<nmap::Port>,
    rules: Seq<portspec::Port>,
) -> Seq<PortAnalysisResult> {
    Seq::new(
        ports.len(),
        |i: int|
            spec_port_result(
                ports[i].id,
                spec_rule_state(rules, ports[i].id),
                spec_port_open(ports[i].status),
            ),
    )
}

/// Whether some scanned port has the given id.
pub open spec fn spec_id_scanned(ports: Seq<nmap::Port>, id: u16) -> bool {
    exists|i: int| 0 <= i < ports.len() && ports[i].id == id
}

/// Whether no earlier rule has the same id as the rule at `i`.
pub open spec fn spec_first_rule_occurrence(rules: Seq<portspec::Port>, i: int) -> bool {
    forall|j: int| 0 <= j < i ==> rules[j].id != rules[i].id
}

/// The `NotScanned` verdicts contributed by the rules from index `i` on:
/// one for each distinct rule id that no scanned port carries, in order of
/// first occurrence among the rules.
pub open spec fn spec_not_scanned_from(
    ports: Seq<nmap::Port>,
    rules: Seq<portspec::Port>,
    i: int,
) -> Seq<PortAnalysisResult>
    decreases rules.len() - i,
{
    if i < 0 || i >= rules.len() {
        Seq::empty()
    } else {
        let rest = spec_not_scanned_from(ports, rules, i + 1);
        if !spec_id_scanned(ports, rules[i].id) && spec_first_rule_occurrence(rules, i) {
            seq![PortAnalysisResult::NotScanned(rules[i].id)] + rest
        } else {
            rest
        }
    }
}

/// All port verdicts of a host: one per scanned port, in scan order,
/// followed by `NotScanned` for every explicit rule left unmatched.
pub open spec fn spec_port_results(
    ports: Seq<nmap::Port>,
    rules: Seq<portspec::Port>,
) -> Seq<PortAnalysisResult> {
    spec_scanned_results(ports, rules) + spec_not_scanned_from(ports, rules, 0)
}

/// Whether every port verdict is a `Pass`.
pub open spec fn spec_all_pass(results: Seq<PortAnalysisResult>) -> bool {
    forall|i: int| 0 <= i < results.len() ==> results[i] is Pass
}

/// The host-level verdict, which is a `Pass` when every port verdict
/// is a `Pass`, and otherwise a `Fail`.
pub open spec fn spec_host_summary(
    ports: Seq<nmap::Port>,
    rules: Seq<portspec::Port>,
) -> HostAnalysisSummary {
    if spec_all_pass(spec_port_results(ports, rules)) {
        HostAnalysisSummary::Pass
    } else {
        HostAnalysisSummary::Fail
    }
}

/// Whether a lookup table is strictly ascending in the numeric value of
/// its IPv4 keys; this also makes every key unique.
pub open spec fn entries_sorted(es: Seq<(Ipv4Addr, usize)>) -> bool {
    forall|i: int, j: int|
        0 <= i < j < es.len() ==> (#[trigger] es[i]).0.as_num() < (#[trigger] es[j]).0.as_num()
}

/// Whether the lookup table maps the address with numeric value `ip` to `v`.
pub open spec fn has_ip_entry(es: Seq<(Ipv4Addr, usize)>, ip: int, v: int) -> bool {
    exists|k: int| 0 <= k < es.len() && (#[trigger] es[k]).0.as_num() == ip && es[k].1 == v
}

/// Whether the lookup table has a value for the address with numeric value
/// `ip`.
pub open spec fn has_ip(es: Seq<(Ipv4Addr, usize)>, ip: int) -> bool {
    exists|k: int| 0 <= k < es.len() && (#[trigger] es[k]).0.as_num() == ip
}

/// Sets the value of `ip` in a sorted lookup table, replacing any value an
/// earlier insertion gave it.
fn ip_index_insert(es: &mut Vec<(Ipv4Addr, usize)>, ip: Ipv4Addr, v: usize)
    requires
        entries_sorted(old(es)@),
    ensures
        entries_sorted(final(es)@),
        has_ip_entry(final(es)@, ip.as_num(), v as int),
        forall|k: int, w: int|
            k != ip.as_num() ==> (has_ip_entry(final(es)@, k, w) <==> has_ip_entry(old(es)@, k, w)),
        forall|w: int| has_ip_entry(final(es)@, ip.as_num(), w) ==> w == v as int,
        forall|k: int| has_ip(final(es)@, k) <==> (has_ip(old(es)@, k) || k == ip.as_num()),
{
    let ghost ipn = ip.as_num();
    let ipnum = ip.num();
    let n = es.len();
    let mut i: usize = 0;
    while i < n && es[i].0.num() < ipnum
        invariant
            0 <= i <= n,
            forall|j: int| 0 <= j < i ==> (#[trigger] es@[j]).0.as_num() < ipn,
        decreases n - i,
    {
        i = i + 1;
    }
    if i < n && es[i].0.num() == ipnum {
        let ghost before = es@;
        let _ = es.remove(i);
        es.insert(i, (ip, v));
        proof {
            assert(es@ =~= before.update(i as int, (ip, v)));
            assert(es@[i as int].0.as_num() == ipn && es@[i as int].1 == v as int);
            assert(has_ip_entry(es@, ipn, v as int));
            assert forall|k: int| has_ip(es@, k) implies (has_ip(before, k) || k == ipn) by {
                let k0 = choose|k0: int| 0 <= k0 < es@.len() && (#[trigger] es@[k0]).0.as_num() == k;
                if k0 != i {
                    assert(before[k0].0.as_num() == k);
                }
            }
            assert forall|k: int| has_ip(before, k) implies has_ip(es@, k) by {
                let k0 = choose|k0: int|
                    0 <= k0 < before.len() && (#[trigger] before[k0]).0.as_num() == k;
                if k0 == i {
                    assert(es@[k0].0.as_num() == ipn);
                    assert(before[k0].0.as_num() == ipn);
                } else {
                    assert(es@[k0].0.as_num() == k);
                }
            }
            assert forall|k: int, w: int| k != ipn && has_ip_entry(es@, k, w) implies has_ip_entry(
                before,
                k,
                w,
            ) by {
                let k0 = choose|k0: int|
                    0 <= k0 < es@.len() && (#[trigger] es@[k0]).0.as_num() == k && es@[k0].1 == w;
                assert(before[k0].0.as_num() == k && before[k0].1 == w);
            }
            assert forall|k: int, w: int| k != ipn && has_ip_entry(before, k, w) implies has_ip_entry(
                es@,
                k,
                w,
            ) by {
                let k0 = choose|k0: int|
                    0 <= k0 < before.len() && (#[trigger] before[k0]).0.as_num() == k
                        && before[k0].1 == w;
                assert(es@[k0].0.as_num() == k && es@[k0].1 == w);
            }
            assert forall|w: int| has_ip_entry(es@, ipn, w) implies w == v as int by {
                let k0 = choose|k0: int|
                    0 <= k0 < es@.len() && (#[trigger] es@[k0]).0.as_num() == ipn && es@[k0].1 == w;
                assert(k0 == i);
            }
        }
    } else {
        let ghost before = es@;
        es.insert(i, (ip, v));
        proof {
            assert forall|a: int, b: int| 0 <= a < b < es@.len() implies (#[trigger] es@[a]).0.as_num()
                < (#[trigger] es@[b]).0.as_num() by {
                if a < i && b < i {
                    assert(es@[a] == before[a] && es@[b] == before[b]);
                } else if a < i && b == i {
                    assert(es@[a] == before[a]);
                } else if a < i && b > i {
                    assert(es@[a] == before[a] && es@[b] == before[b - 1]);
                    assert(before[b - 1].0.as_num() >= ipn) by {
                        if b - 1 > i - 1 && i < before.len() {
                            assert(before[i as int].0.as_num() >= ipn);
                        }
                    }
                } else if a == i && b > i {
                    assert(es@[b] == before[b - 1]);
                    assert(b - 1 >= i);
                    if i < before.len() {
                        assert(before[i as int].0.as_num() > ipn);
                    }
                } else {
                    assert(es@[a] == before[a - 1] && es@[b] == before[b - 1]);
                }
            }
            assert(es@[i as int].0.as_num() == ipn && es@[i as int].1 == v as int);
            assert forall|k: int, w: int| k != ipn && has_ip_entry(es@, k, w) implies has_ip_entry(
                before,
                k,
                w,
            ) by {
                let k0 = choose|k0: int|
                    0 <= k0 < es@.len() && (#[trigger] es@[k0]).0.as_num() == k && es@[k0].1 == w;
                if k0 < i {
                    assert(before[k0].0.as_num() == k && before[k0].1 == w);
                } else {
                    assert(k0 > i);
                    assert(before[k0 - 1].0.as_num() == k && before[k0 - 1].1 == w);
                }
            }
            assert forall|k: int, w: int| k != ipn && has_ip_entry(before, k, w) implies has_ip_entry(
                es@,
                k,
                w,
            ) by {
                let k0 = choose|k0: int|
                    0 <= k0 < before.len() && (#[trigger] before[k0]).0.as_num() == k
                        && before[k0].1 == w;
                if k0 < i {
                    assert(es@[k0].0.as_num() == k && es@[k0].1 == w);
                } else {
                    assert(es@[k0 + 1].0.as_num() == k && es@[k0 + 1].1 == w);
                }
            }
            assert forall|w: int| has_ip_entry(es@, ipn, w) implies w == v as int by {
                let k0 = choose|k0: int|
                    0 <= k0 < es@.len() && (#[trigger] es@[k0]).0.as_num() == ipn && es@[k0].1 == w;
                if k0 < i {
                    assert(before[k0].0.as_num() < ipn);
                } else if k0 > i {
                    assert(es@[k0] == before[k0 - 1]);
                    if k0 - 1 > i - 1 && i < before.len() {
                        assert(before[i as int].0.as_num() > ipn);
                        assert(before[k0 - 1].0.as_num() >= before[i as int].0.as_num() || k0 - 1
                            == i);
                    }
                }
                assert(k0 == i);
            }
            assert(has_ip_entry(es@, ipn, v as int));
            assert forall|k: int| has_ip(es@, k) implies (has_ip(before, k) || k == ipn) by {
                let k0 = choose|k0: int| 0 <= k0 < es@.len() && (#[trigger] es@[k0]).0.as_num() == k;
                if k0 < i {
                    assert(before[k0].0.as_num() == k);
                } else if k0 > i {
                    assert(before[k0 - 1].0.as_num() == k);
                }
            }
            assert forall|k: int| has_ip(before, k) implies has_ip(es@, k) by {
                let k0 = choose|k0: int|
                    0 <= k0 < before.len() && (#[trigger] before[k0]).0.as_num() == k;
                if k0 < i {
                    assert(es@[k0].0.as_num() == k);
                } else {
                    assert(es@[k0 + 1].0.as_num() == k);
                }
            }
        }
    }
}

/// Looks an address up in a lookup table.
fn ip_index_get(es: &Vec<(Ipv4Addr, usize)>, ip: &Ipv4Addr) -> (r: Option<usize>)
    ensures
        match r {
            Some(v) => has_ip_entry(es@, ip.as_num(), v as int),
            None => !has_ip(es@, ip.as_num()),
        },
{
    let ipnum = ip.num();
    let n = es.len();
    let mut i: usize = 0;
    while i < n
        invariant
            0 <= i <= n,
            forall|j: int| 0 <= j < i ==> (#[trigger] es@[j]).0.as_num() != ip.as_num(),
        decreases n - i,
    {
        if es[i].0.num() == ipnum {
            return Some(es[i].1);
        }
        i = i + 1;
    }
    None
}

/// Whether the host has `ip` (by numeric value) among its IPv4 addresses.
pub open spec fn spec_addr_is_ip(a: Address, ip: int) -> bool {
    a matches Address::IpV4 { addr } && addr.as_num() == ip
}

pub open spec fn spec_host_has_ip(h: nmap::Host, ip: int) -> bool {
    exists|i: int| 0 <= i < h.addresses@.len() && spec_addr_is_ip(#[trigger] h.addresses@[i], ip)
}

/// Whether some scanned host has `ip` among its IPv4 addresses.
pub open spec fn spec_ip_scanned(hosts: Seq<nmap::Host>, ip: int) -> bool {
    exists|k: int| 0 <= k < hosts.len() && spec_host_has_ip(#[trigger] hosts[k], ip)
}

/// The index of the host a scanned address resolves to: the last host in
/// the run that carries the address (a later host overrides an earlier
/// one), or -1 when no host carries it.
pub open spec fn spec_host_for_ip(hosts: Seq<nmap::Host>, ip: int) -> int
    decreases hosts.len(),
{
    if hosts.len() == 0 {
        -1
    } else if spec_host_has_ip(hosts.last(), ip) {
        hosts.len() - 1
    } else {
        spec_host_for_ip(hosts.drop_last(), ip)
    }
}

proof fn lemma_host_for_ip(hosts: Seq<nmap::Host>, ip: int)
    ensures
        spec_ip_scanned(hosts, ip) <==> 0 <= spec_host_for_ip(hosts, ip) < hosts.len(),
        spec_ip_scanned(hosts, ip) ==> spec_host_has_ip(hosts[spec_host_for_ip(hosts, ip)], ip),
        !spec_ip_scanned(hosts, ip) ==> spec_host_for_ip(hosts, ip) == -1,
    decreases hosts.len(),
{
    if hosts.len() == 0 {
    } else if spec_host_has_ip(hosts.last(), ip) {
    } else {
        lemma_host_for_ip(hosts.drop_last(), ip);
        assert forall|k: int| 0 <= k < hosts.len() && spec_host_has_ip(
            #[trigger] hosts[k],
            ip,
        ) implies spec_ip_scanned(hosts.drop_last(), ip) by {
            assert(k != hosts.len() - 1);
            assert(hosts.drop_last()[k] == hosts[k]);
        }
        assert(spec_ip_scanned(hosts.drop_last(), ip) ==> spec_ip_scanned(hosts, ip));
    }
}

/// Indexes the scanned hosts of a run by their IPv4 addresses, ascending.
/// When several hosts carry the same address, the last one wins.
pub fn run_to_scanned_hosts_by_ip(nmap_run: &Run) -> (es: Vec<(Ipv4Addr, usize)>)
    ensures
        entries_sorted(es@),
        forall|k: int, w: int|
            has_ip_entry(es@, k, w) ==> w == spec_host_for_ip(nmap_run.hosts@, k),
        forall|k: int| has_ip(es@, k) <==> spec_ip_scanned(nmap_run.hosts@, k),
{
    let hosts = &nmap_run.hosts;
    let nh = hosts.len();
    let mut shbi: Vec<(Ipv4Addr, usize)> = Vec::new();
    let mut k: usize = 0;
    while k < nh
        invariant
            0 <= k <= nh,
            entries_sorted(shbi@),
            forall|p: int, w: int|
                has_ip_entry(shbi@, p, w) ==> w == spec_host_for_ip(hosts@.take(k as int), p),
            forall|p: int| has_ip(shbi@, p) <==> spec_ip_scanned(hosts@.take(k as int), p),
        decreases nh - k,
    {
        let host = &hosts[k];
        let na = host.addresses.len();
        let mut j: usize = 0;
        while j < na
            invariant
                0 <= j <= na,
                entries_sorted(shbi@),
                forall|p: int, w: int|
                    has_ip_entry(shbi@, p, w) ==> if spec_prefix_has_ip(
                        host.addresses@,
                        j as int,
                        p,
                    ) {
                        w == k as int
                    } else {
                        w == spec_host_for_ip(hosts@.take(k as int), p)
                    },
                forall|p: int|
                    has_ip(shbi@, p) <==> (spec_ip_scanned(hosts@.take(k as int), p)
                        || spec_prefix_has_ip(host.addresses@, j as int, p)),
            decreases na - j,
        {
            match &host.addresses[j] {
                Address::IpV4 { addr } => {
                    let a = *addr;
                    ip_index_insert(&mut shbi, a, k);
                    proof {
                        assert(spec_addr_is_ip(host.addresses@[j as int], a.as_num()));
                        assert(spec_prefix_has_ip(host.addresses@, j + 1, a.as_num()));
                    }
                },
                _ => {},
            }
            proof {
                assert forall|p: int|
                    spec_prefix_has_ip(host.addresses@, j + 1, p) && !spec_prefix_has_ip(
                        host.addresses@,
                        j as int,
                        p,
                    ) implies spec_addr_is_ip(host.addresses@[j as int], p) by {
                    let t = choose|t: int|
                        0 <= t < j + 1 && t < host.addresses@.len() && spec_addr_is_ip(
                            #[trigger] host.addresses@[t],
                            p,
                        );
                    assert(t == j);
                }
            }
            j = j + 1;
        }
        proof {
            assert(hosts@.take(k + 1).drop_last() =~= hosts@.take(k as int));
            assert(hosts@.take(k + 1).last() == hosts@[k as int]);
            assert forall|p: int| spec_prefix_has_ip(host.addresses@, na as int, p)
                == spec_host_has_ip(hosts@[k as int], p) by {}
            assert forall|p: int, w: int| has_ip_entry(shbi@, p, w) implies w == spec_host_for_ip(
                hosts@.take(k + 1),
                p,
            ) by {
                if spec_host_has_ip(hosts@[k as int], p) {
                } else {
                }
            }
            assert forall|p: int| has_ip(shbi@, p) <==> spec_ip_scanned(hosts@.take(k + 1), p) by {
                if spec_ip_scanned(hosts@.take(k + 1), p) {
                    let t = choose|t: int|
                        0 <= t < hosts@.take(k + 1).len() && spec_host_has_ip(
                            #[trigger] hosts@.take(k + 1)[t],
                            p,
                        );
                    if t == k {
                        assert(spec_host_has_ip(hosts@[k as int], p));
                    } else {
                        assert(spec_host_has_ip(hosts@.take(k as int)[t], p));
                        assert(spec_ip_scanned(hosts@.take(k as int), p));
                    }
                }
                if spec_ip_scanned(hosts@.take(k as int), p) {
                    let t = choose|t: int|
                        0 <= t < hosts@.take(k as int).len() && spec_host_has_ip(
                            #[trigger] hosts@.take(k as int)[t],
                            p,
                        );
                    assert(spec_host_has_ip(hosts@.take(k + 1)[t], p));
                }
            }
        }
        k = k + 1;
    }
    proof {
        assert(hosts@.take(nh as int) =~= hosts@);
    }
    shbi
}

/// Whether one of the first `j` addresses is the IPv4 address with numeric
/// value `ip`.
pub open spec fn spec_prefix_has_ip(addrs: Seq<Address>, j: int, ip: int) -> bool {
    exists|t: int| 0 <= t < j && t < addrs.len() && spec_addr_is_ip(#[trigger] addrs[t], ip)
}

/// Whether some port specification carries the name.
pub open spec fn spec_name_defined(specs: Seq<PortSpec>, name: Seq<char>) -> bool {
    exists|i: int| 0 <= i < specs.len() && (#[trigger] specs[i]).name@ == name
}

/// The index of the port specification a name resolves to: the last one
/// with that name (a later specification overrides an earlier one), or -1
/// when none has it.
pub open spec fn spec_idx_by_name(specs: Seq<PortSpec>, name: Seq<char>) -> int
    decreases specs.len(),
{
    if specs.len() == 0 {
        -1
    } else if specs.last().name@ == name {
        specs.len() - 1
    } else {
        spec_idx_by_name(specs.drop_last(), name)
    }
}

proof fn lemma_idx_by_name(specs: Seq<PortSpec>, name: Seq<char>)
    ensures
        spec_name_defined(specs, name) <==> 0 <= spec_idx_by_name(specs, name) < specs.len(),
        spec_name_defined(specs, name) ==> specs[spec_idx_by_name(specs, name)].name@ == name,
        !spec_name_defined(specs, name) ==> spec_idx_by_name(specs, name) == -1,
    decreases specs.len(),
{
    if specs.len() == 0 {
    } else if specs.last().name@ == name {
    } else {
        lemma_idx_by_name(specs.drop_last(), name);
        assert forall|i: int| 0 <= i < specs.len() && (#[trigger] specs[i]).name@
            == name implies spec_name_defined(specs.drop_last(), name) by {
            assert(i != specs.len() - 1);
            assert(specs.drop_last()[i] == specs[i]);
        }
        assert(spec_name_defined(specs.drop_last(), name) ==> spec_name_defined(specs, name));
    }
}

/// The position of a name among the keyed entries.
fn name_position(entries: &Vec<(String, usize)>, name: &String) -> (r: Option<usize>)
    ensures
        match r {
            Some(t) => t < entries@.len() && entries@[t as int].0@ == name@,
            None => forall|t: int| 0 <= t < entries@.len() ==> (#[trigger] entries@[t]).0@ != name@,
        },
{
    let n = entries.len();
    let mut i: usize = 0;
    while i < n
        invariant
            0 <= i <= n,
            forall|t: int| 0 <= t < i ==> (#[trigger] entries@[t]).0@ != name@,
        decreases n - i,
    {
        if entries[i].0 == *name {
            return Some(i);
        }
        i = i + 1;
    }
    None
}

/// Indexes the port specifications by name.  When several carry the same
/// name, the last one wins.
pub fn portspecs_to_portspec_by_name(portspecs: &PortSpecs) -> (r: Vec<(String, usize)>)
    ensures
        forall|i: int, j: int|
            0 <= i < j < r@.len() ==> (#[trigger] r@[i]).0@ != (#[trigger] r@[j]).0@,
        forall|i: int|
            0 <= i < r@.len() ==> (#[trigger] r@[i]).1 == spec_idx_by_name(
                portspecs.port_specs@,
                r@[i].0@,
            ) && 0 <= r@[i].1 < portspecs.port_specs@.len(),
        forall|name: Seq<char>|
            spec_name_defined(portspecs.port_specs@, name) ==> exists|i: int|
                0 <= i < r@.len() && (#[trigger] r@[i]).0@ == name,
{
    let specs = &portspecs.port_specs;
    let ns = specs.len();
    let mut wbn: Vec<(String, usize)> = Vec::new();
    let mut w: usize = 0;
    while w < ns
        invariant
            0 <= w <= ns,
            forall|i: int, j: int|
                0 <= i < j < wbn@.len() ==> (#[trigger] wbn@[i]).0@ != (#[trigger] wbn@[j]).0@,
            forall|i: int|
                0 <= i < wbn@.len() ==> (#[trigger] wbn@[i]).1 == spec_idx_by_name(
                    specs@.take(w as int),
                    wbn@[i].0@,
                ) && 0 <= wbn@[i].1 < w,
            forall|name: Seq<char>|
                spec_name_defined(specs@.take(w as int), name) ==> exists|i: int|
                    0 <= i < wbn@.len() && (#[trigger] wbn@[i]).0@ == name,
        decreases ns - w,
    {
        let ghost prefix = specs@.take(w as int);
        let ghost longer = specs@.take(w + 1);
        proof {
            assert(longer.drop_last() =~= prefix);
            assert(longer.last() == specs@[w as int]);
            assert(spec_idx_by_name(longer, specs@[w as int].name@) == w);
            assert forall|name: Seq<char>| name != specs@[w as int].name@ implies spec_idx_by_name(
                longer,
                name,
            ) == spec_idx_by_name(prefix, name) by {}
            assert forall|name: Seq<char>|
                spec_name_defined(longer, name) && name != specs@[w as int].name@
                    implies spec_name_defined(prefix, name) by {
                let i = choose|i: int|
                    0 <= i < longer.len() && (#[trigger] longer[i]).name@ == name;
                assert(i != w);
                assert(prefix[i] == longer[i]);
            }
        }
        let ghost before0 = wbn@;
        let name = &specs[w].name;
        match name_position(&wbn, name) {
            Some(t) => {
                let _ = wbn.remove(t);
                wbn.insert(t, (name.clone(), w));
                proof {
                    assert(wbn@ =~= before0.update(t as int, (specs@[w as int].name, w)));
                    assert(wbn@[t as int].0@ == specs@[w as int].name@);
                    assert forall|name2: Seq<char>|
                        spec_name_defined(longer, name2) implies exists|i: int|
                        0 <= i < wbn@.len() && (#[trigger] wbn@[i]).0@ == name2 by {
                        if name2 == specs@[w as int].name@ {
                            assert(wbn@[t as int].0@ == name2);
                        } else {
                            assert(spec_name_defined(prefix, name2));
                            let i = choose|i: int|
                                0 <= i < before0.len() && (#[trigger] before0[i]).0@ == name2;
                            assert(i != t);
                            assert(wbn@[i].0@ == name2);
                        }
                    }
                    assert forall|i: int| 0 <= i < wbn@.len() implies (#[trigger] wbn@[i]).1
                        == spec_idx_by_name(longer, wbn@[i].0@) && 0 <= wbn@[i].1 < w + 1 by {
                        if i == t {
                        } else {
                            assert(wbn@[i] == before0[i]);
                            assert(before0[i].0@ != before0[t as int].0@);
                        }
                    }
                }
            },
            None => {
                wbn.push((name.clone(), w));
                proof {
                    assert(wbn@ =~= before0.push((specs@[w as int].name, w)));
                    assert(wbn@[before0.len() as int].0@ == specs@[w as int].name@);
                    assert forall|name2: Seq<char>|
                        spec_name_defined(longer, name2) implies exists|i: int|
                        0 <= i < wbn@.len() && (#[trigger] wbn@[i]).0@ == name2 by {
                        if name2 == specs@[w as int].name@ {
                            assert(wbn@[before0.len() as int].0@ == name2);
                        } else {
                            assert(spec_name_defined(prefix, name2));
                            let i = choose|i: int|
                                0 <= i < before0.len() && (#[trigger] before0[i]).0@ == name2;
                            assert(wbn@[i].0@ == name2);
                        }
                    }
                    assert forall|i: int| 0 <= i < wbn@.len() implies (#[trigger] wbn@[i]).1
                        == spec_idx_by_name(longer, wbn@[i].0@) && 0 <= wbn@[i].1 < w + 1 by {
                        if i == before0.len() {
                        } else {
                            assert(wbn@[i] == before0[i]);
                            assert(before0[i].0@ != specs@[w as int].name@);
                        }
                    }
                }
            },
        }
        w = w + 1;
    }
    proof {
        assert(specs@.take(ns as int) =~= specs@);
    }
    wbn
}

/// Whether the address is the IPv4 address with numeric value `ip`.
pub open spec fn spec_ipaddr_is_v4(a: IpAddr, ip: int) -> bool {
    a matches IpAddr::V4(v4) && v4.as_num() == ip
}

/// Whether the mapping entry lists the IPv4 address with numeric value `ip`.
pub open spec fn spec_mapping_has_ip(m: crate::mapping::Host, ip: int) -> bool {
    exists|i: int| 0 <= i < m.ips@.len() && spec_ipaddr_is_v4(#[trigger] m.ips@[i], ip)
}

/// Whether one of the first `j` listed addresses is the IPv4 address with
/// numeric value `ip`.
pub open spec fn spec_mapping_prefix_has_ip(ips: Seq<IpAddr>, j: int, ip: int) -> bool {
    exists|t: int| 0 <= t < j && t < ips.len() && spec_ipaddr_is_v4(#[trigger] ips[t], ip)
}

/// Whether some mapping entry with a resolvable port specification name
/// lists the address.
pub open spec fn spec_ip_mapped(
    mappings: Seq<crate::mapping::Host>,
    specs: Seq<PortSpec>,
    ip: int,
) -> bool {
    exists|k: int|
        0 <= k < mappings.len() && spec_name_defined(specs, (#[trigger] mappings[k]).port_spec@)
            && spec_mapping_has_ip(mappings[k], ip)
}

/// The index of the port specification an address resolves to: the one
/// named by the last mapping entry that lists the address and whose name
/// resolves (a later entry overrides an earlier one), or -1 when no entry
/// does.
pub open spec fn spec_portspec_for_ip(
    mappings: Seq<crate::mapping::Host>,
    specs: Seq<PortSpec>,
    ip: int,
) -> int
    decreases mappings.len(),
{
    if mappings.len() == 0 {
        -1
    } else if spec_name_defined(specs, mappings.last().port_spec@) && spec_mapping_has_ip(
        mappings.last(),
        ip,
    ) {
        spec_idx_by_name(specs, mappings.last().port_spec@)
    } else {
        spec_portspec_for_ip(mappings.drop_last(), specs, ip)
    }
}

proof fn lemma_portspec_for_ip(mappings: Seq<crate::mapping::Host>, specs: Seq<PortSpec>, ip: int)
    ensures
        spec_ip_mapped(mappings, specs, ip) <==> 0 <= spec_portspec_for_ip(mappings, specs, ip)
            < specs.len(),
        !spec_ip_mapped(mappings, specs, ip) ==> spec_portspec_for_ip(mappings, specs, ip) == -1,
    decreases mappings.len(),
{
    if mappings.len() == 0 {
    } else if spec_name_defined(specs, mappings.last().port_spec@) && spec_mapping_has_ip(
        mappings.last(),
        ip,
    ) {
        lemma_idx_by_name(specs, mappings.last().port_spec@);
    } else {
        lemma_portspec_for_ip(mappings.drop_last(), specs, ip);
        assert forall|k: int|
            0 <= k < mappings.len() && spec_name_defined(
                specs,
                (#[trigger] mappings[k]).port_spec@,
            ) && spec_mapping_has_ip(mappings[k], ip) implies spec_ip_mapped(
            mappings.drop_last(),
            specs,
            ip,
        ) by {
            assert(k != mappings.len() - 1);
            assert(mappings.drop_last()[k] == mappings[k]);
        }
        assert(spec_ip_mapped(mappings.drop_last(), specs, ip) ==> spec_ip_mapped(
            mappings,
            specs,
            ip,
        ));
    }
}

/// Indexes the port specifications by the IPv4 addresses the mapping
/// assigns them to, ascending.  An entry whose name resolves to no port
/// specification is dropped; when several entries list the same address,
/// the last one wins.
pub fn portspec_by_ip(mapping: &Mapping, portspec: &PortSpecs) -> (es: Vec<(Ipv4Addr, usize)>)
    ensures
        entries_sorted(es@),
        forall|p: int, w: int|
            has_ip_entry(es@, p, w) ==> w == spec_portspec_for_ip(
                mapping.mappings@,
                portspec.port_specs@,
                p,
            ),
        forall|p: int|
            has_ip(es@, p) <==> spec_ip_mapped(mapping.mappings@, portspec.port_specs@, p),
{
    let pss = portspecs_to_portspec_by_name(portspec);
    let ghost specs = portspec.port_specs@;
    let mappings = &mapping.mappings;
    let nm = mappings.len();
    let mut psbi: Vec<(Ipv4Addr, usize)> = Vec::new();
    let mut k: usize = 0;
    while k < nm
        invariant
            0 <= k <= nm,
            entries_sorted(psbi@),
            forall|p: int, w: int|
                has_ip_entry(psbi@, p, w) ==> w == spec_portspec_for_ip(
                    mappings@.take(k as int),
                    specs,
                    p,
                ),
            forall|p: int|
                has_ip(psbi@, p) <==> spec_ip_mapped(mappings@.take(k as int), specs, p),
        decreases nm - k,
    {
        let ghost prefix = mappings@.take(k as int);
        let ghost longer = mappings@.take(k + 1);
        proof {
            assert(longer.drop_last() =~= prefix);
            assert(longer.last() == mappings@[k as int]);
        }
        let m = &mappings[k];
        match name_position(&pss, &m.port_spec) {
            Some(t) => {
                let w = pss[t].1;
                proof {
                    assert(pss@[t as int].0@ == m.port_spec@);
                    assert(w == spec_idx_by_name(specs, m.port_spec@));
                    assert(spec_name_defined(specs, m.port_spec@)) by {
                        lemma_idx_by_name(specs, m.port_spec@);
                    }
                }
                let ni = m.ips.len();
                let mut j: usize = 0;
                while j < ni
                    invariant
                        0 <= j <= ni,
                        entries_sorted(psbi@),
                        forall|p: int, v: int|
                            has_ip_entry(psbi@, p, v) ==> if spec_mapping_prefix_has_ip(
                                m.ips@,
                                j as int,
                                p,
                            ) {
                                v == w as int
                            } else {
                                v == spec_portspec_for_ip(prefix, specs, p)
                            },
                        forall|p: int|
                            has_ip(psbi@, p) <==> (spec_ip_mapped(prefix, specs, p)
                                || spec_mapping_prefix_has_ip(m.ips@, j as int, p)),
                    decreases ni - j,
                {
                    match &m.ips[j] {
                        IpAddr::V4(addr) => {
                            let a = *addr;
                            ip_index_insert(&mut psbi, a, w);
                            proof {
                                assert(spec_ipaddr_is_v4(m.ips@[j as int], a.as_num()));
                                assert(spec_mapping_prefix_has_ip(m.ips@, j + 1, a.as_num()));
                            }
                        },
                        _ => {},
                    }
                    proof {
                        assert forall|p: int|
                            spec_mapping_prefix_has_ip(m.ips@, j + 1, p)
                                && !spec_mapping_prefix_has_ip(
                                m.ips@,
                                j as int,
                                p,
                            ) implies spec_ipaddr_is_v4(m.ips@[j as int], p) by {
                            let t2 = choose|t2: int|
                                0 <= t2 < j + 1 && t2 < m.ips@.len() && spec_ipaddr_is_v4(
                                    #[trigger] m.ips@[t2],
                                    p,
                                );
                            assert(t2 == j);
                        }
                    }
                    j = j + 1;
                }
                proof {
                    assert forall|p: int| spec_mapping_prefix_has_ip(m.ips@, ni as int, p)
                        == spec_mapping_has_ip(mappings@[k as int], p) by {}
                    assert forall|p: int, v: int| has_ip_entry(psbi@, p, v) implies v
                        == spec_portspec_for_ip(longer, specs, p) by {
                        if spec_mapping_has_ip(mappings@[k as int], p) {
                        } else {
                        }
                    }
                    assert forall|p: int| has_ip(psbi@, p) <==> spec_ip_mapped(longer, specs, p) by {
                        if spec_ip_mapped(longer, specs, p) {
                            let t2 = choose|t2: int|
                                0 <= t2 < longer.len() && spec_name_defined(
                                    specs,
                                    (#[trigger] longer[t2]).port_spec@,
                                ) && spec_mapping_has_ip(longer[t2], p);
                            if t2 == k {
                                assert(spec_mapping_has_ip(mappings@[k as int], p));
                            } else {
                                assert(longer[t2] == prefix[t2]);
                                assert(spec_ip_mapped(prefix, specs, p));
                            }
                        }
                        if spec_ip_mapped(prefix, specs, p) {
                            let t2 = choose|t2: int|
                                0 <= t2 < prefix.len() && spec_name_defined(
                                    specs,
                                    (#[trigger] prefix[t2]).port_spec@,
                                ) && spec_mapping_has_ip(prefix[t2], p);
                            assert(spec_name_defined(specs, longer[t2].port_spec@)
                                && spec_mapping_has_ip(longer[t2], p));
                        }
                        if spec_mapping_has_ip(mappings@[k as int], p) {
                            assert(spec_name_defined(specs, longer[k as int].port_spec@)
                                && spec_mapping_has_ip(longer[k as int], p));
                        }
                    }
                }
            },
            None => {
                proof {
                    assert forall|name: Seq<char>|
                        spec_name_defined(specs, name) implies name != mappings@[k as int].port_spec@
                         by {
                        let i = choose|i: int|
                            0 <= i < pss@.len() && (#[trigger] pss@[i]).0@ == name;
                    }
                    assert(!spec_name_defined(specs, mappings@[k as int].port_spec@));
                    assert forall|p: int, v: int| has_ip_entry(psbi@, p, v) implies v
                        == spec_portspec_for_ip(longer, specs, p) by {}
                    assert forall|p: int| has_ip(psbi@, p) <==> spec_ip_mapped(longer, specs, p) by {
                        if spec_ip_mapped(longer, specs, p) {
                            let t2 = choose|t2: int|
                                0 <= t2 < longer.len() && spec_name_defined(
                                    specs,
                                    (#[trigger] longer[t2]).port_spec@,
                                ) && spec_mapping_has_ip(longer[t2], p);
                            assert(t2 != k);
                            assert(longer[t2] == prefix[t2]);
                            assert(spec_ip_mapped(prefix, specs, p));
                        }
                        if spec_ip_mapped(prefix, specs, p) {
                            let t2 = choose|t2: int|
                                0 <= t2 < prefix.len() && spec_name_defined(
                                    specs,
                                    (#[trigger] prefix[t2]).port_spec@,
                                ) && spec_mapping_has_ip(prefix[t2], p);
                            assert(spec_name_defined(specs, longer[t2].port_spec@)
                                && spec_mapping_has_ip(longer[t2], p));
                        }
                    }
                }
            },
        }
        k = k + 1;
    }
    proof {
        assert(mappings@.take(nm as int) =~= mappings@);
    }
    psbi
}

/// The required state for the port `id`: the first matching explicit rule,
/// or the implicit `Closed` rule.
fn rule_state_for(rules: &Vec<portspec::Port>, id: u16) -> (s: PortState)
    ensures
        s == spec_rule_state(rules@, id),
{
    let n = rules.len();
    let mut i: usize = 0;
    proof {
        assert(rules@.skip(0) =~= rules@);
    }
    while i < n
        invariant
            0 <= i <= n,
            spec_rule_state(rules@, id) == spec_rule_state(rules@.skip(i as int), id),
        decreases n - i,
    {
        proof {
            assert(rules@.skip(i as int)[0] == rules@[i as int]);
        }
        if rules[i].id == id {
            return rules[i].state;
        }
        proof {
            assert(rules@.skip(i as int).drop_first() =~= rules@.skip(i + 1));
        }
        i = i + 1;
    }
    proof {
        assert(rules@.skip(i as int).len() == 0);
    }
    PortState::Closed
}

/// Whether some scanned port of `ports` has the id `id`.
fn id_scanned(ports: &Vec<nmap::Port>, id: u16) -> (r: bool)
    ensures
        r == spec_id_scanned(ports@, id),
{
    let n = ports.len();
    let mut i: usize = 0;
    while i < n
        invariant
            0 <= i <= n,
            forall|j: int| 0 <= j < i ==> ports@[j].id != id,
        decreases n - i,
    {
        if ports[i].id == id {
            return true;
        }
        i = i + 1;
    }
    false
}

/// Whether no rule before index `i` has the same id as the rule at `i`.
fn first_rule_occurrence(rules: &Vec<portspec::Port>, i: usize) -> (r: bool)
    requires
        i < rules@.len(),
    ensures
        r == spec_first_rule_occurrence(rules@, i as int),
{
    let id = rules[i].id;
    let mut j: usize = 0;
    while j < i
        invariant
            0 <= j <= i,
            forall|t: int| 0 <= t < j ==> rules@[t].id != id,
        decreases i - j,
    {
        if rules[j].id == id {
            return false;
        }
        j = j + 1;
    }
    true
}

/// Analyzes the scan results of one host against the port specification
/// its address is mapped to.
///
/// Every scanned port is judged against the first explicit rule with its
/// id, or against the implicit `Closed` rule when no rule names it.  Every
/// explicit rule whose port was never scanned yields a `NotScanned`
/// verdict.  The host passes exactly when every port verdict is a `Pass`.
pub fn analyze_host(ip: &Ipv4Addr, host: &nmap::Host, portspec: &PortSpec) -> (r:
    HostAnalysisResult)
    ensures
        r.ip == *ip,
        r.portspec_name matches Some(n) && n@ == portspec.name@,
        r.port_results@ == spec_port_results(host.ports@, portspec.ports@),
        r.summary == spec_host_summary(host.ports@, portspec.ports@),
{
    let n = host.ports.len();
    let mut ports: Vec<PortAnalysisResult> = Vec::new();
    let mut k: usize = 0;
    while k < n
        invariant
            0 <= k <= n,
            ports@.len() == k,
            forall|t: int|
                0 <= t < k ==> ports@[t] == spec_scanned_results(host.ports@, portspec.ports@)[t],
        decreases n - k,
    {
        let port = &host.ports[k];
        let state = rule_state_for(&portspec.ports, port.id);
        let open = match port.status {
            PortStatus::Open => true,
            _ => false,
        };
        let par = match state {
            PortState::Open => if open {
                PortAnalysisResult::Pass(port.id, PortAnalysisReason::OpenAndOpen)
            } else {
                PortAnalysisResult::Fail(port.id, PortAnalysisReason::OpenButClosed)
            },
            PortState::Maybe => if open {
                PortAnalysisResult::Pass(port.id, PortAnalysisReason::MaybeAndOpen)
            } else {
                PortAnalysisResult::Pass(port.id, PortAnalysisReason::MaybeAndClosed)
            },
            PortState::Closed => if open {
                PortAnalysisResult::Fail(port.id, PortAnalysisReason::ClosedButOpen)
            } else {
                PortAnalysisResult::Pass(port.id, PortAnalysisReason::ClosedAndClosed)
            },
        };
        ports.push(par);
        k = k + 1;
    }
    proof {
        assert(ports@ =~= spec_scanned_results(host.ports@, portspec.ports@));
    }

    let m = portspec.ports.len();
    let mut i: usize = 0;
    while i < m
        invariant
            0 <= i <= m,
            m == portspec.ports@.len(),
            ports@ + spec_not_scanned_from(host.ports@, portspec.ports@, i as int)
                =~= spec_port_results(host.ports@, portspec.ports@),
        decreases m - i,
    {
        let ghost before = ports@;
        let id = portspec.ports[i].id;
        if !id_scanned(&host.ports, id) && first_rule_occurrence(&portspec.ports, i) {
            ports.push(PortAnalysisResult::NotScanned(id));
            proof {
                let h = host.ports@;
                let ru = portspec.ports@;
                assert(spec_not_scanned_from(h, ru, i as int) =~= seq![
                    PortAnalysisResult::NotScanned(id),
                ] + spec_not_scanned_from(h, ru, i + 1));
                assert(ports@ + spec_not_scanned_from(h, ru, i + 1) =~= before
                    + spec_not_scanned_from(h, ru, i as int));
            }
        } else {
            proof {
                let h = host.ports@;
                let ru = portspec.ports@;
                assert(spec_not_scanned_from(h, ru, i as int) =~= spec_not_scanned_from(
                    h,
                    ru,
                    i + 1,
                ));
            }
        }
        i = i + 1;
    }
    proof {
        assert(ports@ =~= spec_port_results(host.ports@, portspec.ports@));
    }

    let len = ports.len();
    let mut failed: usize = 0;
    let mut t: usize = 0;
    while t < len
        invariant
            0 <= t <= len,
            failed <= t,
            (failed == 0) <==> (forall|u: int| 0 <= u < t ==> ports@[u] is Pass),
        decreases len - t,
    {
        match &ports[t] {
            PortAnalysisResult::Pass(_, _) => {},
            _ => {
                failed = failed + 1;
            },
        }
        t = t + 1;
    }
    let summary = if failed > 0 {
        HostAnalysisSummary::Fail
    } else {
        HostAnalysisSummary::Pass
    };

    HostAnalysisResult {
        ip: *ip,
        portspec_name: Some(portspec.name.clone()),
        summary,
        port_results: ports,
    }
}

/// Whether `r` is the analysis of `host` against the port specification
/// `ps` for the address `ip`.
pub open spec fn spec_analyzed(
    r: HostAnalysisResult,
    ip: Ipv4Addr,
    host: nmap::Host,
    ps: PortSpec,
) -> bool {
    &&& r.ip == ip
    &&& r.portspec_name matches Some(n) && n@ == ps.name@
    &&& r.port_results@ == spec_port_results(host.ports@, ps.ports@)
    &&& r.summary == spec_host_summary(host.ports@, ps.ports@)
}

/// Whether `r` is the verdict for a scanned address that no port
/// specification governs.
pub open spec fn spec_unmapped_result(r: HostAnalysisResult, ip: Ipv4Addr) -> bool {
    &&& r.ip == ip
    &&& r.portspec_name is None
    &&& r.summary matches HostAnalysisSummary::Error { reason } && reason@
        == "no policy found for this IP address"@
    &&& r.port_results@ == Seq::<PortAnalysisResult>::empty()
}

/// Whether `r` is the right analysis for the host table entry
/// `(ip, hi)`, judged against the portspec lookup table `policies`.
pub open spec fn spec_result_matches(
    r: HostAnalysisResult,
    ip: Ipv4Addr,
    hi: int,
    policies: Seq<(Ipv4Addr, usize)>,
    run: Run,
    portspecs: PortSpecs,
) -> bool {
    if has_ip(policies, ip.as_num()) {
        forall|pi: int|
            has_ip_entry(policies, ip.as_num(), pi) ==> spec_analyzed(
                r,
                ip,
                run.hosts@[hi],
                portspecs.port_specs@[pi],
            )
    } else {
        spec_unmapped_result(r, ip)
    }
}

proof fn lemma_entry_unique(es: Seq<(Ipv4Addr, usize)>, p: int, w1: int, w2: int)
    requires
        entries_sorted(es),
        has_ip_entry(es, p, w1),
        has_ip_entry(es, p, w2),
    ensures
        w1 == w2,
{
    let k1 = choose|k1: int| 0 <= k1 < es.len() && (#[trigger] es[k1]).0.as_num() == p && es[k1].1 == w1;
    let k2 = choose|k2: int| 0 <= k2 < es.len() && (#[trigger] es[k2]).0.as_num() == p && es[k2].1 == w2;
    if k1 < k2 {
        assert(es[k1].0.as_num() < es[k2].0.as_num());
    } else if k2 < k1 {
        assert(es[k2].0.as_num() < es[k1].0.as_num());
    }
}

/// The analyzer: the scan results and port specifications of one run,
/// indexed by IPv4 address.
pub struct Analyzer {
    run: Run,
    portspecs: PortSpecs,
    scanned_host_by_ip: Vec<(Ipv4Addr, usize)>,
    portspec_by_ip: Vec<(Ipv4Addr, usize)>,
}

impl Analyzer {
    /// The scan run the analyzer was built from.
    pub closed spec fn spec_run(&self) -> Run {
        self.run
    }

    /// The port specifications the analyzer was built from.
    pub closed spec fn spec_portspecs(&self) -> PortSpecs {
        self.portspecs
    }

    /// The host lookup table: scanned addresses ascending, each with the
    /// index of its host in the run.
    pub closed spec fn host_entries(&self) -> Seq<(Ipv4Addr, usize)> {
        self.scanned_host_by_ip@
    }

    /// The portspec lookup table: mapped addresses, each with the index of
    /// the port specification governing it.
    pub closed spec fn policy_entries(&self) -> Seq<(Ipv4Addr, usize)> {
        self.portspec_by_ip@
    }

    /// The internal consistency of the lookup tables: sorted, and every
    /// value a valid index.
    pub closed spec fn wf(&self) -> bool {
        &&& entries_sorted(self.scanned_host_by_ip@)
        &&& entries_sorted(self.portspec_by_ip@)
        &&& forall|p: int, w: int|
            has_ip_entry(self.scanned_host_by_ip@, p, w) ==> 0 <= w < self.run.hosts@.len()
        &&& forall|p: int, w: int|
            has_ip_entry(self.portspec_by_ip@, p, w) ==> 0 <= w
                < self.portspecs.port_specs@.len()
    }

    /// Builds the two lookup tables for a run.
    pub fn new(nmap_run: Run, mapping: &Mapping, portspecs: PortSpecs) -> (a: Analyzer)
        ensures
            a.wf(),
            a.spec_run() == nmap_run,
            a.spec_portspecs() == portspecs,
            entries_sorted(a.host_entries()),
            forall|p: int, w: int|
                has_ip_entry(a.host_entries(), p, w) ==> w == spec_host_for_ip(nmap_run.hosts@, p),
            forall|p: int| has_ip(a.host_entries(), p) <==> spec_ip_scanned(nmap_run.hosts@, p),
            forall|p: int, w: int|
                has_ip_entry(a.policy_entries(), p, w) ==> w == spec_portspec_for_ip(
                    mapping.mappings@,
                    portspecs.port_specs@,
                    p,
                ),
            forall|p: int|
                has_ip(a.policy_entries(), p) <==> spec_ip_mapped(
                    mapping.mappings@,
                    portspecs.port_specs@,
                    p,
                ),
    {
        let scanned_host_by_ip = run_to_scanned_hosts_by_ip(&nmap_run);
        let psbi = portspec_by_ip(mapping, &portspecs);
        proof {
            assert forall|p: int, w: int| has_ip_entry(scanned_host_by_ip@, p, w) implies 0 <= w
                < nmap_run.hosts@.len() by {
                let k0 = choose|k0: int|
                    0 <= k0 < scanned_host_by_ip@.len() && (#[trigger] scanned_host_by_ip@[k0]).0.as_num()
                        == p && scanned_host_by_ip@[k0].1 == w;
                assert(has_ip(scanned_host_by_ip@, p));
                lemma_host_for_ip(nmap_run.hosts@, p);
            }
            assert forall|p: int, w: int| has_ip_entry(psbi@, p, w) implies 0 <= w
                < portspecs.port_specs@.len() by {
                let k0 = choose|k0: int|
                    0 <= k0 < psbi@.len() && (#[trigger] psbi@[k0]).0.as_num() == p
                        && psbi@[k0].1 == w;
                assert(has_ip(psbi@, p));
                lemma_portspec_for_ip(mapping.mappings@, portspecs.port_specs@, p);
            }
        }
        Analyzer { run: nmap_run, portspecs, scanned_host_by_ip, portspec_by_ip: psbi }
    }

    /// Produces one analysis per scanned address, in ascending address
    /// order.  An address with no resolvable port specification yields an
    /// `Error` verdict; the run goes on with the other hosts.
    pub fn analyze_hosts(&self) -> (rs: Vec<HostAnalysisResult>)
        requires
            self.wf(),
        ensures
            rs@.len() == self.host_entries().len(),
            forall|i: int|
                0 <= i < rs@.len() ==> rs@[i].ip == (#[trigger] self.host_entries()[i]).0,
            forall|i: int|
                0 <= i < rs@.len() ==> spec_result_matches(
                    #[trigger] rs@[i],
                    self.host_entries()[i].0,
                    self.host_entries()[i].1 as int,
                    self.policy_entries(),
                    self.spec_run(),
                    self.spec_portspecs(),
                ),
    {
        let n = self.scanned_host_by_ip.len();
        let mut results: Vec<HostAnalysisResult> = Vec::new();
        let mut i: usize = 0;
        while i < n
            invariant
                0 <= i <= n,
                results@.len() == i,
                forall|t: int|
                    0 <= t < i ==> results@[t].ip == (#[trigger] self.host_entries()[t]).0,
                forall|t: int|
                    0 <= t < i ==> spec_result_matches(
                        #[trigger] results@[t],
                        self.host_entries()[t].0,
                        self.host_entries()[t].1 as int,
                        self.policy_entries(),
                        self.spec_run(),
                        self.spec_portspecs(),
                    ),
            decreases n - i,
        {
            let ip = self.scanned_host_by_ip[i].0;
            let hi = self.scanned_host_by_ip[i].1;
            proof {
                assert(has_ip_entry(self.scanned_host_by_ip@, ip.as_num(), hi as int));
            }
            match ip_index_get(&self.portspec_by_ip, &ip) {
                Some(pi) => {
                    let host = &self.run.hosts[hi];
                    let ps = &self.portspecs.port_specs[pi];
                    let r = analyze_host(&ip, host, ps);
                    results.push(r);
                    proof {
                        assert(has_ip(self.portspec_by_ip@, ip.as_num()));
                        assert forall|pi2: int|
                            has_ip_entry(self.policy_entries(), ip.as_num(), pi2)
                                implies spec_analyzed(
                            results@[i as int],
                            ip,
                            self.spec_run().hosts@[hi as int],
                            self.spec_portspecs().port_specs@[pi2],
                        ) by {
                            lemma_entry_unique(self.portspec_by_ip@, ip.as_num(), pi2, pi as int);
                        }
                    }
                },
                None => {
                    results.push(
                        HostAnalysisResult {
                            ip,
                            portspec_name: None,
                            summary: HostAnalysisSummary::Error {
                                reason: "no policy found for this IP address".to_owned(),
                            },
                            port_results: Vec::new(),
                        },
                    );
                    proof {
                        assert(spec_unmapped_result(results@[i as int], ip));
                    }
                },
            }
            i = i + 1;
        }
        results
    }
}

/// How many analyses ended in `Pass`.
pub open spec fn spec_count_pass(rs: Seq<HostAnalysisResult>) -> int
    decreases rs.len(),
{
    if rs.len() == 0 {
        0
    } else {
        spec_count_pass(rs.drop_last()) + if rs.last().summary is Pass {
            1 as int
        } else {
            0 as int
        }
    }
}

/// How many analyses ended in `Fail`.
pub open spec fn spec_count_fail(rs: Seq<HostAnalysisResult>) -> int
    decreases rs.len(),
{
    if rs.len() == 0 {
        0
    } else {
        spec_count_fail(rs.drop_last()) + if rs.last().summary is Fail {
            1 as int
        } else {
            0 as int
        }
    }
}

/// How many analyses ended in `Error`.
pub open spec fn spec_count_error(rs: Seq<HostAnalysisResult>) -> int
    decreases rs.len(),
{
    if rs.len() == 0 {
        0
    } else {
        spec_count_error(rs.drop_last()) + if rs.last().summary is Error {
            1 as int
        } else {
            0 as int
        }
    }
}

/// The analyses of every scanned address together with the tally of their
/// verdicts.
#[derive(Debug)]
pub struct AnalyzerResult {
    pub pass: usize,
    pub fail: usize,
    pub error: usize,
    pub host_analysis_results: Vec<HostAnalysisResult>,
}

impl AnalyzerResult {
    /// The process exit code a caller maps this result to: success only
    /// when nothing failed or errored, and errors dominate failures.
    pub fn exit_code(&self) -> (r: i32)
        ensures
            self.fail == 0 && self.error == 0 ==> r == 0,
            self.fail > 0 && self.error == 0 ==> r == 11,
            self.error > 0 ==> r == 12,
    {
        if self.fail == 0 && self.error == 0 {
            0
        } else if self.fail > 0 && self.error == 0 {
            11
        } else {
            12
        }
    }
}

/// Whether `r` is the right analysis for the scanned address it carries:
/// judged against the port specification the mapping resolves for the
/// address, or an `Error` verdict when none resolves.
pub open spec fn spec_evaluation(
    r: HostAnalysisResult,
    hosts: Seq<nmap::Host>,
    mappings: Seq<crate::mapping::Host>,
    specs: Seq<PortSpec>,
) -> bool {
    let p = r.ip.as_num();
    if spec_ip_mapped(mappings, specs, p) {
        spec_analyzed(
            r,
            r.ip,
            hosts[spec_host_for_ip(hosts, p)],
            specs[spec_portspec_for_ip(mappings, specs, p)],
        )
    } else {
        spec_unmapped_result(r, r.ip)
    }
}

/// Analyzes every scanned host of a run against the port specification
/// the mapping assigns to its address, and tallies the verdicts.
///
/// The result holds one analysis per distinct scanned IPv4 address, in
/// ascending address order, and `pass`, `fail` and `error` count the
/// analyses by their verdict.
pub fn default_analysis(nmap_run: Run, mapping: &Mapping, portspecs: PortSpecs) -> (r:
    AnalyzerResult)
    ensures
        forall|i: int, j: int|
            0 <= i < j < r.host_analysis_results@.len()
                ==> (#[trigger] r.host_analysis_results@[i]).ip.as_num()
                < (#[trigger] r.host_analysis_results@[j]).ip.as_num(),
        forall|i: int|
            0 <= i < r.host_analysis_results@.len() ==> spec_ip_scanned(
                nmap_run.hosts@,
                (#[trigger] r.host_analysis_results@[i]).ip.as_num(),
            ),
        forall|p: int|
            spec_ip_scanned(nmap_run.hosts@, p) ==> exists|i: int|
                0 <= i < r.host_analysis_results@.len()
                    && (#[trigger] r.host_analysis_results@[i]).ip.as_num() == p,
        forall|i: int|
            0 <= i < r.host_analysis_results@.len() ==> spec_evaluation(
                #[trigger] r.host_analysis_results@[i],
                nmap_run.hosts@,
                mapping.mappings@,
                portspecs.port_specs@,
            ),
        r.pass == spec_count_pass(r.host_analysis_results@),
        r.fail == spec_count_fail(r.host_analysis_results@),
        r.error == spec_count_error(r.host_analysis_results@),
{
    let ghost hs = nmap_run.hosts@;
    let ghost ms = mapping.mappings@;
    let ghost ss = portspecs.port_specs@;
    let analyzer = Analyzer::new(nmap_run, mapping, portspecs);
    let host_analysis_results = analyzer.analyze_hosts();
    proof {
        let es = analyzer.host_entries();
        let policies = analyzer.policy_entries();
        let rs = host_analysis_results@;
        assert forall|i: int, j: int| 0 <= i < j < rs.len() implies (#[trigger] rs[i]).ip.as_num()
            < (#[trigger] rs[j]).ip.as_num() by {
            assert(rs[i].ip == es[i].0 && rs[j].ip == es[j].0);
        }
        assert forall|i: int| 0 <= i < rs.len() implies spec_ip_scanned(
            hs,
            (#[trigger] rs[i]).ip.as_num(),
        ) by {
            assert(es[i].0.as_num() == rs[i].ip.as_num() && 0 <= i < es.len());
            assert(has_ip(es, rs[i].ip.as_num()));
        }
        assert forall|p: int| spec_ip_scanned(hs, p) implies exists|i: int|
            0 <= i < rs.len() && (#[trigger] rs[i]).ip.as_num() == p by {
            assert(has_ip(es, p));
            let k0 = choose|k0: int| 0 <= k0 < es.len() && (#[trigger] es[k0]).0.as_num() == p;
            assert(rs[k0].ip.as_num() == p);
        }
        assert forall|i: int| 0 <= i < rs.len() implies spec_evaluation(
            #[trigger] rs[i],
            hs,
            ms,
            ss,
        ) by {
            let ip = es[i].0;
            let p = ip.as_num();
            assert(has_ip(es, p));
            assert(has_ip_entry(es, p, es[i].1 as int));
            assert(spec_ip_scanned(hs, p));
            assert(es[i].1 == spec_host_for_ip(hs, p));
            if has_ip(policies, p) {
                assert(spec_ip_mapped(ms, ss, p));
                let k0 = choose|k0: int|
                    0 <= k0 < policies.len() && (#[trigger] policies[k0]).0.as_num() == p;
                let w = policies[k0].1;
                assert(has_ip_entry(policies, p, w as int));
                assert(w == spec_portspec_for_ip(ms, ss, p));
                assert(spec_analyzed(rs[i], ip, hs[es[i].1 as int], ss[w as int]));
            } else {
                assert(!spec_ip_mapped(ms, ss, p));
                assert(spec_unmapped_result(rs[i], ip));
            }
        }
    }

    let mut pass: usize = 0;
    let mut fail: usize = 0;
    let mut error: usize = 0;
    let n = host_analysis_results.len();
    let mut i: usize = 0;
    while i < n
        invariant
            0 <= i <= n,
            pass <= i && fail <= i && error <= i,
            pass == spec_count_pass(host_analysis_results@.take(i as int)),
            fail == spec_count_fail(host_analysis_results@.take(i as int)),
            error == spec_count_error(host_analysis_results@.take(i as int)),
        decreases n - i,
    {
        proof {
            assert(host_analysis_results@.take(i + 1).drop_last() =~= host_analysis_results@.take(
                i as int,
            ));
            assert(host_analysis_results@.take(i + 1).last() == host_analysis_results@[i as int]);
        }
        match &host_analysis_results[i].summary {
            HostAnalysisSummary::Pass => {
                pass = pass + 1;
            },
            HostAnalysisSummary::Fail => {
                fail = fail + 1;
            },
            HostAnalysisSummary::Error { .. } => {
                error = error + 1;
            },
        }
        i = i + 1;
    }
    proof {
        assert(host_analysis_results@.take(n as int) =~= host_analysis_results@);
    }

    AnalyzerResult { pass, fail, error, host_analysis_results }
}

proof fn lemma_no_rule_is_closed(rules: Seq<portspec::Port>, id: u16)
    requires
        !spec_has_rule(rules, id),
    ensures
        spec_rule_state(rules, id) == PortState::Closed,
    decreases rules.len(),
{
    if rules.len() > 0 {
        assert(rules[0].id != id);
        assert forall|i: int|
            0 <= i < rules.drop_first().len() && (#[trigger] rules.drop_first()[i]).id
                == id implies false by {
            assert(rules[i + 1].id == id);
        }
        lemma_no_rule_is_closed(rules.drop_first(), id);
    }
}

proof fn lemma_not_scanned_empty(ports: Seq<nmap::Port>, rules: Seq<portspec::Port>, i: int)
    requires
        forall|t: int| 0 <= t < rules.len() ==> spec_id_scanned(ports, (#[trigger] rules[t]).id),
    ensures
        spec_not_scanned_from(ports, rules, i) == Seq::<PortAnalysisResult>::empty(),
    decreases rules.len() - i,
{
    if 0 <= i < rules.len() {
        lemma_not_scanned_empty(ports, rules, i + 1);
    }
}

/// For every policy and host: if every explicit rule's port was scanned
/// with a matching observation (an `Open` rule open, a `Closed` rule not
/// open, a `Maybe` rule either way), and every other scanned port is not
/// open, then the host verdict is `Pass`.
pub proof fn lemma_compliant_host_passes(ports: Seq<nmap::Port>, rules: Seq<portspec::Port>)
    requires
        forall|t: int| 0 <= t < rules.len() ==> spec_id_scanned(ports, (#[trigger] rules[t]).id),
        forall|k: int|
            0 <= k < ports.len() ==> match spec_rule_state(rules, (#[trigger] ports[k]).id) {
                PortState::Open => spec_port_open(ports[k].status),
                PortState::Closed => !spec_port_open(ports[k].status),
                PortState::Maybe => true,
            },
    ensures
        spec_all_pass(spec_port_results(ports, rules)),
        spec_host_summary(ports, rules) == HostAnalysisSummary::Pass,
{
    lemma_not_scanned_empty(ports, rules, 0);
    let results = spec_port_results(ports, rules);
    assert(results.len() == ports.len());
    assert forall|i: int| 0 <= i < results.len() implies results[i] is Pass by {
        assert(results[i] == spec_scanned_results(ports, rules)[i]);
    }
}

/// An `Open` rule with a non-open observation fails as `OpenButClosed`;
/// a `Closed` rule with an open observation fails as `ClosedButOpen`; the
/// matching observations pass.  These cases are symmetric and exhaustive
/// for the two binary rule states.
pub proof fn lemma_binary_rule_verdicts(id: u16, open: bool)
    ensures
        !open ==> spec_port_result(id, PortState::Open, open) == PortAnalysisResult::Fail(
            id,
            PortAnalysisReason::OpenButClosed,
        ),
        open ==> spec_port_result(id, PortState::Open, open) == PortAnalysisResult::Pass(
            id,
            PortAnalysisReason::OpenAndOpen,
        ),
        open ==> spec_port_result(id, PortState::Closed, open) == PortAnalysisResult::Fail(
            id,
            PortAnalysisReason::ClosedButOpen,
        ),
        !open ==> spec_port_result(id, PortState::Closed, open) == PortAnalysisResult::Pass(
            id,
            PortAnalysisReason::ClosedAndClosed,
        ),
{
}

/// A `Maybe` rule always passes, tagged `MaybeAndOpen` or `MaybeAndClosed`
/// by the observation.
pub proof fn lemma_maybe_rule_passes(id: u16, open: bool)
    ensures
        spec_port_result(id, PortState::Maybe, open) is Pass,
        spec_port_result(id, PortState::Maybe, open) == PortAnalysisResult::Pass(
            id,
            if open {
                PortAnalysisReason::MaybeAndOpen
            } else {
                PortAnalysisReason::MaybeAndClosed
            },
        ),
{
}

/// A scanned port that no explicit rule names is judged against the
/// implicit `Closed` rule: open fails as `ClosedButOpen`, not open passes
/// as `ClosedAndClosed`.
pub proof fn lemma_implicit_rule_verdict(rules: Seq<portspec::Port>, id: u16, open: bool)
    requires
        !spec_has_rule(rules, id),
    ensures
        spec_rule_state(rules, id) == PortState::Closed,
        spec_port_result(id, spec_rule_state(rules, id), open) == if open {
            PortAnalysisResult::Fail(id, PortAnalysisReason::ClosedButOpen)
        } else {
            PortAnalysisResult::Pass(id, PortAnalysisReason::ClosedAndClosed)
        },
{
    lemma_no_rule_is_closed(rules, id);
}

/// A port whose applicable rule requires `Open` but which was observed
/// not open fails at its scan position with reason `OpenButClosed`, and
/// with it the host.  The applicable rule is the first rule carrying the
/// port's id: with duplicate rule ids a later rule does not decide.
pub proof fn lemma_open_rule_mismatch_fails(
    ports: Seq<nmap::Port>,
    rules: Seq<portspec::Port>,
    k: int,
)
    requires
        0 <= k < ports.len(),
        spec_rule_state(rules, ports[k].id) is Open,
        !spec_port_open(ports[k].status),
    ensures
        spec_port_results(ports, rules)[k] == PortAnalysisResult::Fail(
            ports[k].id,
            PortAnalysisReason::OpenButClosed,
        ),
        spec_host_summary(ports, rules) == HostAnalysisSummary::Fail,
{
    let results = spec_port_results(ports, rules);
    assert(results[k] == spec_scanned_results(ports, rules)[k]);
    assert(!(results[k] is Pass));
}

/// A port whose applicable rule requires `Closed` but which was observed
/// open fails at its scan position with reason `ClosedButOpen`, and with
/// it the host.  This covers the implicit rule too: a port no rule names
/// has `Closed` as its applicable requirement.
pub proof fn lemma_closed_rule_open_fails(
    ports: Seq<nmap::Port>,
    rules: Seq<portspec::Port>,
    k: int,
)
    requires
        0 <= k < ports.len(),
        spec_rule_state(rules, ports[k].id) is Closed,
        spec_port_open(ports[k].status),
    ensures
        spec_port_results(ports, rules)[k] == PortAnalysisResult::Fail(
            ports[k].id,
            PortAnalysisReason::ClosedButOpen,
        ),
        spec_host_summary(ports, rules) == HostAnalysisSummary::Fail,
{
    let results = spec_port_results(ports, rules);
    assert(results[k] == spec_scanned_results(ports, rules)[k]);
    assert(!(results[k] is Pass));
}

/// A port whose applicable rule is `Maybe` passes at its scan position,
/// tagged by the observation; it never fails that port.
pub proof fn lemma_maybe_rule_verdict(ports: Seq<nmap::Port>, rules: Seq<portspec::Port>, k: int)
    requires
        0 <= k < ports.len(),
        spec_rule_state(rules, ports[k].id) is Maybe,
    ensures
        spec_port_results(ports, rules)[k] == PortAnalysisResult::Pass(
            ports[k].id,
            if spec_port_open(ports[k].status) {
                PortAnalysisReason::MaybeAndOpen
            } else {
                PortAnalysisReason::MaybeAndClosed
            },
        ),
        spec_port_results(ports, rules)[k] is Pass,
{
    let results = spec_port_results(ports, rules);
    assert(results[k] == spec_scanned_results(ports, rules)[k]);
}

proof fn lemma_first_occurrence_exists(rules: Seq<portspec::Port>, i: int)
    requires
        0 <= i < rules.len(),
    ensures
        exists|j: int|
            0 <= j <= i && (#[trigger] rules[j]).id == rules[i].id && spec_first_rule_occurrence(
                rules,
                j,
            ),
    decreases i,
{
    if spec_first_rule_occurrence(rules, i) {
        assert(rules[i].id == rules[i].id && spec_first_rule_occurrence(rules, i));
    } else {
        let j0 = choose|j0: int| 0 <= j0 < i && (#[trigger] rules[j0]).id == rules[i].id;
        lemma_first_occurrence_exists(rules, j0);
        let j1 = choose|j1: int|
            0 <= j1 <= j0 && (#[trigger] rules[j1]).id == rules[j0].id
                && spec_first_rule_occurrence(rules, j1);
        assert(rules[j1].id == rules[i].id && spec_first_rule_occurrence(rules, j1));
    }
}

proof fn lemma_not_scanned_contains(
    ports: Seq<nmap::Port>,
    rules: Seq<portspec::Port>,
    a: int,
    j: int,
)
    requires
        0 <= a <= j < rules.len(),
        !spec_id_scanned(ports, rules[j].id),
        spec_first_rule_occurrence(rules, j),
    ensures
        spec_not_scanned_from(ports, rules, a).contains(
            PortAnalysisResult::NotScanned(rules[j].id),
        ),
    decreases j - a,
{
    let rest = spec_not_scanned_from(ports, rules, a + 1);
    if a == j {
        let all = spec_not_scanned_from(ports, rules, a);
        assert(all[0] == PortAnalysisResult::NotScanned(rules[j].id));
    } else {
        lemma_not_scanned_contains(ports, rules, a + 1, j);
        let x = PortAnalysisResult::NotScanned(rules[j].id);
        let t = choose|t: int| 0 <= t < rest.len() && rest[t] == x;
        if !spec_id_scanned(ports, rules[a].id) && spec_first_rule_occurrence(rules, a) {
            assert(spec_not_scanned_from(ports, rules, a)[t + 1] == x);
        } else {
            assert(spec_not_scanned_from(ports, rules, a)[t] == x);
        }
    }
}

/// An explicit rule whose port id never appears among the scanned ports
/// yields a `NotScanned` verdict for that id and forces the host verdict
/// to `Fail`.
pub proof fn lemma_unscanned_rule_fails(ports: Seq<nmap::Port>, rules: Seq<portspec::Port>, i: int)
    requires
        0 <= i < rules.len(),
        !spec_id_scanned(ports, rules[i].id),
    ensures
        spec_port_results(ports, rules).contains(PortAnalysisResult::NotScanned(rules[i].id)),
        spec_host_summary(ports, rules) == HostAnalysisSummary::Fail,
{
    lemma_first_occurrence_exists(rules, i);
    let j = choose|j: int|
        0 <= j <= i && (#[trigger] rules[j]).id == rules[i].id && spec_first_rule_occurrence(
            rules,
            j,
        );
    lemma_not_scanned_contains(ports, rules, 0, j);
    let x = PortAnalysisResult::NotScanned(rules[i].id);
    let from0 = spec_not_scanned_from(ports, rules, 0);
    let t = choose|t: int| 0 <= t < from0.len() && from0[t] == x;
    let results = spec_port_results(ports, rules);
    assert(results[ports.len() + t] == x);
    assert(!(results[ports.len() + t] is Pass));
    assert(!spec_all_pass(results));
}

/// Every analysis ends in exactly one of `Pass`, `Fail` or `Error`, so the
/// three tallies always add up to the number of analyses — which, by the
/// contract of `default_analysis`, is the number of distinct scanned IPv4
/// addresses.
pub proof fn lemma_counts_partition(rs: Seq<HostAnalysisResult>)
    ensures
        spec_count_pass(rs) + spec_count_fail(rs) + spec_count_error(rs) == rs.len(),
    decreases rs.len(),
{
    if rs.len() > 0 {
        lemma_counts_partition(rs.drop_last());
    }
}

} // verus!
