use nmap_analyze::analyze::{
    analyze_host, default_analysis, portspec_by_ip, portspecs_to_portspec_by_name,
    run_to_scanned_hosts_by_ip, Analyzer, HostAnalysisSummary, PortAnalysisReason,
    PortAnalysisResult,
};
use nmap_analyze::ip::{IpAddr, Ipv4Addr};
use nmap_analyze::mapping;
use nmap_analyze::nmap::{
    Address, Host, HostName, HostNameType, HostState, HostStatus, Port, PortService, PortStatus,
    Run,
};
use nmap_analyze::portspec;
use nmap_analyze::Mapping;
use nmap_analyze::PortSpecs;

fn tcp_port(id: u16, status: PortStatus, reason: &str, service: &str) -> Port {
    Port {
        protocol: "tcp".to_owned(),
        id,
        status,
        reason: reason.to_owned(),
        reason_ttl: 244,
        service: PortService {
            name: service.to_owned(),
            method: "table".to_owned(),
            conf: 3,
        },
    }
}

fn up_status() -> HostStatus {
    HostStatus {
        state: HostState::Up,
        reason: "user-set".to_owned(),
        reason_ttl: 0,
    }
}

fn single_host(ip: Ipv4Addr, ports: Vec<Port>) -> Host {
    Host {
        starttime: 1531991145,
        endtime: 1531991167,
        status: up_status(),
        addresses: vec![Address::IpV4 { addr: ip }],
        hostnames: vec![HostName {
            name: "192.168.0.1".to_owned(),
            typ: HostNameType::User,
        }],
        ports,
        extra_ports: None,
    }
}

fn group_a_portspec() -> portspec::PortSpec {
    portspec::PortSpec {
        name: "Group A".to_owned(),
        ports: vec![
            portspec::Port {
                id: 22,
                state: portspec::PortState::Closed,
            },
            portspec::Port {
                id: 25,
                state: portspec::PortState::Open,
            },
        ],
    }
}

fn nmap_data() -> Run {
    let host1 = Host {
        starttime: 1531991145,
        endtime: 1531991167,
        status: up_status(),
        addresses: vec![Address::IpV4 {
            addr: Ipv4Addr::new(192, 168, 0, 1),
        }],
        hostnames: vec![HostName {
            name: "192.168.0.1".to_owned(),
            typ: HostNameType::User,
        }],
        ports: vec![
            tcp_port(25, PortStatus::Open, "syn-ack", "smtp"),
            tcp_port(80, PortStatus::Closed, "reset", "http"),
            tcp_port(443, PortStatus::Open, "syn-ack", "https"),
        ],
        extra_ports: None,
    };

    let host3 = Host {
        starttime: 1531991145,
        endtime: 1531991170,
        status: up_status(),
        addresses: vec![Address::IpV4 {
            addr: Ipv4Addr::new(192, 168, 0, 3),
        }],
        hostnames: vec![HostName {
            name: "192.168.0.3".to_owned(),
            typ: HostNameType::User,
        }],
        ports: vec![
            tcp_port(80, PortStatus::Open, "reset", "http"),
            tcp_port(443, PortStatus::Open, "syn-ack", "https"),
        ],
        extra_ports: None,
    };

    Run {
        scanner: "nmap".to_owned(),
        args: "nmap -v -n -Pn -T4 -sS -oX nmap-3hosts-result.xml 192.168.0.1 192.168.0.2 192.168.0.3"
            .to_owned(),
        start: 1531991145,
        hosts: vec![host1, host3],
    }
}

fn mapping_data() -> Mapping {
    Mapping {
        mappings: vec![
            mapping::Host {
                id: Some("i-0".to_owned()),
                hostname: Some("ec2-192.168.0.1".to_owned()),
                ips: vec![IpAddr::V4(Ipv4Addr::new(192, 168, 0, 1))],
                name: Some("Group A server".to_owned()),
                port_spec: "Group A".to_owned(),
            },
            mapping::Host {
                id: Some("i-0".to_owned()),
                hostname: Some("ec2-192.168.0.3".to_owned()),
                ips: vec![
                    IpAddr::V4(Ipv4Addr::new(192, 168, 0, 3)),
                    IpAddr::V4(Ipv4Addr::new(192, 168, 0, 3)),
                ],
                name: Some("Group B server".to_owned()),
                port_spec: "Group B".to_owned(),
            },
        ],
    }
}

fn portspecs_data() -> PortSpecs {
    PortSpecs {
        port_specs: vec![
            portspec::PortSpec {
                name: "Group A".to_owned(),
                ports: vec![
                    portspec::Port {
                        id: 22,
                        state: portspec::PortState::Closed,
                    },
                    portspec::Port {
                        id: 25,
                        state: portspec::PortState::Open,
                    },
                ],
            },
            portspec::PortSpec {
                name: "Group B".to_owned(),
                ports: vec![
                    portspec::Port {
                        id: 80,
                        state: portspec::PortState::Open,
                    },
                    portspec::Port {
                        id: 443,
                        state: portspec::PortState::Open,
                    },
                ],
            },
        ],
    }
}

#[test]
fn analyzer_no_mapping_for_ip() {
    let portspecs = PortSpecs {
        port_specs: vec![portspec::PortSpec {
            name: "Unused Group".to_owned(),
            ports: vec![
                portspec::Port {
                    id: 22,
                    state: portspec::PortState::Closed,
                },
                portspec::Port {
                    id: 25,
                    state: portspec::PortState::Open,
                },
            ],
        }],
    };
    let nmap = nmap_data();
    let mapping = mapping_data();

    let analyzer = Analyzer::new(nmap, &mapping, portspecs);
    let analysis = analyzer.analyze_hosts();

    assert_eq!(analysis.len(), 2);
    assert_eq!(
        analysis[0].summary,
        HostAnalysisSummary::Error {
            reason: "no policy found for this IP address".to_owned(),
        }
    );
    assert_eq!(
        analysis[1].summary,
        HostAnalysisSummary::Error {
            reason: "no policy found for this IP address".to_owned(),
        }
    );
}

#[test]
fn analyze_host_explicit_and_implicit_ports_okay() {
    let ip = Ipv4Addr::new(192, 168, 0, 1);
    let portspec = group_a_portspec();
    let host = single_host(
        ip,
        vec![
            tcp_port(22, PortStatus::Closed, "reset", "ssh"),
            tcp_port(25, PortStatus::Open, "syn-ack", "smtp"),
            tcp_port(443, PortStatus::Closed, "reset", "https"),
        ],
    );

    let analysis = analyze_host(&ip, &host, &portspec);
    println!("Analysis: {:?}", analysis);

    assert_eq!(analysis.summary, HostAnalysisSummary::Pass);
}

#[test]
fn analyze_host_explicit_port_fail() {
    let ip = Ipv4Addr::new(192, 168, 0, 1);
    let portspec = group_a_portspec();
    let host = single_host(
        ip,
        vec![
            tcp_port(22, PortStatus::Closed, "reset", "ssh"),
            tcp_port(25, PortStatus::Closed, "reset", "smtp"),
            tcp_port(443, PortStatus::Closed, "reset", "https"),
        ],
    );

    let analysis = analyze_host(&ip, &host, &portspec);
    println!("Analysis: {:?}", analysis);

    assert_eq!(analysis.summary, HostAnalysisSummary::Fail);
}

#[test]
fn analyze_host_explicit_port_not_scanned() {
    let ip = Ipv4Addr::new(192, 168, 0, 1);
    let portspec = group_a_portspec();
    let host = single_host(
        ip,
        vec![
            tcp_port(22, PortStatus::Closed, "reset", "ssh"),
            tcp_port(443, PortStatus::Closed, "reset", "https"),
        ],
    );

    let analysis = analyze_host(&ip, &host, &portspec);
    println!("Analysis: {:?}", analysis);

    // Scan fails because an explicit port has not been scanned
    assert_eq!(analysis.summary, HostAnalysisSummary::Fail);

    // Port 25 has not been scanned
    let unscanned: Vec<_> = analysis
        .port_results
        .iter()
        .filter(|x| *x == &PortAnalysisResult::NotScanned(25u16))
        .collect();
    assert_eq!(unscanned.len(), 1);
}

#[test]
fn analyze_host_implicit_port_open() {
    let ip = Ipv4Addr::new(192, 168, 0, 1);
    let portspec = group_a_portspec();
    let host = single_host(
        ip,
        vec![
            tcp_port(22, PortStatus::Closed, "reset", "ssh"),
            tcp_port(25, PortStatus::Open, "syn-ack", "smtp"),
            tcp_port(443, PortStatus::Open, "syn-ack", "https"),
        ],
    );

    let analysis = analyze_host(&ip, &host, &portspec);
    println!("Analysis: {:?}", analysis);

    // Scan fails because an implicit port is open
    assert_eq!(analysis.summary, HostAnalysisSummary::Fail);

    // Port 443 is open
    let open: Vec<_> = analysis
        .port_results
        .iter()
        .filter(|x| *x == &PortAnalysisResult::Fail(443u16, PortAnalysisReason::ClosedButOpen))
        .collect();
    assert_eq!(open.len(), 1);
}

#[test]
fn analyze_host_maybe_port_open() {
    let ip = Ipv4Addr::new(192, 168, 0, 1);
    let portspec = portspec::PortSpec {
        name: "Group A".to_owned(),
        ports: vec![portspec::Port {
            id: 25,
            state: portspec::PortState::Maybe,
        }],
    };
    let host = single_host(ip, vec![tcp_port(25, PortStatus::Open, "syn-ack", "smtp")]);

    let analysis = analyze_host(&ip, &host, &portspec);
    println!("Analysis: {:?}", analysis);

    // Scan succeeds because a maybe port is open
    assert_eq!(analysis.summary, HostAnalysisSummary::Pass);

    // Port 25 is maybe open
    let maybe_open: Vec<_> = analysis
        .port_results
        .iter()
        .filter(|x| *x == &PortAnalysisResult::Pass(25u16, PortAnalysisReason::MaybeAndOpen))
        .collect();
    assert_eq!(maybe_open.len(), 1);
}

#[test]
fn analyze_host_maybe_port_closed() {
    let ip = Ipv4Addr::new(192, 168, 0, 1);
    let portspec = portspec::PortSpec {
        name: "Group A".to_owned(),
        ports: vec![portspec::Port {
            id: 25,
            state: portspec::PortState::Maybe,
        }],
    };
    let host = single_host(ip, vec![tcp_port(25, PortStatus::Closed, "reset", "smtp")]);

    let analysis = analyze_host(&ip, &host, &portspec);
    println!("Analysis: {:?}", analysis);

    // Scan succeeds because a maybe port is closed
    assert_eq!(analysis.summary, HostAnalysisSummary::Pass);

    // Port 25 is maybe closed
    let maybe_closed: Vec<_> = analysis
        .port_results
        .iter()
        .filter(|x| *x == &PortAnalysisResult::Pass(25u16, PortAnalysisReason::MaybeAndClosed))
        .collect();
    assert_eq!(maybe_closed.len(), 1);
}

#[test]
fn run_to_scanned_hosts_by_ip_okay() {
    let run = nmap_data();

    let shbi = run_to_scanned_hosts_by_ip(&run);

    assert_eq!(shbi.len(), 2);
    let host1_ip = Ipv4Addr::new(192, 168, 0, 1);
    assert!(shbi.iter().any(|(ip, _)| *ip == host1_ip));
    let host3_ip = Ipv4Addr::new(192, 168, 0, 3);
    assert!(shbi.iter().any(|(ip, _)| *ip == host3_ip));
}

#[test]
fn portspecs_to_portspec_by_name_okay() {
    let portspecs = portspecs_data();

    let wbn = portspecs_to_portspec_by_name(&portspecs);

    assert_eq!(wbn.len(), 2);
    assert!(wbn.iter().any(|(name, _)| name == "Group A"));
    assert!(wbn.iter().any(|(name, _)| name == "Group B"));
}

#[test]
fn portspec_by_ip_okay() {
    let mapping = mapping_data();
    let portspecs = portspecs_data();

    let wbi = portspec_by_ip(&mapping, &portspecs);

    assert_eq!(wbi.len(), 2);

    let host1_ip = Ipv4Addr::new(192, 168, 0, 1);
    let e1 = wbi.iter().find(|(ip, _)| *ip == host1_ip);
    assert!(e1.is_some());
    assert_eq!(portspecs.port_specs[e1.unwrap().1].name, "Group A");

    let host3_ip = Ipv4Addr::new(192, 168, 0, 3);
    let e3 = wbi.iter().find(|(ip, _)| *ip == host3_ip);
    assert!(e3.is_some());
    assert_eq!(portspecs.port_specs[e3.unwrap().1].name, "Group B");
}

#[test]
fn analyze_okay() {
    let nmap = nmap_data();
    let mapping = mapping_data();
    let portspecs = portspecs_data();

    let analyzer = Analyzer::new(nmap, &mapping, portspecs);
    let analysis_results = analyzer.analyze_hosts();

    assert_eq!(analysis_results.len(), 2);
    assert_eq!(analysis_results[0].summary, HostAnalysisSummary::Fail);
    assert_eq!(analysis_results[1].summary, HostAnalysisSummary::Pass);
}

#[test]
fn open_rule_found_closed_gives_open_but_closed() {
    let ip = Ipv4Addr::new(192, 168, 0, 1);
    let portspec = group_a_portspec();
    let host = single_host(
        ip,
        vec![
            tcp_port(22, PortStatus::Closed, "reset", "ssh"),
            tcp_port(25, PortStatus::Closed, "reset", "smtp"),
            tcp_port(443, PortStatus::Closed, "reset", "https"),
        ],
    );

    let analysis = analyze_host(&ip, &host, &portspec);

    assert_eq!(analysis.summary, HostAnalysisSummary::Fail);
    assert_eq!(
        analysis.port_results[1],
        PortAnalysisResult::Fail(25u16, PortAnalysisReason::OpenButClosed)
    );
}

#[test]
fn filtered_statuses_count_as_not_open() {
    let ip = Ipv4Addr::new(192, 168, 0, 1);
    let portspec = portspec::PortSpec {
        name: "Group A".to_owned(),
        ports: vec![portspec::Port {
            id: 25,
            state: portspec::PortState::Open,
        }],
    };
    for status in [
        PortStatus::Closed,
        PortStatus::Filtered,
        PortStatus::Unfiltered,
        PortStatus::OpenFiltered,
        PortStatus::CloseFiltered,
    ] {
        let host = single_host(ip, vec![tcp_port(25, status, "reset", "smtp")]);
        let analysis = analyze_host(&ip, &host, &portspec);
        assert_eq!(
            analysis.port_results[0],
            PortAnalysisResult::Fail(25u16, PortAnalysisReason::OpenButClosed)
        );
        assert_eq!(analysis.summary, HostAnalysisSummary::Fail);
    }
}

#[test]
fn first_matching_rule_wins_on_duplicate_ids() {
    let ip = Ipv4Addr::new(192, 168, 0, 1);
    let portspec = portspec::PortSpec {
        name: "Group A".to_owned(),
        ports: vec![
            portspec::Port {
                id: 25,
                state: portspec::PortState::Open,
            },
            portspec::Port {
                id: 25,
                state: portspec::PortState::Closed,
            },
        ],
    };
    let host = single_host(ip, vec![tcp_port(25, PortStatus::Open, "syn-ack", "smtp")]);

    let analysis = analyze_host(&ip, &host, &portspec);

    assert_eq!(
        analysis.port_results[0],
        PortAnalysisResult::Pass(25u16, PortAnalysisReason::OpenAndOpen)
    );
    assert_eq!(analysis.summary, HostAnalysisSummary::Pass);
}

#[test]
fn unmapped_ip_yields_error() {
    let ip = Ipv4Addr::new(192, 168, 0, 9);
    let run = Run {
        scanner: "nmap".to_owned(),
        args: "nmap -dd 192.168.0.9".to_owned(),
        start: 1531991145,
        hosts: vec![single_host(
            ip,
            vec![tcp_port(25, PortStatus::Open, "syn-ack", "smtp")],
        )],
    };
    let mapping = mapping_data();
    let portspecs = portspecs_data();

    let result = default_analysis(run, &mapping, portspecs);

    assert_eq!(result.host_analysis_results.len(), 1);
    assert_eq!(
        result.host_analysis_results[0].summary,
        HostAnalysisSummary::Error {
            reason: "no policy found for this IP address".to_owned(),
        }
    );
    assert_eq!(result.host_analysis_results[0].ip, ip);
    assert_eq!(result.pass, 0);
    assert_eq!(result.fail, 0);
    assert_eq!(result.error, 1);
}

#[test]
fn default_analysis_counts_cover_all_hosts() {
    let nmap = nmap_data();
    let mapping = mapping_data();
    let portspecs = portspecs_data();

    let result = default_analysis(nmap, &mapping, portspecs);

    assert_eq!(result.host_analysis_results.len(), 2);
    assert_eq!(result.pass, 1);
    assert_eq!(result.fail, 1);
    assert_eq!(result.error, 0);
    assert_eq!(
        result.pass + result.fail + result.error,
        result.host_analysis_results.len()
    );
    assert_eq!(result.exit_code(), 11);
}

#[test]
fn exit_codes_follow_the_tally() {
    let pass_only = default_analysis(
        Run {
            scanner: "nmap".to_owned(),
            args: "nmap -dd 192.168.0.3".to_owned(),
            start: 0,
            hosts: vec![Host {
                starttime: 0,
                endtime: 0,
                status: up_status(),
                addresses: vec![Address::IpV4 {
                    addr: Ipv4Addr::new(192, 168, 0, 3),
                }],
                hostnames: vec![],
                ports: vec![
                    tcp_port(80, PortStatus::Open, "syn-ack", "http"),
                    tcp_port(443, PortStatus::Open, "syn-ack", "https"),
                ],
                extra_ports: None,
            }],
        },
        &mapping_data(),
        portspecs_data(),
    );
    assert_eq!(pass_only.pass, 1);
    assert_eq!(pass_only.exit_code(), 0);

    let with_error = default_analysis(nmap_data(), &Mapping { mappings: vec![] }, portspecs_data());
    assert_eq!(with_error.error, 2);
    assert_eq!(with_error.exit_code(), 12);
}

#[test]
fn last_mapping_entry_wins_for_duplicate_ip() {
    let ip = Ipv4Addr::new(192, 168, 0, 1);
    let mapping = Mapping {
        mappings: vec![
            mapping::Host {
                id: None,
                hostname: None,
                ips: vec![IpAddr::V4(ip)],
                name: None,
                port_spec: "Group A".to_owned(),
            },
            mapping::Host {
                id: None,
                hostname: None,
                ips: vec![IpAddr::V4(ip)],
                name: None,
                port_spec: "Group B".to_owned(),
            },
        ],
    };
    let portspecs = portspecs_data();

    let wbi = portspec_by_ip(&mapping, &portspecs);

    assert_eq!(wbi.len(), 1);
    assert_eq!(portspecs.port_specs[wbi[0].1].name, "Group B");
}

#[test]
fn mapping_entry_with_unknown_portspec_is_dropped() {
    let ip = Ipv4Addr::new(192, 168, 0, 1);
    let mapping = Mapping {
        mappings: vec![mapping::Host {
            id: None,
            hostname: None,
            ips: vec![IpAddr::V4(ip)],
            name: None,
            port_spec: "No Such Group".to_owned(),
        }],
    };
    let portspecs = portspecs_data();

    let wbi = portspec_by_ip(&mapping, &portspecs);

    assert_eq!(wbi.len(), 0);
}

#[test]
fn results_are_sorted_by_ip() {
    let mut run = nmap_data();
    run.hosts.reverse();
    let mapping = mapping_data();
    let portspecs = portspecs_data();

    let result = default_analysis(run, &mapping, portspecs);

    assert_eq!(result.host_analysis_results.len(), 2);
    assert_eq!(
        result.host_analysis_results[0].ip,
        Ipv4Addr::new(192, 168, 0, 1)
    );
    assert_eq!(
        result.host_analysis_results[1].ip,
        Ipv4Addr::new(192, 168, 0, 3)
    );
}
