use nmap_analyze::analyze::{PortAnalysisReason, PortAnalysisResult};
use nmap_analyze::ip::{IpAddr, Ipv4Addr, Ipv6Addr};
use nmap_analyze::nmap::{
    self, parser, Address, Error, HostName, HostNameType, HostState, HostStatus, PortService,
    PortStatus, Run,
};
use nmap_analyze::output::{
    ip_addr_to_string, port_analysis_result_to_port_result_reason,
    port_analysis_result_to_port_string, show_host_row, show_port_row, OutputDetail, OutputFormat,
};
use nmap_analyze::portspec;
use nmap_analyze::text;
use nmap_analyze::whitelist;
use nmap_analyze::analyze::HostAnalysisSummary;
use nmap_analyze::SanityCheck;

fn up_status() -> HostStatus {
    HostStatus {
        state: HostState::Up,
        reason: "user-set".to_owned(),
        reason_ttl: 0,
    }
}

fn sane_host() -> nmap::Host {
    nmap::Host {
        starttime: 1531991145,
        endtime: 1531991167,
        status: up_status(),
        addresses: vec![Address::IpV4 {
            addr: Ipv4Addr::new(192, 168, 0, 1),
        }],
        hostnames: vec![HostName {
            name: "192.168.0.1".to_owned(),
            typ: HostNameType::User,
        }],
        ports: vec![],
        extra_ports: None,
    }
}

#[test]
fn portspec_state_from_str_accepts_keywords() {
    assert!(matches!(
        portspec::PortState::from_str("closed"),
        Ok(portspec::PortState::Closed)
    ));
    assert!(matches!(
        portspec::PortState::from_str(" Open "),
        Ok(portspec::PortState::Open)
    ));
    assert!(matches!(
        portspec::PortState::from_str("MAYBE"),
        Ok(portspec::PortState::Maybe)
    ));
}

#[test]
fn portspec_state_from_str_rejects_other_input() {
    match portspec::PortState::from_str(" BoGus ") {
        Err(portspec::Error::InvalidPortState(s)) => assert_eq!(s, "bogus"),
        other => panic!("expected InvalidPortState, got {:?}", other),
    }
}

#[test]
fn host_state_from_str_accepts_keywords() {
    assert!(matches!(HostState::from_str("up"), Ok(HostState::Up)));
    assert!(matches!(HostState::from_str(" Down"), Ok(HostState::Down)));
    assert!(matches!(
        HostState::from_str("UNKNOWN"),
        Ok(HostState::Unknown)
    ));
    assert!(matches!(
        HostState::from_str("skipped "),
        Ok(HostState::Skipped)
    ));
    match HostState::from_str("resting") {
        Err(Error::InvalidHostState(s)) => assert_eq!(s, "resting"),
        other => panic!("expected InvalidHostState, got {:?}", other),
    }
}

#[test]
fn host_name_type_from_str_accepts_keywords() {
    assert!(matches!(
        HostNameType::from_str("user"),
        Ok(HostNameType::User)
    ));
    assert!(matches!(
        HostNameType::from_str("PTR"),
        Ok(HostNameType::Ptr)
    ));
    match HostNameType::from_str("cname") {
        Err(Error::InvalidHostNameType(s)) => assert_eq!(s, "cname"),
        other => panic!("expected InvalidHostNameType, got {:?}", other),
    }
}

#[test]
fn port_status_from_str_accepts_keywords() {
    assert!(matches!(PortStatus::from_str("open"), Ok(PortStatus::Open)));
    assert!(matches!(
        PortStatus::from_str("filtered"),
        Ok(PortStatus::Filtered)
    ));
    assert!(matches!(
        PortStatus::from_str("unfiltered"),
        Ok(PortStatus::Unfiltered)
    ));
    assert!(matches!(
        PortStatus::from_str("Closed"),
        Ok(PortStatus::Closed)
    ));
    assert!(matches!(
        PortStatus::from_str("open|filtered"),
        Ok(PortStatus::OpenFiltered)
    ));
    assert!(matches!(
        PortStatus::from_str("close|filtered"),
        Ok(PortStatus::CloseFiltered)
    ));
    match PortStatus::from_str("ajar") {
        Err(Error::InvalidPortStatus(s)) => assert_eq!(s, "ajar"),
        other => panic!("expected InvalidPortStatus, got {:?}", other),
    }
}

#[test]
fn whitelist_state_from_str_accepts_keywords() {
    assert!(matches!(
        whitelist::PortState::from_str("closed"),
        Ok(whitelist::PortState::Closed)
    ));
    assert!(matches!(
        whitelist::PortState::from_str("Open "),
        Ok(whitelist::PortState::Open)
    ));
    match whitelist::PortState::from_str("maybe") {
        Err(whitelist::WhiltelistError::InvalidPortState { invalid }) => {
            assert_eq!(invalid, "maybe")
        }
        other => panic!("expected InvalidPortState, got {:?}", other),
    }
}

#[test]
fn output_format_from_str_accepts_keywords() {
    assert!(matches!(
        OutputFormat::from_str("human"),
        Ok(OutputFormat::Human)
    ));
    assert!(matches!(
        OutputFormat::from_str("JSON"),
        Ok(OutputFormat::Json)
    ));
    assert!(matches!(
        OutputFormat::from_str("none"),
        Ok(OutputFormat::Silent)
    ));
    match OutputFormat::from_str(" human ") {
        Err(nmap_analyze::output::Error::InvalidOutputFormat(s)) => assert_eq!(s, " human "),
        other => panic!("expected InvalidOutputFormat, got {:?}", other),
    }
}

#[test]
fn output_detail_from_str_accepts_keywords() {
    assert!(matches!(
        OutputDetail::from_str("fail"),
        Ok(OutputDetail::Fail)
    ));
    assert!(matches!(
        OutputDetail::from_str("All"),
        Ok(OutputDetail::All)
    ));
    match OutputDetail::from_str("everything") {
        Err(nmap_analyze::output::Error::InvalidOutputDetail(s)) => assert_eq!(s, "everything"),
        other => panic!("expected InvalidOutputDetail, got {:?}", other),
    }
}

#[test]
fn run_without_dd_is_insane() {
    let run = Run {
        scanner: "nmap".to_owned(),
        args: "nmap -v -n -Pn -T4 -sS -oX out.xml 192.168.0.1".to_owned(),
        start: 1531991145,
        hosts: vec![sane_host()],
    };
    match run.is_sane() {
        Err(Error::InsaneNmapFile(m)) => {
            assert_eq!(m, "nmap has been run without -dd option; use nmap -dd ..")
        }
        other => panic!("expected InsaneNmapFile, got {:?}", other),
    }
}

#[test]
fn run_reports_first_insane_host() {
    let mut bad_host = sane_host();
    bad_host.addresses = vec![];
    let run = Run {
        scanner: "nmap".to_owned(),
        args: "nmap -dd 192.168.0.1".to_owned(),
        start: 1531991145,
        hosts: vec![sane_host(), bad_host],
    };
    match run.is_sane() {
        Err(Error::InsaneNmapFile(m)) => assert_eq!(m, "Host has no addresses"),
        other => panic!("expected InsaneNmapFile, got {:?}", other),
    }
}

#[test]
fn run_with_dd_and_sane_hosts_is_sane() {
    let run = Run {
        scanner: "nmap".to_owned(),
        args: "nmap -v -n -Pn -T4 -sS -dd -oX out.xml 192.168.0.1".to_owned(),
        start: 1531991145,
        hosts: vec![sane_host()],
    };
    assert!(run.is_sane().is_ok());
}

#[test]
fn host_with_extra_ports_is_insane() {
    let mut host = sane_host();
    host.extra_ports = Some(vec![nmap::ExtraPorts {
        state: PortStatus::Filtered,
        count: 997,
    }]);
    match host.is_sane() {
        Err(Error::InsaneNmapFile(m)) => {
            assert_eq!(m, "Host has extraports defined; use nmap -dd ...")
        }
        other => panic!("expected InsaneNmapFile, got {:?}", other),
    }
}

#[test]
fn host_without_addresses_is_insane() {
    let mut host = sane_host();
    host.addresses = vec![];
    match host.is_sane() {
        Err(Error::InsaneNmapFile(m)) => assert_eq!(m, "Host has no addresses"),
        other => panic!("expected InsaneNmapFile, got {:?}", other),
    }
}

#[test]
fn host_with_only_mac_addresses_is_insane() {
    let mut host = sane_host();
    host.addresses = vec![Address::Mac {
        addr: "00:11:DD:5D:2E:DD".to_owned(),
    }];
    match host.is_sane() {
        Err(Error::InsaneNmapFile(m)) => assert_eq!(m, "Host has no IP address"),
        other => panic!("expected InsaneNmapFile, got {:?}", other),
    }
}

#[test]
fn parser_run_keeps_only_host_elements() {
    let p_run = parser::Run {
        scanner: "nmap".to_owned(),
        args: "nmap -dd 192.168.0.1".to_owned(),
        start: 1531991145,
        hosts: vec![
            parser::RunElement::ScanInfo(parser::StructInfo {}),
            parser::RunElement::Verbose(parser::Verbose {}),
            parser::RunElement::Host(parser::Host {
                starttime: 1531991145,
                endtime: 1531991167,
                status: up_status(),
                addresses: vec![Address::IpV4 {
                    addr: Ipv4Addr::new(192, 168, 0, 1),
                }],
                hostnames: parser::HostNames {
                    hostnames: vec![HostName {
                        name: "192.168.0.1".to_owned(),
                        typ: HostNameType::User,
                    }],
                },
                ports: parser::Ports {
                    extra_ports: None,
                    ports: vec![parser::Port {
                        protocol: "tcp".to_owned(),
                        id: 25,
                        state: parser::PortState {
                            state: PortStatus::Open,
                            reason: "syn-ack".to_owned(),
                            reason_ttl: 244,
                        },
                        service: PortService {
                            name: "smtp".to_owned(),
                            method: "table".to_owned(),
                            conf: 3,
                        },
                    }],
                },
            }),
            parser::RunElement::RunStats(parser::RunStats {}),
        ],
    };

    let run = Run::from(p_run);

    assert_eq!(run.scanner, "nmap");
    assert_eq!(run.args, "nmap -dd 192.168.0.1");
    assert_eq!(run.start, 1531991145);
    assert_eq!(run.hosts.len(), 1);
    let host = &run.hosts[0];
    assert_eq!(host.ports.len(), 1);
    assert_eq!(host.ports[0].id, 25);
    assert_eq!(host.ports[0].status, PortStatus::Open);
    assert_eq!(host.ports[0].reason, "syn-ack");
    assert_eq!(host.ports[0].reason_ttl, 244);
    assert_eq!(host.hostnames.len(), 1);
    assert!(host.extra_ports.is_none());
}

#[test]
fn ip_addr_renders_as_dotted_quad() {
    assert_eq!(ip_addr_to_string(&Ipv4Addr::new(192, 168, 0, 1)), "192.168.0.1");
    assert_eq!(ip_addr_to_string(&Ipv4Addr::new(0, 0, 0, 0)), "0.0.0.0");
    assert_eq!(
        ip_addr_to_string(&Ipv4Addr::new(255, 255, 255, 255)),
        "255.255.255.255"
    );
}

#[test]
fn port_renders_in_decimal() {
    assert_eq!(
        port_analysis_result_to_port_string(&PortAnalysisResult::NotScanned(0)),
        "0"
    );
    assert_eq!(
        port_analysis_result_to_port_string(&PortAnalysisResult::Pass(
            443,
            PortAnalysisReason::OpenAndOpen
        )),
        "443"
    );
    assert_eq!(
        port_analysis_result_to_port_string(&PortAnalysisResult::Unknown(65535)),
        "65535"
    );
}

#[test]
fn port_result_reasons_render_exactly() {
    assert_eq!(
        port_analysis_result_to_port_result_reason(&PortAnalysisResult::Pass(
            22,
            PortAnalysisReason::OpenAndOpen
        )),
        ""
    );
    assert_eq!(
        port_analysis_result_to_port_result_reason(&PortAnalysisResult::Pass(
            22,
            PortAnalysisReason::MaybeAndOpen
        )),
        "maybe Open, found Open"
    );
    assert_eq!(
        port_analysis_result_to_port_result_reason(&PortAnalysisResult::Pass(
            22,
            PortAnalysisReason::MaybeAndClosed
        )),
        "maybe Open, found Closed"
    );
    assert_eq!(
        port_analysis_result_to_port_result_reason(&PortAnalysisResult::Fail(
            22,
            PortAnalysisReason::OpenButClosed
        )),
        "expected Open, found Closed"
    );
    assert_eq!(
        port_analysis_result_to_port_result_reason(&PortAnalysisResult::Fail(
            22,
            PortAnalysisReason::ClosedButOpen
        )),
        "expected Closed, found Open"
    );
    assert_eq!(
        port_analysis_result_to_port_result_reason(&PortAnalysisResult::Fail(
            22,
            PortAnalysisReason::Unknown
        )),
        "unknown"
    );
    assert_eq!(
        port_analysis_result_to_port_result_reason(&PortAnalysisResult::NotScanned(22)),
        ""
    );
    assert_eq!(
        port_analysis_result_to_port_result_reason(&PortAnalysisResult::Unknown(22)),
        ""
    );
}

#[test]
fn fail_detail_suppresses_passing_rows() {
    assert!(!show_host_row(&OutputDetail::Fail, &HostAnalysisSummary::Pass));
    assert!(show_host_row(&OutputDetail::Fail, &HostAnalysisSummary::Fail));
    assert!(show_host_row(&OutputDetail::All, &HostAnalysisSummary::Pass));
    assert!(!show_port_row(
        &OutputDetail::Fail,
        &PortAnalysisResult::Pass(22, PortAnalysisReason::OpenAndOpen)
    ));
    assert!(show_port_row(
        &OutputDetail::Fail,
        &PortAnalysisResult::NotScanned(22)
    ));
    assert!(show_port_row(
        &OutputDetail::All,
        &PortAnalysisResult::Pass(22, PortAnalysisReason::OpenAndOpen)
    ));
}

#[test]
fn text_helpers_canonicalize_ascii() {
    assert_eq!(text::canon_string("  AbC\t"), "abc");
    assert_eq!(text::canon_string(""), "");
    assert!(text::canon_eq(" Open ", "open"));
    assert!(!text::canon_eq("openx", "open"));
    assert!(text::lower_eq("HuMaN", "human"));
    assert!(!text::lower_eq(" human", "human"));
    assert!(text::contains_str("nmap -dd -v", "-dd"));
    assert!(!text::contains_str("nmap -d d", "-dd"));
    assert_eq!(text::dec_string(0), "0");
    assert_eq!(text::dec_string(10), "10");
    assert_eq!(text::dec_string(65535), "65535");
}

#[test]
fn ipv4_addresses_order_by_octets() {
    let a = Ipv4Addr::new(192, 168, 0, 1);
    let b = Ipv4Addr::new(192, 168, 0, 3);
    assert!(a.lt(&b));
    assert!(!b.lt(&a));
    assert!(!a.lt(&a));
    assert_eq!(a.num(), 0xC0A80001);
}

#[test]
fn whitelist_types_hold_their_data() {
    let wl = whitelist::Whitelists {
        whitelists: vec![whitelist::Whitelist {
            name: "Group A".to_owned(),
            ports: vec![whitelist::Port {
                id: 22,
                state: whitelist::PortState::Closed,
            }],
        }],
    };
    assert_eq!(wl.whitelists.len(), 1);
    assert_eq!(wl.whitelists[0].ports[0].id, 22);

    let mapping: whitelist::Mapping = vec![whitelist::Host {
        id: "i-0".to_owned(),
        hostname: "ec2-192.168.0.1".to_owned(),
        ip: IpAddr::V4(Ipv4Addr::new(192, 168, 0, 1)),
        name: "Group A server".to_owned(),
        whitelist: "Group A".to_owned(),
    }];
    assert_eq!(mapping.len(), 1);

    let v6 = IpAddr::V6(Ipv6Addr { value: 1 });
    assert!(matches!(v6, IpAddr::V6(_)));
}
