//! The verified half of result rendering: output configuration, and the
//! texts that the per-port verdicts are shown as.  Writing to a terminal
//! or a stream is left to unverified callers.

use vstd::prelude::*;

use crate::analyze::{HostAnalysisSummary, PortAnalysisReason, PortAnalysisResult};
use crate::ip::Ipv4Addr;
use crate::text;

verus! {

#[derive(Debug)]
pub enum Error {
    InvalidOutputFormat(String),
    InvalidOutputDetail(String),
    OutputFailed,
}

/// How results are rendered.
#[derive(Debug)]
pub enum OutputFormat {
    Human,
    Json,
    Silent,
}

/// Which rows the human-readable rendering shows.
#[derive(Debug, PartialEq)]
pub enum OutputDetail {
    Fail,
    All,
}

#[derive(Debug)]
pub struct OutputConfig {
    pub detail: OutputDetail,
    pub format: OutputFormat,
    pub color: bool,
}

impl OutputFormat {
    /// Parses an output format keyword, ASCII case ignored.  The error
    /// carries the input unchanged.
    pub fn from_str(s: &str) -> (r: Result<OutputFormat, Error>)
        ensures
            r matches Ok(v) ==> {
                ||| v is Human && text::lower(s@) == "human"@
                ||| v is Json && text::lower(s@) == "json"@
                ||| v is Silent && text::lower(s@) == "none"@
            },
            r matches Err(e) ==> {
                &&& text::lower(s@) != "human"@
                &&& text::lower(s@) != "json"@
                &&& text::lower(s@) != "none"@
                &&& e matches Error::InvalidOutputFormat(t) && t@ == s@
            },
    {
        if text::lower_eq(s, "human") {
            Ok(OutputFormat::Human)
        } else if text::lower_eq(s, "json") {
            Ok(OutputFormat::Json)
        } else if text::lower_eq(s, "none") {
            Ok(OutputFormat::Silent)
        } else {
            Err(Error::InvalidOutputFormat(s.to_owned()))
        }
    }
}

impl OutputDetail {
    /// Parses an output detail keyword, ASCII case ignored.  The error
    /// carries the input unchanged.
    pub fn from_str(s: &str) -> (r: Result<OutputDetail, Error>)
        ensures
            r matches Ok(v) ==> {
                ||| v is Fail && text::lower(s@) == "fail"@
                ||| v is All && text::lower(s@) == "all"@
            },
            r matches Err(e) ==> {
                &&& text::lower(s@) != "fail"@
                &&& text::lower(s@) != "all"@
                &&& e matches Error::InvalidOutputDetail(t) && t@ == s@
            },
    {
        if text::lower_eq(s, "fail") {
            Ok(OutputDetail::Fail)
        } else if text::lower_eq(s, "all") {
            Ok(OutputDetail::All)
        } else {
            Err(Error::InvalidOutputDetail(s.to_owned()))
        }
    }
}

/// Whether a host row is rendered: the `Fail` detail level suppresses
/// hosts that passed.
pub fn show_host_row(detail: &OutputDetail, summary: &HostAnalysisSummary) -> (r: bool)
    ensures
        r == !(detail is Fail && summary is Pass),
{
    match (detail, summary) {
        (OutputDetail::Fail, HostAnalysisSummary::Pass) => false,
        _ => true,
    }
}

/// Whether a port row is rendered: the `Fail` detail level suppresses
/// ports that passed.
pub fn show_port_row(detail: &OutputDetail, result: &PortAnalysisResult) -> (r: bool)
    ensures
        r == !(detail is Fail && result is Pass),
{
    match (detail, result) {
        (OutputDetail::Fail, PortAnalysisResult::Pass(_, _)) => false,
        _ => true,
    }
}

/// The dotted-quad text of an IPv4 address.
pub open spec fn spec_ipv4_str(ip: Ipv4Addr) -> Seq<char> {
    text::dec_str(ip.a as int) + seq!['.'] + text::dec_str(ip.b as int) + seq!['.'] + text::dec_str(
        ip.c as int,
    ) + seq!['.'] + text::dec_str(ip.d as int)
}

/// Renders an IPv4 address as its dotted-quad text.
pub fn ip_addr_to_string(ip_addr: &Ipv4Addr) -> (r: String)
    ensures
        r@ == spec_ipv4_str(*ip_addr),
{
    let mut out = String::new();
    text::push_dec(&mut out, ip_addr.a as u16);
    text::string_push(&mut out, '.');
    text::push_dec(&mut out, ip_addr.b as u16);
    text::string_push(&mut out, '.');
    text::push_dec(&mut out, ip_addr.c as u16);
    text::string_push(&mut out, '.');
    text::push_dec(&mut out, ip_addr.d as u16);
    proof {
        assert(out@ =~= spec_ipv4_str(*ip_addr));
    }
    out
}

/// The port id a verdict is about.
pub open spec fn spec_port_of(result: PortAnalysisResult) -> u16 {
    match result {
        PortAnalysisResult::Pass(x, _) => x,
        PortAnalysisResult::Fail(x, _) => x,
        PortAnalysisResult::NotScanned(x) => x,
        PortAnalysisResult::Unknown(x) => x,
    }
}

/// Renders the port id of a verdict in decimal.
pub fn port_analysis_result_to_port_string(result: &PortAnalysisResult) -> (r: String)
    ensures
        r@ == text::dec_str(spec_port_of(*result) as int),
{
    let port = match result {
        PortAnalysisResult::Pass(x, _) => *x,
        PortAnalysisResult::Fail(x, _) => *x,
        PortAnalysisResult::NotScanned(x) => *x,
        PortAnalysisResult::Unknown(x) => *x,
    };
    text::dec_string(port)
}

/// The failure-reason text a verdict is shown with; passing and
/// not-scanned verdicts show none.
pub open spec fn spec_port_reason_text(result: PortAnalysisResult) -> Seq<char> {
    match result {
        PortAnalysisResult::Pass(_, PortAnalysisReason::OpenAndOpen) => ""@,
        PortAnalysisResult::Pass(_, PortAnalysisReason::ClosedAndClosed) => ""@,
        PortAnalysisResult::Pass(_, PortAnalysisReason::MaybeAndOpen) => "maybe Open, found Open"@,
        PortAnalysisResult::Pass(
            _,
            PortAnalysisReason::MaybeAndClosed,
        ) => "maybe Open, found Closed"@,
        PortAnalysisResult::Pass(_, _) => "passed but unexpected result"@,
        PortAnalysisResult::Fail(
            _,
            PortAnalysisReason::OpenButClosed,
        ) => "expected Open, found Closed"@,
        PortAnalysisResult::Fail(
            _,
            PortAnalysisReason::ClosedButOpen,
        ) => "expected Closed, found Open"@,
        PortAnalysisResult::Fail(_, PortAnalysisReason::Unknown) => "unknown"@,
        PortAnalysisResult::Fail(_, _) => "failed because unexpected result"@,
        PortAnalysisResult::NotScanned(_) => ""@,
        PortAnalysisResult::Unknown(_) => ""@,
    }
}

/// Renders the failure-reason column of a verdict.
pub fn port_analysis_result_to_port_result_reason(result: &PortAnalysisResult) -> (r: String)
    ensures
        r@ == spec_port_reason_text(*result),
{
    match result {
        PortAnalysisResult::Pass(_, PortAnalysisReason::OpenAndOpen) => "",
        PortAnalysisResult::Pass(_, PortAnalysisReason::ClosedAndClosed) => "",
        PortAnalysisResult::Pass(_, PortAnalysisReason::MaybeAndOpen) => "maybe Open, found Open",
        PortAnalysisResult::Pass(_, PortAnalysisReason::MaybeAndClosed) => {
            "maybe Open, found Closed"
        },
        PortAnalysisResult::Pass(_, _) => "passed but unexpected result",
        PortAnalysisResult::Fail(_, PortAnalysisReason::OpenButClosed) => {
            "expected Open, found Closed"
        },
        PortAnalysisResult::Fail(_, PortAnalysisReason::ClosedButOpen) => {
            "expected Closed, found Open"
        },
        PortAnalysisResult::Fail(_, PortAnalysisReason::Unknown) => "unknown",
        PortAnalysisResult::Fail(_, _) => "failed because unexpected result",
        PortAnalysisResult::NotScanned(_) => "",
        PortAnalysisResult::Unknown(_) => "",
    }.to_owned()
}

} // verus!
