//! From the outcome of a request to what is reported for it.

use crate::template::{RequestModel, RequestSpec};
use crate::text::{append_chars, chars_of, string_of};
use vstd::prelude::*;

verus! {

/// How a request ended.
#[derive(Clone, Debug, PartialEq, Eq)]
pub enum Outcome {
    /// The server answered with this status code.
    Status(u16),
    /// No answer came; the text says why.
    TransportFailure(String),
}

/// An outcome as plain values.
pub enum OutcomeModel {
    Status(u16),
    TransportFailure(Seq<char>),
}

impl View for Outcome {
    type V = OutcomeModel;

    open spec fn view(&self) -> OutcomeModel {
        match self {
            Outcome::Status(code) => OutcomeModel::Status(*code),
            Outcome::TransportFailure(why) => OutcomeModel::TransportFailure(why@),
        }
    }
}

/// The class of a status code, by which a finding is shown.
#[derive(Clone, Copy, Debug, PartialEq, Eq, Structural)]
pub enum Severity {
    /// Below 200.
    Informational,
    /// 200 to 299.
    Success,
    /// 300 to 399.
    Redirect,
    /// 400 to 499.
    ClientError,
    /// 500 and above.
    ServerError,
}

/// What is done with an outcome.
#[derive(Clone, Copy, Debug, PartialEq, Eq, Structural)]
pub enum ReportDecision {
    /// Nothing is shown.
    Suppressed,
    /// The word is shown as found, in the given class.
    Finding(Severity),
    /// The failure is shown as an error.
    Failure,
}

/// The status codes that are not reported unless the caller says otherwise.
pub open spec fn default_suppressed() -> Seq<u16> {
    seq![400u16, 404u16]
}

/// The class of a status code.
pub open spec fn severity_of(status: u16) -> Severity {
    if status < 200 {
        Severity::Informational
    } else if status < 300 {
        Severity::Success
    } else if status < 400 {
        Severity::Redirect
    } else if status < 500 {
        Severity::ClientError
    } else {
        Severity::ServerError
    }
}

/// What is done with an outcome, given the status codes that are not
/// reported: every other status code is a finding, every failure is shown.
pub open spec fn decision_of(outcome: OutcomeModel, suppressed: Seq<u16>) -> ReportDecision {
    match outcome {
        OutcomeModel::Status(status) => if suppressed.contains(status) {
            ReportDecision::Suppressed
        } else {
            ReportDecision::Finding(severity_of(status))
        },
        OutcomeModel::TransportFailure(_) => ReportDecision::Failure,
    }
}

/// The character for a digit.
pub open spec fn digit(d: nat) -> char {
    if d == 0 {
        '0'
    } else if d == 1 {
        '1'
    } else if d == 2 {
        '2'
    } else if d == 3 {
        '3'
    } else if d == 4 {
        '4'
    } else if d == 5 {
        '5'
    } else if d == 6 {
        '6'
    } else if d == 7 {
        '7'
    } else if d == 8 {
        '8'
    } else {
        '9'
    }
}

/// A number in decimal, without leading zeros.
pub open spec fn decimal(n: nat) -> Seq<char>
    decreases n,
{
    if n < 10 {
        seq![digit(n)]
    } else {
        decimal(n / 10).push(digit(n % 10))
    }
}

/// What is reported for one word.
#[derive(Clone, Debug, PartialEq, Eq)]
pub struct Report {
    /// The URL that was fetched.
    pub url: String,
    /// The virtual host that was asked for, in `Vhost` mode.
    pub vhost: Option<String>,
    /// How the request ended.
    pub outcome: Outcome,
    /// What is done with it.
    pub decision: ReportDecision,
}

/// A report as plain values.
pub struct ReportModel {
    pub url: Seq<char>,
    pub vhost: Option<Seq<char>>,
    pub outcome: OutcomeModel,
    pub decision: ReportDecision,
}

impl View for Report {
    type V = ReportModel;

    open spec fn view(&self) -> ReportModel {
        ReportModel {
            url: self.url@,
            vhost: self.vhost.deep_view(),
            outcome: self.outcome@,
            decision: self.decision,
        }
    }
}

/// The report for a request that ended with `outcome`.
pub open spec fn report_of(
    request: RequestModel,
    outcome: OutcomeModel,
    suppressed: Seq<u16>,
) -> ReportModel {
    ReportModel {
        url: request.url,
        vhost: request.host,
        outcome,
        decision: decision_of(outcome, suppressed),
    }
}

/// The note that names the virtual host of a finding.
pub open spec fn vhost_note(vhost: Option<Seq<char>>) -> Seq<char> {
    match vhost {
        Some(label) => " (VHost: "@ + label + ")"@,
        None => Seq::empty(),
    }
}

/// The line that shows a report: none for a suppressed outcome,
/// `Found: <url>[ (VHost: <label>)] (<status>)` for a status code,
/// `Error: Request failed: <why>` for a failure.
pub open spec fn line_of(report: ReportModel) -> Option<Seq<char>> {
    if report.decision == ReportDecision::Suppressed {
        None
    } else {
        match report.outcome {
            OutcomeModel::Status(status) => Some(
                "Found: "@ + report.url + vhost_note(report.vhost) + " ("@ + decimal(status as nat)
                    + ")"@,
            ),
            OutcomeModel::TransportFailure(why) => Some("Error: Request failed: "@ + why),
        }
    }
}

/// The status codes that are not reported unless the caller says otherwise:
/// 400 and 404.
pub fn default_suppressed_codes() -> (codes: Vec<u16>)
    ensures
        codes@ == default_suppressed(),
{
    let mut codes: Vec<u16> = Vec::new();
    codes.push(400);
    codes.push(404);
    proof {
        assert(codes@ =~= default_suppressed());
    }
    codes
}

/// The class of a status code.
pub fn severity(status: u16) -> (class: Severity)
    ensures
        class == severity_of(status),
{
    if status < 200 {
        Severity::Informational
    } else if status < 300 {
        Severity::Success
    } else if status < 400 {
        Severity::Redirect
    } else if status < 500 {
        Severity::ClientError
    } else {
        Severity::ServerError
    }
}

/// Whether `status` is one of `codes`.
pub fn is_suppressed(status: u16, codes: &Vec<u16>) -> (yes: bool)
    ensures
        yes == codes@.contains(status),
{
    let mut i: usize = 0;
    while i < codes.len()
        invariant
            i <= codes.len(),
            forall|j: int| 0 <= j < i ==> codes@[j] != status,
        decreases codes.len() - i,
    {
        if codes[i] == status {
            return true;
        }
        i = i + 1;
    }
    false
}

/// What is done with an outcome when the status codes in `suppressed` are
/// not reported.
pub fn classify_with(outcome: &Outcome, suppressed: &Vec<u16>) -> (decision: ReportDecision)
    ensures
        decision == decision_of(outcome@, suppressed@),
{
    match outcome {
        Outcome::Status(status) => {
            if is_suppressed(*status, suppressed) {
                ReportDecision::Suppressed
            } else {
                ReportDecision::Finding(severity(*status))
            }
        },
        Outcome::TransportFailure(_) => ReportDecision::Failure,
    }
}

/// What is done with an outcome: 400 and 404 are not reported, every other
/// status code is a finding, every failure is shown.
pub fn classify(outcome: &Outcome) -> (decision: ReportDecision)
    ensures
        decision == decision_of(outcome@, default_suppressed()),
{
    if let Outcome::Status(status) = outcome {
        if *status == 400 || *status == 404 {
            proof {
                assert(default_suppressed()[0] == 400 && default_suppressed()[1] == 404);
            }
            ReportDecision::Suppressed
        } else {
            ReportDecision::Finding(severity(*status))
        }
    } else {
        ReportDecision::Failure
    }
}

/// The report for a request that ended with `outcome`.
pub fn make_report(request: &RequestSpec, outcome: Outcome, suppressed: &Vec<u16>) -> (report:
    Report)
    ensures
        report@ == report_of(request@, outcome@, suppressed@),
{
    let decision = classify_with(&outcome, suppressed);
    Report { url: request.url.clone(), vhost: request.host.clone(), outcome, decision }
}

fn digit_char(d: u16) -> (c: char)
    requires
        d < 10,
    ensures
        c == digit(d as nat),
{
    if d == 0 {
        '0'
    } else if d == 1 {
        '1'
    } else if d == 2 {
        '2'
    } else if d == 3 {
        '3'
    } else if d == 4 {
        '4'
    } else if d == 5 {
        '5'
    } else if d == 6 {
        '6'
    } else if d == 7 {
        '7'
    } else if d == 8 {
        '8'
    } else {
        '9'
    }
}

fn push_decimal(out: &mut Vec<char>, n: u16)
    ensures
        final(out)@ == old(out)@ + decimal(n as nat),
    decreases n,
{
    if n >= 10 {
        push_decimal(out, n / 10);
    }
    out.push(digit_char(n % 10));
    proof {
        if n >= 10 {
            assert(out@ =~= old(out)@ + decimal((n / 10) as nat).push(digit((n % 10) as nat)));
        } else {
            assert(out@ =~= old(out)@ + seq![digit(n as nat)]);
        }
    }
}

/// A status code in decimal.
pub fn status_text(status: u16) -> (text: String)
    ensures
        text@ == decimal(status as nat),
{
    let mut out: Vec<char> = Vec::new();
    push_decimal(&mut out, status);
    proof {
        assert(out@ =~= decimal(status as nat));
    }
    string_of(&out)
}

impl Report {
    /// Whether the report is shown at all.
    pub fn is_reportable(&self) -> (yes: bool)
        ensures
            yes == (self.decision != ReportDecision::Suppressed),
            yes == line_of(self@) is Some,
    {
        match self.decision {
            ReportDecision::Suppressed => false,
            _ => true,
        }
    }

    /// The line that shows the report, if it is shown.
    pub fn line(&self) -> (line: Option<String>)
        ensures
            line.deep_view() == line_of(self@),
    {
        if !self.is_reportable() {
            return None;
        }
        match &self.outcome {
            Outcome::Status(status) => {
                let mut out = chars_of("Found: ");
                append_chars(&mut out, &chars_of(self.url.as_str()));
                if let Some(label) = &self.vhost {
                    append_chars(&mut out, &chars_of(" (VHost: "));
                    append_chars(&mut out, &chars_of(label.as_str()));
                    append_chars(&mut out, &chars_of(")"));
                }
                append_chars(&mut out, &chars_of(" ("));
                push_decimal(&mut out, *status);
                append_chars(&mut out, &chars_of(")"));
                proof {
                    assert(out@ =~= line_of(self@)->0);
                }
                Some(string_of(&out))
            },
            Outcome::TransportFailure(why) => {
                let mut out = chars_of("Error: Request failed: ");
                append_chars(&mut out, &chars_of(why.as_str()));
                Some(string_of(&out))
            },
        }
    }
}

} // verus!
