use ruster::classify::{
    classify, classify_with, default_suppressed_codes, is_suppressed, make_report, severity,
    status_text, Outcome, Report, ReportDecision, Severity,
};
use ruster::template::RequestSpec;

fn request(url: &str, host: Option<&str>) -> RequestSpec {
    RequestSpec { url: url.to_string(), user_agent: None, host: host.map(|h| h.to_string()) }
}

#[test]
fn not_found_and_bad_request_are_suppressed() {
    assert_eq!(classify(&Outcome::Status(404)), ReportDecision::Suppressed);
    assert_eq!(classify(&Outcome::Status(400)), ReportDecision::Suppressed);
}

#[test]
fn ok_and_unavailable_are_reported_in_different_classes() {
    let ok = classify(&Outcome::Status(200));
    let unavailable = classify(&Outcome::Status(503));
    assert_eq!(ok, ReportDecision::Finding(Severity::Success));
    assert_eq!(unavailable, ReportDecision::Finding(Severity::ServerError));
    assert_ne!(ok, unavailable);
}

#[test]
fn transport_failure_is_always_reported_as_failure() {
    let outcome = Outcome::TransportFailure("connection refused".to_string());
    assert_eq!(classify(&outcome), ReportDecision::Failure);
    assert_eq!(classify_with(&outcome, &vec![]), ReportDecision::Failure);
    assert_eq!(classify_with(&outcome, &vec![0, 200, 404]), ReportDecision::Failure);
}

#[test]
fn severity_bucket_boundaries() {
    assert_eq!(severity(0), Severity::Informational);
    assert_eq!(severity(100), Severity::Informational);
    assert_eq!(severity(199), Severity::Informational);
    assert_eq!(severity(200), Severity::Success);
    assert_eq!(severity(299), Severity::Success);
    assert_eq!(severity(300), Severity::Redirect);
    assert_eq!(severity(399), Severity::Redirect);
    assert_eq!(severity(400), Severity::ClientError);
    assert_eq!(severity(403), Severity::ClientError);
    assert_eq!(severity(499), Severity::ClientError);
    assert_eq!(severity(500), Severity::ServerError);
    assert_eq!(severity(599), Severity::ServerError);
    assert_eq!(severity(u16::MAX), Severity::ServerError);
}

#[test]
fn every_status_but_the_suppressed_is_a_finding() {
    for status in 0u16..=999 {
        let decision = classify(&Outcome::Status(status));
        if status == 400 || status == 404 {
            assert_eq!(decision, ReportDecision::Suppressed);
        } else {
            assert_eq!(decision, ReportDecision::Finding(severity(status)));
        }
    }
}

#[test]
fn default_suppressed_codes_are_400_and_404() {
    assert_eq!(default_suppressed_codes(), vec![400, 404]);
}

#[test]
fn suppressed_set_is_configurable() {
    let codes = vec![403, 500];
    assert!(is_suppressed(403, &codes));
    assert!(is_suppressed(500, &codes));
    assert!(!is_suppressed(404, &codes));
    assert!(!is_suppressed(403, &vec![]));
    assert_eq!(classify_with(&Outcome::Status(403), &codes), ReportDecision::Suppressed);
    assert_eq!(
        classify_with(&Outcome::Status(404), &codes),
        ReportDecision::Finding(Severity::ClientError)
    );
    assert_eq!(
        classify_with(&Outcome::Status(400), &vec![]),
        ReportDecision::Finding(Severity::ClientError)
    );
}

#[test]
fn status_text_is_decimal() {
    assert_eq!(status_text(0), "0");
    assert_eq!(status_text(7), "7");
    assert_eq!(status_text(10), "10");
    assert_eq!(status_text(200), "200");
    assert_eq!(status_text(404), "404");
    assert_eq!(status_text(1000), "1000");
    assert_eq!(status_text(65535), "65535");
    for n in 0u16..=2000 {
        assert_eq!(status_text(n), n.to_string());
    }
}

#[test]
fn finding_line_has_url_and_status() {
    let report =
        make_report(&request("http://example.com/admin", None), Outcome::Status(200), &vec![400, 404]);
    assert_eq!(
        report,
        Report {
            url: "http://example.com/admin".to_string(),
            vhost: None,
            outcome: Outcome::Status(200),
            decision: ReportDecision::Finding(Severity::Success),
        }
    );
    assert!(report.is_reportable());
    assert_eq!(report.line(), Some("Found: http://example.com/admin (200)".to_string()));
}

#[test]
fn vhost_finding_line_names_the_host() {
    let report = make_report(
        &request("http://10.0.0.1", Some("intranet.10.0.0.1")),
        Outcome::Status(301),
        &default_suppressed_codes(),
    );
    assert_eq!(report.decision, ReportDecision::Finding(Severity::Redirect));
    assert_eq!(
        report.line(),
        Some("Found: http://10.0.0.1 (VHost: intranet.10.0.0.1) (301)".to_string())
    );
}

#[test]
fn suppressed_report_has_no_line() {
    let report = make_report(
        &request("http://example.com/x", Some("x.example.com")),
        Outcome::Status(404),
        &default_suppressed_codes(),
    );
    assert_eq!(report.decision, ReportDecision::Suppressed);
    assert!(!report.is_reportable());
    assert_eq!(report.line(), None);
}

#[test]
fn failure_line_carries_the_description() {
    let report = make_report(
        &request("http://example.com/x", None),
        Outcome::TransportFailure("timed out".to_string()),
        &default_suppressed_codes(),
    );
    assert_eq!(report.decision, ReportDecision::Failure);
    assert!(report.is_reportable());
    assert_eq!(report.line(), Some("Error: Request failed: timed out".to_string()));
}
