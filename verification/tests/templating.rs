use ruster::mode::Mode;
use ruster::template::{
    clean_url, derive_request_spec, derive_template, extract_protocol, fill, get_url,
    host_override, target_has_scheme,
};
use ruster::config::ConfigError;

#[test]
fn dns_mode_keeps_scheme_and_drops_path() {
    let template = get_url("https://example.com/path", &Mode::DNS);
    assert_eq!(template, "https://{fuzz}.example.com");
    let request = derive_request_spec(&template, "api", &Mode::DNS);
    assert_eq!(request.url, "https://api.example.com");
    assert_eq!(request.host, None);
    assert_eq!(request.user_agent, None);
}

#[test]
fn directory_mode_appends_a_segment() {
    let template = get_url("http://example.com", &Mode::Dir);
    assert_eq!(template, "http://example.com/{fuzz}");
    let request = derive_request_spec(&template, "admin", &Mode::Dir);
    assert_eq!(request.url, "http://example.com/admin");
    assert_eq!(request.host, None);
}

#[test]
fn vhost_mode_leaves_url_and_sets_host() {
    let template = get_url("http://10.0.0.1", &Mode::Vhost);
    assert_eq!(template, "http://10.0.0.1");
    let request = derive_request_spec(&template, "intranet", &Mode::Vhost);
    assert_eq!(request.url, "http://10.0.0.1");
    assert_eq!(request.host, Some("intranet.10.0.0.1".to_string()));
}

#[test]
fn fuzz_mode_returns_target_unchanged() {
    assert_eq!(get_url("http://example.com/?q={fuzz}", &Mode::Fuzz), "http://example.com/?q={fuzz}");
    assert_eq!(get_url("http://example.com/", &Mode::Fuzz), "http://example.com/");
    assert_eq!(fill("http://example.com/?q={fuzz}&r={fuzz}", "x"), "http://example.com/?q=x&r=x");
    assert_eq!(fill("http://example.com/", "x"), "http://example.com/");
}

#[test]
fn protocol_is_https_only_for_https_targets() {
    assert_eq!(extract_protocol("https://example.com"), "https://");
    assert_eq!(extract_protocol("http://example.com"), "http://");
    assert_eq!(extract_protocol("ftp://example.com"), "http://");
    assert_eq!(extract_protocol("example.com"), "http://");
    assert_eq!(extract_protocol(""), "http://");
    assert_eq!(extract_protocol("HTTPS://example.com"), "http://");
}

#[test]
fn clean_url_strips_scheme_and_path() {
    assert_eq!(clean_url("https://example.com/path/more"), "example.com");
    assert_eq!(clean_url("http://example.com"), "example.com");
    assert_eq!(clean_url("http://example.com:8080/x"), "example.com:8080");
    assert_eq!(clean_url("example.com/path"), "example.com");
    assert_eq!(clean_url("http://"), "");
    assert_eq!(clean_url(""), "");
    assert_eq!(clean_url("/only/path"), "");
}

#[test]
fn target_without_scheme_is_rejected_by_derive_template() {
    assert!(target_has_scheme("http://a"));
    assert!(target_has_scheme("https://a"));
    assert!(!target_has_scheme("a.com"));
    assert!(!target_has_scheme("http:/a.com"));
    assert_eq!(derive_template("example.com", &Mode::Dir), Err(ConfigError::InvalidTarget));
    assert_eq!(derive_template("", &Mode::DNS), Err(ConfigError::InvalidTarget));
    assert_eq!(
        derive_template("http://example.com", &Mode::Dir),
        Ok("http://example.com/{fuzz}".to_string())
    );
}

#[test]
fn target_without_scheme_defaults_to_http() {
    assert_eq!(get_url("example.com/path", &Mode::DNS), "http://{fuzz}.example.com");
}

#[test]
fn host_override_joins_word_and_host() {
    assert_eq!(host_override("https://example.com/a/b", "dev"), "dev.example.com");
    assert_eq!(host_override("http://10.0.0.1", ""), ".10.0.0.1");
}

#[test]
fn fill_handles_unicode_and_partial_markers() {
    assert_eq!(fill("http://é.example/{fuzz}", "ünï"), "http://é.example/ünï");
    assert_eq!(fill("{fuz{fuzz}z}", "a"), "{fuzaz}");
    assert_eq!(fill("{fuzz}{fuzz}", "{fuzz}"), "{fuzz}{fuzz}");
    assert_eq!(fill("{fuzz", "a"), "{fuzz");
}
