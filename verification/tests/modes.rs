use ruster::config::{validate_options, ConfigError};
use ruster::mode::Mode;

#[test]
fn default_mode_is_directory() {
    assert_eq!(Mode::default(), Mode::Dir);
}

#[test]
fn mode_labels() {
    assert_eq!(Mode::Dir.to_string(), "Dir (Directory)");
    assert_eq!(Mode::Fuzz.to_string(), "Fuzz (Fuzzing)");
    assert_eq!(Mode::Vhost.to_string(), "VHost (Virtual Host)");
    assert_eq!(Mode::DNS.to_string(), "DNS (Subdomains)");
}

#[test]
fn extensions_only_in_directory_and_fuzz_modes() {
    assert!(Mode::Dir.accepts_extensions());
    assert!(Mode::Fuzz.accepts_extensions());
    assert!(!Mode::Vhost.accepts_extensions());
    assert!(!Mode::DNS.accepts_extensions());
    assert_eq!(validate_options(&Mode::Dir, true), Ok(()));
    assert_eq!(validate_options(&Mode::Fuzz, true), Ok(()));
    assert_eq!(validate_options(&Mode::Vhost, true), Err(ConfigError::ExtensionsUnsupported));
    assert_eq!(validate_options(&Mode::DNS, true), Err(ConfigError::ExtensionsUnsupported));
    for mode in [Mode::Dir, Mode::Fuzz, Mode::Vhost, Mode::DNS] {
        assert_eq!(validate_options(&mode, false), Ok(()));
    }
}

#[test]
fn config_error_messages() {
    assert_eq!(
        ConfigError::ExtensionsUnsupported.message(),
        "Extensions are not supported in VHost mode"
    );
    assert_eq!(ConfigError::InvalidTarget.message(), "Target must start with http:// or https://");
    assert_eq!(ConfigError::NoConcurrency.message(), "Number of threads must be at least 1");
}
