use sshmon::config::{build_config, parse_port, ConfigError, DEFAULT_PORT};

fn s(text: &str) -> Option<String> {
    Some(text.to_string())
}

#[test]
fn missing_username_is_first_fault() {
    let r = build_config(None, s("pw"), s("host"), None);
    assert_eq!(r.unwrap_err(), ConfigError::MissingUsername);
}

#[test]
fn missing_password_is_reported() {
    let r = build_config(s("user"), None, s("host"), None);
    assert_eq!(r.unwrap_err(), ConfigError::MissingPassword);
}

#[test]
fn missing_host_is_reported() {
    let r = build_config(s("user"), s("pw"), None, None);
    assert_eq!(r.unwrap_err(), ConfigError::MissingHost);
}

#[test]
fn port_defaults_to_twenty_two() {
    let c = build_config(s("user"), s("pw"), s("host"), None).unwrap();
    assert_eq!(c.username, "user");
    assert_eq!(c.password, "pw");
    assert_eq!(c.host, "host");
    assert_eq!(c.port, DEFAULT_PORT);
    assert_eq!(c.port, 22);
}

#[test]
fn explicit_port_is_parsed() {
    let c = build_config(s("user"), s("pw"), s("host"), s("8022")).unwrap();
    assert_eq!(c.port, 8022);
}

#[test]
fn bad_port_is_rejected() {
    let r = build_config(s("user"), s("pw"), s("host"), s("not a number"));
    assert_eq!(r.unwrap_err(), ConfigError::InvalidPort);
}

#[test]
fn parse_port_plain() {
    assert_eq!(parse_port("22"), Some(22));
    assert_eq!(parse_port("65535"), Some(65535));
    assert_eq!(parse_port("0"), Some(0));
}

#[test]
fn parse_port_allows_plus_and_zeros() {
    assert_eq!(parse_port("+22"), Some(22));
    assert_eq!(parse_port("00022"), Some(22));
}

#[test]
fn parse_port_rejects_junk() {
    assert_eq!(parse_port(""), None);
    assert_eq!(parse_port("+"), None);
    assert_eq!(parse_port("-1"), None);
    assert_eq!(parse_port("2 2"), None);
    assert_eq!(parse_port("22x"), None);
    assert_eq!(parse_port("65536"), None);
    assert_eq!(parse_port("999999999999999999"), None);
}
