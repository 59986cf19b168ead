use fibs::config::{parse_port, Config, DEFAULT_PORT};
use fibs::error::Error;

#[test]
fn ports_parse_as_u16() {
    assert_eq!(parse_port("4321"), Some(4321));
    assert_eq!(parse_port("0"), Some(0));
    assert_eq!(parse_port("65535"), Some(65535));
    assert_eq!(parse_port("+80"), Some(80));
    assert_eq!(parse_port("0080"), Some(80));
    assert_eq!(parse_port("65536"), None);
    assert_eq!(parse_port("99999999999"), None);
    assert_eq!(parse_port(""), None);
    assert_eq!(parse_port("+"), None);
    assert_eq!(parse_port("-1"), None);
    assert_eq!(parse_port("12a"), None);
    assert_eq!(parse_port(" 12"), None);
}

#[test]
fn defaults_apply() {
    let c = Config::from_overrides(None, None).unwrap();
    assert_eq!(c.hostname, "fibs.com");
    assert_eq!(c.port, DEFAULT_PORT);
    assert_eq!(c.port, 4321);
}

#[test]
fn overrides_apply() {
    let c = Config::from_overrides(Some(String::from("example.org")), Some(String::from("23"))).unwrap();
    assert_eq!(c.hostname, "example.org");
    assert_eq!(c.port, 23);
}

#[test]
fn bad_port_falls_back_to_default() {
    let c = Config::from_overrides(None, Some(String::from("telnet"))).unwrap();
    assert_eq!(c.port, 4321);
}

#[test]
fn nul_in_hostname_is_refused() {
    match Config::from_overrides(Some(String::from("fi\0bs")), None) {
        Err(Error::MalformedConfiguration { position, preceding }) => {
            assert_eq!(position, 2);
            assert_eq!(preceding, b"fi".to_vec());
        }
        other => panic!("unexpected {:?}", other.map(|c| c.hostname)),
    }
}
