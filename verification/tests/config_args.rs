//! Startup argument parsing.
use udp_relay::config::{parse_config, Config, ConfigError};

fn args_of(parts: &[&str]) -> Vec<Vec<u8>> {
    parts.iter().map(|p| p.as_bytes().to_vec()).collect()
}

#[test]
fn listen_with_port() {
    let r = parse_config(&args_of(&["relay", "listen", "9000"]));
    assert!(matches!(r, Ok(Config::Listen(9000))));
}

#[test]
fn send_with_target() {
    let r = parse_config(&args_of(&["relay", "send", "127.0.0.1:9000"]));
    match r {
        Ok(Config::Send(t)) => assert_eq!(t, b"127.0.0.1:9000".to_vec()),
        other => panic!("expected a send config, got {:?}", other),
    }
}

#[test]
fn missing_arguments() {
    assert!(matches!(
        parse_config(&args_of(&["relay"])),
        Err(ConfigError::Usage)
    ));
    assert!(matches!(
        parse_config(&args_of(&[])),
        Err(ConfigError::Usage)
    ));
}

#[test]
fn unknown_mode() {
    assert!(matches!(
        parse_config(&args_of(&["relay", "serve", "9000"])),
        Err(ConfigError::UnknownMode)
    ));
}

#[test]
fn listen_missing_or_bad_port() {
    assert!(matches!(
        parse_config(&args_of(&["relay", "listen"])),
        Err(ConfigError::MissingPort)
    ));
    assert!(matches!(
        parse_config(&args_of(&["relay", "listen", "70000"])),
        Err(ConfigError::InvalidPort)
    ));
    assert!(matches!(
        parse_config(&args_of(&["relay", "listen", "12ab"])),
        Err(ConfigError::InvalidPort)
    ));
    assert!(matches!(
        parse_config(&args_of(&["relay", "listen", ""])),
        Err(ConfigError::InvalidPort)
    ));
    // the largest valid port
    assert!(matches!(
        parse_config(&args_of(&["relay", "listen", "65535"])),
        Ok(Config::Listen(65535))
    ));
}

#[test]
fn send_missing_target() {
    assert!(matches!(
        parse_config(&args_of(&["relay", "send"])),
        Err(ConfigError::MissingTarget)
    ));
}
