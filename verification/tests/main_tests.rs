//! Tests for the engine's timing constants and the host-specification
//! entry points the command shell uses.

use lsport::app::{DEFAULT_SCAN_INTERVAL, POLL_RATE_MS};
use lsport::remote::RemoteConfig;

#[test]
fn test_app_initialization() {
    let app = lsport::app::App::new(0);
    assert!(!app.should_quit);
    assert_eq!(app.selected_index, 0);
    assert!(app.entries.is_empty());
}

#[test]
fn test_app_initial_status_message() {
    let app = lsport::app::App::new(0);
    match &app.status_message {
        lsport::app::StatusMessage::Info(msg) => {
            assert!(msg.contains("Ready") || msg.contains("navigate") || msg.contains("\u{2191}/\u{2193}"));
        }
        _ => panic!("Initial message should be Info"),
    }
}

#[test]
fn test_timing_constants() {
    assert_eq!(POLL_RATE_MS, 50);
    assert_eq!(DEFAULT_SCAN_INTERVAL, 2);
}

#[test]
fn main_test_remote_config_parse_full() {
    let config = RemoteConfig::parse("user@example.com:2222", "root").unwrap();
    assert_eq!(config.username, "user");
    assert_eq!(config.host, "example.com");
    assert_eq!(config.port, 2222);
}

#[test]
fn main_test_remote_config_parse_no_port() {
    let config = RemoteConfig::parse("user@example.com", "root").unwrap();
    assert_eq!(config.username, "user");
    assert_eq!(config.host, "example.com");
    assert_eq!(config.port, 22); // Default port
}

#[test]
fn main_test_remote_config_parse_host_only() {
    let config = RemoteConfig::parse("example.com", "root").unwrap();
    assert_eq!(config.host, "example.com");
    assert_eq!(config.port, 22); // Default port
}

#[test]
fn test_remote_config_parse_invalid() {
    let result = RemoteConfig::parse("", "root");
    assert!(result.is_err());
}

// The local-or-remote dispatcher itself lives with the shell; these cover
// the library half of each of its paths.

#[test]
fn test_scan_ports_local() {
    // The local path: scanning always succeeds, possibly with no entries.
    let mut scanner = lsport::scanner::Scanner::new();
    let entries = scanner.scan();
    let _ = entries.len();
}

#[test]
fn test_scan_ports_remote_invalid() {
    // The remote path without a usable connection must fail.
    let config = RemoteConfig::parse("invalid-host-name-that-does-not-exist", "root").unwrap();
    let scanner = lsport::remote::RemoteScanner::new(config);
    assert!(scanner.scan().is_err()); // Should fail: no session was attached
}

#[test]
fn test_scan_ports_remote_with_key() {
    let config = RemoteConfig::parse("invalid-host", "root")
        .unwrap()
        .with_key("/nonexistent/key".to_string());
    let scanner = lsport::remote::RemoteScanner::new(config);
    assert!(scanner.scan().is_err()); // Should fail: no session was attached
}
