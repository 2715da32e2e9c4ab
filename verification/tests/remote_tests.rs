//! Tests for the remote scanner: host specification parsing, address and
//! line parsing, output parsing resilience, and kill-output
//! interpretation.

use lsport::app::Protocol;
use lsport::remote::{
    auth_attempt_plan, extract_port, interpret_remote_kill_output, parse_generic_output,
    parse_linux_output, parse_lsof_line, parse_macos_output, parse_netstat_line, parse_ss_line,
    parse_ss_users, AuthMethod, HostParseError, RemoteConfig, RemoteError, RemoteScanner,
};

fn parse(host: &str) -> Result<RemoteConfig, HostParseError> {
    RemoteConfig::parse(host, "testuser")
}

// ==================== RemoteConfig Tests ====================

#[test]
fn remote_test_remote_config_parse_full() {
    let config = parse("user@example.com:2222").unwrap();
    assert_eq!(config.username, "user");
    assert_eq!(config.host, "example.com");
    assert_eq!(config.port, 2222);
}

#[test]
fn remote_test_remote_config_parse_no_port() {
    let config = parse("user@example.com").unwrap();
    assert_eq!(config.username, "user");
    assert_eq!(config.host, "example.com");
    assert_eq!(config.port, 22);
}

#[test]
fn remote_test_remote_config_parse_host_only() {
    let config = parse("example.com").unwrap();
    assert_eq!(config.host, "example.com");
    assert_eq!(config.port, 22);
}

#[test]
fn test_remote_config_parse_default_username() {
    let config = parse("example.com").unwrap();
    assert_eq!(config.username, "testuser");
}

#[test]
fn test_remote_config_parse_bad_port() {
    assert_eq!(parse("example.com:notaport").err().unwrap(), HostParseError::InvalidPort);
    assert_eq!(parse("example.com:99999").err().unwrap(), HostParseError::InvalidPort);
}

#[test]
fn test_remote_config_parse_empty_host_after_at() {
    assert_eq!(parse("user@").err().unwrap(), HostParseError::EmptyHost);
    assert_eq!(parse("   ").err().unwrap(), HostParseError::EmptyHost);
}

#[test]
fn test_remote_config_display() {
    let config = parse("user@example.com:2222").unwrap();
    assert_eq!(config.display(), "user@example.com:2222");
}

#[test]
fn test_host_parse_error_messages() {
    assert_eq!(HostParseError::EmptyHost.message(), "Host cannot be empty");
    assert_eq!(HostParseError::InvalidPort.message(), "Invalid port number");
}

// ==================== Address Parsing Tests ====================

#[test]
fn test_extract_port_ipv4() {
    assert_eq!(extract_port("0.0.0.0:8080"), Some(8080));
    assert_eq!(extract_port("127.0.0.1:3000"), Some(3000));
    assert_eq!(extract_port("*:22"), Some(22));
}

#[test]
fn test_extract_port_ipv6() {
    assert_eq!(extract_port("[::]:8080"), Some(8080));
    assert_eq!(extract_port("[::1]:3000"), Some(3000));
}

#[test]
fn test_extract_port_rejects() {
    assert_eq!(extract_port("no-colon-here"), None);
    assert_eq!(extract_port("host:notaport"), None);
    assert_eq!(extract_port("host:70000"), None);
}

#[test]
fn test_parse_ss_users() {
    let (pid, name) = parse_ss_users("users:((\"node\",pid=1234,fd=5))");
    assert_eq!(pid, 1234);
    assert_eq!(name, "node");
}

#[test]
fn test_parse_ss_users_without_pid() {
    let (pid, name) = parse_ss_users("users:((\"node\",fd=5))");
    assert_eq!(pid, 0);
    assert_eq!(name, "node");
}

#[test]
fn test_parse_ss_users_malformed() {
    let (pid, name) = parse_ss_users("garbage");
    assert_eq!(pid, 0);
    assert_eq!(name, "unknown");
}

// ==================== Line Parsing Tests ====================

#[test]
fn test_parse_ss_line_well_formed() {
    let line = "LISTEN 0 128 0.0.0.0:22 0.0.0.0:* users:((\"sshd\",pid=900,fd=3))";
    // Columns: State Recv-Q Send-Q Local:Port Peer:Port Users — the local
    // address is the fifth column in real ss output.
    let line = format!("tcp {}", line);
    let entry = parse_ss_line(&line, Protocol::Tcp).unwrap();
    assert_eq!(entry.port, 22);
    assert_eq!(entry.pid, 900);
    assert_eq!(entry.process_name, "sshd");
    assert_eq!(entry.cpu_usage, 0);
    assert_eq!(entry.memory_usage, 0);
    assert_eq!(entry.memory_display, "-");
    assert!(entry.has_parent);
    assert!(!entry.is_zombie);
}

#[test]
fn test_parse_ss_line_too_few_columns() {
    assert!(parse_ss_line("LISTEN 0 128", Protocol::Tcp).is_none());
}

#[test]
fn test_parse_lsof_line_well_formed() {
    let line = "node   1234 user   23u  IPv4 0x12  0t0  TCP 127.0.0.1:3000";
    let entry = parse_lsof_line(line, Protocol::Tcp).unwrap();
    assert_eq!(entry.port, 3000);
    assert_eq!(entry.pid, 1234);
    assert_eq!(entry.process_name, "node");
}

#[test]
fn test_parse_lsof_line_bad_pid() {
    let line = "node   abcd user   23u  IPv4 0x12  0t0  TCP 127.0.0.1:3000";
    assert!(parse_lsof_line(line, Protocol::Tcp).is_none());
}

#[test]
fn test_parse_netstat_line_finds_first_port() {
    let line = "tcp  0  0  0.0.0.0:8080  0.0.0.0:*  LISTEN";
    let entry = parse_netstat_line(line).unwrap();
    assert_eq!(entry.port, 8080);
    assert_eq!(entry.pid, 0);
    assert_eq!(entry.process_name, "unknown");
}

// ==================== Output Parsing Resilience Tests ====================

#[test]
fn test_linux_output_skips_malformed_lines() {
    let tcp = "State Recv-Q Send-Q Local Peer Process\n\
tcp LISTEN 0 128 0.0.0.0:22 0.0.0.0:* users:((\"sshd\",pid=900,fd=3))\n\
this line is hopeless\n\
tcp LISTEN 0 128 0.0.0.0:80 0.0.0.0:* users:((\"nginx\",pid=901,fd=6))\n";
    let entries = parse_linux_output(tcp, "");
    // The malformed middle line is skipped without dropping its neighbours.
    assert_eq!(entries.len(), 2);
    assert_eq!(entries[0].port, 22);
    assert_eq!(entries[1].port, 80);
}

#[test]
fn test_macos_output_skips_malformed_lines() {
    let tcp = "COMMAND PID USER FD TYPE DEVICE SIZE/OFF NODE NAME\n\
node   1234 user   23u  IPv4 0x12  0t0  TCP 127.0.0.1:3000\n\
short line\n\
ruby   4321 user   24u  IPv4 0x13  0t0  TCP 127.0.0.1:4000\n";
    let entries = parse_macos_output(tcp, "");
    assert_eq!(entries.len(), 2);
    assert_eq!(entries[0].pid, 1234);
    assert_eq!(entries[1].pid, 4321);
}

#[test]
fn test_generic_output_only_reads_listening_lines() {
    let out = "Active Internet connections\n\
tcp  0  0  0.0.0.0:8080  0.0.0.0:*  LISTEN\n\
udp  0  0  0.0.0.0:68    0.0.0.0:*\n\
tcp  0  0  10.0.0.5:5432 10.0.0.9:51000 ESTABLISHED\n";
    let entries = parse_generic_output(out);
    // Both tcp lines mention tcp; the udp line is not considered.
    assert_eq!(entries.len(), 2);
    assert_eq!(entries[0].port, 8080);
}

// ==================== Remote Scanner State Tests ====================

#[test]
fn test_remote_scanner_starts_disconnected() {
    let scanner = RemoteScanner::new(parse("user@host").unwrap());
    assert!(!scanner.is_connected());
    match scanner.scan() {
        Err(e) => assert_eq!(e.message(), "Not connected to remote host"),
        Ok(_) => panic!("scan without a session must fail"),
    }
}

#[test]
fn test_remote_kill_requires_connection() {
    let scanner = RemoteScanner::new(parse("user@host").unwrap());
    assert!(scanner.kill_process(42).is_err());
    assert!(scanner.kill_process_force(42).is_err());
}

// ==================== Kill Output Interpretation Tests ====================

#[test]
fn test_remote_kill_output_not_found() {
    let r = interpret_remote_kill_output(42, "bash: kill: (42) - No such process\n");
    match r {
        Err(RemoteError::ProcessNotFound { pid }) => assert_eq!(pid, 42),
        _ => panic!("expected a not-found error"),
    }
    assert_eq!(
        interpret_remote_kill_output(42, "No such process").err().unwrap().message(),
        "Process 42 not found"
    );
}

#[test]
fn test_remote_kill_output_permission() {
    assert!(matches!(
        interpret_remote_kill_output(1, "kill: (1) - Operation not permitted"),
        Err(RemoteError::PermissionDenied)
    ));
    assert!(matches!(
        interpret_remote_kill_output(1, "Permission denied"),
        Err(RemoteError::PermissionDenied)
    ));
}

#[test]
fn test_remote_kill_output_silent_success() {
    assert!(interpret_remote_kill_output(1, "").is_ok());
    assert!(interpret_remote_kill_output(1, "anything else\n").is_ok());
}

// ==================== Authentication Plan Tests ====================

#[test]
fn test_auth_plan_explicit_key() {
    let config = parse("user@host").unwrap().with_key("/path/to/key".to_string());
    let plan = auth_attempt_plan(&config, Some("/home/user"));
    assert_eq!(plan.len(), 1);
    match &plan[0] {
        AuthMethod::ExplicitKey(k) => assert_eq!(k, "/path/to/key"),
        _ => panic!("expected the explicit key alone"),
    }
}

#[test]
fn test_auth_plan_agent_then_default_keys() {
    let config = parse("user@host").unwrap();
    let plan = auth_attempt_plan(&config, Some("/home/user"));
    assert_eq!(plan.len(), 4);
    assert!(matches!(plan[0], AuthMethod::Agent));
    match &plan[1] {
        AuthMethod::DefaultKey(k) => assert_eq!(k, "/home/user/.ssh/id_ed25519"),
        _ => panic!("expected the ed25519 key second"),
    }
    match &plan[2] {
        AuthMethod::DefaultKey(k) => assert_eq!(k, "/home/user/.ssh/id_rsa"),
        _ => panic!("expected the RSA key third"),
    }
    match &plan[3] {
        AuthMethod::DefaultKey(k) => assert_eq!(k, "/home/user/.ssh/id_ecdsa"),
        _ => panic!("expected the ECDSA key last"),
    }
}

#[test]
fn test_remote_config_with_key() {
    let mut config = parse("user@host").unwrap();
    config = config.with_key("/path/to/key".to_string());
    assert_eq!(config.key_path, Some("/path/to/key".to_string()));
}
