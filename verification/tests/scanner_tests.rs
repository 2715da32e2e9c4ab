//! Tests for the local scanner: memory formatting, scanning, process
//! termination, and the throttled UDP cache.

use lsport::app::Protocol;
use lsport::scanner::{
    format_memory, kill_process, parse_udp_lsof, parse_udp_netstat, reconcile, Scanner,
    UdpCacheEntry, UdpPortCache, ProcessInfo, SocketRow, UDP_CACHE_DURATION_MS,
};

// ==================== Format Memory Tests ====================

#[test]
fn test_format_memory_zero() {
    assert_eq!(format_memory(0), "0 B");
}

#[test]
fn test_format_memory_bytes() {
    assert_eq!(format_memory(1), "1 B");
    assert_eq!(format_memory(512), "512 B");
    assert_eq!(format_memory(1023), "1023 B");
}

#[test]
fn test_format_memory_kilobytes_boundary() {
    assert_eq!(format_memory(1024), "1.0 KB");
    assert_eq!(format_memory(1025), "1.0 KB"); // Rounds down
}

#[test]
fn test_format_memory_kilobytes() {
    assert_eq!(format_memory(1536), "1.5 KB");
    assert_eq!(format_memory(2048), "2.0 KB");
    assert_eq!(format_memory(10240), "10.0 KB");
    assert_eq!(format_memory(1024 * 1023), "1023.0 KB");
}

#[test]
fn test_format_memory_megabytes_boundary() {
    assert_eq!(format_memory(1024 * 1024), "1.0 MB");
    assert_eq!(format_memory(1024 * 1024 + 1), "1.0 MB");
}

#[test]
fn test_format_memory_megabytes() {
    assert_eq!(format_memory(1_048_576), "1.0 MB");
    assert_eq!(format_memory(1_572_864), "1.5 MB");
    assert_eq!(format_memory(104_857_600), "100.0 MB");
    assert_eq!(format_memory(536_870_912), "512.0 MB");
}

#[test]
fn test_format_memory_gigabytes_boundary() {
    assert_eq!(format_memory(1024 * 1024 * 1024), "1.0 GB");
}

#[test]
fn test_format_memory_gigabytes() {
    assert_eq!(format_memory(1_073_741_824), "1.0 GB");
    assert_eq!(format_memory(1_610_612_736), "1.5 GB");
    assert_eq!(format_memory(2_147_483_648), "2.0 GB");
    assert_eq!(format_memory(8_589_934_592), "8.0 GB");
}

#[test]
fn test_format_memory_large_values() {
    assert_eq!(format_memory(16 * 1024 * 1024 * 1024), "16.0 GB");
    assert_eq!(format_memory(32 * 1024 * 1024 * 1024), "32.0 GB");
}

#[test]
fn test_format_memory_max_u64() {
    // Should not panic on max value
    let result = format_memory(u64::MAX);
    assert!(result.contains("GB"));
}

#[test]
fn test_format_memory_precision() {
    // Test decimal precision
    assert_eq!(format_memory(1126), "1.1 KB"); // 1.099 KB rounds to 1.1
    assert_eq!(format_memory(1177), "1.1 KB"); // 1.149 KB rounds to 1.1
    assert_eq!(format_memory(1178), "1.2 KB"); // 1.150 KB rounds to 1.2
}

#[test]
fn test_format_memory_consistency() {
    // Same input should always produce same output
    for _ in 0..100 {
        assert_eq!(format_memory(1024), "1.0 KB");
        assert_eq!(format_memory(1_048_576), "1.0 MB");
        assert_eq!(format_memory(1_073_741_824), "1.0 GB");
    }
}

// ==================== Scanner Creation Tests ====================

#[test]
fn test_scanner_new() {
    let scanner = Scanner::new();
    assert!(scanner.directory_len() > 0, "Should have at least one process");
}

#[test]
fn test_scanner_default() {
    let scanner = Scanner::default();
    assert!(scanner.directory_len() > 0);
}

#[test]
fn test_scanner_default_equals_new() {
    let scanner1 = Scanner::new();
    let scanner2 = Scanner::default();
    // Both should have processes populated
    assert!(scanner1.directory_len() > 0);
    assert!(scanner2.directory_len() > 0);
}

// ==================== Scanner Scan Tests ====================

#[test]
fn test_scanner_scan_returns_vec() {
    let mut scanner = Scanner::new();
    let entries = scanner.scan();
    // Should return a Vec (might be empty if no ports are open)
    let _ = entries.len();
}

#[test]
fn test_scanner_scan_entries_have_valid_ports() {
    let mut scanner = Scanner::new();
    let entries = scanner.scan();

    // Port 0 can appear in some edge cases (wildcard bindings)
    for entry in &entries {
        let _port = entry.port;
    }
}

#[test]
fn test_scanner_scan_entries_have_valid_pids() {
    let mut scanner = Scanner::new();
    let entries = scanner.scan();

    for entry in &entries {
        // PID 0 can exist (kernel/system processes on some platforms)
        let _ = entry.pid;
    }
}

#[test]
fn test_scanner_scan_entries_have_process_names() {
    let mut scanner = Scanner::new();
    let entries = scanner.scan();

    for entry in &entries {
        assert!(!entry.process_name.is_empty(), "Process name should not be empty");
    }
}

#[test]
fn test_scanner_scan_entries_have_valid_protocol() {
    let mut scanner = Scanner::new();
    let entries = scanner.scan();

    for entry in &entries {
        assert!(
            entry.protocol == Protocol::Tcp || entry.protocol == Protocol::Udp,
            "Protocol should be TCP or UDP"
        );
    }
}

#[test]
fn test_scanner_scan_entries_have_memory_display() {
    let mut scanner = Scanner::new();
    let entries = scanner.scan();

    for entry in &entries {
        assert!(!entry.memory_display.is_empty(), "Memory display should not be empty");
        assert!(
            entry.memory_display.contains("B")
                || entry.memory_display.contains("KB")
                || entry.memory_display.contains("MB")
                || entry.memory_display.contains("GB"),
            "Memory display should contain unit"
        );
    }
}

#[test]
fn test_scanner_scan_entries_sorted_by_port() {
    let mut scanner = Scanner::new();
    let entries = scanner.scan();

    if entries.len() > 1 {
        for i in 0..entries.len() - 1 {
            assert!(entries[i].port <= entries[i + 1].port, "Entries should be sorted by port");
        }
    }
}

#[test]
fn test_scanner_scan_zombie_detection_applied() {
    let mut scanner = Scanner::new();
    let entries = scanner.scan();

    // Zombie detection should have been applied (even if no zombies found)
    for entry in &entries {
        if entry.is_zombie {
            assert!(entry.cpu_usage > 4000, "Zombie should have high CPU");
            assert!(!entry.has_parent, "Zombie should not have parent");
        }
    }
}

#[test]
fn test_scanner_multiple_scans() {
    let mut scanner = Scanner::new();

    // Multiple scans should work without issues
    for _ in 0..5 {
        let entries = scanner.scan();
        let _ = entries.len();
    }
}

#[test]
fn test_scanner_scan_cpu_usage_range() {
    let mut scanner = Scanner::new();
    let entries = scanner.scan();

    for entry in &entries {
        // CPU is carried unsigned; it can exceed 100% on multi-core systems
        assert!(entry.cpu_usage <= u32::MAX, "CPU usage should be in range");
    }
}

// ==================== Kill Process Tests ====================

#[test]
fn test_kill_process_nonexistent_pid() {
    // Use a PID that almost certainly doesn't exist
    let result = kill_process(999_999_999);
    assert!(result.is_err(), "Killing non-existent process should fail");

    let err_msg = result.unwrap_err().message();
    assert!(
        err_msg.contains("not found") || err_msg.contains("exited"),
        "Error should mention process not found"
    );
}

#[test]
fn test_kill_process_zero_pid() {
    // PID 0 should not exist
    let result = kill_process(0);
    assert!(result.is_err(), "Killing PID 0 should fail");
}

#[test]
fn test_kill_process_force_nonexistent() {
    // Test force kill on nonexistent PID
    let result = lsport::scanner::force_kill_begin(999_999_999);
    assert!(result.is_err());
    let error = result.err().unwrap();
    let msg = error.message();
    assert!(msg.contains("not found") || msg.contains("Process"));
}

// ==================== ProcessInfo Tests ====================

#[test]
fn test_process_info_struct() {
    let info = ProcessInfo {
        name: "test_process".to_string(),
        cpu_usage: 2550,
        memory: 1024 * 1024,
        has_parent: true,
    };

    assert_eq!(info.name, "test_process");
    assert_eq!(info.cpu_usage, 2550);
    assert_eq!(info.memory, 1024 * 1024);
    assert!(info.has_parent);
}

// ==================== Integration Tests ====================

#[test]
fn test_scanner_full_workflow() {
    // Create scanner
    let mut scanner = Scanner::new();

    // Initial scan
    let entries1 = scanner.scan();

    // Second scan (should refresh data)
    let entries2 = scanner.scan();

    // Both scans should complete without error
    for entry in entries1.iter().chain(entries2.iter()) {
        let _ = entry.port;
        let _ = entry.pid;
        let _ = &entry.process_name;
    }
}

#[test]
fn test_scanner_entries_deduplication() {
    let mut scanner = Scanner::new();
    let entries = scanner.scan();

    // Count duplicates (same port + pid + protocol)
    // Some duplicates may appear due to IPv4/IPv6 dual-stack
    let mut seen = std::collections::HashSet::new();
    let mut duplicate_count = 0;

    for entry in &entries {
        let key = (entry.port, entry.pid, format!("{:?}", entry.protocol));
        if !seen.insert(key) {
            duplicate_count += 1;
        }
    }

    assert!(
        duplicate_count <= entries.len() / 2,
        "Too many duplicates: {} out of {} entries",
        duplicate_count,
        entries.len()
    );
}

// ==================== UDP Cache Tests ====================

const LSOF_SAMPLE: &str = "COMMAND  PID USER  FD  TYPE DEVICE SIZE/OFF NODE NAME\n\
avahi    812 avahi 12u IPv4 0x1    0t0      UDP  *:5353\n\
chronyd  901 chrony 5u IPv4 0x2    0t0      UDP  127.0.0.1:323\n\
avahi    812 avahi 13u IPv6 0x3    0t0      UDP  *:5353\n";

#[test]
fn test_udp_cache_starts_stale() {
    let cache = UdpPortCache::new();
    assert!(cache.needs_refresh(0));
    assert!(cache.needs_refresh(123_456));
}

#[test]
fn test_scanner_udp_cache_starts_empty_and_stale() {
    let scanner = Scanner::new();
    assert!(scanner.udp_rows().is_empty());
    assert!(scanner.udp_refresh_due(0));
}

#[test]
fn test_udp_cache_throttles_within_interval() {
    let mut cache = UdpPortCache::new();
    cache.apply_refresh(1_000, Some(LSOF_SAMPLE), None);
    // Within the interval, no re-scan is asked for.
    assert!(!cache.needs_refresh(1_000));
    assert!(!cache.needs_refresh(1_000 + UDP_CACHE_DURATION_MS - 1));
    // Once the interval has elapsed, a re-scan is due.
    assert!(cache.needs_refresh(1_000 + UDP_CACHE_DURATION_MS));
}

#[test]
fn test_udp_cache_parses_lsof_and_deduplicates() {
    let rows = parse_udp_lsof(LSOF_SAMPLE);
    // The dual-stack duplicate of (5353, 812) is dropped.
    assert_eq!(rows.len(), 2);
    assert_eq!(rows[0].port, 5353);
    assert_eq!(rows[0].pid, 812);
    assert_eq!(rows[0].process_name, "avahi");
    assert_eq!(rows[1].port, 323);
    assert_eq!(rows[1].pid, 901);
    assert_eq!(rows[1].process_name, "chronyd");
}

#[test]
fn test_udp_cache_netstat_fallback() {
    let netstat = "Active Internet connections (only servers)\n\
Proto Recv-Q Send-Q Local Address           Foreign Address         State       PID/Program name\n\
udp        0      0 0.0.0.0:68              0.0.0.0:*                           700/dhclient\n";
    let mut cache = UdpPortCache::new();
    cache.apply_refresh(0, None, Some(netstat));
    let mut scanner_rows: Vec<&UdpCacheEntry> = Vec::new();
    for r in cache.rows.iter() {
        scanner_rows.push(r);
    }
    assert_eq!(scanner_rows.len(), 1);
    assert_eq!(scanner_rows[0].port, 68);
    assert_eq!(scanner_rows[0].pid, 700);
    assert_eq!(scanner_rows[0].process_name, "dhclient");
}

#[test]
fn test_udp_cache_keeps_rows_on_failed_refresh() {
    let mut cache = UdpPortCache::new();
    cache.apply_refresh(0, Some(LSOF_SAMPLE), None);
    assert_eq!(cache.rows.len(), 2);
    // A total failure must not clear the cached topology.
    cache.apply_refresh(10_000, None, None);
    assert_eq!(cache.rows.len(), 2);
    assert!(!cache.needs_refresh(10_001));
}

#[test]
fn test_udp_netstat_empty_yields_none() {
    assert!(parse_udp_netstat("nothing relevant here\n").is_none());
}

// ==================== Reconciliation Tests ====================

fn tcp_row(port: u16, pid: u32, name: &str) -> SocketRow {
    SocketRow {
        port,
        pid,
        process_name: name.to_string(),
        is_tcp: true,
        listening: true,
    }
}

#[test]
fn test_reconcile_orders_by_port() {
    let rows = vec![tcp_row(8080, 1, "a"), tcp_row(3000, 2, "b"), tcp_row(5000, 3, "c")];
    let entries = reconcile(&rows, &Vec::new(), &Vec::new());
    let ports: Vec<u16> = entries.iter().map(|e| e.port).collect();
    assert_eq!(ports, vec![3000, 5000, 8080]);
}

#[test]
fn test_reconcile_tcp_before_udp_on_same_port() {
    let rows = vec![tcp_row(5353, 1, "a")];
    let udp = vec![UdpCacheEntry { port: 5353, pid: 2, process_name: "b".to_string() }];
    let entries = reconcile(&rows, &udp, &Vec::new());
    assert_eq!(entries.len(), 2);
    assert_eq!(entries[0].protocol, Protocol::Tcp);
    assert_eq!(entries[1].protocol, Protocol::Udp);
}

#[test]
fn test_reconcile_higher_memory_first_on_ties() {
    let rows = vec![tcp_row(80, 10, "low"), tcp_row(80, 11, "high")];
    let directory = vec![
        (10, ProcessInfo { name: "low".to_string(), cpu_usage: 0, memory: 1000, has_parent: true }),
        (11, ProcessInfo { name: "high".to_string(), cpu_usage: 0, memory: 2000, has_parent: true }),
    ];
    let entries = reconcile(&rows, &Vec::new(), &directory);
    assert_eq!(entries[0].memory_usage, 2000);
    assert_eq!(entries[1].memory_usage, 1000);
}

#[test]
fn test_reconcile_joins_directory_and_classifies_zombies() {
    let rows = vec![tcp_row(9999, 42, "stale-name")];
    let directory = vec![
        (
            42,
            ProcessInfo {
                name: "runaway".to_string(),
                cpu_usage: 9000,
                memory: 2048,
                has_parent: false,
            },
        ),
    ];
    let entries = reconcile(&rows, &Vec::new(), &directory);
    assert_eq!(entries.len(), 1);
    assert_eq!(entries[0].process_name, "runaway");
    assert_eq!(entries[0].cpu_usage, 9000);
    assert_eq!(entries[0].memory_usage, 2048);
    assert_eq!(entries[0].memory_display, "2.0 KB");
    assert!(!entries[0].has_parent);
    assert!(entries[0].is_zombie);
}

#[test]
fn test_reconcile_directory_miss_uses_defaults() {
    let rows = vec![tcp_row(1234, 777, "fallback")];
    let entries = reconcile(&rows, &Vec::new(), &Vec::new());
    assert_eq!(entries.len(), 1);
    assert_eq!(entries[0].process_name, "fallback");
    assert_eq!(entries[0].cpu_usage, 0);
    assert_eq!(entries[0].memory_usage, 0);
    assert!(entries[0].has_parent);
    assert!(!entries[0].is_zombie);
}

#[test]
fn test_reconcile_ignores_non_listening_sockets() {
    let mut established = tcp_row(443, 5, "browser");
    established.listening = false;
    let mut udp_row = tcp_row(53, 6, "resolver");
    udp_row.is_tcp = false;
    let rows = vec![established, udp_row, tcp_row(22, 7, "sshd")];
    let entries = reconcile(&rows, &Vec::new(), &Vec::new());
    assert_eq!(entries.len(), 1);
    assert_eq!(entries[0].port, 22);
}

#[test]
fn test_reconcile_topology_stable_across_stat_refreshes() {
    // Same topology, two different statistics snapshots: the
    // (port, protocol, pid) triples must agree.
    let rows = vec![tcp_row(80, 1, "a"), tcp_row(80, 2, "b")];
    let udp = vec![UdpCacheEntry { port: 53, pid: 3, process_name: "c".to_string() }];
    let d1 = vec![
        (1, ProcessInfo { name: "a".to_string(), cpu_usage: 100, memory: 10, has_parent: true }),
        (2, ProcessInfo { name: "b".to_string(), cpu_usage: 200, memory: 20, has_parent: true }),
    ];
    let d2 = vec![
        (1, ProcessInfo { name: "a".to_string(), cpu_usage: 999, memory: 99, has_parent: true }),
        (2, ProcessInfo { name: "b".to_string(), cpu_usage: 1, memory: 100, has_parent: true }),
    ];
    let r1 = reconcile(&rows, &udp, &d1);
    let r2 = reconcile(&rows, &udp, &d2);
    let mut t1: Vec<(u16, bool, u32)> =
        r1.iter().map(|e| (e.port, e.protocol == Protocol::Tcp, e.pid)).collect();
    let mut t2: Vec<(u16, bool, u32)> =
        r2.iter().map(|e| (e.port, e.protocol == Protocol::Tcp, e.pid)).collect();
    t1.sort();
    t2.sort();
    assert_eq!(t1, t2);
}
