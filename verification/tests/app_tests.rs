//! Tests for the application state: the data model, zombie detection,
//! navigation, sorting, filtering and status messages.

use lsport::app::{App, PortEntry, Protocol, SortColumn, SortOrder, StatusMessage,
    ZOMBIE_CPU_THRESHOLD};

// ==================== Helper Functions ====================

fn create_test_entry(port: u16, protocol: Protocol, pid: u32) -> PortEntry {
    PortEntry {
        port,
        protocol,
        pid,
        process_name: format!("process_{}", pid),
        cpu_usage: 0,
        memory_usage: 0,
        memory_display: "0 B".into(),
        has_parent: true,
        is_zombie: false,
    }
}

fn create_entries(count: usize) -> Vec<PortEntry> {
    (0..count)
        .map(|i| create_test_entry(3000 + i as u16, Protocol::Tcp, i as u32 + 1))
        .collect()
}

fn create_app_with_entries(count: usize) -> App {
    let mut app = App::new(0);
    app.entries = create_entries(count);
    app
}

// ==================== Protocol Tests ====================

#[test]
fn test_protocol_display_tcp() {
    assert_eq!(Protocol::Tcp.display(), "TCP");
}

#[test]
fn test_protocol_display_udp() {
    assert_eq!(Protocol::Udp.display(), "UDP");
}

#[test]
fn test_protocol_equality() {
    assert_eq!(Protocol::Tcp, Protocol::Tcp);
    assert_eq!(Protocol::Udp, Protocol::Udp);
    assert_ne!(Protocol::Tcp, Protocol::Udp);
}

#[test]
fn test_protocol_clone() {
    let proto = Protocol::Tcp;
    let cloned = proto;
    assert_eq!(proto, cloned);
}

#[test]
fn test_protocol_debug() {
    assert_eq!(format!("{:?}", Protocol::Tcp), "Tcp");
    assert_eq!(format!("{:?}", Protocol::Udp), "Udp");
}

// ==================== PortEntry Tests ====================

#[test]
fn test_port_entry_clone() {
    let entry = create_test_entry(8080, Protocol::Tcp, 1234);
    let cloned = entry.clone();
    assert_eq!(entry.port, cloned.port);
    assert_eq!(entry.pid, cloned.pid);
    assert_eq!(entry.process_name, cloned.process_name);
}

#[test]
fn test_port_entry_debug() {
    let entry = create_test_entry(8080, Protocol::Tcp, 1234);
    let debug_str = format!("{:?}", entry);
    assert!(debug_str.contains("8080"));
    assert!(debug_str.contains("1234"));
    assert!(debug_str.contains("Tcp"));
}

// ==================== Zombie Detection Tests ====================

fn zombie_probe(cpu_usage: u32, has_parent: bool) -> PortEntry {
    PortEntry {
        port: 3000,
        protocol: Protocol::Tcp,
        pid: 1234,
        process_name: "test".into(),
        cpu_usage,
        memory_usage: 1024,
        memory_display: "1 KB".into(),
        has_parent,
        is_zombie: false,
    }
}

#[test]
fn test_zombie_detection_high_cpu_no_parent() {
    let mut entry = zombie_probe(5000, false); // 50%
    entry.detect_zombie();
    assert!(entry.is_zombie, "High CPU + no parent should be zombie");
}

#[test]
fn test_zombie_detection_high_cpu_has_parent() {
    let mut entry = zombie_probe(5000, true); // 50%
    entry.detect_zombie();
    assert!(!entry.is_zombie, "High CPU but has parent should NOT be zombie");
}

#[test]
fn test_zombie_detection_low_cpu_no_parent() {
    let mut entry = zombie_probe(2000, false); // 20%
    entry.detect_zombie();
    assert!(!entry.is_zombie, "Low CPU even without parent should NOT be zombie");
}

#[test]
fn test_zombie_detection_exactly_at_threshold() {
    let mut entry = zombie_probe(ZOMBIE_CPU_THRESHOLD, false); // Exactly 40%
    entry.detect_zombie();
    assert!(!entry.is_zombie, "Exactly at threshold (40%) should NOT be zombie");
}

#[test]
fn test_zombie_detection_just_above_threshold() {
    let mut entry = zombie_probe(ZOMBIE_CPU_THRESHOLD + 10, false); // 40.1%
    entry.detect_zombie();
    assert!(entry.is_zombie, "Just above threshold should be zombie");
}

#[test]
fn test_zombie_detection_max_cpu() {
    let mut entry = zombie_probe(10000, false); // 100%
    entry.detect_zombie();
    assert!(entry.is_zombie, "100% CPU + no parent should be zombie");
}

#[test]
fn test_zombie_detection_zero_cpu() {
    let mut entry = zombie_probe(0, false);
    entry.detect_zombie();
    assert!(!entry.is_zombie, "0% CPU should NOT be zombie");
}

#[test]
fn test_zombie_threshold_constant() {
    // The threshold is carried in hundredths of a percent: 40%.
    assert_eq!(ZOMBIE_CPU_THRESHOLD as f64 / 100.0, 40.0);
}

// ==================== App Creation Tests ====================

#[test]
fn test_app_new() {
    let app = App::new(0);
    assert!(app.entries.is_empty());
    assert_eq!(app.selected_index, 0);
    assert!(!app.should_quit);
    assert_eq!(app.status_duration_ms, 5000);
}

#[test]
fn test_app_default() {
    let app = App::default();
    assert!(app.entries.is_empty());
    assert_eq!(app.selected_index, 0);
    assert!(!app.should_quit);
}

#[test]
fn test_app_default_equals_new() {
    let app1 = App::new(0);
    let app2 = App::default();
    assert_eq!(app1.entries.len(), app2.entries.len());
    assert_eq!(app1.selected_index, app2.selected_index);
    assert_eq!(app1.should_quit, app2.should_quit);
}

// ==================== Navigation Tests ====================

#[test]
fn test_navigation_empty_list() {
    let mut app = App::new(0);
    app.select_next();
    assert_eq!(app.selected_index, 0);
    app.select_previous();
    assert_eq!(app.selected_index, 0);
}

#[test]
fn test_navigation_single_item() {
    let mut app = create_app_with_entries(1);
    app.select_next();
    assert_eq!(app.selected_index, 0, "Single item: next should wrap to 0");
    app.select_previous();
    assert_eq!(app.selected_index, 0, "Single item: previous should wrap to 0");
}

#[test]
fn test_navigation_two_items() {
    let mut app = create_app_with_entries(2);
    app.select_next();
    assert_eq!(app.selected_index, 1);
    app.select_next();
    assert_eq!(app.selected_index, 0, "Should wrap to beginning");
    app.select_previous();
    assert_eq!(app.selected_index, 1, "Should wrap to end");
    app.select_previous();
    assert_eq!(app.selected_index, 0);
}

#[test]
fn test_navigation_wrap_around_forward() {
    let mut app = create_app_with_entries(3);
    app.selected_index = 2;
    app.select_next();
    assert_eq!(app.selected_index, 0, "Should wrap to first");
}

#[test]
fn test_navigation_wrap_around_backward() {
    let mut app = create_app_with_entries(3);
    app.selected_index = 0;
    app.select_previous();
    assert_eq!(app.selected_index, 2, "Should wrap to last");
}

#[test]
fn test_navigation_many_items() {
    let mut app = create_app_with_entries(100);
    for _ in 0..99 {
        app.select_next();
    }
    assert_eq!(app.selected_index, 99);
    app.select_next();
    assert_eq!(app.selected_index, 0, "Should wrap after 100");
    app.select_previous();
    assert_eq!(app.selected_index, 99);
}

#[test]
fn test_rapid_navigation() {
    let mut app = create_app_with_entries(10);
    for _ in 0..1000 {
        app.select_next();
    }
    assert_eq!(app.selected_index, 1000 % 10);
    for _ in 0..1000 {
        app.select_previous();
    }
    assert_eq!(app.selected_index, 0);
}

// ==================== Update Entries Tests ====================

#[test]
fn test_update_entries_empty_to_filled() {
    let mut app = App::new(0);
    assert!(app.entries.is_empty());
    app.update_entries(create_entries(3));
    assert_eq!(app.entries.len(), 3);
    assert_eq!(app.selected_index, 0);
}

#[test]
fn test_update_entries_filled_to_empty() {
    let mut app = create_app_with_entries(3);
    app.selected_index = 2;
    app.update_entries(Vec::new());
    assert!(app.entries.is_empty());
    assert_eq!(app.selected_index, 2, "Index preserved when empty (no entries to clamp)");
}

#[test]
fn test_update_entries_index_adjustment() {
    let mut app = create_app_with_entries(10);
    app.selected_index = 9;
    app.update_entries(create_entries(3));
    assert_eq!(app.selected_index, 2, "Index should be clamped to new last item");
}

#[test]
fn test_update_entries_index_preserved() {
    let mut app = create_app_with_entries(10);
    app.selected_index = 5;
    app.update_entries(create_entries(20));
    assert_eq!(app.selected_index, 5);
    assert_eq!(app.entries.len(), 20);
}

#[test]
fn test_update_entries_boundary_index() {
    let mut app = create_app_with_entries(5);
    app.selected_index = 4;
    app.update_entries(create_entries(5));
    assert_eq!(app.selected_index, 4, "At boundary, should stay");
    app.update_entries(create_entries(4));
    assert_eq!(app.selected_index, 3, "Past boundary, should clamp");
}

// ==================== Selected Entry Tests ====================

#[test]
fn test_selected_entry_empty_list() {
    let app = App::new(0);
    assert!(app.selected_entry().is_none());
}

#[test]
fn test_selected_entry_valid() {
    let mut app = create_app_with_entries(3);
    app.selected_index = 1;
    assert_eq!(app.selected_entry().unwrap().port, 3001);
}

#[test]
fn test_selected_entry_first() {
    let mut app = create_app_with_entries(3);
    app.selected_index = 0;
    assert_eq!(app.selected_entry().unwrap().port, 3000);
}

#[test]
fn test_selected_entry_last() {
    let mut app = create_app_with_entries(3);
    app.selected_index = 2;
    assert_eq!(app.selected_entry().unwrap().port, 3002);
}

// ==================== Status Message Tests ====================

#[test]
fn test_status_message_info() {
    let mut app = App::new(0);
    app.set_info("Test info message".to_string(), 0);
    match &app.status_message {
        StatusMessage::Info(msg) => assert_eq!(msg, "Test info message"),
        _ => panic!("Expected Info variant"),
    }
}

#[test]
fn test_status_message_success() {
    let mut app = App::new(0);
    app.set_success("Process killed".to_string(), 0);
    match &app.status_message {
        StatusMessage::Success(msg) => assert_eq!(msg, "Process killed"),
        _ => panic!("Expected Success variant"),
    }
}

#[test]
fn test_status_message_error() {
    let mut app = App::new(0);
    app.set_error("Permission denied".to_string(), 0);
    match &app.status_message {
        StatusMessage::Error(msg) => assert_eq!(msg, "Permission denied"),
        _ => panic!("Expected Error variant"),
    }
}

#[test]
fn test_status_message_timestamp_updated() {
    let mut app = App::new(0);
    app.set_info("First".to_string(), 100);
    let first_timestamp = app.status_timestamp_ms;
    app.set_info("New message".to_string(), 110);
    assert!(app.status_timestamp_ms > first_timestamp);
}

#[test]
fn test_status_message_variants_debug() {
    let info = StatusMessage::Info("test".to_string());
    let success = StatusMessage::Success("test".to_string());
    let error = StatusMessage::Error("test".to_string());
    assert!(format!("{:?}", info).contains("Info"));
    assert!(format!("{:?}", success).contains("Success"));
    assert!(format!("{:?}", error).contains("Error"));
}

#[test]
fn test_status_message_clone() {
    let msg = StatusMessage::Info("test".to_string());
    let cloned = msg.clone();
    assert!(matches!(cloned, StatusMessage::Info(_)), "Clone should preserve variant");
}

#[test]
fn test_maybe_clear_status_not_expired() {
    let mut app = App::new(0);
    app.set_error("Error message".to_string(), 1000);
    app.maybe_clear_status(1001);
    assert!(matches!(app.status_message, StatusMessage::Error(_)), "Should still be error");
}

#[test]
fn test_maybe_clear_status_expired() {
    let mut app = App::new(0);
    app.set_error("Error message".to_string(), 1000);
    app.maybe_clear_status(1000 + app.status_duration_ms + 1);
    assert!(matches!(app.status_message, StatusMessage::Info(_)));
}

// ==================== Quit Tests ====================

#[test]
fn test_quit() {
    let mut app = App::new(0);
    assert!(!app.should_quit);
    app.quit();
    assert!(app.should_quit);
}

#[test]
fn test_quit_idempotent() {
    let mut app = App::new(0);
    app.quit();
    app.quit();
    assert!(app.should_quit);
}

// ==================== Workflow Tests ====================

#[test]
fn test_full_workflow() {
    let mut app = App::new(0);
    app.update_entries(create_entries(3));
    assert_eq!(app.entries.len(), 3);

    app.select_next();
    app.select_next();
    assert_eq!(app.selected_index, 2);
    assert_eq!(app.selected_entry().unwrap().port, 3002);

    app.set_success("Done!".to_string(), 1);
    assert!(matches!(app.status_message, StatusMessage::Success(_)));

    app.set_error("Oops!".to_string(), 2);
    assert!(matches!(app.status_message, StatusMessage::Error(_)));

    app.quit();
    assert!(app.should_quit);
}

// ==================== Sort Column/Order Tests ====================

#[test]
fn test_sort_column_default() {
    assert_eq!(SortColumn::default(), SortColumn::Port);
}

#[test]
fn test_sort_column_cycle() {
    assert_eq!(SortColumn::Port.next(), SortColumn::Protocol);
    assert_eq!(SortColumn::Protocol.next(), SortColumn::Pid);
    assert_eq!(SortColumn::Pid.next(), SortColumn::ProcessName);
    assert_eq!(SortColumn::ProcessName.next(), SortColumn::CpuUsage);
    assert_eq!(SortColumn::CpuUsage.next(), SortColumn::MemoryUsage);
    assert_eq!(SortColumn::MemoryUsage.next(), SortColumn::Port);
}

#[test]
fn test_sort_column_full_cycle() {
    let mut column = SortColumn::Port;
    for _ in 0..6 {
        column = column.next();
    }
    assert_eq!(column, SortColumn::Port);
}

#[test]
fn test_sort_order_default() {
    assert_eq!(SortOrder::default(), SortOrder::Ascending);
}

#[test]
fn test_sort_order_toggle() {
    assert_eq!(SortOrder::Ascending.toggle(), SortOrder::Descending);
    assert_eq!(SortOrder::Descending.toggle(), SortOrder::Ascending);
}

#[test]
fn test_sort_order_double_toggle() {
    let order = SortOrder::Ascending;
    assert_eq!(order.toggle().toggle(), SortOrder::Ascending);
}

#[test]
fn test_app_cycle_sort_column() {
    let mut app = App::new(0);
    assert_eq!(app.sort_column, SortColumn::Port);

    app.cycle_sort_column(1);
    assert_eq!(app.sort_column, SortColumn::Protocol);

    app.cycle_sort_column(2);
    assert_eq!(app.sort_column, SortColumn::Pid);
}

#[test]
fn test_app_toggle_sort_order() {
    let mut app = App::new(0);
    assert_eq!(app.sort_order, SortOrder::Ascending);

    app.toggle_sort_order(1);
    assert_eq!(app.sort_order, SortOrder::Descending);

    app.toggle_sort_order(2);
    assert_eq!(app.sort_order, SortOrder::Ascending);
}

// ==================== Sorting Tests ====================

#[test]
fn test_sorting_by_port_ascending() {
    let mut app = App::new(0);
    app.sort_column = SortColumn::Port;
    app.sort_order = SortOrder::Ascending;

    let entries = vec![
        create_test_entry(8080, Protocol::Tcp, 1),
        create_test_entry(3000, Protocol::Tcp, 2),
        create_test_entry(5000, Protocol::Tcp, 3),
    ];

    app.update_entries(entries);

    assert_eq!(app.entries[0].port, 3000);
    assert_eq!(app.entries[1].port, 5000);
    assert_eq!(app.entries[2].port, 8080);
}

#[test]
fn test_sorting_by_port_descending() {
    let mut app = App::new(0);
    app.sort_column = SortColumn::Port;
    app.sort_order = SortOrder::Descending;

    let entries = vec![
        create_test_entry(3000, Protocol::Tcp, 1),
        create_test_entry(8080, Protocol::Tcp, 2),
        create_test_entry(5000, Protocol::Tcp, 3),
    ];

    app.update_entries(entries);

    assert_eq!(app.entries[0].port, 8080);
    assert_eq!(app.entries[1].port, 5000);
    assert_eq!(app.entries[2].port, 3000);
}

#[test]
fn test_sorting_by_pid() {
    let mut app = App::new(0);
    app.sort_column = SortColumn::Pid;
    app.sort_order = SortOrder::Ascending;

    let entries = vec![
        create_test_entry(3000, Protocol::Tcp, 300),
        create_test_entry(3001, Protocol::Tcp, 100),
        create_test_entry(3002, Protocol::Tcp, 200),
    ];

    app.update_entries(entries);

    assert_eq!(app.entries[0].pid, 100);
    assert_eq!(app.entries[1].pid, 200);
    assert_eq!(app.entries[2].pid, 300);
}

#[test]
fn test_sorting_by_memory() {
    let mut app = App::new(0);
    app.sort_column = SortColumn::MemoryUsage;
    app.sort_order = SortOrder::Descending;

    let mut entries = vec![
        create_test_entry(3000, Protocol::Tcp, 1),
        create_test_entry(3001, Protocol::Tcp, 2),
        create_test_entry(3002, Protocol::Tcp, 3),
    ];
    entries[0].memory_usage = 1000;
    entries[1].memory_usage = 3000;
    entries[2].memory_usage = 2000;

    app.update_entries(entries);

    assert_eq!(app.entries[0].memory_usage, 3000);
    assert_eq!(app.entries[1].memory_usage, 2000);
    assert_eq!(app.entries[2].memory_usage, 1000);
}

#[test]
fn test_sorting_by_cpu() {
    let mut app = App::new(0);
    app.sort_column = SortColumn::CpuUsage;
    app.sort_order = SortOrder::Descending;

    let mut entries = vec![
        create_test_entry(3000, Protocol::Tcp, 1),
        create_test_entry(3001, Protocol::Tcp, 2),
        create_test_entry(3002, Protocol::Tcp, 3),
    ];
    entries[0].cpu_usage = 1000; // 10%
    entries[1].cpu_usage = 5000; // 50%
    entries[2].cpu_usage = 2500; // 25%

    app.update_entries(entries);

    assert_eq!(app.entries[0].cpu_usage, 5000);
    assert_eq!(app.entries[1].cpu_usage, 2500);
    assert_eq!(app.entries[2].cpu_usage, 1000);
}

// ==================== Filter Tests ====================

#[test]
fn test_filter_mode_default() {
    let app = App::new(0);
    assert!(!app.filter_mode);
    assert!(app.filter.is_empty());
}

#[test]
fn test_enter_filter_mode() {
    let mut app = App::new(0);
    app.enter_filter_mode(1);
    assert!(app.filter_mode);
}

#[test]
fn test_exit_filter_mode() {
    let mut app = App::new(0);
    app.enter_filter_mode(1);
    app.filter_push('t');
    app.exit_filter_mode(2);
    assert!(!app.filter_mode);
    assert_eq!(app.filter, "t");
}

#[test]
fn test_clear_filter() {
    let mut app = App::new(0);
    app.filter = "test".into();
    app.filter_mode = true;

    app.clear_filter(1);

    assert!(app.filter.is_empty());
    assert!(!app.filter_mode);
}

#[test]
fn test_filter_push_pop() {
    let mut app = App::new(0);

    app.filter_push('h');
    app.filter_push('e');
    app.filter_push('l');
    app.filter_push('l');
    app.filter_push('o');
    assert_eq!(app.filter, "hello");

    app.filter_pop();
    assert_eq!(app.filter, "hell");

    app.filter_pop();
    app.filter_pop();
    assert_eq!(app.filter, "he");
}

#[test]
fn test_filter_pop_empty() {
    let mut app = App::new(0);
    app.filter_pop(); // Should not panic
    assert!(app.filter.is_empty());
}

#[test]
fn test_filter_by_process_name() {
    let mut app = App::new(0);
    let mut entries = vec![
        create_test_entry(3000, Protocol::Tcp, 1),
        create_test_entry(3001, Protocol::Tcp, 2),
        create_test_entry(3002, Protocol::Tcp, 3),
    ];
    entries[0].process_name = "node".to_string();
    entries[1].process_name = "python".to_string();
    entries[2].process_name = "nodejs".to_string();

    app.filter = "node".to_string();
    app.update_entries(entries);

    assert_eq!(app.entries.len(), 2);
    assert!(app.entries.iter().all(|e| e.process_name.contains("node")));
}

#[test]
fn test_filter_by_port() {
    let mut app = App::new(0);
    let entries = vec![
        create_test_entry(3000, Protocol::Tcp, 1),
        create_test_entry(3001, Protocol::Tcp, 2),
        create_test_entry(3002, Protocol::Tcp, 3),
    ];

    app.filter = "3001".to_string();
    app.update_entries(entries);

    assert_eq!(app.entries.len(), 1);
    assert_eq!(app.entries[0].port, 3001);
}

#[test]
fn test_filter_by_pid() {
    let mut app = App::new(0);
    let entries = vec![
        create_test_entry(3000, Protocol::Tcp, 123),
        create_test_entry(3001, Protocol::Tcp, 456),
        create_test_entry(3002, Protocol::Tcp, 1234),
    ];

    app.filter = "123".to_string();
    app.update_entries(entries);

    // Matches pid 123 and pid 1234
    assert_eq!(app.entries.len(), 2);
}

#[test]
fn test_filter_case_insensitive() {
    let mut app = App::new(0);
    let mut entries = vec![
        create_test_entry(3000, Protocol::Tcp, 1),
        create_test_entry(3001, Protocol::Tcp, 2),
    ];
    entries[0].process_name = "NODE".to_string();
    entries[1].process_name = "python".to_string();

    app.filter = "node".to_string();
    app.update_entries(entries);

    assert_eq!(app.entries.len(), 1);
    assert_eq!(app.entries[0].process_name, "NODE");
}

#[test]
fn test_filter_no_matches() {
    let mut app = App::new(0);
    app.filter = "nonexistent".to_string();
    app.update_entries(create_entries(3));
    assert!(app.entries.is_empty());
}

#[test]
fn test_filter_empty_string() {
    let mut app = App::new(0);
    app.filter = String::new();
    app.update_entries(create_entries(3));
    assert_eq!(app.entries.len(), 3);
}

#[test]
fn test_sort_and_filter_combined() {
    let mut app = App::new(0);
    app.sort_column = SortColumn::Port;
    app.sort_order = SortOrder::Ascending;

    let mut entries = vec![
        create_test_entry(5000, Protocol::Tcp, 1),
        create_test_entry(3000, Protocol::Tcp, 2),
        create_test_entry(4000, Protocol::Tcp, 3),
    ];
    entries[0].process_name = "process_a".to_string();
    entries[1].process_name = "process_b".to_string();
    entries[2].process_name = "other".to_string();

    app.filter = "process".to_string();
    app.update_entries(entries);

    assert_eq!(app.entries.len(), 2);
    assert_eq!(app.entries[0].port, 3000);
    assert_eq!(app.entries[1].port, 5000);
    assert!(app.entries.iter().all(|e| e.process_name.contains("process")));
}

// ==================== Regex Filter Tests ====================

#[test]
fn test_regex_filter_basic() {
    let mut app = App::new(0);
    let mut entries = vec![
        create_test_entry(3000, Protocol::Tcp, 1),
        create_test_entry(3001, Protocol::Tcp, 2),
        create_test_entry(3002, Protocol::Tcp, 3),
    ];
    entries[0].process_name = "process_1".to_string();
    entries[1].process_name = "process_2".to_string();
    entries[2].process_name = "process_3".to_string();

    app.filter = "process_[12]".to_string();
    app.filter_mode = true;
    app.exit_filter_mode(1);
    assert!(app.filter_is_regex);
    app.update_entries(entries);

    assert_eq!(app.entries.len(), 2);
}

#[test]
fn test_regex_filter_case_insensitive() {
    let mut app = App::new(0);
    let mut entries = vec![create_test_entry(3000, Protocol::Tcp, 1)];
    entries[0].process_name = "PROCESS".to_string();

    app.filter = "process".to_string();
    app.filter_mode = true;
    app.exit_filter_mode(1);
    app.update_entries(entries);

    assert_eq!(app.entries.len(), 1);
}

#[test]
fn test_regex_filter_port_pattern() {
    let mut app = App::new(0);
    let entries = vec![
        create_test_entry(3000, Protocol::Tcp, 1),
        create_test_entry(3001, Protocol::Tcp, 2),
        create_test_entry(3002, Protocol::Tcp, 3),
    ];

    app.filter = "^300[01]$".to_string();
    app.filter_mode = true;
    app.exit_filter_mode(1);
    app.update_entries(entries);

    assert_eq!(app.entries.len(), 2);
}

#[test]
fn test_regex_filter_invalid_falls_back() {
    let mut app = App::new(0);
    app.filter = "[invalid".to_string();
    app.filter_mode = true;
    app.exit_filter_mode(1);
    assert!(!app.filter_is_regex);
    assert!(app.compiled_regex.is_none());
}

#[test]
fn test_regex_filter_cleared() {
    let mut app = App::new(0);
    app.filter = "test".to_string();
    app.filter_mode = true;
    app.exit_filter_mode(1);
    assert!(app.filter_is_regex);

    app.clear_filter(2);
    assert!(app.filter.is_empty());
    assert!(!app.filter_is_regex);
    assert!(app.compiled_regex.is_none());
}
