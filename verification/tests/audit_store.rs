use govern::AuditLogEntry;
use govern::AuditLogger;
use govern::LogEffect;
use govern::LogLevel;
use govern::decode_record;
use govern::encode_record;

#[test]
fn append_then_search_finds_the_entry() {
    let mut log = AuditLogger::new();
    let id = log.log_action("deploy_started", "rolling out", 1000);
    assert_eq!(id, 0);
    let found = log.search_logs(None, None, None, None, None);
    assert_eq!(found.len(), 1);
    assert_eq!(found[0].id, 0);
    assert_eq!(found[0].action, "deploy_started");
    assert_eq!(found[0].timestamp, 1000);

    let by_action = log.search_logs(None, None, Some("deploy".to_string()), None, Some(10));
    assert_eq!(by_action.len(), 1);
    let by_level = log.search_logs(None, None, None, Some(LogLevel::Info), Some(1));
    assert_eq!(by_level.len(), 1);
    let miss = log.search_logs(None, None, Some("absent".to_string()), None, None);
    assert_eq!(miss.len(), 0);
}

#[test]
fn search_is_newest_first_and_capped() {
    let mut log = AuditLogger::new();
    log.log_action("alpha", "first", 100);
    log.log_action("beta", "second", 200);
    log.log_action("gamma", "third", 300);

    let all = log.search_logs(None, None, None, None, None);
    let actions: Vec<&str> = all.iter().map(|e| e.action.as_str()).collect();
    assert_eq!(actions, vec!["gamma", "beta", "alpha"]);
    assert!(all[0].timestamp >= all[1].timestamp && all[1].timestamp >= all[2].timestamp);

    let capped = log.search_logs(None, None, None, None, Some(2));
    let actions: Vec<&str> = capped.iter().map(|e| e.action.as_str()).collect();
    assert_eq!(actions, vec!["gamma", "beta"]);

    let ranged = log.search_logs(Some(150), Some(250), None, None, None);
    assert_eq!(ranged.len(), 1);
    assert_eq!(ranged[0].action, "beta");

    let exported = log.export_logs(100, 200);
    let actions: Vec<&str> = exported.iter().map(|e| e.action.as_str()).collect();
    assert_eq!(actions, vec!["beta", "alpha"]);
}

#[test]
fn rotation_splits_records_exactly() {
    let mut log = AuditLogger::with_limits(1, 1_000_000);
    log.log_action("one", "a", 10);
    log.log_action("two", "b", 20);
    log.log_action("three", "c", 30);

    assert_eq!(log.archives.len(), 2);
    assert_eq!(log.archives[0].entries.len(), 1);
    assert_eq!(log.archives[0].entries[0].action, "one");
    assert_eq!(log.archives[0].rotated_at, 20);
    assert_eq!(log.archives[1].entries.len(), 1);
    assert_eq!(log.archives[1].entries[0].action, "two");
    assert_eq!(log.active.len(), 1);
    assert_eq!(log.active[0].action, "three");

    let all = log.search_logs(None, None, None, None, None);
    let ids: Vec<u64> = all.iter().map(|e| e.id).collect();
    assert_eq!(ids, vec![2, 1, 0]);
}

#[test]
fn no_rotation_below_threshold() {
    let mut log = AuditLogger::new();
    log.log_action("one", "a", 10);
    log.log_action("two", "b", 20);
    assert_eq!(log.archives.len(), 0);
    assert_eq!(log.active.len(), 2);
}

#[test]
fn effects_mirror_the_appends_and_rotations() {
    let mut log = AuditLogger::with_limits(1, 1_000_000);
    log.log_action("one", "a", 10);
    log.log_action("two", "b", 20);
    let effects = log.take_effects();
    assert_eq!(effects.len(), 3);
    assert!(matches!(effects[0], LogEffect::AppendRecord { .. }));
    match &effects[1] {
        LogEffect::RotateTo { archive_name } => {
            assert_eq!(
                archive_name,
                "audit-00000000000000000020-00000000000000000000.log"
            );
        }
        other => panic!("expected a rotation effect, got {:?}", effect_kind(other)),
    }
    match &effects[2] {
        LogEffect::AppendRecord { line } => assert!(line.contains("two")),
        other => panic!("expected an append effect, got {:?}", effect_kind(other)),
    }
    assert_eq!(log.take_effects().len(), 0);
}

fn effect_kind(e: &LogEffect) -> &'static str {
    match e {
        LogEffect::AppendRecord { .. } => "append",
        LogEffect::RotateTo { .. } => "rotate",
        LogEffect::Remove { .. } => "remove",
    }
}

#[test]
fn pruning_removes_only_expired_archives() {
    let mut log = AuditLogger::with_limits(1, 100);
    log.log_action("one", "a", 1000);
    log.log_action("two", "b", 2000);
    log.log_action("three", "c", 3000);
    assert_eq!(log.archives.len(), 2);
    log.take_effects();

    let removed = log.cleanup_old_logs(2150);
    assert_eq!(removed, 1);
    assert_eq!(log.archives.len(), 1);
    assert_eq!(log.archives[0].rotated_at, 3000);
    assert_eq!(log.active.len(), 1);

    let effects = log.take_effects();
    assert_eq!(effects.len(), 1);
    match &effects[0] {
        LogEffect::Remove { archive_name } => {
            assert_eq!(
                archive_name,
                "audit-00000000000000002000-00000000000000000000.log"
            );
        }
        _ => panic!("expected a removal effect"),
    }
}

#[test]
fn timestamps_are_clamped_monotone() {
    let mut log = AuditLogger::new();
    log.log_action("one", "a", 500);
    log.log_action("two", "b", 200);
    let all = log.search_logs(None, None, None, None, None);
    assert_eq!(all[0].timestamp, 500);
    assert_eq!(all[1].timestamp, 500);
}

#[test]
fn record_encoding_is_exact_and_escaped() {
    let entry = AuditLogEntry {
        id: 7,
        timestamp: 1234,
        level: LogLevel::Security,
        action: "a|b".to_string(),
        description: "line\nbreak\\done".to_string(),
        user_id: Some("u".to_string()),
        ip_address: None,
        metadata: vec![("k".to_string(), "v".to_string())],
    };
    let line = encode_record(&entry);
    assert_eq!(line, "7|1234|S|a\\pb|line\\nbreak\\\\done|+u|-|k|v\n");
}

#[test]
fn record_levels_have_distinct_codes() {
    let mut log = AuditLogger::new();
    log.log_error("boom", "it broke", 1);
    log.log_security_event("login", "admin login", Some("u1".to_string()), None, 2);
    log.log_system_event("startup", "booted", 3);
    log.log_code_modification(9, "modification_requested", "requested", None, 4);
    let all = log.search_logs(None, None, None, None, None);
    assert_eq!(all.len(), 4);
    assert!(matches!(all[0].level, LogLevel::Critical));
    assert!(matches!(all[1].level, LogLevel::Info));
    assert_eq!(all[1].action, "system_startup");
    assert!(matches!(all[2].level, LogLevel::Security));
    assert_eq!(all[2].user_id.as_deref(), Some("u1"));
    assert!(matches!(all[3].level, LogLevel::Error));
    assert_eq!(all[3].description, "Error: it broke");
}

#[test]
fn collaborator_builders_record_their_metadata() {
    let mut log = AuditLogger::new();
    log.log_agent_interaction("chat", "hi", "hello", "conversational", 1);
    log.log_audio_processing("transcribe", Some(4), Some(1500), Some("words"), 2);
    log.log_memory_operation("recall", None, Some("query text"), Some(3), 3);
    let all = log.search_logs(None, None, None, None, None);
    assert_eq!(all.len(), 3);
    assert_eq!(all[2].metadata[2], ("model_used".to_string(), "conversational".to_string()));
    assert_eq!(all[1].metadata[0], ("audio_id".to_string(), "4".to_string()));
    assert_eq!(all[0].metadata[0], ("memory_id".to_string(), "-".to_string()));
    assert_eq!(all[0].metadata[2], ("results_count".to_string(), "3".to_string()));
}

#[test]
fn padded_rendering_is_sortable() {
    assert_eq!(govern::text::u64_to_padded_string(42), "00000000000000000042");
    assert_eq!(govern::text::u64_to_string(0), "0");
    assert_eq!(govern::text::u64_to_string(90210), "90210");
    let a = govern::text::u64_to_padded_string(99);
    let b = govern::text::u64_to_padded_string(100);
    assert!(a < b);
}

#[test]
fn statistics_count_by_level_and_span_time() {
    let mut log = AuditLogger::new();
    let empty = log.get_log_statistics();
    assert_eq!(empty.total_entries, 0);
    assert_eq!(empty.oldest, None);
    assert_eq!(empty.newest, None);

    log.log_action("a", "x", 100);
    log.log_error("b", "y", 200);
    log.log_security_event("c", "z", None, None, 300);
    log.log_action("d", "w", 400);
    let stats = log.get_log_statistics();
    assert_eq!(stats.total_entries, 4);
    assert_eq!(stats.info, 2);
    assert_eq!(stats.error, 1);
    assert_eq!(stats.security, 1);
    assert_eq!(stats.warning, 0);
    assert_eq!(stats.critical, 0);
    assert_eq!(stats.oldest, Some(100));
    assert_eq!(stats.newest, Some(400));
}

#[test]
fn decoding_undoes_encoding() {
    let entry = AuditLogEntry {
        id: 42,
        timestamp: 987654321,
        level: LogLevel::Warning,
        action: "odd|action\\with\nnoise".to_string(),
        description: "plain words".to_string(),
        user_id: Some("op|1".to_string()),
        ip_address: None,
        metadata: vec![
            ("key одна".to_string(), "value|one".to_string()),
            ("k2".to_string(), "".to_string()),
        ],
    };
    let line = encode_record(&entry);
    let back = decode_record(&line).expect("an encoded line must decode");
    assert_eq!(back.id, entry.id);
    assert_eq!(back.timestamp, entry.timestamp);
    assert!(matches!(back.level, LogLevel::Warning));
    assert_eq!(back.action, entry.action);
    assert_eq!(back.description, entry.description);
    assert_eq!(back.user_id, entry.user_id);
    assert_eq!(back.ip_address, entry.ip_address);
    assert_eq!(back.metadata, entry.metadata);
}

#[test]
fn decoding_a_plain_line_exactly() {
    let back = decode_record("7|1234|S|a\\pb|d|-|+ip|k|v\n").unwrap();
    assert_eq!(back.id, 7);
    assert_eq!(back.timestamp, 1234);
    assert!(matches!(back.level, LogLevel::Security));
    assert_eq!(back.action, "a|b");
    assert_eq!(back.description, "d");
    assert_eq!(back.user_id, None);
    assert_eq!(back.ip_address.as_deref(), Some("ip"));
    assert_eq!(back.metadata, vec![("k".to_string(), "v".to_string())]);
}

#[test]
fn malformed_lines_do_not_decode() {
    assert!(decode_record("").is_none());
    assert!(decode_record("no terminator").is_none());
    assert!(decode_record("too|few|fields\n").is_none());
    assert!(decode_record("x|1|I|a|d|-|-\n").is_none());
    assert!(decode_record("1|1|Q|a|d|-|-\n").is_none());
    assert!(decode_record("1|1|I|a|d|-|-|odd\n").is_none());
    assert!(decode_record("1|1|I|a|d|*|-\n").is_none());
    assert!(decode_record("1|1|I|bad\\escape\\q|d|-|-\n").is_none());
    assert!(decode_record("1|1|I|dangling\\").is_none());
}

#[test]
fn every_queued_line_decodes_back() {
    let mut log = AuditLogger::new();
    log.log_security_event("login", "admin login", Some("u1".to_string()), Some("10.0.0.1".to_string()), 5);
    log.log_error("boom", "lost a disk", 6);
    for effect in log.take_effects() {
        if let LogEffect::AppendRecord { line } = effect {
            let back = decode_record(&line).expect("queued lines are encoded records");
            assert!(line.contains(&back.action));
        }
    }
}
