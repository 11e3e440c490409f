use govern::AuditLogger;
use govern::GovernError;
use govern::ModificationStatus;
use govern::RiskLevel;
use govern::SecurityManager;
use govern::SecuritySettings;
use govern::digest_secret;

fn manager(secret: &str) -> SecurityManager {
    SecurityManager::new(digest_secret(secret), SecuritySettings::default())
}

#[test]
fn end_to_end_destructive_request_lifecycle() {
    let mut log = AuditLogger::new();
    let mut mgr = manager("correct-horse");
    let (id, tier) = mgr.request_code_modification(
        &mut log,
        "delete all user records".to_string(),
        "DROP TABLE users".to_string(),
        1000,
    );
    assert!(matches!(tier, RiskLevel::High | RiskLevel::Critical));

    let denied = mgr.approve_modification(&mut log, id, "wrong-code", "admin1", 1001);
    assert_eq!(denied, Err(GovernError::Unauthorized));
    assert_eq!(mgr.guard.attempts.len(), 1);
    assert_eq!(mgr.guard.attempts[0].identity, "admin1");
    assert_eq!(mgr.guard.attempts[0].failures, 1);
    let still_pending = mgr.get_modification(id).unwrap();
    assert!(matches!(still_pending.status, ModificationStatus::Pending));

    let approved = mgr.approve_modification(&mut log, id, "correct-horse", "admin1", 1002);
    assert_eq!(approved, Ok(()));
    let req = mgr.get_modification(id).unwrap();
    assert!(matches!(req.status, ModificationStatus::Approved));
    assert_eq!(req.approved_by.as_deref(), Some("admin1"));
    assert_eq!(req.approval_timestamp, Some(1002));

    let applied = mgr.apply_modification(&mut log, id, "correct-horse", 1003);
    assert_eq!(applied, Ok(()));
    let req = mgr.get_modification(id).unwrap();
    assert!(matches!(req.status, ModificationStatus::Applied));
    assert_eq!(req.applied_timestamp, Some(1003));
}

#[test]
fn end_to_end_cosmetic_request_rejected() {
    let mut log = AuditLogger::new();
    let mut mgr = manager("sekrit");
    let (id, tier) = mgr.request_code_modification(
        &mut log,
        "update button color".to_string(),
        "css change".to_string(),
        500,
    );
    assert!(matches!(tier, RiskLevel::Low));

    let rejected = mgr.reject_modification(
        &mut log,
        id,
        "sekrit",
        "cosmetic, low priority".to_string(),
        600,
    );
    assert_eq!(rejected, Ok(()));
    let req = mgr.get_modification(id).unwrap();
    assert!(matches!(req.status, ModificationStatus::Rejected));
    assert_eq!(req.rejection_reason.as_deref(), Some("cosmetic, low priority"));

    let again = mgr.approve_modification(&mut log, id, "sekrit", "admin1", 700);
    assert_eq!(again, Err(GovernError::NotPending));
    let req = mgr.get_modification(id).unwrap();
    assert!(matches!(req.status, ModificationStatus::Rejected));
}

#[test]
fn second_decision_always_not_pending() {
    let mut log = AuditLogger::new();
    let mut mgr = manager("pw");
    let (id, _) = mgr.request_code_modification(
        &mut log,
        "tweak logging".to_string(),
        "raise verbosity".to_string(),
        10,
    );
    assert_eq!(mgr.approve_modification(&mut log, id, "pw", "root", 11), Ok(()));
    assert_eq!(
        mgr.approve_modification(&mut log, id, "pw", "root", 12),
        Err(GovernError::NotPending)
    );
    assert_eq!(
        mgr.reject_modification(&mut log, id, "pw", "no".to_string(), 13),
        Err(GovernError::NotPending)
    );
    let req = mgr.get_modification(id).unwrap();
    assert!(matches!(req.status, ModificationStatus::Approved));
    assert_eq!(req.approval_timestamp, Some(11));
}

#[test]
fn apply_requires_prior_approval() {
    let mut log = AuditLogger::new();
    let mut mgr = manager("pw");
    let (id, _) = mgr.request_code_modification(
        &mut log,
        "retune cache".to_string(),
        "swap eviction policy".to_string(),
        10,
    );
    assert_eq!(
        mgr.apply_modification(&mut log, id, "pw", 11),
        Err(GovernError::NotApproved)
    );
    let req = mgr.get_modification(id).unwrap();
    assert!(matches!(req.status, ModificationStatus::Pending));
}

#[test]
fn unknown_id_is_not_found() {
    let mut log = AuditLogger::new();
    let mut mgr = manager("pw");
    assert!(matches!(mgr.get_modification(5), Err(GovernError::NotFound)));
    assert_eq!(
        mgr.approve_modification(&mut log, 5, "pw", "root", 1),
        Err(GovernError::NotFound)
    );
    assert_eq!(
        mgr.reject_modification(&mut log, 5, "pw", "why".to_string(), 2),
        Err(GovernError::NotFound)
    );
    assert_eq!(mgr.apply_modification(&mut log, 5, "pw", 3), Err(GovernError::NotFound));
}

#[test]
fn pending_and_history_views() {
    let mut log = AuditLogger::new();
    let mut mgr = manager("pw");
    let (a, _) = mgr.request_code_modification(
        &mut log,
        "first".to_string(),
        "one".to_string(),
        100,
    );
    let (b, _) = mgr.request_code_modification(
        &mut log,
        "second".to_string(),
        "two".to_string(),
        200,
    );
    let (c, _) = mgr.request_code_modification(
        &mut log,
        "third".to_string(),
        "three".to_string(),
        300,
    );
    assert_eq!(mgr.approve_modification(&mut log, b, "pw", "root", 400), Ok(()));

    let pending = mgr.get_pending_modifications();
    let pending_ids: Vec<u64> = pending.iter().map(|r| r.id).collect();
    assert_eq!(pending_ids, vec![a, c]);

    let history = mgr.get_modification_history();
    let history_ids: Vec<u64> = history.iter().map(|r| r.id).collect();
    assert_eq!(history_ids, vec![c, b, a]);
    assert!(history[0].timestamp >= history[1].timestamp);
    assert!(history[1].timestamp >= history[2].timestamp);
}

#[test]
fn submission_timestamps_never_decrease() {
    let mut log = AuditLogger::new();
    let mut mgr = manager("pw");
    mgr.request_code_modification(&mut log, "a".to_string(), "x".to_string(), 500);
    mgr.request_code_modification(&mut log, "b".to_string(), "y".to_string(), 200);
    let history = mgr.get_modification_history();
    assert_eq!(history[0].timestamp, 500);
    assert_eq!(history[1].timestamp, 500);
}

#[test]
fn update_admin_code_switches_secret() {
    let mut mgr = manager("old-pw");
    assert_eq!(
        mgr.update_admin_code("bad-pw", "new-pw", 1),
        Err(GovernError::Unauthorized)
    );
    assert_eq!(mgr.update_admin_code("old-pw", "new-pw", 2), Ok(()));
    let out = mgr.verify_admin_code("cli", "old-pw", 3);
    assert!(!matches!(out, govern::VerifyOutcome::Authorized));
    let out = mgr.verify_admin_code("cli", "new-pw", 4);
    assert!(matches!(out, govern::VerifyOutcome::Authorized));
}

#[test]
fn duplicate_rule_name_rejected() {
    let mut mgr = manager("pw");
    let rule = govern::SecurityRule {
        id: 0,
        name: "Database Access".to_string(),
        description: "duplicate of a seeded rule".to_string(),
        pattern: "(?i)unused".to_string(),
        risk_level: RiskLevel::Low,
        enabled: true,
    };
    assert_eq!(mgr.add_security_rule(rule), Err(GovernError::DuplicateRule));

    let fresh = govern::SecurityRule {
        id: 0,
        name: "Fresh Rule".to_string(),
        description: "a new rule".to_string(),
        pattern: "(?i)fresh".to_string(),
        risk_level: RiskLevel::Medium,
        enabled: true,
    };
    assert_eq!(mgr.add_security_rule(fresh), Ok(()));
    assert_eq!(mgr.security_rules.len(), 13);
    assert_eq!(mgr.security_rules[12].id, 12);
}

#[test]
fn seed_rule_names_are_unique() {
    let rules = govern::default_security_rules();
    for i in 0..rules.len() {
        for j in (i + 1)..rules.len() {
            assert_ne!(rules[i].name, rules[j].name);
        }
    }
}

#[test]
fn error_tags_render() {
    assert_eq!(GovernError::Unauthorized.tag(), "unauthorized");
    assert_eq!(GovernError::LockedOut.tag(), "locked_out");
    assert_eq!(GovernError::NotPending.tag(), "not_pending");
    assert_eq!(GovernError::NotApproved.tag(), "not_approved");
    assert_eq!(GovernError::NotFound.tag(), "not_found");
    assert_eq!(GovernError::DuplicateRule.tag(), "duplicate_rule");
    assert_eq!(GovernError::StorageFailure.tag(), "storage_failure");
}

#[test]
fn transition_attempts_are_audited() {
    let mut log = AuditLogger::new();
    let mut mgr = manager("pw");
    let (id, _) = mgr.request_code_modification(
        &mut log,
        "change a thing".to_string(),
        "the change".to_string(),
        100,
    );
    let _ = mgr.approve_modification(&mut log, id, "wrong", "admin1", 101);
    let _ = mgr.approve_modification(&mut log, id, "pw", "admin1", 102);

    let submitted = log.search_logs(None, None, Some("modification_requested".to_string()), None, None);
    assert_eq!(submitted.len(), 1);
    assert_eq!(submitted[0].description, "change a thing");

    let denied = log.search_logs(None, None, Some("modification_approve_denied".to_string()), None, None);
    assert_eq!(denied.len(), 1);
    assert!(matches!(denied[0].level, govern::LogLevel::Security));
    assert_eq!(denied[0].user_id.as_deref(), Some("admin1"));
    assert_eq!(
        denied[0].metadata[1],
        ("reason".to_string(), "unauthorized".to_string())
    );

    let approved = log.search_logs(None, None, Some("modification_approved".to_string()), None, None);
    assert_eq!(approved.len(), 1);
    assert!(matches!(approved[0].level, govern::LogLevel::Security));
    assert_eq!(approved[0].user_id.as_deref(), Some("admin1"));
    assert_eq!(
        approved[0].metadata[1],
        ("old_status".to_string(), "pending".to_string())
    );
    assert_eq!(
        approved[0].metadata[2],
        ("new_status".to_string(), "approved".to_string())
    );
}

#[test]
fn state_denials_are_warnings() {
    let mut log = AuditLogger::new();
    let mut mgr = manager("pw");
    let _ = mgr.approve_modification(&mut log, 9, "pw", "admin1", 10);
    let denied = log.search_logs(None, None, Some("modification_approve_denied".to_string()), None, None);
    assert_eq!(denied.len(), 1);
    assert!(matches!(denied[0].level, govern::LogLevel::Warning));
    assert_eq!(
        denied[0].metadata[1],
        ("reason".to_string(), "not_found".to_string())
    );
}
