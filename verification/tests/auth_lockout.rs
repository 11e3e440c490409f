use govern::AuditLogger;
use govern::GovernError;
use govern::SecurityManager;
use govern::SecuritySettings;
use govern::VerifyOutcome;
use govern::digest_secret;

fn manager(secret: &str) -> SecurityManager {
    SecurityManager::new(digest_secret(secret), SecuritySettings::default())
}

#[test]
fn five_failures_lock_out_even_the_right_secret() {
    let mut mgr = manager("right");
    let lockout_ms: u64 = 30 * 60 * 1000;
    for k in 1..=4u32 {
        let out = mgr.verify_admin_code("ip1", "wrong", k as u64);
        assert_eq!(out, VerifyOutcome::WrongSecret { failures: k });
    }
    let out = mgr.verify_admin_code("ip1", "wrong", 5);
    assert_eq!(out, VerifyOutcome::LockedOut { until: 5 + lockout_ms });

    let out = mgr.verify_admin_code("ip1", "right", 6);
    assert_eq!(out, VerifyOutcome::LockedOut { until: 5 + lockout_ms });

    let out = mgr.verify_admin_code("ip1", "right", 5 + lockout_ms);
    assert_eq!(out, VerifyOutcome::Authorized);
    assert_eq!(mgr.guard.attempts[0].failures, 0);
    assert_eq!(mgr.guard.attempts[0].lockout_until, None);
}

#[test]
fn lockout_is_per_identity() {
    let mut mgr = manager("right");
    for k in 1..=5u32 {
        mgr.verify_admin_code("ip1", "wrong", k as u64);
    }
    assert!(matches!(
        mgr.verify_admin_code("ip1", "right", 10),
        VerifyOutcome::LockedOut { .. }
    ));
    assert_eq!(mgr.verify_admin_code("ip2", "right", 10), VerifyOutcome::Authorized);
}

#[test]
fn success_clears_the_failure_count() {
    let mut mgr = manager("right");
    mgr.verify_admin_code("ip1", "wrong", 1);
    mgr.verify_admin_code("ip1", "wrong", 2);
    assert_eq!(mgr.verify_admin_code("ip1", "right", 3), VerifyOutcome::Authorized);
    assert_eq!(mgr.guard.attempts[0].failures, 0);
    assert_eq!(
        mgr.verify_admin_code("ip1", "wrong", 4),
        VerifyOutcome::WrongSecret { failures: 1 }
    );
}

#[test]
fn locked_out_approval_fails_with_locked_out() {
    let mut log = AuditLogger::new();
    let mut mgr = manager("right");
    let (id, _) = mgr.request_code_modification(
        &mut log,
        "anything".to_string(),
        "at all".to_string(),
        0,
    );
    for k in 1..=5u32 {
        mgr.verify_admin_code("admin1", "wrong", k as u64);
    }
    let denied = mgr.approve_modification(&mut log, id, "right", "admin1", 6);
    assert_eq!(denied, Err(GovernError::LockedOut));
    assert!(matches!(
        mgr.get_modification(id).unwrap().status,
        govern::ModificationStatus::Pending
    ));
}

#[test]
fn digest_is_a_real_digest() {
    let a = digest_secret("a");
    let b = digest_secret("b");
    assert_eq!(a.len(), 32);
    assert_eq!(b.len(), 32);
    assert_ne!(a, b);
    assert_eq!(a, digest_secret("a"));
    assert_ne!(a[..], *"a".as_bytes());
}

#[test]
fn constant_time_compare_agrees_with_equality() {
    assert!(govern::auth::ct_eq(&[1, 2, 3], &[1, 2, 3]));
    assert!(!govern::auth::ct_eq(&[1, 2, 3], &[1, 2, 4]));
    assert!(!govern::auth::ct_eq(&[1, 2, 3], &[1, 2]));
    assert!(govern::auth::ct_eq(&[], &[]));
}

#[test]
fn default_settings_match_the_documented_policy() {
    let s = SecuritySettings::default();
    assert!(s.require_admin_approval);
    assert_eq!(s.max_failed_attempts, 5);
    assert_eq!(s.lockout_duration_minutes, 30);
    assert!(s.enable_audit_logging);
    assert!(s.emergency_stop_enabled);
    assert!(!s.code_modification_enabled);
    assert_eq!(
        s.allowed_modification_types,
        vec!["ui_changes".to_string(), "configuration_updates".to_string()]
    );
}
