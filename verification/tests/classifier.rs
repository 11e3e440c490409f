use govern::RiskLevel;
use govern::SecurityManager;
use govern::SecurityRule;
use govern::SecuritySettings;
use govern::digest_secret;

fn manager() -> SecurityManager {
    SecurityManager::new(digest_secret("pw"), SecuritySettings::default())
}

#[test]
fn classification_is_deterministic() {
    let mgr = manager();
    let first = mgr.assess_risk_level("delete all user records", "DROP TABLE users");
    let second = mgr.assess_risk_level("delete all user records", "DROP TABLE users");
    assert_eq!(first, second);
}

#[test]
fn destructive_sql_is_critical() {
    let mgr = manager();
    let tier = mgr.assess_risk_level("clean things up", "DROP TABLE users");
    assert!(matches!(tier, RiskLevel::Critical));
}

#[test]
fn execution_wording_is_high() {
    let mgr = manager();
    let tier = mgr.assess_risk_level("run a shell command", "ls -la");
    assert!(matches!(tier, RiskLevel::High));
}

#[test]
fn configuration_wording_is_medium() {
    let mgr = manager();
    let tier = mgr.assess_risk_level("adjust one setting", "bump the batch count");
    assert!(matches!(tier, RiskLevel::Medium));
}

#[test]
fn unmatched_wording_is_low() {
    let mgr = manager();
    let tier = mgr.assess_risk_level("update button color", "css change");
    assert!(matches!(tier, RiskLevel::Low));
}

#[test]
fn higher_tier_rule_raises_a_matching_result() {
    let mut mgr = manager();
    let before = mgr.assess_risk_level("repaint the gizmo", "gizmo stuff");
    assert!(matches!(before, RiskLevel::Low));
    let rule = SecurityRule {
        id: 0,
        name: "Gizmo Watch".to_string(),
        description: "gizmos are sensitive here".to_string(),
        pattern: "(?i)gizmo".to_string(),
        risk_level: RiskLevel::Critical,
        enabled: true,
    };
    mgr.add_security_rule(rule).unwrap();
    let after = mgr.assess_risk_level("repaint the gizmo", "gizmo stuff");
    assert!(matches!(after, RiskLevel::Critical));

    let untouched = mgr.assess_risk_level("update button color", "css change");
    assert!(matches!(untouched, RiskLevel::Low));
}

#[test]
fn new_rule_never_lowers_a_result() {
    let mut mgr = manager();
    let before = mgr.assess_risk_level("run a shell command", "ls -la");
    let rule = SecurityRule {
        id: 0,
        name: "Shell Advisory".to_string(),
        description: "a milder take on shells".to_string(),
        pattern: "(?i)shell".to_string(),
        risk_level: RiskLevel::Medium,
        enabled: true,
    };
    mgr.add_security_rule(rule).unwrap();
    let after = mgr.assess_risk_level("run a shell command", "ls -la");
    assert!(tier_rank(after) >= tier_rank(before));
}

#[test]
fn disabled_rules_do_not_fire() {
    let mut mgr = manager();
    let rule = SecurityRule {
        id: 0,
        name: "Dormant Rule".to_string(),
        description: "registered but switched off".to_string(),
        pattern: "(?i)zzzquux".to_string(),
        risk_level: RiskLevel::Critical,
        enabled: false,
    };
    mgr.add_security_rule(rule).unwrap();
    let tier = mgr.assess_risk_level("zzzquux", "zzzquux");
    assert!(matches!(tier, RiskLevel::Low));
}

#[test]
fn invalid_pattern_matches_nothing() {
    let mut mgr = manager();
    let rule = SecurityRule {
        id: 0,
        name: "Broken Rule".to_string(),
        description: "an unparsable pattern".to_string(),
        pattern: "(unclosed".to_string(),
        risk_level: RiskLevel::Critical,
        enabled: true,
    };
    mgr.add_security_rule(rule).unwrap();
    let tier = mgr.assess_risk_level("(unclosed", "(unclosed");
    assert!(matches!(tier, RiskLevel::Low));
}

fn tier_rank(t: RiskLevel) -> u32 {
    match t {
        RiskLevel::Low => 0,
        RiskLevel::Medium => 1,
        RiskLevel::High => 2,
        RiskLevel::Critical => 3,
    }
}
