//! Rule-based risk classification: an ordered set of enabled pattern
//! rules maps a request's description and proposed text to a risk tier.
//! Tiers are checked from most to least severe; within a tier, rules
//! are tried in registration order; the first match decides. A request
//! no enabled rule matches is `Low` risk.

use vstd::prelude::*;
use crate::errors::GovernError;
use crate::tier::RiskLevel;

verus! {

/// Whether the regular expression `pattern` matches somewhere in
/// `text`. The result is a function of the two strings alone; a pattern
/// that does not compile matches nothing.
pub uninterp spec fn regex_match(pattern: Seq<char>, text: Seq<char>) -> bool;

/// Relies on `regex::Regex::new` and `regex::Regex::is_match`: whether
/// a pattern matches a text depends on the pattern and the text alone,
/// and a pattern that fails to compile matches nothing.
#[verifier::external_body]
fn pattern_matches(pattern: &str, text: &str) -> (r: bool)
    ensures
        r == regex_match(pattern@, text@),
{
    match regex::Regex::new(pattern) {
        Ok(re) => re.is_match(text),
        Err(_) => false,
    }
}

/// One pattern rule: requests whose description or proposed text the
/// pattern matches are assigned `risk_level`. Immutable once created
/// except for the `enabled` flag.
pub struct SecurityRule {
    pub id: u64,
    pub name: String,
    pub description: String,
    pub pattern: String,
    pub risk_level: RiskLevel,
    pub enabled: bool,
}

/// The rule fires on this description/proposed-text pair.
pub open spec fn rule_fires(rule: SecurityRule, d: Seq<char>, t: Seq<char>) -> bool {
    regex_match(rule.pattern@, d) || regex_match(rule.pattern@, t)
}

/// Some enabled rule of the given tier fires.
pub open spec fn tier_fires(rules: Seq<SecurityRule>, tier: RiskLevel, d: Seq<char>, t: Seq<
    char,
>) -> bool {
    exists|i: int|
        0 <= i < rules.len() && rules[i].enabled && rules[i].risk_level == tier && rule_fires(
            rules[i],
            d,
            t,
        )
}

/// The tier assigned to a request: the most severe among `Critical`,
/// `High` and `Medium` for which an enabled rule fires, and `Low` when
/// none does. Rules carrying the `Low` tier never decide the outcome.
pub open spec fn spec_classify(rules: Seq<SecurityRule>, d: Seq<char>, t: Seq<char>) -> RiskLevel {
    if tier_fires(rules, RiskLevel::Critical, d, t) {
        RiskLevel::Critical
    } else if tier_fires(rules, RiskLevel::High, d, t) {
        RiskLevel::High
    } else if tier_fires(rules, RiskLevel::Medium, d, t) {
        RiskLevel::Medium
    } else {
        RiskLevel::Low
    }
}

/// Does any enabled rule of `tier` fire on the pair? Rules are tried in
/// registration order and the scan stops at the first hit.
fn tier_has_match(rules: &Vec<SecurityRule>, tier: RiskLevel, d: &str, t: &str) -> (r: bool)
    ensures
        r == tier_fires(rules@, tier, d@, t@),
{
    let n = rules.len();
    let mut i: usize = 0;
    while i < n
        invariant
            i <= n,
            n == rules@.len(),
            forall|j: int|
                0 <= j < i ==> !(rules@[j].enabled && rules@[j].risk_level == tier && rule_fires(
                    rules@[j],
                    d@,
                    t@,
                )),
        decreases n - i,
    {
        let rule = &rules[i];
        if rule.enabled && rule.risk_level == tier {
            if pattern_matches(rule.pattern.as_str(), d) || pattern_matches(
                rule.pattern.as_str(),
                t,
            ) {
                return true;
            }
        }
        i += 1;
    }
    false
}

/// Classifies a request against the rule set: tiers are checked from
/// most to least severe and the first tier with a firing enabled rule
/// is the result; `Low` when no enabled rule fires.
pub fn classify_with_rules(rules: &Vec<SecurityRule>, description: &str, proposed_text: &str) -> (r:
    RiskLevel)
    ensures
        r == spec_classify(rules@, description@, proposed_text@),
{
    if tier_has_match(rules, RiskLevel::Critical, description, proposed_text) {
        RiskLevel::Critical
    } else if tier_has_match(rules, RiskLevel::High, description, proposed_text) {
        RiskLevel::High
    } else if tier_has_match(rules, RiskLevel::Medium, description, proposed_text) {
        RiskLevel::Medium
    } else {
        RiskLevel::Low
    }
}

/// An enabled rule with this name is already registered.
pub open spec fn has_enabled_name(rules: Seq<SecurityRule>, name: Seq<char>) -> bool {
    exists|i: int| 0 <= i < rules.len() && rules[i].enabled && rules[i].name@ == name
}

/// Registers a rule at the end of the set, assigning it the next id.
/// Fails, changing nothing, when an enabled rule with the same name is
/// already registered; never mutates existing rules.
pub fn add_rule(rules: &mut Vec<SecurityRule>, rule: SecurityRule) -> (r: Result<
    (),
    GovernError,
>)
    requires
        old(rules)@.len() < u64::MAX,
    ensures
        has_enabled_name(old(rules)@, rule.name@) ==> r == Err::<(), GovernError>(
            GovernError::DuplicateRule,
        ) && *final(rules) == *old(rules),
        !has_enabled_name(old(rules)@, rule.name@) ==> ({
            &&& r == Ok::<(), GovernError>(())
            &&& final(rules)@.len() == old(rules)@.len() + 1
            &&& final(rules)@.last() == (SecurityRule { id: old(rules)@.len() as u64, ..rule })
            &&& forall|i: int| 0 <= i < old(rules)@.len() ==> final(rules)@[i] == old(rules)@[i]
        }),
{
    let n = rules.len();
    let mut i: usize = 0;
    while i < n
        invariant
            i <= n,
            n == rules@.len(),
            forall|j: int| 0 <= j < i ==> !(rules@[j].enabled && rules@[j].name@ == rule.name@),
        decreases n - i,
    {
        let existing = &rules[i];
        if existing.enabled && crate::text::str_eq(existing.name.as_str(), rule.name.as_str()) {
            return Err(GovernError::DuplicateRule);
        }
        i += 1;
    }
    let assigned = SecurityRule {
        id: n as u64,
        name: rule.name,
        description: rule.description,
        pattern: rule.pattern,
        risk_level: rule.risk_level,
        enabled: rule.enabled,
    };
    rules.push(assigned);
    Ok(())
}

/// Builds one rule of the default seed.
fn seed_rule(id: u64, name: &str, description: &str, pattern: &str, risk_level: RiskLevel) -> (r:
    SecurityRule)
    ensures
        r.id == id,
        r.name@ == name@,
        r.description@ == description@,
        r.pattern@ == pattern@,
        r.risk_level == risk_level,
        r.enabled,
{
    SecurityRule {
        id,
        name: String::from_str(name),
        description: String::from_str(description),
        pattern: String::from_str(pattern),
        risk_level,
        enabled: true,
    }
}

/// The default rule seed: destructive database statements are
/// `Critical`; system-command execution and broad destructive,
/// credential or network keywords are `High`; file, storage,
/// algorithm and configuration keywords are `Medium`.
pub fn default_security_rules() -> (r: Vec<SecurityRule>)
    ensures
        r@.len() == 12,
        forall|i: int| 0 <= i < r@.len() ==> (#[trigger] r@[i]).enabled && r@[i].id == i,
        r@[0].pattern@ == "(?i)(DROP|DELETE|TRUNCATE|ALTER)\\s+(TABLE|DATABASE)"@,
        r@[0].risk_level == RiskLevel::Critical,
        r@[1].pattern@ == "(?i)(system|exec|spawn|command)"@,
        r@[1].risk_level == RiskLevel::High,
        r@[2].pattern@ == "(?i)(database|sql|delete|drop|truncate)"@,
        r@[2].risk_level == RiskLevel::High,
        r@[3].pattern@ == "(?i)(system|exec|command|shell)"@,
        r@[3].risk_level == RiskLevel::High,
        r@[4].pattern@ == "(?i)(security|auth|password|token)"@,
        r@[4].risk_level == RiskLevel::High,
        r@[5].pattern@ == "(?i)(network|socket|connection)"@,
        r@[5].risk_level == RiskLevel::High,
        r@[6].pattern@ == "(?i)(write_file|delete_file|remove_file)"@,
        r@[6].risk_level == RiskLevel::Medium,
        r@[7].pattern@ == "(?i)(connect|socket|http|https|tcp|udp)"@,
        r@[7].risk_level == RiskLevel::Medium,
        r@[8].pattern@ == "(?i)(file|write|delete|remove)"@,
        r@[8].risk_level == RiskLevel::High,
        r@[9].pattern@ == "(?i)(algorithm|model|inference)"@,
        r@[9].risk_level == RiskLevel::Medium,
        r@[10].pattern@ == "(?i)(memory|cache|store)"@,
        r@[10].risk_level == RiskLevel::Medium,
        r@[11].pattern@ == "(?i)(config|setting|parameter)"@,
        r@[11].risk_level == RiskLevel::Medium,
{
    let mut rules: Vec<SecurityRule> = Vec::new();
    rules.push(
        seed_rule(
            0,
            "Database Access",
            "Detect database statements that could destroy data",
            "(?i)(DROP|DELETE|TRUNCATE|ALTER)\\s+(TABLE|DATABASE)",
            RiskLevel::Critical,
        ),
    );
    rules.push(
        seed_rule(
            1,
            "System Commands",
            "Detect system command execution attempts",
            "(?i)(system|exec|spawn|command)",
            RiskLevel::High,
        ),
    );
    rules.push(
        seed_rule(
            2,
            "Broad Data Keywords",
            "Flag wording that suggests destructive data operations",
            "(?i)(database|sql|delete|drop|truncate)",
            RiskLevel::High,
        ),
    );
    rules.push(
        seed_rule(
            3,
            "Execution Keywords",
            "Flag wording that suggests command or shell execution",
            "(?i)(system|exec|command|shell)",
            RiskLevel::High,
        ),
    );
    rules.push(
        seed_rule(
            4,
            "Credential Keywords",
            "Flag wording that touches authentication or secrets",
            "(?i)(security|auth|password|token)",
            RiskLevel::High,
        ),
    );
    rules.push(
        seed_rule(
            5,
            "Remote Access Keywords",
            "Flag wording that suggests network activity",
            "(?i)(network|socket|connection)",
            RiskLevel::High,
        ),
    );
    rules.push(
        seed_rule(
            6,
            "File Operations",
            "Monitor file system modifications",
            "(?i)(write_file|delete_file|remove_file)",
            RiskLevel::Medium,
        ),
    );
    rules.push(
        seed_rule(
            7,
            "Network Access",
            "Monitor network connection attempts",
            "(?i)(connect|socket|http|https|tcp|udp)",
            RiskLevel::Medium,
        ),
    );
    rules.push(
        seed_rule(
            8,
            "Mutation Keywords",
            "Flag wording that suggests file mutation",
            "(?i)(file|write|delete|remove)",
            RiskLevel::High,
        ),
    );
    rules.push(
        seed_rule(
            9,
            "Algorithm Keywords",
            "Flag wording that changes models or inference",
            "(?i)(algorithm|model|inference)",
            RiskLevel::Medium,
        ),
    );
    rules.push(
        seed_rule(
            10,
            "Working Memory Keywords",
            "Flag wording that touches memory or caches",
            "(?i)(memory|cache|store)",
            RiskLevel::Medium,
        ),
    );
    rules.push(
        seed_rule(
            11,
            "Parameter Keywords",
            "Flag wording that changes configuration",
            "(?i)(config|setting|parameter)",
            RiskLevel::Medium,
        ),
    );
    rules
}

/// Classification is a function of the rule set and the request pair
/// alone: two classifications of the same pair against the same rules
/// agree.
pub proof fn lemma_classify_deterministic(rules: Seq<SecurityRule>, d: Seq<char>, t: Seq<char>, r1:
    RiskLevel, r2: RiskLevel)
    requires
        r1 == spec_classify(rules, d, t),
        r2 == spec_classify(rules, d, t),
    ensures
        r1 == r2,
{
}

/// Registering an enabled rule that fires on a pair can only raise the
/// pair's tier, never lower it.
pub proof fn lemma_classify_monotone_add(rules: Seq<SecurityRule>, rule: SecurityRule, d: Seq<
    char,
>, t: Seq<char>)
    requires
        rule.enabled,
        rule_fires(rule, d, t),
    ensures
        spec_classify(rules.push(rule), d, t).rank() >= spec_classify(rules, d, t).rank(),
{
    let s2 = rules.push(rule);
    assert forall|tier: RiskLevel| tier_fires(rules, tier, d, t) implies tier_fires(
        s2,
        tier,
        d,
        t,
    ) by {
        let i = choose|i: int|
            0 <= i < rules.len() && rules[i].enabled && rules[i].risk_level == tier && rule_fires(
                rules[i],
                d,
                t,
            );
        assert(s2[i] == rules[i]);
    }
}

/// Registering a rule that is disabled, or does not fire on a pair,
/// leaves the pair's tier unchanged.
pub proof fn lemma_classify_add_no_fire(rules: Seq<SecurityRule>, rule: SecurityRule, d: Seq<
    char,
>, t: Seq<char>)
    requires
        !(rule.enabled && rule_fires(rule, d, t)),
    ensures
        spec_classify(rules.push(rule), d, t) == spec_classify(rules, d, t),
{
    let s2 = rules.push(rule);
    assert forall|tier: RiskLevel| tier_fires(s2, tier, d, t) == tier_fires(rules, tier, d, t) by {
        if tier_fires(rules, tier, d, t) {
            let i = choose|i: int|
                0 <= i < rules.len() && rules[i].enabled && rules[i].risk_level == tier
                    && rule_fires(rules[i], d, t);
            assert(s2[i] == rules[i]);
            assert(tier_fires(s2, tier, d, t));
        }
        if tier_fires(s2, tier, d, t) {
            let i = choose|i: int|
                0 <= i < s2.len() && s2[i].enabled && s2[i].risk_level == tier && rule_fires(
                    s2[i],
                    d,
                    t,
                );
            assert(i < rules.len());
            assert(tier_fires(rules, tier, d, t));
        }
    }
}

} // verus!
