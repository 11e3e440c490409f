//! The modification lifecycle manager: it owns the set of modification
//! requests and their state machine, classifies each submission, gates
//! every transition behind the auth guard, and forwards a structured
//! record of every attempt — allowed or denied — to the audit log.
//!
//! A request starts `Pending`; an authorized approve or reject moves it
//! to `Approved` or `Rejected`; an authorized apply moves an `Approved`
//! request to `Applied`. `Rejected` and `Applied` are terminal, and an
//! attempt at any other movement fails and changes nothing.

use vstd::prelude::*;
use crate::audit::AuditLogger;
use crate::audit::spec_clamp;
use crate::audit::spec_logged;
use crate::auth::AuthGuard;
use crate::auth::SecuritySettings;
use crate::auth::VerifyOutcome;
use crate::auth::digest_secret;
use crate::auth::sha256_of;
use crate::auth::spec_guard_step;
use crate::auth::spec_outcome;
use crate::classify::SecurityRule;
use crate::classify::add_rule;
use crate::classify::classify_with_rules;
use crate::classify::default_security_rules;
use crate::classify::has_enabled_name;
use crate::classify::spec_classify;
use crate::errors::GovernError;
use crate::text::spec_dec;
use crate::text::u64_to_string;
use crate::tier::LogLevel;
use crate::tier::ModificationStatus;
use crate::tier::RiskLevel;
use vstd::string::StringSliceAdditionalSpecFns;

verus! {

/// One proposed privileged change and everything decided about it.
/// Created on submission, mutated only by authorized transitions,
/// never deleted: superseded requests are kept under their final
/// status.
pub struct CodeModificationRequest {
    pub id: u64,
    pub timestamp: u64,
    pub description: String,
    pub proposed_changes: String,
    pub status: ModificationStatus,
    pub approved_by: Option<String>,
    pub approval_timestamp: Option<u64>,
    pub rejection_reason: Option<String>,
    pub applied_timestamp: Option<u64>,
    pub risk_level: RiskLevel,
}

impl Clone for CodeModificationRequest {
    fn clone(&self) -> (r: CodeModificationRequest)
        ensures
            r == *self,
    {
        CodeModificationRequest {
            id: self.id,
            timestamp: self.timestamp,
            description: self.description.clone(),
            proposed_changes: self.proposed_changes.clone(),
            status: self.status,
            approved_by: clone_opt(&self.approved_by),
            approval_timestamp: self.approval_timestamp,
            rejection_reason: clone_opt(&self.rejection_reason),
            applied_timestamp: self.applied_timestamp,
            risk_level: self.risk_level,
        }
    }
}

/// Copies an optional string.
fn clone_opt(o: &Option<String>) -> (r: Option<String>)
    ensures
        r == *o,
{
    match o {
        Some(s) => Some(s.clone()),
        None => None,
    }
}

/// The per-status shape of a request: exactly one of the rejection
/// reason and the approver is set once the request leaves `Pending`,
/// and the applied timestamp is set exactly in `Applied`, which keeps
/// its approver.
pub open spec fn req_wf(r: CodeModificationRequest) -> bool {
    match r.status {
        ModificationStatus::Pending => r.approved_by is None && r.approval_timestamp is None
            && r.rejection_reason is None && r.applied_timestamp is None,
        ModificationStatus::Approved => r.approved_by is Some && r.approval_timestamp is Some
            && r.rejection_reason is None && r.applied_timestamp is None,
        ModificationStatus::Rejected => r.rejection_reason is Some && r.approved_by is None
            && r.approval_timestamp is None && r.applied_timestamp is None,
        ModificationStatus::Applied => r.approved_by is Some && r.approval_timestamp is Some
            && r.rejection_reason is None && r.applied_timestamp is Some,
    }
}

/// How a successful approval changes a request: `Pending` becomes
/// `Approved`, the approver and the approval time are recorded, and
/// everything else stands.
pub open spec fn approve_updates(o: CodeModificationRequest, n: CodeModificationRequest, approver: Seq<char>, now: u64) -> bool {
    &&& o.status == ModificationStatus::Pending
    &&& n.status == ModificationStatus::Approved
    &&& n.approved_by matches Some(a) && a@ == approver
    &&& n.approval_timestamp == Some(now)
    &&& n.id == o.id
    &&& n.timestamp == o.timestamp
    &&& n.description == o.description
    &&& n.proposed_changes == o.proposed_changes
    &&& n.rejection_reason == o.rejection_reason
    &&& n.applied_timestamp == o.applied_timestamp
    &&& n.risk_level == o.risk_level
}

/// How a successful rejection changes a request: `Pending` becomes
/// `Rejected`, the reason is recorded, and everything else stands.
pub open spec fn reject_updates(o: CodeModificationRequest, n: CodeModificationRequest, reason: Seq<char>) -> bool {
    &&& o.status == ModificationStatus::Pending
    &&& n.status == ModificationStatus::Rejected
    &&& n.rejection_reason matches Some(s) && s@ == reason
    &&& n.id == o.id
    &&& n.timestamp == o.timestamp
    &&& n.description == o.description
    &&& n.proposed_changes == o.proposed_changes
    &&& n.approved_by == o.approved_by
    &&& n.approval_timestamp == o.approval_timestamp
    &&& n.applied_timestamp == o.applied_timestamp
    &&& n.risk_level == o.risk_level
}

/// How a successful application changes a request: `Approved` becomes
/// `Applied`, the application time is recorded, and everything else —
/// the approver included — stands.
pub open spec fn apply_updates(o: CodeModificationRequest, n: CodeModificationRequest, now: u64) -> bool {
    &&& o.status == ModificationStatus::Approved
    &&& n.status == ModificationStatus::Applied
    &&& n.applied_timestamp == Some(now)
    &&& n.id == o.id
    &&& n.timestamp == o.timestamp
    &&& n.description == o.description
    &&& n.proposed_changes == o.proposed_changes
    &&& n.approved_by == o.approved_by
    &&& n.approval_timestamp == o.approval_timestamp
    &&& n.rejection_reason == o.rejection_reason
    &&& n.risk_level == o.risk_level
}

/// Every movement a request can make — an approval, a rejection, an
/// application, or standing still — follows the state machine's
/// transition relation: `Pending` to `Approved` or `Rejected`, and
/// `Approved` to `Applied`; nothing else is reachable.
pub proof fn lemma_transitions_legal(o: CodeModificationRequest, n: CodeModificationRequest, approver: Seq<char>, reason: Seq<char>, now: u64)
    requires
        approve_updates(o, n, approver, now) || reject_updates(o, n, reason) || apply_updates(
            o,
            n,
            now,
        ) || n == o,
    ensures
        o.status.can_become(n.status),
{
}

/// No request that has left `Pending` can be approved or rejected
/// again: each of the three transitions leaves the request in a status
/// other than `Pending`, and approve and reject demand `Pending` — so
/// a second decision on the same request always fails with
/// `NotPending`, whichever of approve and reject came first.
pub proof fn lemma_decision_is_final(o: CodeModificationRequest, n: CodeModificationRequest, approver: Seq<char>, reason: Seq<char>, now: u64)
    requires
        approve_updates(o, n, approver, now) || reject_updates(o, n, reason) || apply_updates(
            o,
            n,
            now,
        ),
    ensures
        n.status != ModificationStatus::Pending,
        !(exists|n2: CodeModificationRequest, a2: Seq<char>, t2: u64| approve_updates(n, n2, a2, t2)),
        !(exists|n2: CodeModificationRequest, r2: Seq<char>| reject_updates(n, n2, r2)),
{
}

/// Owns the modification requests, the rule set and the auth guard.
pub struct SecurityManager {
    pub guard: AuthGuard,
    pub security_rules: Vec<SecurityRule>,
    pub requests: Vec<CodeModificationRequest>,
    pub settings: SecuritySettings,
    /// Creation timestamp of the newest request; submissions are
    /// clamped to it so that submission order and timestamp order
    /// agree.
    pub last_submit_ts: u64,
}

impl SecurityManager {
    pub open spec fn wf(self) -> bool {
        &&& self.guard.wf()
        &&& self.settings.wf()
        &&& forall|i: int|
            0 <= i < self.requests@.len() ==> (#[trigger] self.requests@[i]).id == i && req_wf(
                self.requests@[i],
            )
        &&& forall|i: int, j: int|
            0 <= i <= j < self.requests@.len() ==> self.requests@[i].timestamp
                <= self.requests@[j].timestamp
        &&& forall|i: int|
            0 <= i < self.requests@.len() ==> (#[trigger] self.requests@[i]).timestamp
                <= self.last_submit_ts
    }

    /// A fresh manager guarding with the given secret digest under the
    /// given settings, with the default rule seed and no requests.
    pub fn new(secret_digest: Vec<u8>, settings: SecuritySettings) -> (r: SecurityManager)
        requires
            settings.wf(),
        ensures
            r.wf(),
            r.guard.secret_digest == secret_digest,
            r.guard.max_failed_attempts == settings.max_failed_attempts,
            r.guard.lockout_duration_ms == settings.spec_lockout_duration_ms(),
            r.guard.attempts@.len() == 0,
            r.requests@.len() == 0,
            r.settings == settings,
            r.last_submit_ts == 0,
            r.security_rules@.len() == 12,
            forall|i: int|
                0 <= i < r.security_rules@.len() ==> (#[trigger] r.security_rules@[i]).enabled
                    && r.security_rules@[i].id == i,
    {
        let duration_ms = settings.lockout_duration_ms();
        let max = settings.max_failed_attempts;
        SecurityManager {
            guard: AuthGuard::new(secret_digest, max, duration_ms),
            security_rules: default_security_rules(),
            requests: Vec::new(),
            settings,
            last_submit_ts: 0,
        }
    }

    /// One authentication attempt against the manager's guard; the
    /// request set, rules and settings stand still. The caller is
    /// handed the outcome — identity, result and failure count — so it
    /// can be recorded in the audit log.
    pub fn verify_admin_code(&mut self, identity: &str, code: &str, now: u64) -> (r: VerifyOutcome)
        requires
            old(self).wf(),
        ensures
            final(self).wf(),
            r == spec_outcome(old(self).guard, identity@, code.spec_bytes(), now),
            spec_guard_step(old(self).guard, final(self).guard, identity@, code.spec_bytes(), now),
            final(self).requests == old(self).requests,
            final(self).security_rules == old(self).security_rules,
            final(self).settings == old(self).settings,
            final(self).last_submit_ts == old(self).last_submit_ts,
    {
        self.guard.verify(identity, code, now)
    }

    /// The tier the rule set assigns to a request pair.
    pub fn assess_risk_level(&self, description: &str, proposed_changes: &str) -> (r: RiskLevel)
        ensures
            r == spec_classify(self.security_rules@, description@, proposed_changes@),
    {
        classify_with_rules(&self.security_rules, description, proposed_changes)
    }

    /// Registers a rule, rejecting a name an enabled rule already
    /// carries; existing rules are never touched.
    pub fn add_security_rule(&mut self, rule: SecurityRule) -> (r: Result<(), GovernError>)
        requires
            old(self).wf(),
            old(self).security_rules@.len() < u64::MAX,
        ensures
            final(self).wf(),
            final(self).guard == old(self).guard,
            final(self).requests == old(self).requests,
            final(self).settings == old(self).settings,
            final(self).last_submit_ts == old(self).last_submit_ts,
            has_enabled_name(old(self).security_rules@, rule.name@) ==> r == Err::<
                (),
                GovernError,
            >(GovernError::DuplicateRule) && final(self).security_rules == old(
                self,
            ).security_rules,
            !has_enabled_name(old(self).security_rules@, rule.name@) ==> ({
                &&& r == Ok::<(), GovernError>(())
                &&& final(self).security_rules@.len() == old(self).security_rules@.len() + 1
                &&& final(self).security_rules@.last() == (SecurityRule {
                    id: old(self).security_rules@.len() as u64,
                    ..rule
                })
                &&& forall|i: int|
                    0 <= i < old(self).security_rules@.len() ==> final(self).security_rules@[i]
                        == old(self).security_rules@[i]
            }),
    {
        add_rule(&mut self.security_rules, rule)
    }
}

/// How a submission changes the manager: one more request, `Pending`,
/// carrying the next id, the submitted texts, the tier the rule set
/// assigns, and a creation timestamp clamped so submission order and
/// timestamp order agree. Nothing else moves.
pub open spec fn spec_submitted(o: SecurityManager, n: SecurityManager, description: Seq<char>, proposed: Seq<char>, now: u64, id: u64, tier: RiskLevel) -> bool {
    &&& n.guard == o.guard
    &&& n.security_rules == o.security_rules
    &&& n.settings == o.settings
    &&& id == o.requests@.len()
    &&& tier == spec_classify(o.security_rules@, description, proposed)
    &&& n.requests@.len() == o.requests@.len() + 1
    &&& forall|k: int| 0 <= k < o.requests@.len() ==> n.requests@[k] == o.requests@[k]
    &&& ({
        let q = n.requests@.last();
        &&& q.id == id
        &&& q.timestamp == spec_clamp(now, o.last_submit_ts)
        &&& q.description@ == description
        &&& q.proposed_changes@ == proposed
        &&& q.status == ModificationStatus::Pending
        &&& q.approved_by is None
        &&& q.approval_timestamp is None
        &&& q.rejection_reason is None
        &&& q.applied_timestamp is None
        &&& q.risk_level == tier
    })
    &&& n.last_submit_ts == spec_clamp(now, o.last_submit_ts)
}

impl SecurityManager {
    /// Submits a modification request: it is classified, stored as
    /// `Pending`, and recorded in the audit log; the new id and the
    /// assigned tier are returned. Submission never fails — a pair no
    /// rule matches is simply `Low` risk.
    pub fn request_code_modification(&mut self, log: &mut AuditLogger, description: String, proposed_changes: String, now: u64) -> (r: (u64, RiskLevel))
        requires
            old(self).wf(),
            old(log).wf(),
            old(self).requests@.len() < u64::MAX,
        ensures
            final(self).wf(),
            spec_submitted(
                *old(self),
                *final(self),
                description@,
                proposed_changes@,
                now,
                r.0,
                r.1,
            ),
            spec_logged(*old(log), *final(log), now),
            ({
                let e = final(log).all_entries().last();
                &&& e.level == LogLevel::Info
                &&& e.action@ == "modification_requested"@
                &&& e.description@ == description@
                &&& e.user_id is None
                &&& e.metadata@.len() == 2
                &&& e.metadata@[0].0@ == "modification_id"@ && e.metadata@[0].1@ == spec_dec(
                    r.0 as int,
                )
                &&& e.metadata@[1].0@ == "risk_level"@ && e.metadata@[1].1@ == r.1.spec_tag()
            }),
    {
        let tier = classify_with_rules(&self.security_rules, description.as_str(), proposed_changes.as_str());
        let id = self.requests.len() as u64;
        let ts = if now >= self.last_submit_ts {
            now
        } else {
            self.last_submit_ts
        };
        let req = CodeModificationRequest {
            id,
            timestamp: ts,
            description: description.clone(),
            proposed_changes,
            status: ModificationStatus::Pending,
            approved_by: None,
            approval_timestamp: None,
            rejection_reason: None,
            applied_timestamp: None,
            risk_level: tier,
        };
        self.requests.push(req);
        self.last_submit_ts = ts;
        let mut meta: Vec<(String, String)> = Vec::new();
        meta.push((String::from_str("modification_id"), u64_to_string(id)));
        meta.push((String::from_str("risk_level"), String::from_str(tier.tag())));
        log.append(
            LogLevel::Info,
            String::from_str("modification_requested"),
            description,
            None,
            None,
            meta,
            now,
        );
        (id, tier)
    }
}


/// Queues the audit record of a denied transition attempt: the request
/// id and the error stand in the metadata; auth denials are `Security`
/// level, state denials `Warning`.
fn log_denied(log: &mut AuditLogger, modification_id: u64, action: &str, err: GovernError, level: LogLevel, user_id: Option<String>, now: u64)
    requires
        old(log).wf(),
    ensures
        spec_logged(*old(log), *final(log), now),
        ({
            let e = final(log).all_entries().last();
            &&& e.level == level
            &&& e.action@ == action@
            &&& e.description@ == err.spec_tag()
            &&& e.user_id == user_id
            &&& e.metadata@.len() == 2
            &&& e.metadata@[0].0@ == "modification_id"@ && e.metadata@[0].1@ == spec_dec(
                modification_id as int,
            )
            &&& e.metadata@[1].0@ == "reason"@ && e.metadata@[1].1@ == err.spec_tag()
        }),
{
    let mut meta: Vec<(String, String)> = Vec::new();
    meta.push((String::from_str("modification_id"), u64_to_string(modification_id)));
    meta.push((String::from_str("reason"), String::from_str(err.tag())));
    log.append(
        level,
        String::from_str(action),
        String::from_str(err.tag()),
        user_id,
        None,
        meta,
        now,
    );
}

/// Queues the audit record of a completed transition: the request id,
/// the old and new status and the request's tier stand in the
/// metadata, at `Security` level.
fn log_transition(log: &mut AuditLogger, modification_id: u64, action: &str, old_status: ModificationStatus, new_status: ModificationStatus, tier: RiskLevel, user_id: Option<String>, now: u64)
    requires
        old(log).wf(),
    ensures
        spec_logged(*old(log), *final(log), now),
        ({
            let e = final(log).all_entries().last();
            &&& e.level == LogLevel::Security
            &&& e.action@ == action@
            &&& e.user_id == user_id
            &&& e.metadata@.len() == 4
            &&& e.metadata@[0].0@ == "modification_id"@ && e.metadata@[0].1@ == spec_dec(
                modification_id as int,
            )
            &&& e.metadata@[1].0@ == "old_status"@ && e.metadata@[1].1@ == old_status.spec_tag()
            &&& e.metadata@[2].0@ == "new_status"@ && e.metadata@[2].1@ == new_status.spec_tag()
            &&& e.metadata@[3].0@ == "risk_level"@ && e.metadata@[3].1@ == tier.spec_tag()
        }),
{
    let mut meta: Vec<(String, String)> = Vec::new();
    meta.push((String::from_str("modification_id"), u64_to_string(modification_id)));
    meta.push((String::from_str("old_status"), String::from_str(old_status.tag())));
    meta.push((String::from_str("new_status"), String::from_str(new_status.tag())));
    meta.push((String::from_str("risk_level"), String::from_str(tier.tag())));
    log.append(
        LogLevel::Security,
        String::from_str(action),
        String::from_str(action),
        user_id,
        None,
        meta,
        now,
    );
}

impl SecurityManager {
    /// Approves a pending request. The approver must present the right
    /// secret and not be locked out, else `Unauthorized` or
    /// `LockedOut`; the id must exist, else `NotFound`; the request
    /// must still be `Pending`, else `NotPending` — a second approval
    /// is rejected, not absorbed. On success the request records the
    /// approver and the approval time. Every attempt, either way, is
    /// recorded in the audit log.
    pub fn approve_modification(&mut self, log: &mut AuditLogger, modification_id: u64, admin_code: &str, approver_id: &str, now: u64) -> (r: Result<(), GovernError>)
        requires
            old(self).wf(),
            old(log).wf(),
        ensures
            final(self).wf(),
            final(self).security_rules == old(self).security_rules,
            final(self).settings == old(self).settings,
            final(self).last_submit_ts == old(self).last_submit_ts,
            spec_guard_step(
                old(self).guard,
                final(self).guard,
                approver_id@,
                admin_code.spec_bytes(),
                now,
            ),
            spec_logged(*old(log), *final(log), now),
            ({
                let out = spec_outcome(
                    old(self).guard,
                    approver_id@,
                    admin_code.spec_bytes(),
                    now,
                );
                let reqs = old(self).requests@;
                let i = modification_id as int;
                let e = final(log).all_entries().last();
                &&& (out matches VerifyOutcome::LockedOut { until: _ } ==> r == Err::<(), GovernError>(
                    GovernError::LockedOut,
                ))
                &&& (out matches VerifyOutcome::WrongSecret { failures: _ } ==> r == Err::<(), GovernError>(
                    GovernError::Unauthorized,
                ))
                &&& (out is Authorized ==> {
                    &&& (modification_id >= reqs.len() ==> r == Err::<(), GovernError>(
                        GovernError::NotFound,
                    ))
                    &&& (modification_id < reqs.len() && reqs[i].status
                        != ModificationStatus::Pending ==> r == Err::<(), GovernError>(
                        GovernError::NotPending,
                    ))
                    &&& (modification_id < reqs.len() && reqs[i].status
                        == ModificationStatus::Pending ==> r == Ok::<(), GovernError>(()))
                })
                &&& (r is Err ==> ({
                    &&& final(self).requests == old(self).requests
                    &&& e.action@ == "modification_approve_denied"@
                    &&& e.description@ == r->Err_0.spec_tag()
                    &&& e.level == (if out is Authorized {
                        LogLevel::Warning
                    } else {
                        LogLevel::Security
                    })
                    &&& e.user_id matches Some(u) && u@ == approver_id@
                    &&& e.metadata@.len() == 2
                    &&& e.metadata@[1].0@ == "reason"@ && e.metadata@[1].1@
                        == r->Err_0.spec_tag()
                }))
                &&& (r is Ok ==> ({
                    &&& final(self).requests@ == reqs.update(i, final(self).requests@[i])
                    &&& approve_updates(reqs[i], final(self).requests@[i], approver_id@, now)
                    &&& e.action@ == "modification_approved"@
                    &&& e.level == LogLevel::Security
                    &&& e.user_id matches Some(u) && u@ == approver_id@
                }))
            }),
    {
        let v = self.guard.verify(approver_id, admin_code, now);
        let denial = match v {
            VerifyOutcome::Authorized => None,
            VerifyOutcome::WrongSecret { failures: _ } => Some(GovernError::Unauthorized),
            VerifyOutcome::LockedOut { until: _ } => Some(GovernError::LockedOut),
        };
        if let Some(err) = denial {
            log_denied(
                log,
                modification_id,
                "modification_approve_denied",
                err,
                LogLevel::Security,
                Some(String::from_str(approver_id)),
                now,
            );
            return Err(err);
        }
        if modification_id >= self.requests.len() as u64 {
            log_denied(
                log,
                modification_id,
                "modification_approve_denied",
                GovernError::NotFound,
                LogLevel::Warning,
                Some(String::from_str(approver_id)),
                now,
            );
            return Err(GovernError::NotFound);
        }
        let i = modification_id as usize;
        let pending = match self.requests[i].status {
            ModificationStatus::Pending => true,
            ModificationStatus::Approved => false,
            ModificationStatus::Rejected => false,
            ModificationStatus::Applied => false,
        };
        if !pending {
            log_denied(
                log,
                modification_id,
                "modification_approve_denied",
                GovernError::NotPending,
                LogLevel::Warning,
                Some(String::from_str(approver_id)),
                now,
            );
            return Err(GovernError::NotPending);
        }
        let mut updated = self.requests[i].clone();
        let tier = updated.risk_level;
        updated.status = ModificationStatus::Approved;
        updated.approved_by = Some(String::from_str(approver_id));
        updated.approval_timestamp = Some(now);
        self.requests.set(i, updated);
        log_transition(
            log,
            modification_id,
            "modification_approved",
            ModificationStatus::Pending,
            ModificationStatus::Approved,
            tier,
            Some(String::from_str(approver_id)),
            now,
        );
        Ok(())
    }

    /// Rejects a pending request, under the same authorization (as the
    /// anonymous global identity) and the same `Pending`-only
    /// precondition as approval; on success the reason is recorded.
    /// Every attempt is recorded in the audit log.
    pub fn reject_modification(&mut self, log: &mut AuditLogger, modification_id: u64, admin_code: &str, reason: String, now: u64) -> (r: Result<(), GovernError>)
        requires
            old(self).wf(),
            old(log).wf(),
        ensures
            final(self).wf(),
            final(self).security_rules == old(self).security_rules,
            final(self).settings == old(self).settings,
            final(self).last_submit_ts == old(self).last_submit_ts,
            spec_guard_step(
                old(self).guard,
                final(self).guard,
                "global"@,
                admin_code.spec_bytes(),
                now,
            ),
            spec_logged(*old(log), *final(log), now),
            ({
                let out = spec_outcome(old(self).guard, "global"@, admin_code.spec_bytes(), now);
                let reqs = old(self).requests@;
                let i = modification_id as int;
                let e = final(log).all_entries().last();
                &&& (out matches VerifyOutcome::LockedOut { until: _ } ==> r == Err::<(), GovernError>(
                    GovernError::LockedOut,
                ))
                &&& (out matches VerifyOutcome::WrongSecret { failures: _ } ==> r == Err::<(), GovernError>(
                    GovernError::Unauthorized,
                ))
                &&& (out is Authorized ==> {
                    &&& (modification_id >= reqs.len() ==> r == Err::<(), GovernError>(
                        GovernError::NotFound,
                    ))
                    &&& (modification_id < reqs.len() && reqs[i].status
                        != ModificationStatus::Pending ==> r == Err::<(), GovernError>(
                        GovernError::NotPending,
                    ))
                    &&& (modification_id < reqs.len() && reqs[i].status
                        == ModificationStatus::Pending ==> r == Ok::<(), GovernError>(()))
                })
                &&& (r is Err ==> ({
                    &&& final(self).requests == old(self).requests
                    &&& e.action@ == "modification_reject_denied"@
                    &&& e.description@ == r->Err_0.spec_tag()
                    &&& e.level == (if out is Authorized {
                        LogLevel::Warning
                    } else {
                        LogLevel::Security
                    })
                    &&& e.metadata@.len() == 2
                    &&& e.metadata@[1].0@ == "reason"@ && e.metadata@[1].1@
                        == r->Err_0.spec_tag()
                }))
                &&& (r is Ok ==> ({
                    &&& final(self).requests@ == reqs.update(i, final(self).requests@[i])
                    &&& reject_updates(reqs[i], final(self).requests@[i], reason@)
                    &&& e.action@ == "modification_rejected"@
                    &&& e.level == LogLevel::Security
                }))
            }),
    {
        let v = self.guard.verify("global", admin_code, now);
        let denial = match v {
            VerifyOutcome::Authorized => None,
            VerifyOutcome::WrongSecret { failures: _ } => Some(GovernError::Unauthorized),
            VerifyOutcome::LockedOut { until: _ } => Some(GovernError::LockedOut),
        };
        if let Some(err) = denial {
            log_denied(
                log,
                modification_id,
                "modification_reject_denied",
                err,
                LogLevel::Security,
                None,
                now,
            );
            return Err(err);
        }
        if modification_id >= self.requests.len() as u64 {
            log_denied(
                log,
                modification_id,
                "modification_reject_denied",
                GovernError::NotFound,
                LogLevel::Warning,
                None,
                now,
            );
            return Err(GovernError::NotFound);
        }
        let i = modification_id as usize;
        let pending = match self.requests[i].status {
            ModificationStatus::Pending => true,
            ModificationStatus::Approved => false,
            ModificationStatus::Rejected => false,
            ModificationStatus::Applied => false,
        };
        if !pending {
            log_denied(
                log,
                modification_id,
                "modification_reject_denied",
                GovernError::NotPending,
                LogLevel::Warning,
                None,
                now,
            );
            return Err(GovernError::NotPending);
        }
        let mut updated = self.requests[i].clone();
        let tier = updated.risk_level;
        updated.status = ModificationStatus::Rejected;
        updated.rejection_reason = Some(reason);
        self.requests.set(i, updated);
        log_transition(
            log,
            modification_id,
            "modification_rejected",
            ModificationStatus::Pending,
            ModificationStatus::Rejected,
            tier,
            None,
            now,
        );
        Ok(())
    }

    /// Marks an approved request as applied, under the same
    /// authorization (as the anonymous global identity); a request in
    /// any other status fails with `NotApproved`. The transition only
    /// records that application happened — performing the change is a
    /// collaborator's business. Every attempt is recorded in the audit
    /// log.
    pub fn apply_modification(&mut self, log: &mut AuditLogger, modification_id: u64, admin_code: &str, now: u64) -> (r: Result<(), GovernError>)
        requires
            old(self).wf(),
            old(log).wf(),
        ensures
            final(self).wf(),
            final(self).security_rules == old(self).security_rules,
            final(self).settings == old(self).settings,
            final(self).last_submit_ts == old(self).last_submit_ts,
            spec_guard_step(
                old(self).guard,
                final(self).guard,
                "global"@,
                admin_code.spec_bytes(),
                now,
            ),
            spec_logged(*old(log), *final(log), now),
            ({
                let out = spec_outcome(old(self).guard, "global"@, admin_code.spec_bytes(), now);
                let reqs = old(self).requests@;
                let i = modification_id as int;
                let e = final(log).all_entries().last();
                &&& (out matches VerifyOutcome::LockedOut { until: _ } ==> r == Err::<(), GovernError>(
                    GovernError::LockedOut,
                ))
                &&& (out matches VerifyOutcome::WrongSecret { failures: _ } ==> r == Err::<(), GovernError>(
                    GovernError::Unauthorized,
                ))
                &&& (out is Authorized ==> {
                    &&& (modification_id >= reqs.len() ==> r == Err::<(), GovernError>(
                        GovernError::NotFound,
                    ))
                    &&& (modification_id < reqs.len() && reqs[i].status
                        != ModificationStatus::Approved ==> r == Err::<(), GovernError>(
                        GovernError::NotApproved,
                    ))
                    &&& (modification_id < reqs.len() && reqs[i].status
                        == ModificationStatus::Approved ==> r == Ok::<(), GovernError>(()))
                })
                &&& (r is Err ==> ({
                    &&& final(self).requests == old(self).requests
                    &&& e.action@ == "modification_apply_denied"@
                    &&& e.description@ == r->Err_0.spec_tag()
                    &&& e.level == (if out is Authorized {
                        LogLevel::Warning
                    } else {
                        LogLevel::Security
                    })
                    &&& e.metadata@.len() == 2
                    &&& e.metadata@[1].0@ == "reason"@ && e.metadata@[1].1@
                        == r->Err_0.spec_tag()
                }))
                &&& (r is Ok ==> ({
                    &&& final(self).requests@ == reqs.update(i, final(self).requests@[i])
                    &&& apply_updates(reqs[i], final(self).requests@[i], now)
                    &&& e.action@ == "modification_applied"@
                    &&& e.level == LogLevel::Security
                    &&& e.user_id == final(self).requests@[i].approved_by
                }))
            }),
    {
        let v = self.guard.verify("global", admin_code, now);
        let denial = match v {
            VerifyOutcome::Authorized => None,
            VerifyOutcome::WrongSecret { failures: _ } => Some(GovernError::Unauthorized),
            VerifyOutcome::LockedOut { until: _ } => Some(GovernError::LockedOut),
        };
        if let Some(err) = denial {
            log_denied(
                log,
                modification_id,
                "modification_apply_denied",
                err,
                LogLevel::Security,
                None,
                now,
            );
            return Err(err);
        }
        if modification_id >= self.requests.len() as u64 {
            log_denied(
                log,
                modification_id,
                "modification_apply_denied",
                GovernError::NotFound,
                LogLevel::Warning,
                None,
                now,
            );
            return Err(GovernError::NotFound);
        }
        let i = modification_id as usize;
        let approved = match self.requests[i].status {
            ModificationStatus::Pending => false,
            ModificationStatus::Approved => true,
            ModificationStatus::Rejected => false,
            ModificationStatus::Applied => false,
        };
        if !approved {
            log_denied(
                log,
                modification_id,
                "modification_apply_denied",
                GovernError::NotApproved,
                LogLevel::Warning,
                None,
                now,
            );
            return Err(GovernError::NotApproved);
        }
        let mut updated = self.requests[i].clone();
        let tier = updated.risk_level;
        updated.status = ModificationStatus::Applied;
        updated.applied_timestamp = Some(now);
        let actor = clone_opt(&updated.approved_by);
        self.requests.set(i, updated);
        log_transition(
            log,
            modification_id,
            "modification_applied",
            ModificationStatus::Approved,
            ModificationStatus::Applied,
            tier,
            actor,
            now,
        );
        Ok(())
    }

    /// Read-only lookup of one request by id.
    pub fn get_modification(&self, modification_id: u64) -> (r: Result<
        &CodeModificationRequest,
        GovernError,
    >)
        ensures
            modification_id < self.requests@.len() ==> (r matches Ok(q) && *q
                == self.requests@[modification_id as int]),
            modification_id >= self.requests@.len() ==> (r matches Err(e) && e
                == GovernError::NotFound),
    {
        if modification_id < self.requests.len() as u64 {
            Ok(&self.requests[modification_id as usize])
        } else {
            Err(GovernError::NotFound)
        }
    }
}

/// The pending requests of a sequence, in submission order.
pub open spec fn pending_of(s: Seq<CodeModificationRequest>) -> Seq<CodeModificationRequest>
    decreases s.len(),
{
    if s.len() == 0 {
        Seq::empty()
    } else if s.last().status == ModificationStatus::Pending {
        pending_of(s.drop_last()).push(s.last())
    } else {
        pending_of(s.drop_last())
    }
}

impl SecurityManager {
    /// The requests still awaiting a decision, in submission order;
    /// never fails.
    pub fn get_pending_modifications(&self) -> (r: Vec<CodeModificationRequest>)
        ensures
            r@ == pending_of(self.requests@),
    {
        let n = self.requests.len();
        let mut out: Vec<CodeModificationRequest> = Vec::new();
        let mut i: usize = 0;
        while i < n
            invariant
                i <= n,
                n == self.requests@.len(),
                out@ == pending_of(self.requests@.take(i as int)),
            decreases n - i,
        {
            let ghost pre = self.requests@.take(i as int);
            let is_pending = match self.requests[i].status {
                ModificationStatus::Pending => true,
                ModificationStatus::Approved => false,
                ModificationStatus::Rejected => false,
                ModificationStatus::Applied => false,
            };
            if is_pending {
                out.push(self.requests[i].clone());
            }
            proof {
                assert(self.requests@.take(i + 1).drop_last() =~= pre);
                assert(self.requests@.take(i + 1).last() == self.requests@[i as int]);
            }
            i += 1;
        }
        proof {
            assert(self.requests@.take(n as int) =~= self.requests@);
        }
        out
    }

    /// The full history, newest submission first — creation timestamps
    /// being clamped at submission, that is also timestamp order
    /// descending; never fails.
    pub fn get_modification_history(&self) -> (r: Vec<CodeModificationRequest>)
        requires
            self.wf(),
        ensures
            r@.len() == self.requests@.len(),
            forall|k: int|
                0 <= k < r@.len() ==> r@[k] == self.requests@[self.requests@.len() - 1 - k],
            forall|p: int, q: int| 0 <= p <= q < r@.len() ==> r@[p].timestamp >= r@[q].timestamp,
    {
        let n = self.requests.len();
        let mut out: Vec<CodeModificationRequest> = Vec::new();
        let mut i: usize = n;
        while i > 0
            invariant
                i <= n,
                n == self.requests@.len(),
                out@.len() == n - i,
                forall|k: int| 0 <= k < out@.len() ==> out@[k] == self.requests@[n - 1 - k],
            decreases i,
        {
            i = i - 1;
            out.push(self.requests[i].clone());
        }
        out
    }

    /// Replaces the stored admin secret digest, gated by the current
    /// secret through the guard (as the anonymous global identity):
    /// lockout and failure counting apply to bad attempts exactly as
    /// in verification.
    pub fn update_admin_code(&mut self, old_code: &str, new_code: &str, now: u64) -> (r: Result<
        (),
        GovernError,
    >)
        requires
            old(self).wf(),
        ensures
            final(self).wf(),
            final(self).requests == old(self).requests,
            final(self).security_rules == old(self).security_rules,
            final(self).settings == old(self).settings,
            final(self).last_submit_ts == old(self).last_submit_ts,
            final(self).guard.max_failed_attempts == old(self).guard.max_failed_attempts,
            final(self).guard.lockout_duration_ms == old(self).guard.lockout_duration_ms,
            ({
                let out = spec_outcome(old(self).guard, "global"@, old_code.spec_bytes(), now);
                &&& (out matches VerifyOutcome::LockedOut { until: _ } ==> r == Err::<(), GovernError>(
                    GovernError::LockedOut,
                ))
                &&& (out matches VerifyOutcome::WrongSecret { failures: _ } ==> r == Err::<(), GovernError>(
                    GovernError::Unauthorized,
                ))
                &&& (!(out is Authorized) ==> spec_guard_step(
                    old(self).guard,
                    final(self).guard,
                    "global"@,
                    old_code.spec_bytes(),
                    now,
                ))
                &&& (out is Authorized ==> r == Ok::<(), GovernError>(())
                    && final(self).guard.secret_digest@ == sha256_of(new_code.spec_bytes()))
            }),
    {
        let v = self.guard.verify("global", old_code, now);
        match v {
            VerifyOutcome::Authorized => {
                self.guard.secret_digest = digest_secret(new_code);
                Ok(())
            },
            VerifyOutcome::WrongSecret { failures: _ } => Err(GovernError::Unauthorized),
            VerifyOutcome::LockedOut { until: _ } => Err(GovernError::LockedOut),
        }
    }
}

} // verus!
