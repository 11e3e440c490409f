//! Admin authentication: a digest of the admin secret is stored, a
//! presented secret is digested and compared in constant time, and every
//! identity that keeps failing is locked out for a configured while.

use vstd::prelude::*;
use crate::text::str_eq;
use vstd::pervasive::VecAdditionalExecFns;
use vstd::string::StringSliceAdditionalSpecFns;

verus! {

/// The SHA-256 digest of a byte sequence. The digest is a function of
/// the bytes alone; what it is on given bytes is not stated here.
pub uninterp spec fn sha256_of(data: Seq<u8>) -> Seq<u8>;

/// Relies on `sha2::Sha256::digest`: the digest depends on the input
/// bytes alone, and is 32 bytes long.
#[verifier::external_body]
fn sha256_bytes(data: &[u8]) -> (r: Vec<u8>)
    ensures
        r@ == sha256_of(data@),
        r@.len() == 32,
{
    let out = <sha2::Sha256 as sha2::Digest>::digest(data);
    out.as_slice().to_vec()
}

/// Digests a secret so it can be stored, or compared against a stored
/// digest.
pub fn digest_secret(code: &str) -> (r: Vec<u8>)
    ensures
        r@ == sha256_of(code.spec_bytes()),
        r@.len() == 32,
{
    sha256_bytes(code.as_bytes())
}

/// Byte-wise equality that runs in time independent of where the first
/// difference lies: the difference of every byte pair is folded into one
/// accumulator and tested once at the end.
pub fn ct_eq(a: &[u8], b: &[u8]) -> (r: bool)
    ensures
        r == (a@ == b@),
{
    if a.len() != b.len() {
        return false;
    }
    let n = a.len();
    let mut diff: u8 = 0;
    let mut i: usize = 0;
    while i < n
        invariant
            i <= n,
            n == a@.len(),
            n == b@.len(),
            (diff == 0) <==> (forall|j: int| 0 <= j < i ==> a@[j] == b@[j]),
        decreases n - i,
    {
        let x = a[i];
        let y = b[i];
        let d = x ^ y;
        proof {
            assert((x ^ y == 0) == (x == y)) by (bit_vector);
            assert(((diff | d) == 0) == (diff == 0 && d == 0)) by (bit_vector);
        }
        diff = diff | d;
        i += 1;
    }
    if diff == 0 {
        proof {
            assert(a@ =~= b@);
        }
        true
    } else {
        false
    }
}

/// Configuration of the security subsystem.
pub struct SecuritySettings {
    pub require_admin_approval: bool,
    pub max_failed_attempts: u32,
    pub lockout_duration_minutes: u32,
    pub enable_audit_logging: bool,
    pub emergency_stop_enabled: bool,
    pub code_modification_enabled: bool,
    pub allowed_modification_types: Vec<String>,
}

impl SecuritySettings {
    /// The settings are usable by the guard: at least one failure must
    /// be allowed before lockout.
    pub open spec fn wf(self) -> bool {
        self.max_failed_attempts >= 1
    }

    /// The lockout window in milliseconds.
    pub fn lockout_duration_ms(&self) -> (r: u64)
        ensures
            r == self.spec_lockout_duration_ms(),
    {
        (self.lockout_duration_minutes as u64) * 60000
    }

    pub open spec fn spec_lockout_duration_ms(self) -> u64 {
        (self.lockout_duration_minutes * 60000) as u64
    }
}

impl Default for SecuritySettings {
    /// Defaults: approval required, five failures allowed, half an hour
    /// of lockout, auditing on, emergency stop armed, code modification
    /// off, and only cosmetic modification kinds allowed.
    fn default() -> (r: SecuritySettings)
        ensures
            r.wf(),
            r.require_admin_approval,
            r.max_failed_attempts == 5,
            r.lockout_duration_minutes == 30,
            r.enable_audit_logging,
            r.emergency_stop_enabled,
            !r.code_modification_enabled,
            r.allowed_modification_types@.len() == 2,
    {
        let mut kinds: Vec<String> = Vec::new();
        kinds.push(String::from_str("ui_changes"));
        kinds.push(String::from_str("configuration_updates"));
        SecuritySettings {
            require_admin_approval: true,
            max_failed_attempts: 5,
            lockout_duration_minutes: 30,
            enable_audit_logging: true,
            emergency_stop_enabled: true,
            code_modification_enabled: false,
            allowed_modification_types: kinds,
        }
    }
}

/// Consecutive-failure state for one caller identity.
pub struct AttemptRecord {
    pub identity: String,
    pub failures: u32,
    pub lockout_until: Option<u64>,
}

/// There is a record for this identity.
pub open spec fn has_rec(s: Seq<AttemptRecord>, id: Seq<char>) -> bool {
    exists|i: int| 0 <= i < s.len() && s[i].identity@ == id
}

/// The record for this identity (identities are unique in a
/// well-formed guard).
pub open spec fn rec_of(s: Seq<AttemptRecord>, id: Seq<char>) -> AttemptRecord
    recommends
        has_rec(s, id),
{
    s[choose|i: int| 0 <= i < s.len() && s[i].identity@ == id]
}

/// The consecutive-failure count of an identity; an absent record
/// counts as zero.
pub open spec fn failures_of(s: Seq<AttemptRecord>, id: Seq<char>) -> u32 {
    if has_rec(s, id) {
        rec_of(s, id).failures
    } else {
        0
    }
}

/// The lockout expiry of an identity, if one is set.
pub open spec fn lockout_of(s: Seq<AttemptRecord>, id: Seq<char>) -> Option<u64> {
    if has_rec(s, id) {
        rec_of(s, id).lockout_until
    } else {
        None
    }
}

/// The identity is locked out at time `now`: a lockout expiry is set
/// and has not yet passed.
pub open spec fn locked_at(s: Seq<AttemptRecord>, id: Seq<char>, now: u64) -> bool {
    match lockout_of(s, id) {
        Some(t) => now < t,
        None => false,
    }
}

/// No two records carry the same identity.
pub open spec fn unique_ids(s: Seq<AttemptRecord>) -> bool {
    forall|i: int, j: int|
        0 <= i < j < s.len() ==> s[i].identity@ != s[j].identity@
}

/// Outcome of one authentication attempt.
#[derive(Clone, Copy, Debug, PartialEq, Eq, Structural)]
pub enum VerifyOutcome {
    /// The secret matched and the identity was not locked out.
    Authorized,
    /// The secret did not match; `failures` is the new consecutive
    /// count.
    WrongSecret { failures: u32 },
    /// The identity is locked out until the given time, whether or not
    /// the secret was right.
    LockedOut { until: u64 },
}

impl VerifyOutcome {
    pub open spec fn is_authorized(self) -> bool {
        self == VerifyOutcome::Authorized
    }
}

/// Saturating increment of a failure count.
pub open spec fn spec_inc_failures(f: u32) -> u32 {
    if f == u32::MAX {
        u32::MAX
    } else {
        (f + 1) as u32
    }
}

/// Saturating addition of a duration to a time.
pub open spec fn spec_deadline(now: u64, dur: u64) -> u64 {
    if now + dur > u64::MAX {
        u64::MAX
    } else {
        (now + dur) as u64
    }
}

/// The outcome one authentication attempt must have: denial while a
/// lockout is in force, whatever the secret; authorization on a match;
/// otherwise a counted failure, locking the identity out when the
/// count reaches the configured maximum.
pub open spec fn spec_outcome(g: AuthGuard, id: Seq<char>, code_bytes: Seq<u8>, now: u64) -> VerifyOutcome {
    if locked_at(g.attempts@, id, now) {
        VerifyOutcome::LockedOut { until: lockout_of(g.attempts@, id)->Some_0 }
    } else if g.secret_matches(code_bytes) {
        VerifyOutcome::Authorized
    } else {
        let nf = spec_inc_failures(failures_of(g.attempts@, id));
        if nf >= g.max_failed_attempts {
            VerifyOutcome::LockedOut { until: spec_deadline(now, g.lockout_duration_ms) }
        } else {
            VerifyOutcome::WrongSecret { failures: nf }
        }
    }
}

/// How one authentication attempt moves the guard: configuration and
/// every other identity's record stand still; the attempting identity's
/// record is cleared on success, frozen while locked out, and counted
/// up on a mismatch, gaining a lockout expiry when the count reaches
/// the maximum.
pub open spec fn spec_guard_step(o: AuthGuard, n: AuthGuard, id: Seq<char>, code_bytes: Seq<u8>, now: u64) -> bool {
    &&& n.wf()
    &&& n.secret_digest == o.secret_digest
    &&& n.max_failed_attempts == o.max_failed_attempts
    &&& n.lockout_duration_ms == o.lockout_duration_ms
    &&& forall|id2: Seq<char>|
        id2 != id ==> failures_of(n.attempts@, id2) == failures_of(o.attempts@, id2) && lockout_of(
            n.attempts@,
            id2,
        ) == lockout_of(o.attempts@, id2)
    &&& (locked_at(o.attempts@, id, now) ==> n == o)
    &&& (!locked_at(o.attempts@, id, now) && o.secret_matches(code_bytes) ==> failures_of(
        n.attempts@,
        id,
    ) == 0 && lockout_of(n.attempts@, id) is None)
    &&& (!locked_at(o.attempts@, id, now) && !o.secret_matches(code_bytes) ==> ({
        let nf = spec_inc_failures(failures_of(o.attempts@, id));
        &&& failures_of(n.attempts@, id) == nf
        &&& (nf >= o.max_failed_attempts ==> lockout_of(n.attempts@, id) == Some(
            spec_deadline(now, o.lockout_duration_ms),
        ))
        &&& (nf < o.max_failed_attempts ==> lockout_of(n.attempts@, id) is None)
    }))
}

/// Verifies presented secrets against a stored digest and enforces a
/// per-identity failed-attempt lockout.
pub struct AuthGuard {
    pub secret_digest: Vec<u8>,
    pub max_failed_attempts: u32,
    pub lockout_duration_ms: u64,
    pub attempts: Vec<AttemptRecord>,
}

impl AuthGuard {
    pub open spec fn wf(self) -> bool {
        &&& self.max_failed_attempts >= 1
        &&& unique_ids(self.attempts@)
    }

    /// The presented secret's digest equals the stored digest.
    pub open spec fn secret_matches(self, code_bytes: Seq<u8>) -> bool {
        self.secret_digest@ == sha256_of(code_bytes)
    }

    pub fn new(secret_digest: Vec<u8>, max_failed_attempts: u32, lockout_duration_ms: u64) -> (r:
        AuthGuard)
        requires
            max_failed_attempts >= 1,
        ensures
            r.wf(),
            r.secret_digest == secret_digest,
            r.max_failed_attempts == max_failed_attempts,
            r.lockout_duration_ms == lockout_duration_ms,
            r.attempts@.len() == 0,
    {
        AuthGuard { secret_digest, max_failed_attempts, lockout_duration_ms, attempts: Vec::new() }
    }

    /// Index of the record for this identity, if there is one.
    fn find_index(&self, identity: &str) -> (r: Option<usize>)
        ensures
            match r {
                Some(i) => i < self.attempts@.len() && self.attempts@[i as int].identity@
                    == identity@,
                None => !has_rec(self.attempts@, identity@),
            },
    {
        let n = self.attempts.len();
        let mut i: usize = 0;
        while i < n
            invariant
                i <= n,
                n == self.attempts@.len(),
                forall|j: int| 0 <= j < i ==> self.attempts@[j].identity@ != identity@,
            decreases n - i,
        {
            if str_eq(self.attempts[i].identity.as_str(), identity) {
                return Some(i);
            }
            i += 1;
        }
        None
    }

    /// One authentication attempt by `identity` with secret `code` at
    /// time `now`.
    ///
    /// While a lockout is in force the attempt is denied and nothing
    /// changes, whatever the secret. Otherwise a matching secret clears
    /// the identity's record and authorizes; a mismatch increments its
    /// failure count, and the attempt that reaches the configured
    /// maximum sets a lockout expiring one lockout duration after `now`.
    pub fn verify(&mut self, identity: &str, code: &str, now: u64) -> (r: VerifyOutcome)
        requires
            old(self).wf(),
        ensures
            r == spec_outcome(*old(self), identity@, code.spec_bytes(), now),
            spec_guard_step(*old(self), *final(self), identity@, code.spec_bytes(), now),
    {
        let idx = self.find_index(identity);
        proof {
            if idx is Some {
                lemma_rec_at(self.attempts@, identity@, idx->Some_0 as int);
            }
        }
        let locked = match idx {
            Some(i) => {
                match self.attempts[i].lockout_until {
                    Some(t) => now < t,
                    None => false,
                }
            },
            None => false,
        };
        if locked {
            let i = idx.unwrap();
            let until = match self.attempts[i].lockout_until {
                Some(t) => t,
                None => 0,
            };
            return VerifyOutcome::LockedOut { until };
        }
        let presented = digest_secret(code);
        let ok = ct_eq(presented.as_slice(), self.secret_digest.as_slice());
        if ok {
            match idx {
                Some(i) => {
                    let ghost old_seq = self.attempts@;
                    let cleared = AttemptRecord {
                        identity: self.attempts[i].identity.clone(),
                        failures: 0,
                        lockout_until: None,
                    };
                    self.attempts.set(i, cleared);
                    proof {
                        lemma_update_same_identity(old_seq, i as int, self.attempts@, identity@);
                    }
                },
                None => {},
            }
            VerifyOutcome::Authorized
        } else {
            let prior = match idx {
                Some(i) => self.attempts[i].failures,
                None => 0,
            };
            let nf = if prior == u32::MAX {
                u32::MAX
            } else {
                prior + 1
            };
            let lock_now = nf >= self.max_failed_attempts;
            let until = if now > u64::MAX - self.lockout_duration_ms {
                u64::MAX
            } else {
                now + self.lockout_duration_ms
            };
            let new_lockout = if lock_now {
                Some(until)
            } else {
                None
            };
            match idx {
                Some(i) => {
                    let ghost old_seq = self.attempts@;
                    let bumped = AttemptRecord {
                        identity: self.attempts[i].identity.clone(),
                        failures: nf,
                        lockout_until: new_lockout,
                    };
                    self.attempts.set(i, bumped);
                    proof {
                        lemma_update_same_identity(old_seq, i as int, self.attempts@, identity@);
                    }
                },
                None => {
                    let ghost old_seq = self.attempts@;
                    let fresh = AttemptRecord {
                        identity: identity_to_string(identity),
                        failures: nf,
                        lockout_until: new_lockout,
                    };
                    self.attempts.push(fresh);
                    proof {
                        lemma_push_new_identity(old_seq, self.attempts@, identity@);
                    }
                },
            }
            if lock_now {
                VerifyOutcome::LockedOut { until }
            } else {
                VerifyOutcome::WrongSecret { failures: nf }
            }
        }
    }
}

/// Copies an identity into an owned string.
fn identity_to_string(identity: &str) -> (r: String)
    ensures
        r@ == identity@,
{
    String::from_str(identity)
}

/// In a sequence with unique identities, the record found at a matching
/// index is the record of that identity.
proof fn lemma_rec_at(s: Seq<AttemptRecord>, id: Seq<char>, i: int)
    requires
        unique_ids(s),
        0 <= i < s.len(),
        s[i].identity@ == id,
    ensures
        has_rec(s, id),
        rec_of(s, id) == s[i],
{
    assert(has_rec(s, id));
    let j = choose|j: int| 0 <= j < s.len() && s[j].identity@ == id;
    if i != j {
        assert(s[i].identity@ != s[j].identity@);
    }
}

/// Updating the record at an identity's index changes only that
/// identity's record.
proof fn lemma_update_same_identity(s: Seq<AttemptRecord>, i: int, s2: Seq<AttemptRecord>, id: Seq<
    char,
>)
    requires
        unique_ids(s),
        0 <= i < s.len(),
        s[i].identity@ == id,
        s2 == s.update(i, s2[i]),
        s2[i].identity@ == id,
    ensures
        unique_ids(s2),
        has_rec(s2, id),
        rec_of(s2, id) == s2[i],
        forall|id2: Seq<char>|
            id2 != id ==> failures_of(s2, id2) == failures_of(s, id2) && lockout_of(s2, id2)
                == lockout_of(s, id2),
{
    assert forall|p: int, q: int| 0 <= p < q < s2.len() implies s2[p].identity@
        != s2[q].identity@ by {
        assert(s2[p] == if p == i {
            s2[i]
        } else {
            s[p]
        });
        assert(s2[q] == if q == i {
            s2[i]
        } else {
            s[q]
        });
        assert(s[p].identity@ != s[q].identity@);
    }
    lemma_rec_at(s2, id, i);
    assert forall|id2: Seq<char>| id2 != id implies failures_of(s2, id2) == failures_of(s, id2)
        && lockout_of(s2, id2) == lockout_of(s, id2) by {
        if has_rec(s, id2) {
            let k = choose|k: int| 0 <= k < s.len() && s[k].identity@ == id2;
            assert(k != i);
            assert(s2[k] == s[k]);
            lemma_rec_at(s, id2, k);
            lemma_rec_at(s2, id2, k);
        } else {
            assert forall|k: int| 0 <= k < s2.len() implies s2[k].identity@ != id2 by {
                assert(s2[k] == if k == i {
                    s2[i]
                } else {
                    s[k]
                });
            }
            assert(!has_rec(s2, id2));
        }
    }
}

/// Appending a record for an identity that had none changes only that
/// identity's record.
proof fn lemma_push_new_identity(s: Seq<AttemptRecord>, s2: Seq<AttemptRecord>, id: Seq<char>)
    requires
        unique_ids(s),
        !has_rec(s, id),
        s2 == s.push(s2.last()),
        s2.last().identity@ == id,
    ensures
        unique_ids(s2),
        has_rec(s2, id),
        rec_of(s2, id) == s2.last(),
        forall|id2: Seq<char>|
            id2 != id ==> failures_of(s2, id2) == failures_of(s, id2) && lockout_of(s2, id2)
                == lockout_of(s, id2),
{
    let n = s.len() as int;
    assert forall|p: int, q: int| 0 <= p < q < s2.len() implies s2[p].identity@
        != s2[q].identity@ by {
        if q < n {
            assert(s2[p] == s[p]);
            assert(s2[q] == s[q]);
        } else {
            assert(s2[p] == s[p]);
            assert(s2[q] == s2.last());
            assert(s[p].identity@ != id);
        }
    }
    lemma_rec_at(s2, id, n);
    assert forall|id2: Seq<char>| id2 != id implies failures_of(s2, id2) == failures_of(s, id2)
        && lockout_of(s2, id2) == lockout_of(s, id2) by {
        if has_rec(s, id2) {
            let k = choose|k: int| 0 <= k < s.len() && s[k].identity@ == id2;
            assert(s2[k] == s[k]);
            lemma_rec_at(s, id2, k);
            lemma_rec_at(s2, id2, k);
        } else {
            assert forall|k: int| 0 <= k < s2.len() implies s2[k].identity@ != id2 by {
                if k < n {
                    assert(s2[k] == s[k]);
                } else {
                    assert(s2[k] == s2.last());
                }
            }
            assert(!has_rec(s2, id2));
        }
    }
}


/// While a lockout is in force, every attempt is denied — a correct
/// secret included, so a delayed successful guess cannot cut a lockout
/// short.
pub proof fn lemma_lockout_denies_all(g: AuthGuard, id: Seq<char>, code_bytes: Seq<u8>, now: u64)
    requires
        locked_at(g.attempts@, id, now),
    ensures
        spec_outcome(g, id, code_bytes, now) == (VerifyOutcome::LockedOut {
            until: lockout_of(g.attempts@, id)->Some_0,
        }),
{
}

/// The mismatch that brings an identity's consecutive-failure count to
/// the configured maximum locks the identity out for one lockout
/// duration from that moment.
pub proof fn lemma_lockout_engages(g: AuthGuard, id: Seq<char>, code_bytes: Seq<u8>, now: u64)
    requires
        !locked_at(g.attempts@, id, now),
        !g.secret_matches(code_bytes),
        spec_inc_failures(failures_of(g.attempts@, id)) >= g.max_failed_attempts,
    ensures
        spec_outcome(g, id, code_bytes, now) == (VerifyOutcome::LockedOut {
            until: spec_deadline(now, g.lockout_duration_ms),
        }),
{
}

/// Once the lockout window has elapsed, a correct secret authorizes
/// again, and the step that authorizes clears the identity's record.
pub proof fn lemma_lockout_expires(g: AuthGuard, g2: AuthGuard, id: Seq<char>, code_bytes: Seq<u8>, now: u64)
    requires
        lockout_of(g.attempts@, id) matches Some(t) && now >= t,
        g.secret_matches(code_bytes),
        spec_guard_step(g, g2, id, code_bytes, now),
    ensures
        spec_outcome(g, id, code_bytes, now) == VerifyOutcome::Authorized,
        failures_of(g2.attempts@, id) == 0,
        lockout_of(g2.attempts@, id) is None,
{
}


/// Five consecutive wrong secrets for one identity, starting from a
/// clean record under a five-failure policy, leave it locked out: the
/// first four attempts only raise the count, the fifth sets a lockout
/// one duration past its time, and until that expiry every further
/// attempt is denied — one with the correct secret included.
pub proof fn lemma_five_failures_lock_out(gs: Seq<AuthGuard>, id: Seq<char>, codes: Seq<Seq<u8>>, times: Seq<u64>, correct: Seq<u8>, t6: u64)
    requires
        gs.len() == 6,
        codes.len() == 5,
        times.len() == 5,
        gs[0].max_failed_attempts == 5,
        failures_of(gs[0].attempts@, id) == 0,
        lockout_of(gs[0].attempts@, id) is None,
        forall|k: int|
            0 <= k < 5 ==> spec_guard_step(gs[k], gs[k + 1], id, codes[k], #[trigger] times[k]),
        forall|k: int| 0 <= k < 5 ==> !gs[k].secret_matches(#[trigger] codes[k]),
        t6 < spec_deadline(times[4], gs[0].lockout_duration_ms),
    ensures
        spec_outcome(gs[5], id, correct, t6) == (VerifyOutcome::LockedOut {
            until: spec_deadline(times[4], gs[0].lockout_duration_ms),
        }),
{
    lemma_failures_accumulate(gs, id, codes, times, 4);
    assert(failures_of(gs[4].attempts@, id) == 4);
    assert(lockout_of(gs[4].attempts@, id) is None);
    assert(spec_guard_step(gs[4], gs[5], id, codes[4], times[4]));
    assert(!locked_at(gs[4].attempts@, id, times[4]));
    assert(spec_inc_failures(failures_of(gs[4].attempts@, id)) == 5);
    assert(lockout_of(gs[5].attempts@, id) == Some(
        spec_deadline(times[4], gs[0].lockout_duration_ms),
    ));
    assert(locked_at(gs[5].attempts@, id, t6));
}

/// After `k` wrong secrets short of the five-failure policy, the
/// identity's count is `k`, with no lockout yet and the guard's
/// configuration untouched.
proof fn lemma_failures_accumulate(gs: Seq<AuthGuard>, id: Seq<char>, codes: Seq<Seq<u8>>, times: Seq<u64>, k: int)
    requires
        gs.len() == 6,
        codes.len() == 5,
        times.len() == 5,
        gs[0].max_failed_attempts == 5,
        failures_of(gs[0].attempts@, id) == 0,
        lockout_of(gs[0].attempts@, id) is None,
        forall|j: int|
            0 <= j < 5 ==> spec_guard_step(gs[j], gs[j + 1], id, codes[j], #[trigger] times[j]),
        forall|j: int| 0 <= j < 5 ==> !gs[j].secret_matches(#[trigger] codes[j]),
        0 <= k <= 4,
    ensures
        failures_of(gs[k].attempts@, id) == k,
        lockout_of(gs[k].attempts@, id) is None,
        gs[k].max_failed_attempts == 5,
        gs[k].lockout_duration_ms == gs[0].lockout_duration_ms,
    decreases k,
{
    if k > 0 {
        lemma_failures_accumulate(gs, id, codes, times, k - 1);
        assert(spec_guard_step(gs[k - 1], gs[k], id, codes[k - 1], times[k - 1]));
        assert(!locked_at(gs[k - 1].attempts@, id, times[k - 1]));
        assert(spec_inc_failures(failures_of(gs[k - 1].attempts@, id)) == k);
    }
}

} // verus!
