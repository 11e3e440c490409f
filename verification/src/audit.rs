//! The audit log store: an append-only, size-rotated, age-pruned log
//! of structured security events. The store owns the authoritative
//! sequence of entries — the active segment and the archived segments —
//! and emits an ordered queue of storage effects (write this record
//! line, rename the active file to this archive, delete this archive)
//! for a thin durability layer to apply.

use vstd::prelude::*;
use crate::record::AuditLogEntry;
use crate::record::encode_record;
use crate::record::same_entry;
use crate::record::spec_record;
use crate::text::contains_seq;
use crate::text::contains_substring;
use crate::text::spec_dec;
use crate::text::lex_lt;
use crate::text::spec_dec_padded;
use crate::text::u64_to_string;
use crate::text::u64_to_padded_string;
use crate::tier::LogLevel;

verus! {

/// One archived segment of the log: the records it holds, the sortable
/// name it was archived under, and when it was rotated out.
pub struct LogArchive {
    pub name: String,
    pub rotated_at: u64,
    pub entries: Vec<AuditLogEntry>,
    pub size: u64,
}

/// A storage action the durability layer around the library must
/// apply, in queue order, to keep the on-disk log equal to the store.
pub enum LogEffect {
    /// Append this already-encoded record line to the active file.
    AppendRecord { line: String },
    /// Rename the active file to this archive name and open a fresh
    /// active file.
    RotateTo { archive_name: String },
    /// Delete this archived file.
    Remove { archive_name: String },
}

/// The records held by a sequence of archives, oldest archive first.
pub open spec fn entries_of_archives(archs: Seq<LogArchive>) -> Seq<AuditLogEntry>
    decreases archs.len(),
{
    if archs.len() == 0 {
        Seq::empty()
    } else {
        entries_of_archives(archs.drop_last()) + archs.last().entries@
    }
}

/// Timestamps never decrease along the sequence.
pub open spec fn ts_monotone(s: Seq<AuditLogEntry>) -> bool {
    forall|i: int, j: int| 0 <= i <= j < s.len() ==> s[i].timestamp <= s[j].timestamp
}

/// Every timestamp in the sequence is at most `bound`.
pub open spec fn ts_bounded(s: Seq<AuditLogEntry>, bound: u64) -> bool {
    forall|i: int| 0 <= i < s.len() ==> s[i].timestamp <= bound
}

/// The sortable archive name for a rotation at `ms` that produced the
/// `seq`-th archive: zero-padded decimal fields order the names as the
/// rotations happened.
pub open spec fn spec_archive_name(ms: int, seq: int) -> Seq<char> {
    "audit-"@ + spec_dec_padded(ms) + "-"@ + spec_dec_padded(seq) + ".log"@
}

/// The length of an entry's encoded record, in characters. Segment
/// sizes and the rotation threshold are measured in this unit; record
/// content is almost always ASCII, where it coincides with bytes.
pub open spec fn record_size(e: AuditLogEntry) -> int {
    spec_record(e).len() as int
}

/// Saturating addition.
pub open spec fn sat_add_u64(a: u64, b: int) -> u64 {
    if a + b > u64::MAX {
        u64::MAX
    } else {
        (a + b) as u64
    }
}

/// The greater of a proposed timestamp and the last one recorded: the
/// store clamps timestamps so that append order and timestamp order
/// agree.
pub open spec fn spec_clamp(now: u64, last: u64) -> u64 {
    if now >= last {
        now
    } else {
        last
    }
}

/// Append-only durable log of structured events; rotates by size,
/// prunes by age.
pub struct AuditLogger {
    /// Id the next entry will carry.
    pub next_id: u64,
    /// Timestamp of the newest record; appends are clamped to it.
    pub last_timestamp: u64,
    /// Records of the active segment, oldest first.
    pub active: Vec<AuditLogEntry>,
    /// Size of the active segment: the total character count of its records.
    pub active_size: u64,
    /// Rotated-out segments, oldest first.
    pub archives: Vec<LogArchive>,
    /// Size at or above which the active segment rotates, in record characters.
    pub max_log_size: u64,
    /// Age beyond which an archived segment is pruned.
    pub retention_ms: u64,
    /// Storage actions not yet applied by the durability layer.
    pub effects: Vec<LogEffect>,
}

impl AuditLogger {
    /// Every record the store holds, oldest first: the archives'
    /// records, then the active segment's.
    pub open spec fn all_entries(self) -> Seq<AuditLogEntry> {
        entries_of_archives(self.archives@) + self.active@
    }

    pub open spec fn wf(self) -> bool {
        &&& self.max_log_size >= 1
        &&& ts_monotone(self.all_entries())
        &&& ts_bounded(self.all_entries(), self.last_timestamp)
    }

    /// A fresh store with the given rotation threshold and retention
    /// window.
    pub fn with_limits(max_log_size: u64, retention_ms: u64) -> (r: AuditLogger)
        requires
            max_log_size >= 1,
        ensures
            r.wf(),
            r.next_id == 0,
            r.last_timestamp == 0,
            r.active@.len() == 0,
            r.active_size == 0,
            r.archives@.len() == 0,
            r.max_log_size == max_log_size,
            r.retention_ms == retention_ms,
            r.effects@.len() == 0,
            r.all_entries().len() == 0,
    {
        let r = AuditLogger {
            next_id: 0,
            last_timestamp: 0,
            active: Vec::new(),
            active_size: 0,
            archives: Vec::new(),
            max_log_size,
            retention_ms,
            effects: Vec::new(),
        };
        proof {
            assert(r.all_entries() =~= Seq::<AuditLogEntry>::empty());
        }
        r
    }

    /// A fresh store with the default limits: rotate at 100 MB, retain
    /// 90 days.
    pub fn new() -> (r: AuditLogger)
        ensures
            r.wf(),
            r.next_id == 0,
            r.last_timestamp == 0,
            r.active@.len() == 0,
            r.active_size == 0,
            r.archives@.len() == 0,
            r.max_log_size == 104857600,
            r.retention_ms == 7776000000,
            r.effects@.len() == 0,
            r.all_entries().len() == 0,
    {
        AuditLogger::with_limits(100 * 1024 * 1024, 90 * 24 * 60 * 60 * 1000)
    }

    /// Appends one entry built from the given fields, rotating the
    /// active segment first when it has reached the size threshold.
    ///
    /// The entry's timestamp is `now`, clamped so that timestamps never
    /// decrease along the log. Exactly the records held before stand in
    /// the rotated archive, and the new record alone in the fresh
    /// active segment; without rotation the record joins the active
    /// segment. Either way the store afterwards holds exactly the old
    /// records and then the new one.
    pub fn append(&mut self, level: LogLevel, action: String, description: String, user_id: Option<
        String,
    >, ip_address: Option<String>, metadata: Vec<(String, String)>, now: u64) -> (id: u64)
        requires
            old(self).wf(),
        ensures
            final(self).wf(),
            id == old(self).next_id,
            final(self).max_log_size == old(self).max_log_size,
            final(self).retention_ms == old(self).retention_ms,
            final(self).next_id == sat_add_u64(old(self).next_id, 1),
            final(self).last_timestamp == spec_clamp(now, old(self).last_timestamp),
            ({
                let e = AuditLogEntry {
                    id: old(self).next_id,
                    timestamp: spec_clamp(now, old(self).last_timestamp),
                    level,
                    action,
                    description,
                    user_id,
                    ip_address,
                    metadata,
                };
                &&& final(self).all_entries() == old(self).all_entries().push(e)
                &&& final(self).active_size == sat_add_u64(
                    if old(self).active_size >= old(self).max_log_size {
                        0u64
                    } else {
                        old(self).active_size
                    },
                    record_size(e),
                )
                &&& (old(self).active_size >= old(self).max_log_size ==> ({
                    let ts = spec_clamp(now, old(self).last_timestamp);
                    &&& final(self).archives@.len() == old(self).archives@.len() + 1
                    &&& forall|k: int|
                        0 <= k < old(self).archives@.len() ==> final(self).archives@[k] == old(
                            self,
                        ).archives@[k]
                    &&& final(self).archives@.last().entries@ == old(self).active@
                    &&& final(self).archives@.last().rotated_at == ts
                    &&& final(self).archives@.last().size == old(self).active_size
                    &&& final(self).archives@.last().name@ == spec_archive_name(
                        ts as int,
                        old(self).archives@.len() as int,
                    )
                    &&& final(self).active@ == seq![e]
                    &&& final(self).effects@.len() == old(self).effects@.len() + 2
                    &&& (final(self).effects@[old(self).effects@.len() as int] matches
                        LogEffect::RotateTo { archive_name } && archive_name@ == spec_archive_name(
                        ts as int,
                        old(self).archives@.len() as int,
                    ))
                }))
                &&& (old(self).active_size < old(self).max_log_size ==> ({
                    &&& final(self).archives@ == old(self).archives@
                    &&& final(self).active@ == old(self).active@.push(e)
                    &&& final(self).effects@.len() == old(self).effects@.len() + 1
                }))
                &&& forall|k: int|
                    0 <= k < old(self).effects@.len() ==> final(self).effects@[k] == old(
                        self,
                    ).effects@[k]
                &&& (final(self).effects@.last() matches LogEffect::AppendRecord { line } && line@
                    == spec_record(e))
            }),
    {
        let ts = if now >= self.last_timestamp {
            now
        } else {
            self.last_timestamp
        };
        let id = self.next_id;
        let e = AuditLogEntry {
            id,
            timestamp: ts,
            level,
            action,
            description,
            user_id,
            ip_address,
            metadata,
        };
        let ghost e_spec = e;
        let ghost old_all = self.all_entries();
        proof {
            assert(ts_bounded(old_all, ts));
        }
        if self.active_size >= self.max_log_size {
            let name = archive_name(ts, self.archives.len() as u64);
            let mut drained: Vec<AuditLogEntry> = Vec::new();
            core::mem::swap(&mut drained, &mut self.active);
            let arch = LogArchive {
                name: name_clone(&name),
                rotated_at: ts,
                entries: drained,
                size: self.active_size,
            };
            let ghost old_archs = self.archives@;
            self.archives.push(arch);
            proof {
                lemma_ea_push(old_archs, self.archives@.last());
                assert(entries_of_archives(self.archives@) =~= old_all);
            }
            self.active_size = 0;
            self.effects.push(LogEffect::RotateTo { archive_name: name });
        }
        let line = encode_record(&e);
        let blen = line.as_str().unicode_len();
        self.active_size = if self.active_size > u64::MAX - (blen as u64) {
            u64::MAX
        } else {
            self.active_size + (blen as u64)
        };
        self.active.push(e);
        self.effects.push(LogEffect::AppendRecord { line });
        self.last_timestamp = ts;
        self.next_id = if id == u64::MAX {
            u64::MAX
        } else {
            id + 1
        };
        proof {
            assert(self.active@.last() == e_spec);
            assert(self.all_entries() =~= old_all.push(e_spec));
            lemma_push_monotone(old_all, e_spec);
            if old(self).active_size >= old(self).max_log_size {
                assert(self.active@ =~= seq![e_spec]);
            }
        }
        id
    }

    /// Hands the queued storage effects to the durability layer and
    /// clears the queue; nothing else changes.
    pub fn take_effects(&mut self) -> (r: Vec<LogEffect>)
        ensures
            r@ == old(self).effects@,
            final(self).effects@.len() == 0,
            final(self).next_id == old(self).next_id,
            final(self).last_timestamp == old(self).last_timestamp,
            final(self).active == old(self).active,
            final(self).active_size == old(self).active_size,
            final(self).archives == old(self).archives,
            final(self).max_log_size == old(self).max_log_size,
            final(self).retention_ms == old(self).retention_ms,
            final(self).all_entries() == old(self).all_entries(),
            old(self).wf() ==> final(self).wf(),
    {
        let mut out: Vec<LogEffect> = Vec::new();
        core::mem::swap(&mut out, &mut self.effects);
        out
    }
}

/// Copies an archive name so it can stand both in the archive and in
/// the rotation effect.
fn name_clone(s: &String) -> (r: String)
    ensures
        r@ == s@,
{
    s.clone()
}

/// Builds the sortable archive name for a rotation.
fn archive_name(ms: u64, seq: u64) -> (r: String)
    ensures
        r@ == spec_archive_name(ms as int, seq as int),
{
    let mut out = String::from_str("audit-");
    let p1 = u64_to_padded_string(ms);
    out.append(p1.as_str());
    out.append("-");
    let p2 = u64_to_padded_string(seq);
    out.append(p2.as_str());
    out.append(".log");
    proof {
        assert(out@ =~= spec_archive_name(ms as int, seq as int));
    }
    out
}

/// Pushing an archive appends its records to those of the sequence.
proof fn lemma_ea_push(s: Seq<LogArchive>, a: LogArchive)
    requires
        s.push(a).last() == a,
    ensures
        entries_of_archives(s.push(a)) == entries_of_archives(s) + a.entries@,
{
    assert(s.push(a).drop_last() =~= s);
}

/// Appending a record with the greatest timestamp keeps the log
/// monotone.
proof fn lemma_push_monotone(s: Seq<AuditLogEntry>, e: AuditLogEntry)
    requires
        ts_monotone(s),
        ts_bounded(s, e.timestamp),
    ensures
        ts_monotone(s.push(e)),
        ts_bounded(s.push(e), e.timestamp),
{
    let s2 = s.push(e);
    assert forall|i: int, j: int| 0 <= i <= j < s2.len() implies s2[i].timestamp
        <= s2[j].timestamp by {
        if j < s.len() {
            assert(s2[i] == s[i] && s2[j] == s[j]);
        } else {
            assert(s2[j] == e);
            if i < s.len() {
                assert(s2[i] == s[i]);
            }
        }
    }
}


/// The filters of a search: a time range, an action-tag substring and
/// a severity, each optional.
pub open spec fn matches_filter(e: AuditLogEntry, start_time: Option<u64>, end_time: Option<u64>, action_sub: Option<Seq<char>>, level: Option<LogLevel>) -> bool {
    &&& match start_time {
        Some(t) => e.timestamp >= t,
        None => true,
    }
    &&& match end_time {
        Some(t) => e.timestamp <= t,
        None => true,
    }
    &&& match action_sub {
        Some(a) => contains_seq(e.action@, a),
        None => true,
    }
    &&& match level {
        Some(l) => e.level == l,
        None => true,
    }
}

/// The result of scanning entries `i - 1` down to `0` newest-first,
/// keeping those the filters admit, until `budget` of them are found.
pub open spec fn spec_search_from(all: Seq<AuditLogEntry>, i: int, start_time: Option<u64>, end_time: Option<u64>, action_sub: Option<Seq<char>>, level: Option<LogLevel>, budget: int) -> Seq<AuditLogEntry>
    decreases i,
{
    if i <= 0 || budget <= 0 {
        Seq::empty()
    } else if matches_filter(all[i - 1], start_time, end_time, action_sub, level) {
        seq![all[i - 1]] + spec_search_from(all, i - 1, start_time, end_time, action_sub, level, budget - 1)
    } else {
        spec_search_from(all, i - 1, start_time, end_time, action_sub, level, budget)
    }
}

/// The view of an optional action filter.
pub open spec fn action_view(action_filter: Option<String>) -> Option<Seq<char>> {
    match action_filter {
        Some(s) => Some(s@),
        None => None,
    }
}

/// The search budget: the caller's limit, or the whole log without one.
pub open spec fn search_budget(limit: Option<usize>, total: int) -> int {
    match limit {
        Some(l) => l as int,
        None => total,
    }
}

/// Do the filters admit this entry?
fn entry_matches(e: &AuditLogEntry, start_time: Option<u64>, end_time: Option<u64>, action_filter: &Option<String>, level_filter: Option<LogLevel>) -> (r: bool)
    ensures
        r == matches_filter(*e, start_time, end_time, action_view(*action_filter), level_filter),
{
    let ok_start = match start_time {
        Some(t) => e.timestamp >= t,
        None => true,
    };
    let ok_end = match end_time {
        Some(t) => e.timestamp <= t,
        None => true,
    };
    let ok_action = match action_filter {
        Some(a) => contains_substring(e.action.as_str(), a.as_str()),
        None => true,
    };
    let ok_level = match level_filter {
        Some(l) => e.level == l,
        None => true,
    };
    ok_start && ok_end && ok_action && ok_level
}

/// Has the result reached the caller's limit?
fn reached_limit(limit: &Option<usize>, n: usize) -> (r: bool)
    ensures
        r == match *limit {
            Some(l) => n >= l,
            None => false,
        },
{
    match limit {
        Some(l) => n >= *l,
        None => false,
    }
}

/// Unfolds the records of an archive prefix by one archive.
proof fn lemma_ea_snoc(s: Seq<LogArchive>, k: int)
    requires
        0 <= k < s.len(),
    ensures
        entries_of_archives(s.take(k + 1)) == entries_of_archives(s.take(k)) + s[k].entries@,
{
    assert(s.take(k + 1).drop_last() =~= s.take(k));
    assert(s.take(k + 1).last() == s[k]);
}

impl AuditLogger {
    /// Collects one reference per record the store holds, oldest
    /// first, mirroring `all_entries`.
    fn flattened(&self) -> (r: Vec<&AuditLogEntry>)
        ensures
            r@.len() == self.all_entries().len(),
            forall|p: int| 0 <= p < r@.len() ==> *r@[p] == self.all_entries()[p],
    {
        let ghost all = self.all_entries();
        let mut flat: Vec<&AuditLogEntry> = Vec::new();
        let an = self.archives.len();
        let mut k: usize = 0;
        while k < an
            invariant
                k <= an,
                an == self.archives@.len(),
                flat@.len() == entries_of_archives(self.archives@.take(k as int)).len(),
                forall|p: int|
                    0 <= p < flat@.len() ==> *flat@[p] == entries_of_archives(
                        self.archives@.take(k as int),
                    )[p],
            decreases an - k,
        {
            let ghost pre = entries_of_archives(self.archives@.take(k as int));
            let en = self.archives[k].entries.len();
            let mut j: usize = 0;
            while j < en
                invariant
                    j <= en,
                    k < an,
                    an == self.archives@.len(),
                    en == self.archives@[k as int].entries@.len(),
                    pre == entries_of_archives(self.archives@.take(k as int)),
                    flat@.len() == pre.len() + j,
                    forall|p: int| 0 <= p < pre.len() ==> *flat@[p] == pre[p],
                    forall|q: int|
                        0 <= q < j ==> *flat@[pre.len() + q] == self.archives@[k as int].entries@[q],
                decreases en - j,
            {
                flat.push(&self.archives[k].entries[j]);
                j += 1;
            }
            proof {
                lemma_ea_snoc(self.archives@, k as int);
                assert(forall|p: int|
                    0 <= p < flat@.len() ==> *flat@[p] == entries_of_archives(
                        self.archives@.take(k + 1),
                    )[p]);
            }
            k += 1;
        }
        proof {
            assert(self.archives@.take(an as int) =~= self.archives@);
        }
        let ghost ea_total = entries_of_archives(self.archives@);
        let vn = self.active.len();
        let mut j: usize = 0;
        while j < vn
            invariant
                j <= vn,
                vn == self.active@.len(),
                ea_total == entries_of_archives(self.archives@),
                flat@.len() == ea_total.len() + j,
                forall|p: int| 0 <= p < ea_total.len() ==> *flat@[p] == ea_total[p],
                forall|q: int| 0 <= q < j ==> *flat@[ea_total.len() + q] == self.active@[q],
            decreases vn - j,
        {
            flat.push(&self.active[j]);
            j += 1;
        }
        flat
    }

    /// Searches the log: entries the filters admit, newest first, at
    /// most `limit` of them. The scan walks the records newest-first —
    /// which, timestamps being clamped at append, is also timestamp
    /// order descending — and stops once the limit is satisfied.
    pub fn search_logs(&self, start_time: Option<u64>, end_time: Option<u64>, action_filter: Option<
        String,
    >, level_filter: Option<LogLevel>, limit: Option<usize>) -> (r: Vec<AuditLogEntry>)
        ensures
            ({
                let all = self.all_entries();
                let spec = spec_search_from(
                    all,
                    all.len() as int,
                    start_time,
                    end_time,
                    action_view(action_filter),
                    level_filter,
                    search_budget(limit, all.len() as int),
                );
                &&& r@.len() == spec.len()
                &&& forall|p: int| 0 <= p < spec.len() ==> same_entry(r@[p], spec[p])
                &&& (self.wf() ==> forall|p: int, q: int|
                    0 <= p <= q < r@.len() ==> (#[trigger] r@[p]).timestamp >= (
                    #[trigger] r@[q]).timestamp)
            }),
    {
        let ghost all = self.all_entries();
        let ghost act = action_view(action_filter);
        let ghost budget = search_budget(limit, all.len() as int);
        let flat = self.flattened();
        let mut out: Vec<AuditLogEntry> = Vec::new();
        let ghost sofar = Seq::<AuditLogEntry>::empty();
        let mut pos = flat.len();
        while pos > 0 && !reached_limit(&limit, out.len())
            invariant
                pos <= flat@.len(),
                flat@.len() == all.len(),
                forall|p: int| 0 <= p < flat@.len() ==> *flat@[p] == all[p],
                all == self.all_entries(),
                act == action_view(action_filter),
                budget == search_budget(limit, all.len() as int),
                out@.len() == sofar.len(),
                forall|p: int| 0 <= p < sofar.len() ==> same_entry(out@[p], sofar[p]),
                out@.len() + pos <= all.len(),
                spec_search_from(all, all.len() as int, start_time, end_time, act, level_filter, budget)
                    == sofar + spec_search_from(
                    all,
                    pos as int,
                    start_time,
                    end_time,
                    act,
                    level_filter,
                    budget - out@.len(),
                ),
            decreases pos,
        {
            pos = pos - 1;
            let e = flat[pos];
            let ghost rem = budget - out@.len();
            proof {
                assert(*e == all[pos as int]);
                assert(rem > 0);
            }
            if entry_matches(e, start_time, end_time, &action_filter, level_filter) {
                proof {
                    assert(matches_filter(all[pos as int], start_time, end_time, act, level_filter));
                    assert(spec_search_from(all, pos + 1, start_time, end_time, act, level_filter, rem)
                        == seq![all[pos as int]] + spec_search_from(all, pos as int, start_time, end_time, act, level_filter, rem - 1));
                }
                out.push(e.clone());
                proof {
                    let prior = sofar;
                    sofar = sofar.push(all[pos as int]);
                    assert(prior + (seq![all[pos as int]] + spec_search_from(all, pos as int, start_time, end_time, act, level_filter, rem - 1))
                        =~= sofar + spec_search_from(all, pos as int, start_time, end_time, act, level_filter, rem - 1));
                }
            } else {
                proof {
                    assert(spec_search_from(all, pos + 1, start_time, end_time, act, level_filter, rem)
                        == spec_search_from(all, pos as int, start_time, end_time, act, level_filter, rem));
                }
            }
        }
        proof {
            let rem = budget - out@.len();
            if pos == 0 {
                assert(spec_search_from(all, 0, start_time, end_time, act, level_filter, rem)
                    =~= Seq::<AuditLogEntry>::empty());
            } else {
                assert(match limit {
                    Some(l) => out@.len() >= l,
                    None => false,
                });
                assert(rem <= 0);
                assert(spec_search_from(all, pos as int, start_time, end_time, act, level_filter, rem)
                    =~= Seq::<AuditLogEntry>::empty());
            }
            assert(sofar + Seq::<AuditLogEntry>::empty() =~= sofar);
            if self.wf() {
                lemma_search_sorted(
                    all,
                    all.len() as int,
                    start_time,
                    end_time,
                    act,
                    level_filter,
                    budget,
                );
                assert forall|p: int, q: int|
                    0 <= p <= q < out@.len() implies (#[trigger] out@[p]).timestamp >= (
                #[trigger] out@[q]).timestamp by {
                    assert(same_entry(out@[p], sofar[p]));
                    assert(same_entry(out@[q], sofar[q]));
                    assert(sofar[p].timestamp >= sofar[q].timestamp);
                }
            }
        }
        out
    }

    /// Entries within a time range, newest first: a search without an
    /// action or severity filter and without a cap.
    pub fn export_logs(&self, start_time: u64, end_time: u64) -> (r: Vec<AuditLogEntry>)
        ensures
            ({
                let all = self.all_entries();
                let spec = spec_search_from(
                    all,
                    all.len() as int,
                    Some(start_time),
                    Some(end_time),
                    None,
                    None,
                    all.len() as int,
                );
                &&& r@.len() == spec.len()
                &&& forall|p: int| 0 <= p < spec.len() ==> same_entry(r@[p], spec[p])
                &&& (self.wf() ==> forall|p: int, q: int|
                    0 <= p <= q < r@.len() ==> (#[trigger] r@[p]).timestamp >= (
                    #[trigger] r@[q]).timestamp)
            }),
    {
        self.search_logs(Some(start_time), Some(end_time), None, None, None)
    }
}

/// A record the filters admit is found by any newest-first scan that
/// reaches it with budget to spare: scanning from `i` with a budget of
/// at least `i - k` returns the admitted record at `k`.
pub proof fn lemma_search_finds(all: Seq<AuditLogEntry>, i: int, start_time: Option<u64>, end_time: Option<u64>, action_sub: Option<Seq<char>>, level: Option<LogLevel>, budget: int, k: int)
    requires
        0 <= k < i <= all.len(),
        matches_filter(all[k], start_time, end_time, action_sub, level),
        budget >= i - k,
    ensures
        spec_search_from(all, i, start_time, end_time, action_sub, level, budget).contains(all[k]),
    decreases i,
{
    let res = spec_search_from(all, i, start_time, end_time, action_sub, level, budget);
    if i - 1 == k {
        assert(res == seq![all[k]] + spec_search_from(all, i - 1, start_time, end_time, action_sub, level, budget - 1));
        assert(res[0] == all[k]);
    } else {
        if matches_filter(all[i - 1], start_time, end_time, action_sub, level) {
            let rest = spec_search_from(all, i - 1, start_time, end_time, action_sub, level, budget - 1);
            lemma_search_finds(all, i - 1, start_time, end_time, action_sub, level, budget - 1, k);
            let w = choose|w: int| 0 <= w < rest.len() && rest[w] == all[k];
            assert(res[w + 1] == all[k]);
        } else {
            lemma_search_finds(all, i - 1, start_time, end_time, action_sub, level, budget, k);
        }
    }
}

/// Every append is at once readable: the newest record, when the
/// filters admit it, stands in any search with a budget of at least
/// one — in particular in a search made right after the append that
/// produced it.
pub proof fn lemma_newest_searchable(all: Seq<AuditLogEntry>, start_time: Option<u64>, end_time: Option<u64>, action_sub: Option<Seq<char>>, level: Option<LogLevel>, budget: int)
    requires
        all.len() > 0,
        matches_filter(all.last(), start_time, end_time, action_sub, level),
        budget >= 1,
    ensures
        spec_search_from(all, all.len() as int, start_time, end_time, action_sub, level, budget).contains(all.last()),
{
    lemma_search_finds(all, all.len() as int, start_time, end_time, action_sub, level, budget, all.len() - 1);
}

/// What a newest-first scan of a timestamp-monotone log returns is
/// ordered by timestamp descending, and bounded by the newest scanned
/// record's timestamp.
pub proof fn lemma_search_sorted(all: Seq<AuditLogEntry>, i: int, start_time: Option<u64>, end_time: Option<u64>, action_sub: Option<Seq<char>>, level: Option<LogLevel>, budget: int)
    requires
        ts_monotone(all),
        0 <= i <= all.len(),
    ensures
        ({
            let res = spec_search_from(all, i, start_time, end_time, action_sub, level, budget);
            &&& forall|p: int, q: int|
                0 <= p <= q < res.len() ==> res[p].timestamp >= res[q].timestamp
            &&& forall|p: int| 0 <= p < res.len() ==> res[p].timestamp <= all[i - 1].timestamp
        }),
    decreases i,
{
    let res = spec_search_from(all, i, start_time, end_time, action_sub, level, budget);
    if i <= 0 || budget <= 0 {
    } else {
        lemma_search_sorted(all, i - 1, start_time, end_time, action_sub, level, budget - 1);
        lemma_search_sorted(all, i - 1, start_time, end_time, action_sub, level, budget);
        if matches_filter(all[i - 1], start_time, end_time, action_sub, level) {
            let rest = spec_search_from(all, i - 1, start_time, end_time, action_sub, level, budget - 1);
            assert(res == seq![all[i - 1]] + rest);
            assert(forall|q: int| 0 <= q < rest.len() ==> rest[q].timestamp <= all[i - 1].timestamp);
            assert(res[0] == all[i - 1]);
            assert(forall|q: int| 0 <= q < rest.len() ==> res[q + 1] == rest[q]);
        }
    }
}

/// An archive has outlived the retention window at time `now`.
pub open spec fn archive_expired(a: LogArchive, now: u64, retention_ms: u64) -> bool {
    a.rotated_at + retention_ms < now
}

/// The archives that survive a prune at time `now`, in order.
pub open spec fn kept_archives(s: Seq<LogArchive>, now: u64, retention_ms: u64) -> Seq<LogArchive>
    decreases s.len(),
{
    if s.len() == 0 {
        Seq::empty()
    } else if archive_expired(s.last(), now, retention_ms) {
        kept_archives(s.drop_last(), now, retention_ms)
    } else {
        kept_archives(s.drop_last(), now, retention_ms).push(s.last())
    }
}

/// The deletion effects of a prune at time `now`: one `Remove` per
/// expired archive, newest first (the order the prune walks them).
pub open spec fn removal_effects(s: Seq<LogArchive>, now: u64, retention_ms: u64) -> Seq<LogEffect>
    decreases s.len(),
{
    if s.len() == 0 {
        Seq::empty()
    } else if archive_expired(s.last(), now, retention_ms) {
        seq![LogEffect::Remove { archive_name: s.last().name }] + removal_effects(
            s.drop_last(),
            now,
            retention_ms,
        )
    } else {
        removal_effects(s.drop_last(), now, retention_ms)
    }
}

/// Removing whole archives from a monotone, bounded log keeps it
/// monotone and bounded: the surviving records are the same records in
/// the same order, with blocks cut out.
proof fn lemma_prune_monotone(s: Seq<LogArchive>, act: Seq<AuditLogEntry>, now: u64, retention_ms: u64, bound: u64)
    requires
        ts_monotone(entries_of_archives(s) + act),
        ts_bounded(entries_of_archives(s) + act, bound),
    ensures
        ts_monotone(entries_of_archives(kept_archives(s, now, retention_ms)) + act),
        ts_bounded(entries_of_archives(kept_archives(s, now, retention_ms)) + act, bound),
    decreases s.len(),
{
    if s.len() == 0 {
        assert(entries_of_archives(kept_archives(s, now, retention_ms)) + act =~= entries_of_archives(s) + act);
    } else {
        let dl = s.drop_last();
        let a = s.last();
        assert(entries_of_archives(s) == entries_of_archives(dl) + a.entries@);
        if archive_expired(a, now, retention_ms) {
            let big = entries_of_archives(dl) + a.entries@ + act;
            let small = entries_of_archives(dl) + act;
            let l1 = entries_of_archives(dl).len() as int;
            let la = a.entries@.len() as int;
            assert(ts_monotone(small) && ts_bounded(small, bound)) by {
                assert forall|p: int, q: int| 0 <= p <= q < small.len() implies small[p].timestamp
                    <= small[q].timestamp by {
                    let p2 = if p < l1 { p } else { p + la };
                    let q2 = if q < l1 { q } else { q + la };
                    assert(small[p] == big[p2]);
                    assert(small[q] == big[q2]);
                }
                assert forall|p: int| 0 <= p < small.len() implies small[p].timestamp <= bound by {
                    let p2 = if p < l1 { p } else { p + la };
                    assert(small[p] == big[p2]);
                }
            }
            lemma_prune_monotone(dl, act, now, retention_ms, bound);
        } else {
            assert(entries_of_archives(dl) + (a.entries@ + act) =~= entries_of_archives(s) + act);
            lemma_prune_monotone(dl, a.entries@ + act, now, retention_ms, bound);
            let kdl = kept_archives(dl, now, retention_ms);
            assert(kept_archives(s, now, retention_ms) == kdl.push(a));
            assert(kdl.push(a).drop_last() =~= kdl);
            assert(entries_of_archives(kdl.push(a)) == entries_of_archives(kdl) + a.entries@);
            assert(entries_of_archives(kdl) + (a.entries@ + act) =~= entries_of_archives(kdl.push(a)) + act);
        }
    }
}

impl AuditLogger {
    /// Prunes archives that have outlived the retention window: every
    /// expired archive leaves the store and a deletion effect is queued
    /// for it; the surviving archives keep their order, and the active
    /// segment is never pruned, whatever its age. Returns how many
    /// archives were pruned.
    pub fn cleanup_old_logs(&mut self, now: u64) -> (removed: usize)
        requires
            old(self).wf(),
        ensures
            final(self).wf(),
            final(self).archives@ == kept_archives(old(self).archives@, now, old(self).retention_ms),
            final(self).effects@ == old(self).effects@ + removal_effects(
                old(self).archives@,
                now,
                old(self).retention_ms,
            ),
            final(self).active == old(self).active,
            final(self).active_size == old(self).active_size,
            final(self).next_id == old(self).next_id,
            final(self).last_timestamp == old(self).last_timestamp,
            final(self).max_log_size == old(self).max_log_size,
            final(self).retention_ms == old(self).retention_ms,
            removed == old(self).archives@.len() - final(self).archives@.len(),
    {
        let ghost orig = self.archives@;
        let ghost old_eff = self.effects@;
        let n0 = self.archives.len();
        let ret = self.retention_ms;
        let mut leftover: Vec<LogArchive> = Vec::new();
        core::mem::swap(&mut leftover, &mut self.archives);
        let mut kept: Vec<LogArchive> = Vec::new();
        let mut removed: usize = 0;
        while leftover.len() > 0
            invariant
                kept_archives(orig, now, ret) == kept_archives(leftover@, now, ret) + kept@,
                removal_effects(orig, now, ret) == self.effects@.skip(old_eff.len() as int)
                    + removal_effects(leftover@, now, ret),
                old_eff == self.effects@.take(old_eff.len() as int),
                old_eff.len() <= self.effects@.len(),
                removed + kept@.len() + leftover@.len() == n0,
                n0 == orig.len(),
                ret == self.retention_ms,
                self.archives@.len() == 0,
                self.active == old(self).active,
                self.active_size == old(self).active_size,
                self.next_id == old(self).next_id,
                self.last_timestamp == old(self).last_timestamp,
                self.max_log_size == old(self).max_log_size,
                self.retention_ms == old(self).retention_ms,
            decreases leftover@.len(),
        {
            let ghost prev = leftover@;
            let a = match leftover.pop() {
                Some(a) => a,
                None => LogArchive { name: String::new(), rotated_at: 0, entries: Vec::new(), size: 0 },
            };
            proof {
                assert(leftover@.push(a) =~= prev);
                assert(kept_archives(prev, now, ret) == if archive_expired(a, now, ret) {
                    kept_archives(leftover@, now, ret)
                } else {
                    kept_archives(leftover@, now, ret).push(a)
                });
                assert(removal_effects(prev, now, ret) == if archive_expired(a, now, ret) {
                    seq![LogEffect::Remove { archive_name: a.name }] + removal_effects(leftover@, now, ret)
                } else {
                    removal_effects(leftover@, now, ret)
                });
            }
            let expired = now > ret && a.rotated_at < now - ret;
            proof {
                assert(expired == archive_expired(a, now, ret));
            }
            if expired {
                let ghost eff_pre = self.effects@;
                self.effects.push(LogEffect::Remove { archive_name: a.name });
                removed = removed + 1;
                proof {
                    assert(self.effects@.skip(old_eff.len() as int) =~= eff_pre.skip(
                        old_eff.len() as int,
                    ).push(LogEffect::Remove { archive_name: a.name }));
                    assert(self.effects@.skip(old_eff.len() as int) + removal_effects(leftover@, now, ret)
                        =~= eff_pre.skip(old_eff.len() as int) + (seq![LogEffect::Remove { archive_name: a.name }] + removal_effects(leftover@, now, ret)));
                    assert(old_eff =~= self.effects@.take(old_eff.len() as int));
                }
            } else {
                kept.insert(0, a);
                proof {
                    assert(kept_archives(leftover@, now, ret).push(a) + kept@.drop_first()
                        =~= kept_archives(leftover@, now, ret) + kept@);
                }
            }
        }
        proof {
            assert(leftover@ =~= Seq::<LogArchive>::empty());
            assert(kept_archives(leftover@, now, ret) =~= Seq::<LogArchive>::empty());
            assert(kept_archives(orig, now, ret) =~= kept@);
            assert(removal_effects(leftover@, now, ret) =~= Seq::<LogEffect>::empty());
            assert(removal_effects(orig, now, ret) =~= self.effects@.skip(old_eff.len() as int));
            assert(old_eff + self.effects@.skip(old_eff.len() as int) =~= self.effects@);
        }
        self.archives = kept;
        proof {
            lemma_prune_monotone(orig, old(self).active@, now, ret, old(self).last_timestamp);
        }
        removed
    }
}


/// The relation between a store and the same store after one append at
/// time `now`: one more record, everything conserved, and the new
/// record's encoded line queued for the durability layer.
pub open spec fn spec_logged(o: AuditLogger, n: AuditLogger, now: u64) -> bool {
    &&& n.wf()
    &&& n.max_log_size == o.max_log_size
    &&& n.retention_ms == o.retention_ms
    &&& n.next_id == sat_add_u64(o.next_id, 1)
    &&& n.last_timestamp == spec_clamp(now, o.last_timestamp)
    &&& n.all_entries().len() == o.all_entries().len() + 1
    &&& n.all_entries() == o.all_entries().push(n.all_entries().last())
    &&& n.all_entries().last().id == o.next_id
    &&& n.all_entries().last().timestamp == spec_clamp(now, o.last_timestamp)
    &&& o.effects@.len() < n.effects@.len()
    &&& forall|k: int| 0 <= k < o.effects@.len() ==> n.effects@[k] == o.effects@[k]
    &&& (n.effects@.last() matches LogEffect::AppendRecord { line } && line@ == spec_record(
        n.all_entries().last(),
    ))
}

/// One key-value metadata pair from plain text.
fn meta_pair(key: &str, value: &str) -> (r: (String, String))
    ensures
        r.0@ == key@,
        r.1@ == value@,
{
    (String::from_str(key), String::from_str(value))
}

/// The metadata rendering of an optional integer: its decimal digits,
/// or a dash when absent.
pub open spec fn spec_opt_u64(o: Option<u64>) -> Seq<char> {
    match o {
        Some(x) => spec_dec(x as int),
        None => "-"@,
    }
}

/// The metadata rendering of an optional string: itself, or a dash
/// when absent.
pub open spec fn spec_opt_str(o: Option<&str>) -> Seq<char> {
    match o {
        Some(s) => s@,
        None => "-"@,
    }
}

/// Renders an optional integer for a metadata value.
fn opt_u64_text(o: Option<u64>) -> (r: String)
    ensures
        r@ == spec_opt_u64(o),
{
    match o {
        Some(x) => u64_to_string(x),
        None => String::from_str("-"),
    }
}

/// Renders an optional string for a metadata value.
fn opt_str_text(o: Option<&str>) -> (r: String)
    ensures
        r@ == spec_opt_str(o),
{
    match o {
        Some(s) => String::from_str(s),
        None => String::from_str("-"),
    }
}

impl AuditLogger {
    /// Records a routine action as an `Info` entry with no actor and no
    /// metadata.
    pub fn log_action(&mut self, action: &str, description: &str, now: u64) -> (id: u64)
        requires
            old(self).wf(),
        ensures
            spec_logged(*old(self), *final(self), now),
            id == old(self).next_id,
            ({
                let e = final(self).all_entries().last();
                &&& e.level == LogLevel::Info
                &&& e.action@ == action@
                &&& e.description@ == description@
                &&& e.user_id is None
                &&& e.ip_address is None
                &&& e.metadata@.len() == 0
            }),
    {
        self.append(
            LogLevel::Info,
            String::from_str(action),
            String::from_str(description),
            None,
            None,
            Vec::new(),
            now,
        )
    }

    /// Records a security-relevant event as a `Security` entry carrying
    /// the acting identity and origin address when known.
    pub fn log_security_event(&mut self, action: &str, description: &str, user_id: Option<String>, ip_address: Option<String>, now: u64) -> (id: u64)
        requires
            old(self).wf(),
        ensures
            spec_logged(*old(self), *final(self), now),
            id == old(self).next_id,
            ({
                let e = final(self).all_entries().last();
                &&& e.level == LogLevel::Security
                &&& e.action@ == action@
                &&& e.description@ == description@
                &&& e.user_id == user_id
                &&& e.ip_address == ip_address
                &&& e.metadata@.len() == 2
                &&& e.metadata@[0].0@ == "security_event"@ && e.metadata@[0].1@ == "true"@
                &&& e.metadata@[1].0@ == "requires_review"@ && e.metadata@[1].1@ == "true"@
            }),
    {
        let mut meta: Vec<(String, String)> = Vec::new();
        meta.push(meta_pair("security_event", "true"));
        meta.push(meta_pair("requires_review", "true"));
        self.append(
            LogLevel::Security,
            String::from_str(action),
            String::from_str(description),
            user_id,
            ip_address,
            meta,
            now,
        )
    }

    /// Records a step of a modification request's lifecycle as a
    /// `Critical` entry tied to the request by id.
    pub fn log_code_modification(&mut self, modification_id: u64, action: &str, description: &str, user_id: Option<String>, now: u64) -> (id: u64)
        requires
            old(self).wf(),
        ensures
            spec_logged(*old(self), *final(self), now),
            id == old(self).next_id,
            ({
                let e = final(self).all_entries().last();
                &&& e.level == LogLevel::Critical
                &&& e.action@ == action@
                &&& e.description@ == description@
                &&& e.user_id == user_id
                &&& e.ip_address is None
                &&& e.metadata@.len() == 3
                &&& e.metadata@[0].0@ == "modification_id"@ && e.metadata@[0].1@ == spec_dec(
                    modification_id as int,
                )
                &&& e.metadata@[1].0@ == "code_modification"@ && e.metadata@[1].1@ == "true"@
                &&& e.metadata@[2].0@ == "requires_admin_review"@ && e.metadata@[2].1@ == "true"@
            }),
    {
        let mut meta: Vec<(String, String)> = Vec::new();
        meta.push((String::from_str("modification_id"), u64_to_string(modification_id)));
        meta.push(meta_pair("code_modification", "true"));
        meta.push(meta_pair("requires_admin_review", "true"));
        self.append(
            LogLevel::Critical,
            String::from_str(action),
            String::from_str(description),
            user_id,
            None,
            meta,
            now,
        )
    }

    /// Records a failure as an `Error` entry whose description names
    /// the error.
    pub fn log_error(&mut self, action: &str, error_message: &str, now: u64) -> (id: u64)
        requires
            old(self).wf(),
        ensures
            spec_logged(*old(self), *final(self), now),
            id == old(self).next_id,
            ({
                let e = final(self).all_entries().last();
                &&& e.level == LogLevel::Error
                &&& e.action@ == action@
                &&& e.description@ == "Error: "@ + error_message@
                &&& e.user_id is None
                &&& e.ip_address is None
                &&& e.metadata@.len() == 1
                &&& e.metadata@[0].0@ == "error"@ && e.metadata@[0].1@ == "true"@
            }),
    {
        let mut desc = String::from_str("Error: ");
        desc.append(error_message);
        let mut meta: Vec<(String, String)> = Vec::new();
        meta.push(meta_pair("error", "true"));
        self.append(
            LogLevel::Error,
            String::from_str(action),
            desc,
            None,
            None,
            meta,
            now,
        )
    }

    /// Records a system event as an `Info` entry whose action tag is
    /// the event type under the `system_` prefix.
    pub fn log_system_event(&mut self, event_type: &str, description: &str, now: u64) -> (id: u64)
        requires
            old(self).wf(),
        ensures
            spec_logged(*old(self), *final(self), now),
            id == old(self).next_id,
            ({
                let e = final(self).all_entries().last();
                &&& e.level == LogLevel::Info
                &&& e.action@ == "system_"@ + event_type@
                &&& e.description@ == description@
                &&& e.user_id is None
                &&& e.ip_address is None
                &&& e.metadata@.len() == 1
                &&& e.metadata@[0].0@ == "system_event"@ && e.metadata@[0].1@ == "true"@
            }),
    {
        let mut action = String::from_str("system_");
        action.append(event_type);
        let mut meta: Vec<(String, String)> = Vec::new();
        meta.push(meta_pair("system_event", "true"));
        self.append(
            LogLevel::Info,
            action,
            String::from_str(description),
            None,
            None,
            meta,
            now,
        )
    }

    /// Records one model interaction of the host's agent as an `Info`
    /// entry whose metadata carries the exchange.
    pub fn log_agent_interaction(&mut self, action: &str, input: &str, output: &str, model_used: &str, now: u64) -> (id: u64)
        requires
            old(self).wf(),
        ensures
            spec_logged(*old(self), *final(self), now),
            id == old(self).next_id,
            ({
                let e = final(self).all_entries().last();
                &&& e.level == LogLevel::Info
                &&& e.action@ == action@
                &&& e.metadata@.len() == 4
                &&& e.metadata@[0].0@ == "input"@ && e.metadata@[0].1@ == input@
                &&& e.metadata@[1].0@ == "output"@ && e.metadata@[1].1@ == output@
                &&& e.metadata@[2].0@ == "model_used"@ && e.metadata@[2].1@ == model_used@
                &&& e.metadata@[3].0@ == "interaction_type"@ && e.metadata@[3].1@ == "agent_chat"@
            }),
    {
        let mut meta: Vec<(String, String)> = Vec::new();
        meta.push((String::from_str("input"), String::from_str(input)));
        meta.push((String::from_str("output"), String::from_str(output)));
        meta.push((String::from_str("model_used"), String::from_str(model_used)));
        meta.push(meta_pair("interaction_type", "agent_chat"));
        let mut desc = String::from_str("Agent interaction: ");
        desc.append(action);
        self.append(
            LogLevel::Info,
            String::from_str(action),
            desc,
            None,
            None,
            meta,
            now,
        )
    }

    /// Records one audio-processing step of the host as an `Info`
    /// entry.
    pub fn log_audio_processing(&mut self, action: &str, audio_id: Option<u64>, duration_ms: Option<u64>, transcription: Option<&str>, now: u64) -> (id: u64)
        requires
            old(self).wf(),
        ensures
            spec_logged(*old(self), *final(self), now),
            id == old(self).next_id,
            ({
                let e = final(self).all_entries().last();
                &&& e.level == LogLevel::Info
                &&& e.action@ == action@
                &&& e.metadata@.len() == 4
                &&& e.metadata@[0].0@ == "audio_id"@ && e.metadata@[0].1@ == spec_opt_u64(audio_id)
                &&& e.metadata@[1].0@ == "duration_ms"@ && e.metadata@[1].1@ == spec_opt_u64(
                    duration_ms,
                )
                &&& e.metadata@[2].0@ == "transcription"@ && e.metadata@[2].1@ == spec_opt_str(
                    transcription,
                )
                &&& e.metadata@[3].0@ == "processing_type"@ && e.metadata@[3].1@ == "audio"@
            }),
    {
        let mut meta: Vec<(String, String)> = Vec::new();
        meta.push((String::from_str("audio_id"), opt_u64_text(audio_id)));
        meta.push((String::from_str("duration_ms"), opt_u64_text(duration_ms)));
        meta.push((String::from_str("transcription"), opt_str_text(transcription)));
        meta.push(meta_pair("processing_type", "audio"));
        let mut desc = String::from_str("Audio processing: ");
        desc.append(action);
        self.append(
            LogLevel::Info,
            String::from_str(action),
            desc,
            None,
            None,
            meta,
            now,
        )
    }

    /// Records one memory-store operation of the host as an `Info`
    /// entry.
    pub fn log_memory_operation(&mut self, action: &str, memory_id: Option<u64>, query: Option<&str>, results_count: Option<u64>, now: u64) -> (id: u64)
        requires
            old(self).wf(),
        ensures
            spec_logged(*old(self), *final(self), now),
            id == old(self).next_id,
            ({
                let e = final(self).all_entries().last();
                &&& e.level == LogLevel::Info
                &&& e.action@ == action@
                &&& e.metadata@.len() == 4
                &&& e.metadata@[0].0@ == "memory_id"@ && e.metadata@[0].1@ == spec_opt_u64(
                    memory_id,
                )
                &&& e.metadata@[1].0@ == "query"@ && e.metadata@[1].1@ == spec_opt_str(query)
                &&& e.metadata@[2].0@ == "results_count"@ && e.metadata@[2].1@ == spec_opt_u64(
                    results_count,
                )
                &&& e.metadata@[3].0@ == "operation_type"@ && e.metadata@[3].1@ == "memory"@
            }),
    {
        let mut meta: Vec<(String, String)> = Vec::new();
        meta.push((String::from_str("memory_id"), opt_u64_text(memory_id)));
        meta.push((String::from_str("query"), opt_str_text(query)));
        meta.push((String::from_str("results_count"), opt_u64_text(results_count)));
        meta.push(meta_pair("operation_type", "memory"));
        let mut desc = String::from_str("Memory operation: ");
        desc.append(action);
        self.append(
            LogLevel::Info,
            String::from_str(action),
            desc,
            None,
            None,
            meta,
            now,
        )
    }
}


/// Summary numbers over the whole log: how many records it holds, how
/// many of each severity, and the timestamp range they span.
pub struct LogStatistics {
    pub total_entries: u64,
    pub info: u64,
    pub warning: u64,
    pub error: u64,
    pub critical: u64,
    pub security: u64,
    pub oldest: Option<u64>,
    pub newest: Option<u64>,
}

/// How many records of the sequence carry the given severity.
pub open spec fn count_level(s: Seq<AuditLogEntry>, lvl: LogLevel) -> int
    decreases s.len(),
{
    if s.len() == 0 {
        0
    } else {
        count_level(s.drop_last(), lvl) + if s.last().level == lvl {
            1int
        } else {
            0int
        }
    }
}

impl AuditLogger {
    /// Counts the log's records, by severity and in all, and reports
    /// the timestamps of its oldest and newest record.
    pub fn get_log_statistics(&self) -> (r: LogStatistics)
        ensures
            ({
                let all = self.all_entries();
                &&& r.total_entries == all.len()
                &&& r.info == count_level(all, LogLevel::Info)
                &&& r.warning == count_level(all, LogLevel::Warning)
                &&& r.error == count_level(all, LogLevel::Error)
                &&& r.critical == count_level(all, LogLevel::Critical)
                &&& r.security == count_level(all, LogLevel::Security)
                &&& (all.len() == 0 ==> r.oldest is None && r.newest is None)
                &&& (all.len() > 0 ==> r.oldest == Some(all.first().timestamp) && r.newest == Some(
                    all.last().timestamp,
                ))
            }),
    {
        let ghost all = self.all_entries();
        let flat = self.flattened();
        let n = flat.len();
        let mut info: u64 = 0;
        let mut warning: u64 = 0;
        let mut error: u64 = 0;
        let mut critical: u64 = 0;
        let mut security: u64 = 0;
        let mut i: usize = 0;
        while i < n
            invariant
                i <= n,
                n == all.len(),
                n == flat@.len(),
                forall|p: int| 0 <= p < flat@.len() ==> *flat@[p] == all[p],
                info == count_level(all.take(i as int), LogLevel::Info),
                warning == count_level(all.take(i as int), LogLevel::Warning),
                error == count_level(all.take(i as int), LogLevel::Error),
                critical == count_level(all.take(i as int), LogLevel::Critical),
                security == count_level(all.take(i as int), LogLevel::Security),
                info <= i && warning <= i && error <= i && critical <= i && security <= i,
            decreases n - i,
        {
            proof {
                assert(all.take(i + 1).drop_last() =~= all.take(i as int));
                assert(all.take(i + 1).last() == all[i as int]);
            }
            match flat[i].level {
                LogLevel::Info => {
                    info = info + 1;
                },
                LogLevel::Warning => {
                    warning = warning + 1;
                },
                LogLevel::Error => {
                    error = error + 1;
                },
                LogLevel::Critical => {
                    critical = critical + 1;
                },
                LogLevel::Security => {
                    security = security + 1;
                },
            }
            i += 1;
        }
        proof {
            assert(all.take(n as int) =~= all);
        }
        let oldest = if n > 0 {
            Some(flat[0].timestamp)
        } else {
            None
        };
        let newest = if n > 0 {
            Some(flat[n - 1].timestamp)
        } else {
            None
        };
        LogStatistics {
            total_entries: n as u64,
            info,
            warning,
            error,
            critical,
            security,
            oldest,
            newest,
        }
    }
}


/// A strict order in the middle parts, behind a common prefix, orders
/// the whole strings, whatever follows.
proof fn lemma_lex_middle(p: Seq<char>, a1: Seq<char>, a2: Seq<char>, s1: Seq<char>, s2: Seq<char>)
    requires
        a1.len() == a2.len(),
        lex_lt(a1, a2),
    ensures
        lex_lt(p + a1 + s1, p + a2 + s2),
{
    let k = choose|k: int|
        0 <= k < a1.len() && k < a2.len() && (forall|l: int| 0 <= l < k ==> a1[l] == a2[l]) && ((
        #[trigger] a1[k]) as u32) < (a2[k] as u32);
    let k2 = p.len() + k;
    let w1 = p + a1 + s1;
    let w2 = p + a2 + s2;
    assert(w1[k2] == a1[k]);
    assert(w2[k2] == a2[k]);
    assert forall|l: int| 0 <= l < k2 implies w1[l] == w2[l] by {
        if l < p.len() {
            assert(w1[l] == p[l] && w2[l] == p[l]);
        } else {
            assert(w1[l] == a1[l - p.len()] && w2[l] == a2[l - p.len()]);
        }
    }
    assert(lex_lt(w1, w2));
}

/// Archive names order as the rotations did: of two rotations where
/// the second came later — its sequence number is greater and, the
/// store's timestamps being clamped, its rotation time no smaller —
/// the earlier one's name is lexicographically first. Retention and
/// search can therefore order archived files by name alone, without
/// parsing their contents.
pub proof fn lemma_archive_names_sorted(ms1: u64, seq1: u64, ms2: u64, seq2: u64)
    requires
        ms1 <= ms2,
        seq1 < seq2,
    ensures
        lex_lt(spec_archive_name(ms1 as int, seq1 as int), spec_archive_name(ms2 as int, seq2 as int)),
{
    let n1 = spec_archive_name(ms1 as int, seq1 as int);
    let n2 = spec_archive_name(ms2 as int, seq2 as int);
    if ms1 < ms2 {
        crate::text::lemma_padded_order(ms1, ms2);
        let p = "audit-"@;
        let s1 = "-"@ + spec_dec_padded(seq1 as int) + ".log"@;
        let s2 = "-"@ + spec_dec_padded(seq2 as int) + ".log"@;
        lemma_lex_middle(p, spec_dec_padded(ms1 as int), spec_dec_padded(ms2 as int), s1, s2);
        assert(n1 =~= p + spec_dec_padded(ms1 as int) + s1);
        assert(n2 =~= p + spec_dec_padded(ms2 as int) + s2);
    } else {
        crate::text::lemma_padded_order(seq1, seq2);
        let p = "audit-"@ + spec_dec_padded(ms1 as int) + "-"@;
        lemma_lex_middle(
            p,
            spec_dec_padded(seq1 as int),
            spec_dec_padded(seq2 as int),
            ".log"@,
            ".log"@,
        );
        assert(n1 =~= p + spec_dec_padded(seq1 as int) + ".log"@);
        assert(n2 =~= p + spec_dec_padded(seq2 as int) + ".log"@);
    }
}

} // verus!
