//! The audit entry and its durable record form: one entry becomes one
//! newline-terminated line of pipe-separated fields, with backslash
//! escapes keeping separators out of field content. Unescaping is
//! proved to undo escaping, so the record form loses nothing.

use vstd::prelude::*;
use crate::text::spec_dec;
use crate::text::string_push;
use crate::text::u64_to_string;
use crate::tier::LogLevel;

verus! {

/// One immutable, timestamped record of a security-relevant event.
pub struct AuditLogEntry {
    pub id: u64,
    pub timestamp: u64,
    pub level: LogLevel,
    pub action: String,
    pub description: String,
    pub user_id: Option<String>,
    pub ip_address: Option<String>,
    pub metadata: Vec<(String, String)>,
}

/// Copies an optional string.
fn clone_opt_string(o: &Option<String>) -> (r: Option<String>)
    ensures
        r == *o,
{
    match o {
        Some(s) => Some(s.clone()),
        None => None,
    }
}

/// Copies a metadata map.
fn clone_metadata(m: &Vec<(String, String)>) -> (r: Vec<(String, String)>)
    ensures
        r@ == m@,
{
    let mut out: Vec<(String, String)> = Vec::new();
    let n = m.len();
    let mut i: usize = 0;
    while i < n
        invariant
            i <= n,
            n == m@.len(),
            out@ =~= m@.take(i as int),
        decreases n - i,
    {
        let k = m[i].0.clone();
        let v = m[i].1.clone();
        out.push((k, v));
        proof {
            assert(out@ =~= m@.take(i + 1));
        }
        i += 1;
    }
    proof {
        assert(m@.take(n as int) =~= m@);
    }
    out
}

/// The two entries agree in every observable respect: all fields are
/// equal, the metadata pairwise so. (A copied metadata vector is a new
/// vector with the same contents, so copies are compared this way.)
pub open spec fn same_entry(a: AuditLogEntry, b: AuditLogEntry) -> bool {
    &&& a.id == b.id
    &&& a.timestamp == b.timestamp
    &&& a.level == b.level
    &&& a.action == b.action
    &&& a.description == b.description
    &&& a.user_id == b.user_id
    &&& a.ip_address == b.ip_address
    &&& a.metadata@ == b.metadata@
}

impl Clone for AuditLogEntry {
    fn clone(&self) -> (r: AuditLogEntry)
        ensures
            same_entry(r, *self),
    {
        AuditLogEntry {
            id: self.id,
            timestamp: self.timestamp,
            level: self.level,
            action: self.action.clone(),
            description: self.description.clone(),
            user_id: clone_opt_string(&self.user_id),
            ip_address: clone_opt_string(&self.ip_address),
            metadata: clone_metadata(&self.metadata),
        }
    }
}

/// The escape of one character: backslash, the field separator and the
/// record terminator become two-character escapes; all else stands.
pub open spec fn esc_char(c: char) -> Seq<char> {
    if c == '\\' {
        seq!['\\', '\\']
    } else if c == '|' {
        seq!['\\', 'p']
    } else if c == '\n' {
        seq!['\\', 'n']
    } else {
        seq![c]
    }
}

/// The escape of a string: each character escaped in turn.
pub open spec fn spec_escape(s: Seq<char>) -> Seq<char>
    decreases s.len(),
{
    if s.len() == 0 {
        Seq::empty()
    } else {
        esc_char(s.first()) + spec_escape(s.drop_first())
    }
}

/// Escaping distributes over concatenation.
pub proof fn lemma_escape_append(a: Seq<char>, b: Seq<char>)
    ensures
        spec_escape(a + b) == spec_escape(a) + spec_escape(b),
    decreases a.len(),
{
    if a.len() == 0 {
        assert(a + b =~= b);
        assert(spec_escape(a) + spec_escape(b) =~= spec_escape(b));
    } else {
        assert((a + b).first() == a.first());
        assert((a + b).drop_first() =~= a.drop_first() + b);
        lemma_escape_append(a.drop_first(), b);
        assert(esc_char(a.first()) + (spec_escape(a.drop_first()) + spec_escape(b)) =~= (esc_char(
            a.first(),
        ) + spec_escape(a.drop_first())) + spec_escape(b));
    }
}

/// An escaped string holds no raw separator and no raw terminator.
pub proof fn lemma_escape_no_separator(s: Seq<char>)
    ensures
        forall|j: int|
            0 <= j < spec_escape(s).len() ==> spec_escape(s)[j] != '|' && spec_escape(s)[j] != '\n',
    decreases s.len(),
{
    if s.len() > 0 {
        lemma_escape_no_separator(s.drop_first());
        let c = s.first();
        let e0 = esc_char(c);
        assert(spec_escape(s) == e0 + spec_escape(s.drop_first()));
        if c == '\\' {
            assert(e0 =~= seq!['\\', '\\']);
        } else if c == '|' {
            assert(e0 =~= seq!['\\', 'p']);
        } else if c == '\n' {
            assert(e0 =~= seq!['\\', 'n']);
        } else {
            assert(e0 =~= seq![c]);
        }
        assert(forall|j: int| 0 <= j < e0.len() ==> e0[j] != '|' && e0[j] != '\n');
    }
}

/// The escape of a one-character string is that character's escape.
proof fn lemma_escape_singleton(c: char)
    ensures
        spec_escape(seq![c]) == esc_char(c),
{
    let q = seq![c];
    assert(q.drop_first() =~= Seq::<char>::empty());
    assert(spec_escape(Seq::<char>::empty()) == Seq::<char>::empty());
    assert(spec_escape(q) == esc_char(c) + spec_escape(q.drop_first()));
    assert(esc_char(c) + Seq::<char>::empty() =~= esc_char(c));
}

/// Escapes a string for inclusion as one field of a record.
pub fn escape(s: &str) -> (r: String)
    ensures
        r@ == spec_escape(s@),
{
    let n = s.unicode_len();
    let mut out = String::new();
    let mut i: usize = 0;
    while i < n
        invariant
            i <= n,
            n == s@.len(),
            out@ == spec_escape(s@.take(i as int)),
        decreases n - i,
    {
        let c = s.get_char(i);
        if c == '\\' {
            string_push(&mut out, '\\');
            string_push(&mut out, '\\');
        } else if c == '|' {
            string_push(&mut out, '\\');
            string_push(&mut out, 'p');
        } else if c == '\n' {
            string_push(&mut out, '\\');
            string_push(&mut out, 'n');
        } else {
            string_push(&mut out, c);
        }
        proof {
            assert(s@.take(i + 1) =~= s@.take(i as int) + seq![s@[i as int]]);
            lemma_escape_append(s@.take(i as int), seq![s@[i as int]]);
            lemma_escape_singleton(s@[i as int]);
            assert(out@ =~= spec_escape(s@.take(i as int)) + esc_char(s@[i as int]));
        }
        i += 1;
    }
    proof {
        assert(s@.take(n as int) =~= s@);
    }
    out
}

/// Undoes the escaping: `None` when the input ends inside an escape or
/// holds an unknown escape pair.
pub open spec fn spec_unescape(s: Seq<char>) -> Option<Seq<char>>
    decreases s.len(),
{
    if s.len() == 0 {
        Some(Seq::empty())
    } else if s.first() == '\\' {
        if s.len() < 2 {
            None
        } else {
            let c = s[1];
            if c == '\\' || c == 'p' || c == 'n' {
                let d = if c == '\\' {
                    '\\'
                } else if c == 'p' {
                    '|'
                } else {
                    '\n'
                };
                match spec_unescape(s.skip(2)) {
                    Some(r) => Some(seq![d] + r),
                    None => None,
                }
            } else {
                None
            }
        }
    } else {
        match spec_unescape(s.drop_first()) {
            Some(r) => Some(seq![s.first()] + r),
            None => None,
        }
    }
}

/// Undoes the escaping of one field.
pub fn unescape(s: &str) -> (r: Option<String>)
    ensures
        match spec_unescape(s@) {
            Some(t) => r matches Some(u) && u@ == t,
            None => r is None,
        },
{
    let n = s.unicode_len();
    let mut out = String::new();
    let mut i: usize = 0;
    proof {
        assert(s@.skip(0) =~= s@);
        match spec_unescape(s@) {
            Some(t) => {
                assert(out@ + t =~= t);
            },
            None => {},
        }
    }
    while i < n
        invariant
            i <= n,
            n == s@.len(),
            spec_unescape(s@) == match spec_unescape(s@.skip(i as int)) {
                Some(t) => Some(out@ + t),
                None => None::<Seq<char>>,
            },
        decreases n - i,
    {
        let ghost rem = s@.skip(i as int);
        proof {
            assert(rem.first() == s@[i as int]);
        }
        let c = s.get_char(i);
        if c == '\\' {
            if i + 1 >= n {
                proof {
                    assert(rem.len() < 2);
                    assert(spec_unescape(rem) is None);
                }
                return None;
            }
            let c2 = s.get_char(i + 1);
            proof {
                assert(rem[1] == s@[i + 1]);
                assert(rem.skip(2) =~= s@.skip(i + 2));
            }
            if c2 == '\\' {
                string_push(&mut out, '\\');
            } else if c2 == 'p' {
                string_push(&mut out, '|');
            } else if c2 == 'n' {
                string_push(&mut out, '\n');
            } else {
                proof {
                    assert(spec_unescape(rem) is None);
                }
                return None;
            }
            proof {
                let d = if c2 == '\\' {
                    '\\'
                } else if c2 == 'p' {
                    '|'
                } else {
                    '\n'
                };
                assert(out@.last() == d);
                match spec_unescape(s@.skip(i + 2)) {
                    Some(t2) => {
                        assert(spec_unescape(rem) == Some(seq![d] + t2));
                        assert(out@.drop_last() + (seq![d] + t2) =~= out@ + t2);
                    },
                    None => {},
                }
            }
            i += 2;
        } else {
            string_push(&mut out, c);
            proof {
                assert(rem.drop_first() =~= s@.skip(i + 1));
                match spec_unescape(s@.skip(i + 1)) {
                    Some(t2) => {
                        assert(spec_unescape(rem) == Some(seq![c] + t2));
                        assert(out@.drop_last() + (seq![c] + t2) =~= out@ + t2);
                    },
                    None => {},
                }
            }
            i += 1;
        }
    }
    proof {
        assert(s@.skip(n as int) =~= Seq::<char>::empty());
        assert(spec_unescape(Seq::<char>::empty()) == Some(Seq::<char>::empty()));
        assert(out@ + Seq::<char>::empty() =~= out@);
    }
    Some(out)
}

/// Unescaping undoes escaping: every string comes back from its record
/// form unchanged.
pub proof fn lemma_unescape_escape(s: Seq<char>)
    ensures
        spec_unescape(spec_escape(s)) == Some(s),
    decreases s.len(),
{
    if s.len() == 0 {
    } else {
        let c = s.first();
        let rest = s.drop_first();
        lemma_unescape_escape(rest);
        let e = spec_escape(s);
        assert(e =~= esc_char(c) + spec_escape(rest));
        if c == '\\' || c == '|' || c == '\n' {
            assert(e.len() >= 2);
            assert(e.first() == '\\');
            assert(e[1] == esc_char(c)[1]);
            assert(e.skip(2) =~= spec_escape(rest));
            assert(seq![c] + rest =~= s);
        } else {
            assert(e.first() == c);
            assert(c != '\\');
            assert(e.drop_first() =~= spec_escape(rest));
            assert(seq![c] + rest =~= s);
        }
    }
}

/// Escaping is injective: distinct strings have distinct record forms.
pub proof fn lemma_escape_injective(a: Seq<char>, b: Seq<char>)
    requires
        spec_escape(a) == spec_escape(b),
    ensures
        a == b,
{
    lemma_unescape_escape(a);
    lemma_unescape_escape(b);
}

/// The record form of an optional field: `-` when absent, `+` and the
/// escaped value when present.
pub open spec fn spec_opt_field(o: Option<String>) -> Seq<char> {
    match o {
        None => seq!['-'],
        Some(s) => seq!['+'] + spec_escape(s@),
    }
}

/// The record form of the metadata map: a separator-led escaped key
/// and value for each pair, in order.
pub open spec fn spec_meta(m: Seq<(String, String)>) -> Seq<char>
    decreases m.len(),
{
    if m.len() == 0 {
        Seq::empty()
    } else {
        seq!['|'] + spec_escape(m.first().0@) + seq!['|'] + spec_escape(m.first().1@) + spec_meta(
            m.drop_first(),
        )
    }
}

/// The one-line record form of an entry: id, timestamp, severity code,
/// escaped action, escaped description, the two optional fields and the
/// metadata pairs, separated by pipes and closed by a newline.
pub open spec fn spec_record(e: AuditLogEntry) -> Seq<char> {
    spec_dec(e.id as int) + seq!['|'] + spec_dec(e.timestamp as int) + seq!['|'] + seq![
        e.level.spec_code(),
    ] + seq!['|'] + spec_escape(e.action@) + seq!['|'] + spec_escape(e.description@) + seq!['|']
        + spec_opt_field(e.user_id) + seq!['|'] + spec_opt_field(e.ip_address) + spec_meta(
        e.metadata@,
    ) + seq!['\n']
}

/// Appends the record form of an optional field.
fn push_opt_field(out: &mut String, o: &Option<String>)
    ensures
        final(out)@ == old(out)@ + spec_opt_field(*o),
{
    match o {
        None => {
            string_push(out, '-');
        },
        Some(s) => {
            string_push(out, '+');
            let e = escape(s.as_str());
            out.append(e.as_str());
            proof {
                assert(old(out)@.push('+') + spec_escape(s@) =~= old(out)@ + (seq!['+']
                    + spec_escape(s@)));
            }
        },
    }
}

/// Encodes an entry as its one-line record form.
pub fn encode_record(e: &AuditLogEntry) -> (r: String)
    ensures
        r@ == spec_record(*e),
{
    let mut out = u64_to_string(e.id);
    string_push(&mut out, '|');
    let ts = u64_to_string(e.timestamp);
    out.append(ts.as_str());
    string_push(&mut out, '|');
    string_push(&mut out, e.level.code());
    string_push(&mut out, '|');
    let ea = escape(e.action.as_str());
    out.append(ea.as_str());
    string_push(&mut out, '|');
    let ed = escape(e.description.as_str());
    out.append(ed.as_str());
    string_push(&mut out, '|');
    push_opt_field(&mut out, &e.user_id);
    string_push(&mut out, '|');
    push_opt_field(&mut out, &e.ip_address);
    let ghost before_meta = out@;
    let n = e.metadata.len();
    let mut i: usize = 0;
    while i < n
        invariant
            i <= n,
            n == e.metadata@.len(),
            out@ == before_meta + spec_meta(e.metadata@.take(i as int)),
        decreases n - i,
    {
        string_push(&mut out, '|');
        let k = escape(e.metadata[i].0.as_str());
        out.append(k.as_str());
        string_push(&mut out, '|');
        let v = escape(e.metadata[i].1.as_str());
        out.append(v.as_str());
        proof {
            lemma_meta_snoc(e.metadata@, i as int);
        }
        i += 1;
    }
    string_push(&mut out, '\n');
    proof {
        assert(e.metadata@.take(n as int) =~= e.metadata@);
        assert(out@ =~= spec_record(*e));
    }
    out
}

/// Unfolds the metadata record form by one pair at the end.
proof fn lemma_meta_snoc(m: Seq<(String, String)>, i: int)
    requires
        0 <= i < m.len(),
    ensures
        spec_meta(m.take(i + 1)) == spec_meta(m.take(i)) + seq!['|'] + spec_escape(m[i].0@) + seq![
            '|',
        ] + spec_escape(m[i].1@),
    decreases i,
{
    if i == 0 {
        assert(m.take(1).first() == m[0]);
        assert(m.take(1).drop_first() =~= Seq::<(String, String)>::empty());
        assert(spec_meta(Seq::<(String, String)>::empty()) == Seq::<char>::empty());
        assert(m.take(0) =~= Seq::<(String, String)>::empty());
        assert(spec_meta(m.take(1)) == seq!['|'] + spec_escape(m.take(1).first().0@) + seq!['|']
            + spec_escape(m.take(1).first().1@) + spec_meta(m.take(1).drop_first()));
        assert(spec_meta(m.take(0)) + seq!['|'] + spec_escape(m[0].0@) + seq!['|'] + spec_escape(
            m[0].1@,
        ) =~= spec_meta(m.take(1)));
    } else {
        lemma_meta_snoc(m.drop_first(), i - 1);
        assert(m.take(i + 1).first() == m[0]);
        assert(m.take(i + 1).drop_first() =~= m.drop_first().take(i));
        assert(m.take(i).first() == m[0]);
        assert(m.take(i).drop_first() =~= m.drop_first().take(i - 1));
        assert(m.drop_first()[i - 1] == m[i]);
        assert(spec_meta(m.take(i + 1)) =~= seq!['|'] + spec_escape(m[0].0@) + seq!['|']
            + spec_escape(m[0].1@) + spec_meta(m.drop_first().take(i)));
        assert(spec_meta(m.take(i)) =~= seq!['|'] + spec_escape(m[0].0@) + seq!['|'] + spec_escape(
            m[0].1@,
        ) + spec_meta(m.drop_first().take(i - 1)));
        assert(spec_meta(m.take(i)) + seq!['|'] + spec_escape(m[i].0@) + seq!['|'] + spec_escape(
            m[i].1@,
        ) =~= spec_meta(m.take(i + 1)));
    }
}

} // verus!
