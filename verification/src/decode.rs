//! Reading audit records back: one encoded line is split at its
//! unescaped separators, each field is unescaped or parsed, and the
//! entry is rebuilt. Decoding is proved to undo encoding, so a durable
//! record loses nothing of its entry.

use vstd::prelude::*;
use crate::record::AuditLogEntry;
use crate::record::spec_record;
use crate::text::dec_digit;
use crate::text::string_push;
use crate::tier::LogLevel;
use crate::text::spec_dec;

verus! {

/// Is the character a decimal digit?
pub open spec fn is_digit(c: char) -> bool {
    48 <= c as u32 <= 57
}

/// The value of a digit character.
pub open spec fn digit_val(c: char) -> int {
    c as u32 - 48
}

/// The number a digit string denotes, most significant digit first;
/// `None` on any non-digit. The empty string denotes zero.
pub open spec fn spec_parse_digits(s: Seq<char>) -> Option<int>
    decreases s.len(),
{
    if s.len() == 0 {
        Some(0)
    } else {
        match spec_parse_digits(s.drop_last()) {
            Some(v) => if is_digit(s.last()) {
                Some(v * 10 + digit_val(s.last()))
            } else {
                None
            },
            None => None,
        }
    }
}

/// The number a field denotes as a `u64`: a non-empty all-digit string
/// whose value fits.
pub open spec fn spec_parse_u64(s: Seq<char>) -> Option<u64> {
    if s.len() == 0 {
        None
    } else {
        match spec_parse_digits(s) {
            Some(v) => if v <= u64::MAX {
                Some(v as u64)
            } else {
                None
            },
            None => None,
        }
    }
}

/// A parsed digit string denotes a nonnegative number.
proof fn lemma_parse_nonneg(s: Seq<char>)
    ensures
        spec_parse_digits(s) matches Some(v) ==> v >= 0,
    decreases s.len(),
{
    if s.len() > 0 {
        lemma_parse_nonneg(s.drop_last());
    }
}

/// Parsing fails on the whole string once it fails on a prefix.
proof fn lemma_parse_none_extends(s: Seq<char>, k: int)
    requires
        0 <= k <= s.len(),
        spec_parse_digits(s.take(k)) is None,
    ensures
        spec_parse_digits(s) is None,
    decreases s.len() - k,
{
    if k < s.len() {
        assert(s.take(k + 1).drop_last() =~= s.take(k));
        lemma_parse_none_extends(s, k + 1);
    } else {
        assert(s.take(k) =~= s);
    }
}

/// Along a digit string, prefix values never decrease.
proof fn lemma_parse_prefix_le(s: Seq<char>, k: int)
    requires
        0 <= k <= s.len(),
        spec_parse_digits(s) is Some,
    ensures
        spec_parse_digits(s.take(k)) matches Some(v) && v <= spec_parse_digits(s)->Some_0,
    decreases s.len() - k,
{
    if k == s.len() {
        assert(s.take(k) =~= s);
    } else {
        lemma_parse_prefix_le(s, k + 1);
        assert(s.take(k + 1).drop_last() =~= s.take(k));
        let v1 = spec_parse_digits(s.take(k + 1))->Some_0;
        let v0 = spec_parse_digits(s.take(k))->Some_0;
        lemma_parse_nonneg(s.take(k));
        assert(v1 == v0 * 10 + digit_val(s.take(k + 1).last()));
        assert(v0 <= v1) by (nonlinear_arith)
            requires
                v0 >= 0,
                v1 == v0 * 10 + digit_val(s.take(k + 1).last()),
                0 <= digit_val(s.take(k + 1).last()),
        ;
    }
}

/// The decimal rendering of a number parses back to that number.
pub proof fn lemma_parse_dec(n: int)
    requires
        n >= 0,
    ensures
        spec_parse_digits(spec_dec(n)) == Some(n),
        spec_dec(n).len() > 0,
    decreases n,
{
    if n < 10 {
        let s = spec_dec(n);
        assert(s =~= seq![dec_digit(n)]);
        assert(s.drop_last() =~= Seq::<char>::empty());
        assert(spec_parse_digits(s.drop_last()) == Some(0int));
        assert(is_digit(s.last()));
        assert(digit_val(s.last()) == n);
    } else {
        lemma_parse_dec(n / 10);
        let s = spec_dec(n);
        assert(s == spec_dec(n / 10).push(dec_digit(n % 10)));
        assert(s.drop_last() =~= spec_dec(n / 10));
        assert(s.last() == dec_digit(n % 10));
        assert(is_digit(s.last()));
        assert(digit_val(s.last()) == n % 10);
        assert((n / 10) * 10 + n % 10 == n) by (nonlinear_arith)
            requires
                n >= 0,
        ;
    }
}

/// A `u64` rendered in decimal parses back to itself.
pub proof fn lemma_parse_u64_dec(n: u64)
    ensures
        spec_parse_u64(spec_dec(n as int)) == Some(n),
{
    lemma_parse_dec(n as int);
}

/// Parses a whole field as a decimal `u64`.
pub fn parse_u64(s: &str) -> (r: Option<u64>)
    ensures
        r == spec_parse_u64(s@),
{
    let n = s.unicode_len();
    if n == 0 {
        return None;
    }
    let mut acc: u64 = 0;
    let mut i: usize = 0;
    while i < n
        invariant
            i <= n,
            n == s@.len(),
            n > 0,
            spec_parse_digits(s@.take(i as int)) == Some(acc as int),
        decreases n - i,
    {
        let c = s.get_char(i);
        let v = c as u32;
        proof {
            assert(s@.take(i + 1).drop_last() =~= s@.take(i as int));
            assert(s@.take(i + 1).last() == s@[i as int]);
        }
        if v < 48 || v > 57 {
            proof {
                assert(spec_parse_digits(s@.take(i + 1)) is None);
                lemma_parse_none_extends(s@, i + 1);
            }
            return None;
        }
        let d = (v - 48) as u64;
        if acc > (u64::MAX - d) / 10 {
            proof {
                let big = spec_parse_digits(s@.take(i + 1));
                assert(big matches Some(w) && w == (acc as int) * 10 + d);
                assert((acc as int) * 10 + d > u64::MAX) by (nonlinear_arith)
                    requires
                        acc > (u64::MAX - d) / 10,
                        0 <= d <= 9,
                        0 <= acc <= u64::MAX,
                ;
                if spec_parse_digits(s@) is Some {
                    lemma_parse_prefix_le(s@, i + 1);
                }
            }
            return None;
        }
        proof {
            assert((acc as int) * 10 + d <= u64::MAX) by (nonlinear_arith)
                requires
                    acc <= (u64::MAX - d) / 10,
                    0 <= d <= 9,
                    0 <= acc,
            ;
        }
        acc = acc * 10 + d;
        i += 1;
    }
    proof {
        assert(s@.take(n as int) =~= s@);
    }
    Some(acc)
}


/// The text can stand as one field of a record: every backslash opens
/// a complete two-character escape, and no unescaped separator or
/// terminator occurs.
pub open spec fn field_text(f: Seq<char>) -> bool
    decreases f.len(),
{
    if f.len() == 0 {
        true
    } else if f.first() == '\\' {
        f.len() >= 2 && field_text(f.skip(2))
    } else {
        f.first() != '|' && f.first() != '\n' && field_text(f.drop_first())
    }
}

/// Field texts are closed under concatenation.
proof fn lemma_field_text_append(a: Seq<char>, b: Seq<char>)
    requires
        field_text(a),
        field_text(b),
    ensures
        field_text(a + b),
    decreases a.len(),
{
    if a.len() == 0 {
        assert(a + b =~= b);
    } else if a.first() == '\\' {
        assert((a + b).skip(2) =~= a.skip(2) + b);
        lemma_field_text_append(a.skip(2), b);
    } else {
        assert((a + b).drop_first() =~= a.drop_first() + b);
        lemma_field_text_append(a.drop_first(), b);
    }
}

/// A decimal rendering is a field text.
proof fn lemma_field_text_dec(n: int)
    requires
        n >= 0,
    ensures
        field_text(spec_dec(n)),
    decreases n,
{
    let k = if n < 10 { n } else { n % 10 };
    let d = dec_digit(k);
    assert(field_text(seq![d])) by {
        assert(0 <= k < 10);
        assert(d != '\\' && d != '|' && d != '\n');
        assert(seq![d].first() == d);
        assert(seq![d].drop_first() =~= Seq::<char>::empty());
        assert(field_text(Seq::<char>::empty()));
    }
    if n < 10 {
    } else {
        lemma_field_text_dec(n / 10);
        assert(spec_dec(n) =~= spec_dec(n / 10) + seq![d]);
        lemma_field_text_append(spec_dec(n / 10), seq![d]);
    }
}

/// An escaped string is a field text.
proof fn lemma_field_text_escape(s: Seq<char>)
    ensures
        field_text(crate::record::spec_escape(s)),
    decreases s.len(),
{
    if s.len() == 0 {
    } else {
        let c = s.first();
        let e0 = crate::record::esc_char(c);
        lemma_field_text_escape(s.drop_first());
        assert(field_text(e0)) by {
            assert(field_text(Seq::<char>::empty()));
            if c == '\\' || c == '|' || c == '\n' {
                assert(e0.len() == 2);
                assert(e0.first() == '\\');
                assert(e0.skip(2) =~= Seq::<char>::empty());
            } else {
                assert(e0 =~= seq![c]);
                assert(seq![c].first() == c);
                assert(seq![c].drop_first() =~= Seq::<char>::empty());
                assert(field_text(seq![c]));
            }
        }
        lemma_field_text_append(e0, crate::record::spec_escape(s.drop_first()));
        assert(crate::record::spec_escape(s) == e0 + crate::record::spec_escape(s.drop_first()));
    }
}

/// An optional field's record form is a field text.
proof fn lemma_field_text_opt(o: Option<String>)
    ensures
        field_text(crate::record::spec_opt_field(o)),
{
    match o {
        None => {
            assert(field_text(Seq::<char>::empty()));
            assert(seq!['-'].first() == '-');
            assert('-' != '\\' && '-' != '|' && '-' != '\n');
            assert(seq!['-'].drop_first() =~= Seq::<char>::empty());
            assert(field_text(seq!['-']));
        },
        Some(s) => {
            assert(field_text(seq!['+'])) by {
                assert(field_text(Seq::<char>::empty()));
                assert(seq!['+'].first() == '+');
                assert('+' != '\\' && '+' != '|' && '+' != '\n');
                assert(seq!['+'].drop_first() =~= Seq::<char>::empty());
            }
            lemma_field_text_escape(s@);
            lemma_field_text_append(seq!['+'], crate::record::spec_escape(s@));
            assert(crate::record::spec_opt_field(o) == seq!['+'] + crate::record::spec_escape(s@));
        },
    }
}

/// Splits a record body (the line without its terminator) at its
/// unescaped separators, keeping each field's text escaped; `None`
/// when the body holds a raw terminator or ends inside an escape.
pub open spec fn spec_split(s: Seq<char>) -> Option<Seq<Seq<char>>>
    decreases s.len(),
{
    if s.len() == 0 {
        Some(seq![Seq::<char>::empty()])
    } else if s.first() == '\n' {
        None
    } else if s.first() == '\\' {
        if s.len() < 2 {
            None
        } else {
            match spec_split(s.skip(2)) {
                Some(fs) => Some(fs.update(0, seq![s[0], s[1]] + fs[0])),
                None => None,
            }
        }
    } else if s.first() == '|' {
        match spec_split(s.drop_first()) {
            Some(fs) => Some(seq![Seq::<char>::empty()] + fs),
            None => None,
        }
    } else {
        match spec_split(s.drop_first()) {
            Some(fs) => Some(fs.update(0, seq![s.first()] + fs[0])),
            None => None,
        }
    }
}

/// A split that succeeds yields at least one field.
proof fn lemma_split_nonempty(s: Seq<char>)
    ensures
        spec_split(s) matches Some(fs) ==> fs.len() >= 1,
    decreases s.len(),
{
    if s.len() == 0 {
    } else if s.first() == '\\' {
        if s.len() >= 2 {
            lemma_split_nonempty(s.skip(2));
        }
    } else {
        lemma_split_nonempty(s.drop_first());
    }
}

/// A lone field text splits into exactly that field.
proof fn lemma_split_single(f: Seq<char>)
    requires
        field_text(f),
    ensures
        spec_split(f) == Some(seq![f]),
    decreases f.len(),
{
    if f.len() == 0 {
        assert(Seq::<char>::empty() =~= f);
    } else if f.first() == '\\' {
        lemma_split_single(f.skip(2));
        lemma_split_nonempty(f.skip(2));
        let fs = seq![f.skip(2)];
        assert(seq![f[0], f[1]] + f.skip(2) =~= f);
        assert(fs.update(0, seq![f[0], f[1]] + fs[0]) =~= seq![f]);
    } else {
        lemma_split_single(f.drop_first());
        let fs = seq![f.drop_first()];
        assert(seq![f.first()] + f.drop_first() =~= f);
        assert(fs.update(0, seq![f.first()] + fs[0]) =~= seq![f]);
    }
}

/// Splitting a field text, a separator and a remainder yields the
/// field and then whatever the remainder yields.
proof fn lemma_split_concat(f: Seq<char>, rest: Seq<char>)
    requires
        field_text(f),
    ensures
        spec_split(f + seq!['|'] + rest) == match spec_split(rest) {
            Some(fs) => Some(seq![f] + fs),
            None => None::<Seq<Seq<char>>>,
        },
    decreases f.len(),
{
    let s = f + seq!['|'] + rest;
    if f.len() == 0 {
        assert(s =~= seq!['|'] + rest);
        assert(s.first() == '|');
        assert(s.drop_first() =~= rest);
        match spec_split(rest) {
            Some(fs) => {
                assert(f =~= Seq::<char>::empty());
                assert(seq![Seq::<char>::empty()] + fs =~= seq![f] + fs);
            },
            None => {},
        }
    } else if f.first() == '\\' {
        assert(s.first() == '\\');
        assert(s.len() >= 2);
        assert(s[1] == f[1]);
        assert(s.skip(2) =~= f.skip(2) + seq!['|'] + rest);
        lemma_split_concat(f.skip(2), rest);
        match spec_split(rest) {
            Some(fs0) => {
                let fs = seq![f.skip(2)] + fs0;
                assert(spec_split(s.skip(2)) == Some(fs));
                assert(fs[0] == f.skip(2));
                assert(seq![s[0], s[1]] + f.skip(2) =~= f);
                assert(fs.update(0, seq![s[0], s[1]] + fs[0]) =~= seq![f] + fs0);
            },
            None => {},
        }
    } else {
        assert(s.first() == f.first());
        assert(s.drop_first() =~= f.drop_first() + seq!['|'] + rest);
        lemma_split_concat(f.drop_first(), rest);
        match spec_split(rest) {
            Some(fs0) => {
                let fs = seq![f.drop_first()] + fs0;
                assert(spec_split(s.drop_first()) == Some(fs));
                assert(fs[0] == f.drop_first());
                assert(seq![s.first()] + f.drop_first() =~= f);
                assert(fs.update(0, seq![s.first()] + fs[0]) =~= seq![f] + fs0);
            },
            None => {},
        }
    }
}

/// The escaped field texts of the metadata pairs, in order.
pub open spec fn meta_fields(m: Seq<(String, String)>) -> Seq<Seq<char>>
    decreases m.len(),
{
    if m.len() == 0 {
        Seq::empty()
    } else {
        seq![
            crate::record::spec_escape(m.first().0@),
            crate::record::spec_escape(m.first().1@),
        ] + meta_fields(m.drop_first())
    }
}

/// The metadata contributes two fields per pair.
proof fn lemma_meta_fields_len(m: Seq<(String, String)>)
    ensures
        meta_fields(m).len() == 2 * m.len(),
    decreases m.len(),
{
    if m.len() > 0 {
        lemma_meta_fields_len(m.drop_first());
    }
}

/// Which fields the metadata pairs stand in.
proof fn lemma_meta_fields_index(m: Seq<(String, String)>, t: int)
    requires
        0 <= t < m.len(),
    ensures
        meta_fields(m).len() == 2 * m.len(),
        meta_fields(m)[2 * t] == crate::record::spec_escape(m[t].0@),
        meta_fields(m)[2 * t + 1] == crate::record::spec_escape(m[t].1@),
    decreases t,
{
    lemma_meta_fields_len(m);
    if t == 0 {
    } else {
        lemma_meta_fields_index(m.drop_first(), t - 1);
        assert(m.drop_first()[t - 1] == m[t]);
    }
}

/// Splitting a field text followed by the metadata's record form
/// yields the field and then the metadata fields.
proof fn lemma_split_tail(f: Seq<char>, m: Seq<(String, String)>)
    requires
        field_text(f),
    ensures
        spec_split(f + crate::record::spec_meta(m)) == Some(seq![f] + meta_fields(m)),
    decreases m.len(),
{
    if m.len() == 0 {
        assert(f + crate::record::spec_meta(m) =~= f);
        lemma_split_single(f);
        assert(seq![f] + meta_fields(m) =~= seq![f]);
    } else {
        let a = crate::record::spec_escape(m.first().0@);
        let b = crate::record::spec_escape(m.first().1@);
        let tail = crate::record::spec_meta(m.drop_first());
        assert(crate::record::spec_meta(m) == seq!['|'] + a + seq!['|'] + b + tail);
        lemma_field_text_escape(m.first().0@);
        lemma_field_text_escape(m.first().1@);
        lemma_split_tail(b, m.drop_first());
        lemma_split_concat(a, b + tail);
        assert(a + seq!['|'] + (b + tail) =~= a + seq!['|'] + b + tail);
        assert(spec_split(a + seq!['|'] + b + tail) == Some(
            seq![a] + (seq![b] + meta_fields(m.drop_first())),
        ));
        lemma_split_concat(f, a + seq!['|'] + b + tail);
        assert(f + crate::record::spec_meta(m) =~= f + seq!['|'] + (a + seq!['|'] + b + tail));
        assert(seq![f] + (seq![a] + (seq![b] + meta_fields(m.drop_first()))) =~= seq![f]
            + meta_fields(m));
    }
}


/// The escaped field texts of a whole record, in order: id, timestamp,
/// severity code, action, description, the two optional fields, and
/// the metadata pairs.
pub open spec fn record_fields(e: AuditLogEntry) -> Seq<Seq<char>> {
    seq![
        spec_dec(e.id as int),
        spec_dec(e.timestamp as int),
        seq![e.level.spec_code()],
        crate::record::spec_escape(e.action@),
        crate::record::spec_escape(e.description@),
        crate::record::spec_opt_field(e.user_id),
        crate::record::spec_opt_field(e.ip_address),
    ] + meta_fields(e.metadata@)
}

/// A record line ends in the terminator, and splitting what precedes
/// it recovers exactly the record's fields.
#[verifier::rlimit(60)]
pub proof fn lemma_split_record(e: AuditLogEntry)
    ensures
        spec_record(e).len() >= 1,
        spec_record(e).last() == '\n',
        spec_split(spec_record(e).drop_last()) == Some(record_fields(e)),
{
    let f1 = spec_dec(e.id as int);
    let f2 = spec_dec(e.timestamp as int);
    let f3 = seq![e.level.spec_code()];
    let f4 = crate::record::spec_escape(e.action@);
    let f5 = crate::record::spec_escape(e.description@);
    let f6 = crate::record::spec_opt_field(e.user_id);
    let f7 = crate::record::spec_opt_field(e.ip_address);
    let mt = crate::record::spec_meta(e.metadata@);
    let sep = seq!['|'];
    lemma_field_text_dec(e.id as int);
    lemma_field_text_dec(e.timestamp as int);
    assert(field_text(f3)) by {
        assert(field_text(Seq::<char>::empty()));
        let c = e.level.spec_code();
        assert(c != '\\' && c != '|' && c != '\n');
        assert(f3.first() == c);
        assert(f3.drop_first() =~= Seq::<char>::empty());
    }
    lemma_field_text_escape(e.action@);
    lemma_field_text_escape(e.description@);
    lemma_field_text_opt(e.user_id);
    lemma_field_text_opt(e.ip_address);

    let r7 = f7 + mt;
    let r6 = f6 + sep + r7;
    let r5 = f5 + sep + r6;
    let r4 = f4 + sep + r5;
    let r3 = f3 + sep + r4;
    let r2 = f2 + sep + r3;
    let r1 = f1 + sep + r2;

    lemma_split_tail(f7, e.metadata@);
    lemma_split_concat(f6, r7);
    lemma_split_concat(f5, r6);
    lemma_split_concat(f4, r5);
    lemma_split_concat(f3, r4);
    lemma_split_concat(f2, r3);
    lemma_split_concat(f1, r2);

    assert(spec_split(r1) == Some(
        seq![f1] + (seq![f2] + (seq![f3] + (seq![f4] + (seq![f5] + (seq![f6] + (seq![f7]
            + meta_fields(e.metadata@))))))),
    ));
    assert(seq![f1] + (seq![f2] + (seq![f3] + (seq![f4] + (seq![f5] + (seq![f6] + (seq![f7]
        + meta_fields(e.metadata@))))))) =~= record_fields(e));

    assert(spec_record(e) =~= r1 + seq!['\n']);
    assert(spec_record(e).drop_last() =~= r1);
    assert(spec_record(e).last() == '\n');
}

/// Splits an encoded line into its escaped fields: the line must end
/// in the terminator and hold no other terminator and no dangling
/// escape; otherwise nothing is returned.
fn split_line(line: &str) -> (r: Option<Vec<String>>)
    ensures
        ({
            let ok = line@.len() >= 1 && line@.last() == '\n';
            &&& (!ok ==> r is None)
            &&& (ok ==> match spec_split(line@.drop_last()) {
                Some(fs) => r matches Some(v) && v@.len() == fs.len() && (forall|j: int|
                    0 <= j < fs.len() ==> (#[trigger] v@[j])@ == fs[j]),
                None => r is None,
            })
        }),
{
    let n = line.unicode_len();
    if n == 0 {
        return None;
    }
    if line.get_char(n - 1) != '\n' {
        return None;
    }
    let ghost body = line@.drop_last();
    let m = n - 1;
    proof {
        assert(body.len() == m);
        assert(forall|j: int| 0 <= j < m ==> body[j] == line@[j]);
    }
    let mut fields: Vec<String> = Vec::new();
    let ghost dv = Seq::<Seq<char>>::empty();
    let mut cur = String::new();
    let mut i: usize = 0;
    proof {
        assert(body.skip(0) =~= body);
        match spec_split(body) {
            Some(fs) => {
                lemma_split_nonempty(body);
                assert(dv + seq![cur@ + fs[0]] + fs.drop_first() =~= seq![fs[0]]
                    + fs.drop_first());
                assert(seq![fs[0]] + fs.drop_first() =~= fs);
            },
            None => {},
        }
    }
    while i < m
        invariant
            i <= m,
            m == body.len(),
            m + 1 == line@.len(),
            body == line@.drop_last(),
            forall|j: int| 0 <= j < m ==> body[j] == line@[j],
            fields@.len() == dv.len(),
            forall|j: int| 0 <= j < dv.len() ==> (#[trigger] fields@[j])@ == dv[j],
            spec_split(body) == match spec_split(body.skip(i as int)) {
                Some(fs) => Some(dv + seq![cur@ + fs[0]] + fs.drop_first()),
                None => None::<Seq<Seq<char>>>,
            },
        decreases m - i,
    {
        let ghost rem = body.skip(i as int);
        let ghost cur0 = cur@;
        let ghost dv0 = dv;
        proof {
            assert(rem.first() == body[i as int]);
            lemma_split_nonempty(rem);
        }
        let c = line.get_char(i);
        if c == '\n' {
            proof {
                assert(spec_split(rem) is None);
            }
            return None;
        } else if c == '\\' {
            if i + 1 >= m {
                proof {
                    assert(rem.len() < 2);
                    assert(spec_split(rem) is None);
                }
                return None;
            }
            let c2 = line.get_char(i + 1);
            string_push(&mut cur, c);
            string_push(&mut cur, c2);
            proof {
                assert(rem[1] == body[i + 1]);
                assert(rem.skip(2) =~= body.skip(i + 2));
                assert(cur@ == cur0.push(c).push(c2));
                match spec_split(body.skip(i + 2)) {
                    Some(fs2) => {
                        lemma_split_nonempty(body.skip(i + 2));
                        let fsu = fs2.update(0, seq![rem[0], rem[1]] + fs2[0]);
                        assert(spec_split(rem) == Some(fsu));
                        assert(fsu.drop_first() =~= fs2.drop_first());
                        assert(cur0 + (seq![rem[0], rem[1]] + fs2[0]) =~= cur@ + fs2[0]);
                        assert(dv0 + seq![cur0 + fsu[0]] + fsu.drop_first() =~= dv + seq![cur@
                            + fs2[0]] + fs2.drop_first());
                    },
                    None => {
                        assert(spec_split(rem) is None);
                    },
                }
            }
            i += 2;
        } else if c == '|' {
            let done = cur;
            cur = String::new();
            fields.push(done);
            proof {
                dv = dv.push(fields@.last()@);
                assert(dv == dv0.push(cur0));
                assert(rem.drop_first() =~= body.skip(i + 1));
                match spec_split(body.skip(i + 1)) {
                    Some(fs2) => {
                        lemma_split_nonempty(body.skip(i + 1));
                        let fsu = seq![Seq::<char>::empty()] + fs2;
                        assert(spec_split(rem) == Some(fsu));
                        assert(fsu[0] =~= Seq::<char>::empty());
                        assert(fsu.drop_first() =~= fs2);
                        assert(cur0 + fsu[0] =~= cur0);
                        assert(cur@ + fs2[0] =~= fs2[0]);
                        assert(dv0 + seq![cur0 + fsu[0]] + fsu.drop_first() =~= dv + seq![cur@
                            + fs2[0]] + fs2.drop_first()) by {
                            assert(dv0 + seq![cur0] =~= dv);
                            assert(seq![fs2[0]] + fs2.drop_first() =~= fs2);
                            assert(dv0 + seq![cur0] + fs2 =~= dv + (seq![fs2[0]]
                                + fs2.drop_first()));
                            assert(dv0 + seq![cur0 + fsu[0]] + fsu.drop_first() =~= dv0 + seq![
                                cur0,
                            ] + fs2);
                            assert(dv + seq![cur@ + fs2[0]] + fs2.drop_first() =~= dv + (seq![
                                fs2[0],
                            ] + fs2.drop_first()));
                        }
                    },
                    None => {
                        assert(spec_split(rem) is None);
                    },
                }
            }
            i += 1;
        } else {
            string_push(&mut cur, c);
            proof {
                assert(cur@ == cur0.push(c));
                assert(rem.drop_first() =~= body.skip(i + 1));
                match spec_split(body.skip(i + 1)) {
                    Some(fs2) => {
                        lemma_split_nonempty(body.skip(i + 1));
                        let fsu = fs2.update(0, seq![rem.first()] + fs2[0]);
                        assert(spec_split(rem) == Some(fsu));
                        assert(fsu.drop_first() =~= fs2.drop_first());
                        assert(cur0 + (seq![rem.first()] + fs2[0]) =~= cur@ + fs2[0]);
                        assert(dv0 + seq![cur0 + fsu[0]] + fsu.drop_first() =~= dv + seq![cur@
                            + fs2[0]] + fs2.drop_first());
                    },
                    None => {
                        assert(spec_split(rem) is None);
                    },
                }
            }
            i += 1;
        }
    }
    let ghost dv0 = dv;
    let ghost cur0 = cur@;
    fields.push(cur);
    proof {
        dv = dv.push(fields@.last()@);
        assert(dv == dv0.push(cur0));
        assert(body.skip(m as int) =~= Seq::<char>::empty());
        assert(spec_split(Seq::<char>::empty()) == Some(seq![Seq::<char>::empty()]));
        let fs = seq![Seq::<char>::empty()];
        assert(fs.drop_first() =~= Seq::<Seq<char>>::empty());
        assert(cur0 + fs[0] =~= cur0);
        assert(dv0 + seq![cur0 + fs[0]] + fs.drop_first() =~= dv) by {
            assert(dv0 + seq![cur0] =~= dv);
            assert(dv0 + seq![cur0 + fs[0]] + fs.drop_first() =~= dv0 + seq![cur0]);
        }
        assert(spec_split(body) == Some(dv));
    }
    Some(fields)
}


/// Reads a severity back from its single-character code.
fn level_from_code(f: &str) -> (r: Option<LogLevel>)
    ensures
        forall|lvl: LogLevel| f@ == seq![lvl.spec_code()] ==> r == Some(lvl),
{
    let n = f.unicode_len();
    if n != 1 {
        return None;
    }
    let c = f.get_char(0);
    proof {
        assert(forall|lvl: LogLevel| f@ == seq![lvl.spec_code()] ==> c == lvl.spec_code());
    }
    if c == 'I' {
        Some(LogLevel::Info)
    } else if c == 'W' {
        Some(LogLevel::Warning)
    } else if c == 'E' {
        Some(LogLevel::Error)
    } else if c == 'C' {
        Some(LogLevel::Critical)
    } else if c == 'S' {
        Some(LogLevel::Security)
    } else {
        None
    }
}

/// The view of an optional string field.
pub open spec fn opt_view(o: Option<String>) -> Option<Seq<char>> {
    match o {
        Some(s) => Some(s@),
        None => None,
    }
}

/// Reads an optional field back: a dash is an absent value, a plus
/// sign introduces the escaped value.
fn parse_opt(f: &str) -> (r: Option<Option<String>>)
    ensures
        forall|o: Option<String>|
            f@ == #[trigger] crate::record::spec_opt_field(o) ==> (r matches Some(d) && opt_view(d)
                == opt_view(o)),
{
    let n = f.unicode_len();
    if n == 0 {
        return None;
    }
    let c0 = f.get_char(0);
    if c0 == '-' {
        if n == 1 {
            proof {
                assert(forall|o: Option<String>|
                    f@ == crate::record::spec_opt_field(o) ==> o is None);
            }
            Some(None)
        } else {
            proof {
                assert forall|o: Option<String>|
                    f@ != crate::record::spec_opt_field(o) by {
                    match o {
                        None => {
                            assert(crate::record::spec_opt_field(o).len() == 1);
                        },
                        Some(s) => {
                            assert(crate::record::spec_opt_field(o)[0] == '+');
                        },
                    }
                }
            }
            None
        }
    } else if c0 == '+' {
        let rest = f.substring_char(1, n);
        proof {
            assert forall|o: Option<String>|
                f@ == crate::record::spec_opt_field(o) implies o is Some && rest@
                == crate::record::spec_escape(o->Some_0@) by {
                match o {
                    None => {
                        assert(crate::record::spec_opt_field(o)[0] == '-');
                    },
                    Some(s) => {
                        assert(rest@ =~= crate::record::spec_escape(s@));
                    },
                }
            }
        }
        match crate::record::unescape(rest) {
            Some(u) => {
                proof {
                    assert forall|o: Option<String>|
                        f@ == crate::record::spec_opt_field(o) implies u@ == o->Some_0@ by {
                        crate::record::lemma_unescape_escape(o->Some_0@);
                    }
                }
                Some(Some(u))
            },
            None => {
                proof {
                    assert forall|o: Option<String>|
                        f@ != crate::record::spec_opt_field(o) by {
                        if f@ == crate::record::spec_opt_field(o) {
                            crate::record::lemma_unescape_escape(o->Some_0@);
                        }
                    }
                }
                None
            },
        }
    } else {
        proof {
            assert forall|o: Option<String>| f@ != crate::record::spec_opt_field(o) by {
                match o {
                    None => {
                        assert(crate::record::spec_opt_field(o)[0] == '-');
                    },
                    Some(s) => {
                        assert(crate::record::spec_opt_field(o)[0] == '+');
                    },
                }
            }
        }
        None
    }
}

/// The decoded entry shows exactly what the encoded one did: every
/// field agrees, the texts character for character.
pub open spec fn entry_view_eq(a: AuditLogEntry, b: AuditLogEntry) -> bool {
    &&& a.id == b.id
    &&& a.timestamp == b.timestamp
    &&& a.level == b.level
    &&& a.action@ == b.action@
    &&& a.description@ == b.description@
    &&& opt_view(a.user_id) == opt_view(b.user_id)
    &&& opt_view(a.ip_address) == opt_view(b.ip_address)
    &&& a.metadata@.len() == b.metadata@.len()
    &&& forall|t: int|
        0 <= t < a.metadata@.len() ==> (#[trigger] a.metadata@[t]).0@ == b.metadata@[t].0@
            && a.metadata@[t].1@ == b.metadata@[t].1@
}

/// Reads one encoded line back into an entry. Decoding undoes
/// encoding: a line some entry encodes to always decodes, to an entry
/// that agrees with it field for field.
#[verifier::rlimit(100)]
pub fn decode_record(line: &str) -> (r: Option<AuditLogEntry>)
    ensures
        forall|e: AuditLogEntry|
            line@ == #[trigger] spec_record(e) ==> (r matches Some(d) && entry_view_eq(d, e)),
{
    let fields = match split_line(line) {
        Some(f) => f,
        None => {
            proof {
                assert forall|e: AuditLogEntry| line@ != #[trigger] spec_record(e) by {
                    if line@ == spec_record(e) {
                        lemma_split_record(e);
                    }
                }
            }
            return None;
        },
    };
    let nf = fields.len();
    proof {
        assert forall|e: AuditLogEntry|
            line@ == #[trigger] spec_record(e) implies fields@.len() == record_fields(e).len()
            && (forall|j: int|
            0 <= j < record_fields(e).len() ==> (#[trigger] fields@[j])@ == record_fields(
                e,
            )[j]) by {
            lemma_split_record(e);
        }
    }
    if nf < 7 || (nf - 7) % 2 != 0 {
        proof {
            assert forall|e: AuditLogEntry| line@ != #[trigger] spec_record(e) by {
                if line@ == spec_record(e) {
                    lemma_meta_fields_len(e.metadata@);
                }
            }
        }
        return None;
    }
    let id = match parse_u64(fields[0].as_str()) {
        Some(x) => x,
        None => {
            proof {
                assert forall|e: AuditLogEntry| line@ != #[trigger] spec_record(e) by {
                    if line@ == spec_record(e) {
                        lemma_parse_u64_dec(e.id);
                    }
                }
            }
            return None;
        },
    };
    let ts = match parse_u64(fields[1].as_str()) {
        Some(x) => x,
        None => {
            proof {
                assert forall|e: AuditLogEntry| line@ != #[trigger] spec_record(e) by {
                    if line@ == spec_record(e) {
                        lemma_parse_u64_dec(e.timestamp);
                    }
                }
            }
            return None;
        },
    };
    let level = match level_from_code(fields[2].as_str()) {
        Some(l) => l,
        None => {
            proof {
                assert forall|e: AuditLogEntry| line@ != #[trigger] spec_record(e) by {}
            }
            return None;
        },
    };
    let action = match crate::record::unescape(fields[3].as_str()) {
        Some(a) => a,
        None => {
            proof {
                assert forall|e: AuditLogEntry| line@ != #[trigger] spec_record(e) by {
                    if line@ == spec_record(e) {
                        crate::record::lemma_unescape_escape(e.action@);
                    }
                }
            }
            return None;
        },
    };
    let description = match crate::record::unescape(fields[4].as_str()) {
        Some(d) => d,
        None => {
            proof {
                assert forall|e: AuditLogEntry| line@ != #[trigger] spec_record(e) by {
                    if line@ == spec_record(e) {
                        crate::record::lemma_unescape_escape(e.description@);
                    }
                }
            }
            return None;
        },
    };
    let user_id = match parse_opt(fields[5].as_str()) {
        Some(u) => u,
        None => {
            proof {
                assert forall|e: AuditLogEntry| line@ != #[trigger] spec_record(e) by {}
            }
            return None;
        },
    };
    let ip_address = match parse_opt(fields[6].as_str()) {
        Some(u) => u,
        None => {
            proof {
                assert forall|e: AuditLogEntry| line@ != #[trigger] spec_record(e) by {}
            }
            return None;
        },
    };
    let mut metadata: Vec<(String, String)> = Vec::new();
    let mut j: usize = 7;
    while j < nf
        invariant
            7 <= j <= nf,
            (j - 7) % 2 == 0,
            (nf - 7) % 2 == 0,
            nf == fields@.len(),
            forall|e: AuditLogEntry|
                line@ == #[trigger] spec_record(e) ==> fields@.len() == record_fields(e).len()
                    && (forall|q: int|
                    0 <= q < record_fields(e).len() ==> (#[trigger] fields@[q])@ == record_fields(
                        e,
                    )[q]),
            metadata@.len() == (j - 7) / 2,
            forall|t: int|
                0 <= t < metadata@.len() ==> crate::record::spec_unescape(
                    fields@[7 + 2 * t]@,
                ) == Some((#[trigger] metadata@[t]).0@) && crate::record::spec_unescape(
                    fields@[8 + 2 * t]@,
                ) == Some(metadata@[t].1@),
        decreases nf - j,
    {
        let k = match crate::record::unescape(fields[j].as_str()) {
            Some(k) => k,
            None => {
                proof {
                    assert forall|e: AuditLogEntry| line@ != #[trigger] spec_record(e) by {
                        if line@ == spec_record(e) {
                            lemma_split_record(e);
                            lemma_meta_fields_len(e.metadata@);
                            assert(fields@.len() == record_fields(e).len());
                            assert(record_fields(e).len() == 7 + 2 * e.metadata@.len());
                            let t = (j - 7) / 2;
                            assert(j < nf && (j - 7) % 2 == 0);
                            assert(0 <= t < e.metadata@.len());
                            lemma_meta_fields_index(e.metadata@, t as int);
                            assert(fields@[j as int]@ == record_fields(e)[j as int]);
                            assert(record_fields(e)[j as int] == crate::record::spec_escape(
                                e.metadata@[t as int].0@,
                            ));
                            crate::record::lemma_unescape_escape(e.metadata@[t as int].0@);
                        }
                    }
                }
                return None;
            },
        };
        let v = match crate::record::unescape(fields[j + 1].as_str()) {
            Some(v) => v,
            None => {
                proof {
                    assert forall|e: AuditLogEntry| line@ != #[trigger] spec_record(e) by {
                        if line@ == spec_record(e) {
                            lemma_split_record(e);
                            lemma_meta_fields_len(e.metadata@);
                            assert(fields@.len() == record_fields(e).len());
                            assert(record_fields(e).len() == 7 + 2 * e.metadata@.len());
                            let t = (j - 7) / 2;
                            assert(j < nf && (j - 7) % 2 == 0);
                            assert(0 <= t < e.metadata@.len());
                            lemma_meta_fields_index(e.metadata@, t as int);
                            assert(fields@[j + 1]@ == record_fields(e)[j + 1]);
                            assert(record_fields(e)[j + 1] == crate::record::spec_escape(
                                e.metadata@[t as int].1@,
                            ));
                            crate::record::lemma_unescape_escape(e.metadata@[t as int].1@);
                        }
                    }
                }
                return None;
            },
        };
        metadata.push((k, v));
        j += 2;
    }
    let out = AuditLogEntry { id, timestamp: ts, level, action, description, user_id, ip_address, metadata };
    proof {
        assert forall|e: AuditLogEntry|
            line@ == #[trigger] spec_record(e) implies entry_view_eq(out, e) by {
            lemma_split_record(e);
            lemma_meta_fields_len(e.metadata@);
            lemma_parse_u64_dec(e.id);
            lemma_parse_u64_dec(e.timestamp);
            crate::record::lemma_unescape_escape(e.action@);
            crate::record::lemma_unescape_escape(e.description@);
            assert(out.metadata@.len() == e.metadata@.len());
            assert forall|t: int|
                0 <= t < out.metadata@.len() implies (#[trigger] out.metadata@[t]).0@
                == e.metadata@[t].0@ && out.metadata@[t].1@ == e.metadata@[t].1@ by {
                lemma_meta_fields_index(e.metadata@, t);
                crate::record::lemma_unescape_escape(e.metadata@[t].0@);
                crate::record::lemma_unescape_escape(e.metadata@[t].1@);
            }
        }
    }
    Some(out)
}

} // verus!
