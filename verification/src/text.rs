//! Small verified text utilities: character-wise string equality,
//! substring search, and decimal rendering of integers. These back the
//! rule registry's duplicate check, the audit search's action filter,
//! and the audit record encoding.

use vstd::prelude::*;

verus! {

/// Relies on `String::push`: appends exactly the one given character at
/// the end of the string.
#[verifier::external_body]
pub(crate) fn string_push(s: &mut String, c: char)
    ensures
        final(s)@ == old(s)@.push(c),
{
    s.push(c);
}

/// Character-wise equality of two string slices.
pub fn str_eq(a: &str, b: &str) -> (r: bool)
    ensures
        r == (a@ == b@),
{
    let an = a.unicode_len();
    let bn = b.unicode_len();
    if an != bn {
        proof {
            assert(a@.len() != b@.len());
        }
        return false;
    }
    let mut i: usize = 0;
    while i < an
        invariant
            i <= an,
            an == a@.len(),
            an == b@.len(),
            forall|j: int| 0 <= j < i ==> a@[j] == b@[j],
        decreases an - i,
    {
        if a.get_char(i) != b.get_char(i) {
            return false;
        }
        i += 1;
    }
    proof {
        assert(a@ =~= b@);
    }
    true
}

/// The needle occurs in the haystack starting at position `i`.
pub open spec fn matches_at(hay: Seq<char>, needle: Seq<char>, i: int) -> bool {
    &&& 0 <= i
    &&& i + needle.len() <= hay.len()
    &&& forall|j: int| 0 <= j < needle.len() ==> hay[i + j] == needle[j]
}

/// The needle occurs somewhere in the haystack.
pub open spec fn contains_seq(hay: Seq<char>, needle: Seq<char>) -> bool {
    exists|i: int| matches_at(hay, needle, i)
}

/// Substring search: does `needle` occur anywhere in `hay`?
pub fn contains_substring(hay: &str, needle: &str) -> (r: bool)
    ensures
        r == contains_seq(hay@, needle@),
{
    let hn = hay.unicode_len();
    let nn = needle.unicode_len();
    if nn > hn {
        return false;
    }
    let mut i: usize = 0;
    while i <= hn - nn
        invariant
            nn <= hn,
            hn == hay@.len(),
            nn == needle@.len(),
            i <= hn - nn + 1,
            forall|k: int| 0 <= k < i ==> !matches_at(hay@, needle@, k),
        decreases hn - nn + 1 - i,
    {
        let mut j: usize = 0;
        let mut mismatch = false;
        while j < nn
            invariant
                i + nn <= hn,
                hn == hay@.len(),
                nn == needle@.len(),
                j <= nn,
                !mismatch ==> forall|l: int| 0 <= l < j ==> hay@[i + l] == needle@[l],
                mismatch ==> !matches_at(hay@, needle@, i as int),
            decreases nn - j,
        {
            if hay.get_char(i + j) != needle.get_char(j) {
                mismatch = true;
                j = nn;
            } else {
                j += 1;
            }
        }
        if !mismatch {
            proof {
                assert(matches_at(hay@, needle@, i as int));
            }
            return true;
        }
        i += 1;
    }
    proof {
        assert forall|k: int| !matches_at(hay@, needle@, k) by {
            if 0 <= k && k + needle@.len() <= hay@.len() {
                assert(k < i);
            }
        }
    }
    false
}

/// The decimal digit character for a value below ten.
pub open spec fn dec_digit(d: int) -> char {
    ((48 + d) as u8) as char
}

/// The decimal rendering of a natural number, most significant digit
/// first, with no leading zeros (zero itself renders as "0").
pub open spec fn spec_dec(n: int) -> Seq<char>
    decreases n,
{
    if n < 10 {
        seq![dec_digit(n)]
    } else {
        spec_dec(n / 10).push(dec_digit(n % 10))
    }
}

/// Renders an integer in decimal.
pub fn u64_to_string(x: u64) -> (r: String)
    ensures
        r@ == spec_dec(x as int),
    decreases x,
{
    if x < 10 {
        let mut s = String::new();
        string_push(&mut s, ((48 + x) as u8) as char);
        proof {
            assert(Seq::<char>::empty().push(dec_digit(x as int)) =~= seq![
                dec_digit(x as int),
            ]);
        }
        s
    } else {
        let mut s = u64_to_string(x / 10);
        string_push(&mut s, ((48 + (x % 10)) as u8) as char);
        s
    }
}

/// How many characters the decimal rendering of `n` has.
pub open spec fn dec_len(n: int) -> int
    decreases n,
{
    if n < 10 {
        1
    } else {
        dec_len(n / 10) + 1
    }
}

pub proof fn lemma_spec_dec_len(n: int)
    requires
        0 <= n <= u64::MAX,
    ensures
        spec_dec(n).len() == dec_len(n),
        1 <= dec_len(n) <= 20,
{
    lemma_spec_dec_len_rec(n);
    reveal_with_fuel(pow10, 21);
    lemma_dec_len_bound(n, 20);
}

proof fn lemma_spec_dec_len_rec(n: int)
    requires
        n >= 0,
    ensures
        spec_dec(n).len() == dec_len(n),
        1 <= dec_len(n),
    decreases n,
{
    if n >= 10 {
        lemma_spec_dec_len_rec(n / 10);
    }
}

/// Ten to the `k`.
pub open spec fn pow10(k: int) -> int
    decreases k,
{
    if k <= 0 {
        1
    } else {
        10 * pow10(k - 1)
    }
}

/// A number below ten to the `k` renders in at most `k` digits.
proof fn lemma_dec_len_bound(n: int, k: int)
    requires
        n >= 0,
        k >= 1,
        n < pow10(k),
    ensures
        dec_len(n) <= k,
    decreases k,
{
    if n >= 10 {
        assert(pow10(k) == 10 * pow10(k - 1));
        lemma_dec_len_bound(n / 10, k - 1);
    }
}

/// The decimal rendering of `x`, left-padded with zeros to 20
/// characters, so that the character-wise order of two renderings
/// agrees with the numeric order.
pub open spec fn spec_dec_padded(x: int) -> Seq<char> {
    Seq::new((20 - dec_len(x)) as nat, |i: int| '0') + spec_dec(x)
}

/// Renders an integer in decimal, zero-padded to 20 characters.
pub fn u64_to_padded_string(x: u64) -> (r: String)
    ensures
        r@ == spec_dec_padded(x as int),
        r@.len() == 20,
{
    let digits = u64_to_string(x);
    let dn = digits.as_str().unicode_len();
    proof {
        lemma_spec_dec_len(x as int);
    }
    let mut s = String::new();
    let mut i: usize = 0;
    while i < 20 - dn
        invariant
            dn == dec_len(x as int),
            1 <= dn <= 20,
            i <= 20 - dn,
            s@ =~= Seq::new(i as nat, |k: int| '0'),
        decreases 20 - dn - i,
    {
        string_push(&mut s, '0');
        proof {
            assert(s@ =~= Seq::new((i + 1) as nat, |k: int| '0'));
        }
        i += 1;
    }
    s.append(digits.as_str());
    proof {
        assert(s@ =~= spec_dec_padded(x as int));
        lemma_spec_dec_len(x as int);
    }
    s
}


/// Strict lexicographic order on character sequences of equal length:
/// at the first differing position the left one's character code is
/// smaller.
pub open spec fn lex_lt(a: Seq<char>, b: Seq<char>) -> bool {
    exists|k: int|
        0 <= k < a.len() && k < b.len() && (forall|l: int| 0 <= l < k ==> a[l] == b[l]) && ((
        #[trigger] a[k]) as u32) < (b[k] as u32)
}

/// Appending one character each preserves the order, and breaks a tie
/// by the appended characters.
proof fn lemma_lex_push(p: Seq<char>, q: Seq<char>, x: char, y: char)
    requires
        p.len() == q.len(),
        lex_lt(p, q) || (p == q && (x as u32) < (y as u32)),
    ensures
        lex_lt(p.push(x), q.push(y)),
{
    if lex_lt(p, q) {
        let k = choose|k: int|
            0 <= k < p.len() && k < q.len() && (forall|l: int| 0 <= l < k ==> p[l] == q[l]) && ((
            #[trigger] p[k]) as u32) < (q[k] as u32);
        assert(p.push(x)[k] == p[k]);
        assert(q.push(y)[k] == q[k]);
        assert(forall|l: int| 0 <= l < k ==> p.push(x)[l] == q.push(y)[l]);
    } else {
        let k = p.len() as int;
        assert(p.push(x)[k] == x);
        assert(q.push(y)[k] == y);
        assert(forall|l: int| 0 <= l < k ==> p.push(x)[l] == q.push(y)[l]);
    }
}

/// The decimal rendering of `x` zero-padded to width `w`.
pub open spec fn spec_dec_padded_to(x: int, w: int) -> Seq<char> {
    Seq::new((w - dec_len(x)) as nat, |i: int| '0') + spec_dec(x)
}

/// A padded rendering unrolls by its last digit.
proof fn lemma_padded_unroll(m: int, v: int)
    requires
        v >= 2,
        0 <= m,
        dec_len(m) <= v,
    ensures
        dec_len(m / 10) <= v - 1,
        spec_dec_padded_to(m, v) == spec_dec_padded_to(m / 10, v - 1).push(dec_digit(m % 10)),
{
    if m < 10 {
        assert(m / 10 == 0);
        assert(dec_len(0) == 1);
        assert(spec_dec(0) =~= seq![dec_digit(0)]);
        assert(dec_digit(0) == '0');
        assert(m % 10 == m);
        assert(spec_dec(m) =~= seq![dec_digit(m)]);
        assert(spec_dec_padded_to(m, v) =~= spec_dec_padded_to(0, v - 1).push(dec_digit(m)));
    } else {
        assert(dec_len(m) == dec_len(m / 10) + 1);
        assert(spec_dec(m) == spec_dec(m / 10).push(dec_digit(m % 10)));
        assert(spec_dec_padded_to(m, v) =~= spec_dec_padded_to(m / 10, v - 1).push(
            dec_digit(m % 10),
        ));
    }
}

/// Among renderings padded to one width, the character order is the
/// numeric order.
proof fn lemma_padded_lt(a: int, b: int, v: int)
    requires
        v >= 1,
        0 <= a < b,
        dec_len(a) <= v,
        dec_len(b) <= v,
    ensures
        lex_lt(spec_dec_padded_to(a, v), spec_dec_padded_to(b, v)),
    decreases v,
{
    if v == 1 {
        assert(a < 10) by {
            if a >= 10 {
                lemma_spec_dec_len_rec(a / 10);
                assert(dec_len(a) == dec_len(a / 10) + 1);
            }
        }
        assert(b < 10) by {
            if b >= 10 {
                lemma_spec_dec_len_rec(b / 10);
                assert(dec_len(b) == dec_len(b / 10) + 1);
            }
        }
        let pa = spec_dec_padded_to(a, 1);
        let pb = spec_dec_padded_to(b, 1);
        assert(pa =~= seq![dec_digit(a)]);
        assert(pb =~= seq![dec_digit(b)]);
        assert((pa[0] as u32) < (pb[0] as u32));
        assert(forall|l: int| 0 <= l < 0 ==> pa[l] == pb[l]);
        assert(lex_lt(pa, pb));
    } else {
        lemma_padded_unroll(a, v);
        lemma_padded_unroll(b, v);
        assert(a / 10 <= b / 10 && (a / 10 == b / 10 ==> a % 10 < b % 10)) by (nonlinear_arith)
            requires
                0 <= a < b,
        ;
        assert(spec_dec_padded_to(a / 10, v - 1).len() == spec_dec_padded_to(
            b / 10,
            v - 1,
        ).len()) by {
            lemma_padded_width(a / 10, v - 1);
            lemma_padded_width(b / 10, v - 1);
        }
        if a / 10 < b / 10 {
            lemma_padded_lt(a / 10, b / 10, v - 1);
            lemma_lex_push(
                spec_dec_padded_to(a / 10, v - 1),
                spec_dec_padded_to(b / 10, v - 1),
                dec_digit(a % 10),
                dec_digit(b % 10),
            );
        } else {
            assert((dec_digit(a % 10) as u32) < (dec_digit(b % 10) as u32));
            lemma_lex_push(
                spec_dec_padded_to(a / 10, v - 1),
                spec_dec_padded_to(b / 10, v - 1),
                dec_digit(a % 10),
                dec_digit(b % 10),
            );
        }
    }
}

/// A rendering padded to a width that fits it has that width.
proof fn lemma_padded_width(x: int, w: int)
    requires
        x >= 0,
        dec_len(x) <= w,
    ensures
        spec_dec_padded_to(x, w).len() == w,
{
    lemma_spec_dec_len_rec(x);
}

/// Zero-padding renders numeric order as character order: of two
/// numbers the smaller one's padded rendering is lexicographically
/// first.
pub proof fn lemma_padded_order(x: u64, y: u64)
    requires
        x < y,
    ensures
        lex_lt(spec_dec_padded(x as int), spec_dec_padded(y as int)),
        spec_dec_padded(x as int).len() == 20,
        spec_dec_padded(y as int).len() == 20,
{
    lemma_spec_dec_len(x as int);
    lemma_spec_dec_len(y as int);
    assert(spec_dec_padded(x as int) =~= spec_dec_padded_to(x as int, 20));
    assert(spec_dec_padded(y as int) =~= spec_dec_padded_to(y as int, 20));
    lemma_padded_lt(x as int, y as int, 20);
    lemma_padded_width(x as int, 20);
    lemma_padded_width(y as int, 20);
}

} // verus!
