//! Numeric tokens: decimal float literals and signed attribute indices.

use vstd::prelude::*;

use crate::error::ParseError;

verus! {

pub open spec fn is_digit(b: u8) -> bool {
    0x30u8 <= b <= 0x39u8
}

pub open spec fn is_sign(b: u8) -> bool {
    b == 0x2bu8 || b == 0x2du8
}

pub open spec fn all_digits(s: Seq<u8>) -> bool {
    forall|i: int| 0 <= i < s.len() ==> is_digit(#[trigger] s[i])
}

/// `s` without its leading sign, if it has one.
pub open spec fn unsigned_part(s: Seq<u8>) -> Seq<u8> {
    if s.len() > 0 && is_sign(s[0]) {
        s.drop_first()
    } else {
        s
    }
}

/// Number of decimal digits at the start of `s`.
pub open spec fn digit_run(s: Seq<u8>) -> nat
    decreases s.len(),
{
    if s.len() == 0 || !is_digit(s[0]) {
        0
    } else {
        1 + digit_run(s.drop_first())
    }
}

pub open spec fn ascii_lower(b: u8) -> u8 {
    if 0x41u8 <= b <= 0x5au8 {
        (b + 0x20u8) as u8
    } else {
        b
    }
}

/// `inf`, `infinity` or `nan`, in any case.
pub open spec fn is_special(s: Seq<u8>) -> bool {
    let l = s.map_values(|b: u8| ascii_lower(b));
    l == seq![0x69u8, 0x6eu8, 0x66u8] || l == seq![
        0x69u8,
        0x6eu8,
        0x66u8,
        0x69u8,
        0x6eu8,
        0x69u8,
        0x74u8,
        0x79u8,
    ] || l == seq![0x6eu8, 0x61u8, 0x6eu8]
}

/// An exponent part: `e` or `E`, an optional sign, one digit or more.
pub open spec fn is_exponent(s: Seq<u8>) -> bool {
    s.len() >= 1 && (s[0] == 0x65u8 || s[0] == 0x45u8) && unsigned_part(s.drop_first()).len() >= 1
        && all_digits(unsigned_part(s.drop_first()))
}

/// Digits, an optional point with digits after it, one digit at least in all,
/// and an optional exponent.
pub open spec fn is_decimal(s: Seq<u8>) -> bool {
    let a = digit_run(s);
    let rest = s.skip(a as int);
    if rest.len() > 0 && rest[0] == 0x2eu8 {
        let fr = rest.drop_first();
        let f = digit_run(fr);
        a + f >= 1 && (fr.len() == f || is_exponent(fr.skip(f as int)))
    } else {
        a >= 1 && (rest.len() == 0 || is_exponent(rest))
    }
}

/// The text of a floating-point number: an optional sign, then a decimal or
/// one of the special values.
pub open spec fn is_float_literal(s: Seq<u8>) -> bool {
    let u = unsigned_part(s);
    is_special(u) || is_decimal(u)
}

/// The value of a string of decimal digits.
pub open spec fn digits_value(s: Seq<u8>) -> int
    decreases s.len(),
{
    if s.len() == 0 {
        0
    } else {
        digits_value(s.drop_last()) * 10 + (s.last() - 0x30u8)
    }
}

/// The text of an integer: an optional sign and one digit or more.
pub open spec fn is_int_literal(s: Seq<u8>) -> bool {
    unsigned_part(s).len() >= 1 && all_digits(unsigned_part(s))
}

pub open spec fn int_value(s: Seq<u8>) -> int {
    if s.len() > 0 && s[0] == 0x2du8 {
        -digits_value(unsigned_part(s))
    } else {
        digits_value(unsigned_part(s))
    }
}

/// Where a 1-based index of the file points into a table of `count` entries:
/// `i > 0` is entry `i - 1`, `i < 0` is entry `count + i`, counted back from
/// the newest.
pub open spec fn resolve_index(count: nat, tok: Seq<u8>) -> Result<nat, ParseError> {
    if !is_int_literal(tok) {
        Err(ParseError::MalformedNumber)
    } else {
        let v = int_value(tok);
        if 1 <= v <= count {
            Ok((v - 1) as nat)
        } else if -count <= v <= -1 {
            Ok((count + v) as nat)
        } else {
            Err(ParseError::IndexOutOfRange)
        }
    }
}

proof fn lemma_digit_run(s: Seq<u8>, k: int)
    requires
        0 <= k <= s.len(),
        forall|i: int| 0 <= i < k ==> is_digit(#[trigger] s[i]),
        k == s.len() || !is_digit(s[k]),
    ensures
        digit_run(s) == k,
    decreases k,
{
    if k > 0 {
        lemma_digit_run(s.drop_first(), k - 1);
    }
}

proof fn lemma_digits_prefix(s: Seq<u8>, i: int)
    requires
        0 <= i < s.len(),
    ensures
        digits_value(s.take(i + 1)) == digits_value(s.take(i)) * 10 + (s[i] - 0x30u8),
{
    assert(s.take(i + 1).drop_last() =~= s.take(i));
}

proof fn lemma_digits_nonneg(s: Seq<u8>)
    requires
        all_digits(s),
    ensures
        0 <= digits_value(s),
    decreases s.len(),
{
    if s.len() > 0 {
        lemma_digits_nonneg(s.drop_last());
    }
}

proof fn lemma_digits_monotone(s: Seq<u8>, i: int)
    requires
        0 <= i <= s.len(),
        all_digits(s),
    ensures
        digits_value(s.take(i)) <= digits_value(s),
    decreases s.len() - i,
{
    if i < s.len() {
        lemma_digits_prefix(s, i);
        lemma_digits_nonneg(s.take(i));
        lemma_digits_monotone(s, i + 1);
    } else {
        assert(s.take(i) =~= s);
    }
}

/// Index of the first non-digit of `s` at or after `lo`, or the length of `s`.
fn scan_digits(s: &[u8], lo: usize) -> (r: usize)
    requires
        lo <= s@.len(),
    ensures
        r == lo + digit_run(s@.skip(lo as int)),
        lo <= r <= s@.len(),
{
    let mut k: usize = lo;
    while k < s.len() && 0x30u8 <= s[k] && s[k] <= 0x39u8
        invariant
            lo <= k <= s@.len(),
            forall|m: int| lo <= m < k ==> is_digit(#[trigger] s@[m]),
        decreases s@.len() - k,
    {
        k = k + 1;
    }
    proof {
        let t = s@.skip(lo as int);
        assert forall|m: int| 0 <= m < k - lo implies is_digit(#[trigger] t[m]) by {
            assert(t[m] == s@[lo + m]);
        }
        lemma_digit_run(t, k - lo);
    }
    k
}

/// Whether `s[lo..]` is an optional sign followed by one digit or more.
fn signed_digits(s: &[u8], lo: usize) -> (r: bool)
    requires
        lo <= s@.len(),
    ensures
        r == (unsigned_part(s@.skip(lo as int)).len() >= 1 && all_digits(
            unsigned_part(s@.skip(lo as int)),
        )),
{
    let ghost t = s@.skip(lo as int);
    let mut start: usize = lo;
    if lo < s.len() && (s[lo] == 0x2bu8 || s[lo] == 0x2du8) {
        start = lo + 1;
    }
    assert(unsigned_part(t) =~= s@.skip(start as int));
    let end = scan_digits(s, start);
    proof {
        let u = s@.skip(start as int);
        if end == s@.len() {
            assert forall|m: int| 0 <= m < u.len() implies is_digit(#[trigger] u[m]) by {
                lemma_digit_run_facts(u, m);
            }
        } else {
            lemma_digit_run_stop(u);
            assert(!is_digit(u[(end - start) as int]));
        }
    }
    start < s.len() && end == s.len()
}

proof fn lemma_digit_run_facts(s: Seq<u8>, m: int)
    requires
        0 <= m < digit_run(s),
    ensures
        is_digit(s[m]),
    decreases m,
{
    lemma_digit_run_stop(s);
    assert(s.len() > 0 && is_digit(s[0]));
    if m > 0 {
        lemma_digit_run_facts(s.drop_first(), m - 1);
        assert(s.drop_first()[m - 1] == s[m]);
    }
}

proof fn lemma_digit_run_stop(s: Seq<u8>)
    ensures
        digit_run(s) <= s.len(),
        digit_run(s) < s.len() ==> !is_digit(s[digit_run(s) as int]),
    decreases s.len(),
{
    if s.len() > 0 && is_digit(s[0]) {
        lemma_digit_run_stop(s.drop_first());
    }
}

/// Whether `tok` is the text of a floating-point number.
pub fn float_literal(tok: &[u8]) -> (r: bool)
    ensures
        r == is_float_literal(tok@),
{
    let ghost s = tok@;
    let mut start: usize = 0;
    if tok.len() > 0 && (tok[0] == 0x2bu8 || tok[0] == 0x2du8) {
        start = 1;
    }
    let ghost u = unsigned_part(s);
    assert(u =~= s.skip(start as int));
    if special_word(tok, start) {
        return true;
    }
    let a = scan_digits(tok, start);
    assert(u.skip(digit_run(u) as int) =~= s.skip(a as int));
    if a < tok.len() && tok[a] == 0x2eu8 {
        let f = scan_digits(tok, a + 1);
        assert(u.skip(digit_run(u) as int).drop_first() =~= s.skip(a + 1));
        assert(s.skip(a + 1).skip((f - a - 1) as int) =~= s.skip(f as int));
        if a - start + (f - a - 1) < 1 {
            return false;
        }
        f == tok.len() || exponent_at(tok, f)
    } else {
        if a == start {
            return false;
        }
        a == tok.len() || exponent_at(tok, a)
    }
}

/// Whether `s[lo..]` is an exponent part.
fn exponent_at(s: &[u8], lo: usize) -> (r: bool)
    requires
        lo < s@.len(),
    ensures
        r == is_exponent(s@.skip(lo as int)),
{
    if s[lo] != 0x65u8 && s[lo] != 0x45u8 {
        return false;
    }
    assert(s@.skip(lo as int).drop_first() =~= s@.skip(lo + 1));
    signed_digits(s, lo + 1)
}

/// Whether `s[lo..]` spells `inf`, `infinity` or `nan` in any case.
fn special_word(s: &[u8], lo: usize) -> (r: bool)
    requires
        lo <= s@.len(),
    ensures
        r == is_special(s@.skip(lo as int)),
{
    let ghost t = s@.skip(lo as int);
    let ghost l = t.map_values(|b: u8| ascii_lower(b));
    let n = s.len() - lo;
    assert(l.len() == n as int);
    if n != 3 && n != 8 {
        return false;
    }
    let c0 = lower_byte(s[lo]);
    let c1 = lower_byte(s[lo + 1]);
    let c2 = lower_byte(s[lo + 2]);
    assert(l[0] == c0 && l[1] == c1 && l[2] == c2);
    if n == 3 {
        let r = (c0 == 0x69u8 && c1 == 0x6eu8 && c2 == 0x66u8) || (c0 == 0x6eu8 && c1 == 0x61u8
            && c2 == 0x6eu8);
        if c0 == 0x69u8 && c1 == 0x6eu8 && c2 == 0x66u8 {
            assert(l =~= seq![0x69u8, 0x6eu8, 0x66u8]);
        }
        if c0 == 0x6eu8 && c1 == 0x61u8 && c2 == 0x6eu8 {
            assert(l =~= seq![0x6eu8, 0x61u8, 0x6eu8]);
        }
        r
    } else {
        let c3 = lower_byte(s[lo + 3]);
        let c4 = lower_byte(s[lo + 4]);
        let c5 = lower_byte(s[lo + 5]);
        let c6 = lower_byte(s[lo + 6]);
        let c7 = lower_byte(s[lo + 7]);
        assert(l[3] == c3 && l[4] == c4 && l[5] == c5 && l[6] == c6 && l[7] == c7);
        let r = c0 == 0x69u8 && c1 == 0x6eu8 && c2 == 0x66u8 && c3 == 0x69u8 && c4 == 0x6eu8 && c5
            == 0x69u8 && c6 == 0x74u8 && c7 == 0x79u8;
        if r {
            assert(l =~= seq![0x69u8, 0x6eu8, 0x66u8, 0x69u8, 0x6eu8, 0x69u8, 0x74u8, 0x79u8]);
        }
        r
    }
}

fn lower_byte(b: u8) -> (r: u8)
    ensures
        r == ascii_lower(b),
{
    if 0x41u8 <= b && b <= 0x5au8 {
        b + 0x20u8
    } else {
        b
    }
}

/// Resolves the index token `tok` against a table of `count` entries.
pub fn resolve(count: usize, tok: &[u8]) -> (r: Result<usize, ParseError>)
    ensures
        match resolve_index(count as nat, tok@) {
            Ok(i) => r == Ok::<usize, ParseError>(i as usize),
            Err(e) => r == Err::<usize, ParseError>(e),
        },
{
    if !signed_digits(tok, 0) {
        assert(tok@.skip(0) =~= tok@);
        return Err(ParseError::MalformedNumber);
    }
    assert(tok@.skip(0) =~= tok@);
    let negative = tok[0] == 0x2du8;
    let mut start: usize = 0;
    if tok[0] == 0x2bu8 || negative {
        start = 1;
    }
    let ghost u = unsigned_part(tok@);
    assert(u =~= tok@.skip(start as int));
    // The magnitude, as long as it does not exceed `count`.
    let mut acc: u64 = 0;
    let mut big = false;
    let mut i: usize = start;
    while i < tok.len()
        invariant
            start <= i <= tok@.len(),
            u == tok@.skip(start as int),
            all_digits(u),
            !big ==> acc as int == digits_value(u.take(i - start)),
            !big ==> acc as int <= count as int,
            big ==> digits_value(u.take(i - start)) > count as int,
        decreases tok@.len() - i,
    {
        let ghost k = i - start;
        proof {
            lemma_digits_prefix(u, k);
            assert(u[k] == tok@[i as int]);
        }
        if !big {
            let d = (tok[i] - 0x30u8) as u64;
            if (acc as u128) * 10 + (d as u128) > count as u128 {
                big = true;
            } else {
                acc = acc * 10 + d;
            }
        } else {
            proof {
                lemma_digits_nonneg(u.take(k));
            }
        }
        i = i + 1;
    }
    assert(u.take(u.len() as int) =~= u);
    if big {
        return Err(ParseError::IndexOutOfRange);
    }
    let m = acc as usize;
    if negative {
        if m == 0 {
            Err(ParseError::IndexOutOfRange)
        } else {
            Ok(count - m)
        }
    } else {
        if m == 0 {
            Err(ParseError::IndexOutOfRange)
        } else {
            Ok(m - 1)
        }
    }
}

} // verus!
