//! Line splitting, comment stripping and whitespace tokenization shared by the
//! geometry and material formats.

use vstd::prelude::*;

verus! {

/// The byte strings held by a sequence of vectors.
pub open spec fn views_of(v: Seq<Vec<u8>>) -> Seq<Seq<u8>> {
    Seq::new(v.len(), |i: int| v[i]@)
}

/// The ASCII whitespace bytes that separate tokens.
pub open spec fn is_space(b: u8) -> bool {
    b == 0x20u8 || b == 0x09u8 || b == 0x0au8 || b == 0x0bu8 || b == 0x0cu8 || b == 0x0du8
}

pub fn space_byte(b: u8) -> (r: bool)
    ensures
        r == is_space(b),
{
    b == 0x20u8 || b == 0x09u8 || b == 0x0au8 || b == 0x0bu8 || b == 0x0cu8 || b == 0x0du8
}

/// Length of the run of non-space bytes at the start of `s`.
pub open spec fn word_len(s: Seq<u8>) -> nat
    decreases s.len(),
{
    if s.len() == 0 || is_space(s[0]) {
        0
    } else {
        1 + word_len(s.drop_first())
    }
}

/// The maximal runs of non-space bytes of `s`, in order.
pub open spec fn words(s: Seq<u8>) -> Seq<Seq<u8>>
    decreases s.len() via words_decreases
{
    if s.len() == 0 {
        seq![]
    } else if is_space(s[0]) {
        words(s.drop_first())
    } else {
        let k = word_len(s);
        seq![s.take(k as int)] + words(s.skip(k as int))
    }
}

proof fn lemma_word_len_bound(s: Seq<u8>)
    ensures
        word_len(s) <= s.len(),
    decreases s.len(),
{
    if s.len() > 0 && !is_space(s[0]) {
        lemma_word_len_bound(s.drop_first());
    }
}

#[via_fn]
proof fn words_decreases(s: Seq<u8>) {
    lemma_word_len_bound(s);
}

/// The part of `s` before its first `#`, or all of `s` when it has none.
pub open spec fn before_hash(s: Seq<u8>) -> Seq<u8>
    decreases s.len(),
{
    if s.len() == 0 {
        s
    } else if s[0] == 0x23u8 {
        seq![]
    } else {
        seq![s[0]] + before_hash(s.drop_first())
    }
}

/// The tokens of one line: its words once the comment is cut off.
pub open spec fn line_tokens(line: Seq<u8>) -> Seq<Seq<u8>> {
    words(before_hash(line))
}

/// Number of bytes of `s` before its first `b`, or the length of `s`.
pub open spec fn until(s: Seq<u8>, b: u8) -> nat
    decreases s.len(),
{
    if s.len() == 0 || s[0] == b {
        0
    } else {
        1 + until(s.drop_first(), b)
    }
}

/// Length of the first line of `s`, the bytes before its first line feed.
pub open spec fn line_len(s: Seq<u8>) -> nat {
    until(s, 0x0au8)
}

pub proof fn lemma_until_bound(s: Seq<u8>, b: u8)
    ensures
        until(s, b) <= s.len(),
        until(s, b) < s.len() ==> s[until(s, b) as int] == b,
    decreases s.len(),
{
    if s.len() > 0 && s[0] != b {
        lemma_until_bound(s.drop_first(), b);
    }
}

proof fn lemma_word_len(s: Seq<u8>, k: int)
    requires
        0 <= k <= s.len(),
        forall|i: int| 0 <= i < k ==> !is_space(#[trigger] s[i]),
        k == s.len() || is_space(s[k]),
    ensures
        word_len(s) == k,
    decreases k,
{
    if k > 0 {
        lemma_word_len(s.drop_first(), k - 1);
    }
}

proof fn lemma_until(s: Seq<u8>, b: u8, k: int)
    requires
        0 <= k <= s.len(),
        forall|i: int| 0 <= i < k ==> #[trigger] s[i] != b,
        k == s.len() || s[k] == b,
    ensures
        until(s, b) == k,
    decreases k,
{
    if k > 0 {
        lemma_until(s.drop_first(), b, k - 1);
    }
}

proof fn lemma_before_hash(s: Seq<u8>, k: int)
    requires
        0 <= k <= s.len(),
        forall|i: int| 0 <= i < k ==> #[trigger] s[i] != 0x23u8,
        k == s.len() || s[k] == 0x23u8,
    ensures
        before_hash(s) == s.take(k),
    decreases k,
{
    if k > 0 {
        lemma_before_hash(s.drop_first(), k - 1);
        assert(seq![s[0]] + s.drop_first().take(k - 1) =~= s.take(k));
    } else if s.len() > 0 {
        assert(s.take(0) =~= seq![]);
    } else {
        assert(s.take(0) =~= s);
    }
}

/// Copies `s[lo..hi]` into a new vector.
pub fn copy_range(s: &[u8], lo: usize, hi: usize) -> (r: Vec<u8>)
    requires
        lo <= hi <= s@.len(),
    ensures
        r@ == s@.subrange(lo as int, hi as int),
{
    let mut r: Vec<u8> = Vec::new();
    let mut i: usize = lo;
    while i < hi
        invariant
            lo <= i <= hi <= s@.len(),
            r@ == s@.subrange(lo as int, i as int),
        decreases hi - i,
    {
        r.push(s[i]);
        i = i + 1;
        assert(r@ =~= s@.subrange(lo as int, i as int));
    }
    r
}

/// Splits `s[lo..hi]` into its words.
pub fn split_words(s: &[u8], lo: usize, hi: usize) -> (r: Vec<Vec<u8>>)
    requires
        lo <= hi <= s@.len(),
    ensures
        views_of(r@) == words(s@.subrange(lo as int, hi as int)),
{
    let mut r: Vec<Vec<u8>> = Vec::new();
    let mut i: usize = lo;
    while i < hi
        invariant
            lo <= i <= hi <= s@.len(),
            words(s@.subrange(lo as int, hi as int)) == views_of(r@) + words(
                s@.subrange(i as int, hi as int),
            ),
        decreases hi - i,
    {
        let ghost rest = s@.subrange(i as int, hi as int);
        if space_byte(s[i]) {
            assert(rest.drop_first() =~= s@.subrange(i + 1, hi as int));
            i = i + 1;
        } else {
            let mut j: usize = i + 1;
            while j < hi && !space_byte(s[j])
                invariant
                    i < j <= hi <= s@.len(),
                    forall|m: int| i <= m < j ==> !is_space(#[trigger] s@[m]),
                decreases hi - j,
            {
                j = j + 1;
            }
            proof {
                assert forall|m: int| 0 <= m < j - i implies !is_space(#[trigger] rest[m]) by {
                    assert(rest[m] == s@[i + m]);
                }
                lemma_word_len(rest, j - i);
                assert(rest.take(j - i) =~= s@.subrange(i as int, j as int));
                assert(rest.skip(j - i) =~= s@.subrange(j as int, hi as int));
            }
            let w = copy_range(s, i, j);
            let ghost before = views_of(r@);
            r.push(w);
            assert(views_of(r@) =~= before.push(w@));
            assert(before.push(w@) + words(s@.subrange(j as int, hi as int)) =~= before + (seq![
                w@,
            ] + words(s@.subrange(j as int, hi as int))));
            i = j;
        }
    }
    assert(s@.subrange(hi as int, hi as int) =~= seq![]);
    assert(views_of(r@) + seq![] =~= views_of(r@));
    r
}

/// The tokens of the line `s[lo..hi]`.
pub fn tokenize_line(s: &[u8], lo: usize, hi: usize) -> (r: Vec<Vec<u8>>)
    requires
        lo <= hi <= s@.len(),
    ensures
        views_of(r@) == line_tokens(s@.subrange(lo as int, hi as int)),
{
    let mut k: usize = lo;
    while k < hi && s[k] != 0x23u8
        invariant
            lo <= k <= hi <= s@.len(),
            forall|m: int| lo <= m < k ==> #[trigger] s@[m] != 0x23u8,
        decreases hi - k,
    {
        k = k + 1;
    }
    let ghost line = s@.subrange(lo as int, hi as int);
    proof {
        assert forall|m: int| 0 <= m < k - lo implies #[trigger] line[m] != 0x23u8 by {
            assert(line[m] == s@[lo + m]);
        }
        lemma_before_hash(line, k - lo);
        assert(line.take(k - lo) =~= s@.subrange(lo as int, k as int));
    }
    split_words(s, lo, k)
}

/// The index of the first `b` in `s` at or after `lo`, or the length of `s`.
pub fn find_byte(s: &[u8], lo: usize, b: u8) -> (r: usize)
    requires
        lo <= s@.len(),
    ensures
        lo <= r <= s@.len(),
        r == lo + until(s@.skip(lo as int), b),
{
    let mut k: usize = lo;
    while k < s.len() && s[k] != b
        invariant
            lo <= k <= s@.len(),
            forall|m: int| lo <= m < k ==> #[trigger] s@[m] != b,
        decreases s@.len() - k,
    {
        k = k + 1;
    }
    proof {
        let rest = s@.skip(lo as int);
        assert forall|m: int| 0 <= m < k - lo implies #[trigger] rest[m] != b by {
            assert(rest[m] == s@[lo + m]);
        }
        lemma_until(rest, b, k - lo);
    }
    k
}

/// Copies a byte vector.
pub fn copy_bytes(v: &Vec<u8>) -> (r: Vec<u8>)
    ensures
        r@ == v@,
{
    let r = copy_range(v.as_slice(), 0, v.len());
    assert(r@ =~= v@);
    r
}

} // verus!
