//! Substring and counting primitives over byte slices.
//!
//! Path and file-name heuristics elsewhere in the crate are stated over the
//! UTF-8 bytes of the strings involved; these functions provide the verified
//! search primitives those heuristics need.

use vstd::prelude::*;

verus! {

/// `pat` occurs in `s` starting at index `i`.
pub open spec fn matches_at(s: Seq<u8>, pat: Seq<u8>, i: int) -> bool {
    0 <= i && i + pat.len() <= s.len() && s.subrange(i, i + pat.len()) == pat
}

/// `pat` occurs somewhere in `s`.
pub open spec fn contains_seq(s: Seq<u8>, pat: Seq<u8>) -> bool {
    exists|i: int| matches_at(s, pat, i)
}

/// `s` begins with `pat`.
pub open spec fn starts_with_seq(s: Seq<u8>, pat: Seq<u8>) -> bool {
    pat.len() <= s.len() && s.subrange(0, pat.len() as int) == pat
}

/// `s` ends with `pat`.
pub open spec fn ends_with_seq(s: Seq<u8>, pat: Seq<u8>) -> bool {
    pat.len() <= s.len() && s.subrange(s.len() - pat.len(), s.len() as int) == pat
}

/// Number of occurrences of the byte `b` in `s`.
pub open spec fn count_byte(s: Seq<u8>, b: u8) -> int
    decreases s.len(),
{
    if s.len() == 0 {
        0
    } else {
        count_byte(s.drop_last(), b) + if s.last() == b {
            1int
        } else {
            0int
        }
    }
}

proof fn lemma_count_byte_bounds(s: Seq<u8>, b: u8)
    ensures
        0 <= count_byte(s, b) <= s.len(),
    decreases s.len(),
{
    if s.len() > 0 {
        lemma_count_byte_bounds(s.drop_last(), b);
    }
}

/// `pat` matches `s` at position `i`.
fn eq_at(s: &[u8], pat: &[u8], i: usize) -> (r: bool)
    requires
        i + pat@.len() <= s@.len(),
    ensures
        r == matches_at(s@, pat@, i as int),
{
    let n = pat.len();
    let slen = s.len();
    for j in 0..n
        invariant
            n == pat@.len(),
            slen == s@.len(),
            i + n <= slen,
            forall|k: int| 0 <= k < j ==> s@[i + k] == pat@[k],
    {
        let idx = i + j;
        if s[idx] != pat[j] {
            assert(s@.subrange(i as int, i + pat@.len())[j as int] != pat@[j as int]);
            return false;
        }
    }
    assert(s@.subrange(i as int, i + pat@.len()) =~= pat@);
    true
}

/// Substring search: does `pat` occur anywhere in `s`?
pub fn slice_contains(s: &[u8], pat: &[u8]) -> (r: bool)
    ensures
        r == contains_seq(s@, pat@),
{
    if pat.len() > s.len() {
        assert(forall|i: int| !matches_at(s@, pat@, i));
        return false;
    }
    if pat.len() == 0 {
        assert(matches_at(s@, pat@, 0)) by {
            assert(s@.subrange(0, 0) =~= pat@);
        }
        return true;
    }
    let last = s.len() - pat.len();
    let bound = last + 1;
    for i in 0..bound
        invariant
            0 < pat@.len() <= s@.len(),
            last == s@.len() - pat@.len(),
            bound == last + 1,
            forall|k: int| 0 <= k < i ==> !matches_at(s@, pat@, k),
    {
        if eq_at(s, pat, i) {
            return true;
        }
    }
    assert(forall|k: int| matches_at(s@, pat@, k) ==> 0 <= k <= last);
    false
}

/// Are two byte slices equal?
pub fn slice_eq(a: &[u8], b: &[u8]) -> (r: bool)
    ensures
        r == (a@ == b@),
{
    if a.len() != b.len() {
        return false;
    }
    let r = eq_at(a, b, 0);
    proof {
        if r {
            assert(a@.subrange(0, b@.len() as int) =~= a@);
        } else {
            assert(a@ == b@ ==> a@.subrange(0, b@.len() as int) == b@);
        }
    }
    r
}

/// Does `s` begin with `pat`?
pub fn slice_starts_with(s: &[u8], pat: &[u8]) -> (r: bool)
    ensures
        r == starts_with_seq(s@, pat@),
{
    if pat.len() > s.len() {
        return false;
    }
    eq_at(s, pat, 0)
}

/// Does `s` end with `pat`?
pub fn slice_ends_with(s: &[u8], pat: &[u8]) -> (r: bool)
    ensures
        r == ends_with_seq(s@, pat@),
{
    if pat.len() > s.len() {
        return false;
    }
    let i = s.len() - pat.len();
    let r = eq_at(s, pat, i);
    assert(s@.subrange(i as int, i + pat@.len()) =~= s@.subrange(
        s@.len() - pat@.len(),
        s@.len() as int,
    ));
    r
}

/// Count occurrences of the byte `b` in `s`.
pub fn slice_count_byte(s: &[u8], b: u8) -> (r: usize)
    ensures
        r == count_byte(s@, b),
{
    let mut count: usize = 0;
    let n = s.len();
    for i in 0..n
        invariant
            n == s@.len(),
            count == count_byte(s@.subrange(0, i as int), b),
            count <= i,
    {
        proof {
            lemma_count_byte_bounds(s@.subrange(0, i as int), b);
            assert(s@.subrange(0, i + 1).drop_last() =~= s@.subrange(0, i as int));
        }
        if s[i] == b {
            count = count + 1;
        }
    }
    proof {
        assert(s@.subrange(0, n as int) =~= s@);
    }
    count
}

} // verus!
