//! The function table: maps function names to code-offset ranges.
//!
//! Entries are kept strictly sorted by name (byte-lexicographic order of
//! the UTF-8 encoding, the order `BTreeMap<String, _>` would emit them in),
//! with at most one entry per name; inserting an existing name replaces its
//! range, so the last writer wins.

use vstd::prelude::*;
use crate::model::MAX_WASM_ADDR;

verus! {

/// Byte-lexicographic three-way comparison, from index `i` on:
/// `-1` less, `0` equal, `1` greater.
pub open spec fn lex_cmp_from(a: Seq<u8>, b: Seq<u8>, i: int) -> int
    decreases a.len() - i when 0 <= i
{
    if i >= a.len() && i >= b.len() {
        0
    } else if i >= a.len() {
        -1
    } else if i >= b.len() {
        1
    } else if a[i] < b[i] {
        -1
    } else if a[i] > b[i] {
        1
    } else {
        lex_cmp_from(a, b, i + 1)
    }
}

/// Byte-lexicographic comparison of two byte sequences.
pub open spec fn lex_cmp(a: Seq<u8>, b: Seq<u8>) -> int {
    lex_cmp_from(a, b, 0)
}

pub proof fn lemma_lex_range(a: Seq<u8>, b: Seq<u8>, i: int)
    requires
        0 <= i,
    ensures
        -1 <= lex_cmp_from(a, b, i) <= 1,
    decreases a.len() - i,
{
    if i < a.len() && i < b.len() && a[i] == b[i] {
        lemma_lex_range(a, b, i + 1);
    }
}

pub proof fn lemma_lex_antisym(a: Seq<u8>, b: Seq<u8>, i: int)
    requires
        0 <= i,
    ensures
        lex_cmp_from(a, b, i) == -lex_cmp_from(b, a, i),
    decreases a.len() - i,
{
    if i < a.len() && i < b.len() && a[i] == b[i] {
        lemma_lex_antisym(a, b, i + 1);
    }
}

pub proof fn lemma_lex_trans(a: Seq<u8>, b: Seq<u8>, c: Seq<u8>, i: int)
    requires
        0 <= i,
        lex_cmp_from(a, b, i) == -1,
        lex_cmp_from(b, c, i) == -1,
    ensures
        lex_cmp_from(a, c, i) == -1,
    decreases a.len() - i,
{
    if i < a.len() && i < b.len() && a[i] == b[i] && i < c.len() && b[i] == c[i] {
        lemma_lex_trans(a, b, c, i + 1);
    }
}

/// Equal names stay comparable after replacing one by the other.
pub proof fn lemma_lex_eq_subst(a: Seq<u8>, b: Seq<u8>, c: Seq<u8>, i: int)
    requires
        0 <= i,
        lex_cmp_from(a, b, i) == 0,
    ensures
        lex_cmp_from(a, c, i) == lex_cmp_from(b, c, i),
    decreases a.len() - i + c.len(),
{
    if i < a.len() && i < b.len() && a[i] == b[i] {
        lemma_lex_eq_subst(a, b, c, i + 1);
    }
}

/// Three-way byte comparison of two slices from index `i` on.
pub fn bytes_cmp_from(a: &[u8], b: &[u8], i: usize) -> (r: i8)
    requires
        i <= a@.len(),
        i <= b@.len(),
    ensures
        r as int == lex_cmp_from(a@, b@, i as int),
    decreases a@.len() - i,
{
    let alen = a.len();
    let blen = b.len();
    if i >= alen && i >= blen {
        0
    } else if i >= alen {
        -1
    } else if i >= blen {
        1
    } else if a[i] < b[i] {
        -1
    } else if a[i] > b[i] {
        1
    } else {
        bytes_cmp_from(a, b, i + 1)
    }
}

/// The UTF-8 bytes of a string.
pub open spec fn str_bytes(s: String) -> Seq<u8> {
    vstd::utf8::encode_utf8(s@)
}

/// The table is strictly sorted by name.
pub open spec fn names_sorted(t: Seq<(String, u64, u64)>) -> bool {
    forall|i: int, j: int|
        0 <= i < j < t.len() ==> lex_cmp(str_bytes(t[i].0), str_bytes(t[j].0)) == -1
}

/// Every range satisfies `0 <= start < end <= MAX_WASM_ADDR`.
pub open spec fn ranges_ok(t: Seq<(String, u64, u64)>) -> bool {
    forall|i: int| 0 <= i < t.len() ==> (#[trigger] t[i]).1 < t[i].2 <= MAX_WASM_ADDR
}

/// How inserting one entry changes the table: a new name lands at its
/// sorted position; a known name has its range replaced (last writer wins).
pub open spec fn fn_insert_spec(t: Seq<(String, u64, u64)>, e: (String, u64, u64)) -> Seq<
    (String, u64, u64),
>
    decreases t.len(),
{
    if t.len() == 0 {
        seq![e]
    } else if lex_cmp(str_bytes(e.0), str_bytes(t[0].0)) == -1 {
        seq![e] + t
    } else if lex_cmp(str_bytes(e.0), str_bytes(t[0].0)) == 0 {
        t.update(0, e)
    } else {
        seq![t[0]] + fn_insert_spec(t.drop_first(), e)
    }
}

pub proof fn lemma_fn_insert_props(t: Seq<(String, u64, u64)>, e: (String, u64, u64))
    requires
        names_sorted(t),
    ensures
        names_sorted(fn_insert_spec(t, e)),
        forall|i: int|
            0 <= i < fn_insert_spec(t, e).len() ==> (#[trigger] fn_insert_spec(t, e)[i]) == e
                || exists|j: int| 0 <= j < t.len() && fn_insert_spec(t, e)[i] == t[j],
    decreases t.len(),
{
    let r = fn_insert_spec(t, e);
    let eb = str_bytes(e.0);
    if t.len() == 0 {
    } else if lex_cmp(eb, str_bytes(t[0].0)) == -1 {
        assert forall|i: int| 0 <= i < r.len() implies r[i] == e || exists|j: int|
            0 <= j < t.len() && r[i] == t[j] by {
            if i > 0 {
                assert(r[i] == t[i - 1]);
            }
        }
        assert forall|i: int, j: int| 0 <= i < j < r.len() implies lex_cmp(
            str_bytes(r[i].0),
            str_bytes(r[j].0),
        ) == -1 by {
            if i == 0 {
                assert(r[j] == t[j - 1]);
                if j > 1 {
                    assert(lex_cmp(str_bytes(t[0].0), str_bytes(t[j - 1].0)) == -1);
                    lemma_lex_trans(eb, str_bytes(t[0].0), str_bytes(t[j - 1].0), 0);
                }
            } else {
                assert(r[i] == t[i - 1] && r[j] == t[j - 1]);
                assert(lex_cmp(str_bytes(t[i - 1].0), str_bytes(t[j - 1].0)) == -1);
            }
        }
    } else if lex_cmp(eb, str_bytes(t[0].0)) == 0 {
        assert forall|i: int, j: int| 0 <= i < j < r.len() implies lex_cmp(
            str_bytes(r[i].0),
            str_bytes(r[j].0),
        ) == -1 by {
            if i == 0 {
                assert(r[j] == t[j]);
                assert(lex_cmp(str_bytes(t[0].0), str_bytes(t[j].0)) == -1);
                lemma_lex_eq_subst(eb, str_bytes(t[0].0), str_bytes(t[j].0), 0);
            } else {
                assert(r[i] == t[i] && r[j] == t[j]);
                assert(lex_cmp(str_bytes(t[i].0), str_bytes(t[j].0)) == -1);
            }
        }
        assert forall|i: int| 0 <= i < r.len() implies r[i] == e || exists|j: int|
            0 <= j < t.len() && r[i] == t[j] by {
            if i > 0 {
                assert(r[i] == t[i]);
            }
        }
    } else {
        let tt = t.drop_first();
        assert(names_sorted(tt)) by {
            assert(forall|i: int, j: int|
                0 <= i < j < tt.len() ==> tt[i] == t[i + 1] && tt[j] == t[j + 1]);
        }
        lemma_fn_insert_props(tt, e);
        let rr = fn_insert_spec(tt, e);
        assert(r == seq![t[0]] + rr);
        lemma_lex_range(eb, str_bytes(t[0].0), 0);
        lemma_lex_antisym(eb, str_bytes(t[0].0), 0);
        assert forall|i: int, j: int| 0 <= i < j < r.len() implies lex_cmp(
            str_bytes(r[i].0),
            str_bytes(r[j].0),
        ) == -1 by {
            if i == 0 {
                assert(r[j] == rr[j - 1]);
                assert(rr[j - 1] == e || exists|k: int| 0 <= k < tt.len() && rr[j - 1] == tt[k]);
                if rr[j - 1] == e {
                    assert(lex_cmp(str_bytes(t[0].0), eb) == -1);
                } else {
                    let k = choose|k: int| 0 <= k < tt.len() && rr[j - 1] == tt[k];
                    assert(tt[k] == t[k + 1]);
                }
            } else {
                assert(r[i] == rr[i - 1] && r[j] == rr[j - 1]);
            }
        }
        assert forall|i: int| 0 <= i < r.len() implies r[i] == e || exists|j: int|
            0 <= j < t.len() && r[i] == t[j] by {
            if i == 0 {
                assert(r[0] == t[0]);
            } else {
                assert(r[i] == rr[i - 1]);
                if rr[i - 1] != e {
                    let k = choose|k: int| 0 <= k < tt.len() && rr[i - 1] == tt[k];
                    assert(tt[k] == t[k + 1]);
                }
            }
        }
    }
}

/// Inserting an entry with a sane range keeps every range sane.
pub proof fn lemma_fn_insert_ranges(t: Seq<(String, u64, u64)>, e: (String, u64, u64))
    requires
        names_sorted(t),
        ranges_ok(t),
        e.1 < e.2 <= MAX_WASM_ADDR,
    ensures
        ranges_ok(fn_insert_spec(t, e)),
{
    lemma_fn_insert_props(t, e);
    let r = fn_insert_spec(t, e);
    assert forall|i: int| 0 <= i < r.len() implies (#[trigger] r[i]).1 < r[i].2
        <= MAX_WASM_ADDR by {
        if r[i] != e {
            let j = choose|j: int| 0 <= j < t.len() && r[i] == t[j];
            assert(t[j].1 < t[j].2 <= MAX_WASM_ADDR);
        }
    }
}

/// Record one function's range under its name.
///
/// A new name is inserted at its sorted position; a known name has its
/// range replaced, so on duplicate names the last writer wins.
pub fn insert_function(funcs: &mut Vec<(String, u64, u64)>, name: String, start: u64, end: u64)
    requires
        names_sorted(old(funcs)@),
        ranges_ok(old(funcs)@),
        start < end <= MAX_WASM_ADDR,
    ensures
        final(funcs)@ == fn_insert_spec(old(funcs)@, (name, start, end)),
        names_sorted(final(funcs)@),
        ranges_ok(final(funcs)@),
{
    let e = (name, start, end);
    let ghost espec = e;
    proof {
        lemma_fn_insert_props(old(funcs)@, espec);
        lemma_fn_insert_ranges(old(funcs)@, espec);
        assert(old(funcs)@.skip(0) =~= old(funcs)@);
        assert(old(funcs)@.take(0) + fn_insert_spec(old(funcs)@, e) =~= fn_insert_spec(
            old(funcs)@,
            e,
        ));
    }
    proof {
        assert(names_sorted(fn_insert_spec(old(funcs)@, espec)));
        assert(ranges_ok(fn_insert_spec(old(funcs)@, espec)));
    }
    let n = funcs.len();
    for i in 0..n
        invariant
            names_sorted(fn_insert_spec(old(funcs)@, espec)),
            ranges_ok(fn_insert_spec(old(funcs)@, espec)),
            n == funcs@.len(),
            funcs@ == old(funcs)@,
            espec == (name, start, end),
            e == espec,
            fn_insert_spec(old(funcs)@, e) == funcs@.take(i as int) + fn_insert_spec(
                funcs@.skip(i as int),
                e,
            ),
            forall|k: int| 0 <= k < i ==> lex_cmp(str_bytes(funcs@[k].0), str_bytes(e.0)) == -1,
    {
        let ghost pre = funcs@;
        let c = bytes_cmp_from(e.0.as_str().as_bytes(), funcs[i].0.as_str().as_bytes(), 0);
        if c < 0 {
            proof {
                lemma_lex_range(str_bytes(e.0), str_bytes(pre[i as int].0), 0);
            }
            funcs.insert(i, e);
            proof {
                assert(pre.skip(i as int)[0] == pre[i as int]);
                assert(fn_insert_spec(pre.skip(i as int), espec) =~= seq![espec] + pre.skip(
                    i as int,
                ));
                assert(funcs@ =~= pre.take(i as int) + (seq![espec] + pre.skip(i as int)));
                assert(funcs@ == fn_insert_spec(old(funcs)@, espec));
                assert(names_sorted(fn_insert_spec(old(funcs)@, espec)));
                assert(names_sorted(funcs@));
            }
            return ;
        }
        if c == 0 {
            funcs.set(i, e);
            proof {
                assert(pre.skip(i as int)[0] == pre[i as int]);
                assert(fn_insert_spec(pre.skip(i as int), espec) =~= pre.skip(i as int).update(
                    0,
                    espec,
                ));
                assert(funcs@ =~= pre.take(i as int) + pre.skip(i as int).update(0, espec));
                assert(funcs@ == fn_insert_spec(old(funcs)@, espec));
                assert(names_sorted(funcs@));
            }
            return ;
        }
        proof {
            lemma_lex_range(str_bytes(e.0), str_bytes(pre[i as int].0), 0);
            lemma_lex_antisym(str_bytes(pre[i as int].0), str_bytes(e.0), 0);
            let s = pre.skip(i as int);
            assert(s[0] == pre[i as int]);
            assert(s.drop_first() =~= pre.skip(i + 1));
            assert(fn_insert_spec(s, e) == seq![pre[i as int]] + fn_insert_spec(
                pre.skip(i + 1),
                e,
            ));
            assert(pre.take(i as int) + (seq![pre[i as int]] + fn_insert_spec(pre.skip(i + 1), e))
                =~= pre.take(i + 1) + fn_insert_spec(pre.skip(i + 1), e));
        }
    }
    let ghost pre = funcs@;
    funcs.push(e);
    proof {
        assert(pre.skip(n as int) =~= Seq::<(String, u64, u64)>::empty());
        assert(fn_insert_spec(pre.skip(n as int), espec) =~= seq![espec]);
        assert(funcs@ =~= pre.take(n as int) + seq![espec]);
        assert(funcs@ == fn_insert_spec(old(funcs)@, espec));
    }
}

} // verus!
