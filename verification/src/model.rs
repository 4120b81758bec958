//! Data model of the extraction: candidate line records, scored files and
//! units, the per-address best-score table, and the function table.
//!
//! The best-score table is a vector of records kept strictly sorted by
//! address; the function table is a vector of entries kept strictly sorted
//! by name. Both invariants are stated here and preserved by every
//! operation.

use vstd::prelude::*;

verus! {

/// Addresses above this threshold are treated as relocation artifacts
/// and ignored.
pub const MAX_WASM_ADDR: u64 = 0x40000000;

/// A source position attributed to a row.
pub struct Pos {
    pub line: u32,
}

/// A candidate line record: one (address → file, line) mapping with its
/// score and its emission id.
#[derive(Default, Debug, Clone, Copy, PartialEq, Eq, Structural)]
pub struct Line {
    pub id: u64,
    pub file_id: u32,
    pub address: u64,
    pub line: u32,
    pub score: u32,
}

/// A source file with the candidate records emitted for it.
#[derive(Default, Debug, Clone)]
pub struct ScoredSourceFile {
    pub id: u32,
    pub directory: Option<String>,
    pub file: String,
    pub language: u16,
    pub lines: Vec<Line>,
}

/// A compilation unit with its scored files.
#[derive(Default, Debug, Clone)]
pub struct ScoredSourceUnit {
    pub name: String,
    pub directory: String,
    pub files: Vec<ScoredSourceFile>,
}

/// A source file as the result exposes it.
#[derive(Default, PartialEq, Debug, Clone)]
pub struct SourceFile {
    pub id: u32,
    pub directory: Option<String>,
    pub file: String,
    pub language: u16,
}

/// A source unit as the result exposes it.
#[derive(Default, PartialEq, Debug)]
pub struct SourceUnit {
    pub name: String,
    pub directory: String,
    pub files: Vec<SourceFile>,
}

/// The extraction result: on success `units` and `lines` are present and
/// `functions` is present when non-empty; on failure only `error` is.
#[derive(Default, PartialEq, Debug)]
pub struct SourceResult {
    pub units: Option<Vec<SourceUnit>>,
    pub lines: Option<Vec<Vec<u64>>>,
    pub functions: Option<Vec<(String, u64, u64)>>,
    pub error: Option<String>,
}

/// The best-score table is strictly sorted by address: at most one record
/// per address, in ascending order.
pub open spec fn addrs_sorted(t: Seq<Line>) -> bool {
    forall|i: int, j: int| 0 <= i < j < t.len() ==> t[i].address < t[j].address
}

/// Every record in the table respects the synthetic-address threshold.
pub open spec fn addrs_bounded(t: Seq<Line>) -> bool {
    forall|i: int| 0 <= i < t.len() ==> t[i].address <= MAX_WASM_ADDR
}

/// How one candidate changes the best-score table: a new address is
/// inserted in order; at a known address the record is replaced only by a
/// strictly higher score, so on ties the earlier emission stays.
pub open spec fn offer_spec(t: Seq<Line>, c: Line) -> Seq<Line>
    decreases t.len(),
{
    if t.len() == 0 {
        seq![c]
    } else if c.address < t[0].address {
        seq![c] + t
    } else if c.address == t[0].address {
        if c.score > t[0].score {
            t.update(0, c)
        } else {
            t
        }
    } else {
        seq![t[0]] + offer_spec(t.drop_first(), c)
    }
}

pub proof fn lemma_offer_spec_props(t: Seq<Line>, c: Line)
    requires
        addrs_sorted(t),
    ensures
        addrs_sorted(offer_spec(t, c)),
        forall|i: int|
            0 <= i < offer_spec(t, c).len() ==> (#[trigger] offer_spec(t, c)[i]) == c || exists|
                j: int,
            | 0 <= j < t.len() && offer_spec(t, c)[i] == t[j],
    decreases t.len(),
{
    let r = offer_spec(t, c);
    if t.len() == 0 {
    } else if c.address < t[0].address {
        assert forall|i: int| 0 <= i < r.len() implies r[i] == c || exists|j: int|
            0 <= j < t.len() && r[i] == t[j] by {
            if i > 0 {
                assert(r[i] == t[i - 1]);
            }
        }
    } else if c.address == t[0].address {
        if c.score > t[0].score {
            assert forall|i: int| 0 <= i < r.len() implies r[i] == c || exists|j: int|
                0 <= j < t.len() && r[i] == t[j] by {
                if i > 0 {
                    assert(r[i] == t[i]);
                }
            }
        } else {
            assert(forall|i: int| 0 <= i < r.len() ==> r[i] == t[i]);
        }
    } else {
        let tt = t.drop_first();
        assert(addrs_sorted(tt)) by {
            assert(forall|i: int, j: int|
                0 <= i < j < tt.len() ==> tt[i] == t[i + 1] && tt[j] == t[j + 1]);
        }
        lemma_offer_spec_props(tt, c);
        let rr = offer_spec(tt, c);
        assert(r == seq![t[0]] + rr);
        assert forall|i: int, j: int| 0 <= i < j < r.len() implies r[i].address
            < r[j].address by {
            if i == 0 {
                assert(r[j] == rr[j - 1]);
                assert(rr[j - 1] == c || exists|k: int| 0 <= k < tt.len() && rr[j - 1] == tt[k]);
                if rr[j - 1] != c {
                    let k = choose|k: int| 0 <= k < tt.len() && rr[j - 1] == tt[k];
                    assert(tt[k] == t[k + 1]);
                }
            } else {
                assert(r[i] == rr[i - 1] && r[j] == rr[j - 1]);
            }
        }
        assert forall|i: int| 0 <= i < r.len() implies r[i] == c || exists|j: int|
            0 <= j < t.len() && r[i] == t[j] by {
            if i == 0 {
                assert(r[0] == t[0]);
            } else {
                assert(r[i] == rr[i - 1]);
                if rr[i - 1] != c {
                    let k = choose|k: int| 0 <= k < tt.len() && rr[i - 1] == tt[k];
                    assert(tt[k] == t[k + 1]);
                }
            }
        }
    }
}

/// Record a candidate in the best-score table.
///
/// If its address is new the candidate is inserted; otherwise it replaces
/// the incumbent only when its score is strictly higher, so on equal
/// scores the earlier emission wins.
pub fn offer(best: &mut Vec<Line>, c: Line)
    requires
        addrs_sorted(old(best)@),
    ensures
        final(best)@ == offer_spec(old(best)@, c),
        addrs_sorted(final(best)@),
        forall|i: int|
            0 <= i < final(best)@.len() ==> (#[trigger] final(best)@[i]) == c || exists|j: int|
                0 <= j < old(best)@.len() && final(best)@[i] == old(best)@[j],
{
    proof {
        lemma_offer_spec_props(old(best)@, c);
        assert(old(best)@.skip(0) =~= old(best)@);
        assert(old(best)@.take(0) + offer_spec(old(best)@, c) =~= offer_spec(old(best)@, c));
    }
    let n = best.len();
    for i in 0..n
        invariant
            n == best@.len(),
            best@ == old(best)@,
            addrs_sorted(best@),
            forall|k: int| 0 <= k < i ==> best@[k].address < c.address,
            offer_spec(old(best)@, c) == best@.take(i as int) + offer_spec(
                best@.skip(i as int),
                c,
            ),
    {
        let ghost pre = best@;
        if c.address < best[i].address {
            best.insert(i, c);
            proof {
                assert(offer_spec(pre.skip(i as int), c) =~= seq![c] + pre.skip(i as int));
                assert(best@ =~= pre.take(i as int) + (seq![c] + pre.skip(i as int)));
            }
            return ;
        }
        if c.address == best[i].address {
            if c.score > best[i].score {
                best.set(i, c);
                proof {
                    assert(offer_spec(pre.skip(i as int), c) =~= pre.skip(i as int).update(0, c));
                    assert(best@ =~= pre.take(i as int) + pre.skip(i as int).update(0, c));
                }
            } else {
                proof {
                    assert(offer_spec(pre.skip(i as int), c) =~= pre.skip(i as int));
                    assert(best@ =~= pre.take(i as int) + pre.skip(i as int));
                }
            }
            return ;
        }
        proof {
            let s = pre.skip(i as int);
            assert(s[0] == pre[i as int]);
            assert(s.drop_first() =~= pre.skip(i + 1));
            assert(offer_spec(s, c) == seq![pre[i as int]] + offer_spec(pre.skip(i + 1), c));
            assert(pre.take(i as int) + (seq![pre[i as int]] + offer_spec(pre.skip(i + 1), c))
                =~= pre.take(i + 1) + offer_spec(pre.skip(i + 1), c));
        }
    }
    let ghost pre = best@;
    best.push(c);
    proof {
        assert(pre.skip(n as int) =~= Seq::<Line>::empty());
        assert(offer_spec(pre.skip(n as int), c) =~= seq![c]);
        assert(best@ =~= pre.take(n as int) + seq![c]);
    }
}

/// Look up the record stored for an address.
pub fn lookup(best: &Vec<Line>, address: u64) -> (r: Option<Line>)
    requires
        addrs_sorted(best@),
    ensures
        match r {
            Some(l) => exists|i: int| 0 <= i < best@.len() && best@[i] == l && l.address == address,
            None => forall|i: int| 0 <= i < best@.len() ==> best@[i].address != address,
        },
{
    let n = best.len();
    for i in 0..n
        invariant
            n == best@.len(),
            forall|k: int| 0 <= k < i ==> best@[k].address != address,
    {
        if best[i].address == address {
            return Some(best[i].clone());
        }
    }
    None
}

} // verus!
