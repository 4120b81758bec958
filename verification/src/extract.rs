//! The extraction pipeline: split the module into sections, walk the DWARF
//! data, score and deduplicate line rows, and project the result.

use vstd::prelude::*;
use crate::bytes::slice_eq;
use crate::bytes::slice_starts_with;
use crate::bytes::starts_with_seq;
use crate::model::{
    MAX_WASM_ADDR, Line, ScoredSourceFile, ScoredSourceUnit, SourceFile, SourceUnit, SourceResult,
    addrs_sorted, addrs_bounded, offer, offer_spec, lookup,
};
use crate::funcs::{names_sorted, ranges_ok, insert_function};
use crate::score::{RowFlags, calculate_mapping_score, mapping_score, opt_str_bytes};
use crate::error::ExtractError;
use crate::wasm::{Section, SpecSection, SpecKind, section_views, SectionKind, SpecParse};

verus! {

/// The payload stored under `name`: on duplicate names the section seen
/// later wins.
pub open spec fn find_spec(s: Seq<(Vec<u8>, Vec<u8>)>, name: Seq<u8>) -> Option<Seq<u8>>
    decreases s.len(),
{
    if s.len() == 0 {
        None
    } else if s.last().0@ == name {
        Some(s.last().1@)
    } else {
        find_spec(s.drop_last(), name)
    }
}

/// Look a section up by name; an absent section reads as empty, as the
/// DWARF loader expects.
pub fn find_section(sections: &Vec<(Vec<u8>, Vec<u8>)>, name: &[u8]) -> (r: Vec<u8>)
    ensures
        match find_spec(sections@, name@) {
            Some(p) => r@ == p,
            None => r@ == Seq::<u8>::empty(),
        },
{
    let n = sections.len();
    let mut i = n;
    proof {
        assert(sections@.take(n as int) =~= sections@);
    }
    while i > 0
        invariant
            i <= n,
            n == sections@.len(),
            find_spec(sections@, name@) == find_spec(sections@.take(i as int), name@),
        decreases i,
    {
        i = i - 1;
        proof {
            assert(sections@.take(i + 1).last() == sections@[i as int]);
            assert(sections@.take(i + 1).drop_last() =~= sections@.take(i as int));
        }
        if slice_eq(sections[i].0.as_slice(), name) {
            return vstd::slice::slice_to_vec(sections[i].1.as_slice());
        }
    }
    proof {
        assert(sections@.take(0) =~= Seq::<(Vec<u8>, Vec<u8>)>::empty());
    }
    Vec::new()
}

/// The `.debug_` section-name prefix.
pub open spec fn debug_prefix() -> Seq<u8> {
    seq!['.' as u8, 'd' as u8, 'e' as u8, 'b' as u8, 'u' as u8, 'g' as u8, '_' as u8]
}

/// The `(name, payload)` pairs of the custom sections whose name begins
/// with `.debug_`, in order.
pub open spec fn debug_sections_spec(s: Seq<SpecSection>) -> Seq<(Seq<u8>, Seq<u8>)>
    decreases s.len(),
{
    if s.len() == 0 {
        Seq::empty()
    } else {
        debug_sections_spec(s.drop_last()) + (match s.last().kind {
            SpecKind::Custom { name } => if starts_with_seq(name, debug_prefix()) {
                seq![(name, s.last().payload)]
            } else {
                Seq::empty()
            },
            SpecKind::Standard { .. } => Seq::empty(),
        })
    }
}

/// The views of collected name/payload pairs.
pub open spec fn pair_views(s: Seq<(Vec<u8>, Vec<u8>)>) -> Seq<(Seq<u8>, Seq<u8>)> {
    s.map_values(|p: (Vec<u8>, Vec<u8>)| (p.0@, p.1@))
}

/// Keep the `.debug_*` custom sections, keyed by name.
pub fn collect_debug_sections(sections: Vec<Section>) -> (out: Vec<(Vec<u8>, Vec<u8>)>)
    ensures
        pair_views(out@) == debug_sections_spec(section_views(sections@)),
{
    let prefix: Vec<u8> = vec![
        '.' as u8,
        'd' as u8,
        'e' as u8,
        'b' as u8,
        'u' as u8,
        'g' as u8,
        '_' as u8,
    ];
    proof {
        assert(prefix@ =~= debug_prefix());
    }
    let mut out: Vec<(Vec<u8>, Vec<u8>)> = Vec::new();
    let n = sections.len();
    let mut i: usize = 0;
    let mut rest = sections;
    let ghost all = rest@;
    // consume from the front to move the payloads out
    loop
        invariant
            all == sections@,
            i <= n,
            n == all.len(),
            rest@ =~= all.skip(i as int),
            prefix@ == debug_prefix(),
            pair_views(out@) == debug_sections_spec(section_views(all.take(i as int))),
        decreases n - i,
    {
        if i == n {
            proof {
                assert(all.take(n as int) =~= all);
            }
            return out;
        }
        proof {
            assert(rest@[0] == all[i as int]);
        }
        let sec = rest.remove(0);
        let ghost pre_out = out@;
        match sec {
            Section { kind: SectionKind::Custom { name }, payload } => {
                if slice_starts_with(name.as_slice(), prefix.as_slice()) {
                    out.push((name, payload));
                } else {
                }
            },
            Section { kind: SectionKind::Standard { .. }, .. } => {},
        }
        i = i + 1;
        proof {
            assert(all.take(i as int).drop_last() =~= all.take(i - 1));
            assert(all.take(i as int).last() == all[i - 1]);
            assert(pair_views(out@) =~= debug_sections_spec(section_views(all.take(i as int))))
                by {
                assert(section_views(all.take(i as int)).drop_last() =~= section_views(
                    all.take(i - 1),
                ));
                assert(section_views(all.take(i as int)).last() == all[i - 1]@);
                if pre_out != out@ {
                    assert(pair_views(out@) =~= pair_views(pre_out).push(
                        (out@.last().0@, out@.last().1@),
                    ));
                }
            }
        }
    }
}

/// Decide one line row: rows without a file entry, without a line number,
/// or above the synthetic-address threshold are skipped; otherwise the
/// returned value is the adjusted line: DWARF's 1-based line minus one,
/// plus one again for Rust units, which stay 1-based.
pub fn decide_row(has_file: bool, line: Option<u64>, address: u64, is_rust: bool) -> (r: Result<
    Option<u32>,
    ExtractError,
>)
    requires
        line is Some ==> line->0 >= 1,
    ensures
        !has_file ==> r matches Ok(None),
        has_file && line is None ==> r matches Ok(None),
        has_file && line is Some && address > MAX_WASM_ADDR ==> r matches Ok(None),
        has_file && line is Some && address <= MAX_WASM_ADDR ==> (({
            let adjusted = line->0 - 1 + if is_rust {
                1int
            } else {
                0int
            };
            if adjusted <= u32::MAX {
                r matches Ok(Some(l)) && l == adjusted
            } else {
                r matches Err(ExtractError::Internal(_))
            }
        })),
{
    if !has_file {
        return Ok(None);
    }
    let raw = match line {
        Some(l) => l,
        None => {
            return Ok(None);
        },
    };
    if address > MAX_WASM_ADDR {
        return Ok(None);
    }
    let mut adjusted = raw - 1;
    if is_rust {
        adjusted = adjusted + 1;
    }
    if adjusted > 0xffff_ffffu64 {
        return Err(ExtractError::Internal("line number out of range".to_owned()));
    }
    Ok(Some(adjusted as u32))
}

/// The record `l` is the one the emission log holds under its id.
pub open spec fn entry_matches(emitted: Seq<Line>, l: Line) -> bool {
    l.id < emitted.len() && emitted[l.id as int] == l
}

/// The mutable state of one extraction walk. `emitted` is the ghost log of
/// every candidate ever emitted, indexed by emission id.
pub struct Walk {
    pub best: Vec<Line>,
    pub next_entry_id: u64,
    pub next_file_id: u32,
    pub emitted: Ghost<Seq<Line>>,
}

/// The walk invariant: the best-score table is sorted, bounded, and holds
/// only records the log knows under their ids.
pub open spec fn walk_wf(w: Walk) -> bool {
    &&& addrs_sorted(w.best@)
    &&& addrs_bounded(w.best@)
    &&& w.emitted@.len() == w.next_entry_id
    &&& forall|i: int|
        0 <= i < w.best@.len() ==> entry_matches(w.emitted@, #[trigger] w.best@[i])
}

/// Every line of every file is logged under its id and carries its own
/// file's id.
pub open spec fn files_wf(files: Seq<ScoredSourceFile>, emitted: Seq<Line>) -> bool {
    forall|f: int, l: int|
        0 <= f < files.len() && 0 <= l < files[f].lines@.len() ==> entry_matches(
            emitted,
            #[trigger] files[f].lines@[l],
        ) && files[f].lines@[l].file_id == files[f].id
}

pub open spec fn units_wf(units: Seq<ScoredSourceUnit>, emitted: Seq<Line>) -> bool {
    forall|u: int| 0 <= u < units.len() ==> files_wf((#[trigger] units[u]).files@, emitted)
}

/// The record `e` is stored in one of these files, under that file's id.
pub open spec fn homed_in_files(files: Seq<ScoredSourceFile>, e: Line) -> bool {
    exists|f: int, l: int|
        0 <= f < files.len() && 0 <= l < files[f].lines@.len() && files[f].lines@[l] == e
}

pub open spec fn homed_in_units(units: Seq<ScoredSourceUnit>, e: Line) -> bool {
    exists|u: int| 0 <= u < units.len() && homed_in_files((#[trigger] units[u]).files@, e)
}

/// Every best-table record lives in some already-collected unit.
pub open spec fn best_homed(best: Seq<Line>, units: Seq<ScoredSourceUnit>) -> bool {
    forall|i: int| 0 <= i < best.len() ==> homed_in_units(units, #[trigger] best[i])
}

/// Do two optional strings hold the same text?
pub open spec fn opt_str_eq(a: Option<String>, b: Option<String>) -> bool {
    match (a, b) {
        (Option::None, Option::None) => true,
        (Option::Some(x), Option::Some(y)) => x@ == y@,
        _ => false,
    }
}

fn opt_string_eq(a: &Option<String>, b: &Option<String>) -> (r: bool)
    ensures
        r == opt_str_eq(*a, *b),
{
    match (a, b) {
        (Option::None, Option::None) => true,
        (Option::Some(x), Option::Some(y)) => *x == *y,
        _ => false,
    }
}

/// Index of the file keyed `(dir, name)`, scanning from `i`.
pub open spec fn key_idx_from(
    files: Seq<ScoredSourceFile>,
    dir: Option<String>,
    name: String,
    i: int,
) -> Option<int>
    decreases files.len() - i when 0 <= i
{
    if i >= files.len() {
        None
    } else if opt_str_eq(files[i].directory, dir) && files[i].file@ == name@ {
        Some(i)
    } else {
        key_idx_from(files, dir, name, i + 1)
    }
}

/// Index of the file keyed `(dir, name)`, if one exists.
pub open spec fn key_idx(files: Seq<ScoredSourceFile>, dir: Option<String>, name: String) -> Option<
    int,
> {
    key_idx_from(files, dir, name, 0)
}

/// Emit one surviving row: find or create the file keyed by its directory
/// and name, append the candidate record there, and offer it to the
/// best-score table.
#[verifier::rlimit(60)]
pub fn emit_row(
    files: &mut Vec<ScoredSourceFile>,
    w: &mut Walk,
    directory: Option<String>,
    filename: String,
    lang: u16,
    line: u32,
    address: u64,
    flags: &RowFlags,
) -> (r: Result<(), ExtractError>)
    requires
        walk_wf(*old(w)),
        files_wf(old(files)@, old(w).emitted@),
        address <= MAX_WASM_ADDR,
    ensures
        r is Err ==> *final(w) == *old(w) && final(files)@ == old(files)@,
        r is Ok ==> ({
            let rec = Line {
                id: old(w).next_entry_id,
                file_id: match key_idx(old(files)@, directory, filename) {
                    Some(k) => old(files)@[k].id,
                    None => old(w).next_file_id,
                },
                address,
                line,
                score: mapping_score(
                    opt_str_bytes(directory),
                    vstd::utf8::encode_utf8(filename@),
                    line as u64,
                    *flags,
                ),
            };
            &&& walk_wf(*final(w))
            &&& files_wf(final(files)@, final(w).emitted@)
            &&& final(w).emitted@ == old(w).emitted@.push(rec)
            &&& final(w).next_entry_id == old(w).next_entry_id + 1
            &&& final(w).best@ == offer_spec(old(w).best@, rec)
            &&& homed_in_files(final(files)@, rec)
            &&& (forall|e: Line|
                homed_in_files(old(files)@, e) ==> homed_in_files(final(files)@, e))
            &&& (match key_idx(old(files)@, directory, filename) {
                Some(k) => final(files)@.len() == old(files)@.len() && final(w).next_file_id == old(w).next_file_id && (forall|j: int|
                    0 <= j < old(files)@.len() && j != k ==> final(files)@[j] == old(files)@[j])
                    && final(files)@[k].id == old(files)@[k].id && final(files)@[k].lines@ == old(files)@[k].lines@.push(rec),
                None => final(files)@.len() == old(files)@.len() + 1 && (forall|j: int|
                    0 <= j < old(files)@.len() ==> final(files)@[j] == old(files)@[j]) && final(files)@.last().id == old(w).next_file_id && final(files)@.last().lines@ == seq![rec]
                    && final(w).next_file_id == old(w).next_file_id + 1,
            })
        }),
{
    if w.next_entry_id == 0xffff_ffff_ffff_ffffu64 {
        return Err(ExtractError::Internal("emission id overflow".to_owned()));
    }
    let score = calculate_mapping_score(&directory, filename.as_str(), line as u64, flags);
    let found = find_file(files, &directory, &filename);

    match found {
        Some(k) => {
            let rec = Line { id: w.next_entry_id, file_id: files[k].id, address, line, score };
            let ghost pre_emitted = w.emitted@;
            w.emitted = Ghost(w.emitted@.push(rec));
            w.next_entry_id = w.next_entry_id + 1;
            let ghost pre_files = files@;
            let mut f = files.remove(k);
            f.lines.push(rec);
            let ghost fv = f;
            files.insert(k, f);
            offer(&mut w.best, rec);
            proof {
                assert(files@ =~= pre_files.update(k as int, fv));
                assert(files@[k as int].lines@ == pre_files[k as int].lines@.push(rec));
                assert(files@[k as int].id == pre_files[k as int].id);
                assert forall|i: int| 0 <= i < w.best@.len() implies entry_matches(
                    w.emitted@,
                    #[trigger] w.best@[i],
                ) by {
                    if w.best@[i] != rec {
                        let j = choose|j: int|
                            0 <= j < old(w).best@.len() && w.best@[i] == old(w).best@[j];
                        assert(entry_matches(pre_emitted, w.best@[i]));
                    }
                }
                assert(files_wf(files@, w.emitted@)) by {
                    assert forall|fi: int, l: int|
                        0 <= fi < files@.len() && 0 <= l < files@[fi].lines@.len() implies
                        entry_matches(w.emitted@, #[trigger] files@[fi].lines@[l])
                            && files@[fi].lines@[l].file_id == files@[fi].id by {
                        if fi == k && l == files@[fi].lines@.len() - 1 {
                            assert(files@[fi].lines@[l] == rec);
                        } else {
                            assert(files@[fi].lines@[l] == pre_files[fi].lines@[l]);
                            assert(entry_matches(pre_emitted, pre_files[fi].lines@[l]));
                        }
                    }
                }
                assert(homed_in_files(files@, rec)) by {
                    assert(files@[k as int].lines@[files@[k as int].lines@.len() - 1] == rec);
                }
                assert forall|e: Line| homed_in_files(pre_files, e) implies homed_in_files(
                    files@,
                    e,
                ) by {
                    let (f0, l0) = choose|f0: int, l0: int|
                        0 <= f0 < pre_files.len() && 0 <= l0 < pre_files[f0].lines@.len()
                            && pre_files[f0].lines@[l0] == e;
                    assert(files@[f0].lines@[l0] == e);
                }
            }
            Ok(())
        },
        None => {
            if w.next_file_id == 0xffff_ffffu32 {
                return Err(ExtractError::Internal("file id overflow".to_owned()));
            }
            let rec = Line { id: w.next_entry_id, file_id: w.next_file_id, address, line, score };
            let ghost pre_emitted = w.emitted@;
            w.emitted = Ghost(w.emitted@.push(rec));
            w.next_entry_id = w.next_entry_id + 1;
            let fid = w.next_file_id;
            w.next_file_id = fid + 1;
            let mut lines: Vec<Line> = Vec::new();
            lines.push(rec);
            let ghost pre_files = files@;
            files.push(
                ScoredSourceFile { id: fid, directory, file: filename, language: lang, lines },
            );
            offer(&mut w.best, rec);
            proof {
                assert(files@.last().lines@ =~= seq![rec]);
                assert forall|i: int| 0 <= i < w.best@.len() implies entry_matches(
                    w.emitted@,
                    #[trigger] w.best@[i],
                ) by {
                    if w.best@[i] != rec {
                        let j = choose|j: int|
                            0 <= j < old(w).best@.len() && w.best@[i] == old(w).best@[j];
                        assert(entry_matches(pre_emitted, w.best@[i]));
                    }
                }
                assert(files_wf(files@, w.emitted@)) by {
                    assert forall|fi: int, l: int|
                        0 <= fi < files@.len() && 0 <= l < files@[fi].lines@.len() implies
                        entry_matches(w.emitted@, #[trigger] files@[fi].lines@[l])
                            && files@[fi].lines@[l].file_id == files@[fi].id by {
                        if fi < files@.len() - 1 {
                            assert(files@[fi] == pre_files[fi]);
                            assert(entry_matches(pre_emitted, pre_files[fi].lines@[l]));
                        } else {
                            assert(files@[fi].lines@[l] == rec);
                        }
                    }
                }
                assert(homed_in_files(files@, rec)) by {
                    let fi = files@.len() - 1;
                    assert(files@[fi].lines@[0] == rec);
                }
                assert forall|e: Line| homed_in_files(pre_files, e) implies homed_in_files(
                    files@,
                    e,
                ) by {
                    let (f0, l0) = choose|f0: int, l0: int|
                        0 <= f0 < pre_files.len() && 0 <= l0 < pre_files[f0].lines@.len()
                            && pre_files[f0].lines@[l0] == e;
                    assert(files@[f0].lines@[l0] == e);
                }
            }
            Ok(())
        },
    }
}

/// Find the file keyed `(directory, filename)` in first-seen order.
///
/// The files sit in a vector scanned by key equality: a keyed map over
/// string pairs would rest its contract on derived string hashing and
/// equality, which nothing here can reason about.
fn find_file(
    files: &Vec<ScoredSourceFile>,
    directory: &Option<String>,
    filename: &String,
) -> (r: Option<usize>)
    ensures
        match r {
            Some(k) => k < files@.len() && key_idx(files@, *directory, *filename) == Some(
                k as int,
            ),
            None => key_idx(files@, *directory, *filename) is None,
        },
{
    let n = files.len();
    for i in 0..n
        invariant
            n == files@.len(),
            key_idx(files@, *directory, *filename) == key_idx_from(files@, *directory, *filename,
                i as int,
            ),
    {
        if opt_string_eq(&files[i].directory, directory) && files[i].file == *filename {
            return Some(i);
        }
    }
    None
}

/// Scan a unit's DIE tree for subprograms and record their ranges.
///
/// An entry is recorded only when its name, start and end are all present,
/// both ends lie at or below the synthetic-address threshold, and the
/// range is non-empty; an offset-form end that would overflow is treated
/// as exceeding the threshold and dropped.
pub fn scan_functions(
    dwarf: &crate::dw::Dwarf,
    unit: &crate::dw::Unit,
    funcs: &mut Vec<(String, u64, u64)>,
) -> (r: Result<(), ExtractError>)
    requires
        names_sorted(old(funcs)@),
        ranges_ok(old(funcs)@),
    ensures
        names_sorted(final(funcs)@),
        ranges_ok(final(funcs)@),
{
    let mut cursor = crate::dw::unit_entries(unit);
    let mut steps: u64 = 0;
    loop
        invariant
            names_sorted(funcs@),
            ranges_ok(funcs@),
        decreases 0xffff_ffff_ffff_ffffu64 - steps,
    {
        if steps == 0xffff_ffff_ffff_ffffu64 {
            return Err(ExtractError::Internal("entry iteration limit".to_owned()));
        }
        steps = steps + 1;
        let die = match crate::dw::cursor_next_die(&mut cursor) {
            Err(e) => {
                return Err(ExtractError::Reader(e));
            },
            Ok(None) => {
                return Ok(());
            },
            Ok(Some(d)) => d,
        };
        if crate::dw::die_is_subprogram(&die) {
            let name = match crate::dw::die_function_name(dwarf, &die) {
                Err(e) => {
                    return Err(ExtractError::Reader(e));
                },
                Ok(n) => n,
            };
            let low = crate::dw::die_low_pc(&die);
            let end: Option<u64> = match crate::dw::die_high_pc(&die) {
                Some(crate::dw::HighPc::Addr(a)) => Some(a),
                Some(crate::dw::HighPc::Offset(o)) => match low {
                    Some(l) => if o <= 0xffff_ffff_ffff_ffffu64 - l {
                        Some(l + o)
                    } else {
                        None
                    },
                    None => None,
                },
                None => None,
            };
            if let Some(n0) = name {
                if let Some(s) = low {
                    if let Some(e0) = end {
                        if s <= MAX_WASM_ADDR && e0 <= MAX_WASM_ADDR && s < e0 {
                            insert_function(funcs, n0, s, e0);
                        }
                    }
                }
            }
        }
    }
}

/// The DWARF language code of Rust.
pub const LANG_RUST: u16 = 28;

/// Run a unit's line program: decide each row, resolve the surviving
/// rows' path strings, and emit them into this unit's file list and the
/// best-score table.
pub fn run_unit_rows(
    dwarf: &crate::dw::Dwarf,
    unit: &crate::dw::Unit,
    program: crate::dw::LineProgram,
    lang: u16,
    w: &mut Walk,
) -> (r: Result<Vec<ScoredSourceFile>, ExtractError>)
    requires
        walk_wf(*old(w)),
    ensures
        r matches Ok(files) ==> ({
            &&& walk_wf(*final(w))
            &&& files_wf(files@, final(w).emitted@)
            &&& old(w).emitted@.len() <= final(w).emitted@.len()
            &&& (forall|k: int|
                0 <= k < old(w).emitted@.len() ==> final(w).emitted@[k] == old(w).emitted@[k])
            &&& (forall|i: int|
                0 <= i < final(w).best@.len() ==> homed_in_files(
                    files@,
                    #[trigger] final(w).best@[i],
                ) || exists|j: int|
                    0 <= j < old(w).best@.len() && final(w).best@[i] == old(w).best@[j])
            &&& ids_increasing(files@)
            &&& (forall|f: int|
                0 <= f < files@.len() ==> old(w).next_file_id <= (#[trigger] files@[f]).id
                    && files@[f].id < final(w).next_file_id)
            &&& old(w).next_file_id <= final(w).next_file_id
        }),
{
    let mut rows = crate::dw::program_rows(program);
    let mut files: Vec<ScoredSourceFile> = Vec::new();
    let mut steps: u64 = 0;
    loop
        invariant
            walk_wf(*w),
            files_wf(files@, w.emitted@),
            old(w).emitted@.len() <= w.emitted@.len(),
            forall|k: int|
                0 <= k < old(w).emitted@.len() ==> w.emitted@[k] == old(w).emitted@[k],
            forall|i: int|
                0 <= i < w.best@.len() ==> homed_in_files(files@, #[trigger] w.best@[i]) || exists|
                    j: int,
                | 0 <= j < old(w).best@.len() && w.best@[i] == old(w).best@[j],
            ids_increasing(files@),
            forall|f: int|
                0 <= f < files@.len() ==> old(w).next_file_id <= (#[trigger] files@[f]).id
                    && files@[f].id < w.next_file_id,
            old(w).next_file_id <= w.next_file_id,
        decreases 0xffff_ffff_ffff_ffffu64 - steps,
    {
        if steps == 0xffff_ffff_ffff_ffffu64 {
            return Err(ExtractError::Internal("row iteration limit".to_owned()));
        }
        steps = steps + 1;
        let row = match crate::dw::rows_next(&mut rows) {
            Err(e) => {
                return Err(ExtractError::Reader(e));
            },
            Ok(None) => {
                return Ok(files);
            },
            Ok(Some(r0)) => r0,
        };
        match row.file {
            None => {},
            Some(fref) => {
                match decide_row(true, row.line, row.address, lang == LANG_RUST)? {
                    None => {},
                    Some(line_adj) => {
                        let directory = match fref.directory {
                            Some(a) => match crate::dw::attr_to_string(dwarf, unit, a) {
                                Ok(s) => Some(s),
                                Err(e) => {
                                    return Err(ExtractError::Reader(e));
                                },
                            },
                            None => None,
                        };
                        let filename = match crate::dw::attr_to_string(dwarf, unit, fref.path) {
                            Ok(s) => s,
                            Err(e) => {
                                return Err(ExtractError::Reader(e));
                            },
                        };
                        let ghost pre = *w;
                        let ghost pre_files = files@;
                        proof {
                            assert(forall|i: int|
                                0 <= i < pre.best@.len() ==> homed_in_files(
                                    pre_files,
                                    #[trigger] pre.best@[i],
                                ) || exists|j: int|
                                    0 <= j < old(w).best@.len() && pre.best@[i] == old(
                                        w,
                                    ).best@[j]);
                        }
                        emit_row(
                            &mut files,
                            w,
                            directory,
                            filename,
                            lang,
                            line_adj,
                            row.address,
                            &row.flags,
                        )?;
                        proof {
                            assert forall|f1: int, f2: int|
                                0 <= f1 < f2 < files@.len() implies files@[f1].id
                                < files@[f2].id by {
                                if f2 < pre_files.len() {
                                    assert(files@[f1] == pre_files[f1]
                                        || files@[f1].id == pre_files[f1].id);
                                    assert(files@[f2] == pre_files[f2]
                                        || files@[f2].id == pre_files[f2].id);
                                } else {
                                    assert(files@[f1].id == pre_files[f1].id || files@[f1].id
                                        == pre_files[f1].id);
                                    assert(files@[f2].id == pre.next_file_id);
                                }
                            }
                            let rec = w.emitted@.last();
                            crate::model::lemma_offer_spec_props(pre.best@, rec);
                            assert forall|i: int| 0 <= i < w.best@.len() implies homed_in_files(
                                files@,
                                #[trigger] w.best@[i],
                            ) || exists|j: int|
                                0 <= j < old(w).best@.len() && w.best@[i] == old(w).best@[j] by {
                                if w.best@[i] != rec {
                                    let j = choose|j: int|
                                        0 <= j < pre.best@.len() && w.best@[i] == pre.best@[j];
                                    if homed_in_files(pre_files, pre.best@[j]) {
                                        assert(homed_in_files(files@, pre.best@[j]));
                                    }
                                }
                            }
                        }
                    },
                }
            },
        }
    }
}

/// Some output unit declares a file with this id.
pub open spec fn out_declared(units: Seq<SourceUnit>, fid: u32) -> bool {
    exists|u: int, f: int|
        0 <= u < units.len() && 0 <= f < units[u].files@.len() && units[u].files@[f].id == fid
}

/// Some output file in this list carries this id.
pub open spec fn out_file_id_in(files: Seq<SourceFile>, fid: u32) -> bool {
    exists|f: int| 0 <= f < files.len() && files[f].id == fid
}

/// Does any of this file's candidate records win its address in the
/// best-score table?
fn file_has_winner(file: &ScoredSourceFile, best: &Vec<Line>) -> (keep: bool)
    requires
        addrs_sorted(best@),
    ensures
        keep == exists|l: int|
            0 <= l < file.lines@.len() && exists|j: int|
                0 <= j < best@.len() && best@[j].address == (#[trigger] file.lines@[l]).address
                    && best@[j].id == file.lines@[l].id,
{
    let n = file.lines.len();
    for l in 0..n
        invariant
            n == file.lines@.len(),
            addrs_sorted(best@),
            forall|k: int|
                0 <= k < l ==> !exists|j: int|
                    0 <= j < best@.len() && best@[j].address == (#[trigger] file.lines@[k]).address
                        && best@[j].id == file.lines@[k].id,
    {
        let cand = file.lines[l];
        match lookup(best, cand.address) {
            Some(b) => {
                if b.id == cand.id {
                    return true;
                }
                proof {
                    let j0 = choose|j0: int|
                        0 <= j0 < best@.len() && best@[j0] == b && b.address == cand.address;
                    assert forall|j: int|
                        0 <= j < best@.len() && best@[j].address == cand.address implies
                        best@[j].id != cand.id by {
                        if j < j0 {
                            assert(best@[j].address < best@[j0].address);
                        } else if j > j0 {
                            assert(best@[j0].address < best@[j].address);
                        }
                    }
                }
            },
            None => {},
        }
    }
    false
}

/// File ids strictly increase along the list.
pub open spec fn ids_increasing(files: Seq<ScoredSourceFile>) -> bool {
    forall|i: int, j: int| 0 <= i < j < files.len() ==> files[i].id < files[j].id
}

/// Within each unit ids increase, and every id of an earlier unit lies
/// below every id of a later one: ids follow first-sight order.
pub open spec fn units_ids_ordered(units: Seq<ScoredSourceUnit>) -> bool {
    &&& (forall|u: int| 0 <= u < units.len() ==> ids_increasing((#[trigger] units[u]).files@))
    &&& (forall|u1: int, u2: int, f1: int, f2: int|
        #![trigger units[u1].files@[f1], units[u2].files@[f2]]
        0 <= u1 < u2 < units.len() && 0 <= f1 < units[u1].files@.len() && 0 <= f2
            < units[u2].files@.len() ==> units[u1].files@[f1].id < units[u2].files@[f2].id)
}

/// Every file id of every unit lies below `b`.
pub open spec fn units_ids_below(units: Seq<ScoredSourceUnit>, b: u32) -> bool {
    forall|u: int, f: int|
        #![trigger units[u].files@[f]]
        0 <= u < units.len() && 0 <= f < units[u].files@.len() ==> units[u].files@[f].id < b
}

/// The fields of `out` are those of the input file `f`.
pub open spec fn file_fields(f: ScoredSourceFile, out: SourceFile) -> bool {
    out.id == f.id && out.directory == f.directory && out.file == f.file && out.language
        == f.language
}

/// `out` carries the fields of one of these input files.
pub open spec fn file_from(files: Seq<ScoredSourceFile>, out: SourceFile) -> bool {
    exists|g: int| 0 <= g < files.len() && file_fields(#[trigger] files[g], out)
}

/// `out` is the projection of the input unit `src`: same name and
/// directory, every file drawn from `src`'s files.
pub open spec fn unit_from(src: ScoredSourceUnit, out: SourceUnit) -> bool {
    out.name == src.name && out.directory == src.directory && forall|f: int|
        0 <= f < out.files@.len() ==> file_from(src.files@, #[trigger] out.files@[f])
}

/// `out` is the projection of one of these input units.
pub open spec fn unit_from_some(units: Seq<ScoredSourceUnit>, out: SourceUnit) -> bool {
    exists|j: int| 0 <= j < units.len() && unit_from(#[trigger] units[j], out)
}

/// Declared file ids strictly increase in output order: within each
/// unit's file list, and from every earlier unit to every later one.
pub open spec fn out_ids_increasing(units: Seq<SourceUnit>) -> bool {
    &&& (forall|u: int, f1: int, f2: int|
        #![trigger units[u].files@[f1], units[u].files@[f2]]
        0 <= u < units.len() && 0 <= f1 < f2 < units[u].files@.len() ==> units[u].files@[f1].id
            < units[u].files@[f2].id)
    &&& (forall|u1: int, u2: int, f1: int, f2: int|
        #![trigger units[u1].files@[f1], units[u2].files@[f2]]
        0 <= u1 < u2 < units.len() && 0 <= f1 < units[u1].files@.len() && 0 <= f2
            < units[u2].files@.len() ==> units[u1].files@[f1].id < units[u2].files@[f2].id)
}

/// Some unit declares a file with this id.
pub open spec fn declared_somewhere(units: Seq<SourceUnit>, fid: u64) -> bool {
    exists|u: int, f: int|
        #![trigger units[u].files@[f]]
        0 <= u < units.len() && 0 <= f < units[u].files@.len() && units[u].files@[f].id as u64
            == fid
}

/// Some triple refers to this file id.
pub open spec fn referenced_by_some(lines: Seq<Vec<u64>>, fid: u64) -> bool {
    exists|i: int| 0 <= i < lines.len() && (#[trigger] lines[i])@[1] == fid
}

/// Every triple's file id is declared by a surviving file.
pub open spec fn lines_files_linked(res: SourceResult) -> bool {
    forall|i: int|
        #![trigger res.lines->0@[i]]
        0 <= i < res.lines->0@.len() ==> declared_somewhere(res.units->0@, res.lines->0@[i]@[1])
}

/// Every surviving file is referred to by some triple.
pub open spec fn files_referenced(res: SourceResult) -> bool {
    forall|u: int, f: int|
        #![trigger res.units->0@[u].files@[f]]
        0 <= u < res.units->0@.len() && 0 <= f < res.units->0@[u].files@.len()
            ==> referenced_by_some(res.lines->0@, res.units->0@[u].files@[f].id as u64)
}

/// The invariants every successful extraction result satisfies: the lines
/// array holds sorted, bounded, per-address-unique triples; every triple's
/// file id is declared by some unit; no empty files or units survive; and
/// the function table is sorted with sane ranges.
pub open spec fn result_ok(res: SourceResult) -> bool {
    &&& res.error is None
    &&& res.units is Some
    &&& res.lines is Some
    &&& (forall|i: int|
        0 <= i < res.lines->0@.len() ==> (#[trigger] res.lines->0@[i])@.len() == 3
            && res.lines->0@[i]@[0] <= MAX_WASM_ADDR)
    &&& (forall|i: int, j: int|
        0 <= i < j < res.lines->0@.len() ==> res.lines->0@[i]@[0] < res.lines->0@[j]@[0])
    &&& lines_files_linked(res)
    &&& (forall|u: int|
        0 <= u < res.units->0@.len() ==> (#[trigger] res.units->0@[u]).files@.len() > 0)
    &&& files_referenced(res)
    &&& (match res.functions {
        Some(fs) => fs@.len() > 0 && names_sorted(fs@) && ranges_ok(fs@),
        None => true,
    })
}

/// Shape the final result: keep only the files with a winning record and
/// the units with a surviving file, emit one sorted triple per best-score
/// entry, and attach the function table when it is non-empty.
#[verifier::rlimit(100)]
pub fn project(
    units: Vec<ScoredSourceUnit>,
    w: Walk,
    functions: Vec<(String, u64, u64)>,
) -> (res: SourceResult)
    requires
        walk_wf(w),
        units_wf(units@, w.emitted@),
        best_homed(w.best@, units@),
        units_ids_ordered(units@),
        names_sorted(functions@),
        ranges_ok(functions@),
    ensures
        result_ok(res),
        out_ids_increasing(res.units->0@),
        units@.len() == 0 ==> res.units->0@.len() == 0,
        forall|u: int|
            #![trigger res.units->0@[u]]
            0 <= u < res.units->0@.len() ==> unit_from_some(units@, res.units->0@[u]),
        res.lines->0@.len() == w.best@.len(),
        forall|i: int|
            0 <= i < w.best@.len() ==> (#[trigger] res.lines->0@[i])@ =~= seq![
                w.best@[i].address,
                w.best@[i].file_id as u64,
                w.best@[i].line as u64,
            ],
        match res.functions {
            Some(fs) => fs@ == functions@,
            None => functions@.len() == 0,
        },
{
    let mut out_units: Vec<SourceUnit> = Vec::new();
    let mut rest = units;
    let ghost all = rest@;
    let n = rest.len();
    let mut i: usize = 0;
    proof {
        assert(all.skip(0) =~= all);
    }
    while i < n
        invariant
            all == units@,
            walk_wf(w),
            units_wf(all, w.emitted@),
            out_units@.len() <= i,
            forall|u: int|
                0 <= u < out_units@.len() ==> unit_from_some(all, #[trigger] out_units@[u]),
            units_ids_ordered(all),
            out_ids_increasing(out_units@),
            forall|u: int, f: int, j: int, g: int|
                #![trigger out_units@[u].files@[f], all[j].files@[g]]
                0 <= u < out_units@.len() && 0 <= f < out_units@[u].files@.len() && i <= j < n
                    && 0 <= g < all[j].files@.len() ==> out_units@[u].files@[f].id
                    < all[j].files@[g].id,
            i <= n,
            n == all.len(),
            rest@ =~= all.skip(i as int),
            forall|k: int|
                0 <= k < w.best@.len() ==> homed_in_units(
                    all.skip(i as int),
                    #[trigger] w.best@[k],
                ) || out_declared(out_units@, w.best@[k].file_id),
            forall|u: int|
                0 <= u < out_units@.len() ==> (#[trigger] out_units@[u]).files@.len() > 0,
            forall|u: int, f: int|
                #![trigger out_units@[u].files@[f]]
                0 <= u < out_units@.len() && 0 <= f < out_units@[u].files@.len() ==> exists|j: int|
                    0 <= j < w.best@.len() && (#[trigger] w.best@[j]).file_id
                        == out_units@[u].files@[f].id,
        decreases n - i,
    {
        proof {
            assert(rest@[0] == all[i as int]);
        }
        let ghost iprev = i as int;
        let unit = rest.remove(0);
        let ScoredSourceUnit { name, directory, files } = unit;
        let ghost fall = files@;
        proof {
            assert(files_wf(fall, w.emitted@));
        }
        let mut out_files: Vec<SourceFile> = Vec::new();
        let mut rest2 = files;
        let m = rest2.len();
        let mut fi: usize = 0;
        proof {
            assert(fall.skip(0) =~= fall);
            assert(ids_increasing(fall)) by {
                assert(ids_increasing(all[i as int].files@));
            }
        }
        while fi < m
            invariant
                walk_wf(w),
                files_wf(fall, w.emitted@),
                fi <= m,
                m == fall.len(),
                rest2@ =~= fall.skip(fi as int),
                forall|k: int|
                    0 <= k < w.best@.len() && homed_in_files(fall, #[trigger] w.best@[k])
                        ==> homed_in_files(fall.skip(fi as int), w.best@[k]) || out_file_id_in(
                        out_files@,
                        w.best@[k].file_id,
                    ),
                forall|f: int|
                    #![trigger out_files@[f]]
                    0 <= f < out_files@.len() ==> exists|j: int|
                        0 <= j < w.best@.len() && (#[trigger] w.best@[j]).file_id
                            == out_files@[f].id,
                forall|f: int|
                    0 <= f < out_files@.len() ==> file_from(fall, #[trigger] out_files@[f]),
                ids_increasing(fall),
                forall|f1: int, f2: int|
                    #![trigger out_files@[f1], out_files@[f2]]
                    0 <= f1 < f2 < out_files@.len() ==> out_files@[f1].id < out_files@[f2].id,
                forall|f: int, g: int|
                    #![trigger out_files@[f], fall[g]]
                    0 <= f < out_files@.len() && fi <= g < fall.len() ==> out_files@[f].id
                        < fall[g].id,
            decreases m - fi,
        {
            proof {
                assert(rest2@[0] == fall[fi as int]);
            }
            let ghost pre_outf = out_files@;
            let file = rest2.remove(0);
            let ghost fv = fall[fi as int];
            let keep = file_has_winner(&file, &w.best);
            if keep {
                proof {
                    let (l, j) = choose|l: int, j: int|
                        0 <= l < file.lines@.len() && 0 <= j < w.best@.len()
                            && w.best@[j].address == file.lines@[l].address && w.best@[j].id
                            == file.lines@[l].id;
                    assert(entry_matches(w.emitted@, fall[fi as int].lines@[l]));
                    assert(entry_matches(w.emitted@, w.best@[j]));
                    assert(w.best@[j] == fall[fi as int].lines@[l]);
                    assert(w.best@[j].file_id == fall[fi as int].id);
                }
                let ScoredSourceFile { id, directory: fdir, file: fname, language, lines } = file;
                out_files.push(SourceFile { id, directory: fdir, file: fname, language });
                proof {
                    assert(out_files@ == pre_outf.push(out_files@.last()));
                    assert(out_files@.last().id == fv.id);
                    assert(file_fields(fv, out_files@.last()));
                }
            }
            fi = fi + 1;
            proof {
                assert forall|k: int|
                    0 <= k < w.best@.len() && homed_in_files(fall, #[trigger] w.best@[k]) implies
                    homed_in_files(fall.skip(fi as int), w.best@[k]) || out_file_id_in(
                        out_files@,
                        w.best@[k].file_id,
                    ) by {
                    let e = w.best@[k];
                    assert(homed_in_files(fall.skip(fi - 1), e) || out_file_id_in(
                        pre_outf,
                        e.file_id,
                    ));
                    if homed_in_files(fall.skip(fi - 1), e) {
                        let (f0, l0) = choose|f0: int, l0: int|
                            0 <= f0 < fall.skip(fi - 1).len() && 0 <= l0 < fall.skip(
                                fi - 1,
                            )[f0].lines@.len() && (#[trigger] fall.skip(fi - 1)[f0].lines@[l0])
                                == e;
                        if f0 == 0 {
                            assert(fall[fi - 1].lines@[l0] == e);
                            assert(fv.lines@[l0] == e);
                            assert(entry_matches(w.emitted@, fall[fi - 1].lines@[l0]));
                            assert(e.file_id == fall[fi - 1].id);
                            assert(e.address == fv.lines@[l0].address && e.id == fv.lines@[l0].id);
                            assert(file.lines@[l0] == fv.lines@[l0]);
                            assert(keep);
                            assert(out_files@.last().id == e.file_id);
                            assert(out_file_id_in(out_files@, e.file_id));
                        } else {
                            assert(fall.skip(fi as int)[f0 - 1].lines@[l0] == e);
                            assert(homed_in_files(fall.skip(fi as int), e));
                        }
                    } else {
                        let f1 = choose|f1: int|
                            0 <= f1 < pre_outf.len() && (#[trigger] pre_outf[f1]).id == e.file_id;
                        assert(out_files@[f1] == pre_outf[f1]);
                        assert(out_file_id_in(out_files@, e.file_id));
                    }
                }
                assert forall|f: int| 0 <= f < out_files@.len() implies file_from(
                    fall,
                    #[trigger] out_files@[f],
                ) by {
                    if f < pre_outf.len() {
                        assert(out_files@[f] == pre_outf[f]);
                    } else {
                        assert(out_files@[f] == out_files@.last());
                        assert(file_fields(fall[fi - 1], out_files@[f]));
                    }
                }
                assert forall|f1: int, f2: int|
                    #![trigger out_files@[f1], out_files@[f2]]
                    0 <= f1 < f2 < out_files@.len() implies out_files@[f1].id
                    < out_files@[f2].id by {
                    if f2 < pre_outf.len() {
                        assert(out_files@[f1] == pre_outf[f1] && out_files@[f2] == pre_outf[f2]);
                    } else {
                        assert(out_files@[f1] == pre_outf[f1]);
                        assert(out_files@[f2].id == fall[fi - 1].id);
                        assert(pre_outf[f1].id < fall[fi - 1].id);
                    }
                }
                assert forall|f: int, g: int|
                    #![trigger out_files@[f], fall[g]]
                    0 <= f < out_files@.len() && fi <= g < fall.len() implies out_files@[f].id
                    < fall[g].id by {
                    if f < pre_outf.len() {
                        assert(out_files@[f] == pre_outf[f]);
                        assert(pre_outf[f].id < fall[g].id);
                    } else {
                        assert(out_files@[f].id == fall[fi - 1].id);
                        assert(fall[fi - 1].id < fall[g].id);
                    }
                }
            }
        }
        if out_files.len() > 0 {
            let ghost pre_units = out_units@;
            let ghost outf = out_files@;
            out_units.push(SourceUnit { name, directory, files: out_files });
            proof {
                assert(out_units@.last().files@ == outf);
                assert(fall == all[i as int].files@);
                assert(unit_from(all[i as int], out_units@.last())) by {
                    assert forall|f: int|
                        0 <= f < out_units@.last().files@.len() implies file_from(
                        all[i as int].files@,
                        #[trigger] out_units@.last().files@[f],
                    ) by {
                        assert(out_units@.last().files@[f] == outf[f]);
                        assert(file_from(fall, outf[f]));
                    }
                }
                assert forall|u: int| 0 <= u < out_units@.len() implies unit_from_some(
                    all,
                    #[trigger] out_units@[u],
                ) by {
                    if u < out_units@.len() - 1 {
                        assert(out_units@[u] == pre_units[u]);
                    } else {
                        assert(out_units@[u] == out_units@.last());
                    }
                }
                assert(out_ids_increasing(out_units@)) by {
                    assert forall|u: int, f1: int, f2: int|
                        #![trigger out_units@[u].files@[f1], out_units@[u].files@[f2]]
                        0 <= u < out_units@.len() && 0 <= f1 < f2
                            < out_units@[u].files@.len() implies out_units@[u].files@[f1].id
                        < out_units@[u].files@[f2].id by {
                        if u < out_units@.len() - 1 {
                            assert(out_units@[u] == pre_units[u]);
                        } else {
                            assert(out_units@[u].files@ == outf);
                        }
                    }
                    assert forall|u1: int, u2: int, f1: int, f2: int|
                        #![trigger out_units@[u1].files@[f1], out_units@[u2].files@[f2]]
                        0 <= u1 < u2 < out_units@.len() && 0 <= f1 < out_units@[u1].files@.len()
                            && 0 <= f2 < out_units@[u2].files@.len() implies
                        out_units@[u1].files@[f1].id < out_units@[u2].files@[f2].id by {
                        if u2 < out_units@.len() - 1 {
                            assert(out_units@[u1] == pre_units[u1] && out_units@[u2]
                                == pre_units[u2]);
                        } else {
                            assert(out_units@[u1] == pre_units[u1]);
                            assert(out_units@[u2].files@ == outf);
                            assert(file_from(fall, outf[f2]));
                            let g2 = choose|g2: int|
                                0 <= g2 < fall.len() && file_fields(#[trigger] fall[g2], outf[f2]);
                            assert(fall == all[iprev].files@);
                            assert(pre_units[u1].files@[f1].id < all[iprev].files@[g2].id);
                        }
                    }
                }
                assert forall|u: int, f: int, j: int, g: int|
                    #![trigger out_units@[u].files@[f], all[j].files@[g]]
                    0 <= u < out_units@.len() && 0 <= f < out_units@[u].files@.len() && iprev + 1
                        <= j < n && 0 <= g < all[j].files@.len() implies
                    out_units@[u].files@[f].id < all[j].files@[g].id by {
                    if u < out_units@.len() - 1 {
                        assert(out_units@[u] == pre_units[u]);
                        assert(pre_units[u].files@[f].id < all[j].files@[g].id);
                    } else {
                        assert(out_units@[u].files@ == outf);
                        assert(file_from(fall, outf[f]));
                        let gf = choose|gf: int|
                            0 <= gf < fall.len() && file_fields(#[trigger] fall[gf], outf[f]);
                        assert(fall == all[iprev].files@);
                        assert(all[iprev].files@[gf].id < all[j].files@[g].id);
                    }
                }
                assert forall|k: int| 0 <= k < w.best@.len() implies homed_in_units(
                    all.skip(i + 1),
                    #[trigger] w.best@[k],
                ) || out_declared(out_units@, w.best@[k].file_id) by {
                    if homed_in_units(all.skip(i as int), w.best@[k]) {
                        let u0 = choose|u0: int|
                            0 <= u0 < all.skip(i as int).len() && homed_in_files(
                                all.skip(i as int)[u0].files@,
                                w.best@[k],
                            );
                        if u0 == 0 {
                            assert(homed_in_files(fall, w.best@[k]));
                            assert(homed_in_files(fall.skip(m as int), w.best@[k])
                                || out_file_id_in(outf, w.best@[k].file_id));
                            assert(fall.skip(m as int) =~= Seq::<ScoredSourceFile>::empty());
                            assert(fall.skip(m as int).len() == 0);
                            let f1 = choose|f1: int|
                                0 <= f1 < outf.len() && (#[trigger] outf[f1]).id
                                    == w.best@[k].file_id;
                            assert(out_units@.last().files@[f1].id == w.best@[k].file_id);
                        } else {
                            assert(all.skip(i + 1)[u0 - 1] == all.skip(i as int)[u0]);
                        }
                    } else if out_declared(pre_units, w.best@[k].file_id) {
                        let (u1, f1) = choose|u1: int, f1: int|
                            0 <= u1 < pre_units.len() && 0 <= f1 < pre_units[u1].files@.len()
                                && pre_units[u1].files@[f1].id == w.best@[k].file_id;
                        assert(out_units@[u1].files@[f1].id == w.best@[k].file_id);
                    }
                }
            }
        } else {
            proof {
                assert forall|k: int| 0 <= k < w.best@.len() implies homed_in_units(
                    all.skip(i + 1),
                    #[trigger] w.best@[k],
                ) || out_declared(out_units@, w.best@[k].file_id) by {
                    if homed_in_units(all.skip(i as int), w.best@[k]) {
                        let u0 = choose|u0: int|
                            0 <= u0 < all.skip(i as int).len() && homed_in_files(
                                all.skip(i as int)[u0].files@,
                                w.best@[k],
                            );
                        if u0 == 0 {
                            assert(homed_in_files(fall, w.best@[k]));
                            assert(homed_in_files(fall.skip(m as int), w.best@[k])
                                || out_file_id_in(out_files@, w.best@[k].file_id));
                            assert(fall.skip(m as int) =~= Seq::<ScoredSourceFile>::empty());
                            assert(fall.skip(m as int).len() == 0);
                            assert(out_files@.len() == 0);
                            assert(false);
                        } else {
                            assert(all.skip(i + 1)[u0 - 1] == all.skip(i as int)[u0]);
                        }
                    }
                }
            }
        }
        i = i + 1;
    }

    let mut lines: Vec<Vec<u64>> = Vec::new();
    let bn = w.best.len();
    for bi in 0..bn
        invariant
            walk_wf(w),
            bn == w.best@.len(),
            lines@.len() == bi,
            forall|x: int|
                0 <= x < bi ==> (#[trigger] lines@[x])@ =~= seq![
                    w.best@[x].address,
                    w.best@[x].file_id as u64,
                    w.best@[x].line as u64,
                ],
    {
        let b = w.best[bi];
        let triple: Vec<u64> = vec![b.address, b.file_id as u64, b.line as u64];
        lines.push(triple);
    }

    proof {
        assert(all.skip(n as int) =~= Seq::<ScoredSourceUnit>::empty());
    }
    let ghost outu = out_units@;
    let ghost lns = lines@;
    let ghost fns = functions@;
    let functions_out: Option<Vec<(String, u64, u64)>> = if functions.len() > 0 {
        Some(functions)
    } else {
        None
    };
    let res = SourceResult {
        units: Some(out_units),
        lines: Some(lines),
        functions: functions_out,
        error: None,
    };
    proof {
        assert(res.units->0@ == outu);
        assert(res.lines->0@ == lns);
        assert(all.skip(n as int).len() == 0);
        assert forall|u: int| #![trigger res.units->0@[u]] 0 <= u < res.units->0@.len() implies
            unit_from_some(units@, res.units->0@[u]) by {
            assert(res.units->0@[u] == outu[u]);
            assert(unit_from_some(all, outu[u]));
        }
        assert(out_ids_increasing(res.units->0@)) by {
            assert(res.units->0@ == outu);
            assert(out_ids_increasing(outu));
        }
        assert forall|x: int| 0 <= x < res.lines->0@.len() implies (
        #[trigger] res.lines->0@[x])@.len() == 3 && res.lines->0@[x]@[0] <= MAX_WASM_ADDR by {
            assert(res.lines->0@[x]@ =~= seq![
                w.best@[x].address,
                w.best@[x].file_id as u64,
                w.best@[x].line as u64,
            ]);
        }
        assert forall|x: int, y: int| 0 <= x < y < res.lines->0@.len() implies res.lines->0@[x]@[0]
            < res.lines->0@[y]@[0] by {
            assert(res.lines->0@[x]@[0] == w.best@[x].address);
            assert(res.lines->0@[y]@[0] == w.best@[y].address);
        }
        assert forall|i: int| #![trigger res.lines->0@[i]] 0 <= i < res.lines->0@.len() implies
            declared_somewhere(res.units->0@, res.lines->0@[i]@[1]) by {
            let x = i;
            assert(0 <= x < lns.len());
            assert(homed_in_units(all.skip(n as int), w.best@[x]) || out_declared(
                outu,
                w.best@[x].file_id,
            ));
            assert(out_declared(outu, w.best@[x].file_id));
            let (u1, f1) = choose|u1: int, f1: int|
                0 <= u1 < outu.len() && 0 <= f1 < outu[u1].files@.len() && (
                #[trigger] outu[u1].files@[f1]).id == w.best@[x].file_id;
            assert(res.lines->0@[x]@[1] == w.best@[x].file_id as u64);
            assert(res.units->0@[u1].files@[f1].id as u64 == res.lines->0@[x]@[1]);
        }
        assert forall|u: int, f: int|
            #![trigger res.units->0@[u].files@[f]]
            0 <= u < res.units->0@.len() && 0 <= f < res.units->0@[u].files@.len() implies
            referenced_by_some(res.lines->0@, res.units->0@[u].files@[f].id as u64) by {
            assert(res.units->0@[u].files@[f] == outu[u].files@[f]);
            let j = choose|j: int|
                0 <= j < w.best@.len() && (#[trigger] w.best@[j]).file_id == outu[u].files@[f].id;
            assert(res.lines->0@[j]@[1] == w.best@[j].file_id as u64);
        }
    }
    res
}

/// Extract the source-level debug information of a WebAssembly module.
///
/// The module is split into sections; the `.debug_*` custom sections are
/// handed to the DWARF reader; each compilation unit contributes function
/// ranges and scored line rows; and the projection keeps, per address, the
/// best-scored row. Container-level failures map to their errors exactly;
/// on success the result satisfies `result_ok`.
pub fn extract_source_info(src: &[u8]) -> (r: Result<SourceResult, ExtractError>)
    ensures
        ({
            let p = crate::wasm::spec_parse_module(src@);
            &&& (p is BadMagic ==> r matches Err(ExtractError::InvalidMagic))
            &&& (p matches SpecParse::BadVersion(v) ==> r matches Err(
                ExtractError::UnsupportedVersion(got),
            ) && got == v)
            &&& (p is Malformed ==> r matches Err(ExtractError::Internal(_)))
            &&& ((p matches SpecParse::Sections(secs) && debug_sections_spec(secs).len() == 0)
                ==> (r matches Ok(res) && res.units is Some && res.units->0@.len() == 0
                    && res.lines is Some && res.lines->0@.len() == 0 && res.functions is None
                    && res.error is None))
        }),
        r matches Ok(res) ==> result_ok(res) && out_ids_increasing(res.units->0@),
{
    let sections = match crate::wasm::parse_sections(src) {
        Ok(s) => s,
        Err(e) => {
            return Err(e);
        },
    };
    let debug = collect_debug_sections(sections);
    let ghost nodbg = debug_sections_spec(
        crate::wasm::spec_parse_module(src@)->Sections_0,
    ).len() == 0;
    proof {
        assert(pair_views(debug@).len() == debug@.len());
        assert(nodbg ==> debug@.len() == 0);
    }
    let dwarf = crate::dw::load_dwarf(&debug);
    let mut iter = crate::dw::dwarf_units(&dwarf);
    let mut w = Walk {
        best: Vec::new(),
        next_entry_id: 0,
        next_file_id: 0,
        emitted: Ghost(Seq::empty()),
    };
    let mut units: Vec<ScoredSourceUnit> = Vec::new();
    let mut functions: Vec<(String, u64, u64)> = Vec::new();
    let mut steps: u64 = 0;
    loop
        invariant_except_break
            nodbg ==> crate::dw::units_exhausted(iter) && steps == 0,
        invariant
            crate::wasm::spec_parse_module(src@) is Sections,
            nodbg == (debug_sections_spec(
                crate::wasm::spec_parse_module(src@)->Sections_0,
            ).len() == 0),
            nodbg ==> units@.len() == 0 && functions@.len() == 0 && w.best@.len() == 0,
            walk_wf(w),
            units_wf(units@, w.emitted@),
            best_homed(w.best@, units@),
            units_ids_ordered(units@),
            units_ids_below(units@, w.next_file_id),
            names_sorted(functions@),
            ranges_ok(functions@),
        decreases 0xffff_ffff_ffff_ffffu64 - steps,
    {
        if steps == 0xffff_ffff_ffff_ffffu64 {
            return Err(ExtractError::Internal("unit iteration limit".to_owned()));
        }
        steps = steps + 1;
        let mut unit = match crate::dw::next_unit(&dwarf, &mut iter) {
            Err(e) => {
                return Err(ExtractError::Reader(e));
            },
            Ok(None) => {
                break ;
            },
            Ok(Some(u)) => u,
        };
        let lang = match crate::dw::unit_language(&unit) {
            Err(e) => {
                return Err(ExtractError::Reader(e));
            },
            Ok(Some(l)) => l,
            Ok(None) => 0,
        };
        let program = crate::dw::take_line_program(&mut unit);
        match scan_functions(&dwarf, &unit, &mut functions) {
            Ok(()) => {},
            Err(e) => {
                return Err(e);
            },
        }
        let ghost pre_w = w;
        let ghost pre_units = units@;
        let files = match program {
            Some(p) => match run_unit_rows(&dwarf, &unit, p, lang, &mut w) {
                Ok(fs) => fs,
                Err(e) => {
                    return Err(e);
                },
            },
            None => Vec::new(),
        };
        let name = match crate::dw::unit_name(&unit) {
            Err(e) => {
                return Err(ExtractError::Reader(e));
            },
            Ok(Some(s)) => s,
            Ok(None) => String::new(),
        };
        let directory = match crate::dw::unit_comp_dir(&unit) {
            Err(e) => {
                return Err(ExtractError::Reader(e));
            },
            Ok(Some(s)) => s,
            Ok(None) => String::new(),
        };
        proof {
            assert forall|u: int| 0 <= u < units@.len() implies files_wf(
                (#[trigger] units@[u]).files@,
                w.emitted@,
            ) by {
                assert(files_wf(units@[u].files@, pre_w.emitted@));
                assert forall|f: int, l: int|
                    0 <= f < units@[u].files@.len() && 0 <= l
                        < units@[u].files@[f].lines@.len() implies entry_matches(
                    w.emitted@,
                    #[trigger] units@[u].files@[f].lines@[l],
                ) && units@[u].files@[f].lines@[l].file_id == units@[u].files@[f].id by {
                    assert(entry_matches(pre_w.emitted@, units@[u].files@[f].lines@[l]));
                }
            }
        }
        if files.len() > 0 {
            let ghost fls = files@;
            units.push(ScoredSourceUnit { name, directory, files });
            proof {
                assert(units@.last().files@ == fls);
                assert(units_ids_ordered(units@)) by {
                    assert forall|u1: int, u2: int, f1: int, f2: int|
                        #![trigger units@[u1].files@[f1], units@[u2].files@[f2]]
                        0 <= u1 < u2 < units@.len() && 0 <= f1 < units@[u1].files@.len() && 0 <= f2
                            < units@[u2].files@.len() implies units@[u1].files@[f1].id
                        < units@[u2].files@[f2].id by {
                        if u2 < units@.len() - 1 {
                            assert(units@[u1] == pre_units[u1] && units@[u2] == pre_units[u2]);
                        } else {
                            assert(units@[u1] == pre_units[u1]);
                            assert(units@[u2].files@ == fls);
                            assert(pre_units[u1].files@[f1].id < pre_w.next_file_id);
                            assert(pre_w.next_file_id <= fls[f2].id);
                        }
                    }
                    assert forall|u: int| 0 <= u < units@.len() implies ids_increasing(
                        (#[trigger] units@[u]).files@,
                    ) by {
                        if u < units@.len() - 1 {
                            assert(units@[u] == pre_units[u]);
                        } else {
                            assert(units@[u].files@ == fls);
                        }
                    }
                }
                assert(units_ids_below(units@, w.next_file_id)) by {
                    assert forall|u: int, f: int|
                        #![trigger units@[u].files@[f]]
                        0 <= u < units@.len() && 0 <= f < units@[u].files@.len() implies
                        units@[u].files@[f].id < w.next_file_id by {
                        if u < units@.len() - 1 {
                            assert(units@[u] == pre_units[u]);
                            assert(pre_units[u].files@[f].id < pre_w.next_file_id);
                        } else {
                            assert(units@[u].files@ == fls);
                        }
                    }
                }
                assert forall|k: int| 0 <= k < w.best@.len() implies homed_in_units(
                    units@,
                    #[trigger] w.best@[k],
                ) by {
                    if homed_in_files(fls, w.best@[k]) {
                        let u0 = units@.len() - 1;
                        assert(homed_in_files(units@[u0].files@, w.best@[k]));
                    } else {
                        let j = choose|j: int|
                            0 <= j < pre_w.best@.len() && w.best@[k] == pre_w.best@[j];
                        assert(homed_in_units(pre_units, pre_w.best@[j]));
                        let u1 = choose|u1: int|
                            0 <= u1 < pre_units.len() && homed_in_files(
                                (#[trigger] pre_units[u1]).files@,
                                pre_w.best@[j],
                            );
                        assert(units@[u1].files@ == pre_units[u1].files@);
                        assert(homed_in_files(units@[u1].files@, w.best@[k]));
                    }
                }
            }
        } else {
            proof {
                assert(units_ids_below(units@, w.next_file_id)) by {
                    assert forall|u: int, f: int|
                        #![trigger units@[u].files@[f]]
                        0 <= u < units@.len() && 0 <= f < units@[u].files@.len() implies
                        units@[u].files@[f].id < w.next_file_id by {
                        assert(units@[u].files@[f].id < pre_w.next_file_id);
                    }
                }
                assert forall|k: int| 0 <= k < w.best@.len() implies homed_in_units(
                    units@,
                    #[trigger] w.best@[k],
                ) by {
                    if homed_in_files(files@, w.best@[k]) {
                        assert(false);
                    } else {
                        let j = choose|j: int|
                            0 <= j < pre_w.best@.len() && w.best@[k] == pre_w.best@[j];
                        assert(homed_in_units(pre_units, pre_w.best@[j]));
                    }
                }
            }
        }
    }
    let ghost n_units = units@.len();
    let ghost n_funcs = functions@.len();
    let ghost n_best = w.best@.len();
    let res = project(units, w, functions);
    proof {
        if nodbg {
            assert(res.units->0@.len() == 0);
            assert(res.lines->0@.len() == 0);
            if res.functions is Some {
                assert(res.functions->0@ == Seq::<(String, u64, u64)>::empty());
                assert(res.functions->0@.len() > 0);
            }
        }
    }
    Ok(res)
}

} // verus!
