//! The scoring policy: ranks how useful an (address → source location)
//! mapping is for a debugger. Higher is better.
//!
//! The policy is stated over the UTF-8 bytes of the directory and file name,
//! starts from a base of 1000, and applies the adjustments in a fixed order
//! with saturating arithmetic.

use vstd::prelude::*;
use crate::bytes::{contains_seq, starts_with_seq, ends_with_seq, count_byte};
use crate::bytes::{slice_contains, slice_starts_with, slice_ends_with, slice_count_byte};
use vstd::string::StringSliceAdditionalSpecFns;

verus! {

/// The line-row flags that influence the score.
#[derive(Clone, Copy, PartialEq, Eq, Structural, Debug)]
pub struct RowFlags {
    pub is_stmt: bool,
    pub prologue_end: bool,
    pub epilogue_begin: bool,
    pub basic_block: bool,
}

/// Saturating subtraction on `u32`.
pub open spec fn ssub(a: u32, b: u32) -> u32 {
    if a >= b {
        (a - b) as u32
    } else {
        0
    }
}

/// Saturating subtraction of an unbounded penalty.
pub open spec fn ssub_big(a: u32, b: int) -> u32 {
    if b >= a {
        0
    } else {
        (a - b) as u32
    }
}

pub open spec fn pat_rustc() -> Seq<u8> {
    seq!['/' as u8, 'r' as u8, 'u' as u8, 's' as u8, 't' as u8, 'c' as u8, '/' as u8]
}

pub open spec fn pat_rust_deps() -> Seq<u8> {
    seq![
        '/' as u8, 'r' as u8, 'u' as u8, 's' as u8, 't' as u8, '/' as u8, 'd' as u8, 'e' as u8,
        'p' as u8, 's' as u8, '/' as u8,
    ]
}

pub open spec fn pat_library() -> Seq<u8> {
    seq!['l' as u8, 'i' as u8, 'b' as u8, 'r' as u8, 'a' as u8, 'r' as u8, 'y' as u8, '/' as u8]
}

pub open spec fn pat_slash() -> Seq<u8> {
    seq!['/' as u8]
}

pub open spec fn pat_src() -> Seq<u8> {
    seq!['s' as u8, 'r' as u8, 'c' as u8]
}

pub open spec fn pat_dot_rs() -> Seq<u8> {
    seq!['.' as u8, 'r' as u8, 's' as u8]
}

pub open spec fn pat_main_rs() -> Seq<u8> {
    seq!['m' as u8, 'a' as u8, 'i' as u8, 'n' as u8, '.' as u8, 'r' as u8, 's' as u8]
}

pub open spec fn pat_lib_rs() -> Seq<u8> {
    seq!['l' as u8, 'i' as u8, 'b' as u8, '.' as u8, 'r' as u8, 's' as u8]
}

pub open spec fn pat_mod_rs() -> Seq<u8> {
    seq!['m' as u8, 'o' as u8, 'd' as u8, '.' as u8, 'r' as u8, 's' as u8]
}

pub open spec fn pat_intrinsics() -> Seq<u8> {
    seq![
        'i' as u8, 'n' as u8, 't' as u8, 'r' as u8, 'i' as u8, 'n' as u8, 's' as u8, 'i' as u8,
        'c' as u8, 's' as u8,
    ]
}

pub open spec fn pat_panic() -> Seq<u8> {
    seq!['p' as u8, 'a' as u8, 'n' as u8, 'i' as u8, 'c' as u8]
}

pub open spec fn pat_macros_rs() -> Seq<u8> {
    seq!['m' as u8, 'a' as u8, 'c' as u8, 'r' as u8, 'o' as u8, 's' as u8, '.' as u8, 'r' as u8,
        's' as u8]
}

pub open spec fn pat_impls_rs() -> Seq<u8> {
    seq!['i' as u8, 'm' as u8, 'p' as u8, 'l' as u8, 's' as u8, '.' as u8, 'r' as u8, 's' as u8]
}

pub open spec fn pat_builders_rs() -> Seq<u8> {
    seq!['b' as u8, 'u' as u8, 'i' as u8, 'l' as u8, 'd' as u8, 'e' as u8, 'r' as u8, 's' as u8,
        '.' as u8, 'r' as u8, 's' as u8]
}

/// Adjustments from the row flags.
pub open spec fn flags_stage(s: u32, f: RowFlags) -> u32 {
    let s = if !f.is_stmt { ssub(s, 400) } else { s };
    let s = if f.prologue_end || f.epilogue_begin { ssub(s, 300) } else { s };
    if f.basic_block { ssub(s, 200) } else { s }
}

/// Adjustments that prefer user code over library and dependency paths.
pub open spec fn dir_stage(s: u32, dir: Seq<u8>) -> u32 {
    let s = if contains_seq(dir, pat_rustc()) || contains_seq(dir, pat_rust_deps()) {
        ssub(s, 300)
    } else { s };
    let s = if contains_seq(dir, pat_library()) { ssub(s, 200) } else { s };
    if starts_with_seq(dir, pat_slash()) && !contains_seq(dir, pat_src()) {
        ssub(s, 100)
    } else { s }
}

/// Adjustments from the file name.
pub open spec fn file_stage(s: u32, file: Seq<u8>) -> u32 {
    let s = if ends_with_seq(file, pat_dot_rs()) { (s + 100) as u32 } else { s };
    let s = if contains_seq(file, pat_main_rs()) || contains_seq(file, pat_lib_rs()) {
        (s + 50) as u32
    } else { s };
    let s = if contains_seq(file, pat_mod_rs()) && !contains_seq(file, pat_intrinsics()) {
        (s + 30) as u32
    } else { s };
    let s = if contains_seq(file, pat_intrinsics()) || contains_seq(file, pat_panic()) {
        ssub(s, 150)
    } else { s };
    let s = if contains_seq(file, pat_macros_rs()) { ssub(s, 100) } else { s };
    if contains_seq(file, pat_impls_rs()) || contains_seq(file, pat_builders_rs()) {
        ssub(s, 80)
    } else { s }
}

/// Adjustments from the adjusted line number.
pub open spec fn line_stage(s: u32, line: u64) -> u32 {
    if line == 0 {
        ssub(s, 200)
    } else if line < 10 {
        ssub(s, 50)
    } else {
        s
    }
}

/// Penalty for deeply nested directory paths.
pub open spec fn depth_stage(s: u32, dir: Seq<u8>) -> u32 {
    if count_byte(dir, '/' as u8) > 5 {
        ssub_big(s, (count_byte(dir, '/' as u8) - 5) * 20)
    } else {
        s
    }
}

/// The score of a candidate mapping, as a function of the directory bytes
/// (when the file entry has a directory), the file-name bytes, the adjusted
/// line number, and the row flags.
pub open spec fn mapping_score(dir: Option<Seq<u8>>, file: Seq<u8>, line: u64, f: RowFlags) -> u32 {
    let s = flags_stage(1000u32, f);
    let s = match dir {
        Some(d) => dir_stage(s, d),
        None => s,
    };
    let s = file_stage(s, file);
    let s = line_stage(s, line);
    match dir {
        Some(d) => depth_stage(s, d),
        None => s,
    }
}

/// Saturating subtraction, executable form.
fn sat_sub(a: u32, b: u32) -> (r: u32)
    ensures
        r == ssub(a, b),
{
    if a >= b {
        a - b
    } else {
        0
    }
}

fn dir_adjust(s: u32, db: &[u8]) -> (r: u32)
    ensures
        r == dir_stage(s, db@),
{
    let p_rustc: Vec<u8> = vec!['/' as u8, 'r' as u8, 'u' as u8, 's' as u8, 't' as u8, 'c' as u8,
        '/' as u8];
    let p_deps: Vec<u8> = vec!['/' as u8, 'r' as u8, 'u' as u8, 's' as u8, 't' as u8, '/' as u8,
        'd' as u8, 'e' as u8, 'p' as u8, 's' as u8, '/' as u8];
    let p_library: Vec<u8> = vec!['l' as u8, 'i' as u8, 'b' as u8, 'r' as u8, 'a' as u8, 'r' as u8,
        'y' as u8, '/' as u8];
    let p_slash: Vec<u8> = vec!['/' as u8];
    let p_src: Vec<u8> = vec!['s' as u8, 'r' as u8, 'c' as u8];
    proof {
        assert(p_rustc@ =~= pat_rustc());
        assert(p_deps@ =~= pat_rust_deps());
        assert(p_library@ =~= pat_library());
        assert(p_slash@ =~= pat_slash());
        assert(p_src@ =~= pat_src());
    }
    let mut score = s;
    if slice_contains(db, p_rustc.as_slice()) || slice_contains(db, p_deps.as_slice()) {
        score = sat_sub(score, 300);
    }
    if slice_contains(db, p_library.as_slice()) {
        score = sat_sub(score, 200);
    }
    if slice_starts_with(db, p_slash.as_slice()) && !slice_contains(db, p_src.as_slice()) {
        score = sat_sub(score, 100);
    }
    score
}

#[verifier::rlimit(40)]
fn file_adjust(s: u32, fb: &[u8]) -> (r: u32)
    requires
        s <= 1000,
    ensures
        r == file_stage(s, fb@),
        r <= 1180,
{
    let p_dot_rs: Vec<u8> = vec!['.' as u8, 'r' as u8, 's' as u8];
    let p_main: Vec<u8> = vec!['m' as u8, 'a' as u8, 'i' as u8, 'n' as u8, '.' as u8, 'r' as u8,
        's' as u8];
    let p_lib: Vec<u8> = vec!['l' as u8, 'i' as u8, 'b' as u8, '.' as u8, 'r' as u8, 's' as u8];
    let p_mod: Vec<u8> = vec!['m' as u8, 'o' as u8, 'd' as u8, '.' as u8, 'r' as u8, 's' as u8];
    let p_intr: Vec<u8> = vec!['i' as u8, 'n' as u8, 't' as u8, 'r' as u8, 'i' as u8, 'n' as u8,
        's' as u8, 'i' as u8, 'c' as u8, 's' as u8];
    let p_panic: Vec<u8> = vec!['p' as u8, 'a' as u8, 'n' as u8, 'i' as u8, 'c' as u8];
    let p_macros: Vec<u8> = vec!['m' as u8, 'a' as u8, 'c' as u8, 'r' as u8, 'o' as u8, 's' as u8,
        '.' as u8, 'r' as u8, 's' as u8];
    let p_impls: Vec<u8> = vec!['i' as u8, 'm' as u8, 'p' as u8, 'l' as u8, 's' as u8, '.' as u8,
        'r' as u8, 's' as u8];
    let p_builders: Vec<u8> = vec!['b' as u8, 'u' as u8, 'i' as u8, 'l' as u8, 'd' as u8, 'e' as u8,
        'r' as u8, 's' as u8, '.' as u8, 'r' as u8, 's' as u8];
    proof {
        assert(p_dot_rs@ =~= pat_dot_rs());
        assert(p_main@ =~= pat_main_rs());
        assert(p_lib@ =~= pat_lib_rs());
        assert(p_mod@ =~= pat_mod_rs());
        assert(p_intr@ =~= pat_intrinsics());
        assert(p_panic@ =~= pat_panic());
        assert(p_macros@ =~= pat_macros_rs());
        assert(p_impls@ =~= pat_impls_rs());
        assert(p_builders@ =~= pat_builders_rs());
    }
    let mut score = s;
    if slice_ends_with(fb, p_dot_rs.as_slice()) {
        score = score + 100;
    }
    if slice_contains(fb, p_main.as_slice()) || slice_contains(fb, p_lib.as_slice()) {
        score = score + 50;
    }
    if slice_contains(fb, p_mod.as_slice()) && !slice_contains(fb, p_intr.as_slice()) {
        score = score + 30;
    }
    if slice_contains(fb, p_intr.as_slice()) || slice_contains(fb, p_panic.as_slice()) {
        score = sat_sub(score, 150);
    }
    if slice_contains(fb, p_macros.as_slice()) {
        score = sat_sub(score, 100);
    }
    if slice_contains(fb, p_impls.as_slice()) || slice_contains(fb, p_builders.as_slice()) {
        score = sat_sub(score, 80);
    }
    score
}

fn depth_adjust(s: u32, db: &[u8]) -> (r: u32)
    requires
        s <= 1180,
    ensures
        r == depth_stage(s, db@),
{
    let depth = slice_count_byte(db, '/' as u8);
    if depth > 5 {
        let extra = depth - 5;
        if extra >= 59 {
            0
        } else {
            sat_sub(s, (extra as u32) * 20)
        }
    } else {
        s
    }
}

/// The UTF-8 bytes of an optional directory string.
pub open spec fn opt_str_bytes(dir: Option<String>) -> Option<Seq<u8>> {
    match dir {
        Some(d) => Some(vstd::utf8::encode_utf8(d@)),
        None => None,
    }
}

/// Score how "good" a source mapping is; higher scores are better.
/// Chooses which mapping to keep when several source locations map to the
/// same code offset.
pub fn calculate_mapping_score(
    directory: &Option<String>,
    filename: &str,
    line_number: u64,
    row: &RowFlags,
) -> (score: u32)
    ensures
        score == mapping_score(opt_str_bytes(*directory), filename.spec_bytes(), line_number, *row),
{
    let mut score: u32 = 1000;

    if !row.is_stmt {
        score = sat_sub(score, 400);
    }
    if row.prologue_end || row.epilogue_begin {
        score = sat_sub(score, 300);
    }
    if row.basic_block {
        score = sat_sub(score, 200);
    }

    if let Some(dir) = directory {
        score = dir_adjust(score, dir.as_str().as_bytes());
    }

    score = file_adjust(score, filename.as_bytes());

    if line_number == 0 {
        score = sat_sub(score, 200);
    } else if line_number < 10 {
        score = sat_sub(score, 50);
    }

    if let Some(dir) = directory {
        score = depth_adjust(score, dir.as_str().as_bytes());
    }

    score
}

} // verus!
