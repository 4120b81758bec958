use dwarf_index::error::{u32_decimal, ExtractError};
use dwarf_index::extract::decide_row;
use dwarf_index::funcs::insert_function;
use dwarf_index::model::{lookup, offer, Line};
use dwarf_index::pool::{get_pool, run_on_pool, shutdown_pool, worker_take};
use dwarf_index::score::{calculate_mapping_score, RowFlags};

fn good_flags() -> RowFlags {
    RowFlags { is_stmt: true, prologue_end: false, epilogue_begin: false, basic_block: false }
}

#[test]
fn score_prefers_entry_point_files() {
    // base 1000, `.rs` +100, `main.rs` +50
    let s = calculate_mapping_score(&None, "main.rs", 42, &good_flags());
    assert_eq!(s, 1150);
}

#[test]
fn score_penalizes_compiler_paths() {
    // base 1000, /rustc/ -300, absolute without src -100, `.rs` +100,
    // lib.rs +50
    let dir = Some("/rustc/abc".to_string());
    let s = calculate_mapping_score(&dir, "lib.rs", 42, &good_flags());
    assert_eq!(s, 750);
}

#[test]
fn score_penalizes_row_flags_and_low_lines() {
    let flags = RowFlags {
        is_stmt: false,
        prologue_end: true,
        epilogue_begin: false,
        basic_block: true,
    };
    // 1000 -400 -300 -200 = 100, then line 0: -200 saturates to 0
    let s = calculate_mapping_score(&None, "data.c", 0, &flags);
    assert_eq!(s, 0);
    // early line: 1000 -50 = 950
    let s2 = calculate_mapping_score(&None, "data.c", 5, &good_flags());
    assert_eq!(s2, 950);
}

#[test]
fn score_penalizes_deep_paths() {
    // 7 slashes: depth 7, penalty (7-5)*20 = 40; starts with '/' but
    // contains "src" so no absolute penalty
    let dir = Some("/a/b/c/d/e/src/".to_string());
    let s = calculate_mapping_score(&dir, "x.rs", 42, &good_flags());
    assert_eq!(s, 1060);
}

#[test]
fn rows_without_line_are_skipped() {
    assert_eq!(decide_row(true, None, 5, false).unwrap(), None);
    assert_eq!(decide_row(false, Some(7), 5, false).unwrap(), None);
}

#[test]
fn high_addresses_are_skipped() {
    assert_eq!(decide_row(true, Some(7), 0x4000_0001, false).unwrap(), None);
    assert_eq!(decide_row(true, Some(7), 0x4000_0000, false).unwrap(), Some(6));
}

#[test]
fn rust_line_fixup_keeps_one_based_lines() {
    assert_eq!(decide_row(true, Some(42), 0x10, true).unwrap(), Some(42));
    assert_eq!(decide_row(true, Some(42), 0x10, false).unwrap(), Some(41));
}

fn rec(id: u64, file_id: u32, address: u64, line: u32, score: u32) -> Line {
    Line { id, file_id, address, line, score }
}

#[test]
fn higher_score_wins_an_address() {
    let mut best: Vec<Line> = Vec::new();
    offer(&mut best, rec(0, 0, 16, 3, 900));
    offer(&mut best, rec(1, 1, 16, 4, 1000));
    let winner = lookup(&best, 16).unwrap();
    assert_eq!(winner.id, 1);
    assert_eq!(winner.line, 4);
}

#[test]
fn equal_scores_keep_the_first_emission() {
    let mut best: Vec<Line> = Vec::new();
    offer(&mut best, rec(0, 0, 16, 3, 1000));
    offer(&mut best, rec(1, 1, 16, 4, 1000));
    let winner = lookup(&best, 16).unwrap();
    assert_eq!(winner.id, 0);
    assert_eq!(winner.file_id, 0);
}

#[test]
fn best_table_stays_sorted_by_address() {
    let mut best: Vec<Line> = Vec::new();
    offer(&mut best, rec(0, 0, 32, 1, 500));
    offer(&mut best, rec(1, 0, 8, 2, 500));
    offer(&mut best, rec(2, 0, 16, 3, 500));
    let addrs: Vec<u64> = best.iter().map(|l| l.address).collect();
    assert_eq!(addrs, vec![8, 16, 32]);
}

#[test]
fn function_table_sorts_names_and_replaces_duplicates() {
    let mut funcs: Vec<(String, u64, u64)> = Vec::new();
    insert_function(&mut funcs, "beta".to_string(), 1, 2);
    insert_function(&mut funcs, "alpha".to_string(), 3, 4);
    insert_function(&mut funcs, "beta".to_string(), 5, 6);
    assert_eq!(funcs.len(), 2);
    assert_eq!(funcs[0], ("alpha".to_string(), 3, 4));
    assert_eq!(funcs[1], ("beta".to_string(), 5, 6));
}

#[test]
fn decimal_rendering_is_exact() {
    assert_eq!(u32_decimal(0), "0");
    assert_eq!(u32_decimal(153), "153");
    assert_eq!(u32_decimal(4294967295), "4294967295");
}

#[test]
fn error_messages_match_their_variants() {
    assert_eq!(ExtractError::MissingCodeSection.message(), "Missing code section.");
    assert_eq!(ExtractError::InvalidPath("bad path".to_string()).message(), "bad path");
    assert_eq!(
        ExtractError::Internal("oops".to_string()).message(),
        "internal error: oops"
    );
}

#[test]
fn pool_queue_grows_and_drains_in_order() {
    let mut pool = get_pool();
    assert_eq!(pool.idle_workers, 0);
    pool.idle_workers = 2;
    run_on_pool(&mut pool, 7);
    run_on_pool(&mut pool, 9);
    assert_eq!(worker_take(&mut pool), Some(7));
    assert_eq!(worker_take(&mut pool), Some(9));
    shutdown_pool(&mut pool);
    assert!(pool.shutdown);
    assert_eq!(worker_take(&mut pool), None);
}
