//! Extracts a compact source-level index from the DWARF sections embedded
//! in a WebAssembly module: the source units and files referenced, a
//! deduplicated best-scored mapping from code offsets to file/line pairs,
//! and the code ranges of named functions.
//!
//! The container splitter (`wasm`), the scoring policy (`score`), the
//! best-score and function tables (`model`, `funcs`) and the walk and
//! projection (`extract`) are verified; the gimli reader sits behind the
//! trusted wrappers of `dw`.

pub mod bytes;
pub mod score;
pub mod error;
pub mod wasm;
pub mod model;
pub mod funcs;
pub mod dw;
pub mod extract;
pub mod pool;

use vstd::prelude::*;

verus! {

} // verus!
