//! Error taxonomy of the extraction pipeline.
//!
//! Every error is fatal to the extraction that raised it; the caller renders
//! the message of [`ExtractError::message`] into its error output.

use vstd::prelude::*;
use vstd::string::{StrSliceExecFns, StringExecFns};

verus! {

/// gimli's error enum, carried through unchanged on DWARF reader failures.
#[verifier::external_type_specification]
#[verifier::external_body]
pub struct ExGimliError(gimli::read::Error);

/// What can go wrong while extracting source information.
#[derive(Debug)]
pub enum ExtractError {
    /// The module does not begin with the WebAssembly magic bytes.
    InvalidMagic,
    /// The module's version field holds an unrecognized value.
    UnsupportedVersion(u32),
    /// The module lacks a required code section. No path here raises it —
    /// a module of only standard sections must succeed — but the variant
    /// and its message stay part of the error vocabulary.
    MissingCodeSection,
    /// The DWARF reader failed on malformed debug sections.
    Reader(gimli::read::Error),
    /// A file or directory path could not be decoded.
    InvalidPath(String),
    /// An invariant violation; does not occur on well-formed input.
    Internal(String),
}

/// One decimal digit as a character.
pub open spec fn dec_digit(d: int) -> char {
    ((d + 48) as u8) as char
}

/// The decimal representation of a non-negative integer.
pub open spec fn dec_rep(n: int) -> Seq<char>
    decreases n,
{
    if n < 10 {
        seq![dec_digit(n)]
    } else {
        dec_rep(n / 10).push(dec_digit(n % 10))
    }
}

/// Render a `u32` in decimal.
pub fn u32_decimal(n: u32) -> (s: String)
    ensures
        s@ == dec_rep(n as int),
    decreases n,
{
    let digits = "0123456789";
    proof {
        reveal_strlit("0123456789");
    }
    if n < 10 {
        let d = digits.substring_ascii(n as usize, n as usize + 1);
        let r = d.to_owned();
        assert(r@ =~= dec_rep(n as int));
        r
    } else {
        let mut r = u32_decimal(n / 10);
        let dd = (n % 10) as usize;
        let d = digits.substring_ascii(dd, dd + 1);
        r.append(d);
        assert(r@ =~= dec_rep(n as int));
        r
    }
}

/// Report what a `gimli::read::Error` says.
/// Relies on gimli's `Display` implementation for `read::Error`.
#[verifier::external_body]
fn gimli_error_message(e: &gimli::read::Error) -> (r: String) {
    format!("{}", e)
}

impl ExtractError {
    /// The human-readable message of this error, as the error document
    /// carries it.
    pub fn message(&self) -> (r: String)
        ensures
            *self is InvalidMagic ==> r@ == "WebAssembly magic mismatch."@,
            *self is UnsupportedVersion ==> r@ == "Unsupported WebAssembly version "@ + dec_rep(
                self->UnsupportedVersion_0 as int,
            ) + "."@,
            *self is MissingCodeSection ==> r@ == "Missing code section."@,
            *self is InvalidPath ==> r@ == self->InvalidPath_0@,
            *self is Internal ==> r@ == "internal error: "@ + self->Internal_0@,
    {
        match self {
            ExtractError::InvalidMagic => "WebAssembly magic mismatch.".to_owned(),
            ExtractError::UnsupportedVersion(v) => {
                let mut m = "Unsupported WebAssembly version ".to_owned();
                m.append(u32_decimal(*v).as_str());
                m.append(".");
                m
            },
            ExtractError::MissingCodeSection => "Missing code section.".to_owned(),
            ExtractError::Reader(e) => gimli_error_message(e),
            ExtractError::InvalidPath(p) => p.as_str().to_owned(),
            ExtractError::Internal(m) => {
                let mut r = "internal error: ".to_owned();
                r.append(m.as_str());
                r
            },
        }
    }
}

} // verus!
