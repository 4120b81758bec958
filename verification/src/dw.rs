//! Trusted boundary around the gimli DWARF reader.
//!
//! Every function here is a thin wrapper whose body only makes the gimli
//! call and converts its arguments and result; the walk itself — which rows
//! are kept, how lines are fixed up, how scores and ids are assigned — is
//! verified code in the neighbouring modules. The reader type is
//! `EndianReader<LittleEndian, Rc<[u8]>>` over the module's section bytes.
//! gimli's state machines are held in opaque wrapper structs because their
//! generic bounds cannot be declared here.
//!
//! The walk is exposed step by step, and apart from a few facts stated
//! below — line numbers are non-zero, exhausted iterators stay done — the
//! wrappers do not name what a walk of given section bytes yields; the
//! contracts downstream therefore pin every decision made on the walked
//! values, and invariants of the result, rather than the result's exact
//! content.

use vstd::prelude::*;
use gimli::Reader;
use crate::score::RowFlags;

verus! {

/// The concrete reader the extraction drives gimli with.
pub type Rd = gimli::EndianReader<gimli::LittleEndian, std::rc::Rc<[u8]>>;

/// A loaded DWARF context.
#[verifier::external_body]
pub struct Dwarf {
    inner: gimli::Dwarf<Rd>,
}

/// The compilation-unit header iterator of a DWARF context.
#[verifier::external_body]
pub struct UnitsIter {
    inner: gimli::DebugInfoUnitHeadersIter<Rd>,
}

/// One constructed compilation unit.
#[verifier::external_body]
pub struct Unit {
    inner: gimli::read::Unit<Rd, usize>,
}

/// A depth-first cursor over a unit's DIE tree; borrows the unit.
#[verifier::external_body]
pub struct DieCursor<'a> {
    inner: gimli::read::EntriesCursor<'a, Rd>,
}

/// One debugging-information entry, cloned out of its cursor.
#[verifier::external_body]
pub struct Die {
    inner: gimli::read::DebuggingInformationEntry<Rd, usize>,
}

/// An unresolved string attribute value.
#[verifier::external_body]
pub struct AttrValue {
    inner: gimli::read::AttributeValue<Rd, usize>,
}

/// A unit's line-number program, not yet run.
#[verifier::external_body]
pub struct LineProgram {
    inner: gimli::read::IncompleteLineProgram<Rd, usize>,
}

/// The one-shot row iterator of a line program.
#[verifier::external_body]
pub struct RowsIter {
    inner: gimli::read::LineRows<Rd, gimli::read::IncompleteLineProgram<Rd, usize>, usize>,
}

/// A `DW_AT_high_pc` attribute: either an absolute address or an offset
/// from the low address.
pub enum HighPc {
    Addr(u64),
    Offset(u64),
}

/// One row of the line-number matrix, reduced to plain values; the file's
/// directory and path stay as unresolved attribute references.
pub struct RawRow {
    pub address: u64,
    pub line: Option<u64>,
    pub flags: RowFlags,
    pub file: Option<RawFileRef>,
}

/// The unresolved string attributes of a row's file entry.
pub struct RawFileRef {
    pub directory: Option<AttrValue>,
    pub path: AttrValue,
}

/// The context was loaded from sections that hold no compilation unit:
/// its `.debug_info` reader is empty.
pub uninterp spec fn dwarf_has_no_units(d: Dwarf) -> bool;

/// The unit-header iterator has nothing left to yield.
pub uninterp spec fn units_exhausted(it: UnitsIter) -> bool;

/// Relies on `gimli::Dwarf::load`: builds a DWARF context over the given
/// named section payloads; absent sections read as empty. With no sections
/// at all, every reader — `.debug_info` included — is empty.
#[verifier::external_body]
pub fn load_dwarf(sections: &Vec<(Vec<u8>, Vec<u8>)>) -> (d: Dwarf)
    ensures
        sections@.len() == 0 ==> dwarf_has_no_units(d),
{
    let loaded: core::result::Result<gimli::Dwarf<Rd>, core::convert::Infallible> =
        gimli::Dwarf::load(|id| {
            let bytes = crate::extract::find_section(sections, id.name().as_bytes());
            Ok(gimli::EndianReader::new(std::rc::Rc::from(bytes.as_slice()), gimli::LittleEndian))
        });
    match loaded {
        Ok(d) => Dwarf { inner: d },
        Err(never) => match never {},
    }
}

/// Relies on `gimli::Dwarf::units`: the compilation-unit header iterator,
/// a cursor over the context's `.debug_info` reader.
#[verifier::external_body]
pub fn dwarf_units(d: &Dwarf) -> (it: UnitsIter)
    ensures
        dwarf_has_no_units(*d) ==> units_exhausted(it),
{
    UnitsIter { inner: d.inner.units() }
}

/// Relies on `DebugInfoUnitHeadersIter::next` and `Dwarf::unit`: the next
/// compilation unit, fully constructed, or `None` at the end; `next` on an
/// empty reader yields `None`.
#[verifier::external_body]
pub fn next_unit(d: &Dwarf, it: &mut UnitsIter) -> (r: core::result::Result<
    Option<Unit>,
    gimli::read::Error,
>)
    ensures
        units_exhausted(*old(it)) ==> r matches Ok(None),
{
    match it.inner.next() {
        Ok(Some(header)) => match d.inner.unit(header) {
            Ok(u) => Ok(Some(Unit { inner: u })),
            Err(e) => Err(e),
        },
        Ok(None) => Ok(None),
        Err(e) => Err(e),
    }
}

/// Relies on `Option::take` on the unit's `line_program` field.
#[verifier::external_body]
pub fn take_line_program(u: &mut Unit) -> Option<LineProgram> {
    u.inner.line_program.take().map(|p| LineProgram { inner: p })
}

/// Relies on `Unit::entries` / `EntriesCursor::next_entry`: the root DIE's
/// `DW_AT_language`, `None` when absent.
#[verifier::external_body]
pub fn unit_language(u: &Unit) -> core::result::Result<Option<u16>, gimli::read::Error> {
    let mut entries = u.inner.entries();
    entries.next_entry()?;
    match entries.current() {
        Some(root) => match root.attr_value(gimli::DW_AT_language) {
            Some(gimli::read::AttributeValue::Language(lang)) => Ok(Some(lang.0)),
            _ => Ok(None),
        },
        None => Ok(None),
    }
}

/// Relies on `Unit::entries`: a cursor over the unit's DIE tree.
#[verifier::external_body]
pub fn unit_entries<'a>(u: &'a Unit) -> DieCursor<'a> {
    DieCursor { inner: u.inner.entries() }
}

/// Relies on `EntriesCursor::next_dfs`: the next DIE in depth-first order,
/// cloned out of the cursor.
#[verifier::external_body]
pub fn cursor_next_die(c: &mut DieCursor<'_>) -> core::result::Result<
    Option<Die>,
    gimli::read::Error,
> {
    match c.inner.next_dfs() {
        Ok(Some(die)) => Ok(Some(Die { inner: die.clone() })),
        Ok(None) => Ok(None),
        Err(e) => Err(e),
    }
}

/// Relies on `DebuggingInformationEntry::tag`.
#[verifier::external_body]
pub fn die_is_subprogram(e: &Die) -> bool {
    e.inner.tag() == gimli::DW_TAG_subprogram
}

/// Relies on `attr_value(DW_AT_name)`, `DebugStr::get_str` and
/// `Reader::to_string`: the subprogram's name, when present and decodable;
/// an unresolvable string-table reference reads as absent.
#[verifier::external_body]
pub fn die_function_name(d: &Dwarf, e: &Die) -> core::result::Result<
    Option<String>,
    gimli::read::Error,
> {
    match e.inner.attr_value(gimli::DW_AT_name) {
        Some(gimli::read::AttributeValue::DebugStrRef(offset)) => match d.inner.debug_str.get_str(
            offset,
        ) {
            Ok(s) => Ok(Some(s.to_string()?.into_owned())),
            Err(_) => Ok(None),
        },
        Some(gimli::read::AttributeValue::String(s)) => Ok(Some(s.to_string()?.into_owned())),
        _ => Ok(None),
    }
}

/// Relies on `attr_value(DW_AT_low_pc)`: the absolute start address, when
/// given as one.
#[verifier::external_body]
pub fn die_low_pc(e: &Die) -> Option<u64> {
    match e.inner.attr_value(gimli::DW_AT_low_pc) {
        Some(gimli::read::AttributeValue::Addr(a)) => Some(a),
        _ => None,
    }
}

/// Relies on `attr_value(DW_AT_high_pc)`: the end, as an absolute address
/// or as an offset from the start.
#[verifier::external_body]
pub fn die_high_pc(e: &Die) -> Option<HighPc> {
    match e.inner.attr_value(gimli::DW_AT_high_pc) {
        Some(gimli::read::AttributeValue::Addr(a)) => Some(HighPc::Addr(a)),
        Some(gimli::read::AttributeValue::Udata(o)) => Some(HighPc::Offset(o)),
        _ => None,
    }
}

/// Relies on `IncompleteLineProgram::rows`: the one-shot row iterator.
#[verifier::external_body]
pub fn program_rows(p: LineProgram) -> RowsIter {
    RowsIter { inner: p.inner.rows() }
}

/// Relies on `LineRows::next_row` and the row and file-entry accessors:
/// the next row of the line matrix as plain values. A present line number
/// is at least 1, as gimli returns it as a `NonZeroU64`.
#[verifier::external_body]
pub fn rows_next(rows: &mut RowsIter) -> (r: core::result::Result<
    Option<RawRow>,
    gimli::read::Error,
>)
    ensures
        r matches Ok(Some(row)) ==> (row.line is Some ==> row.line->0 >= 1),
{
    match rows.inner.next_row() {
        Err(e) => Err(e),
        Ok(None) => Ok(None),
        Ok(Some((header, row))) => Ok(Some(RawRow {
            address: row.address(),
            line: row.line().map(|l| l.get()),
            flags: RowFlags { is_stmt: row.is_stmt(), prologue_end: row.prologue_end(),
                epilogue_begin: row.epilogue_begin(), basic_block: row.basic_block() },
            file: row.file(header).map(|f| RawFileRef {
                directory: f.directory(header).map(|a| AttrValue { inner: a }),
                path: AttrValue { inner: f.path_name() } }),
        })),
    }
}

/// Relies on `Dwarf::attr_string` and `Reader::to_string`: resolve a
/// string attribute to an owned string.
#[verifier::external_body]
pub fn attr_to_string(d: &Dwarf, u: &Unit, a: AttrValue) -> core::result::Result<
    String,
    gimli::read::Error,
> {
    match d.inner.attr_string(&u.inner, a.inner) {
        Ok(r) => Ok(r.to_string()?.into_owned()),
        Err(e) => Err(e),
    }
}

/// Relies on `Reader::to_string` over the unit's `name` field: the
/// compilation unit's name, when present.
#[verifier::external_body]
pub fn unit_name(u: &Unit) -> core::result::Result<Option<String>, gimli::read::Error> {
    match &u.inner.name {
        Some(r) => Ok(Some(r.to_string()?.into_owned())),
        None => Ok(None),
    }
}

/// Relies on `Reader::to_string` over the unit's `comp_dir` field: the
/// compilation directory, when present.
#[verifier::external_body]
pub fn unit_comp_dir(u: &Unit) -> core::result::Result<Option<String>, gimli::read::Error> {
    match &u.inner.comp_dir {
        Some(r) => Ok(Some(r.to_string()?.into_owned())),
        None => Ok(None),
    }
}

} // verus!
