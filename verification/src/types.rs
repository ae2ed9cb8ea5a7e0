//! The column data model: column types, column specifications, decoded
//! values, rows, and the error taxonomy of the codec layers.

use vstd::prelude::*;

verus! {

/// A column's wire type. The set is closed and recursively nested:
/// a tuple column fully describes its element types.
#[derive(Debug)]
pub enum ColumnType {
    Ascii,
    Blob,
    SmallInt,
    Text,
    Timestamp,
    Tuple(Vec<ColumnType>),
}

/// One column of a result set: its name and its wire type.
#[derive(Debug)]
pub struct ColumnSpec {
    pub name: Vec<u8>,
    pub typ: ColumnType,
}

/// A decoded column value, dynamically tagged. Text-like values carry
/// their UTF-8 bytes; a timestamp carries a signed microsecond count.
#[derive(Debug, PartialEq, Eq)]
pub enum CqlValue {
    Ascii(Vec<u8>),
    Blob(Vec<u8>),
    SmallInt(i16),
    Text(Vec<u8>),
    Timestamp(i64),
    Tuple(Vec<Option<CqlValue>>),
}

/// One decoded row: an ordered sequence of present-or-null values,
/// one per column specification.
#[derive(Debug, PartialEq, Eq)]
pub struct Row {
    pub columns: Vec<Option<CqlValue>>,
}

/// A malformed or truncated encoding. Fatal to the connection that
/// produced it; never an out-of-bounds read or a crash.
#[derive(Debug, Clone, Copy, PartialEq, Eq, Structural)]
pub struct ProtocolError;

/// A result set's columns do not match the caller-declared shape.
/// Local to one decode call; the connection is unaffected.
#[derive(Debug, Clone, Copy, PartialEq, Eq, Structural)]
pub struct SchemaMismatchError;

/// Whether a byte sequence is valid UTF-8.
pub uninterp spec fn utf8_ok(s: Seq<u8>) -> bool;

/// Relies on str::from_utf8: it returns Ok exactly when the bytes are
/// valid UTF-8, which names the `utf8_ok` predicate.
#[verifier::external_body]
pub fn is_utf8(b: &Vec<u8>) -> (r: bool)
    ensures
        r == utf8_ok(b@),
{
    core::str::from_utf8(b.as_slice()).is_ok()
}

/// Well-formedness of a present value against a column type: the
/// value carries the tag its type demands, text-like bytes are valid
/// UTF-8, and tuple elements are well-formed elementwise.
pub open spec fn wf_value(t: ColumnType, v: CqlValue) -> bool
    decreases t, 0int,
{
    match (t, v) {
        (ColumnType::Ascii, CqlValue::Ascii(b)) => utf8_ok(b@),
        (ColumnType::Blob, CqlValue::Blob(_)) => true,
        (ColumnType::SmallInt, CqlValue::SmallInt(_)) => true,
        (ColumnType::Text, CqlValue::Text(b)) => utf8_ok(b@),
        (ColumnType::Timestamp, CqlValue::Timestamp(_)) => true,
        (ColumnType::Tuple(ts), CqlValue::Tuple(cs)) => wf_cells(ts@, cs@),
        _ => false,
    }
}

/// Well-formedness of a present-or-null cell against a column type.
pub open spec fn wf_cell(t: ColumnType, c: Option<CqlValue>) -> bool
    decreases t, 1int,
{
    match c {
        Option::None => true,
        Option::Some(v) => wf_value(t, v),
    }
}

/// Well-formedness of a cell sequence against a list of column types,
/// in positional order.
pub open spec fn wf_cells(ts: Seq<ColumnType>, cs: Seq<Option<CqlValue>>) -> bool
    decreases ts, 2int,
{
    &&& ts.len() == cs.len()
    &&& (ts.len() == 0 || (wf_cell(ts[0], cs[0]) && wf_cells(ts.drop_first(), cs.drop_first())))
}

/// The column types of a sequence of column specifications.
pub open spec fn spec_types(specs: Seq<ColumnSpec>) -> Seq<ColumnType> {
    specs.map_values(|s: ColumnSpec| s.typ)
}

/// Well-formedness of a row against its column specifications:
/// equal length, each cell well-formed against its column's type.
pub open spec fn wf_row(specs: Seq<ColumnSpec>, r: Row) -> bool {
    wf_cells(spec_types(specs), r.columns@)
}

} // verus!
