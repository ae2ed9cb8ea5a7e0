//! Caller-declared static shapes and their validation against a
//! frame's column metadata.
//!
//! A shape lists, per field in positional order, the accepted column
//! type and whether the field may be null. Validation walks the two
//! lists together; a count or type mismatch is a schema error, never
//! a silent coercion or reordering. Decoding against a shape is
//! two-phase: validate first, consuming nothing, then decode and
//! check that every required field is present.

use vstd::prelude::*;

use crate::codec::{enc_cells, fits_cells, prefix_of};
use crate::types::{
    ColumnSpec, ColumnType, CqlValue, ProtocolError, SchemaMismatchError, spec_types, wf_cells,
};

verus! {

/// An accepted column type in a static shape. `Str` accepts both
/// text and ASCII columns.
#[derive(Debug)]
pub enum ExpectedType {
    SmallInt,
    Str,
    Blob,
    Timestamp,
    Tuple(Vec<FieldShape>),
}

/// One field of a static shape: its accepted type, and whether the
/// frame must carry a present value for it.
#[derive(Debug)]
pub struct FieldShape {
    pub typ: ExpectedType,
    pub required: bool,
}

/// Whether an expected type accepts a column's runtime type.
pub open spec fn type_matches(e: ExpectedType, t: ColumnType) -> bool
    decreases e, 0int,
{
    match (e, t) {
        (ExpectedType::SmallInt, ColumnType::SmallInt) => true,
        (ExpectedType::Str, ColumnType::Text) => true,
        (ExpectedType::Str, ColumnType::Ascii) => true,
        (ExpectedType::Blob, ColumnType::Blob) => true,
        (ExpectedType::Timestamp, ColumnType::Timestamp) => true,
        (ExpectedType::Tuple(fs), ColumnType::Tuple(ts)) => fields_match(fs@, ts@),
        _ => false,
    }
}

/// Positional matching of a field list against a column type list.
pub open spec fn fields_match(fs: Seq<FieldShape>, ts: Seq<ColumnType>) -> bool
    decreases fs, 1int,
{
    &&& fs.len() == ts.len()
    &&& (fs.len() == 0 || (type_matches(fs[0].typ, ts[0]) && fields_match(
        fs.drop_first(),
        ts.drop_first(),
    )))
}

/// Whether a decoded value agrees with an expected type's tag.
pub open spec fn value_conforms(e: ExpectedType, v: CqlValue) -> bool
    decreases e, 0int,
{
    match (e, v) {
        (ExpectedType::SmallInt, CqlValue::SmallInt(_)) => true,
        (ExpectedType::Str, CqlValue::Text(_)) => true,
        (ExpectedType::Str, CqlValue::Ascii(_)) => true,
        (ExpectedType::Blob, CqlValue::Blob(_)) => true,
        (ExpectedType::Timestamp, CqlValue::Timestamp(_)) => true,
        (ExpectedType::Tuple(fs), CqlValue::Tuple(cs)) => cells_conform(fs@, cs@),
        _ => false,
    }
}

/// Whether a decoded cell satisfies a field: a null cell only for an
/// optional field, a present value only with the accepted tag.
pub open spec fn cell_conforms(f: FieldShape, c: Option<CqlValue>) -> bool
    decreases f, 1int,
{
    match c {
        Option::None => !f.required,
        Option::Some(v) => value_conforms(f.typ, v),
    }
}

/// Positional conformance of decoded cells to a shape.
pub open spec fn cells_conform(fs: Seq<FieldShape>, cs: Seq<Option<CqlValue>>) -> bool
    decreases fs, 2int,
{
    &&& fs.len() == cs.len()
    &&& (fs.len() == 0 || (cell_conforms(fs[0], cs[0]) && cells_conform(
        fs.drop_first(),
        cs.drop_first(),
    )))
}

/// Checks one expected type against one runtime column type.
pub fn match_column_type(e: &ExpectedType, t: &ColumnType) -> (r: bool)
    ensures
        r == type_matches(*e, *t),
    decreases *e, 0int, 0int,
{
    match (e, t) {
        (ExpectedType::SmallInt, ColumnType::SmallInt) => true,
        (ExpectedType::Str, ColumnType::Text) => true,
        (ExpectedType::Str, ColumnType::Ascii) => true,
        (ExpectedType::Blob, ColumnType::Blob) => true,
        (ExpectedType::Timestamp, ColumnType::Timestamp) => true,
        (ExpectedType::Tuple(fs), ColumnType::Tuple(ts)) => {
            proof {
                assert(*fs == (*e)->Tuple_0);
                assert(decreases_to!(*e => (*e)->Tuple_0));
                assert(fs@.skip(0) =~= fs@);
                assert(ts@.skip(0) =~= ts@);
            }
            if fs.len() == ts.len() {
                match_fields(fs, ts, 0)
            } else {
                false
            }
        },
        _ => false,
    }
}

/// Walks two equal-length lists from `from`, field against type.
fn match_fields(fs: &Vec<FieldShape>, ts: &Vec<ColumnType>, from: usize) -> (r: bool)
    requires
        from <= fs@.len(),
        fs@.len() == ts@.len(),
    ensures
        r == fields_match(fs@.skip(from as int), ts@.skip(from as int)),
    decreases *fs, 1int, fs@.len() - from,
{
    let ghost ftail = fs@.skip(from as int);
    let ghost ttail = ts@.skip(from as int);
    if from == fs.len() {
        return true;
    }
    proof {
        assert(ftail[0] == fs@[from as int]);
        assert(ttail[0] == ts@[from as int]);
        assert(ftail.drop_first() =~= fs@.skip(from as int + 1));
        assert(ttail.drop_first() =~= ts@.skip(from as int + 1));
        assert(decreases_to!(*fs => fs@[from as int]));
        assert(decreases_to!(fs@[from as int] => fs@[from as int].typ));
    }
    if match_column_type(&fs[from].typ, &ts[from]) {
        match_fields(fs, ts, from + 1)
    } else {
        false
    }
}

/// Checks a decoded cell against a field, including nested tuple
/// fields' own required flags.
pub fn check_cell(f: &FieldShape, c: &Option<CqlValue>) -> (r: bool)
    ensures
        r == cell_conforms(*f, *c),
    decreases *f, 2int, 0int,
{
    match c {
        Option::None => !f.required,
        Option::Some(v) => check_value(&f.typ, v),
    }
}

/// Checks a decoded value's tag against an expected type.
pub fn check_value(e: &ExpectedType, v: &CqlValue) -> (r: bool)
    ensures
        r == value_conforms(*e, *v),
    decreases *e, 1int, 0int,
{
    match (e, v) {
        (ExpectedType::SmallInt, CqlValue::SmallInt(_)) => true,
        (ExpectedType::Str, CqlValue::Text(_)) => true,
        (ExpectedType::Str, CqlValue::Ascii(_)) => true,
        (ExpectedType::Blob, CqlValue::Blob(_)) => true,
        (ExpectedType::Timestamp, CqlValue::Timestamp(_)) => true,
        (ExpectedType::Tuple(fs), CqlValue::Tuple(cs)) => {
            proof {
                assert(*fs == (*e)->Tuple_0);
                assert(decreases_to!(*e => (*e)->Tuple_0));
                assert(fs@.skip(0) =~= fs@);
                assert(cs@.skip(0) =~= cs@);
            }
            if fs.len() == cs.len() {
                check_cells(fs, cs, 0)
            } else {
                false
            }
        },
        _ => false,
    }
}

/// Walks two equal-length lists from `from`, cell against field.
fn check_cells(fs: &Vec<FieldShape>, cs: &Vec<Option<CqlValue>>, from: usize) -> (r: bool)
    requires
        from <= fs@.len(),
        fs@.len() == cs@.len(),
    ensures
        r == cells_conform(fs@.skip(from as int), cs@.skip(from as int)),
    decreases *fs, 3int, fs@.len() - from,
{
    let ghost ftail = fs@.skip(from as int);
    let ghost ctail = cs@.skip(from as int);
    if from == fs.len() {
        return true;
    }
    proof {
        assert(ftail[0] == fs@[from as int]);
        assert(ctail[0] == cs@[from as int]);
        assert(ftail.drop_first() =~= fs@.skip(from as int + 1));
        assert(ctail.drop_first() =~= cs@.skip(from as int + 1));
        assert(decreases_to!(*fs => fs@[from as int]));
    }
    if check_cell(&fs[from], &cs[from]) {
        check_cells(fs, cs, from + 1)
    } else {
        false
    }
}

/// A caller-declared row shape: fields in positional order.
#[derive(Debug)]
pub struct RowShape {
    pub fields: Vec<FieldShape>,
}

/// How decoding against a static shape can fail.
#[derive(Debug, Clone, Copy, PartialEq, Eq, Structural)]
pub enum RowDecodeError {
    /// Column count or a column type does not match the shape.
    SchemaMismatch,
    /// The cell bytes are malformed or truncated.
    Protocol,
    /// A required field's cell was null.
    RequiredNull,
}

impl RowShape {
    /// Validates the frame's columns against this shape, in
    /// positional order, consuming nothing: Ok exactly when the
    /// count and every column type match.
    pub fn match_column_specs(&self, col_specs: &Vec<ColumnSpec>) -> (r: Result<
        (),
        SchemaMismatchError,
    >)
        ensures
            r is Ok <==> fields_match(self.fields@, spec_types(col_specs@)),
    {
        proof {
            assert(spec_types(col_specs@).len() == col_specs@.len());
            assert(self.fields@.skip(0) =~= self.fields@);
            assert(spec_types(col_specs@).skip(0) =~= spec_types(col_specs@));
        }
        if self.fields.len() != col_specs.len() {
            return Err(SchemaMismatchError);
        }
        let mut i: usize = 0;
        let n = self.fields.len();
        while i < n
            invariant
                i <= n == self.fields@.len(),
                col_specs@.len() == n,
                fields_match(self.fields@, spec_types(col_specs@)) <==> fields_match(
                    self.fields@.skip(i as int),
                    spec_types(col_specs@).skip(i as int),
                ),
            decreases n - i,
        {
            proof {
                assert(self.fields@.skip(i as int)[0] == self.fields@[i as int]);
                assert(spec_types(col_specs@).skip(i as int)[0] == col_specs@[i as int].typ);
                assert(self.fields@.skip(i as int).drop_first() =~= self.fields@.skip(
                    i as int + 1,
                ));
                assert(spec_types(col_specs@).skip(i as int).drop_first() =~= spec_types(
                    col_specs@,
                ).skip(i as int + 1));
            }
            if !match_column_type(&self.fields[i].typ, &col_specs[i].typ) {
                return Err(SchemaMismatchError);
            }
            i = i + 1;
        }
        proof {
            assert(self.fields@.skip(n as int).len() == 0);
        }
        Ok(())
    }

    /// Two-phase decoding: validate the shape against the columns,
    /// then decode one row and check that every field conforms,
    /// required fields present. The cursor advances only on success.
    pub fn deserialize(
        &self,
        buf: &Vec<u8>,
        pos: &mut usize,
        col_specs: &Vec<ColumnSpec>,
    ) -> (r: Result<Vec<Option<CqlValue>>, RowDecodeError>)
        requires
            *old(pos) <= buf@.len(),
        ensures
            r matches Ok(cells) ==> {
                &&& *old(pos) <= *final(pos) <= buf@.len()
                &&& fields_match(self.fields@, spec_types(col_specs@))
                &&& wf_cells(spec_types(col_specs@), cells@)
                &&& cells_conform(self.fields@, cells@)
                &&& enc_cells(cells@) == buf@.subrange(*old(pos) as int, *final(pos) as int)
            },
            r is Err ==> *final(pos) == *old(pos),
            r == Err::<Vec<Option<CqlValue>>, RowDecodeError>(RowDecodeError::SchemaMismatch) <==> !fields_match(
                self.fields@,
                spec_types(col_specs@),
            ),
            r == Err::<Vec<Option<CqlValue>>, RowDecodeError>(RowDecodeError::Protocol) ==> forall|vs: Seq<Option<CqlValue>>|
                #[trigger] wf_cells(spec_types(col_specs@), vs) && fits_cells(vs)
                    ==> !prefix_of(enc_cells(vs), buf@.skip(*old(pos) as int)),
            r == Err::<Vec<Option<CqlValue>>, RowDecodeError>(RowDecodeError::RequiredNull) ==> exists|vs: Seq<Option<CqlValue>>|
                wf_cells(spec_types(col_specs@), vs) && fits_cells(vs) && prefix_of(
                    enc_cells(vs),
                    buf@.skip(*old(pos) as int),
                ) && !cells_conform(self.fields@, vs),
    {
        if self.match_column_specs(col_specs).is_err() {
            return Err(RowDecodeError::SchemaMismatch);
        }
        let mut inner: usize = *pos;
        match crate::types::Row::deserialize(buf, &mut inner, col_specs) {
            Err(_) => Err(RowDecodeError::Protocol),
            Ok(row) => {
                let cells = row.columns;
                if self.fields.len() == cells.len() {
                    proof {
                        assert(self.fields@.skip(0) =~= self.fields@);
                        assert(cells@.skip(0) =~= cells@);
                    }
                    if check_cells(&self.fields, &cells, 0) {
                        *pos = inner;
                        Ok(cells)
                    } else {
                        proof {
                            assert(prefix_of(
                                enc_cells(cells@),
                                buf@.skip(*old(pos) as int),
                            )) by {
                                assert(enc_cells(cells@) == buf@.subrange(
                                    *old(pos) as int,
                                    inner as int,
                                ));
                                assert(enc_cells(cells@) =~= buf@.skip(
                                    *old(pos) as int,
                                ).subrange(0, enc_cells(cells@).len() as int));
                            }
                        }
                        Err(RowDecodeError::RequiredNull)
                    }
                } else {
                    proof {
                        assert(false);
                    }
                    Err(RowDecodeError::Protocol)
                }
            },
        }
    }
}

} // verus!
