//! Row deserialization, in the two modes the result reader offers.
//!
//! Untyped mode turns every column into a tagged present-or-null
//! value and succeeds whenever the bytes are well-formed. Statically
//! validated mode first checks the frame's column count and each
//! column's runtime type against a caller-declared shape, in
//! positional order, and only then decodes; a count or type mismatch
//! is a schema error, never a silent coercion or reordering.

use vstd::prelude::*;

use crate::codec::{
    decode_one_cell, enc_cell, enc_cells, fits_cell, fits_cells, lemma_cell_unique,
    lemma_prefix_concat, prefix_of,
};
use crate::types::{
    ColumnSpec, ColumnType, CqlValue, ProtocolError, Row, SchemaMismatchError, spec_types,
    wf_cell, wf_cells, wf_row,
};

verus! {

/// Decodes the cells for the column specifications from `from` on,
/// starting at `pos`; trailing bytes are left for the caller.
fn decode_row_cells(specs: &Vec<ColumnSpec>, from: usize, buf: &Vec<u8>, pos: usize) -> (r:
    Result<(Vec<Option<CqlValue>>, usize), ProtocolError>)
    requires
        from <= specs@.len(),
        pos <= buf@.len(),
    ensures
        r matches Ok((cells, end)) ==> {
            &&& pos <= end <= buf@.len()
            &&& wf_cells(spec_types(specs@).skip(from as int), cells@)
            &&& fits_cells(cells@)
            &&& enc_cells(cells@) == buf@.subrange(pos as int, end as int)
        },
        r is Err ==> forall|vs: Seq<Option<CqlValue>>|
            #[trigger] wf_cells(spec_types(specs@).skip(from as int), vs) && fits_cells(vs)
                ==> !prefix_of(enc_cells(vs), buf@.skip(pos as int)),
    decreases specs@.len() - from,
{
    let ghost tail = spec_types(specs@).skip(from as int);
    if from == specs.len() {
        let cells: Vec<Option<CqlValue>> = Vec::new();
        proof {
            assert(enc_cells(cells@) =~= buf@.subrange(pos as int, pos as int));
        }
        return Ok((cells, pos));
    }
    proof {
        assert(spec_types(specs@)[from as int] == specs@[from as int].typ);
        assert(tail[0] == specs@[from as int].typ);
        assert(tail.drop_first() =~= spec_types(specs@).skip(from as int + 1));
    }
    match decode_one_cell(&specs[from].typ, buf, pos) {
        Err(e) => {
            proof {
                assert forall|vs: Seq<Option<CqlValue>>|
                    #[trigger] wf_cells(tail, vs) && fits_cells(vs) implies !prefix_of(
                    enc_cells(vs),
                    buf@.skip(pos as int),
                ) by {
                    if prefix_of(enc_cells(vs), buf@.skip(pos as int)) {
                        assert(enc_cells(vs) == enc_cell(vs[0]) + enc_cells(vs.drop_first()));
                        lemma_prefix_concat(
                            enc_cell(vs[0]),
                            enc_cells(vs.drop_first()),
                            buf@.skip(pos as int),
                        );
                        assert(wf_cell(specs@[from as int].typ, vs[0]));
                        assert(fits_cell(vs[0]));
                        assert(false);
                    }
                }
            }
            Err(e)
        },
        Ok((c0, mid)) => {
            match decode_row_cells(specs, from + 1, buf, mid) {
                Err(e) => {
                    proof {
                        assert forall|vs: Seq<Option<CqlValue>>|
                            #[trigger] wf_cells(tail, vs) && fits_cells(vs) implies !prefix_of(
                            enc_cells(vs),
                            buf@.skip(pos as int),
                        ) by {
                            if prefix_of(enc_cells(vs), buf@.skip(pos as int)) {
                                let s = buf@.skip(pos as int);
                                assert(enc_cells(vs) == enc_cell(vs[0]) + enc_cells(
                                    vs.drop_first(),
                                ));
                                lemma_prefix_concat(
                                    enc_cell(vs[0]),
                                    enc_cells(vs.drop_first()),
                                    s,
                                );
                                assert(wf_cell(specs@[from as int].typ, vs[0]));
                                assert(fits_cell(vs[0]));
                                assert(prefix_of(enc_cell(c0), s)) by {
                                    assert(enc_cell(c0) == buf@.subrange(pos as int, mid as int));
                                    assert(enc_cell(c0) =~= s.subrange(
                                        0,
                                        enc_cell(c0).len() as int,
                                    ));
                                }
                                lemma_cell_unique(specs@[from as int].typ, vs[0], c0, s);
                                assert(enc_cell(vs[0]).len() == mid - pos);
                                assert(s.skip(mid - pos) =~= buf@.skip(mid as int));
                                assert(wf_cells(
                                    spec_types(specs@).skip(from as int + 1),
                                    vs.drop_first(),
                                ));
                                assert(fits_cells(vs.drop_first()));
                                assert(false);
                            }
                        }
                    }
                    Err(e)
                },
                Ok((rest, end)) => {
                    let ghost rv = rest@;
                    let mut cells = rest;
                    cells.insert(0, c0);
                    proof {
                        assert(cells@ == rv.insert(0, c0));
                        assert(cells@[0] == c0);
                        assert(cells@.drop_first() =~= rv);
                        assert(enc_cells(cells@) == enc_cell(c0) + enc_cells(rv));
                        assert(enc_cells(cells@) =~= buf@.subrange(pos as int, end as int));
                        assert(wf_cells(tail, cells@));
                        assert(fits_cells(cells@));
                    }
                    Ok((cells, end))
                },
            }
        },
    }
}

impl Row {
    /// Untyped decoding accepts any column layout.
    pub fn match_column_specs(col_specs: &Vec<ColumnSpec>) -> (r: Result<(), SchemaMismatchError>)
        ensures
            r is Ok,
    {
        Ok(())
    }

    /// Decodes one row from the buffer, advancing the cursor past
    /// exactly the bytes of this row's cells and leaving the rest.
    pub fn deserialize(buf: &Vec<u8>, pos: &mut usize, column_specs: &Vec<ColumnSpec>) -> (r:
        Result<Row, ProtocolError>)
        requires
            *old(pos) <= buf@.len(),
        ensures
            r matches Ok(row) ==> {
                &&& *old(pos) <= *final(pos) <= buf@.len()
                &&& wf_row(column_specs@, row)
                &&& fits_cells(row.columns@)
                &&& enc_cells(row.columns@) == buf@.subrange(
                    *old(pos) as int,
                    *final(pos) as int,
                )
            },
            r is Err ==> {
                &&& *final(pos) == *old(pos)
                &&& forall|vs: Seq<Option<CqlValue>>|
                    #[trigger] wf_cells(spec_types(column_specs@), vs) && fits_cells(vs)
                        ==> !prefix_of(enc_cells(vs), buf@.skip(*old(pos) as int))
            },
    {
        proof {
            assert(spec_types(column_specs@).skip(0) =~= spec_types(column_specs@));
        }
        match decode_row_cells(column_specs, 0, buf, *pos) {
            Ok((cells, end)) => {
                *pos = end;
                Ok(Row { columns: cells })
            },
            Err(e) => Err(e),
        }
    }
}

} // verus!
