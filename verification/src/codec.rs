//! Encoding and decoding of column values and cells.
//!
//! A cell is one column of one row on the wire: a four-byte big-endian
//! signed length prefix followed by that many body bytes. A prefix of
//! -1 marks a null cell; it is distinct from a zero-length, non-null
//! body. Any other negative prefix is malformed. The decoder is proved
//! exact against the encoding: whatever it accepts re-encodes to the
//! very bytes consumed, and whatever it rejects is the encoding of no
//! well-formed value.

use vstd::prelude::*;

use crate::types::{ColumnType, CqlValue, ProtocolError, is_utf8, utf8_ok, wf_cell, wf_cells, wf_value};
use crate::wire::{
    be16, be32, be64, u16_of_i16, u64_of_i64, lemma_be16_val, lemma_be32_val, lemma_be64_val,
    read_u16, read_u32, read_u64, push_u16, push_u32, push_u64, i16_to_u16, i64_to_u64,
    u16_to_i16, u32_to_i32, u64_to_i64,
};

verus! {

/// The length prefix on the wire that marks a null cell.
pub open spec fn null_prefix_word() -> u32 {
    0xffffffff
}

/// The body bytes of a present value.
pub open spec fn enc_value(v: CqlValue) -> Seq<u8>
    decreases v, 0int,
{
    match v {
        CqlValue::Ascii(b) => b@,
        CqlValue::Blob(b) => b@,
        CqlValue::SmallInt(x) => be16(u16_of_i16(x)),
        CqlValue::Text(b) => b@,
        CqlValue::Timestamp(x) => be64(u64_of_i64(x)),
        CqlValue::Tuple(cs) => enc_cells(cs@),
    }
}

/// The four-byte word that prefixes a cell: the body length, or the
/// null marker.
pub open spec fn cell_prefix_word(c: Option<CqlValue>) -> u32
    decreases c, 1int,
{
    match c {
        Option::None => null_prefix_word(),
        Option::Some(v) => enc_value(v).len() as u32,
    }
}

/// The body bytes of a cell: empty for null.
pub open spec fn cell_body(c: Option<CqlValue>) -> Seq<u8>
    decreases c, 1int,
{
    match c {
        Option::None => Seq::empty(),
        Option::Some(v) => enc_value(v),
    }
}

/// The wire image of one cell: length prefix, then body.
pub open spec fn enc_cell(c: Option<CqlValue>) -> Seq<u8>
    decreases c, 2int,
{
    be32(cell_prefix_word(c)) + cell_body(c)
}

/// The wire image of a sequence of cells, in order.
pub open spec fn enc_cells(cs: Seq<Option<CqlValue>>) -> Seq<u8>
    decreases cs, 3int,
{
    if cs.len() == 0 {
        Seq::empty()
    } else {
        enc_cell(cs[0]) + enc_cells(cs.drop_first())
    }
}

/// Whether every nested body of a value is short enough for its
/// length to be carried in the non-negative half of a 32-bit prefix.
pub open spec fn fits_value(v: CqlValue) -> bool
    decreases v, 0int,
{
    match v {
        CqlValue::Tuple(cs) => fits_cells(cs@),
        _ => true,
    }
}

/// Whether a cell's body, and everything nested in it, fits its prefix.
pub open spec fn fits_cell(c: Option<CqlValue>) -> bool
    decreases c, 1int,
{
    match c {
        Option::None => true,
        Option::Some(v) => enc_value(v).len() <= 0x7fffffff && fits_value(v),
    }
}

/// Whether every cell of a sequence fits its prefix.
pub open spec fn fits_cells(cs: Seq<Option<CqlValue>>) -> bool
    decreases cs, 2int,
{
    cs.len() == 0 || (fits_cell(cs[0]) && fits_cells(cs.drop_first()))
}

/// A fitting cell sequence fits at every position.
pub proof fn lemma_fits_cells_index(cs: Seq<Option<CqlValue>>, i: int)
    requires
        fits_cells(cs),
        0 <= i < cs.len(),
    ensures
        fits_cell(cs[i]),
    decreases i,
{
    if i > 0 {
        lemma_fits_cells_index(cs.drop_first(), i - 1);
        assert(cs.drop_first()[i - 1] == cs[i]);
    }
}

/// Structural equality of values, comparing byte buffers by content.
pub open spec fn value_eqv(a: CqlValue, b: CqlValue) -> bool
    decreases a, 0int,
{
    match (a, b) {
        (CqlValue::Ascii(x), CqlValue::Ascii(y)) => x@ == y@,
        (CqlValue::Blob(x), CqlValue::Blob(y)) => x@ == y@,
        (CqlValue::SmallInt(x), CqlValue::SmallInt(y)) => x == y,
        (CqlValue::Text(x), CqlValue::Text(y)) => x@ == y@,
        (CqlValue::Timestamp(x), CqlValue::Timestamp(y)) => x == y,
        (CqlValue::Tuple(xs), CqlValue::Tuple(ys)) => cells_eqv(xs@, ys@),
        _ => false,
    }
}

/// Structural equality of cells: null matches null, present values
/// match by `value_eqv`.
pub open spec fn cell_eqv(a: Option<CqlValue>, b: Option<CqlValue>) -> bool
    decreases a, 1int,
{
    match (a, b) {
        (Option::None, Option::None) => true,
        (Option::Some(x), Option::Some(y)) => value_eqv(x, y),
        _ => false,
    }
}

/// Elementwise structural equality of cell sequences.
pub open spec fn cells_eqv(a: Seq<Option<CqlValue>>, b: Seq<Option<CqlValue>>) -> bool
    decreases a, 2int,
{
    &&& a.len() == b.len()
    &&& (a.len() == 0 || (cell_eqv(a[0], b[0]) && cells_eqv(a.drop_first(), b.drop_first())))
}

/// Whether `a` is an initial segment of `s`.
pub open spec fn prefix_of(a: Seq<u8>, s: Seq<u8>) -> bool {
    a.len() <= s.len() && a == s.subrange(0, a.len() as int)
}

pub proof fn lemma_prefix_concat(a: Seq<u8>, b: Seq<u8>, s: Seq<u8>)
    requires
        prefix_of(a + b, s),
    ensures
        prefix_of(a, s),
        prefix_of(b, s.skip(a.len() as int)),
{
    let ab = a + b;
    assert(a =~= s.subrange(0, a.len() as int));
    assert forall|i: int| 0 <= i < b.len() implies b[i] == s.skip(a.len() as int)[i] by {
        assert(ab[a.len() + i] == b[i]);
        assert(ab[a.len() + i] == s.subrange(0, ab.len() as int)[a.len() + i]);
    }
    assert(b =~= s.skip(a.len() as int).subrange(0, b.len() as int));
}

pub proof fn lemma_prefix_head(a: Seq<u8>, s: Seq<u8>, k: int)
    requires
        prefix_of(a, s),
        0 <= k <= a.len(),
    ensures
        a.subrange(0, k) == s.subrange(0, k),
{
    assert(a.subrange(0, k) =~= s.subrange(0, k));
}

/// One cell's image is at least the four prefix bytes.
pub proof fn lemma_enc_cell_len(c: Option<CqlValue>)
    ensures
        enc_cell(c).len() == 4 + cell_body(c).len(),
        enc_cell(c).subrange(0, 4) == be32(cell_prefix_word(c)),
        enc_cell(c).skip(4) == cell_body(c),
{
    lemma_be32_val(cell_prefix_word(c));
    assert(enc_cell(c).subrange(0, 4) =~= be32(cell_prefix_word(c)));
    assert(enc_cell(c).skip(4) =~= cell_body(c));
}

/// Appending one cell to a sequence appends its image to the stream.
pub proof fn lemma_enc_cells_push(cs: Seq<Option<CqlValue>>, c: Option<CqlValue>)
    ensures
        enc_cells(cs.push(c)) == enc_cells(cs) + enc_cell(c),
    decreases cs.len(),
{
    if cs.len() == 0 {
        assert(cs.push(c)[0] == c);
        assert(cs.push(c).drop_first() =~= Seq::<Option<CqlValue>>::empty());
        assert(enc_cells(cs.push(c)) == enc_cell(c) + enc_cells(cs.push(c).drop_first()));
        assert(enc_cells(cs.push(c).drop_first()).len() == 0);
        assert(enc_cells(cs).len() == 0);
        assert(enc_cells(cs.push(c)) =~= enc_cells(cs) + enc_cell(c));
    } else {
        assert(cs.push(c)[0] == cs[0]);
        assert(cs.push(c).drop_first() =~= cs.drop_first().push(c));
        assert(enc_cells(cs.push(c)) == enc_cell(cs[0]) + enc_cells(cs.drop_first().push(c)));
        lemma_enc_cells_push(cs.drop_first(), c);
        assert(enc_cells(cs.push(c)) =~= (enc_cell(cs[0]) + enc_cells(cs.drop_first()))
            + enc_cell(c));
        assert(enc_cells(cs) == enc_cell(cs[0]) + enc_cells(cs.drop_first()));
        assert(enc_cells(cs.push(c)) =~= enc_cells(cs) + enc_cell(c));
    }
}

/// The encoding is unambiguous: two well-formed values of one column
/// type with the same body bytes are the same value.
pub proof fn lemma_value_unique(t: ColumnType, v1: CqlValue, v2: CqlValue)
    requires
        wf_value(t, v1),
        wf_value(t, v2),
        fits_value(v1),
        fits_value(v2),
        enc_value(v1) == enc_value(v2),
    ensures
        value_eqv(v1, v2),
    decreases t, 0int,
{
    match t {
        ColumnType::SmallInt => {
            let x1 = v1->SmallInt_0;
            let x2 = v2->SmallInt_0;
            assert(v1 == CqlValue::SmallInt(x1));
            assert(v2 == CqlValue::SmallInt(x2));
            assert(be16(u16_of_i16(x1)) == be16(u16_of_i16(x2)));
            lemma_be16_val(u16_of_i16(x1));
            lemma_be16_val(u16_of_i16(x2));
            crate::wire::lemma_i16_u16_round_trip(x1);
            crate::wire::lemma_i16_u16_round_trip(x2);
            assert(x1 == x2);
        },
        ColumnType::Timestamp => {
            let x1 = v1->Timestamp_0;
            let x2 = v2->Timestamp_0;
            assert(v1 == CqlValue::Timestamp(x1));
            assert(v2 == CqlValue::Timestamp(x2));
            assert(be64(u64_of_i64(x1)) == be64(u64_of_i64(x2)));
            lemma_be64_val(u64_of_i64(x1));
            lemma_be64_val(u64_of_i64(x2));
            crate::wire::lemma_i64_u64_round_trip(x1);
            crate::wire::lemma_i64_u64_round_trip(x2);
            assert(x1 == x2);
        },
        ColumnType::Tuple(ts) => {
            let cs1 = v1->Tuple_0;
            let cs2 = v2->Tuple_0;
            assert(v1 == CqlValue::Tuple(cs1));
            assert(v2 == CqlValue::Tuple(cs2));
            let s = enc_cells(cs1@);
            assert(enc_cells(cs2@) == s);
            assert(prefix_of(s, s)) by {
                assert(s.subrange(0, s.len() as int) =~= s);
            }
            lemma_cells_unique(ts@, cs1@, cs2@, s);
            assert(value_eqv(v1, v2));
        },
        _ => {},
    }
}

/// A cell image is self-delimiting: two well-formed cells of one type
/// whose images open the same stream are the same cell, with the same
/// image.
pub proof fn lemma_cell_unique(t: ColumnType, c1: Option<CqlValue>, c2: Option<CqlValue>, s: Seq<u8>)
    requires
        wf_cell(t, c1),
        wf_cell(t, c2),
        fits_cell(c1),
        fits_cell(c2),
        prefix_of(enc_cell(c1), s),
        prefix_of(enc_cell(c2), s),
    ensures
        cell_eqv(c1, c2),
        enc_cell(c1) == enc_cell(c2),
    decreases t, 1int,
{
    lemma_enc_cell_len(c1);
    lemma_enc_cell_len(c2);
    lemma_prefix_head(enc_cell(c1), s, 4);
    lemma_prefix_head(enc_cell(c2), s, 4);
    assert(be32(cell_prefix_word(c1)) == be32(cell_prefix_word(c2)));
    lemma_be32_val(cell_prefix_word(c1));
    lemma_be32_val(cell_prefix_word(c2));
    assert(cell_prefix_word(c1) == cell_prefix_word(c2));
    match (c1, c2) {
        (Option::None, Option::None) => {},
        (Option::Some(v1), Option::Some(v2)) => {
            let n = enc_value(v1).len() as int;
            assert(enc_value(v2).len() == n);
            assert forall|j: int| 0 <= j < n implies enc_value(v1)[j] == enc_value(v2)[j] by {
                assert(enc_cell(c1)[4 + j] == enc_value(v1)[j]);
                assert(enc_cell(c2)[4 + j] == enc_value(v2)[j]);
                assert(enc_cell(c1)[4 + j] == s.subrange(0, enc_cell(c1).len() as int)[4 + j]);
                assert(enc_cell(c2)[4 + j] == s.subrange(0, enc_cell(c2).len() as int)[4 + j]);
            }
            assert(enc_value(v1) =~= enc_value(v2));
            lemma_value_unique(t, v1, v2);
            assert(enc_cell(c1) =~= enc_cell(c2));
        },
        (Option::None, Option::Some(v)) => {
            assert(enc_value(v).len() <= 0x7fffffff);
            assert(false);
        },
        (Option::Some(v), Option::None) => {
            assert(enc_value(v).len() <= 0x7fffffff);
            assert(false);
        },
    }
}

/// A cell stream is parsed one way only: two well-formed cell
/// sequences for one list of column types that both open the same
/// stream are the same cells, with the same image.
pub proof fn lemma_cells_unique(
    ts: Seq<ColumnType>,
    vs1: Seq<Option<CqlValue>>,
    vs2: Seq<Option<CqlValue>>,
    s: Seq<u8>,
)
    requires
        wf_cells(ts, vs1),
        wf_cells(ts, vs2),
        fits_cells(vs1),
        fits_cells(vs2),
        prefix_of(enc_cells(vs1), s),
        prefix_of(enc_cells(vs2), s),
    ensures
        cells_eqv(vs1, vs2),
        enc_cells(vs1) == enc_cells(vs2),
    decreases ts, 2int,
{
    if ts.len() == 0 {
        assert(enc_cells(vs1) =~= enc_cells(vs2));
    } else {
        let c1 = vs1[0];
        let c2 = vs2[0];
        assert(enc_cells(vs1) == enc_cell(c1) + enc_cells(vs1.drop_first()));
        assert(enc_cells(vs2) == enc_cell(c2) + enc_cells(vs2.drop_first()));
        lemma_prefix_concat(enc_cell(c1), enc_cells(vs1.drop_first()), s);
        lemma_prefix_concat(enc_cell(c2), enc_cells(vs2.drop_first()), s);
        lemma_cell_unique(ts[0], c1, c2, s);
        lemma_cells_unique(
            ts.drop_first(),
            vs1.drop_first(),
            vs2.drop_first(),
            s.skip(enc_cell(c1).len() as int),
        );
        assert(cells_eqv(vs1, vs2));
        assert(enc_cells(vs1) =~= enc_cells(vs2));
    }
}

/// Round trip: the encoding of a well-formed, prefix-fitting cell
/// denotes that cell and no other. Together with the decoder's
/// contract this says decoding the encoding of a cell reproduces the
/// cell, null kept distinct from a zero-length, non-null body.
pub proof fn lemma_cell_round_trip(t: ColumnType, c: Option<CqlValue>, d: Option<CqlValue>)
    requires
        wf_cell(t, c),
        fits_cell(c),
        wf_cell(t, d),
        fits_cell(d),
        enc_cell(d) == enc_cell(c),
    ensures
        cell_eqv(d, c),
{
    let s = enc_cell(c);
    assert(prefix_of(enc_cell(c), s)) by {
        assert(s.subrange(0, s.len() as int) =~= s);
    }
    lemma_cell_unique(t, d, c, s);
}

/// Copies the bytes of `buf` between `a` and `b` into a fresh buffer.
pub(crate) fn copy_range(buf: &Vec<u8>, a: usize, b: usize) -> (r: Vec<u8>)
    requires
        a <= b <= buf@.len(),
    ensures
        r@ == buf@.subrange(a as int, b as int),
{
    let mut out: Vec<u8> = Vec::new();
    let mut i: usize = a;
    while i < b
        invariant
            a <= i <= b <= buf@.len(),
            out@ == buf@.subrange(a as int, i as int),
        decreases b - i,
    {
        out.push(buf[i]);
        proof {
            assert(out@ =~= buf@.subrange(a as int, i as int + 1));
        }
        i = i + 1;
    }
    out
}

/// Appends the body image of a value.
fn encode_value_into(v: &CqlValue, out: &mut Vec<u8>)
    requires
        fits_value(*v),
    ensures
        final(out)@ == old(out)@ + enc_value(*v),
    decreases v, 0int,
{
    match v {
        CqlValue::Ascii(b) => {
            let mut copy = copy_whole(b);
            out.append(&mut copy);
            proof {
                assert(out@ =~= old(out)@ + enc_value(*v));
            }
        },
        CqlValue::Blob(b) => {
            let mut copy = copy_whole(b);
            out.append(&mut copy);
            proof {
                assert(out@ =~= old(out)@ + enc_value(*v));
            }
        },
        CqlValue::Text(b) => {
            let mut copy = copy_whole(b);
            out.append(&mut copy);
            proof {
                assert(out@ =~= old(out)@ + enc_value(*v));
            }
        },
        CqlValue::SmallInt(x) => {
            push_u16(out, i16_to_u16(*x));
        },
        CqlValue::Timestamp(x) => {
            push_u64(out, i64_to_u64(*x));
        },
        CqlValue::Tuple(cs) => {
            let ghost base = out@;
            proof {
                assert(*v == CqlValue::Tuple(*cs));
                assert(*cs == (*v)->Tuple_0);
                assert(fits_cells(cs@));
                assert forall|j: int| 0 <= j < cs@.len() implies #[trigger] fits_cell(cs@[j]) by {
                    lemma_fits_cells_index(cs@, j);
                }
            }
            let n = cs.len();
            let mut i: usize = 0;
            while i < n
                invariant
                    i <= n == cs@.len(),
                    *v == CqlValue::Tuple(*cs),
                    forall|j: int| 0 <= j < cs@.len() ==> #[trigger] fits_cell(cs@[j]),
                    out@ == base + enc_cells(cs@.take(i as int)),
                decreases n - i,
            {
                proof {
                    assert(*cs == (*v)->Tuple_0);
                    assert(decreases_to!(*v => (*v)->Tuple_0));
                    assert(decreases_to!(*cs => cs@[i as int]));
                    assert(decreases_to!(*v => cs@[i as int]));
                }
                encode_cell_into(&cs[i], out);
                proof {
                    assert(cs@.take(i as int + 1) =~= cs@.take(i as int).push(cs@[i as int]));
                    lemma_enc_cells_push(cs@.take(i as int), cs@[i as int]);
                    assert(out@ =~= base + enc_cells(cs@.take(i as int + 1)));
                }
                i = i + 1;
            }
            proof {
                assert(cs@.take(n as int) =~= cs@);
                assert(out@ =~= old(out)@ + enc_value(*v));
            }
        },
    }
}

/// Appends the wire image of one cell: length prefix, then body.
fn encode_cell_into(c: &Option<CqlValue>, out: &mut Vec<u8>)
    requires
        fits_cell(*c),
    ensures
        final(out)@ == old(out)@ + enc_cell(*c),
    decreases c, 1int,
{
    match c {
        Option::None => {
            push_u32(out, 0xffffffff);
            proof {
                assert(out@ =~= old(out)@ + enc_cell(*c));
            }
        },
        Option::Some(v) => {
            let mut body: Vec<u8> = Vec::new();
            encode_value_into(v, &mut body);
            push_u32(out, body.len() as u32);
            out.append(&mut body);
            proof {
                assert(out@ =~= old(out)@ + enc_cell(*c));
            }
        },
    }
}

/// Copies a byte buffer.
pub(crate) fn copy_whole(buf: &Vec<u8>) -> (r: Vec<u8>)
    ensures
        r@ == buf@,
{
    let r = copy_range(buf, 0, buf.len());
    proof {
        assert(buf@.subrange(0, buf@.len() as int) =~= buf@);
    }
    r
}

/// Decodes a value's body bytes against its declared column type.
///
/// Exactness: an accepted value is well-formed and re-encodes to the
/// input bytes; a rejection means no well-formed value of this type
/// has this encoding.
pub fn decode_value(t: &ColumnType, bytes: &Vec<u8>) -> (r: Result<CqlValue, ProtocolError>)
    ensures
        r matches Ok(v) ==> wf_value(*t, v) && fits_value(v) && enc_value(v) == bytes@,
        r is Err ==> forall|v: CqlValue|
            #[trigger] wf_value(*t, v) && fits_value(v) ==> enc_value(v) != bytes@,
    decreases *t, 0int, 0int,
{
    match t {
        ColumnType::SmallInt => {
            if bytes.len() == 2 {
                let raw = read_u16(bytes, 0);
                let x = u16_to_i16(raw);
                proof {
                    crate::wire::lemma_u16_i16_round_trip(raw);
                    assert(enc_value(CqlValue::SmallInt(x)) =~= bytes@);
                }
                Ok(CqlValue::SmallInt(x))
            } else {
                Err(ProtocolError)
            }
        },
        ColumnType::Timestamp => {
            if bytes.len() == 8 {
                let raw = read_u64(bytes, 0);
                let x = u64_to_i64(raw);
                proof {
                    crate::wire::lemma_u64_i64_round_trip(raw);
                    assert(enc_value(CqlValue::Timestamp(x)) =~= bytes@);
                }
                Ok(CqlValue::Timestamp(x))
            } else {
                proof {
                    assert forall|v: CqlValue|
                        #[trigger] wf_value(*t, v) && fits_value(v) implies enc_value(v)
                        != bytes@ by {
                        assert(enc_value(v).len() == 8);
                    }
                }
                Err(ProtocolError)
            }
        },
        ColumnType::Blob => {
            let copy = copy_whole(bytes);
            Ok(CqlValue::Blob(copy))
        },
        ColumnType::Ascii => {
            if is_utf8(bytes) {
                let copy = copy_whole(bytes);
                Ok(CqlValue::Ascii(copy))
            } else {
                Err(ProtocolError)
            }
        },
        ColumnType::Text => {
            if is_utf8(bytes) {
                let copy = copy_whole(bytes);
                Ok(CqlValue::Text(copy))
            } else {
                Err(ProtocolError)
            }
        },
        ColumnType::Tuple(ts) => {
            proof {
                assert(*ts == (*t)->Tuple_0);
                assert(decreases_to!(*t => (*t)->Tuple_0));
            }
            match decode_cells(ts, 0, bytes, 0) {
                Ok((cells, end)) => {
                    if end == bytes.len() {
                        proof {
                            assert(ts@.skip(0) =~= ts@);
                            assert(enc_cells(cells@) =~= bytes@);
                        }
                        Ok(CqlValue::Tuple(cells))
                    } else {
                        proof {
                            assert(ts@.skip(0) =~= ts@);
                            assert forall|v: CqlValue|
                                #[trigger] wf_value(*t, v) && fits_value(v) implies enc_value(v)
                                != bytes@ by {
                                if enc_value(v) == bytes@ {
                                    let vs = v->Tuple_0;
                                    assert(wf_cells(ts@, vs@));
                                    assert(fits_cells(vs@));
                                    assert(prefix_of(enc_cells(vs@), bytes@)) by {
                                        assert(bytes@.subrange(0, bytes@.len() as int) =~= bytes@);
                                    }
                                    assert(prefix_of(enc_cells(cells@), bytes@)) by {
                                        assert(enc_cells(cells@) == bytes@.subrange(
                                            0,
                                            end as int,
                                        ));
                                        assert(bytes@.subrange(0, end as int) =~= bytes@.subrange(
                                            0,
                                            bytes@.len() as int,
                                        ).subrange(0, end as int));
                                        assert(bytes@.subrange(0, end as int) =~= bytes@.subrange(
                                            0,
                                            enc_cells(cells@).len() as int,
                                        ));
                                    }
                                    lemma_cells_unique(ts@, vs@, cells@, bytes@);
                                    assert(enc_cells(vs@).len() == end);
                                    assert(false);
                                }
                            }
                        }
                        Err(ProtocolError)
                    }
                },
                Err(e) => {
                    proof {
                        assert(ts@.skip(0) =~= ts@);
                        assert forall|v: CqlValue|
                            #[trigger] wf_value(*t, v) && fits_value(v) implies enc_value(v)
                            != bytes@ by {
                            if enc_value(v) == bytes@ {
                                let vs = v->Tuple_0;
                                assert(wf_cells(ts@.skip(0), vs@));
                                assert(fits_cells(vs@));
                                assert(prefix_of(enc_cells(vs@), bytes@.skip(0))) by {
                                    assert(bytes@.skip(0) =~= bytes@);
                                    assert(bytes@.subrange(0, bytes@.len() as int) =~= bytes@);
                                }
                                assert(false);
                            }
                        }
                    }
                    Err(e)
                },
            }
        },
    }
}

/// Decodes one cell at `pos`: the length prefix, then the body
/// decoded against the column type. Only the exact null marker is a
/// null cell; any other negative prefix is malformed.
pub fn decode_one_cell(t: &ColumnType, buf: &Vec<u8>, pos: usize) -> (r: Result<
    (Option<CqlValue>, usize),
    ProtocolError,
>)
    requires
        pos <= buf@.len(),
    ensures
        r matches Ok((c, end)) ==> {
            &&& pos + 4 <= end <= buf@.len()
            &&& wf_cell(*t, c)
            &&& fits_cell(c)
            &&& enc_cell(c) == buf@.subrange(pos as int, end as int)
        },
        r is Err ==> forall|c: Option<CqlValue>|
            #[trigger] wf_cell(*t, c) && fits_cell(c) ==> !prefix_of(
                enc_cell(c),
                buf@.skip(pos as int),
            ),
    decreases *t, 1int, 0int,
{
    let n = buf.len();
    let ghost s = buf@.skip(pos as int);
    if n - pos < 4 {
        proof {
            assert forall|c: Option<CqlValue>|
                #[trigger] wf_cell(*t, c) && fits_cell(c) implies !prefix_of(enc_cell(c), s) by {
                lemma_enc_cell_len(c);
            }
        }
        return Err(ProtocolError);
    }
    let raw = read_u32(buf, pos);
    proof {
        assert(s.subrange(0, 4) =~= buf@.subrange(pos as int, pos as int + 4));
    }
    if raw == 0xffffffff {
        proof {
            lemma_enc_cell_len(Option::None);
            assert(enc_cell(Option::None::<CqlValue>) =~= buf@.subrange(
                pos as int,
                pos as int + 4,
            ));
        }
        return Ok((Option::None, pos + 4));
    }
    let len_i = u32_to_i32(raw);
    if len_i < 0 {
        proof {
            assert forall|c: Option<CqlValue>|
                #[trigger] wf_cell(*t, c) && fits_cell(c) implies !prefix_of(enc_cell(c), s) by {
                if prefix_of(enc_cell(c), s) {
                    lemma_enc_cell_len(c);
                    lemma_prefix_head(enc_cell(c), s, 4);
                    assert(be32(cell_prefix_word(c)) == be32(raw));
                    lemma_be32_val(cell_prefix_word(c));
                    lemma_be32_val(raw);
                    assert(cell_prefix_word(c) == raw);
                    assert(raw != 0xffffffff);
                    assert(raw >= 0x80000000);
                    if c is Some {
                        assert(enc_value(c->0).len() <= 0x7fffffff);
                    }
                    assert(false);
                }
            }
        }
        return Err(ProtocolError);
    }
    let length = len_i as usize;
    if n - pos - 4 < length {
        proof {
            assert forall|c: Option<CqlValue>|
                #[trigger] wf_cell(*t, c) && fits_cell(c) implies !prefix_of(enc_cell(c), s) by {
                if prefix_of(enc_cell(c), s) {
                    lemma_enc_cell_len(c);
                    lemma_prefix_head(enc_cell(c), s, 4);
                    assert(be32(cell_prefix_word(c)) == be32(raw));
                    lemma_be32_val(cell_prefix_word(c));
                    lemma_be32_val(raw);
                    assert(cell_prefix_word(c) == raw);
                    assert(c is Some);
                    let v = c->0;
                    assert(enc_value(v).len() <= 0x7fffffff);
                    assert(enc_value(v).len() == length);
                    assert(enc_cell(c).len() == 4 + length);
                    assert(enc_cell(c).len() <= s.len());
                    assert(false);
                }
            }
        }
        return Err(ProtocolError);
    }
    let body = copy_range(buf, pos + 4, pos + 4 + length);
    match decode_value(t, &body) {
        Ok(v) => {
            proof {
                assert(enc_value(v).len() == length);
                assert(cell_prefix_word(Option::Some(v)) == raw);
                assert(enc_cell(Option::Some(v)) =~= buf@.subrange(
                    pos as int,
                    pos as int + 4 + length as int,
                ));
            }
            Ok((Option::Some(v), pos + 4 + length))
        },
        Err(e) => {
            proof {
                assert forall|c: Option<CqlValue>|
                    #[trigger] wf_cell(*t, c) && fits_cell(c) implies !prefix_of(
                    enc_cell(c),
                    s,
                ) by {
                    if prefix_of(enc_cell(c), s) {
                        lemma_enc_cell_len(c);
                        lemma_prefix_head(enc_cell(c), s, 4);
                        assert(be32(cell_prefix_word(c)) == be32(raw));
                        lemma_be32_val(cell_prefix_word(c));
                        lemma_be32_val(raw);
                        assert(cell_prefix_word(c) == raw);
                        assert(c is Some);
                        let v = c->0;
                        assert(enc_value(v).len() == length);
                        assert(wf_value(*t, v));
                        assert(fits_value(v));
                        assert forall|j: int| 0 <= j < length implies enc_value(v)[j] == body@[j]
                            by {
                            assert(enc_cell(c)[4 + j] == enc_value(v)[j]);
                            assert(enc_cell(c)[4 + j] == s.subrange(
                                0,
                                enc_cell(c).len() as int,
                            )[4 + j]);
                        }
                        assert(enc_value(v) =~= body@);
                        assert(false);
                    }
                }
            }
            Err(e)
        },
    }
}

/// Decodes the cells for the column types from `from` on, starting
/// at `pos`; trailing bytes are left for the caller.
pub fn decode_cells(ts: &Vec<ColumnType>, from: usize, buf: &Vec<u8>, pos: usize) -> (r: Result<
    (Vec<Option<CqlValue>>, usize),
    ProtocolError,
>)
    requires
        from <= ts@.len(),
        pos <= buf@.len(),
    ensures
        r matches Ok((cells, end)) ==> {
            &&& pos <= end <= buf@.len()
            &&& wf_cells(ts@.skip(from as int), cells@)
            &&& fits_cells(cells@)
            &&& enc_cells(cells@) == buf@.subrange(pos as int, end as int)
        },
        r is Err ==> forall|vs: Seq<Option<CqlValue>>|
            #[trigger] wf_cells(ts@.skip(from as int), vs) && fits_cells(vs) ==> !prefix_of(
                enc_cells(vs),
                buf@.skip(pos as int),
            ),
    decreases *ts, 2int, ts@.len() - from,
{
    let ghost tail = ts@.skip(from as int);
    if from == ts.len() {
        let cells: Vec<Option<CqlValue>> = Vec::new();
        proof {
            assert(enc_cells(cells@) =~= buf@.subrange(pos as int, pos as int));
        }
        return Ok((cells, pos));
    }
    proof {
        assert(decreases_to!(*ts => ts@[from as int]));
        assert(tail[0] == ts@[from as int]);
        assert(tail.drop_first() =~= ts@.skip(from as int + 1));
    }
    match decode_one_cell(&ts[from], buf, pos) {
        Err(e) => {
            proof {
                assert forall|vs: Seq<Option<CqlValue>>|
                    #[trigger] wf_cells(tail, vs) && fits_cells(vs) implies !prefix_of(
                    enc_cells(vs),
                    buf@.skip(pos as int),
                ) by {
                    if prefix_of(enc_cells(vs), buf@.skip(pos as int)) {
                        assert(vs.len() == tail.len());
                        assert(enc_cells(vs) == enc_cell(vs[0]) + enc_cells(vs.drop_first()));
                        lemma_prefix_concat(
                            enc_cell(vs[0]),
                            enc_cells(vs.drop_first()),
                            buf@.skip(pos as int),
                        );
                        assert(wf_cell(ts@[from as int], vs[0]));
                        assert(fits_cell(vs[0]));
                        assert(false);
                    }
                }
            }
            Err(e)
        },
        Ok((c0, mid)) => {
            match decode_cells(ts, from + 1, buf, mid) {
                Err(e) => {
                    proof {
                        assert forall|vs: Seq<Option<CqlValue>>|
                            #[trigger] wf_cells(tail, vs) && fits_cells(vs) implies !prefix_of(
                            enc_cells(vs),
                            buf@.skip(pos as int),
                        ) by {
                            if prefix_of(enc_cells(vs), buf@.skip(pos as int)) {
                                let s = buf@.skip(pos as int);
                                assert(enc_cells(vs) == enc_cell(vs[0]) + enc_cells(
                                    vs.drop_first(),
                                ));
                                lemma_prefix_concat(
                                    enc_cell(vs[0]),
                                    enc_cells(vs.drop_first()),
                                    s,
                                );
                                assert(wf_cell(ts@[from as int], vs[0]));
                                assert(fits_cell(vs[0]));
                                assert(prefix_of(enc_cell(c0), s)) by {
                                    assert(enc_cell(c0) == buf@.subrange(pos as int, mid as int));
                                    assert(enc_cell(c0) =~= s.subrange(
                                        0,
                                        enc_cell(c0).len() as int,
                                    ));
                                }
                                lemma_cell_unique(ts@[from as int], vs[0], c0, s);
                                assert(enc_cell(vs[0]).len() == mid - pos);
                                assert(s.skip(mid - pos) =~= buf@.skip(mid as int));
                                assert(wf_cells(ts@.skip(from as int + 1), vs.drop_first()));
                                assert(fits_cells(vs.drop_first()));
                                assert(false);
                            }
                        }
                    }
                    Err(e)
                },
                Ok((rest, end)) => {
                    let ghost rv = rest@;
                    let mut cells = rest;
                    cells.insert(0, c0);
                    proof {
                        assert(cells@ == rv.insert(0, c0));
                        assert(cells@[0] == c0);
                        assert(cells@.drop_first() =~= rv);
                        assert(enc_cells(cells@) == enc_cell(c0) + enc_cells(rv));
                        assert(enc_cells(cells@) =~= buf@.subrange(pos as int, end as int));
                        assert(wf_cells(tail, cells@));
                        assert(fits_cells(cells@));
                    }
                    Ok((cells, end))
                },
            }
        },
    }
}

/// Encodes a value's body bytes.
pub fn encode_value(v: &CqlValue) -> (r: Vec<u8>)
    requires
        fits_value(*v),
    ensures
        r@ == enc_value(*v),
{
    let mut out: Vec<u8> = Vec::new();
    encode_value_into(v, &mut out);
    out
}

/// Encodes one cell: length prefix, then body; a null cell becomes
/// the four-byte null marker.
pub fn encode_cell(c: &Option<CqlValue>) -> (r: Vec<u8>)
    requires
        fits_cell(*c),
    ensures
        r@ == enc_cell(*c),
{
    let mut out: Vec<u8> = Vec::new();
    encode_cell_into(c, &mut out);
    out
}

} // verus!
