//! Big-endian images of the fixed-width integers the protocol uses,
//! and the conversions between signed and unsigned interpretations.

use vstd::prelude::*;

verus! {

/// Big-endian two-byte image of a 16-bit value.
pub open spec fn be16(v: u16) -> Seq<u8> {
    seq![(v / 0x100) as u8, (v % 0x100) as u8]
}

/// Big-endian four-byte image of a 32-bit value: high half, then low half.
pub open spec fn be32(v: u32) -> Seq<u8> {
    be16((v / 0x10000) as u16) + be16((v % 0x10000) as u16)
}

/// Big-endian eight-byte image of a 64-bit value: high half, then low half.
pub open spec fn be64(v: u64) -> Seq<u8> {
    be32((v / 0x100000000) as u32) + be32((v % 0x100000000) as u32)
}

/// The 16-bit value denoted by a two-byte big-endian image.
pub open spec fn be16_val(s: Seq<u8>) -> u16
    recommends
        s.len() == 2,
{
    (s[0] * 0x100 + s[1]) as u16
}

/// The 32-bit value denoted by a four-byte big-endian image.
pub open spec fn be32_val(s: Seq<u8>) -> u32
    recommends
        s.len() == 4,
{
    (be16_val(s.subrange(0, 2)) * 0x10000 + be16_val(s.subrange(2, 4))) as u32
}

/// The 64-bit value denoted by an eight-byte big-endian image.
pub open spec fn be64_val(s: Seq<u8>) -> u64
    recommends
        s.len() == 8,
{
    (be32_val(s.subrange(0, 4)) * 0x100000000 + be32_val(s.subrange(4, 8))) as u64
}

pub proof fn lemma_be16_val(v: u16)
    ensures
        be16(v).len() == 2,
        be16_val(be16(v)) == v,
{
}

pub proof fn lemma_be32_val(v: u32)
    ensures
        be32(v).len() == 4,
        be32_val(be32(v)) == v,
{
    let hi = (v / 0x10000) as u16;
    let lo = (v % 0x10000) as u16;
    lemma_be16_val(hi);
    lemma_be16_val(lo);
    assert(be32(v).subrange(0, 2) =~= be16(hi));
    assert(be32(v).subrange(2, 4) =~= be16(lo));
}

pub proof fn lemma_be64_val(v: u64)
    ensures
        be64(v).len() == 8,
        be64_val(be64(v)) == v,
{
    let hi = (v / 0x100000000) as u32;
    let lo = (v % 0x100000000) as u32;
    lemma_be32_val(hi);
    lemma_be32_val(lo);
    assert(be64(v).subrange(0, 4) =~= be32(hi));
    assert(be64(v).subrange(4, 8) =~= be32(lo));
}

/// Two's-complement reading of a 16-bit image.
pub open spec fn i16_of_u16(v: u16) -> i16 {
    if v < 0x8000 {
        v as i16
    } else {
        (v - 0x10000) as i16
    }
}

/// Two's-complement image of a signed 16-bit value.
pub open spec fn u16_of_i16(v: i16) -> u16 {
    if v >= 0 {
        v as u16
    } else {
        (v + 0x10000) as u16
    }
}

/// Two's-complement reading of a 32-bit image.
pub open spec fn i32_of_u32(v: u32) -> i32 {
    if v < 0x80000000 {
        v as i32
    } else {
        (v - 0x100000000) as i32
    }
}

/// Two's-complement image of a signed 32-bit value.
pub open spec fn u32_of_i32(v: i32) -> u32 {
    if v >= 0 {
        v as u32
    } else {
        (v + 0x100000000) as u32
    }
}

/// Two's-complement reading of a 64-bit image.
pub open spec fn i64_of_u64(v: u64) -> i64 {
    if v < 0x8000000000000000 {
        v as i64
    } else {
        (v - 0x10000000000000000) as i64
    }
}

/// Two's-complement image of a signed 64-bit value.
pub open spec fn u64_of_i64(v: i64) -> u64 {
    if v >= 0 {
        v as u64
    } else {
        (v + 0x10000000000000000) as u64
    }
}

pub proof fn lemma_i16_u16_round_trip(v: i16)
    ensures
        i16_of_u16(u16_of_i16(v)) == v,
{
}

pub proof fn lemma_u16_i16_round_trip(v: u16)
    ensures
        u16_of_i16(i16_of_u16(v)) == v,
{
}

pub proof fn lemma_i64_u64_round_trip(v: i64)
    ensures
        i64_of_u64(u64_of_i64(v)) == v,
{
}

pub proof fn lemma_u64_i64_round_trip(v: u64)
    ensures
        u64_of_i64(i64_of_u64(v)) == v,
{
}

/// Reads the unsigned 16-bit value stored big-endian at `pos`.
pub fn read_u16(buf: &Vec<u8>, pos: usize) -> (r: u16)
    requires
        pos + 2 <= buf@.len(),
    ensures
        be16(r) == buf@.subrange(pos as int, pos as int + 2),
{
    let n = buf.len();
    let b0 = buf[pos] as u16;
    let b1 = buf[pos + 1] as u16;
    let v = b0 * 0x100 + b1;
    proof {
        assert(be16(v) =~= buf@.subrange(pos as int, pos as int + 2));
    }
    v
}

/// Reads the unsigned 32-bit value stored big-endian at `pos`.
pub fn read_u32(buf: &Vec<u8>, pos: usize) -> (r: u32)
    requires
        pos + 4 <= buf@.len(),
    ensures
        be32(r) == buf@.subrange(pos as int, pos as int + 4),
{
    let n = buf.len();
    let hi = read_u16(buf, pos);
    let lo = read_u16(buf, pos + 2);
    let v = (hi as u32) * 0x10000 + (lo as u32);
    proof {
        assert(v / 0x10000 == hi && v % 0x10000 == lo);
        assert(be32(v) =~= buf@.subrange(pos as int, pos as int + 4));
    }
    v
}

/// Reads the unsigned 64-bit value stored big-endian at `pos`.
pub fn read_u64(buf: &Vec<u8>, pos: usize) -> (r: u64)
    requires
        pos + 8 <= buf@.len(),
    ensures
        be64(r) == buf@.subrange(pos as int, pos as int + 8),
{
    let n = buf.len();
    let hi = read_u32(buf, pos);
    let lo = read_u32(buf, pos + 4);
    let v = (hi as u64) * 0x100000000 + (lo as u64);
    proof {
        assert(v / 0x100000000 == hi && v % 0x100000000 == lo);
        assert(be64(v) =~= buf@.subrange(pos as int, pos as int + 8));
    }
    v
}

/// Appends the big-endian image of a 16-bit value.
pub fn push_u16(out: &mut Vec<u8>, v: u16)
    ensures
        final(out)@ == old(out)@ + be16(v),
{
    out.push((v / 0x100) as u8);
    out.push((v % 0x100) as u8);
    proof {
        assert(out@ =~= old(out)@ + be16(v));
    }
}

/// Appends the big-endian image of a 32-bit value.
pub fn push_u32(out: &mut Vec<u8>, v: u32)
    ensures
        final(out)@ == old(out)@ + be32(v),
{
    push_u16(out, (v / 0x10000) as u16);
    push_u16(out, (v % 0x10000) as u16);
    proof {
        assert(out@ =~= old(out)@ + be32(v));
    }
}

/// Appends the big-endian image of a 64-bit value.
pub fn push_u64(out: &mut Vec<u8>, v: u64)
    ensures
        final(out)@ == old(out)@ + be64(v),
{
    push_u32(out, (v / 0x100000000) as u32);
    push_u32(out, (v % 0x100000000) as u32);
    proof {
        assert(out@ =~= old(out)@ + be64(v));
    }
}

/// Converts a signed 16-bit value to its two's-complement image.
pub fn i16_to_u16(v: i16) -> (r: u16)
    ensures
        r == u16_of_i16(v),
{
    if v >= 0 {
        v as u16
    } else {
        ((v as i32) + 0x10000) as u16
    }
}

/// Reads a two's-complement 16-bit image as a signed value.
pub fn u16_to_i16(v: u16) -> (r: i16)
    ensures
        r == i16_of_u16(v),
{
    if v < 0x8000 {
        v as i16
    } else {
        ((v as i32) - 0x10000) as i16
    }
}

/// Converts a signed 32-bit value to its two's-complement image.
pub fn i32_to_u32(v: i32) -> (r: u32)
    ensures
        r == u32_of_i32(v),
{
    if v >= 0 {
        v as u32
    } else {
        ((v as i64) + 0x100000000) as u32
    }
}

/// Reads a two's-complement 32-bit image as a signed value.
pub fn u32_to_i32(v: u32) -> (r: i32)
    ensures
        r == i32_of_u32(v),
{
    if v < 0x80000000 {
        v as i32
    } else {
        ((v as i64) - 0x100000000) as i32
    }
}

/// Converts a signed 64-bit value to its two's-complement image.
pub fn i64_to_u64(v: i64) -> (r: u64)
    ensures
        r == u64_of_i64(v),
{
    if v >= 0 {
        v as u64
    } else {
        ((v as i128) + 0x10000000000000000) as u64
    }
}

/// Reads a two's-complement 64-bit image as a signed value.
pub fn u64_to_i64(v: u64) -> (r: i64)
    ensures
        r == i64_of_u64(v),
{
    if v < 0x8000000000000000 {
        v as i64
    } else {
        ((v as i128) - 0x10000000000000000) as i64
    }
}

} // verus!
