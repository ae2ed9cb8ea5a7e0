//! The protocol frame codec: header and body over a byte stream.
//!
//! A frame is an eight-bit version, eight-bit flags, a sixteen-bit
//! stream id, an eight-bit opcode and a 32-bit body length, all
//! big-endian, followed by that many body bytes. Decoding is a pure
//! transform over an immutable window: a caller must buffer header
//! plus declared body length before a frame comes out, an unknown
//! opcode is malformed, and neither case reads out of bounds.

use vstd::prelude::*;

use crate::codec::prefix_of;
use crate::wire::{be16, be32, lemma_be16_val, lemma_be32_val, read_u16, read_u32, push_u16,
    push_u32};

verus! {

/// The request and response kinds the protocol names.
#[derive(Debug, Clone, Copy, PartialEq, Eq, Structural)]
pub enum Opcode {
    ErrorResponse,
    Startup,
    Options,
    Supported,
    Query,
    QueryResult,
    Prepare,
    Execute,
}

/// The wire byte of each opcode, as the protocol publishes it.
pub open spec fn opcode_byte(op: Opcode) -> u8 {
    match op {
        Opcode::ErrorResponse => 0x00,
        Opcode::Startup => 0x01,
        Opcode::Options => 0x05,
        Opcode::Supported => 0x06,
        Opcode::Query => 0x07,
        Opcode::QueryResult => 0x08,
        Opcode::Prepare => 0x09,
        Opcode::Execute => 0x0a,
    }
}

/// The opcode a wire byte denotes, if any.
pub open spec fn spec_opcode_of_byte(b: u8) -> Option<Opcode> {
    if b == 0x00 {
        Some(Opcode::ErrorResponse)
    } else if b == 0x01 {
        Some(Opcode::Startup)
    } else if b == 0x05 {
        Some(Opcode::Options)
    } else if b == 0x06 {
        Some(Opcode::Supported)
    } else if b == 0x07 {
        Some(Opcode::Query)
    } else if b == 0x08 {
        Some(Opcode::QueryResult)
    } else if b == 0x09 {
        Some(Opcode::Prepare)
    } else if b == 0x0a {
        Some(Opcode::Execute)
    } else {
        None
    }
}

pub proof fn lemma_opcode_byte_round_trip(op: Opcode)
    ensures
        spec_opcode_of_byte(opcode_byte(op)) == Some(op),
{
}

/// Translates the opcode byte of a received header.
pub fn opcode_of_byte(b: u8) -> (r: Option<Opcode>)
    ensures
        r == spec_opcode_of_byte(b),
{
    if b == 0x00 {
        Some(Opcode::ErrorResponse)
    } else if b == 0x01 {
        Some(Opcode::Startup)
    } else if b == 0x05 {
        Some(Opcode::Options)
    } else if b == 0x06 {
        Some(Opcode::Supported)
    } else if b == 0x07 {
        Some(Opcode::Query)
    } else if b == 0x08 {
        Some(Opcode::QueryResult)
    } else if b == 0x09 {
        Some(Opcode::Prepare)
    } else if b == 0x0a {
        Some(Opcode::Execute)
    } else {
        None
    }
}

/// One protocol message: header fields and opaque body bytes.
#[derive(Debug, PartialEq, Eq)]
pub struct Frame {
    pub version: u8,
    pub flags: u8,
    pub stream: u16,
    pub opcode: Opcode,
    pub body: Vec<u8>,
}

/// The body must be expressible in the 32-bit length field.
pub open spec fn wf_frame(f: Frame) -> bool {
    f.body@.len() <= 0xffffffff
}

/// The wire image of a frame.
pub open spec fn enc_frame(f: Frame) -> Seq<u8> {
    seq![f.version, f.flags] + be16(f.stream) + seq![opcode_byte(f.opcode)] + be32(
        f.body@.len() as u32,
    ) + f.body@
}

pub proof fn lemma_enc_frame_shape(f: Frame)
    ensures
        enc_frame(f).len() == 9 + f.body@.len(),
        enc_frame(f)[0] == f.version,
        enc_frame(f)[1] == f.flags,
        enc_frame(f).subrange(2, 4) == be16(f.stream),
        enc_frame(f)[4] == opcode_byte(f.opcode),
        enc_frame(f).subrange(5, 9) == be32(f.body@.len() as u32),
        enc_frame(f).skip(9) == f.body@,
{
    lemma_be16_val(f.stream);
    lemma_be32_val(f.body@.len() as u32);
    assert(enc_frame(f).subrange(2, 4) =~= be16(f.stream));
    assert(enc_frame(f).subrange(5, 9) =~= be32(f.body@.len() as u32));
    assert(enc_frame(f).skip(9) =~= f.body@);
}

/// Frames on one stream are unambiguous: two well-formed frames
/// whose images open the same stream have equal headers and equal
/// body bytes.
pub proof fn lemma_frame_unique(f1: Frame, f2: Frame, s: Seq<u8>)
    requires
        wf_frame(f1),
        wf_frame(f2),
        prefix_of(enc_frame(f1), s),
        prefix_of(enc_frame(f2), s),
    ensures
        f1.version == f2.version,
        f1.flags == f2.flags,
        f1.stream == f2.stream,
        f1.opcode == f2.opcode,
        f1.body@ == f2.body@,
{
    lemma_enc_frame_shape(f1);
    lemma_enc_frame_shape(f2);
    crate::codec::lemma_prefix_head(enc_frame(f1), s, 9);
    crate::codec::lemma_prefix_head(enc_frame(f2), s, 9);
    assert forall|k: int| 0 <= k < 9 implies enc_frame(f1)[k] == enc_frame(f2)[k] by {
        assert(enc_frame(f1).subrange(0, 9)[k] == s.subrange(0, 9)[k]);
        assert(enc_frame(f2).subrange(0, 9)[k] == s.subrange(0, 9)[k]);
    }
    assert(enc_frame(f1).subrange(2, 4) =~= enc_frame(f2).subrange(2, 4));
    lemma_be16_val(f1.stream);
    lemma_be16_val(f2.stream);
    assert(enc_frame(f1).subrange(5, 9) =~= enc_frame(f2).subrange(5, 9));
    lemma_be32_val(f1.body@.len() as u32);
    lemma_be32_val(f2.body@.len() as u32);
    lemma_opcode_byte_round_trip(f1.opcode);
    lemma_opcode_byte_round_trip(f2.opcode);
    assert(f1.body@.len() == f2.body@.len());
    assert forall|k: int| 0 <= k < f1.body@.len() implies f1.body@[k] == f2.body@[k] by {
        assert(enc_frame(f1)[9 + k] == f1.body@[k]);
        assert(enc_frame(f2)[9 + k] == f2.body@[k]);
        assert(enc_frame(f1)[9 + k] == s.subrange(0, enc_frame(f1).len() as int)[9 + k]);
        assert(enc_frame(f2)[9 + k] == s.subrange(0, enc_frame(f2).len() as int)[9 + k]);
    }
    assert(f1.body@ =~= f2.body@);
}

/// Encodes a frame for the wire.
pub fn encode_frame(f: &Frame) -> (r: Vec<u8>)
    requires
        wf_frame(*f),
    ensures
        r@ == enc_frame(*f),
{
    let mut out: Vec<u8> = Vec::new();
    out.push(f.version);
    out.push(f.flags);
    push_u16(&mut out, f.stream);
    let opb = match f.opcode {
        Opcode::ErrorResponse => 0x00,
        Opcode::Startup => 0x01,
        Opcode::Options => 0x05,
        Opcode::Supported => 0x06,
        Opcode::Query => 0x07,
        Opcode::QueryResult => 0x08,
        Opcode::Prepare => 0x09,
        Opcode::Execute => 0x0a,
    };
    out.push(opb);
    push_u32(&mut out, f.body.len() as u32);
    let mut body = crate::codec::copy_whole(&f.body);
    out.append(&mut body);
    proof {
        assert(out@ =~= enc_frame(*f));
    }
    out
}

/// What one decode attempt over a buffered window yields.
#[derive(Debug, PartialEq, Eq)]
pub enum FrameOutcome {
    /// A whole frame, and how many bytes of the window it used.
    Complete(Frame, usize),
    /// The window holds less than header plus declared body length.
    Incomplete,
    /// The window cannot open with any frame: unknown opcode.
    Malformed,
}

/// Decodes at most one frame from the front of the window, without
/// retaining or mutating it. An accepted frame re-encodes to the
/// very bytes used; when the window is too short or malformed, no
/// well-formed frame's image opens it.
pub fn decode_frame(buf: &Vec<u8>) -> (r: FrameOutcome)
    ensures
        r matches FrameOutcome::Complete(f, used) ==> {
            &&& wf_frame(f)
            &&& 9 <= used <= buf@.len()
            &&& enc_frame(f) == buf@.subrange(0, used as int)
        },
        r is Incomplete || r is Malformed ==> forall|f: Frame|
            #[trigger] wf_frame(f) ==> !prefix_of(enc_frame(f), buf@),
{
    let n = buf.len();
    if n < 9 {
        proof {
            assert forall|f: Frame| #[trigger] wf_frame(f) implies !prefix_of(
                enc_frame(f),
                buf@,
            ) by {
                lemma_enc_frame_shape(f);
            }
        }
        return FrameOutcome::Incomplete;
    }
    let version = buf[0];
    let flags = buf[1];
    let stream = read_u16(buf, 2);
    let opb = buf[4];
    let len_word = read_u32(buf, 5);
    proof {
        assert(buf@.subrange(0, 9).subrange(2, 4) =~= buf@.subrange(2, 4));
        assert(buf@.subrange(0, 9).subrange(5, 9) =~= buf@.subrange(5, 9));
    }
    match opcode_of_byte(opb) {
        None => {
            proof {
                assert forall|f: Frame| #[trigger] wf_frame(f) implies !prefix_of(
                    enc_frame(f),
                    buf@,
                ) by {
                    if prefix_of(enc_frame(f), buf@) {
                        lemma_enc_frame_shape(f);
                        assert(enc_frame(f)[4] == buf@.subrange(
                            0,
                            enc_frame(f).len() as int,
                        )[4]);
                        lemma_opcode_byte_round_trip(f.opcode);
                        assert(false);
                    }
                }
            }
            FrameOutcome::Malformed
        },
        Some(op) => {
            if ((n - 9) as u64) < (len_word as u64) {
                proof {
                    assert forall|f: Frame| #[trigger] wf_frame(f) implies !prefix_of(
                        enc_frame(f),
                        buf@,
                    ) by {
                        if prefix_of(enc_frame(f), buf@) {
                            lemma_enc_frame_shape(f);
                            crate::codec::lemma_prefix_head(enc_frame(f), buf@, 9);
                            assert(enc_frame(f).subrange(0, 9).subrange(5, 9) =~= enc_frame(
                                f,
                            ).subrange(5, 9));
                            assert(be32(f.body@.len() as u32) == be32(len_word));
                            lemma_be32_val(f.body@.len() as u32);
                            lemma_be32_val(len_word);
                            assert(f.body@.len() == len_word);
                            assert(false);
                        }
                    }
                }
                FrameOutcome::Incomplete
            } else {
                let blen = len_word as usize;
                let body = crate::codec::copy_range(buf, 9, 9 + blen);
                let f = Frame { version, flags, stream, opcode: op, body };
                proof {
                    lemma_enc_frame_shape(f);
                    assert(opcode_byte(f.opcode) == opb) by {
                        lemma_opcode_byte_round_trip(f.opcode);
                    }
                    assert(enc_frame(f) =~= buf@.subrange(0, 9 + blen as int));
                }
                FrameOutcome::Complete(f, 9 + blen)
            }
        },
    }
}

} // verus!
