//! Frame codec: pure encoding and decoding of a single wire frame.
//!
//! The wire layout is: `byte0 = fin << 7 | opcode`, `byte1 = mask << 7 |
//! length-field`, where a length field of at most 125 is the payload length
//! itself, 126 announces a 16-bit big-endian length, and 127 a 64-bit
//! big-endian length; then the 4-byte masking key iff `mask` is set; then the
//! payload, XOR-masked iff `mask` is set.

use rand::Rng;

use vstd::prelude::*;

use crate::errors::WireError;

verus! {

/// The closed 4-bit enumeration of frame purposes; any other value is invalid.
#[derive(Debug, Clone, Copy, PartialEq, Eq, Structural)]
pub enum Opcode {
    ContinuationFrame,
    TextFrame,
    BinaryFrame,
    Close,
    Ping,
    Pong,
}

impl Opcode {
    /// The 4-bit wire code of this opcode.
    pub open spec fn as_u8(self) -> u8 {
        match self {
            Opcode::ContinuationFrame => 0x0,
            Opcode::TextFrame => 0x1,
            Opcode::BinaryFrame => 0x2,
            Opcode::Close => 0x8,
            Opcode::Ping => 0x9,
            Opcode::Pong => 0xa,
        }
    }

    /// Which opcode, if any, a 4-bit wire value denotes.
    pub open spec fn spec_from_u8(value: u8) -> Option<Opcode> {
        match value {
            0x0 => Some(Opcode::ContinuationFrame),
            0x1 => Some(Opcode::TextFrame),
            0x2 => Some(Opcode::BinaryFrame),
            0x8 => Some(Opcode::Close),
            0x9 => Some(Opcode::Ping),
            0xa => Some(Opcode::Pong),
            _ => None,
        }
    }

    pub fn to_u8(self) -> (r: u8)
        ensures
            r == self.as_u8(),
    {
        match self {
            Opcode::ContinuationFrame => 0x0,
            Opcode::TextFrame => 0x1,
            Opcode::BinaryFrame => 0x2,
            Opcode::Close => 0x8,
            Opcode::Ping => 0x9,
            Opcode::Pong => 0xa,
        }
    }

    /// Decode a 4-bit wire value; an undefined value is an error, never a
    /// silent default.
    pub fn from_u8(value: u8) -> (r: Result<Opcode, WireError>)
        ensures
            r == match Opcode::spec_from_u8(value) {
                Some(op) => Result::<Opcode, WireError>::Ok(op),
                None => Result::<Opcode, WireError>::Err(WireError::InvalidOpcode(value)),
            },
    {
        match value {
            0x0 => Ok(Opcode::ContinuationFrame),
            0x1 => Ok(Opcode::TextFrame),
            0x2 => Ok(Opcode::BinaryFrame),
            0x8 => Ok(Opcode::Close),
            0x9 => Ok(Opcode::Ping),
            0xa => Ok(Opcode::Pong),
            _ => Err(WireError::InvalidOpcode(value)),
        }
    }
}

/// XOR a payload with a 4-byte key, key byte index = payload byte index mod 4.
pub open spec fn mask_seq(data: Seq<u8>, key: Seq<u8>) -> Seq<u8>
    recommends
        key.len() == 4,
{
    Seq::new(data.len(), |i: int| data[i] ^ key[i % 4])
}

/// Masking twice with the same key is the identity: XOR masking is an
/// involution.
pub proof fn lemma_mask_involution(data: Seq<u8>, key: Seq<u8>)
    requires
        key.len() == 4,
    ensures
        mask_seq(mask_seq(data, key), key) == data,
{
    let once = mask_seq(data, key);
    assert forall|i: int| 0 <= i < data.len() implies mask_seq(once, key)[i] == data[i] by {
        let d = data[i];
        let k = key[i % 4];
        assert((d ^ k) ^ k == d) by (bit_vector);
    }
    assert(mask_seq(mask_seq(data, key), key) =~= data);
}

/// A decoded frame header. `payload_len` is the actual byte length, already
/// decoded from whichever of the three wire representations carried it, and
/// `masking_key` is present exactly when `mask` is set.
#[derive(Debug, Clone, Copy)]
pub struct FrameHeader {
    pub fin: bool,
    pub opcode: Opcode,
    pub mask: bool,
    pub payload_len: usize,
    pub masking_key: Option<[u8; 4]>,
}

impl FrameHeader {
    /// A masked header carries a key; an unmasked one does not.
    pub open spec fn wf(self) -> bool {
        self.mask <==> self.masking_key is Some
    }
}

/// A frame: a header plus its payload, already unmasked if it was masked on
/// the wire.
#[derive(Debug)]
pub struct Frame {
    pub header: FrameHeader,
    pub payload: Vec<u8>,
}

impl Frame {
    pub open spec fn wf(self) -> bool {
        &&& self.header.wf()
        &&& self.payload@.len() == self.header.payload_len
    }

    pub open spec fn model(self) -> FrameModel {
        FrameModel {
            fin: self.header.fin,
            opcode: self.header.opcode,
            mask: self.header.mask,
            payload: self.payload@,
            masking_key: spec_key_view(self.header.masking_key),
        }
    }
}

/// The mathematical content of one frame; `payload` is the unmasked
/// application payload.
#[verifier::ext_equal]
pub struct FrameModel {
    pub fin: bool,
    pub opcode: Opcode,
    pub mask: bool,
    pub payload: Seq<u8>,
    pub masking_key: Option<Seq<u8>>,
}

impl FrameModel {
    pub open spec fn wf(self) -> bool {
        &&& (self.mask <==> self.masking_key is Some)
        &&& match self.masking_key {
            Some(k) => k.len() == 4,
            None => true,
        }
    }
}

pub open spec fn spec_key_view(key: Option<[u8; 4]>) -> Option<Seq<u8>> {
    match key {
        Some(k) => Some(k@),
        None => None,
    }
}

/// First header byte: the fin flag in bit 7, the opcode in bits 0-3.
pub open spec fn spec_byte0(fin: bool, opcode: Opcode) -> u8 {
    ((if fin {
        128int
    } else {
        0int
    }) + opcode.as_u8()) as u8
}

/// The 7-bit base length field: the length itself up to 125, then 126 or 127
/// announcing a 16-bit or 64-bit extended length.
pub open spec fn spec_len_base(len: nat) -> u8 {
    if len <= 125 {
        len as u8
    } else if len <= 65535 {
        126
    } else {
        127
    }
}

/// Second header byte: the mask flag in bit 7, the base length in bits 0-6.
pub open spec fn spec_byte1(mask: bool, len: nat) -> u8 {
    ((if mask {
        128int
    } else {
        0int
    }) + spec_len_base(len)) as u8
}

/// The extended length bytes: none, or the length big-endian in 2 or 8 bytes.
pub open spec fn spec_len_ext(len: nat) -> Seq<u8> {
    if len <= 125 {
        Seq::<u8>::empty()
    } else if len <= 65535 {
        seq![(len / 256) as u8, (len % 256) as u8]
    } else {
        seq![
            ((len / 0x100000000000000) % 256) as u8,
            ((len / 0x1000000000000) % 256) as u8,
            ((len / 0x10000000000) % 256) as u8,
            ((len / 0x100000000) % 256) as u8,
            ((len / 0x1000000) % 256) as u8,
            ((len / 0x10000) % 256) as u8,
            ((len / 0x100) % 256) as u8,
            (len % 256) as u8,
        ]
    }
}

/// All header bytes: the two flag bytes, the extended length, then the
/// masking key if one is present.
pub open spec fn spec_header_bytes(
    fin: bool,
    opcode: Opcode,
    mask: bool,
    len: nat,
    key: Option<Seq<u8>>,
) -> Seq<u8> {
    seq![spec_byte0(fin, opcode), spec_byte1(mask, len)] + spec_len_ext(len) + match key {
        Some(k) => k,
        None => Seq::<u8>::empty(),
    }
}

/// The full wire bytes of a frame: header, then the payload, masked iff the
/// frame is masked.
pub open spec fn spec_frame_bytes(m: FrameModel) -> Seq<u8> {
    spec_header_bytes(m.fin, m.opcode, m.mask, m.payload.len(), m.masking_key) + match m
        .masking_key {
        Some(k) => mask_seq(m.payload, k),
        None => m.payload,
    }
}

/// XOR each payload byte with the masking-key byte for its position.
pub fn apply_mask(data: &[u8], key: &[u8; 4]) -> (r: Vec<u8>)
    ensures
        r@ == mask_seq(data@, key@),
{
    let mut out: Vec<u8> = Vec::new();
    let mut i: usize = 0;
    while i < data.len()
        invariant
            i <= data@.len(),
            out@ == mask_seq(data@.take(i as int), key@),
        decreases data@.len() - i,
    {
        out.push(data[i] ^ key[i % 4]);
        proof {
            assert(out@ =~= mask_seq(data@.take(i + 1), key@));
        }
        i = i + 1;
    }
    proof {
        assert(data@.take(data@.len() as int) =~= data@);
    }
    out
}

/// A 16-bit big-endian value.
pub open spec fn be16(b0: u8, b1: u8) -> nat {
    (b0 as nat) * 256 + (b1 as nat)
}

/// A 64-bit big-endian value.
pub open spec fn be64(b: Seq<u8>) -> nat
    recommends
        b.len() == 8,
{
    (b[0] as nat) * 0x100000000000000 + (b[1] as nat) * 0x1000000000000 + (b[2] as nat)
        * 0x10000000000 + (b[3] as nat) * 0x100000000 + (b[4] as nat) * 0x1000000 + (b[5] as nat)
        * 0x10000 + (b[6] as nat) * 0x100 + (b[7] as nat)
}

/// What decoding a byte sequence as one frame yields: the frame and the
/// number of bytes it occupied, or the error mandated for that input.
pub open spec fn spec_decode_frame(data: Seq<u8>) -> Result<(FrameModel, nat), WireError> {
    if data.len() < 2 {
        Err(WireError::FrameTruncated)
    } else {
        let b0 = data[0];
        let b1 = data[1];
        let fin = b0 >= 128;
        match Opcode::spec_from_u8((b0 % 16) as u8) {
            None => Err(WireError::InvalidOpcode((b0 % 16) as u8)),
            Some(opcode) => {
                let mask = b1 >= 128;
                let base = (b1 % 128) as nat;
                if base <= 125 {
                    spec_decode_tail(data, fin, opcode, mask, 2, base)
                } else if base == 126 {
                    if data.len() < 4 {
                        Err(WireError::FrameTruncated)
                    } else {
                        spec_decode_tail(data, fin, opcode, mask, 4, be16(data[2], data[3]))
                    }
                } else {
                    if data.len() < 10 {
                        Err(WireError::FrameTruncated)
                    } else {
                        spec_decode_tail(data, fin, opcode, mask, 10, be64(data.subrange(2, 10)))
                    }
                }
            },
        }
    }
}

/// The rest of decoding once the flags and payload length are known: the
/// masking key if `mask` is set, then exactly `len` payload bytes, unmasked
/// before they are handed out.
pub open spec fn spec_decode_tail(
    data: Seq<u8>,
    fin: bool,
    opcode: Opcode,
    mask: bool,
    off: nat,
    len: nat,
) -> Result<(FrameModel, nat), WireError> {
    if len > usize::MAX {
        Err(WireError::FrameTooLong)
    } else if mask {
        if data.len() < off + 4 + len {
            Err(WireError::FrameTruncated)
        } else {
            let key = data.subrange(off as int, (off + 4) as int);
            Ok(
                (
                    FrameModel {
                        fin,
                        opcode,
                        mask: true,
                        payload: mask_seq(
                            data.subrange((off + 4) as int, (off + 4 + len) as int),
                            key,
                        ),
                        masking_key: Some(key),
                    },
                    off + 4 + len,
                ),
            )
        }
    } else {
        if data.len() < off + len {
            Err(WireError::FrameTruncated)
        } else {
            Ok(
                (
                    FrameModel {
                        fin,
                        opcode,
                        mask: false,
                        payload: data.subrange(off as int, (off + len) as int),
                        masking_key: None,
                    },
                    off + len,
                ),
            )
        }
    }
}

/// Serialize a frame header using the three-tier length rule; the key bytes
/// follow the length iff the header carries one.
pub fn encode_header(h: &FrameHeader) -> (r: Vec<u8>)
    requires
        h.wf(),
    ensures
        r@ == spec_header_bytes(
            h.fin,
            h.opcode,
            h.mask,
            h.payload_len as nat,
            spec_key_view(h.masking_key),
        ),
{
    let mut out: Vec<u8> = Vec::new();
    let op = h.opcode.to_u8();
    out.push(if h.fin {
        128 + op
    } else {
        op
    });
    let len = h.payload_len;
    let mask_bit: u8 = if h.mask {
        128
    } else {
        0
    };
    if len <= 125 {
        out.push(mask_bit + (len as u8));
    } else if len <= 65535 {
        out.push(mask_bit + 126);
        out.push((len / 256) as u8);
        out.push((len % 256) as u8);
    } else {
        out.push(mask_bit + 127);
        let x = len as u64;
        out.push(((x / 0x100000000000000) % 256) as u8);
        out.push(((x / 0x1000000000000) % 256) as u8);
        out.push(((x / 0x10000000000) % 256) as u8);
        out.push(((x / 0x100000000) % 256) as u8);
        out.push(((x / 0x1000000) % 256) as u8);
        out.push(((x / 0x10000) % 256) as u8);
        out.push(((x / 0x100) % 256) as u8);
        out.push((x % 256) as u8);
    }
    if let Some(key) = &h.masking_key {
        out.push(key[0]);
        out.push(key[1]);
        out.push(key[2]);
        out.push(key[3]);
    }
    proof {
        assert(out@ =~= spec_header_bytes(
            h.fin,
            h.opcode,
            h.mask,
            h.payload_len as nat,
            spec_key_view(h.masking_key),
        ));
    }
    out
}

/// Decode one frame from the front of a buffer: the frame (its payload
/// already unmasked) and the number of bytes it occupied, or the error
/// mandated for this input by `spec_decode_frame`.
#[verifier::rlimit(50)]
pub fn decode_frame(data: &[u8]) -> (r: Result<(Frame, usize), WireError>)
    ensures
        ({
            let d = spec_decode_frame(data@);
            match r {
                Ok(p) => {
                    &&& d matches Ok(q) && p.0.model() == q.0 && p.1 as nat == q.1
                    &&& p.0.wf()
                },
                Err(e) => d matches Err(e2) && e == e2,
            }
        }),
{
    if data.len() < 2 {
        return Err(WireError::FrameTruncated);
    }
    let b0 = data[0];
    let b1 = data[1];
    let fin = b0 >= 128;
    let opcode = match Opcode::from_u8(b0 % 16) {
        Ok(op) => op,
        Err(e) => {
            return Err(e);
        },
    };
    let mask = b1 >= 128;
    let base = b1 % 128;
    let off: usize;
    let len: usize;
    if base <= 125 {
        off = 2;
        len = base as usize;
    } else if base == 126 {
        if data.len() < 4 {
            return Err(WireError::FrameTruncated);
        }
        off = 4;
        len = (data[2] as usize) * 256 + (data[3] as usize);
    } else {
        if data.len() < 10 {
            return Err(WireError::FrameTruncated);
        }
        off = 10;
        let x: u64 = (data[2] as u64) * 0x100000000000000 + (data[3] as u64) * 0x1000000000000 + (
        data[4] as u64) * 0x10000000000 + (data[5] as u64) * 0x100000000 + (data[6] as u64)
            * 0x1000000 + (data[7] as u64) * 0x10000 + (data[8] as u64) * 0x100 + (data[9] as u64);
        proof {
            assert(x as nat == be64(data@.subrange(2, 10)));
        }
        if x > usize::MAX as u64 {
            return Err(WireError::FrameTooLong);
        }
        len = x as usize;
    }
    if mask {
        if data.len() < off + 4 || data.len() - (off + 4) < len {
            return Err(WireError::FrameTruncated);
        }
        let key: [u8; 4] = [data[off], data[off + 1], data[off + 2], data[off + 3]];
        proof {
            assert(key@ =~= data@.subrange(off as int, (off + 4) as int));
        }
        let masked = vstd::slice::slice_subrange(data, off + 4, off + 4 + len);
        let payload = apply_mask(masked, &key);
        let header = FrameHeader { fin, opcode, mask: true, payload_len: len, masking_key: Some(key) };
        let f = Frame { header, payload };
        proof {
            let q = spec_decode_tail(data@, fin, opcode, true, off as nat, len as nat);
            assert(f.model() =~= q->Ok_0.0);
        }
        Ok((f, off + 4 + len))
    } else {
        if data.len() < off || data.len() - off < len {
            return Err(WireError::FrameTruncated);
        }
        let payload = vstd::slice::slice_to_vec(vstd::slice::slice_subrange(data, off, off + len));
        let header = FrameHeader { fin, opcode, mask: false, payload_len: len, masking_key: None };
        let f = Frame { header, payload };
        proof {
            let q = spec_decode_tail(data@, fin, opcode, false, off as nat, len as nat);
            assert(f.model() =~= q->Ok_0.0);
        }
        Ok((f, off + len))
    }
}

/// Serialize one single-frame message: `fin` is always set, and the payload
/// is masked exactly when a key is supplied (client-originated frames).
pub fn encode_frame(opcode: Opcode, payload: &[u8], masking_key: Option<[u8; 4]>) -> (r: Vec<u8>)
    ensures
        r@ == spec_frame_bytes(
            FrameModel {
                fin: true,
                opcode,
                mask: masking_key is Some,
                payload: payload@,
                masking_key: spec_key_view(masking_key),
            },
        ),
{
    let header = FrameHeader {
        fin: true,
        opcode,
        mask: masking_key.is_some(),
        payload_len: payload.len(),
        masking_key,
    };
    let mut out = encode_header(&header);
    match &header.masking_key {
        Some(key) => {
            let masked = apply_mask(payload, key);
            crate::byteops::push_bytes(&mut out, masked.as_slice());
        },
        None => {
            crate::byteops::push_bytes(&mut out, payload);
        },
    }
    out
}

/// How many extended-length bytes follow a header whose second byte is `b1`.
pub open spec fn spec_ext_len_count(base: nat) -> nat {
    if base <= 125 {
        0
    } else if base == 126 {
        2
    } else {
        8
    }
}

/// How many extended-length bytes a reader must take after the flag bytes.
pub fn ext_len_count(b1: u8) -> (r: usize)
    ensures
        r as nat == spec_ext_len_count((b1 % 128) as nat),
{
    let base = b1 % 128;
    if base <= 125 {
        0
    } else if base == 126 {
        2
    } else {
        8
    }
}

/// Whether the mask bit (bit 7) of the second header byte is set.
pub fn mask_bit_set(b1: u8) -> (r: bool)
    ensures
        r == (b1 >= 128),
{
    b1 >= 128
}

/// The payload length a header announces: the base field itself, or the
/// big-endian value of the extension bytes; one that does not fit this
/// machine's `usize` is an error.
pub fn decode_payload_len(b1: u8, ext: &[u8]) -> (r: Result<usize, WireError>)
    requires
        ext@.len() == spec_ext_len_count((b1 % 128) as nat),
    ensures
        ({
            let base = (b1 % 128) as nat;
            let v: nat = if base <= 125 {
                base
            } else if base == 126 {
                be16(ext@[0], ext@[1])
            } else {
                be64(ext@)
            };
            if v > usize::MAX {
                r == Err::<usize, WireError>(WireError::FrameTooLong)
            } else {
                r == Ok::<usize, WireError>(v as usize)
            }
        }),
{
    let base = b1 % 128;
    if base <= 125 {
        Ok(base as usize)
    } else if base == 126 {
        Ok((ext[0] as usize) * 256 + (ext[1] as usize))
    } else {
        let x: u64 = (ext[0] as u64) * 0x100000000000000 + (ext[1] as u64) * 0x1000000000000 + (
        ext[2] as u64) * 0x10000000000 + (ext[3] as u64) * 0x100000000 + (ext[4] as u64) * 0x1000000
            + (ext[5] as u64) * 0x10000 + (ext[6] as u64) * 0x100 + (ext[7] as u64);
        if x > usize::MAX as u64 {
            Err(WireError::FrameTooLong)
        } else {
            Ok(x as usize)
        }
    }
}

/// Relies on rand::thread_rng and Rng::gen: a fresh 4-byte masking key,
/// randomized anew for every frame; nothing is promised of its value.
#[verifier::external_body]
fn fresh_masking_key() -> (r: [u8; 4]) {
    rand::thread_rng().gen::<[u8; 4]>()
}

/// Serialize one masked, fin-terminated text frame carrying `payload`,
/// masked under a fresh random key: what the sending half puts on the wire
/// for each outgoing message.
pub fn build_text_frame(payload: &[u8]) -> (r: Vec<u8>)
    ensures
        exists|k: Seq<u8>|
            k.len() == 4 && r@ == spec_frame_bytes(
                FrameModel {
                    fin: true,
                    opcode: Opcode::TextFrame,
                    mask: true,
                    payload: payload@,
                    masking_key: Some(k),
                },
            ),
{
    let key = fresh_masking_key();
    let out = encode_frame(Opcode::TextFrame, payload, Some(key));
    proof {
        assert(key@.len() == 4 && out@ == spec_frame_bytes(
            FrameModel {
                fin: true,
                opcode: Opcode::TextFrame,
                mask: true,
                payload: payload@,
                masking_key: Some(key@),
            },
        ));
    }
    out
}

/// Serializing an opcode to its 4-bit code and reading it back yields the
/// same opcode.
pub proof fn lemma_opcode_round_trip(op: Opcode)
    ensures
        Opcode::spec_from_u8(op.as_u8()) == Some(op),
        op.as_u8() <= 0xa,
{
    match op {
        Opcode::ContinuationFrame => {},
        Opcode::TextFrame => {},
        Opcode::BinaryFrame => {},
        Opcode::Close => {},
        Opcode::Ping => {},
        Opcode::Pong => {},
    }
}

/// The two flag bytes decode back to the fields they were built from.
proof fn lemma_flag_bytes(fin: bool, op: Opcode, mask: bool, len: nat)
    ensures
        ({
            let b0 = spec_byte0(fin, op);
            &&& (b0 >= 128 <==> fin)
            &&& b0 % 16 == op.as_u8()
        }),
        ({
            let b1 = spec_byte1(mask, len);
            &&& (b1 >= 128 <==> mask)
            &&& b1 % 128 == spec_len_base(len)
        }),
{
    lemma_opcode_round_trip(op);
    let o = op.as_u8();
    assert(o <= 15 ==> ((128 + o) as u8) % 16 == o && ((128 + o) as u8) >= 128) by (bit_vector);
    assert(o <= 15 ==> o % 16 == o && o < 128) by (bit_vector);
    let base = spec_len_base(len);
    assert(base <= 127);
    assert(base <= 127 ==> ((128 + base) as u8) % 128 == base && ((128 + base) as u8) >= 128)
        by (bit_vector);
    assert(base <= 127 ==> base % 128 == base && base < 128) by (bit_vector);
}

/// The extended length bytes recompose to the length they were built from.
proof fn lemma_len_ext_round_trip(len: nat)
    requires
        len <= usize::MAX,
    ensures
        125 < len <= 65535 ==> be16(spec_len_ext(len)[0], spec_len_ext(len)[1]) == len,
        65535 < len ==> be64(spec_len_ext(len)) == len,
{
    if 125 < len <= 65535 {
        vstd::arithmetic::div_mod::lemma_fundamental_div_mod(len as int, 256);
        assert((len / 256) < 256);
    } else if 65535 < len {
        let x: u64 = len as u64;
        assert(((x / 0x100000000000000) % 256) * 0x100000000000000 + ((x / 0x1000000000000) % 256)
            * 0x1000000000000 + ((x / 0x10000000000) % 256) * 0x10000000000 + ((x / 0x100000000)
            % 256) * 0x100000000 + ((x / 0x1000000) % 256) * 0x1000000 + ((x / 0x10000) % 256)
            * 0x10000 + ((x / 0x100) % 256) * 0x100 + (x % 256) == x) by (bit_vector);
    }
}

/// Encoding a well-formed frame and then decoding the result (with any bytes
/// following it on the stream) yields back exactly that frame, consuming
/// exactly the encoding's bytes; in particular the decoded payload is the
/// original payload and the decoded length equals its length.
#[verifier::rlimit(100)]
pub proof fn lemma_frame_round_trip(m: FrameModel, rest: Seq<u8>)
    requires
        m.wf(),
        m.payload.len() <= usize::MAX,
    ensures
        ({
            let d = spec_decode_frame(spec_frame_bytes(m) + rest);
            &&& d matches Ok(q)
            &&& q.0 == m
            &&& q.1 == spec_frame_bytes(m).len()
        }),
{
    let len = m.payload.len();
    let hdr = spec_header_bytes(m.fin, m.opcode, m.mask, len, m.masking_key);
    let body = match m.masking_key {
        Some(k) => mask_seq(m.payload, k),
        None => m.payload,
    };
    let bytes = spec_frame_bytes(m) + rest;
    assert(spec_frame_bytes(m) == hdr + body);
    assert(bytes =~= hdr + body + rest);
    let ext = spec_len_ext(len);
    let keyseq = match m.masking_key {
        Some(k) => k,
        None => Seq::<u8>::empty(),
    };
    assert(hdr =~= seq![spec_byte0(m.fin, m.opcode), spec_byte1(m.mask, len)] + ext + keyseq);
    assert(bytes[0] == spec_byte0(m.fin, m.opcode));
    assert(bytes[1] == spec_byte1(m.mask, len));
    lemma_flag_bytes(m.fin, m.opcode, m.mask, len);
    lemma_opcode_round_trip(m.opcode);
    lemma_len_ext_round_trip(len);
    let off: nat = 2 + ext.len();
    assert(hdr.len() == off + keyseq.len());
    // The length field decodes back to len, whichever tier carried it.
    if len <= 125 {
        assert((spec_byte1(m.mask, len) % 128) as nat == len);
    } else if len <= 65535 {
        assert(bytes[2] == ext[0] && bytes[3] == ext[1]);
        assert(be16(bytes[2], bytes[3]) == len);
    } else {
        assert(bytes.subrange(2, 10) =~= ext);
        assert(be64(bytes.subrange(2, 10)) == len);
    }
    // The tail: key (if any) and payload sit at their stated offsets.
    match m.masking_key {
        Some(k) => {
            assert(bytes.subrange(off as int, (off + 4) as int) =~= k);
            assert(bytes.subrange((off + 4) as int, (off + 4 + len) as int) =~= mask_seq(
                m.payload,
                k,
            ));
            lemma_mask_involution(m.payload, k);
            let d = spec_decode_frame(bytes);
            assert(d matches Ok(q) && q.0 =~= m && q.1 == spec_frame_bytes(m).len());
        },
        None => {
            assert(bytes.subrange(off as int, (off + len) as int) =~= m.payload);
            let d = spec_decode_frame(bytes);
            assert(d matches Ok(q) && q.0 =~= m && q.1 == spec_frame_bytes(m).len());
        },
    }
}

} // verus!
