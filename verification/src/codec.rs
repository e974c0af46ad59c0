//! The binary wire format of a filter: a header of twenty bytes, all numbers
//! big-endian, followed by the fingerprint bytes.
//!
//! ```text
//! offset 0..4    signature  '^' 'T' 'L' 1
//! offset 4..12   seed
//! offset 12..16  block length
//! offset 16..20  number of fingerprint bytes
//! offset 20..    the fingerprint bytes
//! ```

use vstd::prelude::*;
use crate::filter::Xor8View;

verus! {

/// METADATA_LENGTH is size that required to write size of all the
/// metadata of the serialized filter.
pub const METADATA_LENGTH: usize = 20;

/// Why a buffer does not hold a filter.
#[derive(Clone, Copy, Debug, PartialEq, Eq, Structural)]
pub enum DecodeError {
    /// The buffer is shorter than the header.
    TooShort,
    /// The first four bytes are not the signature.
    BadSignature,
    /// The header announces more fingerprint bytes than follow it.
    Truncated,
}

impl DecodeError {
    /// The error in words.
    pub fn message(&self) -> (text: &'static str)
        ensures
            text@ == (match *self {
                DecodeError::BadSignature => "File signature incorrect"@,
                _ => "invalid byte slice"@,
            }),
    {
        match self {
            DecodeError::BadSignature => "File signature incorrect",
            _ => "invalid byte slice",
        }
    }
}

/// File signature write on first 4 bytes of file.
/// ^ stands for xor
/// TL stands for filter
/// 1 stands for version 1
pub open spec fn signature_v1() -> Seq<u8> {
    seq![0x5eu8, 0x54u8, 0x4cu8, 1u8]
}

/// The four bytes of a 32-bit number, most significant first.
pub open spec fn be_bytes_u32(v: u32) -> Seq<u8> {
    seq![(v >> 24) as u8, (v >> 16) as u8, (v >> 8) as u8, v as u8]
}

/// The eight bytes of a 64-bit number, most significant first.
pub open spec fn be_bytes_u64(v: u64) -> Seq<u8> {
    seq![
        (v >> 56) as u8,
        (v >> 48) as u8,
        (v >> 40) as u8,
        (v >> 32) as u8,
        (v >> 24) as u8,
        (v >> 16) as u8,
        (v >> 8) as u8,
        v as u8,
    ]
}

/// The 32-bit number whose big-endian bytes are the first four of `b`.
pub open spec fn u32_of_be_bytes(b: Seq<u8>) -> u32 {
    ((b[0] as u32) << 24) | ((b[1] as u32) << 16) | ((b[2] as u32) << 8) | (b[3] as u32)
}

/// The 64-bit number whose big-endian bytes are the first eight of `b`.
pub open spec fn u64_of_be_bytes(b: Seq<u8>) -> u64 {
    ((b[0] as u64) << 56) | ((b[1] as u64) << 48) | ((b[2] as u64) << 40) | ((b[3] as u64) << 32)
        | ((b[4] as u64) << 24) | ((b[5] as u64) << 16) | ((b[6] as u64) << 8) | (b[7] as u64)
}

/// The bytes that a filter is written as. The pending keys are no part of it.
pub open spec fn spec_encode(v: Xor8View) -> Seq<u8> {
    signature_v1() + be_bytes_u64(v.seed) + be_bytes_u32(v.block_length) + be_bytes_u32(
        v.finger_prints.len() as u32,
    ) + v.finger_prints
}

/// The filter that a buffer holds, or why it holds none.
pub open spec fn spec_decode(buf: Seq<u8>) -> Result<Xor8View, DecodeError> {
    if buf.len() < METADATA_LENGTH {
        Err(DecodeError::TooShort)
    } else if buf.subrange(0, 4) != signature_v1() {
        Err(DecodeError::BadSignature)
    } else if buf.len() - METADATA_LENGTH < u32_of_be_bytes(buf.subrange(16, 20)) {
        Err(DecodeError::Truncated)
    } else {
        Ok(
            Xor8View {
                seed: u64_of_be_bytes(buf.subrange(4, 12)),
                block_length: u32_of_be_bytes(buf.subrange(12, 16)),
                finger_prints: buf.subrange(
                    METADATA_LENGTH as int,
                    METADATA_LENGTH + u32_of_be_bytes(buf.subrange(16, 20)),
                ),
                keys: None,
            },
        )
    }
}

/// Four big-endian bytes read back give the number they were written from.
pub proof fn lemma_u32_be_round_trip(v: u32)
    ensures
        u32_of_be_bytes(be_bytes_u32(v)) == v,
{
    let b0 = (v >> 24) as u8;
    let b1 = (v >> 16) as u8;
    let b2 = (v >> 8) as u8;
    let b3 = v as u8;
    assert((((b0 as u32) << 24) | ((b1 as u32) << 16) | ((b2 as u32) << 8) | (b3 as u32)) == v)
        by (bit_vector)
        requires
            b0 == (v >> 24) as u8,
            b1 == (v >> 16) as u8,
            b2 == (v >> 8) as u8,
            b3 == v as u8,
    ;
}

/// Eight big-endian bytes read back give the number they were written from.
pub proof fn lemma_u64_be_round_trip(v: u64)
    ensures
        u64_of_be_bytes(be_bytes_u64(v)) == v,
{
    let b0 = (v >> 56) as u8;
    let b1 = (v >> 48) as u8;
    let b2 = (v >> 40) as u8;
    let b3 = (v >> 32) as u8;
    let b4 = (v >> 24) as u8;
    let b5 = (v >> 16) as u8;
    let b6 = (v >> 8) as u8;
    let b7 = v as u8;
    assert((((b0 as u64) << 56) | ((b1 as u64) << 48) | ((b2 as u64) << 40) | ((b3 as u64) << 32)
        | ((b4 as u64) << 24) | ((b5 as u64) << 16) | ((b6 as u64) << 8) | (b7 as u64)) == v)
        by (bit_vector)
        requires
            b0 == (v >> 56) as u8,
            b1 == (v >> 48) as u8,
            b2 == (v >> 40) as u8,
            b3 == (v >> 32) as u8,
            b4 == (v >> 24) as u8,
            b5 == (v >> 16) as u8,
            b6 == (v >> 8) as u8,
            b7 == v as u8,
    ;
}

/// Decoding what a filter is written as gives the filter back: its seed, its
/// block length and its fingerprints byte for byte, with no pending keys.
pub proof fn lemma_decode_encode(v: Xor8View)
    requires
        v.finger_prints.len() <= u32::MAX,
    ensures
        spec_decode(spec_encode(v)) == Ok::<Xor8View, DecodeError>(
            Xor8View { keys: None, ..v },
        ),
{
    let buf = spec_encode(v);
    let len = v.finger_prints.len() as u32;
    assert(buf.subrange(0, 4) =~= signature_v1());
    assert(buf.subrange(4, 12) =~= be_bytes_u64(v.seed));
    assert(buf.subrange(12, 16) =~= be_bytes_u32(v.block_length));
    assert(buf.subrange(16, 20) =~= be_bytes_u32(len));
    lemma_u64_be_round_trip(v.seed);
    lemma_u32_be_round_trip(v.block_length);
    lemma_u32_be_round_trip(len);
    assert(buf.subrange(20, 20 + len) =~= v.finger_prints);
}

/// Appends the big-endian bytes of a 32-bit number.
pub fn push_u32_be(buf: &mut Vec<u8>, v: u32)
    ensures
        final(buf)@ == old(buf)@ + be_bytes_u32(v),
{
    buf.push((v >> 24) as u8);
    buf.push((v >> 16) as u8);
    buf.push((v >> 8) as u8);
    buf.push(v as u8);
    assert(buf@ =~= old(buf)@ + be_bytes_u32(v));
}

/// Appends the big-endian bytes of a 64-bit number.
pub fn push_u64_be(buf: &mut Vec<u8>, v: u64)
    ensures
        final(buf)@ == old(buf)@ + be_bytes_u64(v),
{
    buf.push((v >> 56) as u8);
    buf.push((v >> 48) as u8);
    buf.push((v >> 40) as u8);
    buf.push((v >> 32) as u8);
    buf.push((v >> 24) as u8);
    buf.push((v >> 16) as u8);
    buf.push((v >> 8) as u8);
    buf.push(v as u8);
    assert(buf@ =~= old(buf)@ + be_bytes_u64(v));
}

/// Reads the 32-bit big-endian number at offset `at`.
pub fn read_u32_be(buf: &Vec<u8>, at: usize) -> (v: u32)
    requires
        at + 4 <= buf.len(),
    ensures
        v == u32_of_be_bytes(buf@.subrange(at as int, at + 4)),
{
    ((buf[at] as u32) << 24) | ((buf[at + 1] as u32) << 16) | ((buf[at + 2] as u32) << 8) | (
    buf[at + 3] as u32)
}

/// Reads the 64-bit big-endian number at offset `at`.
pub fn read_u64_be(buf: &Vec<u8>, at: usize) -> (v: u64)
    requires
        at + 8 <= buf.len(),
    ensures
        v == u64_of_be_bytes(buf@.subrange(at as int, at + 8)),
{
    ((buf[at] as u64) << 56) | ((buf[at + 1] as u64) << 48) | ((buf[at + 2] as u64) << 40) | ((
    buf[at + 3] as u64) << 32) | ((buf[at + 4] as u64) << 24) | ((buf[at + 5] as u64) << 16) | ((
    buf[at + 6] as u64) << 8) | (buf[at + 7] as u64)
}

} // verus!
