//! SCALE encoding of fixed-width integers, through `parity-scale-codec`, and the BLAKE2b
//! hash, through `sp-crypto-hashing`.

use parity_scale_codec::{Decode, Encode};
use vstd::prelude::*;

verus! {

/// The four bytes of `x`, least significant first.
pub open spec fn le_bytes_u32(x: u32) -> Seq<u8> {
    seq![
        (x % 0x100) as u8,
        ((x / 0x100) % 0x100) as u8,
        ((x / 0x1_0000) % 0x100) as u8,
        ((x / 0x100_0000) % 0x100) as u8,
    ]
}

/// The `u32` whose bytes, least significant first, are the first four of `b`.
pub open spec fn u32_from_le(b: Seq<u8>) -> u32 {
    (b[0] + b[1] * 0x100 + b[2] * 0x1_0000 + b[3] * 0x100_0000) as u32
}

/// Calls `<u32 as parity_scale_codec::Encode>::encode`: SCALE writes a `u32` as its four
/// bytes in little-endian order (`to_le_bytes` in the codec's source).
#[verifier::external_body]
pub(crate) fn encode_u32(x: u32) -> (r: Vec<u8>)
    ensures
        r@ == le_bytes_u32(x),
{
    x.encode()
}

/// Calls `<u32 as parity_scale_codec::Decode>::decode` on a byte slice: it fails when fewer
/// than four bytes are left, and otherwise reads the first four as a little-endian `u32`
/// (`from_le_bytes` in the codec's source), ignoring the rest.
#[verifier::external_body]
pub(crate) fn decode_u32(bytes: &[u8]) -> (r: Option<u32>)
    ensures
        bytes@.len() < 4 ==> r is None,
        bytes@.len() >= 4 ==> r == Some(u32_from_le(bytes@)),
{
    let mut input = bytes;
    u32::decode(&mut input).ok()
}

/// The eight bytes of `x`, least significant first.
pub open spec fn le_bytes_u64(x: u64) -> Seq<u8> {
    Seq::new(8, |i: int| ((x as int / pow256(i)) % 0x100) as u8)
}

/// `256` to the power `i`.
pub open spec fn pow256(i: int) -> int
    decreases i,
{
    if i <= 0 {
        1
    } else {
        256 * pow256(i - 1)
    }
}

/// Calls `<u64 as parity_scale_codec::Encode>::encode`: SCALE writes a `u64` as its eight
/// bytes in little-endian order (`to_le_bytes` in the codec's source).
#[verifier::external_body]
pub(crate) fn encode_u64(x: u64) -> (r: Vec<u8>)
    ensures
        r@ == le_bytes_u64(x),
{
    x.encode()
}

/// The `u64` whose bytes, least significant first, are the first eight of `b`.
pub open spec fn u64_from_le(b: Seq<u8>) -> u64 {
    (b[0] + b[1] * 0x100 + b[2] * 0x1_0000 + b[3] * 0x100_0000 + b[4] * 0x1_0000_0000 + b[5]
        * 0x100_0000_0000 + b[6] * 0x1_0000_0000_0000 + b[7] * 0x100_0000_0000_0000) as u64
}

/// Calls `<u64 as parity_scale_codec::Decode>::decode` on a byte slice: it fails when fewer
/// than eight bytes are left, and otherwise reads the first eight as a little-endian `u64`
/// (`from_le_bytes` in the codec's source), ignoring the rest.
#[verifier::external_body]
pub(crate) fn decode_u64(bytes: &[u8]) -> (r: Option<u64>)
    ensures
        bytes@.len() < 8 ==> r is None,
        bytes@.len() >= 8 ==> r == Some(u64_from_le(bytes@)),
{
    let mut input = bytes;
    u64::decode(&mut input).ok()
}

/// What `sp_crypto_hashing::blake2_256` gives for some bytes.
pub uninterp spec fn blake2_256_of(data: Seq<u8>) -> Seq<u8>;

/// Calls `sp_crypto_hashing::blake2_256`: the 32-byte BLAKE2b digest of the bytes, a function of
/// them alone.
#[verifier::external_body]
pub(crate) fn blake2_256(data: &[u8]) -> (r: [u8; 32])
    ensures
        r@ == blake2_256_of(data@),
{
    sp_crypto_hashing::blake2_256(data)
}

} // verus!
