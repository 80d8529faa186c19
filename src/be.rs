//! Fixed-width big-endian integers.
use vstd::prelude::*;

verus! {

/// The eight bytes of `n`, most significant first.
pub open spec fn u64_to_be(n: u64) -> Seq<u8> {
    seq![
        (n >> 56u64) as u8,
        (n >> 48u64) as u8,
        (n >> 40u64) as u8,
        (n >> 32u64) as u8,
        (n >> 24u64) as u8,
        (n >> 16u64) as u8,
        (n >> 8u64) as u8,
        n as u8,
    ]
}

/// The integer whose big-endian form is the first eight bytes of `b`.
pub open spec fn u64_from_be(b: Seq<u8>) -> u64
    recommends
        b.len() >= 8,
{
    ((b[0] as u64) << 56u64) | ((b[1] as u64) << 48u64) | ((b[2] as u64) << 40u64) | ((
    b[3] as u64) << 32u64) | ((b[4] as u64) << 24u64) | ((b[5] as u64) << 16u64) | ((
    b[6] as u64) << 8u64) | (b[7] as u64)
}

/// The four bytes of `n`, most significant first.
pub open spec fn u32_to_be(n: u32) -> Seq<u8> {
    seq![(n >> 24u32) as u8, (n >> 16u32) as u8, (n >> 8u32) as u8, n as u8]
}

/// The integer whose big-endian form is the first four bytes of `b`.
pub open spec fn u32_from_be(b: Seq<u8>) -> u32
    recommends
        b.len() >= 4,
{
    ((b[0] as u32) << 24u32) | ((b[1] as u32) << 16u32) | ((b[2] as u32) << 8u32) | (b[3] as u32)
}

/// The two's-complement big-endian form of a signed 32-bit integer.
pub open spec fn i32_to_be(n: i32) -> Seq<u8> {
    u32_to_be(n as u32)
}

/// The signed integer whose two's-complement big-endian form starts `b`.
pub open spec fn i32_from_be(b: Seq<u8>) -> i32
    recommends
        b.len() >= 4,
{
    u32_from_be(b) as i32
}

/// Reading back the eight bytes written for `n` gives `n`.
pub proof fn lemma_u64_be_round_trip(n: u64)
    ensures
        u64_from_be(u64_to_be(n)) == n,
{
    let b = u64_to_be(n);
    let (b0, b1, b2, b3, b4, b5, b6, b7) = (b[0], b[1], b[2], b[3], b[4], b[5], b[6], b[7]);
    assert(((((n >> 56u64) as u8) as u64) << 56u64) | ((((n >> 48u64) as u8) as u64) << 48u64)
        | ((((n >> 40u64) as u8) as u64) << 40u64) | ((((n >> 32u64) as u8) as u64) << 32u64)
        | ((((n >> 24u64) as u8) as u64) << 24u64) | ((((n >> 16u64) as u8) as u64) << 16u64)
        | ((((n >> 8u64) as u8) as u64) << 8u64) | ((n as u8) as u64) == n) by (bit_vector);
}

/// Reading back the four bytes written for a signed `n` gives `n`, sign
/// included.
pub proof fn lemma_i32_be_round_trip(n: i32)
    ensures
        i32_from_be(i32_to_be(n)) == n,
{
    let u = n as u32;
    assert(((((u >> 24u32) as u8) as u32) << 24u32) | ((((u >> 16u32) as u8) as u32) << 16u32)
        | ((((u >> 8u32) as u8) as u32) << 8u32) | ((u as u8) as u32) == u) by (bit_vector);
    assert((n as u32) as i32 == n) by (bit_vector);
}

} // verus!
