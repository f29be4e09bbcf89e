//! Little-endian byte layouts for the fixed-width integers.
//!
//! Every multi-byte integer on the wire is stored least-significant byte
//! first, with a width fixed by the value's shape and independent of the
//! host word width.

use vstd::prelude::*;

verus! {

/// The two wire bytes of a 16-bit integer, least-significant first.
pub open spec fn le_bytes_u16(x: u16) -> Seq<u8> {
    seq![(x & 0xff) as u8, ((x >> 8) & 0xff) as u8]
}

/// The four wire bytes of a 32-bit integer, least-significant first.
pub open spec fn le_bytes_u32(x: u32) -> Seq<u8> {
    seq![
        (x & 0xff) as u8,
        ((x >> 8) & 0xff) as u8,
        ((x >> 16) & 0xff) as u8,
        ((x >> 24) & 0xff) as u8,
    ]
}

/// The eight wire bytes of a 64-bit integer, least-significant first.
pub open spec fn le_bytes_u64(x: u64) -> Seq<u8> {
    seq![
        (x & 0xff) as u8,
        ((x >> 8) & 0xff) as u8,
        ((x >> 16) & 0xff) as u8,
        ((x >> 24) & 0xff) as u8,
        ((x >> 32) & 0xff) as u8,
        ((x >> 40) & 0xff) as u8,
        ((x >> 48) & 0xff) as u8,
        ((x >> 56) & 0xff) as u8,
    ]
}

/// The 16-bit integer denoted by two little-endian bytes.
pub open spec fn u16_of_le(b0: u8, b1: u8) -> u16 {
    (b0 as u16) | (b1 as u16) << 8
}

/// The 32-bit integer denoted by four little-endian bytes.
pub open spec fn u32_of_le(b0: u8, b1: u8, b2: u8, b3: u8) -> u32 {
    (b0 as u32) | (b1 as u32) << 8 | (b2 as u32) << 16 | (b3 as u32) << 24
}

/// The 64-bit integer denoted by eight little-endian bytes.
pub open spec fn u64_of_le(b0: u8, b1: u8, b2: u8, b3: u8, b4: u8, b5: u8, b6: u8, b7: u8) -> u64 {
    (b0 as u64) | (b1 as u64) << 8 | (b2 as u64) << 16 | (b3 as u64) << 24 | (b4 as u64) << 32
        | (b5 as u64) << 40 | (b6 as u64) << 48 | (b7 as u64) << 56
}

/// Reading back the two little-endian bytes of a 16-bit integer yields the
/// integer again.
pub proof fn lemma_le_u16_roundtrip(x: u16)
    ensures
        u16_of_le(le_bytes_u16(x)[0], le_bytes_u16(x)[1]) == x,
{
    assert(((x & 0xff) as u8 as u16) | (((x >> 8) & 0xff) as u8 as u16) << 8 == x)
        by (bit_vector);
}

/// Reading back the four little-endian bytes of a 32-bit integer yields the
/// integer again.
pub proof fn lemma_le_u32_roundtrip(x: u32)
    ensures
        u32_of_le(le_bytes_u32(x)[0], le_bytes_u32(x)[1], le_bytes_u32(x)[2], le_bytes_u32(x)[3])
            == x,
{
    assert(((x & 0xff) as u8 as u32) | (((x >> 8) & 0xff) as u8 as u32) << 8
        | (((x >> 16) & 0xff) as u8 as u32) << 16 | (((x >> 24) & 0xff) as u8 as u32) << 24 == x)
        by (bit_vector);
}

/// Reading back the eight little-endian bytes of a 64-bit integer yields the
/// integer again.
pub proof fn lemma_le_u64_roundtrip(x: u64)
    ensures
        u64_of_le(
            le_bytes_u64(x)[0],
            le_bytes_u64(x)[1],
            le_bytes_u64(x)[2],
            le_bytes_u64(x)[3],
            le_bytes_u64(x)[4],
            le_bytes_u64(x)[5],
            le_bytes_u64(x)[6],
            le_bytes_u64(x)[7],
        ) == x,
{
    assert(((x & 0xff) as u8 as u64) | (((x >> 8) & 0xff) as u8 as u64) << 8
        | (((x >> 16) & 0xff) as u8 as u64) << 16 | (((x >> 24) & 0xff) as u8 as u64) << 24
        | (((x >> 32) & 0xff) as u8 as u64) << 32 | (((x >> 40) & 0xff) as u8 as u64) << 40
        | (((x >> 48) & 0xff) as u8 as u64) << 48 | (((x >> 56) & 0xff) as u8 as u64) << 56 == x)
        by (bit_vector);
}

} // verus!
