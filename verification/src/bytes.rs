//! Big-endian byte layouts of fixed-width integers, as mathematical values.
use vstd::prelude::*;

verus! {

/// The two bytes of `v` in network (big-endian) order.
pub open spec fn u16_be(v: u16) -> Seq<u8> {
    seq![(v >> 8u16) as u8, v as u8]
}

/// The value of two big-endian bytes.
pub open spec fn u16_of_be(b0: u8, b1: u8) -> u16 {
    ((b0 as u16) << 8u16) | (b1 as u16)
}

/// The four bytes of `v` in network (big-endian) order.
pub open spec fn u32_be(v: u32) -> Seq<u8> {
    seq![(v >> 24u32) as u8, (v >> 16u32) as u8, (v >> 8u32) as u8, v as u8]
}

/// The value of four big-endian bytes.
pub open spec fn u32_of_be(b0: u8, b1: u8, b2: u8, b3: u8) -> u32 {
    ((b0 as u32) << 24u32) | ((b1 as u32) << 16u32) | ((b2 as u32) << 8u32) | (b3 as u32)
}

/// The eight bytes of `v` in network (big-endian) order.
pub open spec fn u64_be(v: u64) -> Seq<u8> {
    seq![
        (v >> 56u64) as u8, (v >> 48u64) as u8, (v >> 40u64) as u8, (v >> 32u64) as u8,
        (v >> 24u64) as u8, (v >> 16u64) as u8, (v >> 8u64) as u8, v as u8,
    ]
}

/// The value of eight big-endian bytes.
pub open spec fn u64_of_be(b: Seq<u8>) -> u64 {
    ((b[0] as u64) << 56u64) | ((b[1] as u64) << 48u64) | ((b[2] as u64) << 40u64) | ((
    b[3] as u64) << 32u64) | ((b[4] as u64) << 24u64) | ((b[5] as u64) << 16u64) | ((
    b[6] as u64) << 8u64) | (b[7] as u64)
}

/// The eight big-endian bytes of the two's complement form of `v`.
pub open spec fn i64_be(v: i64) -> Seq<u8> {
    u64_be(v as u64)
}

/// The two's complement value of eight big-endian bytes.
pub open spec fn i64_of_be(b: Seq<u8>) -> i64 {
    u64_of_be(b) as i64
}

/// Two big-endian bytes read back as the value they were written from, and
/// the other way round.
pub proof fn lemma_u16_roundtrip(v: u16, b0: u8, b1: u8)
    ensures
        u16_of_be((v >> 8u16) as u8, v as u8) == v,
        (u16_of_be(b0, b1) >> 8u16) as u8 == b0,
        u16_of_be(b0, b1) as u8 == b1,
{
    assert(((((v >> 8u16) as u8) as u16) << 8u16) | ((v as u8) as u16) == v) by (bit_vector);
    assert((((((b0 as u16) << 8u16) | (b1 as u16)) >> 8u16) as u8) == b0) by (bit_vector);
    assert(((((b0 as u16) << 8u16) | (b1 as u16)) as u8) == b1) by (bit_vector);
}

/// Four big-endian bytes read back as the value they were written from, and
/// the other way round.
pub proof fn lemma_u32_roundtrip(v: u32, b0: u8, b1: u8, b2: u8, b3: u8)
    ensures
        u32_of_be((v >> 24u32) as u8, (v >> 16u32) as u8, (v >> 8u32) as u8, v as u8) == v,
        u32_be(u32_of_be(b0, b1, b2, b3)) == seq![b0, b1, b2, b3],
{
    assert(((((v >> 24u32) as u8) as u32) << 24u32) | ((((v >> 16u32) as u8) as u32) << 16u32)
        | ((((v >> 8u32) as u8) as u32) << 8u32) | ((v as u8) as u32) == v) by (bit_vector);
    let w = u32_of_be(b0, b1, b2, b3);
    assert((w >> 24u32) as u8 == b0 && (w >> 16u32) as u8 == b1 && (w >> 8u32) as u8 == b2
        && w as u8 == b3) by (bit_vector)
        requires
            w == ((b0 as u32) << 24u32) | ((b1 as u32) << 16u32) | ((b2 as u32) << 8u32) | (
            b3 as u32),
    ;
    assert(u32_be(w) =~= seq![b0, b1, b2, b3]);
}

proof fn lemma_u64_value_roundtrip(v: u64)
    by (bit_vector)
    ensures
        ((((v >> 56u64) as u8) as u64) << 56u64) | ((((v >> 48u64) as u8) as u64) << 48u64) | ((((v
            >> 40u64) as u8) as u64) << 40u64) | ((((v >> 32u64) as u8) as u64) << 32u64) | ((((v
            >> 24u64) as u8) as u64) << 24u64) | ((((v >> 16u64) as u8) as u64) << 16u64) | ((((v
            >> 8u64) as u8) as u64) << 8u64) | ((v as u8) as u64) == v,
{
}

proof fn lemma_u64_bytes_roundtrip(b0: u8, b1: u8, b2: u8, b3: u8, b4: u8, b5: u8, b6: u8, b7: u8, w: u64)
    by (bit_vector)
    requires
        w == ((b0 as u64) << 56u64) | ((b1 as u64) << 48u64) | ((b2 as u64) << 40u64) | ((
        b3 as u64) << 32u64) | ((b4 as u64) << 24u64) | ((b5 as u64) << 16u64) | ((b6 as u64)
            << 8u64) | (b7 as u64),
    ensures
        (w >> 56u64) as u8 == b0,
        (w >> 48u64) as u8 == b1,
        (w >> 40u64) as u8 == b2,
        (w >> 32u64) as u8 == b3,
        (w >> 24u64) as u8 == b4,
        (w >> 16u64) as u8 == b5,
        (w >> 8u64) as u8 == b6,
        w as u8 == b7,
{
}

/// Eight big-endian bytes read back as the value they were written from,
/// and the other way round.
pub proof fn lemma_u64_roundtrip(v: u64, b: Seq<u8>)
    ensures
        u64_of_be(u64_be(v)) == v,
        b.len() == 8 ==> u64_be(u64_of_be(b)) == b,
{
    lemma_u64_value_roundtrip(v);
    if b.len() == 8 {
        lemma_u64_bytes_roundtrip(b[0], b[1], b[2], b[3], b[4], b[5], b[6], b[7], u64_of_be(b));
        assert(u64_be(u64_of_be(b)) =~= b);
    }
}

/// A signed value survives its two's complement big-endian bytes, and the
/// other way round.
pub proof fn lemma_i64_roundtrip(v: i64, b: Seq<u8>)
    ensures
        i64_of_be(i64_be(v)) == v,
        b.len() == 8 ==> i64_be(i64_of_be(b)) == b,
{
    lemma_u64_roundtrip(v as u64, b);
    assert(((v as u64) as i64) == v) by (bit_vector);
    let w = u64_of_be(b);
    assert(((w as i64) as u64) == w) by (bit_vector);
    lemma_u64_roundtrip(w, b);
}

} // verus!
