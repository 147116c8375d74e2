//! Big-endian integers inside a byte buffer.

use vstd::prelude::*;

verus! {

/// The unsigned 16-bit big-endian integer at offset `i`.
pub open spec fn be16(s: Seq<u8>, i: int) -> u16 {
    (s[i] as int * 0x100 + s[i + 1] as int) as u16
}

/// The unsigned 32-bit big-endian integer at offset `i`.
pub open spec fn be32(s: Seq<u8>, i: int) -> u32 {
    (s[i] as int * 0x100_0000 + s[i + 1] as int * 0x1_0000 + s[i + 2] as int * 0x100 + s[i
        + 3] as int) as u32
}

/// The value of a 16-bit two's complement pattern.
pub open spec fn signed16(v: u16) -> i16 {
    if v < 0x8000 {
        v as i16
    } else {
        (v as int - 0x1_0000) as i16
    }
}

/// The value of a 32-bit two's complement pattern.
pub open spec fn signed32(v: u32) -> i32 {
    if v < 0x8000_0000 {
        v as i32
    } else {
        (v as int - 0x1_0000_0000) as i32
    }
}

/// The signed 16-bit big-endian integer at offset `i`.
pub open spec fn be16s(s: Seq<u8>, i: int) -> i16 {
    signed16(be16(s, i))
}

/// The signed 32-bit big-endian integer at offset `i`.
pub open spec fn be32s(s: Seq<u8>, i: int) -> i32 {
    signed32(be32(s, i))
}

/// The value of a 16-bit two's complement pattern.
pub fn to_signed16(v: u16) -> (r: i16)
    ensures
        r == signed16(v),
{
    if v < 0x8000 {
        v as i16
    } else {
        (v as i32 - 0x1_0000) as i16
    }
}

/// `byteorder::BigEndian::read_u16`: the first two bytes, most significant
/// first. The outside function panics on fewer than two bytes.
#[verifier::external_body]
pub(crate) fn read_u16(buf: &[u8]) -> (v: u16)
    requires
        buf@.len() >= 2,
    ensures
        v == be16(buf@, 0),
{
    <byteorder::BigEndian as byteorder::ByteOrder>::read_u16(buf)
}

/// `byteorder::BigEndian::read_u32`: the first four bytes, most significant
/// first. The outside function panics on fewer than four bytes.
#[verifier::external_body]
pub(crate) fn read_u32(buf: &[u8]) -> (v: u32)
    requires
        buf@.len() >= 4,
    ensures
        v == be32(buf@, 0),
{
    <byteorder::BigEndian as byteorder::ByteOrder>::read_u32(buf)
}

/// `byteorder::BigEndian::read_i16`: the first two bytes, most significant
/// first, as two's complement. The outside function panics on fewer than two
/// bytes.
#[verifier::external_body]
pub(crate) fn read_i16(buf: &[u8]) -> (v: i16)
    requires
        buf@.len() >= 2,
    ensures
        v == be16s(buf@, 0),
{
    <byteorder::BigEndian as byteorder::ByteOrder>::read_i16(buf)
}

/// `byteorder::BigEndian::read_i32`: the first four bytes, most significant
/// first, as two's complement. The outside function panics on fewer than four
/// bytes.
#[verifier::external_body]
pub(crate) fn read_i32(buf: &[u8]) -> (v: i32)
    requires
        buf@.len() >= 4,
    ensures
        v == be32s(buf@, 0),
{
    <byteorder::BigEndian as byteorder::ByteOrder>::read_i32(buf)
}

/// Big-endian integers: the first byte weighs most, and a signed one goes below
/// zero from half of its range on.
pub proof fn integers_are_big_endian(s: Seq<u8>, i: int)
    ensures
        be16(s, i) == s[i] * 256 + s[i + 1],
        be32(s, i) == be16(s, i) * 65536 + be16(s, i + 2),
        be16s(s, i) == be16(s, i) || be16s(s, i) == be16(s, i) - 65536,
        be16s(s, i) < 0 <==> s[i] >= 128,
        be32s(s, i) == be32(s, i) || be32s(s, i) == be32(s, i) - 4294967296,
        be32s(s, i) < 0 <==> s[i] >= 128,
{
}

} // verus!
