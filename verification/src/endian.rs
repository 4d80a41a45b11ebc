//! Big-endian integers, as byteorder lays them out.

use byteorder::{BigEndian, ByteOrder};
use vstd::prelude::*;

verus! {

/// The value of two bytes read most significant first.
pub open spec fn spec_u16_from_be(bytes: Seq<u8>) -> u16
    recommends
        bytes.len() >= 2,
{
    (bytes[0] as u16) << 8 | (bytes[1] as u16)
}

/// The two bytes of `value`, most significant first.
pub open spec fn spec_u16_to_be(value: u16) -> Seq<u8> {
    seq![((value >> 8) & 0xff) as u8, (value & 0xff) as u8]
}

/// The value of four bytes read most significant first.
pub open spec fn spec_u32_from_be(bytes: Seq<u8>) -> u32
    recommends
        bytes.len() >= 4,
{
    (bytes[0] as u32) << 24 | (bytes[1] as u32) << 16 | (bytes[2] as u32) << 8 | (bytes[3] as u32)
}

/// The four bytes of `value`, most significant first.
pub open spec fn spec_u32_to_be(value: u32) -> Seq<u8> {
    seq![
        ((value >> 24) & 0xff) as u8,
        ((value >> 16) & 0xff) as u8,
        ((value >> 8) & 0xff) as u8,
        (value & 0xff) as u8,
    ]
}

/// Reading back the bytes of a 16-bit value gives the value, whatever follows them.
pub proof fn lemma_u16_be_round_trip(value: u16, tail: Seq<u8>)
    ensures
        spec_u16_from_be(spec_u16_to_be(value) + tail) == value,
        spec_u16_to_be(value).len() == 2,
{
    let hi = ((value >> 8) & 0xff) as u8;
    let lo = (value & 0xff) as u8;
    assert((((value >> 8) & 0xff) as u8 as u16) << 8 | ((value & 0xff) as u8 as u16) == value)
        by (bit_vector);
    assert((spec_u16_to_be(value) + tail)[0] == hi);
    assert((spec_u16_to_be(value) + tail)[1] == lo);
}

/// Reading back the bytes of a 32-bit value gives the value, whatever follows them.
pub proof fn lemma_u32_be_round_trip(value: u32, tail: Seq<u8>)
    ensures
        spec_u32_from_be(spec_u32_to_be(value) + tail) == value,
        spec_u32_to_be(value).len() == 4,
{
    let written = spec_u32_to_be(value) + tail;
    assert((((value >> 24) & 0xff) as u8 as u32) << 24 | (((value >> 16) & 0xff) as u8 as u32) << 16
        | (((value >> 8) & 0xff) as u8 as u32) << 8 | ((value & 0xff) as u8 as u32) == value)
        by (bit_vector);
    assert(written[0] == ((value >> 24) & 0xff) as u8);
    assert(written[1] == ((value >> 16) & 0xff) as u8);
    assert(written[2] == ((value >> 8) & 0xff) as u8);
    assert(written[3] == (value & 0xff) as u8);
}

/// `byteorder::BigEndian::read_u16` on a buffer of exactly two bytes: the
/// crate hands them to `u16::from_be_bytes`, so the first byte is the high one.
#[verifier::external_body]
pub(crate) fn be_read_u16(buf: &[u8; 2]) -> (value: u16)
    ensures
        value == spec_u16_from_be(buf@),
{
    BigEndian::read_u16(buf)
}

/// `byteorder::BigEndian::read_u32` on a buffer of exactly four bytes: the
/// crate hands them to `u32::from_be_bytes`, so the first byte is the highest.
#[verifier::external_body]
pub(crate) fn be_read_u32(buf: &[u8; 4]) -> (value: u32)
    ensures
        value == spec_u32_from_be(buf@),
{
    BigEndian::read_u32(buf)
}

/// `byteorder::BigEndian::write_u16` into a fresh buffer of two bytes: the
/// crate copies `u16::to_be_bytes` of the value into it.
#[verifier::external_body]
pub(crate) fn be_write_u16(value: u16) -> (buf: [u8; 2])
    ensures
        buf@ == spec_u16_to_be(value),
{
    let mut buf = [0u8; 2];
    BigEndian::write_u16(&mut buf, value);
    buf
}

/// `byteorder::BigEndian::write_u32` into a fresh buffer of four bytes: the
/// crate copies `u32::to_be_bytes` of the value into it.
#[verifier::external_body]
pub(crate) fn be_write_u32(value: u32) -> (buf: [u8; 4])
    ensures
        buf@ == spec_u32_to_be(value),
{
    let mut buf = [0u8; 4];
    BigEndian::write_u32(&mut buf, value);
    buf
}

} // verus!
