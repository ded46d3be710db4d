//! Little-endian integers, as the table format stores them.

use byteorder::{ByteOrder, LittleEndian};
use vstd::prelude::*;

verus! {

/// The unsigned number that the first two bytes of `b` hold, low byte first.
pub open spec fn le_u16(b: Seq<u8>) -> int {
    b[0] + 0x100 * b[1]
}

/// The unsigned number that the first four bytes of `b` hold, low byte first.
pub open spec fn le_u32(b: Seq<u8>) -> int {
    b[0] + 0x100 * b[1] + 0x1_0000 * b[2] + 0x100_0000 * b[3]
}

/// The two's-complement number that the first four bytes of `b` hold, low
/// byte first.
pub open spec fn le_i32(b: Seq<u8>) -> int {
    if le_u32(b) < 0x8000_0000 {
        le_u32(b)
    } else {
        le_u32(b) - 0x1_0000_0000
    }
}

/// `byteorder::LittleEndian::read_u16`: `u16::from_le_bytes` of the first two
/// bytes of `buf`. It panics on a shorter slice.
#[verifier::external_body]
pub(crate) fn read_u16_le(buf: &[u8]) -> (v: u16)
    requires
        buf@.len() >= 2,
    ensures
        v == le_u16(buf@),
{
    LittleEndian::read_u16(buf)
}

/// `byteorder::LittleEndian::read_u32`: `u32::from_le_bytes` of the first four
/// bytes of `buf`. It panics on a shorter slice.
#[verifier::external_body]
pub(crate) fn read_u32_le(buf: &[u8]) -> (v: u32)
    requires
        buf@.len() >= 4,
    ensures
        v == le_u32(buf@),
{
    LittleEndian::read_u32(buf)
}

/// `byteorder::ByteOrder::read_i32` for `LittleEndian`: the value of
/// `read_u32` reinterpreted as a signed number. It panics on a slice shorter
/// than four bytes.
#[verifier::external_body]
pub(crate) fn read_i32_le(buf: &[u8]) -> (v: i32)
    requires
        buf@.len() >= 4,
    ensures
        v == le_i32(buf@),
{
    LittleEndian::read_i32(buf)
}

} // verus!
