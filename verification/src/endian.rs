//! Fixed-width integers in a byte stream.
//!
//! Each reader takes the first two or four bytes of a slice. What it gives
//! is a line of arithmetic, stated by the function of the same name without
//! `read_`.

use vstd::prelude::*;

verus! {

/// The 16-bit number whose big-endian encoding the first two bytes are.
pub open spec fn be_u16(bytes: Seq<u8>) -> u16
    recommends
        bytes.len() >= 2,
{
    (bytes[0] as int * 0x100 + bytes[1] as int) as u16
}

/// The 32-bit number whose big-endian encoding the first four bytes are.
pub open spec fn be_u32(bytes: Seq<u8>) -> u32
    recommends
        bytes.len() >= 4,
{
    (bytes[0] as int * 0x100_0000 + bytes[1] as int * 0x1_0000 + bytes[2] as int * 0x100
        + bytes[3] as int) as u32
}

/// The 16-bit number whose little-endian encoding the first two bytes are.
pub open spec fn le_u16(bytes: Seq<u8>) -> u16
    recommends
        bytes.len() >= 2,
{
    (bytes[1] as int * 0x100 + bytes[0] as int) as u16
}

/// The 32-bit number whose little-endian encoding the first four bytes are.
pub open spec fn le_u32(bytes: Seq<u8>) -> u32
    recommends
        bytes.len() >= 4,
{
    (bytes[3] as int * 0x100_0000 + bytes[2] as int * 0x1_0000 + bytes[1] as int * 0x100
        + bytes[0] as int) as u32
}

/// The signed 16-bit number whose little-endian two's-complement encoding
/// the first two bytes are.
pub open spec fn le_i16(bytes: Seq<u8>) -> i16
    recommends
        bytes.len() >= 2,
{
    if bytes[1] >= 0x80 {
        (bytes[1] as int * 0x100 + bytes[0] as int - 0x1_0000) as i16
    } else {
        (bytes[1] as int * 0x100 + bytes[0] as int) as i16
    }
}

/// Reads a 16-bit number, most significant byte first.
pub fn read_be_u16(bytes: &[u8]) -> (value: u16)
    requires
        bytes@.len() >= 2,
    ensures
        value == be_u16(bytes@),
{
    (bytes[0] as u16) * 0x100 + (bytes[1] as u16)
}

/// Reads a 32-bit number, most significant byte first.
pub fn read_be_u32(bytes: &[u8]) -> (value: u32)
    requires
        bytes@.len() >= 4,
    ensures
        value == be_u32(bytes@),
{
    (bytes[0] as u32) * 0x100_0000 + (bytes[1] as u32) * 0x1_0000 + (bytes[2] as u32) * 0x100 + (
    bytes[3] as u32)
}

/// Reads a 16-bit number, least significant byte first.
pub fn read_le_u16(bytes: &[u8]) -> (value: u16)
    requires
        bytes@.len() >= 2,
    ensures
        value == le_u16(bytes@),
{
    (bytes[1] as u16) * 0x100 + (bytes[0] as u16)
}

/// Reads a 32-bit number, least significant byte first.
pub fn read_le_u32(bytes: &[u8]) -> (value: u32)
    requires
        bytes@.len() >= 4,
    ensures
        value == le_u32(bytes@),
{
    (bytes[3] as u32) * 0x100_0000 + (bytes[2] as u32) * 0x1_0000 + (bytes[1] as u32) * 0x100 + (
    bytes[0] as u32)
}

/// Reads a signed 16-bit number in two's complement, least significant
/// byte first.
pub fn read_le_i16(bytes: &[u8]) -> (value: i16)
    requires
        bytes@.len() >= 2,
    ensures
        value == le_i16(bytes@),
{
    let raw: i32 = (bytes[1] as i32) * 0x100 + (bytes[0] as i32);
    if bytes[1] >= 0x80 {
        (raw - 0x1_0000) as i16
    } else {
        raw as i16
    }
}

} // verus!
