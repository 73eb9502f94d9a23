//! Little-endian integers inside a byte string.

use vstd::prelude::*;

use crate::text::{decimal, push_decimal};

verus! {

/// The unsigned 16-bit integer stored little-endian at `offset`.
#[verifier::opaque]
pub open spec fn le_u16(bytes: Seq<u8>, offset: int) -> u16 {
    (bytes[offset] + 0x100 * bytes[offset + 1]) as u16
}

/// The unsigned 32-bit integer stored little-endian at `offset`.
#[verifier::opaque]
pub open spec fn le_u32(bytes: Seq<u8>, offset: int) -> u32 {
    (le_u16(bytes, offset) + 0x1_0000 * le_u16(bytes, offset + 2)) as u32
}

/// The unsigned 64-bit integer stored little-endian at `offset`.
#[verifier::opaque]
pub open spec fn le_u64(bytes: Seq<u8>, offset: int) -> u64 {
    (le_u32(bytes, offset) + 0x1_0000_0000 * le_u32(bytes, offset + 4)) as u64
}

/// The message for a field that starts at `offset` and runs past the end of the input.
pub open spec fn unexpected_end(offset: int) -> Seq<char> {
    "unexpected end of perf.data at offset "@ + decimal(offset as nat)
}

/// Reads the 16-bit integer at an offset whose two bytes are present.
pub fn u16_at(bytes: &[u8], offset: usize) -> (value: u16)
    requires
        offset + 2 <= bytes.len(),
    ensures
        value == le_u16(bytes@, offset as int),
{
    proof {
        reveal(le_u16);
    }
    bytes[offset] as u16 + 0x100 * bytes[offset + 1] as u16
}

/// Reads the 32-bit integer at an offset whose four bytes are present.
pub fn u32_at(bytes: &[u8], offset: usize) -> (value: u32)
    requires
        offset + 4 <= bytes.len(),
    ensures
        value == le_u32(bytes@, offset as int),
{
    proof {
        reveal(le_u32);
    }
    u16_at(bytes, offset) as u32 + 0x1_0000 * u16_at(bytes, offset + 2) as u32
}

/// Reads the 64-bit integer at an offset whose eight bytes are present.
pub fn u64_at(bytes: &[u8], offset: usize) -> (value: u64)
    requires
        offset + 8 <= bytes.len(),
    ensures
        value == le_u64(bytes@, offset as int),
{
    proof {
        reveal(le_u64);
    }
    u32_at(bytes, offset) as u64 + 0x1_0000_0000 * u32_at(bytes, offset + 4) as u64
}

/// The error for a field that starts `skip` bytes behind `offset` and is not present.
pub fn end_error(offset: usize, skip: usize) -> (error: String)
    ensures
        error@ == unexpected_end(offset + skip),
{
    let mut text = "unexpected end of perf.data at offset ".to_string();
    push_decimal(&mut text, offset as u128 + skip as u128);
    text
}

/// Reads a little-endian `u16` from a byte slice.
///
/// # Errors
///
/// Returns an error when the requested two-byte range is not present.
pub fn read_u16(bytes: &[u8], offset: usize) -> (result: Result<u16, String>)
    ensures
        match result {
            Ok(value) => offset + 2 <= bytes.len() && value == le_u16(bytes@, offset as int),
            Err(error) => offset + 2 > bytes@.len() && error@ == unexpected_end(offset as int),
        },
{
    if bytes.len() < 2 || offset > bytes.len() - 2 {
        return Err(end_error(offset, 0));
    }
    Ok(u16_at(bytes, offset))
}

/// Reads a little-endian `u32` from a byte slice.
///
/// # Errors
///
/// Returns an error when the requested four-byte range is not present.
pub fn read_u32(bytes: &[u8], offset: usize) -> (result: Result<u32, String>)
    ensures
        match result {
            Ok(value) => offset + 4 <= bytes.len() && value == le_u32(bytes@, offset as int),
            Err(error) => offset + 4 > bytes@.len() && error@ == unexpected_end(offset as int),
        },
{
    if bytes.len() < 4 || offset > bytes.len() - 4 {
        return Err(end_error(offset, 0));
    }
    Ok(u32_at(bytes, offset))
}

/// Reads a little-endian `u64` from a byte slice.
///
/// # Errors
///
/// Returns an error when the requested eight-byte range is not present.
pub fn read_u64(bytes: &[u8], offset: usize) -> (result: Result<u64, String>)
    ensures
        match result {
            Ok(value) => offset + 8 <= bytes.len() && value == le_u64(bytes@, offset as int),
            Err(error) => offset + 8 > bytes@.len() && error@ == unexpected_end(offset as int),
        },
{
    if bytes.len() < 8 || offset > bytes.len() - 8 {
        return Err(end_error(offset, 0));
    }
    Ok(u64_at(bytes, offset))
}

// ---------------------------------------------------------------------------
// Laws
// ---------------------------------------------------------------------------

/// The first byte of a number is its lowest, and each further byte counts 256 times as much as
/// the one in front of it.
pub proof fn lowest_bytes_come_first(bytes: Seq<u8>, offset: int)
    ensures
        le_u16(bytes, offset) == bytes[offset] + 0x100 * bytes[offset + 1],
        le_u32(bytes, offset) == bytes[offset] + 0x100 * bytes[offset + 1] + 0x1_0000 * bytes[offset
            + 2] + 0x100_0000 * bytes[offset + 3],
        le_u64(bytes, offset) == bytes[offset] + 0x100 * bytes[offset + 1] + 0x1_0000 * bytes[offset
            + 2] + 0x100_0000 * bytes[offset + 3] + 0x1_0000_0000 * bytes[offset + 4]
            + 0x100_0000_0000 * bytes[offset + 5] + 0x1_0000_0000_0000 * bytes[offset + 6]
            + 0x100_0000_0000_0000 * bytes[offset + 7],
{
    reveal(le_u16);
    reveal(le_u32);
    reveal(le_u64);
}

/// The four bytes of a number, the lowest first.
pub open spec fn four_bytes(n: u32) -> Seq<u8> {
    seq![
        (n % 0x100) as u8,
        ((n / 0x100) % 0x100) as u8,
        ((n / 0x1_0000) % 0x100) as u8,
        (n / 0x100_0000) as u8,
    ]
}

/// The eight bytes of a number, the lowest first.
pub open spec fn eight_bytes(n: u64) -> Seq<u8> {
    four_bytes((n % 0x1_0000_0000) as u32) + four_bytes((n / 0x1_0000_0000) as u32)
}

proof fn four_bytes_are_read(bytes: Seq<u8>, offset: int, n: u32)
    requires
        0 <= offset,
        offset + 4 <= bytes.len(),
        bytes.subrange(offset, offset + 4) == four_bytes(n),
    ensures
        le_u32(bytes, offset) == n,
{
    lowest_bytes_come_first(bytes, offset);
    let part = bytes.subrange(offset, offset + 4);
    assert(part[0] == bytes[offset] && part[1] == bytes[offset + 1] && part[2] == bytes[offset + 2]
        && part[3] == bytes[offset + 3]);
}

/// A number is read as it was written, wherever its bytes stand.
pub proof fn written_numbers_are_read(bytes: Seq<u8>, offset: int, small: u32, large: u64)
    requires
        0 <= offset,
    ensures
        offset + 4 <= bytes.len() && bytes.subrange(offset, offset + 4) == four_bytes(small)
            ==> le_u32(bytes, offset) == small,
        offset + 8 <= bytes.len() && bytes.subrange(offset, offset + 8) == eight_bytes(large)
            ==> le_u64(bytes, offset) == large,
{
    if offset + 4 <= bytes.len() && bytes.subrange(offset, offset + 4) == four_bytes(small) {
        four_bytes_are_read(bytes, offset, small);
    }
    if offset + 8 <= bytes.len() && bytes.subrange(offset, offset + 8) == eight_bytes(large) {
        let low = (large % 0x1_0000_0000) as u32;
        let high = (large / 0x1_0000_0000) as u32;
        let part = bytes.subrange(offset, offset + 8);
        assert(bytes.subrange(offset, offset + 4) =~= part.subrange(0, 4));
        assert(bytes.subrange(offset + 4, offset + 8) =~= part.subrange(4, 8));
        assert(part.subrange(0, 4) =~= four_bytes(low));
        assert(part.subrange(4, 8) =~= four_bytes(high));
        four_bytes_are_read(bytes, offset, low);
        four_bytes_are_read(bytes, offset + 4, high);
        reveal(le_u64);
    }
}

} // verus!
