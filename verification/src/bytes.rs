//! Little-endian integer fields.
//!
//! Thin verified helpers over `vstd::bytes`: appending a fixed-width
//! integer to an output buffer and reading one back from a position in
//! an input buffer. Signed fields travel as their two's-complement bit
//! pattern; the cast round-trip lemmas justify that no information is
//! lost.

use vstd::prelude::*;
use vstd::bytes::*;
use vstd::slice::slice_subrange;

verus! {

/// The two's-complement bit pattern of a signed 16-bit field.
pub open spec fn u16_of_i16(x: i16) -> u16 {
    x as u16
}

/// The two's-complement bit pattern of a signed 32-bit field.
pub open spec fn u32_of_i32(x: i32) -> u32 {
    x as u32
}

/// The two's-complement bit pattern of a signed 64-bit field.
pub open spec fn u64_of_i64(x: i64) -> u64 {
    x as u64
}

pub proof fn lemma_i16_bits_round_trip(x: i16)
    ensures
        u16_of_i16(x) as i16 == x,
{
    assert((x as u16) as i16 == x) by (bit_vector);
}

pub proof fn lemma_i32_bits_round_trip(x: i32)
    ensures
        u32_of_i32(x) as i32 == x,
{
    assert((x as u32) as i32 == x) by (bit_vector);
}

pub proof fn lemma_i64_bits_round_trip(x: i64)
    ensures
        u64_of_i64(x) as i64 == x,
{
    assert((x as u64) as i64 == x) by (bit_vector);
}

/// Append the two little-endian bytes of `x` to `out`.
pub fn put_u16(out: &mut Vec<u8>, x: u16)
    ensures
        final(out)@ == old(out)@ + spec_u16_to_le_bytes(x),
{
    let mut b = u16_to_le_bytes(x);
    out.append(&mut b);
}

/// Append the four little-endian bytes of `x` to `out`.
pub fn put_u32(out: &mut Vec<u8>, x: u32)
    ensures
        final(out)@ == old(out)@ + spec_u32_to_le_bytes(x),
{
    let mut b = u32_to_le_bytes(x);
    out.append(&mut b);
}

/// Append the eight little-endian bytes of `x` to `out`.
pub fn put_u64(out: &mut Vec<u8>, x: u64)
    ensures
        final(out)@ == old(out)@ + spec_u64_to_le_bytes(x),
{
    let mut b = u64_to_le_bytes(x);
    out.append(&mut b);
}

/// Append the sixteen little-endian bytes of `x` to `out`.
pub fn put_u128(out: &mut Vec<u8>, x: u128)
    ensures
        final(out)@ == old(out)@ + spec_u128_to_le_bytes(x),
{
    let mut b = u128_to_le_bytes(x);
    out.append(&mut b);
}

/// Read the little-endian 16-bit field at `pos`.
pub fn read_u16(buf: &[u8], pos: usize) -> (r: u16)
    requires
        pos + 2 <= buf@.len(),
    ensures
        r == spec_u16_from_le_bytes(buf@.subrange(pos as int, pos as int + 2)),
{
    let n = buf.len();
    u16_from_le_bytes(slice_subrange(buf, pos, pos + 2))
}

/// Read the little-endian 32-bit field at `pos`.
pub fn read_u32(buf: &[u8], pos: usize) -> (r: u32)
    requires
        pos + 4 <= buf@.len(),
    ensures
        r == spec_u32_from_le_bytes(buf@.subrange(pos as int, pos as int + 4)),
{
    let n = buf.len();
    u32_from_le_bytes(slice_subrange(buf, pos, pos + 4))
}

/// Read the little-endian 64-bit field at `pos`.
pub fn read_u64(buf: &[u8], pos: usize) -> (r: u64)
    requires
        pos + 8 <= buf@.len(),
    ensures
        r == spec_u64_from_le_bytes(buf@.subrange(pos as int, pos as int + 8)),
{
    let n = buf.len();
    u64_from_le_bytes(slice_subrange(buf, pos, pos + 8))
}

/// Read the little-endian 128-bit field at `pos`.
pub fn read_u128(buf: &[u8], pos: usize) -> (r: u128)
    requires
        pos + 16 <= buf@.len(),
    ensures
        r == spec_u128_from_le_bytes(buf@.subrange(pos as int, pos as int + 16)),
{
    let n = buf.len();
    u128_from_le_bytes(slice_subrange(buf, pos, pos + 16))
}

} // verus!
