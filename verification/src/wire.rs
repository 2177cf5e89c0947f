//! Fixed-width integers as they appear on the link.
//!
//! Header fields and point coordinates are little-endian; range-profile
//! samples are big-endian. The spec functions give the value of a field as a
//! mathematical integer, the executable ones read it from a buffer.

use vstd::prelude::*;

verus! {

/// The value of the two bytes at `at`, high byte first.
pub open spec fn u16_be(s: Seq<u8>, at: int) -> int {
    256 * (s[at] as int) + (s[at + 1] as int)
}

/// The value of the four bytes at `at`, low byte first.
pub open spec fn u32_le(s: Seq<u8>, at: int) -> int {
    (s[at] as int) + 256 * (s[at + 1] as int) + 65536 * (s[at + 2] as int) + 16777216 * (s[at
        + 3] as int)
}

/// The value of the eight bytes at `at`, low byte first.
pub open spec fn u64_le(s: Seq<u8>, at: int) -> int {
    u32_le(s, at) + 4294967296 * u32_le(s, at + 4)
}

/// The four bytes that `u32_le` reads back as `v`.
pub open spec fn le_bytes_of_u32(v: u32) -> Seq<u8> {
    seq![
        (v as int % 256) as u8,
        (v as int / 256 % 256) as u8,
        (v as int / 65536 % 256) as u8,
        (v as int / 16777216) as u8,
    ]
}

/// Reads the big-endian 16-bit value at `at`.
pub fn read_u16_be(bytes: &[u8], at: usize) -> (v: u16)
    requires
        at + 2 <= bytes.len(),
    ensures
        v as int == u16_be(bytes@, at as int),
{
    let hi: u16 = bytes[at] as u16;
    let lo: u16 = bytes[at + 1] as u16;
    256 * hi + lo
}

/// Reads the little-endian 32-bit value at `at`.
pub fn read_u32_le(bytes: &[u8], at: usize) -> (v: u32)
    requires
        at + 4 <= bytes.len(),
    ensures
        v as int == u32_le(bytes@, at as int),
{
    let b0: u32 = bytes[at] as u32;
    let b1: u32 = bytes[at + 1] as u32;
    let b2: u32 = bytes[at + 2] as u32;
    let b3: u32 = bytes[at + 3] as u32;
    b0 + 256 * b1 + 65536 * b2 + 16777216 * b3
}

/// Reads the little-endian 64-bit value at `at`.
pub fn read_u64_le(bytes: &[u8], at: usize) -> (v: u64)
    requires
        at + 8 <= bytes.len(),
    ensures
        v as int == u64_le(bytes@, at as int),
{
    let lo: u64 = read_u32_le(bytes, at) as u64;
    let hi: u64 = read_u32_le(bytes, at + 4) as u64;
    lo + 4294967296 * hi
}

/// Any 32-bit value survives being written low byte first and read back.
pub proof fn lemma_u32_le_round_trip(v: u32)
    ensures
        le_bytes_of_u32(v).len() == 4,
        u32_le(le_bytes_of_u32(v), 0) == v as int,
{
}

/// Where the four bytes at `at` are those written for `v`, they read back as `v`.
pub proof fn lemma_u32_le_of_written(s: Seq<u8>, at: int, v: u32)
    requires
        0 <= at,
        at + 4 <= s.len(),
        s.subrange(at, at + 4) == le_bytes_of_u32(v),
    ensures
        u32_le(s, at) == v as int,
{
    let w = s.subrange(at, at + 4);
    assert(w[0] == s[at] && w[1] == s[at + 1] && w[2] == s[at + 2] && w[3] == s[at + 3]);
    lemma_u32_le_round_trip(v);
}

} // verus!
