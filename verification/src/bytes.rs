//! Fixed-width unsigned integers read from a byte buffer in either byte order.

use vstd::prelude::*;

verus! {

/// The 16-bit value at `off`, most significant byte first when `big`.
pub open spec fn spec_u16_at(b: Seq<u8>, off: int, big: bool) -> int {
    if big {
        b[off] * 0x100 + b[off + 1]
    } else {
        b[off] + b[off + 1] * 0x100
    }
}

/// The 32-bit value at `off`, most significant byte first when `big`.
pub open spec fn spec_u32_at(b: Seq<u8>, off: int, big: bool) -> int {
    if big {
        spec_u16_at(b, off, true) * 0x10000 + spec_u16_at(b, off + 2, true)
    } else {
        spec_u16_at(b, off, false) + spec_u16_at(b, off + 2, false) * 0x10000
    }
}

/// The 64-bit value at `off`, most significant byte first when `big`.
pub open spec fn spec_u64_at(b: Seq<u8>, off: int, big: bool) -> int {
    if big {
        spec_u32_at(b, off, true) * 0x1_0000_0000 + spec_u32_at(b, off + 4, true)
    } else {
        spec_u32_at(b, off, false) + spec_u32_at(b, off + 4, false) * 0x1_0000_0000
    }
}

/// The value of a word at `off`: 64 bits when `wide`, else 32 bits.
pub open spec fn spec_word_at(b: Seq<u8>, off: int, wide: bool, big: bool) -> int {
    if wide {
        spec_u64_at(b, off, big)
    } else {
        spec_u32_at(b, off, big)
    }
}

/// Reads the 16-bit value at `off`.
pub fn u16_at(b: &[u8], off: usize, big: bool) -> (r: u16)
    requires
        off + 2 <= b.len(),
    ensures
        r as int == spec_u16_at(b@, off as int, big),
{
    let lo: u16 = if big { b[off + 1] as u16 } else { b[off] as u16 };
    let hi: u16 = if big { b[off] as u16 } else { b[off + 1] as u16 };
    lo + hi * 0x100
}

/// Reads the 32-bit value at `off`.
pub fn u32_at(b: &[u8], off: usize, big: bool) -> (r: u32)
    requires
        off + 4 <= b.len(),
    ensures
        r as int == spec_u32_at(b@, off as int, big),
{
    let first: u32 = u16_at(b, off, big) as u32;
    let second: u32 = u16_at(b, off + 2, big) as u32;
    if big {
        first * 0x10000 + second
    } else {
        first + second * 0x10000
    }
}

/// Reads the 64-bit value at `off`.
pub fn u64_at(b: &[u8], off: usize, big: bool) -> (r: u64)
    requires
        off + 8 <= b.len(),
    ensures
        r as int == spec_u64_at(b@, off as int, big),
{
    let first: u64 = u32_at(b, off, big) as u64;
    let second: u64 = u32_at(b, off + 4, big) as u64;
    if big {
        first * 0x1_0000_0000 + second
    } else {
        first + second * 0x1_0000_0000
    }
}

/// Reads a word at `off`: 64 bits when `wide`, else 32 bits.
pub fn word_at(b: &[u8], off: usize, wide: bool, big: bool) -> (r: u64)
    requires
        off + (if wide { 8int } else { 4int }) <= b.len(),
    ensures
        r as int == spec_word_at(b@, off as int, wide, big),
        !wide ==> r <= 0xFFFF_FFFF,
{
    if wide {
        u64_at(b, off, big)
    } else {
        u32_at(b, off, big) as u64
    }
}

} // verus!
