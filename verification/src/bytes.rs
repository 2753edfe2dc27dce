//! Little-endian integer decoding shared by every binary reader here.

use vstd::prelude::*;

verus! {

/// The unsigned value of two little-endian bytes.
pub open spec fn le_u16(b: Seq<u8>) -> int {
    b[0] + 256 * b[1]
}

/// The unsigned value of four little-endian bytes.
pub open spec fn le_u32(b: Seq<u8>) -> int {
    b[0] + 256 * b[1] + 65536 * b[2] + 16777216 * b[3]
}

/// The unsigned value of eight little-endian bytes.
pub open spec fn le_u64(b: Seq<u8>) -> int {
    le_u32(b) + 4294967296 * le_u32(b.subrange(4, 8))
}

/// Two's-complement reading of a 32-bit pattern.
pub open spec fn signed32(x: int) -> int {
    if x < 0x8000_0000 {
        x
    } else {
        x - 0x1_0000_0000
    }
}

/// Two's-complement reading of a 64-bit pattern.
pub open spec fn signed64(x: int) -> int {
    if x < 0x8000_0000_0000_0000 {
        x
    } else {
        x - 0x1_0000_0000_0000_0000
    }
}

pub fn u16_le(b: &[u8]) -> (r: u16)
    requires
        b@.len() >= 2,
    ensures
        r == le_u16(b@),
{
    b[0] as u16 + (b[1] as u16) * 256
}

pub fn u32_le(b: &[u8]) -> (r: u32)
    requires
        b@.len() >= 4,
    ensures
        r == le_u32(b@),
{
    b[0] as u32 + (b[1] as u32) * 256 + (b[2] as u32) * 65536 + (b[3] as u32) * 16777216
}

pub fn u64_le(b: &[u8]) -> (r: u64)
    requires
        b@.len() >= 8,
    ensures
        r == le_u64(b@),
{
    let lo = b[0] as u64 + (b[1] as u64) * 256 + (b[2] as u64) * 65536 + (b[3] as u64)
        * 16777216;
    let hi = b[4] as u64 + (b[5] as u64) * 256 + (b[6] as u64) * 65536 + (b[7] as u64)
        * 16777216;
    assert(b@.subrange(4, 8)[0] == b@[4] && b@.subrange(4, 8)[1] == b@[5]);
    assert(b@.subrange(4, 8)[2] == b@[6] && b@.subrange(4, 8)[3] == b@[7]);
    lo + hi * 4294967296
}

/// An owned copy of a byte slice.
pub fn copy_bytes(s: &[u8]) -> (v: Vec<u8>)
    ensures
        v@ == s@,
{
    let mut v: Vec<u8> = Vec::with_capacity(s.len());
    let mut i: usize = 0;
    while i < s.len()
        invariant
            i <= s@.len(),
            v@ =~= s@.take(i as int),
        decreases s@.len() - i,
    {
        v.push(s[i]);
        i += 1;
    }
    assert(s@.take(s@.len() as int) =~= s@);
    v
}

/// Reinterpret a 32-bit pattern as signed.
pub fn i32_from_bits(x: u32) -> (r: i32)
    ensures
        r == signed32(x as int),
{
    if x < 0x8000_0000 {
        x as i32
    } else {
        ((x as i64) - 0x1_0000_0000i64) as i32
    }
}

/// Reinterpret a 64-bit pattern as signed.
pub fn i64_from_bits(x: u64) -> (r: i64)
    ensures
        r == signed64(x as int),
{
    if x < 0x8000_0000_0000_0000 {
        x as i64
    } else {
        ((x as i128) - 0x1_0000_0000_0000_0000i128) as i64
    }
}

} // verus!
