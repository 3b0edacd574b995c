//! Little-endian byte-sequence readings shared by the binary parsers.

use vstd::prelude::*;

verus! {

/// Little-endian value of the two bytes at `off`.
pub open spec fn le_u16(s: Seq<u8>, off: int) -> int {
    s[off] + s[off + 1] * 0x100
}

/// Little-endian value of the four bytes at `off`.
pub open spec fn le_u32(s: Seq<u8>, off: int) -> int {
    le_u16(s, off) + le_u16(s, off + 2) * 0x1_0000
}

/// Little-endian value of the eight bytes at `off`.
pub open spec fn le_u64(s: Seq<u8>, off: int) -> int {
    le_u32(s, off) + le_u32(s, off + 4) * 0x1_0000_0000
}

/// Sum of all bytes of `s`.
pub open spec fn byte_sum(s: Seq<u8>) -> int
    decreases s.len(),
{
    if s.len() == 0 {
        0
    } else {
        byte_sum(s.drop_last()) + s.last()
    }
}

/// Reads two little-endian bytes; the caller has checked the bounds.
pub fn get_u16(data: &[u8], off: usize) -> (r: u16)
    requires
        off + 2 <= data.len(),
    ensures
        r == le_u16(data@, off as int),
{
    data[off] as u16 + data[off + 1] as u16 * 0x100
}

/// Reads four little-endian bytes; the caller has checked the bounds.
pub fn get_u32(data: &[u8], off: usize) -> (r: u32)
    requires
        off + 4 <= data.len(),
    ensures
        r == le_u32(data@, off as int),
{
    let lo = get_u16(data, off) as u32;
    let hi = get_u16(data, off + 2) as u32;
    lo + hi * 0x1_0000
}

/// Reads eight little-endian bytes; the caller has checked the bounds.
pub fn get_u64(data: &[u8], off: usize) -> (r: u64)
    requires
        off + 8 <= data.len(),
    ensures
        r == le_u64(data@, off as int),
{
    let lo = get_u32(data, off) as u64;
    let hi = get_u32(data, off + 4) as u64;
    lo + hi * 0x1_0000_0000
}

/// Byte sum of `data[0..n)` reduced modulo 256.
pub fn prefix_checksum(data: &[u8], n: usize) -> (r: u8)
    requires
        n <= data@.len(),
    ensures
        r == byte_sum(data@.subrange(0, n as int)) % 256,
{
    let mut sum: u8 = 0;
    let mut i: usize = 0;
    while i < n
        invariant
            i <= n,
            n <= data@.len(),
            sum == byte_sum(data@.subrange(0, i as int)) % 256,
        decreases n - i,
    {
        proof {
            let s = data@.subrange(0, (i + 1) as int);
            assert(s.drop_last() =~= data@.subrange(0, i as int));
        }
        sum = ((sum as u16 + data[i] as u16) % 256) as u8;
        i = i + 1;
    }
    sum
}

} // verus!
