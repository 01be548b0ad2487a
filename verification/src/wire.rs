//! Fixed-endianness field decoding and encoding over byte slices.
//!
//! Netlink carries its transport and attribute headers in the host's byte
//! order; this library targets the little-endian hosts the exporter runs on
//! and fixes that order explicitly.  The netfilter subsystem additionally
//! carries a few fields in big-endian order, decoded here as well.

use vstd::prelude::*;

verus! {

use vstd::bytes::{
    spec_u16_from_le_bytes, spec_u16_to_le_bytes, spec_u32_from_le_bytes, spec_u32_to_le_bytes,
    spec_u64_from_le_bytes, u16_from_le_bytes, u16_to_le_bytes, u32_from_le_bytes,
    u32_to_le_bytes, u64_from_le_bytes,
};
use vstd::slice::slice_subrange;

/// Round a byte count up to the next multiple of four, the alignment netlink
/// requires between consecutive headers and attributes.
pub open spec fn spec_align4(n: int) -> int {
    if n % 4 == 0 {
        n
    } else {
        n + (4 - n % 4)
    }
}

/// Executable 4-byte alignment; the result is exact, with no overflow.
pub fn align4(n: usize) -> (r: usize)
    requires
        n + 3 <= usize::MAX,
    ensures
        r == spec_align4(n as int),
{
    if n % 4 == 0 {
        n
    } else {
        n + (4 - n % 4)
    }
}

/// The value of two bytes read in big-endian order.
pub open spec fn spec_u16_from_be_bytes(s: Seq<u8>) -> u16
    recommends
        s.len() == 2,
{
    (s[0] as u16 * 0x100 + s[1] as u16) as u16
}

/// The value of four bytes read in big-endian order.
pub open spec fn spec_u32_from_be_bytes(s: Seq<u8>) -> u32
    recommends
        s.len() == 4,
{
    (s[0] as u32 * 0x100_0000 + s[1] as u32 * 0x1_0000 + s[2] as u32 * 0x100 + s[3] as u32) as u32
}

pub fn u16_from_be(s: &[u8]) -> (r: u16)
    requires
        s@.len() == 2,
    ensures
        r == spec_u16_from_be_bytes(s@),
{
    let hi = s[0];
    let lo = s[1];
    hi as u16 * 0x100 + lo as u16
}

pub fn u32_from_be(s: &[u8]) -> (r: u32)
    requires
        s@.len() == 4,
    ensures
        r == spec_u32_from_be_bytes(s@),
{
    let b0 = s[0];
    let b1 = s[1];
    let b2 = s[2];
    let b3 = s[3];
    b0 as u32 * 0x100_0000 + b1 as u32 * 0x1_0000 + b2 as u32 * 0x100 + b3 as u32
}

/// Reads a little-endian u16 at `off`.
pub fn read_u16_le(data: &[u8], off: usize) -> (r: u16)
    requires
        off + 2 <= data@.len(),
    ensures
        r == spec_u16_from_le_bytes(data@.subrange(off as int, off as int + 2)),
{
    let _n = data.len();
    let part = slice_subrange(data, off, off + 2);
    u16_from_le_bytes(part)
}

/// Reads a little-endian u32 at `off`.
pub fn read_u32_le(data: &[u8], off: usize) -> (r: u32)
    requires
        off + 4 <= data@.len(),
    ensures
        r == spec_u32_from_le_bytes(data@.subrange(off as int, off as int + 4)),
{
    let _n = data.len();
    let part = slice_subrange(data, off, off + 4);
    u32_from_le_bytes(part)
}

/// Reads a little-endian u64 at `off`.
pub fn read_u64_le(data: &[u8], off: usize) -> (r: u64)
    requires
        off + 8 <= data@.len(),
    ensures
        r == spec_u64_from_le_bytes(data@.subrange(off as int, off as int + 8)),
{
    let _n = data.len();
    let part = slice_subrange(data, off, off + 8);
    u64_from_le_bytes(part)
}

/// Appends the two little-endian bytes of `x` to `buf`.
pub fn push_u16_le(buf: &mut Vec<u8>, x: u16)
    ensures
        final(buf)@ == old(buf)@ + spec_u16_to_le_bytes(x),
        final(buf)@.len() == old(buf)@.len() + 2,
{
    let mut b = u16_to_le_bytes(x);
    buf.append(&mut b);
}

/// Appends the four little-endian bytes of `x` to `buf`.
pub fn push_u32_le(buf: &mut Vec<u8>, x: u32)
    ensures
        final(buf)@ == old(buf)@ + spec_u32_to_le_bytes(x),
        final(buf)@.len() == old(buf)@.len() + 4,
{
    let mut b = u32_to_le_bytes(x);
    buf.append(&mut b);
}

/// The signed value of a u32 reinterpreted in two's complement, as used by
/// netlink error frames, which embed a negated errno as a 32-bit integer.
pub open spec fn spec_i32_of_u32(v: u32) -> int {
    if v < 0x8000_0000 {
        v as int
    } else {
        v - 0x1_0000_0000
    }
}

} // verus!
