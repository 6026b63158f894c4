//! Little-endian integer extraction from a byte buffer.

use vstd::prelude::*;

verus! {

/// Mathematical value of the two bytes at `off`, little endian.
pub open spec fn le16(b: Seq<u8>, off: int) -> int {
    b[off] + 0x100 * b[off + 1]
}

/// Mathematical value of the four bytes at `off`, little endian.
pub open spec fn le32(b: Seq<u8>, off: int) -> int {
    le16(b, off) + 0x1_0000 * le16(b, off + 2)
}

/// Mathematical value of the eight bytes at `off`, little endian.
pub open spec fn le64(b: Seq<u8>, off: int) -> int {
    le32(b, off) + 0x1_0000_0000 * le32(b, off + 4)
}

pub fn read_u16(b: &Vec<u8>, off: usize) -> (r: u16)
    requires
        off + 2 <= b@.len(),
    ensures
        r == le16(b@, off as int),
{
    let n: usize = b.len();
    assert(off + 2 <= n);
    (b[off] as u16) + 0x100 * (b[off + 1] as u16)
}

pub fn read_u32(b: &Vec<u8>, off: usize) -> (r: u32)
    requires
        off + 4 <= b@.len(),
    ensures
        r == le32(b@, off as int),
{
    let n: usize = b.len();
    assert(off + 4 <= n);
    (read_u16(b, off) as u32) + 0x1_0000 * (read_u16(b, off + 2) as u32)
}

pub fn read_u64(b: &Vec<u8>, off: usize) -> (r: u64)
    requires
        off + 8 <= b@.len(),
    ensures
        r == le64(b@, off as int),
{
    let n: usize = b.len();
    assert(off + 8 <= n);
    (read_u32(b, off) as u64) + 0x1_0000_0000 * (read_u32(b, off + 4) as u64)
}

} // verus!
