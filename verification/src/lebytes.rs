use vstd::prelude::*;

verus! {

/// The `u16` stored little-endian at `off`.
pub open spec fn le16(s: Seq<u8>, off: int) -> u16
    recommends
        0 <= off,
        off + 2 <= s.len(),
{
    (s[off] + s[off + 1] * 0x100) as u16
}

/// The `u16` stored big-endian at `off`.
pub open spec fn be16(s: Seq<u8>, off: int) -> u16
    recommends
        0 <= off,
        off + 2 <= s.len(),
{
    (s[off] * 0x100 + s[off + 1]) as u16
}

/// The `u32` stored little-endian at `off`.
pub open spec fn le32(s: Seq<u8>, off: int) -> u32
    recommends
        0 <= off,
        off + 4 <= s.len(),
{
    (s[off] + s[off + 1] * 0x100 + s[off + 2] * 0x10000 + s[off + 3] * 0x1000000) as u32
}

/// The `u64` stored little-endian at `off`.
pub open spec fn le64(s: Seq<u8>, off: int) -> u64
    recommends
        0 <= off,
        off + 8 <= s.len(),
{
    (s[off] + s[off + 1] * 0x100 + s[off + 2] * 0x10000 + s[off + 3] * 0x1000000 + s[off + 4]
        * 0x100000000 + s[off + 5] * 0x10000000000 + s[off + 6] * 0x1000000000000 + s[off + 7]
        * 0x100000000000000) as u64
}

pub fn read_u16_le(data: &[u8], off: usize) -> (r: u16)
    requires
        off + 2 <= data@.len(),
    ensures
        r == le16(data@, off as int),
{
    data[off] as u16 + data[off + 1] as u16 * 0x100
}

pub fn read_u16_be(data: &[u8], off: usize) -> (r: u16)
    requires
        off + 2 <= data@.len(),
    ensures
        r == be16(data@, off as int),
{
    data[off] as u16 * 0x100 + data[off + 1] as u16
}

pub fn read_u32_le(data: &[u8], off: usize) -> (r: u32)
    requires
        off + 4 <= data@.len(),
    ensures
        r == le32(data@, off as int),
{
    data[off] as u32 + data[off + 1] as u32 * 0x100 + data[off + 2] as u32 * 0x10000 + data[off
        + 3] as u32 * 0x1000000
}

pub fn read_u64_le(data: &[u8], off: usize) -> (r: u64)
    requires
        off + 8 <= data@.len(),
    ensures
        r == le64(data@, off as int),
{
    data[off] as u64 + data[off + 1] as u64 * 0x100 + data[off + 2] as u64 * 0x10000 + data[off
        + 3] as u64 * 0x1000000 + data[off + 4] as u64 * 0x100000000 + data[off + 5] as u64
        * 0x10000000000 + data[off + 6] as u64 * 0x1000000000000 + data[off + 7] as u64
        * 0x100000000000000
}

} // verus!
