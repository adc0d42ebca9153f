//! What the header parsers share: their error and the integer encodings they read.
use vstd::prelude::*;

verus! {

/// The bytes do not hold a header of the expected format.
#[derive(Debug, Clone, Copy, PartialEq, Eq, Structural)]
pub struct StructureError;

/// The little-endian 32-bit number held by `d[off..off + 4]`.
pub open spec fn le_u32_at(d: Seq<u8>, off: int) -> int {
    d[off] + d[off + 1] * 256 + d[off + 2] * 65536 + d[off + 3] * 16777216
}

/// The big-endian 16-bit number held by `d[off..off + 2]`.
pub open spec fn be_u16_at(d: Seq<u8>, off: int) -> int {
    d[off] * 256 + d[off + 1]
}

/// The big-endian 32-bit number held by `d[off..off + 4]`.
pub open spec fn be_u32_at(d: Seq<u8>, off: int) -> int {
    d[off] * 16777216 + d[off + 1] * 65536 + d[off + 2] * 256 + d[off + 3]
}

/// Reads the little-endian 32-bit number at `data[off..off + 4]`.
pub fn read_le_u32(data: &[u8], off: usize) -> (v: u32)
    requires
        off + 4 <= data@.len(),
    ensures
        v as int == le_u32_at(data@, off as int),
{
    data[off] as u32 + (data[off + 1] as u32) * 256 + (data[off + 2] as u32) * 65536 + (data[off
        + 3] as u32) * 16777216
}

} // verus!
