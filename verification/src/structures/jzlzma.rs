//! The `mark_rootfs_lzma` wrapper that precedes a jzlzma bit-stream.
//!
//! Layout (all little-endian):
//!   [0..4)   payload_size  — size of data after this wrapper header
//!   [4..8)   magic         — 0x27051956
//!   [8..12)  dictionary_size
//!   [12..16) uncompressed_size
//!   [16..)   jzlzma bit-stream
use vstd::prelude::*;
use crate::structures::common::{le_u32_at, read_le_u32, StructureError};

verus! {

/// Parsed jzlzma (`mark_rootfs_lzma` wrapper) header.
#[derive(Debug, Default, Clone)]
pub struct JzlzmaHeader {
    pub payload_size: usize,
    pub dictionary_size: usize,
    pub decompressed_size: usize,
}

/// Magic number of the `mark_rootfs_lzma` wrapper: 0x27051956, stored little-endian.
pub const JZ_MAGIC: u32 = 0x27051956;

/// Sane maximum for the dictionary size (256 MiB, exclusive).
pub const MAX_DICT_SIZE: usize = 0x10000000;

/// Sane maximum for the uncompressed size (256 MiB, exclusive).
pub const MAX_UNCOMP_SIZE: usize = 0x10000000;

/// Length of the wrapper header: four 32-bit fields.
pub const JZLZMA_HEADER_SIZE: usize = 16;

/// `d` starts with a wrapper header that the parser accepts.
pub open spec fn jzlzma_header_accepted(d: Seq<u8>) -> bool {
    &&& d.len() >= JZLZMA_HEADER_SIZE
    &&& le_u32_at(d, 4) == JZ_MAGIC
    &&& 0 < le_u32_at(d, 8) < MAX_DICT_SIZE
    &&& 0 < le_u32_at(d, 12) < MAX_UNCOMP_SIZE
}

/// `h` holds the fields of the wrapper header at the start of `d`.
pub open spec fn jzlzma_header_matches(h: JzlzmaHeader, d: Seq<u8>) -> bool {
    &&& h.payload_size == le_u32_at(d, 0)
    &&& h.dictionary_size == le_u32_at(d, 8)
    &&& h.decompressed_size == le_u32_at(d, 12)
}

/// Parses a jzlzma `mark_rootfs_lzma` wrapper header at the start of `data`.
pub fn parse_jzlzma_header(data: &[u8]) -> (result: Result<JzlzmaHeader, StructureError>)
    ensures
        result.is_ok() <==> jzlzma_header_accepted(data@),
        result matches Ok(h) ==> jzlzma_header_matches(h, data@),
{
    if data.len() >= JZLZMA_HEADER_SIZE {
        let payload_size = read_le_u32(data, 0);
        let magic = read_le_u32(data, 4);
        let dictionary_size = read_le_u32(data, 8);
        let uncompressed_size = read_le_u32(data, 12);
        if magic == JZ_MAGIC {
            if dictionary_size > 0 && (dictionary_size as usize) < MAX_DICT_SIZE {
                if uncompressed_size > 0 && (uncompressed_size as usize) < MAX_UNCOMP_SIZE {
                    return Ok(
                        JzlzmaHeader {
                            payload_size: payload_size as usize,
                            dictionary_size: dictionary_size as usize,
                            decompressed_size: uncompressed_size as usize,
                        },
                    );
                }
            }
        }
    }
    Err(StructureError)
}

/// A wrapper header is accepted exactly when it has its 16 bytes, its magic
/// field holds 0x27051956, and the dictionary size and the uncompressed size
/// each lie strictly between 0 and 256 MiB. Nothing else is checked: in
/// particular the payload size is free and the two sizes need not relate.
pub proof fn lemma_jzlzma_acceptance(d: Seq<u8>)
    ensures
        jzlzma_header_accepted(d) <==> {
            &&& d.len() >= 16
            &&& le_u32_at(d, 4) == 0x27051956
            &&& 0 < le_u32_at(d, 8) < 0x1000_0000
            &&& 0 < le_u32_at(d, 12) < 0x1000_0000
        },
{
}

} // verus!
