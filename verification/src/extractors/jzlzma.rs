//! Extraction of jzlzma data.
use vstd::prelude::*;
use crate::extractors::common::{extractor_other_fields_default, Extractor, ExtractorType, InternalExtractor};
use crate::signatures::jzlzma::jzlzma_header_start;

verus! {

/// The internal extractor for jzlzma data.
pub fn jzlzma_extractor() -> (e: Extractor)
    ensures
        e.utility == ExtractorType::Internal(InternalExtractor::Jzlzma),
        extractor_other_fields_default(e),
{
    let mut e = Extractor::default();
    e.utility = ExtractorType::Internal(InternalExtractor::Jzlzma);
    e
}

/// The part of the file that the decompressor is given for a match at
/// `offset`: from the start of the `mark_rootfs_lzma` wrapper (4 bytes before
/// the magic) to the end of the file. Returns the start and the length.
pub fn jzlzma_carve_range(file_len: usize, offset: usize) -> (range: (usize, usize))
    requires
        jzlzma_header_start(offset as int) <= file_len,
    ensures
        range.0 == jzlzma_header_start(offset as int),
        range.0 + range.1 == file_len,
{
    let carve_start = if offset >= 4 {
        offset - 4
    } else {
        offset
    };
    (carve_start, file_len - carve_start)
}

} // verus!
