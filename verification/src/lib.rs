//! Recognising and unpacking two firmware container formats: the jzlzma
//! wrapper (Ingenic LZ77 images behind a `mark_rootfs_lzma` header) and the
//! Broadcom ProgramStore image.
pub mod common;
pub mod structures;
pub mod signatures;
pub mod extractors;
