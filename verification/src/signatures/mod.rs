//! Signature validators: given the offset at which a format's magic bytes were
//! found, they confirm the format and describe what they found.
pub mod common;
pub mod jzlzma;
pub mod program_store;
