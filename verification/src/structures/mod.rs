//! Parsers for the on-disk headers of the supported formats.
pub mod common;
pub mod jzlzma;
pub mod program_store;
