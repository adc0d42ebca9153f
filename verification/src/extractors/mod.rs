//! Extractors: what to carve out of a file once a signature has matched.
pub mod common;
pub mod jzlzma;
pub mod program_store;
