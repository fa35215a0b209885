//! Segmented, append-only log storage built on the codec.

pub mod record;
pub mod batch;
pub mod stream;
pub mod batch_header;
pub mod segment;
pub mod config;
pub mod file_name;
pub mod mut_records;
pub mod fixture;
pub mod replica;
