//! Versioned binary codec: every value is written and read under a negotiated
//! protocol version.

pub mod error;
pub mod reader;
pub mod traits;
pub mod ints;
pub mod varint;
pub mod text;
pub mod containers;
pub mod gated;
pub mod sequence;
