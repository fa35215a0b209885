//! Decoding failures.

use vstd::prelude::*;

verus! {

/// Why a value could not be read.
#[derive(Clone, Copy, Debug, PartialEq, Eq, Structural)]
pub enum DecodeError {
    /// The input stops before the value is complete.
    UnexpectedEnd,
    /// The bytes are all there but do not describe a legal value.
    InvalidData { reason: Invalid },
}

/// What was found to be illegal in otherwise complete input.
#[derive(Clone, Copy, Debug, PartialEq, Eq, Structural)]
pub enum Invalid {
    /// A flag byte that is neither 0 nor 1.
    Flag(u8),
    /// A tag byte that names no variant.
    Tag(u8),
    /// A code that names nothing.
    Code(u16),
    /// Text that is not UTF-8.
    Text,
    /// A variable-length integer that runs past ten bytes or past 64 bits.
    Varint,
    /// A record or a byte string whose declared length is negative or is not
    /// the length of what follows.
    RecordLength(i64),
    /// A batch whose declared length is smaller than its own header.
    BatchLength(i32),
    /// A batch whose last record would lie before its first, or beyond the
    /// last offset there is.
    OffsetDelta(i32),
    /// Records that do not fill the payload their batch declares.
    Payload,
}

impl DecodeError {
    /// The error for a tag byte that names no variant.
    pub fn unknown_tag(tag: u8) -> (e: DecodeError)
        ensures
            e == (DecodeError::InvalidData { reason: Invalid::Tag(tag) }),
    {
        DecodeError::InvalidData { reason: Invalid::Tag(tag) }
    }

    /// Whether the input merely ended too early.
    pub fn is_unexpected_end(&self) -> (b: bool)
        ensures
            b == (*self is UnexpectedEnd),
    {
        match self {
            DecodeError::UnexpectedEnd => true,
            DecodeError::InvalidData { .. } => false,
        }
    }
}

} // verus!
