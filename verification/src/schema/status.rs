//! The answer to an administrative request.

use vstd::prelude::*;
use crate::codec::error::{DecodeError, Invalid};
use crate::codec::reader::ByteReader;
use crate::codec::sequence::{lemma_join3, lemma_skip_joined};
use crate::codec::traits::{Decoder, Encoder, Version};

verus! {

/// How a request fared.
#[derive(Debug, Clone, Copy, PartialEq, Eq, Structural)]
pub enum ErrorCode {
    /// The request was carried out, or would be if it were no dry run.
    NoError,
    /// The request is not valid against what the cluster holds.
    ValidationFailed,
}

impl DeepView for ErrorCode {
    type V = ErrorCode;

    open spec fn deep_view(&self) -> ErrorCode {
        *self
    }
}

impl ErrorCode {
    /// The value that stands where nothing was set.
    pub open spec fn blank() -> ErrorCode {
        ErrorCode::NoError
    }

    /// The number that stands for the code on the wire.
    pub open spec fn number(self) -> u16 {
        match self {
            ErrorCode::NoError => 0,
            ErrorCode::ValidationFailed => 1,
        }
    }

    /// Whether the code reports a failure.
    pub fn is_error(&self) -> (b: bool)
        ensures
            b == (*self != ErrorCode::NoError),
    {
        match self {
            ErrorCode::NoError => false,
            ErrorCode::ValidationFailed => true,
        }
    }
}

impl Default for ErrorCode {
    fn default() -> (r: Self)
        ensures
            r == ErrorCode::blank(),
    {
        ErrorCode::NoError
    }
}

impl Encoder for ErrorCode {
    open spec fn encoding(v: ErrorCode, version: Version) -> Seq<u8> {
        u16::encoding(v.number(), version)
    }

    open spec fn encodable(v: ErrorCode, version: Version) -> bool {
        true
    }

    fn write_size(&self, version: Version) -> (n: usize) {
        2
    }

    fn encode(&self, dest: &mut Vec<u8>, version: Version) {
        let code: u16 = match self {
            ErrorCode::NoError => 0,
            ErrorCode::ValidationFailed => 1,
        };
        code.encode(dest, version);
    }
}

impl Decoder for ErrorCode {
    open spec fn decoding(src: Seq<u8>, version: Version) -> Result<(ErrorCode, nat), DecodeError> {
        match u16::decoding(src, version) {
            Err(e) => Err(e),
            Ok((code, n)) => if code == 0 {
                Ok((ErrorCode::NoError, n))
            } else if code == 1 {
                Ok((ErrorCode::ValidationFailed, n))
            } else {
                Err(DecodeError::InvalidData { reason: Invalid::Code(code) })
            },
        }
    }

    open spec fn failure_at(src: Seq<u8>, version: Version) -> nat {
        match u16::decoding(src, version) {
            Err(_) => 0,
            Ok(_) => 2,
        }
    }

    fn decode(&mut self, src: &mut ByteReader<'_>, version: Version) -> (r: Result<
        (),
        DecodeError,
    >) {
        let mut code: u16 = 0;
        code.decode(src, version)?;
        match code {
            0 => {
                *self = ErrorCode::NoError;
                Ok(())
            },
            1 => {
                *self = ErrorCode::ValidationFailed;
                Ok(())
            },
            _ => Err(DecodeError::InvalidData { reason: Invalid::Code(code) }),
        }
    }

    proof fn lemma_decoding_in_bounds(src: Seq<u8>, version: Version) {
    }

    proof fn lemma_round_trip(v: ErrorCode, version: Version, tail: Seq<u8>) {
        u16::lemma_round_trip(v.number(), version, tail);
    }
}

/// The answer to an administrative request: what it was about and how it
/// fared.
#[derive(Debug, Clone, PartialEq, Eq)]
pub struct Status {
    /// The name that the request was about.
    pub name: String,
    pub error_code: ErrorCode,
    /// What went wrong, in words, if something did.
    pub error_message: Option<String>,
}

/// The mathematical model of `Status`.
pub struct StatusView {
    pub name: Seq<char>,
    pub error_code: ErrorCode,
    pub error_message: Option<Seq<char>>,
}

impl DeepView for Status {
    type V = StatusView;

    open spec fn deep_view(&self) -> StatusView {
        StatusView {
            name: self.name.deep_view(),
            error_code: self.error_code.deep_view(),
            error_message: self.error_message.deep_view(),
        }
    }
}

impl Status {
    /// The value that stands where nothing was set.
    pub open spec fn blank() -> StatusView {
        StatusView {
            name: Seq::<char>::empty(),
            error_code: ErrorCode::NoError,
            error_message: None::<Seq<char>>,
        }
    }
}

impl Default for Status {
    fn default() -> (r: Self)
        ensures
            r.deep_view() == Status::blank(),
    {
        Status {
            name: String::new(),
            error_code: ErrorCode::NoError,
            error_message: None,
        }
    }
}

/// The fields of `Status`, one after the other.
#[verifier::opaque]
pub open spec fn status_encoding(v: StatusView, version: Version) -> Seq<u8> {
    String::encoding(v.name, version)
        + ErrorCode::encoding(v.error_code, version)
        + Option::<String>::encoding(v.error_message, version)
}

/// The `Status` whose fields follow each other at the start of `src`.
#[verifier::opaque]
pub open spec fn status_decoding(src: Seq<u8>, version: Version) -> Result<
    (StatusView, nat),
    DecodeError,
> {
    match String::decoding(src, version) {
        Err(e) => Err(e),
        Ok((name, n0)) => {
            let src = src.skip(n0 as int);
            match ErrorCode::decoding(src, version) {
                Err(e) => Err(e),
                Ok((error_code, n1)) => {
                    let src = src.skip(n1 as int);
                    match Option::<String>::decoding(src, version) {
                        Err(e) => Err(e),
                        Ok((error_message, n2)) => {
                            Ok((
                                StatusView { name, error_code, error_message },
                                n0 + n1 + n2,
                            ))
                        },
                    }
                },
            }
        },
    }
}

/// How many bytes of `src` have been read when reading a `Status` fails:
/// the fields before the one that fails, and what was read of that one.
#[verifier::opaque]
pub open spec fn status_failure_at(src: Seq<u8>, version: Version) -> nat {
    match String::decoding(src, version) {
        Err(_) => String::failure_at(src, version),
        Ok((_, n0)) => {
            let src = src.skip(n0 as int);
            match ErrorCode::decoding(src, version) {
                Err(_) => n0 + ErrorCode::failure_at(src, version),
                Ok((_, n1)) => {
                    let src = src.skip(n1 as int);
                    n0 + n1 + Option::<String>::failure_at(src, version)
                },
            }
        },
    }
}

impl Encoder for Status {
    open spec fn encoding(v: StatusView, version: Version) -> Seq<u8> {
        status_encoding(v, version)
    }

    open spec fn encodable(v: StatusView, version: Version) -> bool {
        &&& String::encodable(v.name, version)
        &&& ErrorCode::encodable(v.error_code, version)
        &&& Option::<String>::encodable(v.error_message, version)
    }

    fn write_size(&self, version: Version) -> (n: usize) {
        reveal(status_encoding);
        self.name.write_size(version)
            + self.error_code.write_size(version)
            + self.error_message.write_size(version)
    }

    fn encode(&self, dest: &mut Vec<u8>, version: Version) {
        self.name.encode(dest, version);
        self.error_code.encode(dest, version);
        self.error_message.encode(dest, version);
        assert(dest@ =~= old(dest)@ + status_encoding(self.deep_view(), version)) by {
            reveal(status_encoding);
        }
    }
}

impl Decoder for Status {
    open spec fn decoding(src: Seq<u8>, version: Version) -> Result<
        (StatusView, nat),
        DecodeError,
    > {
        status_decoding(src, version)
    }

    open spec fn failure_at(src: Seq<u8>, version: Version) -> nat {
        status_failure_at(src, version)
    }

    fn decode(&mut self, src: &mut ByteReader<'_>, version: Version) -> (r: Result<
        (),
        DecodeError,
    >) {
        reveal(status_decoding);
        reveal(status_failure_at);
        let ghost rest0 = src.rest();
        let mut name: String = String::new();
        name.decode(src, version)?;
        let mut error_code: ErrorCode = ErrorCode::NoError;
        error_code.decode(src, version)?;
        let mut error_message: Option<String> = None;
        error_message.decode(src, version)?;
        proof {
            use_type_invariant(&*src);
            assert(src.rest() =~= rest0.skip(src.position() - old(src).position()));
        }
        *self = Status { name, error_code, error_message };
        Ok(())
    }

    proof fn lemma_decoding_in_bounds(src: Seq<u8>, version: Version) {
        reveal(status_decoding);
        String::lemma_decoding_in_bounds(src, version);
        if let Ok((_, n0)) = String::decoding(src, version) {
            let src = src.skip(n0 as int);
            ErrorCode::lemma_decoding_in_bounds(src, version);
            if let Ok((_, n1)) = ErrorCode::decoding(src, version) {
                let src = src.skip(n1 as int);
                Option::<String>::lemma_decoding_in_bounds(src, version);
            }
        }
    }

    proof fn lemma_round_trip(v: StatusView, version: Version, tail: Seq<u8>) {
        reveal(status_encoding);
        reveal(status_decoding);
        let e0 = String::encoding(v.name, version);
        let e1 = ErrorCode::encoding(v.error_code, version);
        let e2 = Option::<String>::encoding(v.error_message, version);
        let r1 = e2 + tail;
        let r0 = e1 + r1;
        lemma_join3(e0, e1, e2, tail);
        String::lemma_round_trip(v.name, version, r0);
        lemma_skip_joined(e0, r0);
        ErrorCode::lemma_round_trip(v.error_code, version, r1);
        lemma_skip_joined(e1, r1);
        Option::<String>::lemma_round_trip(v.error_message, version, tail);
    }
}

} // verus!
