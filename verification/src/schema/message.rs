//! The frame in which a request travels: the key that tells its kind, the
//! version it speaks, and the request itself under that version.

use vstd::prelude::*;
use crate::codec::error::{DecodeError, Invalid};
use crate::codec::reader::ByteReader;
use crate::codec::sequence::{lemma_join2, lemma_skip_joined};
use crate::codec::traits::{Decoder, Encoder, Version};
use crate::schema::request::Request;

verus! {

/// What stands before the body of every request.
#[derive(Debug, Clone, Copy, PartialEq, Eq, Structural)]
pub struct RequestHeader {
    /// Tells the kind of request that follows.
    pub api_key: u16,
    /// The version under which the request that follows is written.
    pub api_version: Version,
}

/// A request with its header.
#[derive(Debug)]
pub struct RequestMessage<R> {
    pub header: RequestHeader,
    pub request: R,
}

/// The mathematical model of a request with its header.
pub struct RequestMessageView<V> {
    pub header: RequestHeader,
    pub request: V,
}

impl<R: DeepView> DeepView for RequestMessage<R> {
    type V = RequestMessageView<R::V>;

    open spec fn deep_view(&self) -> RequestMessageView<R::V> {
        RequestMessageView { header: self.header, request: self.request.deep_view() }
    }
}

/// The bytes of a frame: key, version, and the request under that version.
pub open spec fn message_encoding<R: Request>(m: RequestMessageView<R::V>) -> Seq<u8> {
    u16::encoding(m.header.api_key, 0) + (i16::encoding(m.header.api_version, 0) + R::encoding(
        m.request,
        m.header.api_version,
    ))
}

/// The frame at the start of `src`, read as a request of kind `R`. A frame
/// under another key is no request of this kind.
pub open spec fn message_decoding<R: Request>(src: Seq<u8>) -> Result<
    (RequestMessageView<R::V>, nat),
    DecodeError,
> {
    match u16::decoding(src, 0) {
        Err(e) => Err(e),
        Ok((api_key, _)) => match i16::decoding(src.skip(2), 0) {
            Err(e) => Err(e),
            Ok((api_version, _)) => if api_key != R::API_KEY {
                Err(DecodeError::InvalidData { reason: Invalid::Code(api_key) })
            } else {
                match R::decoding(src.skip(2).skip(2), api_version) {
                    Err(e) => Err(e),
                    Ok((request, n)) => Ok(
                        (
                            RequestMessageView {
                                header: RequestHeader { api_key, api_version },
                                request,
                            },
                            n + 4,
                        ),
                    ),
                }
            },
        },
    }
}

/// How many bytes of `src` have been read when reading a frame fails: what
/// of key and version is there, and what was read of the request.
pub open spec fn message_failure_at<R: Request>(src: Seq<u8>) -> nat {
    match u16::decoding(src, 0) {
        Err(_) => 0,
        Ok((api_key, _)) => match i16::decoding(src.skip(2), 0) {
            Err(_) => 2,
            Ok((api_version, _)) => if api_key != R::API_KEY {
                4
            } else {
                4 + R::failure_at(src.skip(2).skip(2), api_version)
            },
        },
    }
}

impl<R: Request + Default> RequestMessage<R> {
    /// The frame for `request` under the version that this kind of request
    /// speaks unless another is agreed.
    pub fn new_request(request: R) -> (m: Self)
        ensures
            m.header == (RequestHeader {
                api_key: R::API_KEY,
                api_version: R::DEFAULT_API_VERSION,
            }),
            m.request == request,
    {
        RequestMessage {
            header: RequestHeader { api_key: R::API_KEY, api_version: R::DEFAULT_API_VERSION },
            request,
        }
    }

    /// The frame for `request` under `version`.
    pub fn with_version(request: R, version: Version) -> (m: Self)
        ensures
            m.header == (RequestHeader { api_key: R::API_KEY, api_version: version }),
            m.request == request,
    {
        RequestMessage {
            header: RequestHeader { api_key: R::API_KEY, api_version: version },
            request,
        }
    }

    /// The number of bytes that `encode` writes.
    pub fn write_size(&self) -> (n: usize)
        requires
            message_encoding::<R>(self.deep_view()).len() <= usize::MAX,
        ensures
            n == message_encoding::<R>(self.deep_view()).len(),
    {
        4 + self.request.write_size(self.header.api_version)
    }

    /// Appends the frame to `dest`.
    pub fn encode(&self, dest: &mut Vec<u8>)
        ensures
            final(dest)@ == old(dest)@ + message_encoding::<R>(self.deep_view()),
    {
        self.header.api_key.encode(dest, 0);
        self.header.api_version.encode(dest, 0);
        self.request.encode(dest, self.header.api_version);
        assert(dest@ =~= old(dest)@ + message_encoding::<R>(self.deep_view()));
    }

    /// Reads one frame from `src` as a request of kind `R`. On failure the
    /// cursor stands where the failure was found.
    pub fn decode_from(src: &mut ByteReader<'_>) -> (r: Result<Self, DecodeError>)
        ensures
            final(src).data() == old(src).data(),
            match message_decoding::<R>(old(src).rest()) {
                Ok((m, n)) => {
                    &&& r matches Ok(message)
                    &&& message.deep_view() == m
                    &&& final(src).position() == old(src).position() + n
                },
                Err(e) => {
                    &&& r matches Err(found)
                    &&& found == e
                    &&& final(src).position() == old(src).position() + message_failure_at::<R>(
                        old(src).rest(),
                    )
                },
            },
    {
        let mut api_key: u16 = 0;
        api_key.decode(src, 0)?;
        let mut api_version: Version = 0;
        api_version.decode(src, 0)?;
        if api_key != R::API_KEY {
            return Err(DecodeError::InvalidData { reason: Invalid::Code(api_key) });
        }
        let mut request = R::default();
        request.decode(src, api_version)?;
        Ok(RequestMessage { header: RequestHeader { api_key, api_version }, request })
    }
}

/// A frame reads back as it was written, where it carries the key of its
/// kind and a request that can be read back under its version.
pub proof fn lemma_message_round_trip<R: Request>(m: RequestMessageView<R::V>, tail: Seq<u8>)
    requires
        m.header.api_key == R::API_KEY,
        R::encodable(m.request, m.header.api_version),
    ensures
        message_decoding::<R>(message_encoding::<R>(m) + tail) == Ok::<
            (RequestMessageView<R::V>, nat),
            DecodeError,
        >((m, message_encoding::<R>(m).len())),
{
    let key = u16::encoding(m.header.api_key, 0);
    let version = i16::encoding(m.header.api_version, 0);
    let body = R::encoding(m.request, m.header.api_version);
    lemma_join2(version, body, tail);
    lemma_join2(key, version + body, tail);
    u16::lemma_round_trip(m.header.api_key, 0, version + (body + tail));
    lemma_skip_joined(key, version + (body + tail));
    i16::lemma_round_trip(m.header.api_version, 0, body + tail);
    lemma_skip_joined(version, body + tail);
    R::lemma_round_trip(m.request, m.header.api_version, tail);
}

} // verus!
