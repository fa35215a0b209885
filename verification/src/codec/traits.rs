//! The encode and decode contracts shared by every wire type.

use vstd::prelude::*;
use crate::codec::error::DecodeError;
use crate::codec::reader::ByteReader;

verus! {

/// Protocol version negotiated between the two ends of a connection, or
/// between the writer and the reader of a file.
pub type Version = i16;

/// A value that can be written to a byte sink under a version.
///
/// The mathematical model of a value is its deep view; the wire format is a
/// function of that model alone.
pub trait Encoder: DeepView {
    /// The bytes that stand for `v` under `version`.
    spec fn encoding(v: Self::V, version: Version) -> Seq<u8>;

    /// Whether `v` reads back from its encoding under `version`: every
    /// length inside it fits the prefix that announces it, and it uses no
    /// field that the version does not carry.
    spec fn encodable(v: Self::V, version: Version) -> bool;

    /// The exact number of bytes that `encode` writes.
    fn write_size(&self, version: Version) -> (n: usize)
        requires
            Self::encoding(self.deep_view(), version).len() <= usize::MAX,
        ensures
            n == Self::encoding(self.deep_view(), version).len(),
    ;

    /// Appends the encoding of `self` to `dest`.
    fn encode(&self, dest: &mut Vec<u8>, version: Version)
        ensures
            final(dest)@ == old(dest)@ + Self::encoding(self.deep_view(), version),
    ;
}

/// A value that can be read back from bytes under a version.
pub trait Decoder: Encoder + Sized {
    /// The value that a prefix of `src` stands for, with the length of that
    /// prefix, or the reason why there is none.
    spec fn decoding(src: Seq<u8>, version: Version) -> Result<(Self::V, nat), DecodeError>;

    /// How many bytes of `src` have been read when decoding fails: reading
    /// stops where the failure is found, and what was read stays read. It
    /// has a meaning only where `decoding` fails.
    spec fn failure_at(src: Seq<u8>, version: Version) -> nat;

    /// Reads one value from `src` into `self`. On failure `self` is left as
    /// it was, and the cursor stands where the failure was found.
    fn decode(&mut self, src: &mut ByteReader<'_>, version: Version) -> (r: Result<
        (),
        DecodeError,
    >)
        ensures
            final(src).data() == old(src).data(),
            match Self::decoding(old(src).rest(), version) {
                Ok((v, n)) => {
                    &&& r is Ok
                    &&& final(self).deep_view() == v
                    &&& final(src).position() == old(src).position() + n
                    &&& final(src).rest() == old(src).rest().skip(n as int)
                },
                Err(e) => {
                    &&& r == Err::<(), DecodeError>(e)
                    &&& *final(self) == *old(self)
                    &&& final(src).position() == old(src).position() + Self::failure_at(
                        old(src).rest(),
                        version,
                    )
                },
            },
    ;

    /// A decoded value never claims more bytes than the input holds.
    proof fn lemma_decoding_in_bounds(src: Seq<u8>, version: Version)
        ensures
            Self::decoding(src, version) matches Ok((_, n)) ==> n <= src.len(),
    ;

    /// Reading what was written gives the value back, whatever follows it.
    proof fn lemma_round_trip(v: Self::V, version: Version, tail: Seq<u8>)
        requires
            Self::encodable(v, version),
        ensures
            Self::decoding(Self::encoding(v, version) + tail, version) == Ok::<
                (Self::V, nat),
                DecodeError,
            >((v, Self::encoding(v, version).len())),
    ;
}

/// The bytes that stand for `value` under `version`.
pub fn as_bytes<T: Encoder>(value: &T, version: Version) -> (bytes: Vec<u8>)
    ensures
        bytes@ == T::encoding(value.deep_view(), version),
{
    let mut bytes: Vec<u8> = Vec::new();
    value.encode(&mut bytes, version);
    assert(bytes@ =~= T::encoding(value.deep_view(), version));
    bytes
}

/// Reads one value from `src`. On failure the cursor stands where the
/// failure was found.
pub fn decode_from<T: Decoder + Default>(src: &mut ByteReader<'_>, version: Version) -> (r: Result<
    T,
    DecodeError,
>)
    ensures
        final(src).data() == old(src).data(),
        match T::decoding(old(src).rest(), version) {
            Ok((v, n)) => {
                &&& r matches Ok(value)
                &&& value.deep_view() == v
                &&& final(src).position() == old(src).position() + n
                &&& final(src).rest() == old(src).rest().skip(n as int)
            },
            Err(e) => {
                &&& r matches Err(found)
                &&& found == e
                &&& final(src).position() == old(src).position() + T::failure_at(
                    old(src).rest(),
                    version,
                )
            },
        },
{
    let mut value = T::default();
    match value.decode(src, version) {
        Ok(_) => Ok(value),
        Err(e) => Err(e),
    }
}

/// Reading the bytes of a value that can be read back gives the value, and
/// uses up all the bytes.
pub proof fn lemma_bytes_read_back<T: Decoder>(v: T::V, version: Version)
    requires
        T::encodable(v, version),
    ensures
        T::decoding(T::encoding(v, version), version) == Ok::<(T::V, nat), DecodeError>(
            (v, T::encoding(v, version).len()),
        ),
{
    T::lemma_round_trip(v, version, Seq::empty());
    assert(T::encoding(v, version) + Seq::<u8>::empty() =~= T::encoding(v, version));
}

} // verus!
