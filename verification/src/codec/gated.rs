//! Fields that are carried from some version on.
//!
//! Below its version such a field is not on the wire at all: it takes no
//! bytes, and reading leaves it at the value that stands for nothing.

use vstd::prelude::*;
use crate::codec::error::DecodeError;
use crate::codec::reader::ByteReader;
use crate::codec::traits::{Decoder, Encoder, Version};

verus! {

/// The bytes of a field that is carried from version `since` on.
pub open spec fn gated_encoding<T: Encoder>(since: Version, v: T::V, version: Version) -> Seq<u8> {
    if version >= since {
        T::encoding(v, version)
    } else {
        Seq::empty()
    }
}

/// Whether a field that is carried from version `since` on can be read back
/// under `version`: below `since` only the value `blank` can, since nothing
/// of the field is written.
pub open spec fn gated_encodable<T: Encoder>(
    since: Version,
    blank: T::V,
    v: T::V,
    version: Version,
) -> bool {
    if version >= since {
        T::encodable(v, version)
    } else {
        v == blank
    }
}

/// The field at the start of `src`, where it is carried from version
/// `since` on and stands at `blank` below.
pub open spec fn gated_decoding<T: Decoder>(
    since: Version,
    blank: T::V,
    src: Seq<u8>,
    version: Version,
) -> Result<(T::V, nat), DecodeError> {
    if version >= since {
        T::decoding(src, version)
    } else {
        Ok((blank, 0nat))
    }
}

/// How many bytes of `src` have been read when reading the field fails.
pub open spec fn gated_failure_at<T: Decoder>(
    since: Version,
    src: Seq<u8>,
    version: Version,
) -> nat {
    if version >= since {
        T::failure_at(src, version)
    } else {
        0
    }
}

/// The number of bytes that the field takes under `version`.
pub fn gated_size<T: Encoder>(value: &T, since: Version, version: Version) -> (n: usize)
    requires
        gated_encoding::<T>(since, value.deep_view(), version).len() <= usize::MAX,
    ensures
        n == gated_encoding::<T>(since, value.deep_view(), version).len(),
{
    if version >= since {
        value.write_size(version)
    } else {
        0
    }
}

/// Appends the field to `dest` if `version` carries it.
pub fn gated_encode<T: Encoder>(value: &T, since: Version, dest: &mut Vec<u8>, version: Version)
    ensures
        final(dest)@ == old(dest)@ + gated_encoding::<T>(since, value.deep_view(), version),
{
    if version >= since {
        value.encode(dest, version);
    } else {
        assert(dest@ =~= old(dest)@ + Seq::<u8>::empty());
    }
}

/// Reads the field from `src` if `version` carries it, and leaves it as it
/// is otherwise.
pub fn gated_decode<T: Decoder>(
    value: &mut T,
    since: Version,
    src: &mut ByteReader<'_>,
    version: Version,
) -> (r: Result<(), DecodeError>)
    ensures
        final(src).data() == old(src).data(),
        match gated_decoding::<T>(since, old(value).deep_view(), old(src).rest(), version) {
            Ok((v, n)) => {
                &&& r is Ok
                &&& final(value).deep_view() == v
                &&& final(src).position() == old(src).position() + n
                &&& final(src).rest() == old(src).rest().skip(n as int)
            },
            Err(e) => {
                &&& r == Err::<(), DecodeError>(e)
                &&& *final(value) == *old(value)
                &&& final(src).position() == old(src).position() + gated_failure_at::<T>(
                    since,
                    old(src).rest(),
                    version,
                )
            },
        },
{
    if version >= since {
        value.decode(src, version)
    } else {
        proof {
            use_type_invariant(&*src);
            assert(src.rest().skip(0) =~= src.rest());
        }
        Ok(())
    }
}

/// A field that was decoded lies within the input.
pub proof fn lemma_gated_in_bounds<T: Decoder>(
    since: Version,
    blank: T::V,
    src: Seq<u8>,
    version: Version,
)
    ensures
        gated_decoding::<T>(since, blank, src, version) matches Ok((_, n)) ==> n <= src.len(),
{
    if version >= since {
        T::lemma_decoding_in_bounds(src, version);
    }
}

/// A field reads back under every version: as it was written where the
/// version carries it, and as the blank value, which is all it can be,
/// where the version does not.
pub proof fn lemma_gated_round_trip<T: Decoder>(
    since: Version,
    blank: T::V,
    v: T::V,
    version: Version,
    tail: Seq<u8>,
)
    requires
        gated_encodable::<T>(since, blank, v, version),
    ensures
        gated_decoding::<T>(
            since,
            blank,
            gated_encoding::<T>(since, v, version) + tail,
            version,
        ) == Ok::<(T::V, nat), DecodeError>((v, gated_encoding::<T>(since, v, version).len())),
{
    if version >= since {
        T::lemma_round_trip(v, version, tail);
    } else {
        assert(Seq::<u8>::empty() + tail =~= tail);
    }
}

} // verus!
