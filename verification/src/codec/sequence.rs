//! Facts about byte strings laid end to end, for fields that follow each
//! other on the wire.

use vstd::prelude::*;
use crate::codec::error::DecodeError;
use crate::codec::traits::{Decoder, Version};

verus! {

/// Skipping the first of two joined strings leaves the second.
pub proof fn lemma_skip_joined(a: Seq<u8>, b: Seq<u8>)
    ensures
        (a + b).skip(a.len() as int) == b,
        (a + b).len() == a.len() + b.len(),
{
    assert((a + b).skip(a.len() as int) =~= b);
}

/// Two skips in a row are one skip.
pub proof fn lemma_skip_twice(s: Seq<u8>, m: nat, n: nat)
    requires
        m + n <= s.len(),
    ensures
        s.skip(m as int).skip(n as int) == s.skip((m + n) as int),
{
    assert(s.skip(m as int).skip(n as int) =~= s.skip((m + n) as int));
}

/// Two strings followed by a third are the first followed by the rest.
pub proof fn lemma_join2(a: Seq<u8>, b: Seq<u8>, t: Seq<u8>)
    ensures
        a + b + t == a + (b + t),
{
    assert(a + b + t =~= a + (b + t));
}

/// Three strings followed by a fourth, regrouped from the right.
pub proof fn lemma_join3(a: Seq<u8>, b: Seq<u8>, c: Seq<u8>, t: Seq<u8>)
    ensures
        a + b + c + t == a + (b + (c + t)),
{
    assert(a + b + c + t =~= a + (b + (c + t)));
}

/// Four strings followed by a fifth, regrouped from the right.
pub proof fn lemma_join4(a: Seq<u8>, b: Seq<u8>, c: Seq<u8>, d: Seq<u8>, t: Seq<u8>)
    ensures
        a + b + c + d + t == a + (b + (c + (d + t))),
{
    assert(a + b + c + d + t =~= a + (b + (c + (d + t))));
}

/// Five strings followed by a sixth, regrouped from the right.
pub proof fn lemma_join5(
    a: Seq<u8>,
    b: Seq<u8>,
    c: Seq<u8>,
    d: Seq<u8>,
    e: Seq<u8>,
    t: Seq<u8>,
)
    ensures
        a + b + c + d + e + t == a + (b + (c + (d + (e + t)))),
{
    assert(a + b + c + d + e + t =~= a + (b + (c + (d + (e + t)))));
}

/// If the encoding of `v` stands at offset `at` of `whole`, followed by
/// `rest`, then decoding there gives `v` back and `rest` follows it.
pub proof fn lemma_field<T: Decoder>(
    v: T::V,
    version: Version,
    whole: Seq<u8>,
    at: nat,
    rest: Seq<u8>,
)
    requires
        T::encodable(v, version),
        at <= whole.len(),
        whole.skip(at as int) == T::encoding(v, version) + rest,
    ensures
        T::decoding(whole.skip(at as int), version) == Ok::<(T::V, nat), DecodeError>(
            (v, T::encoding(v, version).len()),
        ),
        at + T::encoding(v, version).len() <= whole.len(),
        whole.skip((at + T::encoding(v, version).len()) as int) == rest,
        whole.skip(at as int).skip(T::encoding(v, version).len() as int) == rest,
{
    let e = T::encoding(v, version);
    T::lemma_round_trip(v, version, rest);
    lemma_skip_joined(e, rest);
    lemma_skip_twice(whole, at, e.len());
}

} // verus!
