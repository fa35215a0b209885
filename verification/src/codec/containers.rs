//! Optional values and counted sequences.

use vstd::prelude::*;
use crate::codec::error::DecodeError;
use crate::codec::reader::ByteReader;
use crate::codec::sequence::{lemma_join2, lemma_skip_joined};
use crate::codec::traits::{Decoder, Encoder, Version};

verus! {

/// The most items a counted sequence can announce.
pub const MAX_ITEMS: usize = 0x7fff_ffff;

impl<T: Encoder> Encoder for Option<T> {
    open spec fn encoding(v: Option<T::V>, version: Version) -> Seq<u8> {
        match v {
            None => bool::encoding(false, version),
            Some(x) => bool::encoding(true, version) + T::encoding(x, version),
        }
    }

    open spec fn encodable(v: Option<T::V>, version: Version) -> bool {
        match v {
            None => true,
            Some(x) => T::encodable(x, version),
        }
    }

    fn write_size(&self, version: Version) -> (n: usize) {
        match self {
            None => 1,
            Some(x) => 1 + x.write_size(version),
        }
    }

    fn encode(&self, dest: &mut Vec<u8>, version: Version) {
        match self {
            None => {
                false.encode(dest, version);
            },
            Some(x) => {
                true.encode(dest, version);
                x.encode(dest, version);
                assert(dest@ =~= old(dest)@ + (bool::encoding(true, version) + T::encoding(
                    x.deep_view(),
                    version,
                )));
            },
        }
    }
}

impl<T: Decoder + Default> Decoder for Option<T> {
    open spec fn decoding(src: Seq<u8>, version: Version) -> Result<
        (Option<T::V>, nat),
        DecodeError,
    > {
        match bool::decoding(src, version) {
            Err(e) => Err(e),
            Ok((false, _)) => Ok((None, 1nat)),
            Ok((true, _)) => match T::decoding(src.skip(1), version) {
                Err(e) => Err(e),
                Ok((x, n)) => Ok((Some(x), n + 1)),
            },
        }
    }

    open spec fn failure_at(src: Seq<u8>, version: Version) -> nat {
        match bool::decoding(src, version) {
            Err(_) => bool::failure_at(src, version),
            Ok(_) => 1 + T::failure_at(src.skip(1), version),
        }
    }

    fn decode(&mut self, src: &mut ByteReader<'_>, version: Version) -> (r: Result<
        (),
        DecodeError,
    >) {
        let ghost rest0 = src.rest();
        let mut present: bool = false;
        present.decode(src, version)?;
        if present {
            let mut x = T::default();
            x.decode(src, version)?;
            proof {
                T::lemma_decoding_in_bounds(rest0.skip(1), version);
                let n = T::decoding(rest0.skip(1), version)->Ok_0.1;
                assert(src.rest() =~= rest0.skip(n as int + 1));
            }
            *self = Some(x);
        } else {
            *self = None;
        }
        Ok(())
    }

    proof fn lemma_decoding_in_bounds(src: Seq<u8>, version: Version) {
        if src.len() >= 1 {
            T::lemma_decoding_in_bounds(src.skip(1), version);
        }
    }

    proof fn lemma_round_trip(v: Option<T::V>, version: Version, tail: Seq<u8>) {
        match v {
            None => {},
            Some(x) => {
                T::lemma_round_trip(x, version, tail);
                let flag = bool::encoding(true, version);
                lemma_join2(flag, T::encoding(x, version), tail);
                lemma_skip_joined(flag, T::encoding(x, version) + tail);
            },
        }
    }
}

/// The encodings of `items`, one after the other.
pub open spec fn items_encoding<T: Encoder>(items: Seq<T::V>, version: Version) -> Seq<u8>
    decreases items.len(),
{
    if items.len() == 0 {
        Seq::empty()
    } else {
        items_encoding::<T>(items.drop_last(), version) + T::encoding(items.last(), version)
    }
}

/// The `count` values that follow each other at the start of `src`, and the
/// number of bytes they take together.
pub open spec fn items_decoding<T: Decoder>(src: Seq<u8>, count: nat, version: Version) -> Result<
    (Seq<T::V>, nat),
    DecodeError,
>
    decreases count,
{
    if count == 0 {
        Ok((Seq::empty(), 0nat))
    } else {
        match T::decoding(src, version) {
            Err(e) => Err(e),
            Ok((x, n)) => match items_decoding::<T>(
                src.skip(n as int),
                (count - 1) as nat,
                version,
            ) {
                Err(e) => Err(e),
                Ok((xs, m)) => Ok((seq![x] + xs, n + m)),
            },
        }
    }
}

/// How many bytes of `src` have been read when reading `count` values fails:
/// the values before the one that fails, and what was read of that one.
pub open spec fn items_failure_at<T: Decoder>(src: Seq<u8>, count: nat, version: Version) -> nat
    decreases count,
{
    if count == 0 {
        0
    } else {
        match T::decoding(src, version) {
            Err(_) => T::failure_at(src, version),
            Ok((_, n)) => n + items_failure_at::<T>(
                src.skip(n as int),
                (count - 1) as nat,
                version,
            ),
        }
    }
}

/// The result `r` of reading on, seen from before the items `done`, which
/// took `used` bytes.
pub open spec fn after_items<V>(
    done: Seq<V>,
    used: nat,
    r: Result<(Seq<V>, nat), DecodeError>,
) -> Result<(Seq<V>, nat), DecodeError> {
    match r {
        Err(e) => Err(e),
        Ok((xs, m)) => Ok((done + xs, used + m)),
    }
}

/// The encodings of the items are the encoding of the first, followed by
/// the encodings of the others.
proof fn lemma_items_encoding_first<T: Encoder>(items: Seq<T::V>, version: Version)
    requires
        items.len() > 0,
    ensures
        items_encoding::<T>(items, version) == T::encoding(items[0], version) + items_encoding::<T>(
            items.drop_first(),
            version,
        ),
    decreases items.len(),
{
    if items.len() == 1 {
        reveal_with_fuel(items_encoding, 2);
        assert(items.drop_last() =~= Seq::<T::V>::empty());
        assert(items.drop_first() =~= Seq::<T::V>::empty());
        assert(items_encoding::<T>(items, version) =~= T::encoding(items[0], version));
    } else {
        lemma_items_encoding_first::<T>(items.drop_last(), version);
        assert(items.drop_last().drop_first() =~= items.drop_first().drop_last());
        assert(items_encoding::<T>(items, version) =~= T::encoding(items[0], version)
            + items_encoding::<T>(items.drop_first(), version));
    }
}

/// The first `k` items take no more bytes than all of them.
proof fn lemma_items_encoding_grows<T: Encoder>(items: Seq<T::V>, k: int, version: Version)
    requires
        0 <= k <= items.len(),
    ensures
        items_encoding::<T>(items.take(k), version).len() <= items_encoding::<T>(
            items,
            version,
        ).len(),
    decreases items.len(),
{
    if k < items.len() {
        lemma_items_encoding_grows::<T>(items.drop_last(), k, version);
        assert(items.drop_last().take(k) =~= items.take(k));
    } else {
        assert(items.take(k) =~= items);
    }
}

/// Every item takes no more bytes than all items together.
pub proof fn lemma_items_encoding_covers<T: Encoder>(items: Seq<T::V>, i: int, version: Version)
    requires
        0 <= i < items.len(),
    ensures
        T::encoding(items[i], version).len() <= items_encoding::<T>(items, version).len(),
    decreases items.len(),
{
    if i < items.len() - 1 {
        lemma_items_encoding_covers::<T>(items.drop_last(), i, version);
    }
}

/// Items that were decoded lie within the input, and there are as many as
/// were asked for.
proof fn lemma_items_decoding_in_bounds<T: Decoder>(src: Seq<u8>, count: nat, version: Version)
    ensures
        items_decoding::<T>(src, count, version) matches Ok((xs, n)) ==> n <= src.len() && xs.len()
            == count,
    decreases count,
{
    if count > 0 {
        T::lemma_decoding_in_bounds(src, version);
        if let Ok((x, n)) = T::decoding(src, version) {
            lemma_items_decoding_in_bounds::<T>(src.skip(n as int), (count - 1) as nat, version);
        }
    }
}

/// Items that were written one after the other read back as they were,
/// whatever follows them.
proof fn lemma_items_round_trip<T: Decoder>(items: Seq<T::V>, version: Version, tail: Seq<u8>)
    requires
        forall|i: int| 0 <= i < items.len() ==> T::encodable(#[trigger] items[i], version),
    ensures
        items_decoding::<T>(items_encoding::<T>(items, version) + tail, items.len(), version)
            == Ok::<(Seq<T::V>, nat), DecodeError>(
            (items, items_encoding::<T>(items, version).len()),
        ),
    decreases items.len(),
{
    if items.len() > 0 {
        let first = T::encoding(items[0], version);
        let others = items_encoding::<T>(items.drop_first(), version);
        let whole = items_encoding::<T>(items, version) + tail;
        lemma_items_encoding_first::<T>(items, version);
        assert(whole =~= first + (others + tail));
        T::lemma_round_trip(items[0], version, others + tail);
        assert(whole.skip(first.len() as int) =~= others + tail);
        assert forall|i: int| 0 <= i < items.drop_first().len() implies T::encodable(
            #[trigger] items.drop_first()[i],
            version,
        ) by {
            assert(items.drop_first()[i] == items[i + 1]);
        }
        lemma_items_round_trip::<T>(items.drop_first(), version, tail);
        assert(seq![items[0]] + items.drop_first() =~= items);
    } else {
        assert(items =~= Seq::<T::V>::empty());
    }
}

/// The count prefix for `len` items.
pub open spec fn count_prefix(len: nat) -> i32 {
    (len % 0x8000_0000) as i32
}

impl<T: Encoder> Encoder for Vec<T> {
    open spec fn encoding(v: Seq<T::V>, version: Version) -> Seq<u8> {
        i32::encoding(count_prefix(v.len()), version) + items_encoding::<T>(v, version)
    }

    open spec fn encodable(v: Seq<T::V>, version: Version) -> bool {
        &&& v.len() <= MAX_ITEMS
        &&& forall|i: int| 0 <= i < v.len() ==> T::encodable(#[trigger] v[i], version)
    }

    fn write_size(&self, version: Version) -> (n: usize) {
        let ghost items = self.deep_view();
        let mut n: usize = 4;
        let mut i: usize = 0;
        while i < self.len()
            invariant
                i <= self.len(),
                items == self.deep_view(),
                n == 4 + items_encoding::<T>(items.take(i as int), version).len(),
                4 + items_encoding::<T>(items, version).len() <= usize::MAX,
            decreases self.len() - i,
        {
            proof {
                lemma_items_encoding_grows::<T>(items, i + 1, version);
                assert(items.take(i + 1).drop_last() =~= items.take(i as int));
                assert(items.take(i + 1).last() == self@[i as int].deep_view());
            }
            n = n + self[i].write_size(version);
            i = i + 1;
        }
        assert(items.take(i as int) =~= items);
        n
    }

    fn encode(&self, dest: &mut Vec<u8>, version: Version) {
        let ghost items = self.deep_view();
        let ghost start = dest@;
        let count: i32 = (self.len() as u64 % 0x8000_0000) as i32;
        count.encode(dest, version);
        let mut i: usize = 0;
        while i < self.len()
            invariant
                i <= self.len(),
                items == self.deep_view(),
                dest@ == start + i32::encoding(count_prefix(items.len()), version)
                    + items_encoding::<T>(items.take(i as int), version),
            decreases self.len() - i,
        {
            let ghost before = dest@;
            self[i].encode(dest, version);
            proof {
                assert(items.take(i + 1).drop_last() =~= items.take(i as int));
                assert(items.take(i + 1).last() == self@[i as int].deep_view());
                assert(dest@ =~= start + i32::encoding(count_prefix(items.len()), version)
                    + items_encoding::<T>(items.take(i + 1), version));
            }
            i = i + 1;
        }
        assert(items.take(i as int) =~= items);
        assert(dest@ =~= start + (i32::encoding(count_prefix(items.len()), version)
            + items_encoding::<T>(items, version)));
    }
}

impl<T: Decoder + Default> Decoder for Vec<T> {
    open spec fn decoding(src: Seq<u8>, version: Version) -> Result<(Seq<T::V>, nat), DecodeError> {
        match i32::decoding(src, version) {
            Err(e) => Err(e),
            Ok((count, _)) => if count < 1 {
                Ok((Seq::empty(), 4nat))
            } else {
                after_items(
                    Seq::empty(),
                    4,
                    items_decoding::<T>(src.skip(4), count as nat, version),
                )
            },
        }
    }

    open spec fn failure_at(src: Seq<u8>, version: Version) -> nat {
        match i32::decoding(src, version) {
            Err(_) => 0,
            Ok((count, _)) => 4 + items_failure_at::<T>(src.skip(4), count as nat, version),
        }
    }

    fn decode(&mut self, src: &mut ByteReader<'_>, version: Version) -> (r: Result<
        (),
        DecodeError,
    >) {
        let ghost rest0 = src.rest();
        let mut count: i32 = 0;
        count.decode(src, version)?;
        let mut out: Vec<T> = Vec::new();
        if count < 1 {
            assert(out.deep_view() =~= Seq::<T::V>::empty());
            *self = out;
            return Ok(());
        }
        let ghost body = rest0.skip(4);
        let ghost mut used: nat = 0;
        let mut i: i32 = 0;
        proof {
            assert(body.skip(0) =~= body);
            if let Ok((xs, m)) = items_decoding::<T>(body, count as nat, version) {
                assert(Seq::<T::V>::empty() + xs =~= xs);
            }
        }
        while i < count
            invariant
                0 <= i <= count,
                rest0 == old(src).rest(),
                i32::decoding(rest0, version) == Ok::<(i32, nat), DecodeError>((count, 4nat)),
                body == rest0.skip(4),
                src.data() == old(src).data(),
                items_failure_at::<T>(body, count as nat, version) == used + items_failure_at::<T>(
                    body.skip(used as int),
                    (count - i) as nat,
                    version,
                ),
                src.position() == old(src).position() + 4 + used,
                src.rest() == body.skip(used as int),
                used <= body.len(),
                *self == *old(self),
                items_decoding::<T>(body, count as nat, version) == after_items(
                    out.deep_view(),
                    used,
                    items_decoding::<T>(body.skip(used as int), (count - i) as nat, version),
                ),
            decreases count - i,
        {
            let ghost here = body.skip(used as int);
            let ghost done = out.deep_view();
            proof {
                T::lemma_decoding_in_bounds(here, version);
            }
            let mut x = T::default();
            x.decode(src, version)?;
            out.push(x);
            proof {
                let n = T::decoding(here, version)->Ok_0.1;
                assert(out.deep_view() =~= done.push(x.deep_view()));
                assert(body.skip((used + n) as int) =~= here.skip(n as int));
                let later = items_decoding::<T>(
                    here.skip(n as int),
                    (count - i - 1) as nat,
                    version,
                );
                match later {
                    Err(e) => {},
                    Ok((xs, m)) => {
                        assert(done + (seq![x.deep_view()] + xs) =~= done.push(x.deep_view()) + xs);
                    },
                }
                used = used + n;
            }
            i = i + 1;
        }
        proof {
            assert(out.deep_view() + Seq::<T::V>::empty() =~= out.deep_view());
            assert(src.rest() =~= rest0.skip(4 + used as int));
        }
        *self = out;
        Ok(())
    }

    proof fn lemma_decoding_in_bounds(src: Seq<u8>, version: Version) {
        if let Ok((count, _)) = i32::decoding(src, version) {
            if count >= 1 {
                lemma_items_decoding_in_bounds::<T>(src.skip(4), count as nat, version);
            }
        }
    }

    proof fn lemma_round_trip(v: Seq<T::V>, version: Version, tail: Seq<u8>) {
        let count = v.len();
        let items = items_encoding::<T>(v, version);
        let prefix = i32::encoding(count_prefix(count), version);
        let whole = prefix + items + tail;
        lemma_join2(prefix, items, tail);
        i32::lemma_round_trip(count_prefix(count), version, items + tail);
        if count >= 1 {
            lemma_items_round_trip::<T>(v, version, tail);
            lemma_skip_joined(prefix, items + tail);
            assert(Seq::<T::V>::empty() + v =~= v);
        } else {
            assert(v =~= Seq::<T::V>::empty());
            assert(items =~= Seq::<u8>::empty());
        }
    }
}

} // verus!
