//! Batches: the unit that a log stores.
//!
//! On disk a batch is 57 bytes of header followed by its records. The header
//! declares how many bytes follow its first twelve, so a reader can step over
//! the records without decoding them.

use vstd::prelude::*;
use crate::codec::error::DecodeError;
use crate::codec::ints::lemma_fixed_width_prefix;
use crate::codec::reader::ByteReader;
use crate::codec::sequence::{lemma_field, lemma_join2, lemma_join3, lemma_skip_twice};
use crate::codec::traits::{Decoder, Encoder, Version};
use crate::storage::record::{Record, RecordHeader, RecordView};

verus! {

/// Logical position of a record in a log.
pub type Offset = i64;

/// Byte position or byte count in a segment file.
pub type Size = u64;

/// Bytes taken by the base offset and the declared length.
pub const BATCH_PREAMBLE_SIZE: usize = 12;

/// Bytes of header that the declared length counts.
pub const BATCH_HEADER_SIZE: usize = 45;

/// Bytes from the start of a batch to its first record.
pub const BATCH_FILE_HEADER_SIZE: usize = 57;

/// The timestamp of a batch that has none.
pub const NO_TIMESTAMP: i64 = -1;

/// The producer id of a batch that names no producer.
pub const NO_PRODUCER_ID: i64 = -1;

/// The epoch of a batch that names none.
pub const NO_EPOCH: i16 = -1;

/// The leader epoch of a batch that names none.
pub const NO_LEADER_EPOCH: i32 = -1;

/// The sequence number of a batch that has none.
pub const NO_SEQUENCE: i32 = -1;

/// What a batch says of itself, after its base offset and declared length.
#[derive(Debug, Clone, Copy, PartialEq, Eq, Structural)]
pub struct BatchHeader {
    pub partition_leader_epoch: i32,
    pub magic: i8,
    /// Checksum slot. It is carried as given; nothing computes or checks it.
    pub crc: u32,
    /// Compression and timestamp flags.
    pub attributes: i16,
    /// Offset of the last record, counted from the base offset.
    pub last_offset_delta: i32,
    pub first_timestamp: i64,
    pub max_time_stamp: i64,
    pub producer_id: i64,
    pub producer_epoch: i16,
    pub first_sequence: i32,
}

impl DeepView for BatchHeader {
    type V = BatchHeader;

    open spec fn deep_view(&self) -> BatchHeader {
        *self
    }
}

impl BatchHeader {
    /// The header of a batch that nobody has filled in yet.
    pub open spec fn blank() -> BatchHeader {
        BatchHeader {
            partition_leader_epoch: NO_LEADER_EPOCH,
            magic: 2,
            crc: 0,
            attributes: 0,
            last_offset_delta: 0,
            first_timestamp: NO_TIMESTAMP,
            max_time_stamp: NO_TIMESTAMP,
            producer_id: NO_PRODUCER_ID,
            producer_epoch: NO_EPOCH,
            first_sequence: NO_SEQUENCE,
        }
    }
}

impl Default for BatchHeader {
    fn default() -> (r: Self)
        ensures
            r == BatchHeader::blank(),
    {
        BatchHeader {
            partition_leader_epoch: NO_LEADER_EPOCH,
            magic: 2,
            crc: 0,
            attributes: 0,
            last_offset_delta: 0,
            first_timestamp: NO_TIMESTAMP,
            max_time_stamp: NO_TIMESTAMP,
            producer_id: NO_PRODUCER_ID,
            producer_epoch: NO_EPOCH,
            first_sequence: NO_SEQUENCE,
        }
    }
}

/// The value of type `T` that stands at offset `at` of `src`.
pub open spec fn value_at<T: Decoder>(src: Seq<u8>, at: nat, version: Version) -> T::V {
    T::decoding(src.skip(at as int), version)->Ok_0.0
}

/// The 45 bytes of a batch header: its fields, one after the other.
#[verifier::opaque]
pub open spec fn batch_header_encoding(v: BatchHeader, version: Version) -> Seq<u8> {
    i32::encoding(v.partition_leader_epoch, version)
        + i8::encoding(v.magic, version)
        + u32::encoding(v.crc, version)
        + i16::encoding(v.attributes, version)
        + i32::encoding(v.last_offset_delta, version)
        + i64::encoding(v.first_timestamp, version)
        + i64::encoding(v.max_time_stamp, version)
        + i64::encoding(v.producer_id, version)
        + i16::encoding(v.producer_epoch, version)
        + i32::encoding(v.first_sequence, version)
}

/// The batch header spelled by the first 45 bytes of `src`.
#[verifier::opaque]
pub open spec fn batch_header_decoding(src: Seq<u8>, version: Version) -> Result<
    (BatchHeader, nat),
    DecodeError,
> {
    if src.len() < BATCH_HEADER_SIZE {
        Err(DecodeError::UnexpectedEnd)
    } else {
        Ok(
            (
                BatchHeader {
                    partition_leader_epoch: value_at::<i32>(src, 0, version),
                    magic: value_at::<i8>(src, 4, version),
                    crc: value_at::<u32>(src, 5, version),
                    attributes: value_at::<i16>(src, 9, version),
                    last_offset_delta: value_at::<i32>(src, 11, version),
                    first_timestamp: value_at::<i64>(src, 15, version),
                    max_time_stamp: value_at::<i64>(src, 23, version),
                    producer_id: value_at::<i64>(src, 31, version),
                    producer_epoch: value_at::<i16>(src, 39, version),
                    first_sequence: value_at::<i32>(src, 41, version),
                },
                BATCH_HEADER_SIZE as nat,
            ),
        )
    }
}

/// A batch header takes 45 bytes, whatever it says.
pub proof fn lemma_batch_header_len(v: BatchHeader, version: Version)
    ensures
        batch_header_encoding(v, version).len() == BATCH_HEADER_SIZE,
{
    reveal(batch_header_encoding);
}

impl Encoder for BatchHeader {
    open spec fn encoding(v: BatchHeader, version: Version) -> Seq<u8> {
        batch_header_encoding(v, version)
    }

    open spec fn encodable(v: BatchHeader, version: Version) -> bool {
        true
    }

    fn write_size(&self, version: Version) -> (n: usize) {
        proof {
            lemma_batch_header_len(*self, version);
        }
        BATCH_HEADER_SIZE
    }

    fn encode(&self, dest: &mut Vec<u8>, version: Version) {
        let mut out: Vec<u8> = Vec::new();
        self.partition_leader_epoch.encode(&mut out, version);
        self.magic.encode(&mut out, version);
        self.crc.encode(&mut out, version);
        self.attributes.encode(&mut out, version);
        self.last_offset_delta.encode(&mut out, version);
        self.first_timestamp.encode(&mut out, version);
        self.max_time_stamp.encode(&mut out, version);
        self.producer_id.encode(&mut out, version);
        self.producer_epoch.encode(&mut out, version);
        self.first_sequence.encode(&mut out, version);
        assert(out@ =~= batch_header_encoding(*self, version)) by {
            reveal(batch_header_encoding);
        }
        dest.extend_from_slice(out.as_slice());
    }
}

impl Decoder for BatchHeader {
    open spec fn decoding(src: Seq<u8>, version: Version) -> Result<
        (BatchHeader, nat),
        DecodeError,
    > {
        batch_header_decoding(src, version)
    }

    open spec fn failure_at(src: Seq<u8>, version: Version) -> nat {
        0
    }

    fn decode(&mut self, src: &mut ByteReader<'_>, version: Version) -> (r: Result<
        (),
        DecodeError,
    >) {
        let ghost rest0 = src.rest();
        let ghost data = src.data();
        let ghost begin = src.position();
        reveal(batch_header_decoding);
        if src.remaining() < BATCH_HEADER_SIZE {
            return Err(DecodeError::UnexpectedEnd);
        }
        proof {
            lemma_skip_twice(data, begin, 0);
            lemma_skip_twice(data, begin, 4);
            lemma_skip_twice(data, begin, 5);
            lemma_skip_twice(data, begin, 9);
            lemma_skip_twice(data, begin, 11);
            lemma_skip_twice(data, begin, 15);
            lemma_skip_twice(data, begin, 23);
            lemma_skip_twice(data, begin, 31);
            lemma_skip_twice(data, begin, 39);
            lemma_skip_twice(data, begin, 41);
            lemma_skip_twice(data, begin, 45);
        }
        let mut partition_leader_epoch: i32 = 0;
        partition_leader_epoch.decode(src, version)?;
        let mut magic: i8 = 0;
        magic.decode(src, version)?;
        let mut crc: u32 = 0;
        crc.decode(src, version)?;
        let mut attributes: i16 = 0;
        attributes.decode(src, version)?;
        let mut last_offset_delta: i32 = 0;
        last_offset_delta.decode(src, version)?;
        let mut first_timestamp: i64 = 0;
        first_timestamp.decode(src, version)?;
        let mut max_time_stamp: i64 = 0;
        max_time_stamp.decode(src, version)?;
        let mut producer_id: i64 = 0;
        producer_id.decode(src, version)?;
        let mut producer_epoch: i16 = 0;
        producer_epoch.decode(src, version)?;
        let mut first_sequence: i32 = 0;
        first_sequence.decode(src, version)?;
        *self = BatchHeader {
            partition_leader_epoch,
            magic,
            crc,
            attributes,
            last_offset_delta,
            first_timestamp,
            max_time_stamp,
            producer_id,
            producer_epoch,
            first_sequence,
        };
        Ok(())
    }

    proof fn lemma_decoding_in_bounds(src: Seq<u8>, version: Version) {
        reveal(batch_header_decoding);
    }

    proof fn lemma_round_trip(v: BatchHeader, version: Version, tail: Seq<u8>) {
        reveal(batch_header_encoding);
        reveal(batch_header_decoding);
        let e0 = i32::encoding(v.partition_leader_epoch, version);
        let e1 = i8::encoding(v.magic, version);
        let e2 = u32::encoding(v.crc, version);
        let e3 = i16::encoding(v.attributes, version);
        let e4 = i32::encoding(v.last_offset_delta, version);
        let e5 = i64::encoding(v.first_timestamp, version);
        let e6 = i64::encoding(v.max_time_stamp, version);
        let e7 = i64::encoding(v.producer_id, version);
        let e8 = i16::encoding(v.producer_epoch, version);
        let e9 = i32::encoding(v.first_sequence, version);
        let r9 = e9 + tail;
        let r8 = e8 + r9;
        let r7 = e7 + r8;
        let r6 = e6 + r7;
        let r5 = e5 + r6;
        let r4 = e4 + r5;
        let r3 = e3 + r4;
        let r2 = e2 + r3;
        let r1 = e1 + r2;
        let whole = batch_header_encoding(v, version) + tail;
        lemma_join2(e0 + e1 + e2 + e3 + e4 + e5 + e6 + e7 + e8, e9, tail);
        lemma_join2(e0 + e1 + e2 + e3 + e4 + e5 + e6 + e7, e8, r9);
        lemma_join2(e0 + e1 + e2 + e3 + e4 + e5 + e6, e7, r8);
        lemma_join2(e0 + e1 + e2 + e3 + e4 + e5, e6, r7);
        lemma_join2(e0 + e1 + e2 + e3 + e4, e5, r6);
        lemma_join2(e0 + e1 + e2 + e3, e4, r5);
        lemma_join2(e0 + e1 + e2, e3, r4);
        lemma_join2(e0 + e1, e2, r3);
        lemma_join2(e0, e1, r2);
        assert(whole == e0 + r1);
        assert(whole.skip(0) =~= whole);
        lemma_field::<i32>(v.partition_leader_epoch, version, whole, 0, r1);
        lemma_field::<i8>(v.magic, version, whole, 4, r2);
        lemma_field::<u32>(v.crc, version, whole, 5, r3);
        lemma_field::<i16>(v.attributes, version, whole, 9, r4);
        lemma_field::<i32>(v.last_offset_delta, version, whole, 11, r5);
        lemma_field::<i64>(v.first_timestamp, version, whole, 15, r6);
        lemma_field::<i64>(v.max_time_stamp, version, whole, 23, r7);
        lemma_field::<i64>(v.producer_id, version, whole, 31, r8);
        lemma_field::<i16>(v.producer_epoch, version, whole, 39, r9);
        lemma_field::<i32>(v.first_sequence, version, whole, 41, tail);
    }
}

/// How the records of a batch are held: decoded, or not at all.
pub trait BatchRecords: Encoder + Decoder + Default {
    /// How many of the `remainder` payload bytes a reader hands to `decode`:
    /// all of them or none.
    spec fn wanted(remainder: nat) -> nat;

    /// A representation wants all of the payload or none of it.
    proof fn lemma_wanted(remainder: nat)
        ensures
            Self::wanted(remainder) == 0 || Self::wanted(remainder) == remainder,
    ;

    /// What this representation holds after it has read a payload that
    /// spells `records`.
    spec fn seen(records: Seq<RecordView>) -> Self::V;

    /// Handed the part it wants of a written payload, the representation
    /// reads all of that part and holds what `seen` says.
    proof fn lemma_reads_back(records: Seq<RecordView>, version: Version)
        requires
            Vec::<Record>::encodable(records, version),
        ensures
            ({
                let payload = Vec::<Record>::encoding(records, version);
                let part = payload.take(Self::wanted(payload.len()) as int);
                Self::decoding(part, version) == Ok::<(Self::V, nat), DecodeError>(
                    (Self::seen(records), part.len()),
                )
            }),
    ;

    /// How many of the `remainder` payload bytes this representation wants
    /// to process.
    fn remainder_bytes(&self, remainder: usize) -> (n: usize)
        ensures
            n == Self::wanted(remainder as nat),
    ;
}

/// Records held decoded in memory.
pub type MemoryRecords = Vec<Record>;

impl BatchRecords for Vec<Record> {
    open spec fn wanted(remainder: nat) -> nat {
        remainder
    }

    proof fn lemma_wanted(remainder: nat) {
    }

    open spec fn seen(records: Seq<RecordView>) -> Seq<RecordView> {
        records
    }

    proof fn lemma_reads_back(records: Seq<RecordView>, version: Version) {
        let payload = Vec::<Record>::encoding(records, version);
        Vec::<Record>::lemma_round_trip(records, version, Seq::empty());
        assert(payload + Seq::<u8>::empty() =~= payload);
        assert(payload.take(payload.len() as int) =~= payload);
    }

    fn remainder_bytes(&self, remainder: usize) -> (n: usize) {
        remainder
    }
}

/// A batch: where it starts in the log, how long it is, what it says of
/// itself, and its records.
#[derive(Debug)]
pub struct Batch<R> {
    pub base_offset: Offset,
    /// The declared length: header and records, without the first 12 bytes.
    /// Set when a batch is read; `encode` writes the true length instead.
    pub batch_len: i32,
    pub header: BatchHeader,
    pub records: R,
}

/// The mathematical model of a batch.
pub struct BatchView<V> {
    pub base_offset: Offset,
    pub batch_len: i32,
    pub header: BatchHeader,
    pub records: V,
}

impl<R: DeepView> DeepView for Batch<R> {
    type V = BatchView<R::V>;

    open spec fn deep_view(&self) -> BatchView<R::V> {
        BatchView {
            base_offset: self.base_offset,
            batch_len: self.batch_len,
            header: self.header,
            records: self.records.deep_view(),
        }
    }
}

impl<V> BatchView<V> {
    /// The offset of the last record.
    pub open spec fn last_offset(self) -> int {
        self.base_offset + self.header.last_offset_delta
    }

    /// The number of payload bytes that the header declares.
    pub open spec fn declared_payload(self) -> int {
        self.batch_len - BATCH_HEADER_SIZE
    }
}

/// The declared length of a batch with `payload` bytes of records.
pub open spec fn declared_len(payload: nat) -> i32 {
    ((BATCH_HEADER_SIZE + payload) % 0x8000_0000) as i32
}

/// The first 57 bytes of a batch: base offset, declared length and header.
#[verifier::opaque]
pub open spec fn file_header_encoding(v: BatchView<()>, version: Version) -> Seq<u8> {
    i64::encoding(v.base_offset, version) + i32::encoding(v.batch_len, version)
        + BatchHeader::encoding(v.header, version)
}

/// What the first 57 bytes of a written batch say: the true length stands
/// where the declared length is.
pub open spec fn written_header<V>(v: BatchView<V>, payload: nat) -> BatchView<()> {
    BatchView {
        base_offset: v.base_offset,
        batch_len: declared_len(payload),
        header: v.header,
        records: (),
    }
}

/// The bytes of a batch: base offset, true length, header, records.
#[verifier::opaque]
pub open spec fn batch_encoding<R: Encoder>(v: BatchView<R::V>, version: Version) -> Seq<u8> {
    file_header_encoding(written_header(v, R::encoding(v.records, version).len()), version)
        + R::encoding(v.records, version)
}

/// The first 57 bytes of a batch: base offset, declared length and header.
#[verifier::opaque]
pub open spec fn file_header_decoding(src: Seq<u8>, version: Version) -> Result<
    (BatchView<()>, nat),
    DecodeError,
> {
    if src.len() < BATCH_FILE_HEADER_SIZE {
        Err(DecodeError::UnexpectedEnd)
    } else {
        Ok(
            (
                BatchView {
                    base_offset: value_at::<i64>(src, 0, version),
                    batch_len: value_at::<i32>(src, 8, version),
                    header: value_at::<BatchHeader>(src, 12, version),
                    records: (),
                },
                BATCH_FILE_HEADER_SIZE as nat,
            ),
        )
    }
}

/// The batch at the start of `src`: its 57 bytes of header, then its records
/// as far as they go.
#[verifier::opaque]
pub open spec fn batch_decoding<R: Decoder>(src: Seq<u8>, version: Version) -> Result<
    (BatchView<R::V>, nat),
    DecodeError,
> {
    match file_header_decoding(src, version) {
        Err(e) => Err(e),
        Ok((h, _)) => match R::decoding(src.skip(BATCH_FILE_HEADER_SIZE as int), version) {
            Err(e) => Err(e),
            Ok((records, n)) => Ok(
                (
                    BatchView {
                        base_offset: h.base_offset,
                        batch_len: h.batch_len,
                        header: h.header,
                        records,
                    },
                    (BATCH_FILE_HEADER_SIZE + n) as nat,
                ),
            ),
        },
    }
}

/// The first 57 bytes of a batch can always be read, and nothing shorter can.
pub proof fn lemma_file_header_decoding_shape(src: Seq<u8>, version: Version)
    ensures
        match file_header_decoding(src, version) {
            Ok((_, n)) => src.len() >= BATCH_FILE_HEADER_SIZE && n == BATCH_FILE_HEADER_SIZE,
            Err(e) => src.len() < BATCH_FILE_HEADER_SIZE && e == DecodeError::UnexpectedEnd,
        },
{
    reveal(file_header_decoding);
}

/// A value of fixed width at `at` is the same in two strings that agree up
/// to the end of the value.
proof fn lemma_same_bytes(src: Seq<u8>, other: Seq<u8>, at: nat, width: nat, version: Version)
    requires
        at + width <= src.len(),
        at + width <= other.len(),
        src.take((at + width) as int) == other.take((at + width) as int),
        width == 1 || width == 2 || width == 4 || width == 8,
    ensures
        width == 1 ==> value_at::<i8>(src, at, version) == value_at::<i8>(other, at, version),
        width == 2 ==> value_at::<i16>(src, at, version) == value_at::<i16>(other, at, version),
        width == 4 ==> value_at::<i32>(src, at, version) == value_at::<i32>(other, at, version),
        width == 4 ==> value_at::<u32>(src, at, version) == value_at::<u32>(other, at, version),
        width == 8 ==> value_at::<i64>(src, at, version) == value_at::<i64>(other, at, version),
{
    let piece = src.subrange(at as int, (at + width) as int);
    let rest = src.skip((at + width) as int);
    let other_rest = other.skip((at + width) as int);
    assert(piece =~= other.subrange(at as int, (at + width) as int)) by {
        assert forall|i: int| 0 <= i < width implies piece[i] == other[at + i] by {
            let n = (at + width) as int;
            assert(src.take(n)[at + i] == src[at + i]);
            assert(other.take(n)[at + i] == other[at + i]);
            assert(piece[i] == src[at + i]);
        }
    }
    assert(src.skip(at as int) =~= piece + rest);
    assert(other.skip(at as int) =~= piece + other_rest);
    lemma_fixed_width_prefix(piece, rest, version);
    lemma_fixed_width_prefix(piece, other_rest, version);
}

/// The header of a batch is read from its own 45 bytes.
proof fn lemma_batch_header_prefix(src: Seq<u8>, other: Seq<u8>, version: Version)
    requires
        src.len() >= BATCH_HEADER_SIZE,
        other.len() >= BATCH_HEADER_SIZE,
        src.take(BATCH_HEADER_SIZE as int) == other.take(BATCH_HEADER_SIZE as int),
    ensures
        batch_header_decoding(src, version) == batch_header_decoding(other, version),
{
    reveal(batch_header_decoding);
    assert forall|n: int| 0 <= n <= BATCH_HEADER_SIZE implies #[trigger] src.take(n) == other.take(
        n,
    ) by {
        assert(src.take(n) =~= src.take(BATCH_HEADER_SIZE as int).take(n));
        assert(other.take(n) =~= other.take(BATCH_HEADER_SIZE as int).take(n));
    }
    assert(src.take(4) == other.take(4));
    lemma_same_bytes(src, other, 0, 4, version);
    assert(src.take(5) == other.take(5));
    lemma_same_bytes(src, other, 4, 1, version);
    assert(src.take(9) == other.take(9));
    lemma_same_bytes(src, other, 5, 4, version);
    assert(src.take(11) == other.take(11));
    lemma_same_bytes(src, other, 9, 2, version);
    assert(src.take(15) == other.take(15));
    lemma_same_bytes(src, other, 11, 4, version);
    assert(src.take(23) == other.take(23));
    lemma_same_bytes(src, other, 15, 8, version);
    assert(src.take(31) == other.take(31));
    lemma_same_bytes(src, other, 23, 8, version);
    assert(src.take(39) == other.take(39));
    lemma_same_bytes(src, other, 31, 8, version);
    assert(src.take(41) == other.take(41));
    lemma_same_bytes(src, other, 39, 2, version);
    assert(src.take(45) == other.take(45));
    lemma_same_bytes(src, other, 41, 4, version);
}

/// The first 57 bytes of a batch say the same whatever follows them.
pub proof fn lemma_file_header_prefix(src: Seq<u8>, version: Version)
    requires
        src.len() >= BATCH_FILE_HEADER_SIZE,
    ensures
        file_header_decoding(src, version) == file_header_decoding(
            src.take(BATCH_FILE_HEADER_SIZE as int),
            version,
        ),
{
    reveal(file_header_decoding);
    let head = src.take(BATCH_FILE_HEADER_SIZE as int);
    assert(src.take(8) =~= head.take(8));
    lemma_same_bytes(src, head, 0, 8, version);
    assert(src.take(12) =~= head.take(12));
    lemma_same_bytes(src, head, 8, 4, version);
    assert(src.skip(12).take(BATCH_HEADER_SIZE as int) =~= head.skip(12).take(
        BATCH_HEADER_SIZE as int,
    ));
    lemma_batch_header_prefix(src.skip(12), head.skip(12), version);
}

/// The first part of a batch takes 57 bytes, whatever it says.
proof fn lemma_file_header_len(v: BatchView<()>, version: Version)
    ensures
        file_header_encoding(v, version).len() == BATCH_FILE_HEADER_SIZE,
{
    reveal(file_header_encoding);
    lemma_batch_header_len(v.header, version);
}

/// A batch starts with 57 bytes, whatever it holds.
pub proof fn lemma_batch_encoding_len<R: Encoder>(v: BatchView<R::V>, version: Version)
    ensures
        batch_encoding::<R>(v, version).len() == BATCH_FILE_HEADER_SIZE + R::encoding(
            v.records,
            version,
        ).len(),
{
    reveal(batch_encoding);
    lemma_file_header_len(written_header(v, R::encoding(v.records, version).len()), version);
}

/// The first 57 bytes of a batch read back as they were written, and what
/// was written after them follows.
pub proof fn lemma_file_header_round_trip(v: BatchView<()>, version: Version, tail: Seq<u8>)
    ensures
        file_header_decoding(file_header_encoding(v, version) + tail, version) == Ok::<
            (BatchView<()>, nat),
            DecodeError,
        >((v, BATCH_FILE_HEADER_SIZE as nat)),
        (file_header_encoding(v, version) + tail).skip(BATCH_FILE_HEADER_SIZE as int) == tail,
        file_header_encoding(v, version).len() == BATCH_FILE_HEADER_SIZE,
{
    reveal(file_header_encoding);
    reveal(file_header_decoding);
    let e0 = i64::encoding(v.base_offset, version);
    let e1 = i32::encoding(v.batch_len, version);
    let e2 = BatchHeader::encoding(v.header, version);
    let whole = file_header_encoding(v, version) + tail;
    lemma_batch_header_len(v.header, version);
    lemma_join3(e0, e1, e2, tail);
    assert(whole.skip(0) =~= whole);
    lemma_field::<i64>(v.base_offset, version, whole, 0, e1 + (e2 + tail));
    lemma_field::<i32>(v.batch_len, version, whole, 8, e2 + tail);
    lemma_field::<BatchHeader>(v.header, version, whole, 12, tail);
    let got = file_header_decoding(whole, version)->Ok_0.0;
    assert(got.base_offset == v.base_offset);
    assert(got.batch_len == v.batch_len);
    assert(got.header == v.header);
    assert(got.records == v.records);
    assert(got == v);
}

impl<R: Encoder> Encoder for Batch<R> {
    open spec fn encoding(v: BatchView<R::V>, version: Version) -> Seq<u8> {
        batch_encoding::<R>(v, version)
    }

    /// The records can be read back, and the declared length is the true one.
    open spec fn encodable(v: BatchView<R::V>, version: Version) -> bool {
        &&& R::encodable(v.records, version)
        &&& BATCH_HEADER_SIZE + R::encoding(v.records, version).len() <= i32::MAX
        &&& v.batch_len == BATCH_HEADER_SIZE + R::encoding(v.records, version).len()
    }

    fn write_size(&self, version: Version) -> (n: usize) {
        proof {
            lemma_batch_encoding_len::<R>(self.deep_view(), version);
        }
        BATCH_FILE_HEADER_SIZE + self.records.write_size(version)
    }

    fn encode(&self, dest: &mut Vec<u8>, version: Version) {
        let ghost start = dest@;
        let mut payload: Vec<u8> = Vec::new();
        self.records.encode(&mut payload, version);
        assert(payload@ =~= R::encoding(self.records.deep_view(), version));
        let true_len: u128 = payload.len() as u128 + BATCH_HEADER_SIZE as u128;
        let declared: i32 = (true_len % 0x8000_0000) as i32;
        self.base_offset.encode(dest, version);
        declared.encode(dest, version);
        self.header.encode(dest, version);
        dest.extend_from_slice(payload.as_slice());
        assert(dest@ =~= start + batch_encoding::<R>(self.deep_view(), version)) by {
            reveal(batch_encoding);
            reveal(file_header_encoding);
        }
    }
}

impl<R> Batch<R> {
    /// Reads base offset, declared length and header: the first 57 bytes of
    /// a batch. The records are left as they are.
    pub fn decode_from_file_buf(&mut self, src: &mut ByteReader<'_>, version: Version) -> (r:
        Result<(), DecodeError>)
        ensures
            final(src).data() == old(src).data(),
            match file_header_decoding(old(src).rest(), version) {
                Ok((h, n)) => {
                    &&& r is Ok
                    &&& final(self).base_offset == h.base_offset
                    &&& final(self).batch_len == h.batch_len
                    &&& final(self).header == h.header
                    &&& final(self).records == old(self).records
                    &&& final(src).position() == old(src).position() + n
                    &&& final(src).rest() == old(src).rest().skip(n as int)
                },
                Err(e) => {
                    &&& r == Err::<(), DecodeError>(e)
                    &&& *final(self) == *old(self)
                    &&& final(src).position() == old(src).position()
                },
            },
    {
        let ghost data = src.data();
        let ghost begin = src.position();
        reveal(file_header_decoding);
        if src.remaining() < BATCH_FILE_HEADER_SIZE {
            return Err(DecodeError::UnexpectedEnd);
        }
        proof {
            lemma_skip_twice(data, begin, 0);
            lemma_skip_twice(data, begin, 8);
            lemma_skip_twice(data, begin, 12);
            lemma_skip_twice(data, begin, 57);
            reveal(batch_header_decoding);
        }
        let mut base_offset: Offset = 0;
        base_offset.decode(src, version)?;
        let mut batch_len: i32 = 0;
        batch_len.decode(src, version)?;
        let mut header = BatchHeader::default();
        header.decode(src, version)?;
        self.base_offset = base_offset;
        self.batch_len = batch_len;
        self.header = header;
        Ok(())
    }
}

impl<R: Decoder + Default> Decoder for Batch<R> {
    open spec fn decoding(src: Seq<u8>, version: Version) -> Result<
        (BatchView<R::V>, nat),
        DecodeError,
    > {
        batch_decoding::<R>(src, version)
    }

    open spec fn failure_at(src: Seq<u8>, version: Version) -> nat {
        if src.len() < BATCH_FILE_HEADER_SIZE {
            0
        } else {
            BATCH_FILE_HEADER_SIZE as nat + R::failure_at(
                src.skip(BATCH_FILE_HEADER_SIZE as int),
                version,
            )
        }
    }

    fn decode(&mut self, src: &mut ByteReader<'_>, version: Version) -> (r: Result<
        (),
        DecodeError,
    >) {
        reveal(batch_decoding);
        reveal(file_header_decoding);
        let ghost rest0 = src.rest();
        let mut head: Batch<()> = Batch {
            base_offset: 0,
            batch_len: 0,
            header: BatchHeader::default(),
            records: (),
        };
        head.decode_from_file_buf(src, version)?;
        let mut records = R::default();
        records.decode(src, version)?;
        proof {
            use_type_invariant(&*src);
            assert(src.rest() =~= rest0.skip(src.position() - old(src).position()));
        }
        *self = Batch {
            base_offset: head.base_offset,
            batch_len: head.batch_len,
            header: head.header,
            records,
        };
        Ok(())
    }

    proof fn lemma_decoding_in_bounds(src: Seq<u8>, version: Version) {
        reveal(batch_decoding);
        reveal(file_header_decoding);
        if src.len() >= BATCH_FILE_HEADER_SIZE {
            R::lemma_decoding_in_bounds(src.skip(BATCH_FILE_HEADER_SIZE as int), version);
        }
    }

    proof fn lemma_round_trip(v: BatchView<R::V>, version: Version, tail: Seq<u8>) {
        reveal(batch_decoding);
        reveal(batch_encoding);
        let payload = R::encoding(v.records, version);
        let head = written_header(v, payload.len());
        lemma_join2(file_header_encoding(head, version), payload, tail);
        lemma_file_header_round_trip(head, version, payload + tail);
        R::lemma_round_trip(v.records, version, tail);
    }
}

impl<R> Batch<R> {
    /// The offset of the first record.
    pub fn get_base_offset(&self) -> (r: Offset)
        ensures
            r == self.base_offset,
    {
        self.base_offset
    }

    /// Moves the batch to start at `offset`.
    pub fn set_base_offset(&mut self, offset: Offset)
        ensures
            final(self).base_offset == offset,
            final(self).batch_len == old(self).batch_len,
            final(self).header == old(self).header,
            final(self).records == old(self).records,
    {
        self.base_offset = offset;
    }

    /// What the batch says of itself.
    pub fn get_header(&self) -> (r: BatchHeader)
        ensures
            r == self.header,
    {
        self.header
    }

    /// What the batch says of itself, to be changed in place.
    pub fn get_mut_header(&mut self) -> (r: &mut BatchHeader)
        ensures
            *r == old(self).header,
            final(self).header == *final(r),
            final(self).base_offset == old(self).base_offset,
            final(self).batch_len == old(self).batch_len,
            final(self).records == old(self).records,
    {
        &mut self.header
    }

    /// The offset of the last record, counted from the base offset.
    pub fn get_last_offset_delta(&self) -> (r: i32)
        ensures
            r == self.header.last_offset_delta,
    {
        self.header.last_offset_delta
    }

    /// The offset of the last record.
    pub fn get_last_offset(&self) -> (r: Offset)
        requires
            i64::MIN <= self.base_offset + self.header.last_offset_delta <= i64::MAX,
        ensures
            r == self.base_offset + self.header.last_offset_delta,
    {
        self.base_offset + self.header.last_offset_delta as i64
    }

    /// The records.
    pub fn records(&self) -> (r: &R)
        ensures
            *r == self.records,
    {
        &self.records
    }

    /// The records, given away.
    pub fn own_records(self) -> (r: R)
        ensures
            r == self.records,
    {
        self.records
    }
}

impl Batch<MemoryRecords> {
    /// A batch at offset 0 with a blank header and no records.
    pub fn new() -> (r: Self)
        ensures
            r.base_offset == 0,
            r.batch_len == 0,
            r.header == BatchHeader::blank(),
            r.records@.len() == 0,
    {
        Batch { base_offset: 0, batch_len: 0, header: BatchHeader::default(), records: Vec::new() }
    }

    /// The number of records.
    pub fn records_len(&self) -> (n: usize)
        ensures
            n == self.records@.len(),
    {
        self.records.len()
    }

    /// Appends `record` as the last record of the batch: the record takes
    /// the next free place after the base offset, and the header names that
    /// place as the last one.
    pub fn add_record(&mut self, record: Record)
        requires
            old(self).records@.len() <= i32::MAX,
        ensures
            final(self).base_offset == old(self).base_offset,
            final(self).batch_len == old(self).batch_len,
            final(self).header == (BatchHeader {
                last_offset_delta: old(self).records@.len() as i32,
                ..old(self).header
            }),
            final(self).records@.len() == old(self).records@.len() + 1,
            final(self).records@.take(old(self).records@.len() as int) == old(self).records@,
            final(self).records@.last().deep_view() == (RecordView {
                preamble: RecordHeader {
                    offset_delta: old(self).records@.len() as i64,
                    ..record.preamble
                },
                ..record.deep_view()
            }),
    {
        let place: usize = self.records.len();
        let mut record = record;
        record.preamble.offset_delta = place as i64;
        self.header.last_offset_delta = place as i32;
        self.records.push(record);
        assert(self.records@.take(place as int) =~= old(self).records@);
    }
}

} // verus!
