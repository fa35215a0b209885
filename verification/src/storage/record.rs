//! Records: the messages inside a batch.

use vstd::prelude::*;
use crate::codec::error::{DecodeError, Invalid};
use crate::codec::reader::ByteReader;
use crate::codec::sequence::{lemma_join2, lemma_join4, lemma_skip_joined};
use crate::codec::containers::{items_encoding, lemma_items_encoding_covers, MAX_ITEMS};
use crate::codec::traits::{Decoder, Encoder, Version};
use crate::codec::varint::{
    lemma_ungroups_in_bounds,
    lemma_varint_round_trip,
    varint_decode,
    varint_decoding,
    varint_encode,
    varint_encoding,
    varint_failure_at,
    varint_size,
    MAX_VARINT_LEN,
};

verus! {

/// The largest length that a length prefix can announce.
pub const MAX_LENGTH: u64 = 0x7fff_ffff_ffff_ffff;

/// The length prefix for `len` bytes.
pub open spec fn length_prefix(len: nat) -> i64 {
    (len % 0x8000_0000_0000_0000) as i64
}

/// `length_prefix` of a buffer length.
fn length_prefix_of(len: usize) -> (v: i64)
    ensures
        v == length_prefix(len as nat),
{
    (len as u64 % 0x8000_0000_0000_0000) as i64
}

/// A string of bytes: key or value of a record.
#[derive(Debug, Clone, PartialEq, Eq)]
pub struct RecordData {
    bytes: Vec<u8>,
}

impl Default for RecordData {
    fn default() -> (r: Self)
        ensures
            r@.len() == 0,
    {
        RecordData { bytes: Vec::new() }
    }
}

impl View for RecordData {
    type V = Seq<u8>;

    closed spec fn view(&self) -> Seq<u8> {
        self.bytes@
    }
}

impl DeepView for RecordData {
    type V = Seq<u8>;

    open spec fn deep_view(&self) -> Seq<u8> {
        self@
    }
}

impl RecordData {
    /// The byte string `bytes`.
    pub fn new(bytes: Vec<u8>) -> (r: Self)
        ensures
            r@ == bytes@,
    {
        RecordData { bytes }
    }

    /// The bytes.
    pub fn as_slice(&self) -> (r: &[u8])
        ensures
            r@ == self@,
    {
        self.bytes.as_slice()
    }

    /// The number of bytes.
    pub fn len(&self) -> (n: usize)
        ensures
            n == self@.len(),
    {
        self.bytes.len()
    }

    /// Whether there are no bytes.
    pub fn is_empty(&self) -> (b: bool)
        ensures
            b == (self@.len() == 0),
    {
        self.bytes.len() == 0
    }
}

impl Encoder for RecordData {
    open spec fn encoding(v: Seq<u8>, version: Version) -> Seq<u8> {
        varint_encoding(length_prefix(v.len())) + v
    }

    open spec fn encodable(v: Seq<u8>, version: Version) -> bool {
        v.len() <= MAX_LENGTH
    }

    fn write_size(&self, version: Version) -> (n: usize) {
        let prefix: usize = varint_size(length_prefix_of(self.bytes.len()));
        prefix + self.bytes.len()
    }

    fn encode(&self, dest: &mut Vec<u8>, version: Version) {
        varint_encode(dest, length_prefix_of(self.bytes.len()));
        dest.extend_from_slice(self.bytes.as_slice());
    }
}

impl Decoder for RecordData {
    open spec fn decoding(src: Seq<u8>, version: Version) -> Result<(Seq<u8>, nat), DecodeError> {
        match varint_decoding(src) {
            Err(e) => Err(e),
            Ok((len, n)) => if len < 0 {
                Err(DecodeError::InvalidData { reason: Invalid::RecordLength(len) })
            } else if src.len() < n + len {
                Err(DecodeError::UnexpectedEnd)
            } else {
                Ok((src.subrange(n as int, n + len), (n + len) as nat))
            },
        }
    }

    open spec fn failure_at(src: Seq<u8>, version: Version) -> nat {
        match varint_decoding(src) {
            Err(_) => varint_failure_at(src),
            Ok((_, n)) => n,
        }
    }

    fn decode(&mut self, src: &mut ByteReader<'_>, version: Version) -> (r: Result<
        (),
        DecodeError,
    >) {
        let ghost rest0 = src.rest();
        proof {
            lemma_ungroups_in_bounds(rest0, MAX_VARINT_LEN as nat);
        }
        let len: i64 = varint_decode(src)?;
        if len < 0 {
            return Err(DecodeError::InvalidData { reason: Invalid::RecordLength(len) });
        }
        if len as u64 > src.remaining() as u64 {
            return Err(DecodeError::UnexpectedEnd);
        }
        match src.take(len as usize) {
            None => Err(DecodeError::UnexpectedEnd),
            Some(bytes) => {
                proof {
                    let n = varint_decoding(rest0)->Ok_0.1;
                    assert(bytes@ =~= rest0.subrange(n as int, n + len));
                    assert(src.rest() =~= rest0.skip(n + len));
                }
                self.bytes = vstd::slice::slice_to_vec(bytes);
                Ok(())
            },
        }
    }

    proof fn lemma_decoding_in_bounds(src: Seq<u8>, version: Version) {
    }

    proof fn lemma_round_trip(v: Seq<u8>, version: Version, tail: Seq<u8>) {
        let prefix = varint_encoding(length_prefix(v.len()));
        lemma_varint_round_trip(length_prefix(v.len()), v + tail);
        let whole = prefix + v + tail;
        assert(whole =~= prefix + (v + tail));
        assert(whole.subrange(prefix.len() as int, (prefix.len() + v.len()) as int) =~= v);
    }
}

/// What every record carries before its key and value.
#[derive(Debug, Clone, Copy, PartialEq, Eq, Structural)]
pub struct RecordHeader {
    pub attributes: i8,
    /// Milliseconds after the first timestamp of the batch.
    pub timestamp_delta: i64,
    /// Position after the base offset of the batch.
    pub offset_delta: i64,
}

impl DeepView for RecordHeader {
    type V = RecordHeader;

    open spec fn deep_view(&self) -> RecordHeader {
        *self
    }
}

impl Default for RecordHeader {
    fn default() -> (r: Self)
        ensures
            r == (RecordHeader { attributes: 0, timestamp_delta: 0, offset_delta: 0 }),
    {
        RecordHeader { attributes: 0, timestamp_delta: 0, offset_delta: 0 }
    }
}

impl RecordHeader {
    /// Moves the record to the place `delta` after the base offset of its
    /// batch.
    pub fn set_offset_delta(&mut self, delta: i64)
        ensures
            *final(self) == (RecordHeader { offset_delta: delta, ..*old(self) }),
    {
        self.offset_delta = delta;
    }
}

impl Encoder for RecordHeader {
    open spec fn encoding(v: RecordHeader, version: Version) -> Seq<u8> {
        i8::encoding(v.attributes, version) + varint_encoding(v.timestamp_delta) + varint_encoding(
            v.offset_delta,
        )
    }

    open spec fn encodable(v: RecordHeader, version: Version) -> bool {
        true
    }

    fn write_size(&self, version: Version) -> (n: usize) {
        1 + varint_size(self.timestamp_delta) + varint_size(self.offset_delta)
    }

    fn encode(&self, dest: &mut Vec<u8>, version: Version) {
        self.attributes.encode(dest, version);
        varint_encode(dest, self.timestamp_delta);
        varint_encode(dest, self.offset_delta);
    }
}

impl Decoder for RecordHeader {
    open spec fn decoding(src: Seq<u8>, version: Version) -> Result<
        (RecordHeader, nat),
        DecodeError,
    > {
        match i8::decoding(src, version) {
            Err(e) => Err(e),
            Ok((attributes, n0)) => match varint_decoding(src.skip(n0 as int)) {
                Err(e) => Err(e),
                Ok((timestamp_delta, n1)) => match varint_decoding(
                    src.skip(n0 as int).skip(n1 as int),
                ) {
                    Err(e) => Err(e),
                    Ok((offset_delta, n2)) => Ok(
                        (RecordHeader { attributes, timestamp_delta, offset_delta }, n0 + n1 + n2),
                    ),
                },
            },
        }
    }

    open spec fn failure_at(src: Seq<u8>, version: Version) -> nat {
        match i8::decoding(src, version) {
            Err(_) => 0,
            Ok((_, n0)) => match varint_decoding(src.skip(n0 as int)) {
                Err(_) => n0 + varint_failure_at(src.skip(n0 as int)),
                Ok((_, n1)) => n0 + n1 + varint_failure_at(src.skip(n0 as int).skip(n1 as int)),
            },
        }
    }

    fn decode(&mut self, src: &mut ByteReader<'_>, version: Version) -> (r: Result<
        (),
        DecodeError,
    >) {
        let ghost rest0 = src.rest();
        let mut attributes: i8 = 0;
        attributes.decode(src, version)?;
        let timestamp_delta: i64 = varint_decode(src)?;
        let offset_delta: i64 = varint_decode(src)?;
        proof {
            use_type_invariant(&*src);
            assert(src.rest() =~= rest0.skip(src.position() - old(src).position()));
        }
        *self = RecordHeader { attributes, timestamp_delta, offset_delta };
        Ok(())
    }

    proof fn lemma_decoding_in_bounds(src: Seq<u8>, version: Version) {
        if src.len() >= 1 {
            lemma_ungroups_in_bounds(src.skip(1), MAX_VARINT_LEN as nat);
            if let Ok((_, n1)) = varint_decoding(src.skip(1)) {
                lemma_ungroups_in_bounds(src.skip(1).skip(n1 as int), MAX_VARINT_LEN as nat);
            }
        }
    }

    proof fn lemma_round_trip(v: RecordHeader, version: Version, tail: Seq<u8>) {
        let a = i8::encoding(v.attributes, version);
        let t = varint_encoding(v.timestamp_delta);
        let o = varint_encoding(v.offset_delta);
        let whole = a + t + o + tail;
        i8::lemma_round_trip(v.attributes, version, t + o + tail);
        assert(whole =~= a + (t + o + tail));
        lemma_varint_round_trip(v.timestamp_delta, o + tail);
        assert(whole.skip(1) =~= t + (o + tail));
        lemma_varint_round_trip(v.offset_delta, tail);
        assert(whole.skip(1).skip(t.len() as int) =~= o + tail);
    }
}

/// One message: an optional key, a value, and where it stands in its batch.
#[derive(Debug, Clone, PartialEq, Eq)]
pub struct Record {
    pub preamble: RecordHeader,
    pub key: Option<RecordData>,
    pub value: RecordData,
    /// The number of headers that follow the value; none are carried.
    pub headers: i64,
}

/// The mathematical model of a record.
pub struct RecordView {
    pub preamble: RecordHeader,
    pub key: Option<Seq<u8>>,
    pub value: Seq<u8>,
    pub headers: i64,
}

impl DeepView for Record {
    type V = RecordView;

    open spec fn deep_view(&self) -> RecordView {
        RecordView {
            preamble: self.preamble,
            key: self.key.deep_view(),
            value: self.value@,
            headers: self.headers,
        }
    }
}

impl Default for Record {
    fn default() -> (r: Self)
        ensures
            r.deep_view() == (RecordView {
                preamble: RecordHeader { attributes: 0, timestamp_delta: 0, offset_delta: 0 },
                key: None,
                value: Seq::empty(),
                headers: 0,
            }),
    {
        Record {
            preamble: RecordHeader::default(),
            key: None,
            value: RecordData::new(Vec::new()),
            headers: 0,
        }
    }
}

/// What follows the length prefix of a record.
#[verifier::opaque]
pub open spec fn record_body(v: RecordView, version: Version) -> Seq<u8> {
    RecordHeader::encoding(v.preamble, version) + Option::<RecordData>::encoding(v.key, version)
        + RecordData::encoding(v.value, version) + varint_encoding(v.headers)
}

/// The record whose fields follow each other at the start of `src`.
#[verifier::opaque]
pub open spec fn record_body_decoding(src: Seq<u8>, version: Version) -> Result<
    (RecordView, nat),
    DecodeError,
> {
    match RecordHeader::decoding(src, version) {
        Err(e) => Err(e),
        Ok((preamble, n0)) => match Option::<RecordData>::decoding(src.skip(n0 as int), version) {
            Err(e) => Err(e),
            Ok((key, n1)) => match RecordData::decoding(
                src.skip(n0 as int).skip(n1 as int),
                version,
            ) {
                Err(e) => Err(e),
                Ok((value, n2)) => match varint_decoding(
                    src.skip(n0 as int).skip(n1 as int).skip(n2 as int),
                ) {
                    Err(e) => Err(e),
                    Ok((headers, n3)) => Ok(
                        (RecordView { preamble, key, value, headers }, n0 + n1 + n2 + n3),
                    ),
                },
            },
        },
    }
}

/// How many bytes of `src` have been read when reading the fields of a
/// record fails: the fields before the one that fails, and what was read of
/// that one.
#[verifier::opaque]
pub open spec fn record_body_failure_at(src: Seq<u8>, version: Version) -> nat {
    match RecordHeader::decoding(src, version) {
        Err(_) => RecordHeader::failure_at(src, version),
        Ok((_, n0)) => {
            let src = src.skip(n0 as int);
            match Option::<RecordData>::decoding(src, version) {
                Err(_) => n0 + Option::<RecordData>::failure_at(src, version),
                Ok((_, n1)) => {
                    let src = src.skip(n1 as int);
                    match RecordData::decoding(src, version) {
                        Err(_) => n0 + n1 + RecordData::failure_at(src, version),
                        Ok((_, n2)) => n0 + n1 + n2 + varint_failure_at(src.skip(n2 as int)),
                    }
                },
            }
        },
    }
}

/// The fields of a record that was decoded lie within the input.
proof fn lemma_record_body_in_bounds(src: Seq<u8>, version: Version)
    ensures
        record_body_decoding(src, version) matches Ok((_, n)) ==> n <= src.len(),
{
    reveal(record_body_decoding);
    RecordHeader::lemma_decoding_in_bounds(src, version);
    if let Ok((_, n0)) = RecordHeader::decoding(src, version) {
        let s1 = src.skip(n0 as int);
        Option::<RecordData>::lemma_decoding_in_bounds(s1, version);
        if let Ok((_, n1)) = Option::<RecordData>::decoding(s1, version) {
            let s2 = s1.skip(n1 as int);
            RecordData::lemma_decoding_in_bounds(s2, version);
            if let Ok((_, n2)) = RecordData::decoding(s2, version) {
                lemma_ungroups_in_bounds(s2.skip(n2 as int), MAX_VARINT_LEN as nat);
            }
        }
    }
}

/// The fields of a record read back as they were written, whatever follows
/// them.
proof fn lemma_record_body_round_trip(v: RecordView, version: Version, tail: Seq<u8>)
    requires
        Record::encodable(v, version),
    ensures
        record_body_decoding(record_body(v, version) + tail, version) == Ok::<
            (RecordView, nat),
            DecodeError,
        >((v, record_body(v, version).len())),
{
    reveal(record_body);
    reveal(record_body_decoding);
    let p = RecordHeader::encoding(v.preamble, version);
    let k = Option::<RecordData>::encoding(v.key, version);
    let d = RecordData::encoding(v.value, version);
    let h = varint_encoding(v.headers);
    lemma_join4(p, k, d, h, tail);
    RecordHeader::lemma_round_trip(v.preamble, version, k + (d + (h + tail)));
    lemma_skip_joined(p, k + (d + (h + tail)));
    Option::<RecordData>::lemma_round_trip(v.key, version, d + (h + tail));
    lemma_skip_joined(k, d + (h + tail));
    RecordData::lemma_round_trip(v.value, version, h + tail);
    lemma_skip_joined(d, h + tail);
    lemma_varint_round_trip(v.headers, tail);
}

impl Encoder for Record {
    open spec fn encoding(v: RecordView, version: Version) -> Seq<u8> {
        varint_encoding(length_prefix(record_body(v, version).len())) + record_body(v, version)
    }

    open spec fn encodable(v: RecordView, version: Version) -> bool {
        &&& Option::<RecordData>::encodable(v.key, version)
        &&& RecordData::encodable(v.value, version)
        &&& record_body(v, version).len() <= MAX_LENGTH
    }

    fn write_size(&self, version: Version) -> (n: usize) {
        let body: usize = self.body_size(version);
        varint_size(length_prefix_of(body)) + body
    }

    fn encode(&self, dest: &mut Vec<u8>, version: Version) {
        let mut body: Vec<u8> = Vec::new();
        self.preamble.encode(&mut body, version);
        self.key.encode(&mut body, version);
        self.value.encode(&mut body, version);
        varint_encode(&mut body, self.headers);
        assert(body@ =~= record_body(self.deep_view(), version)) by {
            reveal(record_body);
        }
        varint_encode(dest, length_prefix_of(body.len()));
        dest.extend_from_slice(body.as_slice());
    }
}

impl Record {
    /// The number of bytes that follow the length prefix.
    fn body_size(&self, version: Version) -> (n: usize)
        requires
            record_body(self.deep_view(), version).len() <= usize::MAX,
        ensures
            n == record_body(self.deep_view(), version).len(),
    {
        reveal(record_body);
        self.preamble.write_size(version) + self.key.write_size(version) + self.value.write_size(
            version,
        ) + varint_size(self.headers)
    }

    /// A record with the given value and no key.
    pub fn new(value: RecordData) -> (r: Self)
        ensures
            r.deep_view() == (RecordView {
                preamble: RecordHeader { attributes: 0, timestamp_delta: 0, offset_delta: 0 },
                key: None,
                value: value@,
                headers: 0,
            }),
    {
        Record { preamble: RecordHeader::default(), key: None, value, headers: 0 }
    }

    /// A record with the given key and value.
    pub fn new_key_value(key: RecordData, value: RecordData) -> (r: Self)
        ensures
            r.deep_view() == (RecordView {
                preamble: RecordHeader { attributes: 0, timestamp_delta: 0, offset_delta: 0 },
                key: Some(key@),
                value: value@,
                headers: 0,
            }),
    {
        Record { preamble: RecordHeader::default(), key: Some(key), value, headers: 0 }
    }

    /// The position of this record after the base offset of its batch.
    pub fn get_offset_delta(&self) -> (d: i64)
        ensures
            d == self.preamble.offset_delta,
    {
        self.preamble.offset_delta
    }

    /// The value.
    pub fn value(&self) -> (r: &RecordData)
        ensures
            r == &self.value,
    {
        &self.value
    }

    /// The key, if there is one.
    pub fn key(&self) -> (r: Option<&RecordData>)
        ensures
            match r {
                Some(k) => self.key == Some(*k),
                None => self.key is None,
            },
    {
        self.key.as_ref()
    }
}

impl Decoder for Record {
    open spec fn decoding(src: Seq<u8>, version: Version) -> Result<
        (RecordView, nat),
        DecodeError,
    > {
        match varint_decoding(src) {
            Err(e) => Err(e),
            Ok((len, n0)) => match record_body_decoding(src.skip(n0 as int), version) {
                Err(e) => Err(e),
                Ok((v, n1)) => if n1 != len {
                    Err(DecodeError::InvalidData { reason: Invalid::RecordLength(len) })
                } else {
                    Ok((v, n0 + n1))
                },
            },
        }
    }

    open spec fn failure_at(src: Seq<u8>, version: Version) -> nat {
        match varint_decoding(src) {
            Err(_) => varint_failure_at(src),
            Ok((_, n0)) => match record_body_decoding(src.skip(n0 as int), version) {
                Err(_) => n0 + record_body_failure_at(src.skip(n0 as int), version),
                Ok((_, n1)) => n0 + n1,
            },
        }
    }

    fn decode(&mut self, src: &mut ByteReader<'_>, version: Version) -> (r: Result<
        (),
        DecodeError,
    >) {
        reveal(record_body_decoding);
        reveal(record_body_failure_at);
        let ghost rest0 = src.rest();
        let len: i64 = varint_decode(src)?;
        let body: usize = src.pos();
        let mut preamble = RecordHeader::default();
        preamble.decode(src, version)?;
        let mut key: Option<RecordData> = None;
        key.decode(src, version)?;
        let mut value = RecordData::new(Vec::new());
        value.decode(src, version)?;
        let headers: i64 = varint_decode(src)?;
        let used: usize = src.pos() - body;
        if len < 0 || used as u64 != len as u64 {
            return Err(DecodeError::InvalidData { reason: Invalid::RecordLength(len) });
        }
        proof {
            use_type_invariant(&*src);
            assert(src.rest() =~= rest0.skip(src.position() - old(src).position()));
        }
        *self = Record { preamble, key, value, headers };
        Ok(())
    }

    proof fn lemma_decoding_in_bounds(src: Seq<u8>, version: Version) {
        lemma_ungroups_in_bounds(src, MAX_VARINT_LEN as nat);
        if let Ok((_, n0)) = varint_decoding(src) {
            lemma_record_body_in_bounds(src.skip(n0 as int), version);
        }
    }

    proof fn lemma_round_trip(v: RecordView, version: Version, tail: Seq<u8>) {
        let body = record_body(v, version);
        let prefix = varint_encoding(length_prefix(body.len()));
        lemma_join2(prefix, body, tail);
        lemma_varint_round_trip(length_prefix(body.len()), body + tail);
        lemma_skip_joined(prefix, body + tail);
        lemma_record_body_round_trip(v, version, tail);
    }
}

/// A record takes at least one byte, and no fewer than its key and its
/// value together.
proof fn lemma_record_encoding_covers(v: RecordView, version: Version)
    ensures
        Record::encoding(v, version).len() >= 1,
        Record::encoding(v, version).len() >= record_body(v, version).len(),
        record_body(v, version).len() >= v.value.len(),
        v.key matches Some(k) ==> record_body(v, version).len() >= k.len(),
{
    reveal(record_body);
    lemma_varint_round_trip(length_prefix(record_body(v, version).len()), Seq::empty());
}

/// Records whose encoding stays below two gibibytes can all be read back.
pub proof fn lemma_short_records_are_encodable(records: Seq<RecordView>, version: Version)
    requires
        Vec::<Record>::encoding(records, version).len() <= MAX_ITEMS,
    ensures
        Vec::<Record>::encodable(records, version),
{
    let all = items_encoding::<Record>(records, version);
    assert forall|i: int| 0 <= i < records.len() implies Record::encodable(
        #[trigger] records[i],
        version,
    ) by {
        lemma_items_encoding_covers::<Record>(records, i, version);
        lemma_record_encoding_covers(records[i], version);
    }
    lemma_records_count(records, version);
}

/// There are no more records than bytes in their encoding.
proof fn lemma_records_count(records: Seq<RecordView>, version: Version)
    ensures
        records.len() <= items_encoding::<Record>(records, version).len(),
    decreases records.len(),
{
    if records.len() > 0 {
        lemma_records_count(records.drop_last(), version);
        lemma_record_encoding_covers(records.last(), version);
    }
}

} // verus!
