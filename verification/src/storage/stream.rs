//! Reading a segment batch by batch.
//!
//! A stream walks the bytes of one segment from the start. Each step reads
//! the 57 bytes of a batch header and then either decodes the records or
//! steps over them, as the record representation asks. Both ways move on by
//! the length that the header declares, so both visit the same positions.

use core::marker::PhantomData;
use vstd::prelude::*;
use vstd::slice::slice_subrange;
use crate::codec::error::{DecodeError, Invalid};
use crate::codec::reader::ByteReader;
use crate::codec::traits::{Decoder, Encoder, Version};
use crate::storage::batch::{
    file_header_decoding,
    lemma_file_header_decoding_shape,
    lemma_file_header_prefix,
    Batch,
    BatchHeader,
    BatchRecords,
    BatchView,
    Offset,
    Size,
    BATCH_FILE_HEADER_SIZE,
    BATCH_HEADER_SIZE,
    BATCH_PREAMBLE_SIZE,
};

verus! {

/// The version under which segments are written and read.
pub const FILE_VERSION: Version = 0;

/// What one step of a stream finds at a position.
pub enum Step<V> {
    /// A whole batch, and the position of the one after it.
    Item { batch: BatchView<V>, next: nat },
    /// No further whole batch: the segment ends here, or its last batch is
    /// still being written.
    End,
    /// Bytes that are all there but are no batch.
    Fail { error: DecodeError },
}

/// The failure that a stream reports when the records of a batch cannot be
/// read from the payload that its header declares.
pub open spec fn payload_failure(e: DecodeError) -> DecodeError {
    match e {
        DecodeError::UnexpectedEnd => DecodeError::InvalidData { reason: Invalid::Payload },
        DecodeError::InvalidData { reason } => DecodeError::InvalidData { reason },
    }
}

/// What the header of a batch says to a stream.
pub enum HeadStep {
    /// A header that a batch can have.
    Head { head: BatchView<()> },
    /// Fewer bytes than a header has.
    End,
    /// A header that no batch has.
    Fail { error: DecodeError },
}

/// What a stream makes of the header at the start of `src`. A header is
/// taken at its word unless it declares a length that does not even hold
/// the header itself, or a last record that lies before the first or
/// beyond the last offset there is.
pub open spec fn head_step(src: Seq<u8>) -> HeadStep {
    match file_header_decoding(src, FILE_VERSION) {
        Err(_) => HeadStep::End,
        Ok((head, _)) => {
            if head.batch_len < BATCH_HEADER_SIZE {
                HeadStep::Fail {
                    error: DecodeError::InvalidData {
                        reason: Invalid::BatchLength(head.batch_len),
                    },
                }
            } else if head.header.last_offset_delta < 0 || head.last_offset() > i64::MAX {
                HeadStep::Fail {
                    error: DecodeError::InvalidData {
                        reason: Invalid::OffsetDelta(head.header.last_offset_delta),
                    },
                }
            } else {
                HeadStep::Head { head }
            }
        },
    }
}

/// What a stream makes of the part `window` of the payload that it asked
/// for: the records, if the window holds them and nothing else.
pub open spec fn records_step<R: BatchRecords>(window: Seq<u8>) -> Result<R::V, DecodeError> {
    match R::decoding(window, FILE_VERSION) {
        Err(e) => Err(payload_failure(e)),
        Ok((records, n)) => if n != window.len() {
            Err(DecodeError::InvalidData { reason: Invalid::Payload })
        } else {
            Ok(records)
        },
    }
}

/// What a stream over `data` finds at `pos`.
pub open spec fn step<R: BatchRecords>(data: Seq<u8>, pos: nat) -> Step<R::V> {
    match head_step(data.skip(pos as int)) {
        HeadStep::End => Step::End,
        HeadStep::Fail { error } => Step::Fail { error },
        HeadStep::Head { head } => {
            let remainder = head.declared_payload() as nat;
            let start = (pos + BATCH_FILE_HEADER_SIZE) as nat;
            if start + remainder > data.len() {
                Step::End
            } else {
                let window = data.subrange(start as int, (start + R::wanted(remainder)) as int);
                match records_step::<R>(window) {
                    Err(error) => Step::Fail { error },
                    Ok(records) => Step::Item {
                        batch: BatchView {
                            base_offset: head.base_offset,
                            batch_len: head.batch_len,
                            header: head.header,
                            records,
                        },
                        next: start + remainder,
                    },
                }
            }
        },
    }
}

/// The header of a batch is read from its own 57 bytes; fewer bytes are no
/// header.
pub proof fn lemma_head_step_prefix(src: Seq<u8>)
    ensures
        src.len() >= BATCH_FILE_HEADER_SIZE ==> head_step(src) == head_step(
            src.take(BATCH_FILE_HEADER_SIZE as int),
        ),
        src.len() < BATCH_FILE_HEADER_SIZE ==> head_step(src) == HeadStep::End,
{
    lemma_file_header_decoding_shape(src, FILE_VERSION);
    if src.len() >= BATCH_FILE_HEADER_SIZE {
        lemma_file_header_prefix(src, FILE_VERSION);
    }
}

/// A batch that a stream finds lies wholly inside the segment, and the next
/// position lies after its header.
pub proof fn lemma_step_in_bounds<R: BatchRecords>(data: Seq<u8>, pos: nat)
    requires
        pos <= data.len(),
    ensures
        step::<R>(data, pos) matches Step::Item { batch, next } ==> {
            &&& pos + BATCH_FILE_HEADER_SIZE <= next <= data.len()
            &&& next == pos + BATCH_PREAMBLE_SIZE + batch.batch_len
            &&& batch.header.last_offset_delta >= 0
            &&& batch.last_offset() <= i64::MAX
        },
{
    lemma_file_header_decoding_shape(data.skip(pos as int), FILE_VERSION);
}

/// Everything a stream yields when it is read to its end.
pub struct Scan<V> {
    /// The batches in the order found, each with its position.
    pub items: Seq<(nat, BatchView<V>)>,
    /// Where the stream stops.
    pub end: nat,
    /// The failure that stopped it, if one did.
    pub failure: Option<DecodeError>,
}

/// What a stream over `data` yields from `pos` on.
pub open spec fn scan<R: BatchRecords>(data: Seq<u8>, pos: nat) -> Scan<R::V>
    decreases data.len() - pos,
{
    match step::<R>(data, pos) {
        Step::Item { batch, next } => {
            if pos < next <= data.len() {
                let later = scan::<R>(data, next);
                Scan {
                    items: seq![(pos, batch)] + later.items,
                    end: later.end,
                    failure: later.failure,
                }
            } else {
                Scan { items: Seq::empty(), end: pos, failure: None }
            }
        },
        Step::End => Scan { items: Seq::empty(), end: pos, failure: None },
        Step::Fail { error } => Scan { items: Seq::empty(), end: pos, failure: Some(error) },
    }
}

/// The positions of the batches in `items`, in order.
pub open spec fn positions<V>(items: Seq<(nat, BatchView<V>)>) -> Seq<nat> {
    Seq::new(items.len(), |i: int| items[i].0)
}

/// A batch as a stream found it, with the position of its first byte.
#[derive(Debug)]
pub struct FileBatchPos<R> {
    inner: Batch<R>,
    pos: Size,
}

impl<R> FileBatchPos<R> {
    /// The length that the header declares.
    pub closed spec fn declared_len(&self) -> i32 {
        self.inner.batch_len
    }

    /// The offset of the first record.
    pub closed spec fn base_offset(&self) -> Offset {
        self.inner.base_offset
    }

    /// The offset of the last record, counted from the base offset.
    pub closed spec fn last_offset_delta(&self) -> i32 {
        self.inner.header.last_offset_delta
    }

    /// The header is one that a batch can have: the length it declares
    /// holds the header itself, and the last record lies neither before the
    /// first nor beyond the last offset there is.
    #[verifier::type_invariant]
    pub open spec fn plausible(self) -> bool {
        &&& self.declared_len() >= BATCH_HEADER_SIZE
        &&& self.last_offset_delta() >= 0
        &&& self.base_offset() + self.last_offset_delta() <= i64::MAX
    }
}

/// What a stream does once it has read the header of a batch, given how
/// long the file is.
#[derive(Debug, Clone, Copy, PartialEq, Eq, Structural)]
pub enum PayloadStep {
    /// The file ends before the payload that the header declares does: the
    /// batch is still being written, and the stream ends for now.
    End,
    /// The payload is all there. The stream reads the `wanted` bytes that
    /// follow the header, hands them to `read_records`, and goes on at
    /// `next`.
    Read { wanted: usize, next: Size },
}

/// What a stream finds when it reads a header.
pub enum HeaderRead<R> {
    /// A batch, of which the records are still to be read or stepped over.
    Head(FileBatchPos<R>),
    /// Fewer bytes than a header has: no further batch.
    End,
    /// A header that no batch has.
    Fail(DecodeError),
}

impl<R: BatchRecords> FileBatchPos<R> {
    /// The batch.
    pub closed spec fn batch(&self) -> BatchView<R::V> {
        self.inner.deep_view()
    }

    /// The header of the batch, without its records.
    pub open spec fn head(&self) -> BatchView<()> {
        BatchView {
            base_offset: self.batch().base_offset,
            batch_len: self.batch().batch_len,
            header: self.batch().header,
            records: (),
        }
    }

    /// Reads the header of the batch that begins at `pos` from `header`, the
    /// bytes found there: 57 of them, or fewer where the file ends before.
    /// The records of the batch are yet to be read.
    pub fn from_header(header: &[u8], pos: Size) -> (r: HeaderRead<R>)
        ensures
            match head_step(header@) {
                HeadStep::Head { head } => r matches HeaderRead::Head(item) && item.head() == head
                    && item.position() == pos,
                HeadStep::End => r is End,
                HeadStep::Fail { error } => r matches HeaderRead::Fail(found) && found == error,
            },
    {
        let mut src = ByteReader::new(header);
        let mut batch: Batch<R> = Batch {
            base_offset: 0,
            batch_len: 0,
            header: BatchHeader::default(),
            records: R::default(),
        };
        assert(src.rest() =~= header@);
        if batch.decode_from_file_buf(&mut src, FILE_VERSION).is_err() {
            return HeaderRead::End;
        }
        if batch.batch_len < BATCH_HEADER_SIZE as i32 {
            return HeaderRead::Fail(
                DecodeError::InvalidData { reason: Invalid::BatchLength(batch.batch_len) },
            );
        }
        if batch.header.last_offset_delta < 0 || batch.base_offset > i64::MAX
            - batch.header.last_offset_delta as i64 {
            return HeaderRead::Fail(
                DecodeError::InvalidData {
                    reason: Invalid::OffsetDelta(batch.header.last_offset_delta),
                },
            );
        }
        let item = FileBatchPos { inner: batch, pos };
        proof {
            let head = file_header_decoding(header@, FILE_VERSION)->Ok_0.0;
            assert(item.head().base_offset == head.base_offset);
            assert(item.head().batch_len == head.batch_len);
            assert(item.head().header == head.header);
            assert(item.head().records == head.records);
            assert(item.head() == head);
        }
        HeaderRead::Head(item)
    }

    /// The number of payload bytes that the header declares: as many bytes
    /// lie between the header and the next batch.
    pub fn remainder(&self) -> (n: usize)
        ensures
            n == self.batch().declared_payload(),
    {
        proof {
            use_type_invariant(self);
        }
        (self.inner.batch_len - BATCH_HEADER_SIZE as i32) as usize
    }

    /// The number of payload bytes that `read_records` is to be handed: all
    /// that the header declares, or none.
    pub fn wanted(&self) -> (n: usize)
        ensures
            n == R::wanted(self.batch().declared_payload() as nat),
            n == 0 || n == self.batch().declared_payload(),
    {
        proof {
            use_type_invariant(self);
            R::lemma_wanted(self.batch().declared_payload() as nat);
        }
        self.inner.records.remainder_bytes(self.remainder())
    }

    /// Decides what follows the header, in a file of `file_len` bytes: the
    /// end of the stream, where the file ends before the declared payload
    /// does, or else the reading of the records and the position of the
    /// next batch.
    pub fn after_header(&self, file_len: Size) -> (r: PayloadStep)
        ensures
            ({
                let next = self.position() + BATCH_FILE_HEADER_SIZE
                    + self.batch().declared_payload();
                r == if next > file_len {
                    PayloadStep::End
                } else {
                    PayloadStep::Read {
                        wanted: R::wanted(self.batch().declared_payload() as nat) as usize,
                        next: next as Size,
                    }
                }
            }),
    {
        let remainder: usize = self.remainder();
        if file_len < self.pos {
            return PayloadStep::End;
        }
        let left: u64 = file_len - self.pos;
        if left < BATCH_FILE_HEADER_SIZE as u64 || left - (BATCH_FILE_HEADER_SIZE as u64)
            < remainder as u64 {
            return PayloadStep::End;
        }
        PayloadStep::Read {
            wanted: self.wanted(),
            next: self.pos + BATCH_FILE_HEADER_SIZE as u64 + remainder as u64,
        }
    }

    /// Reads the records from `window`, the part of the payload that was
    /// asked for. The window must hold the records and nothing else.
    pub fn read_records(&mut self, window: &[u8]) -> (r: Result<(), DecodeError>)
        ensures
            final(self).head() == old(self).head(),
            final(self).position() == old(self).position(),
            match records_step::<R>(window@) {
                Ok(records) => r is Ok && final(self).batch().records == records,
                Err(e) => r == Err::<(), DecodeError>(e) && final(self).batch() == old(
                    self,
                ).batch(),
            },
    {
        proof {
            use_type_invariant(&*self);
        }
        let mut payload = ByteReader::new(window);
        assert(payload.rest() =~= window@);
        let mut records = R::default();
        match records.decode(&mut payload, FILE_VERSION) {
            Err(e) => Err(
                match e {
                    DecodeError::UnexpectedEnd => DecodeError::InvalidData {
                        reason: Invalid::Payload,
                    },
                    DecodeError::InvalidData { reason } => DecodeError::InvalidData { reason },
                },
            ),
            Ok(_) => {
                if payload.pos() != window.len() {
                    Err(DecodeError::InvalidData { reason: Invalid::Payload })
                } else {
                    self.inner.records = records;
                    Ok(())
                }
            },
        }
    }

    /// The position of the first byte of the batch.
    pub closed spec fn position(&self) -> nat {
        self.pos as nat
    }

    /// The batch.
    pub fn get_batch(&self) -> (r: &Batch<R>)
        ensures
            r.deep_view() == self.batch(),
    {
        &self.inner
    }

    /// The batch, given away.
    pub fn inner(self) -> (r: Batch<R>)
        ensures
            r.deep_view() == self.batch(),
    {
        self.inner
    }

    /// The position of the first byte of the batch.
    pub fn get_pos(&self) -> (r: Size)
        ensures
            r == self.position(),
    {
        self.pos
    }

    /// The offset of the first record.
    pub fn get_base_offset(&self) -> (r: Offset)
        ensures
            r == self.batch().base_offset,
    {
        self.inner.base_offset
    }

    /// The offset of the last record.
    pub fn get_last_offset(&self) -> (r: Offset)
        ensures
            r == self.batch().last_offset(),
    {
        proof {
            use_type_invariant(self);
        }
        self.inner.base_offset + self.inner.header.last_offset_delta as i64
    }

    /// The declared length: header and records, without the first 12 bytes.
    pub fn len(&self) -> (r: i32)
        ensures
            r == self.batch().batch_len,
    {
        self.inner.batch_len
    }

    /// The number of bytes from this batch to the next.
    pub fn total_len(&self) -> (r: Size)
        ensures
            r == self.batch().batch_len + BATCH_PREAMBLE_SIZE,
    {
        proof {
            use_type_invariant(self);
        }
        self.inner.batch_len as u64 + BATCH_PREAMBLE_SIZE as u64
    }
}

/// A forward-only reader over the bytes of one segment.
pub struct FileBatchStream<R> {
    data: Vec<u8>,
    pos: usize,
    invalid: Option<DecodeError>,
    records: PhantomData<R>,
}

impl<R> FileBatchStream<R> {
    /// The bytes of the segment.
    pub closed spec fn data(&self) -> Seq<u8> {
        self.data@
    }

    /// Where the next batch would begin.
    pub closed spec fn position(&self) -> nat {
        self.pos as nat
    }

    /// The failure that stopped the stream, if one did.
    pub closed spec fn failure(&self) -> Option<DecodeError> {
        self.invalid
    }

    /// The position lies within the segment.
    #[verifier::type_invariant]
    pub open spec fn in_bounds(self) -> bool {
        self.position() <= self.data().len()
    }

}

impl<R: BatchRecords> FileBatchStream<R> {
    /// A stream at the start of the segment whose bytes are `data`.
    pub fn open(data: Vec<u8>) -> (r: Self)
        ensures
            r.data() == data@,
            r.position() == 0,
            r.failure() is None,
    {
        FileBatchStream { data, pos: 0, invalid: None, records: PhantomData }
    }

    /// A stream over the segment whose bytes are `data` that goes on from
    /// `pos`, a position that an earlier stream reported. There is no such
    /// stream where `pos` lies beyond the segment.
    pub fn open_at(data: Vec<u8>, pos: Size) -> (r: Option<Self>)
        ensures
            match r {
                Some(stream) => {
                    &&& pos <= data@.len()
                    &&& stream.data() == data@
                    &&& stream.position() == pos
                    &&& stream.failure() is None
                },
                None => pos > data@.len(),
            },
    {
        if pos <= data.len() as u64 {
            Some(FileBatchStream { data, pos: pos as usize, invalid: None, records: PhantomData })
        } else {
            None
        }
    }

    /// Where the next batch would begin: just after the last batch yielded.
    pub fn get_pos(&self) -> (r: Size)
        ensures
            r == self.position(),
    {
        self.pos as u64
    }

    /// Whether a failure stopped the stream.
    pub fn is_invalid(&self) -> (b: bool)
        ensures
            b == self.failure().is_some(),
    {
        self.invalid.is_some()
    }

    /// The failure that stopped the stream, if one did.
    pub fn invalid(&self) -> (r: Option<DecodeError>)
        ensures
            r == self.failure(),
    {
        self.invalid
    }

    /// Reads the next batch. Returns nothing where no whole batch is left,
    /// and nothing, with the failure recorded, where the bytes are no batch.
    pub fn next(&mut self) -> (r: Option<FileBatchPos<R>>)
        ensures
            final(self).data() == old(self).data(),
            match step::<R>(old(self).data(), old(self).position()) {
                Step::Item { batch, next } => {
                    &&& r matches Some(item)
                    &&& item.batch() == batch
                    &&& item.position() == old(self).position()
                    &&& final(self).position() == next
                    &&& final(self).failure() == old(self).failure()
                },
                Step::End => {
                    &&& r is None
                    &&& final(self).position() == old(self).position()
                    &&& final(self).failure() == old(self).failure()
                },
                Step::Fail { error } => {
                    &&& r is None
                    &&& final(self).position() == old(self).position()
                    &&& final(self).failure() == Some(error)
                },
            },
    {
        proof {
            use_type_invariant(&*self);
            lemma_head_step_prefix(self.data@.skip(self.pos as int));
        }
        let at: usize = self.pos;
        let total: usize = self.data.len();
        let head_end: usize = if total - at < BATCH_FILE_HEADER_SIZE {
            total
        } else {
            at + BATCH_FILE_HEADER_SIZE
        };
        let header = slice_subrange(self.data.as_slice(), at, head_end);
        assert(header@ =~= self.data@.skip(at as int).take(head_end - at));
        assert(self.data@.skip(at as int).take(total - at) =~= self.data@.skip(at as int));
        let mut item: FileBatchPos<R> = match FileBatchPos::from_header(header, at as u64) {
            HeaderRead::End => {
                return None;
            },
            HeaderRead::Fail(e) => {
                self.invalid = Some(e);
                return None;
            },
            HeaderRead::Head(item) => item,
        };
        match item.after_header(total as u64) {
            PayloadStep::End => None,
            PayloadStep::Read { wanted, next } => {
                proof {
                    R::lemma_wanted(item.batch().declared_payload() as nat);
                }
                let window = slice_subrange(self.data.as_slice(), head_end, head_end + wanted);
                match item.read_records(window) {
                    Err(e) => {
                        self.invalid = Some(e);
                        None
                    },
                    Ok(_) => {
                        self.pos = next as usize;
                        Some(item)
                    },
                }
            },
        }
    }
}

impl<R: BatchRecords> FileBatchStream<R> {
    /// Reads every batch that is left. The stream stops where `next` would
    /// return nothing.
    pub fn read_all(&mut self) -> (r: Vec<FileBatchPos<R>>)
        ensures
            final(self).data() == old(self).data(),
            ({
                let all = scan::<R>(old(self).data(), old(self).position());
                &&& r@.len() == all.items.len()
                &&& forall|i: int|
                    0 <= i < r@.len() ==> (#[trigger] r@[i]).position() == all.items[i].0
                        && r@[i].batch() == all.items[i].1
                &&& final(self).position() == all.end
                &&& final(self).failure() == if all.failure is Some {
                    all.failure
                } else {
                    old(self).failure()
                }
            }),
    {
        let ghost data = self.data();
        let ghost all = scan::<R>(self.data(), self.position());
        let mut out: Vec<FileBatchPos<R>> = Vec::new();
        proof {
            use_type_invariant(&*self);
            assert(all.items.skip(0) =~= all.items);
        }
        loop
            invariant_except_break
                scan::<R>(data, self.position()).items == all.items.skip(out@.len() as int),
                scan::<R>(data, self.position()).end == all.end,
                scan::<R>(data, self.position()).failure == all.failure,
                self.failure() == old(self).failure(),
            invariant
                self.data() == data,
                data == old(self).data(),
                all == scan::<R>(data, old(self).position()),
                self.position() <= data.len(),
                out@.len() <= all.items.len(),
                forall|i: int|
                    0 <= i < out@.len() ==> (#[trigger] out@[i]).position() == all.items[i].0
                        && out@[i].batch() == all.items[i].1,
            ensures
                self.data() == data,
                out@.len() == all.items.len(),
                forall|i: int|
                    0 <= i < out@.len() ==> (#[trigger] out@[i]).position() == all.items[i].0
                        && out@[i].batch() == all.items[i].1,
                self.position() == all.end,
                self.failure() == if all.failure is Some {
                    all.failure
                } else {
                    old(self).failure()
                },
            decreases data.len() - self.position(),
        {
            let ghost here = self.position();
            let ghost found = out@.len();
            proof {
                lemma_step_in_bounds::<R>(data, here);
            }
            match self.next() {
                None => {
                    proof {
                        assert(all.items.skip(found as int).len() == 0);
                    }
                    break ;
                },
                Some(item) => {
                    proof {
                        use_type_invariant(&*self);
                        let later = scan::<R>(data, self.position());
                        let rest = all.items.skip(found as int);
                        let first = seq![(here, item.batch())];
                        assert(rest == first + later.items);
                        assert(rest[0] == (here, item.batch()));
                        assert(rest.skip(1) =~= later.items);
                        assert(rest.skip(1) =~= all.items.skip(found as int + 1));
                    }
                    out.push(item);
                },
            }
        }
        out
    }
}

/// Positions follow from headers, over any bytes: the first batch that a
/// stream yields lies where the stream begins, and each next one where the
/// header and the declared payload of the one before end. The stream ends
/// after the last batch it yields, within the bytes.
pub proof fn lemma_positions_follow_headers<R: BatchRecords>(data: Seq<u8>, pos: nat)
    requires
        pos <= data.len(),
    ensures
        ({
            let all = scan::<R>(data, pos);
            &&& all.items.len() > 0 ==> all.items[0].0 == pos
            &&& forall|i: int|
                0 <= i < all.items.len() - 1 ==> (#[trigger] all.items[i + 1]).0 == all.items[i].0
                    + BATCH_FILE_HEADER_SIZE + all.items[i].1.declared_payload()
            &&& forall|i: int|
                0 <= i < all.items.len() ==> (#[trigger] all.items[i]).1.declared_payload() >= 0
            &&& all.end == if all.items.len() == 0 {
                pos as int
            } else {
                all.items.last().0 + BATCH_FILE_HEADER_SIZE + all.items.last().1.declared_payload()
            }
            &&& all.end <= data.len()
        }),
    decreases data.len() - pos,
{
    let all = scan::<R>(data, pos);
    lemma_step_in_bounds::<R>(data, pos);
    match step::<R>(data, pos) {
        Step::Item { batch, next } => {
            lemma_positions_follow_headers::<R>(data, next);
            let later = scan::<R>(data, next);
            assert(all.items == seq![(pos, batch)] + later.items);
            assert(all.items[0] == (pos, batch));
            assert forall|i: int| 0 <= i < all.items.len() - 1 implies (#[trigger] all.items[i
                + 1]).0 == all.items[i].0 + BATCH_FILE_HEADER_SIZE
                + all.items[i].1.declared_payload() by {
                assert(all.items[i + 1] == later.items[i]);
                if i > 0 {
                    assert(all.items[i] == later.items[i - 1]);
                    assert(later.items[(i - 1) + 1].0 == later.items[i - 1].0
                        + BATCH_FILE_HEADER_SIZE + later.items[i - 1].1.declared_payload());
                } else {
                    assert(later.items[0].0 == next);
                }
            }
            assert forall|i: int| 0 <= i < all.items.len() implies (
            #[trigger] all.items[i]).1.declared_payload() >= 0 by {
                if i > 0 {
                    assert(all.items[i] == later.items[i - 1]);
                }
            }
            if later.items.len() > 0 {
                assert(all.items.last() == later.items.last());
            }
        },
        Step::End => {},
        Step::Fail { error } => {},
    }
}

/// Whether the record at `offset` lies in the batch `b`.
pub open spec fn covers<V>(b: BatchView<V>, offset: int) -> bool {
    b.base_offset <= offset <= b.last_offset()
}

/// The index of the first of `items` that covers `offset`, if one does.
pub open spec fn first_covering<V>(items: Seq<(nat, BatchView<V>)>, offset: int) -> Option<int>
    decreases items.len(),
{
    if items.len() == 0 {
        None
    } else if covers(items[0].1, offset) {
        Some(0)
    } else {
        match first_covering(items.drop_first(), offset) {
            Some(i) => Some(i + 1),
            None => None,
        }
    }
}

/// What `first_covering` finds among `items` lies among them, covers the
/// offset, and is the first to do so; where it finds nothing, nothing
/// covers the offset.
pub proof fn lemma_first_covering<V>(items: Seq<(nat, BatchView<V>)>, offset: int)
    ensures
        match first_covering(items, offset) {
            Some(i) => {
                &&& 0 <= i < items.len()
                &&& covers(items[i].1, offset)
                &&& forall|j: int| 0 <= j < i ==> !covers((#[trigger] items[j]).1, offset)
            },
            None => forall|j: int|
                0 <= j < items.len() ==> !covers((#[trigger] items[j]).1, offset),
        },
    decreases items.len(),
{
    if items.len() > 0 && !covers(items[0].1, offset) {
        let others = items.drop_first();
        lemma_first_covering(others, offset);
        match first_covering(others, offset) {
            Some(i) => {
                assert(others[i] == items[i + 1]);
                assert forall|j: int| 0 <= j < i + 1 implies !covers(
                    (#[trigger] items[j]).1,
                    offset,
                ) by {
                    if j > 0 {
                        assert(items[j] == others[j - 1]);
                    }
                }
            },
            None => {
                assert forall|j: int| 0 <= j < items.len() implies !covers(
                    (#[trigger] items[j]).1,
                    offset,
                ) by {
                    if j > 0 {
                        assert(items[j] == others[j - 1]);
                    }
                }
            },
        }
    }
}

impl<R: BatchRecords> FileBatchStream<R> {
    /// Reads on to the first batch that holds the record at `offset`, and
    /// yields it. Where no batch that is left holds that record, the stream
    /// is read to its end and yields nothing.
    pub fn find_offset(&mut self, offset: Offset) -> (r: Option<FileBatchPos<R>>)
        ensures
            final(self).data() == old(self).data(),
            ({
                let all = scan::<R>(old(self).data(), old(self).position());
                match first_covering(all.items, offset as int) {
                    Some(i) => {
                        &&& r matches Some(item)
                        &&& 0 <= i < all.items.len()
                        &&& (item.position(), item.batch()) == all.items[i]
                        &&& final(self).position() == item.position() + BATCH_PREAMBLE_SIZE
                            + item.batch().batch_len
                        &&& final(self).failure() == old(self).failure()
                    },
                    None => {
                        &&& r is None
                        &&& final(self).position() == all.end
                        &&& final(self).failure() == if all.failure is Some {
                            all.failure
                        } else {
                            old(self).failure()
                        }
                    },
                }
            }),
    {
        let ghost data = self.data();
        let ghost all = scan::<R>(self.data(), self.position());
        let ghost mut passed: int = 0;
        proof {
            use_type_invariant(&*self);
            assert(all.items.skip(0) =~= all.items);
            lemma_first_covering(all.items, offset as int);
        }
        loop
            invariant_except_break
                scan::<R>(data, self.position()).items == all.items.skip(passed),
                scan::<R>(data, self.position()).end == all.end,
                scan::<R>(data, self.position()).failure == all.failure,
                self.failure() == old(self).failure(),
                first_covering(all.items, offset as int) == match first_covering(
                    all.items.skip(passed),
                    offset as int,
                ) {
                    Some(i) => Some(i + passed),
                    None => None,
                },
            invariant
                self.data() == data,
                data == old(self).data(),
                all == scan::<R>(data, old(self).position()),
                self.position() <= data.len(),
                0 <= passed <= all.items.len(),
            ensures
                self.data() == data,
                first_covering(all.items, offset as int) is None,
                self.position() == all.end,
                self.failure() == if all.failure is Some {
                    all.failure
                } else {
                    old(self).failure()
                },
            decreases data.len() - self.position(),
        {
            let ghost here = self.position();
            proof {
                lemma_step_in_bounds::<R>(data, here);
            }
            match self.next() {
                None => {
                    proof {
                        assert(all.items.skip(passed).len() == 0);
                    }
                    break ;
                },
                Some(item) => {
                    proof {
                        use_type_invariant(&*self);
                        let later = scan::<R>(data, self.position());
                        let rest = all.items.skip(passed);
                        assert(rest == seq![(here, item.batch())] + later.items);
                        assert(rest[0] == (here, item.batch()));
                        assert(rest[0] == all.items[passed]);
                        assert(rest.drop_first() =~= later.items);
                        assert(rest.drop_first() =~= all.items.skip(passed + 1));
                    }
                    let last: i128 = item.inner.base_offset as i128
                        + item.inner.header.last_offset_delta as i128;
                    if item.inner.base_offset <= offset && offset as i128 <= last {
                        return Some(item);
                    }
                    proof {
                        passed = passed + 1;
                    }
                },
            }
        }
        None
    }
}

} // verus!
