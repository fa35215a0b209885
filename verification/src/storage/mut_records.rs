//! The writer of the active segment of a log.
//!
//! The writer keeps the books of one segment: where it begins, how long it
//! is, which offset comes next. For each batch it hands out the bytes to
//! append; putting them on disk is the caller's part. Exactly one writer may
//! serve a segment at a time.

use vstd::prelude::*;
use vstd::string::StringExecFns;
use crate::codec::text::ascii_chars;
use crate::codec::traits::Encoder;
use crate::storage::batch::{
    lemma_batch_encoding_len,
    Batch,
    BatchView,
    MemoryRecords,
    Offset,
    Size,
    BATCH_FILE_HEADER_SIZE,
};
use crate::storage::config::ConfigOption;
use crate::storage::file_name::{log_file_name, log_file_name_bytes};
use crate::storage::record::{lemma_short_records_are_encodable, RecordView};
use crate::storage::segment::{
    all_well_formed,
    batch_bytes,
    end_offset,
    lemma_segment_bytes_push,
    ordered_from,
    payload_len,
    readable,
    segment_bytes,
    well_formed,
};
use crate::storage::stream::FILE_VERSION;

verus! {

/// Why a writer turned a batch down.
#[derive(Debug, Clone, Copy, PartialEq, Eq, Structural)]
pub enum StorageError {
    /// The last record of the batch would lie before its first.
    InvalidOffsetDelta(i32),
    /// The batch begins before the end of what the segment holds.
    InvalidBaseOffset(Offset),
    /// The offset after the batch cannot be represented.
    OffsetOutOfRange,
    /// The batch is longer than a batch can declare.
    BatchTooBig,
    /// The segment would grow beyond what a position can express.
    SegmentTooLong,
}

/// The longest batch, in bytes on disk, that a header can declare.
pub const MAX_BATCH_BYTES: u64 = 0x8000_000b;

/// Why a segment that ends at offset `next_offset` after `size` bytes cannot
/// take a batch that begins at `base_offset`, ends `last_offset_delta` later
/// and takes `encoded_len` bytes on disk, or nothing if it can take it.
pub open spec fn objection_to(
    next_offset: Offset,
    size: Size,
    base_offset: Offset,
    last_offset_delta: i32,
    encoded_len: int,
) -> Option<StorageError> {
    if last_offset_delta < 0 {
        Some(StorageError::InvalidOffsetDelta(last_offset_delta))
    } else if base_offset < next_offset {
        Some(StorageError::InvalidBaseOffset(base_offset))
    } else if base_offset + last_offset_delta >= i64::MAX {
        Some(StorageError::OffsetOutOfRange)
    } else if encoded_len > MAX_BATCH_BYTES {
        Some(StorageError::BatchTooBig)
    } else if size + encoded_len > u64::MAX {
        Some(StorageError::SegmentTooLong)
    } else {
        None
    }
}

/// Decides whether a segment can take a batch, from the books of the
/// segment and the measures of the batch.
pub fn check_batch(
    next_offset: Offset,
    size: Size,
    base_offset: Offset,
    last_offset_delta: i32,
    encoded_len: u64,
) -> (r: Result<(), StorageError>)
    ensures
        match objection_to(next_offset, size, base_offset, last_offset_delta, encoded_len as int) {
            None => r is Ok,
            Some(e) => r == Err::<(), StorageError>(e),
        },
{
    if last_offset_delta < 0 {
        Err(StorageError::InvalidOffsetDelta(last_offset_delta))
    } else if base_offset < next_offset {
        Err(StorageError::InvalidBaseOffset(base_offset))
    } else if base_offset >= i64::MAX - last_offset_delta as i64 {
        Err(StorageError::OffsetOutOfRange)
    } else if encoded_len > MAX_BATCH_BYTES {
        Err(StorageError::BatchTooBig)
    } else if encoded_len > u64::MAX - size {
        Err(StorageError::SegmentTooLong)
    } else {
        Ok(())
    }
}

/// What changes with every batch written.
struct Books {
    next_offset: Offset,
    item_last_offset_delta: i32,
    len: Size,
    written: Ghost<Seq<BatchView<Seq<RecordView>>>>,
}

/// The writer of the active segment of a log.
pub struct MutFileRecords {
    base_offset: Offset,
    base_dir: String,
    books: Books,
}

impl MutFileRecords {
    /// The batches appended so far, in order.
    pub closed spec fn written(&self) -> Seq<BatchView<Seq<RecordView>>> {
        self.books.written@
    }

    /// The offset at which the segment begins.
    pub closed spec fn base_offset(&self) -> Offset {
        self.base_offset
    }

    /// The first offset after what the segment holds.
    pub closed spec fn next_offset(&self) -> Offset {
        self.books.next_offset
    }

    /// The length of the segment in bytes.
    pub closed spec fn size(&self) -> Size {
        self.books.len
    }

    /// The last-offset delta of the batch written last, or 0.
    pub closed spec fn last_delta(&self) -> i32 {
        self.books.item_last_offset_delta
    }

    /// The directory of the log.
    pub closed spec fn dir(&self) -> Seq<char> {
        self.base_dir@
    }

    /// The segment holds well-formed batches in offset order, and the books
    /// agree with them.
    #[verifier::type_invariant]
    pub open spec fn consistent(self) -> bool {
        &&& all_well_formed(self.written())
        &&& ordered_from(self.base_offset() as int, self.written())
        &&& self.next_offset() == end_offset(self.base_offset() as int, self.written())
        &&& self.size() == segment_bytes(self.written()).len()
    }

    /// Why the writer would turn `batch` down, or nothing if it would take
    /// it.
    pub open spec fn objection(self, batch: BatchView<Seq<RecordView>>) -> Option<StorageError> {
        objection_to(
            self.next_offset(),
            self.size(),
            batch.base_offset,
            batch.header.last_offset_delta,
            BATCH_FILE_HEADER_SIZE + payload_len(batch),
        )
    }

    /// The writer of a fresh segment that begins at `base_offset`.
    pub fn create(base_offset: Offset, option: &ConfigOption) -> (r: Self)
        ensures
            r.written() == Seq::<BatchView<Seq<RecordView>>>::empty(),
            r.base_offset() == base_offset,
            r.next_offset() == base_offset,
            r.size() == 0,
            r.last_delta() == 0,
            r.dir() == option.base_dir@,
    {
        MutFileRecords {
            base_offset,
            base_dir: option.base_dir.clone(),
            books: Books {
                next_offset: base_offset,
                item_last_offset_delta: 0,
                len: 0,
                written: Ghost(Seq::empty()),
            },
        }
    }

    /// The offset at which the segment begins.
    pub fn get_base_offset(&self) -> (r: Offset)
        ensures
            r == self.base_offset(),
    {
        self.base_offset
    }

    /// The first offset after what the segment holds: where the next
    /// segment of the log would begin.
    pub fn get_end_offset(&self) -> (r: Offset)
        ensures
            r == self.next_offset(),
    {
        self.books.next_offset
    }

    /// The last-offset delta of the batch written last.
    pub fn get_item_last_offset_delta(&self) -> (r: i32)
        ensures
            r == self.last_delta(),
    {
        self.books.item_last_offset_delta
    }

    /// The length of the segment in bytes: the position at which the next
    /// batch will be written.
    pub fn get_pos(&self) -> (r: Size)
        ensures
            r == self.size(),
            r == segment_bytes(self.written()).len(),
    {
        proof {
            use_type_invariant(self);
        }
        self.books.len
    }

    /// The name of the file that holds the segment.
    pub fn file_name(&self) -> (name: String)
        ensures
            name@ == ascii_chars(log_file_name_bytes(self.base_offset())),
    {
        log_file_name(self.base_offset)
    }

    /// The path of the file that holds the segment: the directory of the
    /// log, a slash, and the name of the file.
    pub fn get_path(&self) -> (path: String)
        ensures
            path@ == self.dir() + "/"@ + ascii_chars(log_file_name_bytes(self.base_offset())),
    {
        let name = log_file_name(self.base_offset);
        self.base_dir.clone().concat("/").concat(name.as_str())
    }

    /// Takes `batch` as the next batch of the segment and returns the bytes
    /// to append to the file, or turns it down and changes nothing.
    pub fn write_batch(&mut self, batch: &Batch<MemoryRecords>) -> (r: Result<
        Vec<u8>,
        StorageError,
    >)
        ensures
            final(self).base_offset() == old(self).base_offset(),
            final(self).dir() == old(self).dir(),
            match old(self).objection(batch.deep_view()) {
                None => {
                    &&& r matches Ok(bytes)
                    &&& bytes@ == batch_bytes(batch.deep_view())
                    &&& final(self).written() == old(self).written().push(batch.deep_view())
                    &&& final(self).size() == old(self).size() + bytes@.len()
                    &&& final(self).next_offset() == batch.deep_view().last_offset() + 1
                    &&& final(self).last_delta() == batch.header.last_offset_delta
                },
                Some(e) => {
                    &&& r == Err::<Vec<u8>, StorageError>(e)
                    &&& final(self).written() == old(self).written()
                    &&& final(self).size() == old(self).size()
                    &&& final(self).next_offset() == old(self).next_offset()
                    &&& final(self).last_delta() == old(self).last_delta()
                },
            },
    {
        let bytes = batch_to_bytes(batch);
        match self.check(batch, &bytes) {
            Err(e) => Err(e),
            Ok(_) => {
                self.take(batch, &bytes);
                Ok(bytes)
            },
        }
    }

    /// Decides whether the segment can take `batch`, whose bytes are
    /// `bytes`.
    pub(crate) fn check(&self, batch: &Batch<MemoryRecords>, bytes: &Vec<u8>) -> (r: Result<
        (),
        StorageError,
    >)
        requires
            bytes@ == batch_bytes(batch.deep_view()),
        ensures
            match self.objection(batch.deep_view()) {
                None => r is Ok,
                Some(e) => r == Err::<(), StorageError>(e),
            },
    {
        proof {
            lemma_batch_len(batch.deep_view());
        }
        check_batch(
            self.books.next_offset,
            self.books.len,
            batch.base_offset,
            batch.header.last_offset_delta,
            bytes.len() as u64,
        )
    }

    /// Enters `batch`, whose bytes are `bytes`, into the books.
    pub(crate) fn take(&mut self, batch: &Batch<MemoryRecords>, bytes: &Vec<u8>)
        requires
            bytes@ == batch_bytes(batch.deep_view()),
            old(self).objection(batch.deep_view()) is None,
        ensures
            final(self).consistent(),
            final(self).base_offset() == old(self).base_offset(),
            final(self).dir() == old(self).dir(),
            final(self).written() == old(self).written().push(batch.deep_view()),
            final(self).size() == old(self).size() + bytes@.len(),
            final(self).next_offset() == batch.deep_view().last_offset() + 1,
            final(self).last_delta() == batch.header.last_offset_delta,
        no_unwind
    {
        let ghost b = batch.deep_view();
        proof {
            use_type_invariant(&*self);
            lemma_batch_len(b);
            lemma_admitted_is_well_formed(b);
            lemma_push_keeps_order(self.base_offset as int, self.books.written@, b);
            lemma_segment_bytes_push(self.books.written@, b);
        }
        self.books = Books {
            next_offset: batch.base_offset + batch.header.last_offset_delta as i64 + 1,
            item_last_offset_delta: batch.header.last_offset_delta,
            len: self.books.len + bytes.len() as u64,
            written: Ghost(self.books.written@.push(b)),
        };
    }
}

/// The bytes that appending `batch` adds to a segment.
pub fn batch_to_bytes(batch: &Batch<MemoryRecords>) -> (bytes: Vec<u8>)
    ensures
        bytes@ == batch_bytes(batch.deep_view()),
{
    let mut bytes: Vec<u8> = Vec::new();
    batch.encode(&mut bytes, FILE_VERSION);
    assert(bytes@ =~= batch_bytes(batch.deep_view()));
    bytes
}

/// A written batch takes 57 bytes and its records.
proof fn lemma_batch_len(b: BatchView<Seq<RecordView>>)
    ensures
        batch_bytes(b).len() == BATCH_FILE_HEADER_SIZE + payload_len(b),
{
    reveal(payload_len);
    lemma_batch_encoding_len::<MemoryRecords>(b, FILE_VERSION);
}

/// A batch that is short enough to be declared, and whose last record does
/// not lie before its first, is well formed.
proof fn lemma_admitted_is_well_formed(b: BatchView<Seq<RecordView>>)
    requires
        b.header.last_offset_delta >= 0,
        b.last_offset() <= i64::MAX,
        BATCH_FILE_HEADER_SIZE + payload_len(b) <= MAX_BATCH_BYTES,
    ensures
        well_formed(b),
{
    reveal(payload_len);
    reveal(readable);
    lemma_short_records_are_encodable(b.records, FILE_VERSION);
}

/// A batch that begins at or after the end of a log in offset order keeps
/// the log in offset order, and all its batches well formed.
proof fn lemma_push_keeps_order(
    base: int,
    before: Seq<BatchView<Seq<RecordView>>>,
    b: BatchView<Seq<RecordView>>,
)
    requires
        all_well_formed(before),
        ordered_from(base, before),
        well_formed(b),
        end_offset(base, before) <= b.base_offset,
    ensures
        all_well_formed(before.push(b)),
        ordered_from(base, before.push(b)),
        end_offset(base, before.push(b)) == b.last_offset() + 1,
{
    let after = before.push(b);
    assert forall|i: int| 0 <= i < after.len() implies well_formed(#[trigger] after[i]) by {
        if i < before.len() {
            assert(after[i] == before[i]);
        }
    }
    assert forall|i: int| 0 <= i < after.len() - 1 implies (#[trigger] after[i]).last_offset()
        < after[i + 1].base_offset by {
        if i < before.len() - 1 {
            assert(after[i] == before[i]);
            assert(after[i + 1] == before[i + 1]);
        } else {
            assert(after[i] == before.last());
        }
    }
    if before.len() > 0 {
        assert(after[0] == before[0]);
    }
}

} // verus!
