//! A producer of sample batches, for trying out writers and streams.

use vstd::prelude::*;
use crate::storage::batch::{Batch, BatchHeader, MemoryRecords, Offset, NO_EPOCH};
use crate::storage::record::{Record, RecordData, RecordHeader, RecordView};

verus! {

/// Why a batch producer could not be built.
#[derive(Debug, Clone, Copy, PartialEq, Eq, Structural)]
pub enum BuilderError {
    /// The first batch would end beyond the last offset there is.
    OffsetOutOfRange,
}

/// Produces batches of sample records, each batch beginning where the one
/// before ended.
#[derive(Debug)]
pub struct BatchProducer {
    pub base_offset: Offset,
    pub producer_id: i64,
    /// How many records each batch holds.
    pub records: u16,
    /// How many bytes the value of each record holds.
    pub per_record_bytes: usize,
}

/// Collects the settings of a `BatchProducer`.
#[derive(Debug, Clone, Copy)]
pub struct BatchProducerBuilder {
    pub base_offset: Offset,
    pub producer_id: i64,
    pub records: u16,
    pub per_record_bytes: usize,
}

/// The value of every sample record: `len` bytes, 10 and 20 in turn.
pub open spec fn sample_value(len: nat) -> Seq<u8> {
    Seq::new(len, |i: int| if i % 2 == 0 { 10u8 } else { 20u8 })
}

/// Sample record number `i` of a batch.
pub open spec fn sample_record(i: int, per_record_bytes: nat) -> RecordView {
    RecordView {
        preamble: RecordHeader { attributes: 0, timestamp_delta: 0, offset_delta: i as i64 },
        key: None,
        value: sample_value(per_record_bytes),
        headers: 0,
    }
}

/// The header of a sample batch of `records` records.
pub open spec fn sample_header(producer_id: i64, records: u16) -> BatchHeader {
    BatchHeader {
        magic: 2,
        producer_id,
        producer_epoch: NO_EPOCH,
        last_offset_delta: if records == 0 {
            0
        } else {
            (records - 1) as i32
        },
        ..BatchHeader::blank()
    }
}

impl BatchProducerBuilder {
    /// Sets the offset at which the first batch begins.
    pub fn base_offset(self, base_offset: Offset) -> (r: Self)
        ensures
            r == (BatchProducerBuilder { base_offset, ..self }),
    {
        BatchProducerBuilder { base_offset, ..self }
    }

    /// Sets the producer that the batches name.
    pub fn producer_id(self, producer_id: i64) -> (r: Self)
        ensures
            r == (BatchProducerBuilder { producer_id, ..self }),
    {
        BatchProducerBuilder { producer_id, ..self }
    }

    /// Sets the number of records in each batch.
    pub fn records(self, records: u16) -> (r: Self)
        ensures
            r == (BatchProducerBuilder { records, ..self }),
    {
        BatchProducerBuilder { records, ..self }
    }

    /// Sets the number of bytes in the value of each record.
    pub fn per_record_bytes(self, per_record_bytes: usize) -> (r: Self)
        ensures
            r == (BatchProducerBuilder { per_record_bytes, ..self }),
    {
        BatchProducerBuilder { per_record_bytes, ..self }
    }

    /// The producer with the settings collected, unless its first batch
    /// would end beyond the last offset there is.
    pub fn build(self) -> (r: Result<BatchProducer, BuilderError>)
        ensures
            match r {
                Ok(p) => {
                    &&& self.base_offset + self.records <= i64::MAX
                    &&& p.base_offset == self.base_offset
                    &&& p.producer_id == self.producer_id
                    &&& p.records == self.records
                    &&& p.per_record_bytes == self.per_record_bytes
                },
                Err(e) => self.base_offset + self.records > i64::MAX && e
                    == BuilderError::OffsetOutOfRange,
            },
    {
        if self.base_offset > i64::MAX - self.records as i64 {
            return Err(BuilderError::OffsetOutOfRange);
        }
        Ok(
            BatchProducer {
                base_offset: self.base_offset,
                producer_id: self.producer_id,
                records: self.records,
                per_record_bytes: self.per_record_bytes,
            },
        )
    }
}

impl BatchProducer {
    /// A builder with the defaults: offset 0, producer 0, two records of
    /// two bytes each.
    pub fn builder() -> (r: BatchProducerBuilder)
        ensures
            r == (BatchProducerBuilder {
                base_offset: 0,
                producer_id: 0,
                records: 2,
                per_record_bytes: 2,
            }),
    {
        BatchProducerBuilder { base_offset: 0, producer_id: 0, records: 2, per_record_bytes: 2 }
    }

    /// The value of a sample record.
    fn value(len: usize) -> (r: Vec<u8>)
        ensures
            r@ == sample_value(len as nat),
    {
        let mut bytes: Vec<u8> = Vec::new();
        let mut i: usize = 0;
        while i < len
            invariant
                i <= len,
                bytes@ == sample_value(i as nat),
            decreases len - i,
        {
            bytes.push(if i % 2 == 0 { 10 } else { 20 });
            i = i + 1;
            assert(bytes@ =~= sample_value(i as nat));
        }
        bytes
    }

    /// The next sample batch. The producer moves on by the number of
    /// records, so that the batch after this one begins where this one ends.
    pub fn batch(&mut self) -> (b: Batch<MemoryRecords>)
        requires
            old(self).base_offset + old(self).records <= i64::MAX,
        ensures
            b.base_offset == old(self).base_offset,
            b.batch_len == 0,
            b.header == sample_header(old(self).producer_id, old(self).records),
            b.records.deep_view() == Seq::new(
                old(self).records as nat,
                |i: int| sample_record(i, old(self).per_record_bytes as nat),
            ),
            final(self).base_offset == old(self).base_offset + old(self).records,
            final(self).producer_id == old(self).producer_id,
            final(self).records == old(self).records,
            final(self).per_record_bytes == old(self).per_record_bytes,
    {
        let mut batch = Batch::<MemoryRecords>::new();
        batch.base_offset = self.base_offset;
        batch.header.magic = 2;
        batch.header.producer_id = self.producer_id;
        batch.header.producer_epoch = NO_EPOCH;
        let mut i: u16 = 0;
        while i < self.records
            invariant
                i <= self.records,
                *self == *old(self),
                batch.base_offset == self.base_offset,
                batch.batch_len == 0,
                batch.records@.len() == i,
                batch.header == sample_header(self.producer_id, i),
                batch.records.deep_view() == Seq::new(
                    i as nat,
                    |k: int| sample_record(k, self.per_record_bytes as nat),
                ),
            decreases self.records - i,
        {
            let ghost before = batch.records.deep_view();
            let record = Record::new(RecordData::new(Self::value(self.per_record_bytes)));
            batch.add_record(record);
            i = i + 1;
            proof {
                let after = batch.records.deep_view();
                let want = Seq::new(
                    i as nat,
                    |k: int| sample_record(k, self.per_record_bytes as nat),
                );
                assert(after.len() == want.len());
                assert forall|k: int| 0 <= k < after.len() implies after[k] == want[k] by {
                    if k < i - 1 {
                        assert(batch.records@.take(i - 1)[k] == batch.records@[k]);
                        assert(after[k] == before[k]);
                    }
                }
                assert(after =~= want);
            }
        }
        self.base_offset = self.base_offset + self.records as i64;
        batch
    }
}

} // verus!
