use fluvio_core::codec::error::{DecodeError, Invalid};
use fluvio_core::codec::reader::ByteReader;
use fluvio_core::codec::traits::{Decoder, Encoder};
use fluvio_core::storage::batch::{
    Batch, BatchHeader, BatchRecords, MemoryRecords, BATCH_FILE_HEADER_SIZE, BATCH_HEADER_SIZE,
    BATCH_PREAMBLE_SIZE,
};
use fluvio_core::storage::batch_header::{BatchHeaderStream, FileEmptyRecords};
use fluvio_core::storage::config::{ConfigOption, DEFAULT_BASE_DIR, DEFAULT_SEGMENT_MAX_BYTES};
use fluvio_core::storage::file_name::log_file_name;
use fluvio_core::storage::fixture::{BatchProducer, BuilderError};
use fluvio_core::storage::mut_records::{check_batch, MutFileRecords, StorageError};
use fluvio_core::storage::record::{Record, RecordData, RecordHeader};
use fluvio_core::storage::stream::{FileBatchPos, FileBatchStream, HeaderRead, PayloadStep};

fn producer(base_offset: i64, producer_id: i64) -> BatchProducer {
    BatchProducer::builder().base_offset(base_offset).producer_id(producer_id).build().expect("build")
}

fn log_of(batches: usize) -> Vec<u8> {
    let mut sink = MutFileRecords::create(200, &ConfigOption::default());
    let mut producer = producer(200, 25);
    let mut log = Vec::new();
    for _ in 0..batches {
        log.extend(sink.write_batch(&producer.batch()).expect("write"));
    }
    log
}

fn positions<R: BatchRecords>(log: &[u8]) -> (Vec<u64>, u64, Option<DecodeError>) {
    let mut stream = FileBatchStream::<R>::open(log.to_vec());
    let mut found = Vec::new();
    while let Some(item) = stream.next() {
        found.push(item.get_pos());
    }
    (found, stream.get_pos(), stream.invalid())
}

#[test]
fn header_sizes_add_up() {
    assert_eq!(BATCH_PREAMBLE_SIZE, 12);
    assert_eq!(BATCH_HEADER_SIZE, 45);
    assert_eq!(BATCH_FILE_HEADER_SIZE, BATCH_PREAMBLE_SIZE + BATCH_HEADER_SIZE);
    assert_eq!(BatchHeader::default().write_size(0), BATCH_HEADER_SIZE);
    let mut bytes = Vec::new();
    BatchHeader::default().encode(&mut bytes, 0);
    assert_eq!(bytes.len(), 45);
}

#[test]
fn batch_header_reads_back() {
    let header = BatchHeader {
        partition_leader_epoch: 7,
        magic: 2,
        crc: 0xdead_beef,
        attributes: -3,
        last_offset_delta: 9,
        first_timestamp: 1_600_000_000_000,
        max_time_stamp: 1_600_000_000_999,
        producer_id: 12,
        producer_epoch: -1,
        first_sequence: 5,
    };
    let mut bytes = Vec::new();
    header.encode(&mut bytes, 0);
    let mut back = BatchHeader::default();
    let mut src = ByteReader::new(&bytes);
    assert_eq!(back.decode(&mut src, 0), Ok(()));
    assert_eq!(back, header);
    assert_eq!(src.pos(), 45);
    let mut src = ByteReader::new(&bytes[..44]);
    assert_eq!(back.decode(&mut src, 0), Err(DecodeError::UnexpectedEnd));
    assert_eq!(src.pos(), 0);
}

#[test]
fn record_is_length_then_fields() {
    let record = Record::new(RecordData::new(vec![10, 20]));
    let mut bytes = Vec::new();
    record.encode(&mut bytes, 0);
    // length 8; attributes; two deltas; no key; value of two bytes; no headers
    assert_eq!(bytes, vec![16, 0, 0, 0, 0, 4, 10, 20, 0]);
    assert_eq!(record.write_size(0), 9);
    let mut back = Record::default();
    let mut src = ByteReader::new(&bytes);
    assert_eq!(back.decode(&mut src, 0), Ok(()));
    assert_eq!(back, record);
}

#[test]
fn record_with_key_reads_back() {
    let mut record = Record::new_key_value(RecordData::new(b"k1".to_vec()), RecordData::new(vec![7; 300]));
    record.preamble = RecordHeader { attributes: 1, timestamp_delta: -5, offset_delta: 70_000 };
    let mut bytes = Vec::new();
    record.encode(&mut bytes, 0);
    assert_eq!(record.write_size(0), bytes.len());
    let mut back = Record::default();
    let mut src = ByteReader::new(&bytes);
    assert_eq!(back.decode(&mut src, 0), Ok(()));
    assert_eq!(back, record);
    assert_eq!(back.key().expect("key").as_slice(), b"k1");
    assert_eq!(back.value().len(), 300);
    assert_eq!(back.get_offset_delta(), 70_000);
}

#[test]
fn record_with_a_wrong_length_is_rejected() {
    let record = Record::new(RecordData::new(vec![10, 20]));
    let mut bytes = Vec::new();
    record.encode(&mut bytes, 0);
    bytes[0] = 14;
    let mut back = Record::default();
    let mut src = ByteReader::new(&bytes);
    assert_eq!(
        back.decode(&mut src, 0),
        Err(DecodeError::InvalidData { reason: Invalid::RecordLength(7) })
    );
    // a value that claims a negative length
    let mut data = RecordData::default();
    let mut src = ByteReader::new(&[1, 0]);
    assert_eq!(
        data.decode(&mut src, 0),
        Err(DecodeError::InvalidData { reason: Invalid::RecordLength(-1) })
    );
    let mut src = ByteReader::new(&[6, 1, 2]);
    assert_eq!(data.decode(&mut src, 0), Err(DecodeError::UnexpectedEnd));
    // the length stays read
    assert_eq!(src.pos(), 1);
}

#[test]
fn add_record_numbers_the_records() {
    let mut batch = Batch::<MemoryRecords>::new();
    assert_eq!(batch.records_len(), 0);
    for i in 0..4 {
        batch.add_record(Record::new(RecordData::new(vec![i as u8])));
        assert_eq!(batch.get_last_offset_delta(), i);
    }
    assert_eq!(batch.records_len(), 4);
    for (i, record) in batch.records().iter().enumerate() {
        assert_eq!(record.get_offset_delta(), i as i64);
    }
    batch.set_base_offset(100);
    assert_eq!(batch.get_base_offset(), 100);
    assert_eq!(batch.get_last_offset(), 103);
    batch.get_mut_header().producer_id = 9;
    assert_eq!(batch.get_header().producer_id, 9);
}

#[test]
fn batch_reads_back_with_its_true_length_declared() {
    let batch = producer(200, 12).batch();
    assert_eq!(batch.batch_len, 0);
    assert_eq!(producer(7, 1).batch().batch_len, 0);
    let mut bytes = Vec::new();
    batch.encode(&mut bytes, 0);
    let mut back = Batch::<MemoryRecords>::new();
    let mut src = ByteReader::new(&bytes);
    assert_eq!(back.decode(&mut src, 0), Ok(()));
    assert_eq!(src.pos(), 79);
    assert_eq!(back.base_offset, 200);
    assert_eq!(back.batch_len, 67);
    assert_eq!(back.header, batch.header);
    assert_eq!(back.records, batch.records);
    // with the true length set beforehand the batch reads back as it was
    let mut whole = producer(200, 12).batch();
    whole.batch_len = 67;
    let mut bytes = Vec::new();
    whole.encode(&mut bytes, 0);
    let mut back = Batch::<MemoryRecords>::new();
    assert_eq!(back.decode(&mut ByteReader::new(&bytes), 0), Ok(()));
    assert_eq!(back.base_offset, whole.base_offset);
    assert_eq!(back.batch_len, whole.batch_len);
    assert_eq!(back.header, whole.header);
    assert_eq!(back.records, whole.records);
}

#[test]
fn sample_batches_follow_each_other() {
    let mut producer = BatchProducer::builder()
        .base_offset(10)
        .producer_id(3)
        .records(5)
        .per_record_bytes(3)
        .build()
        .expect("build");
    let first = producer.batch();
    let second = producer.batch();
    assert_eq!(first.get_base_offset(), 10);
    assert_eq!(first.get_last_offset(), 14);
    assert_eq!(second.get_base_offset(), 15);
    assert_eq!(first.records_len(), 5);
    assert_eq!(first.get_header().magic, 2);
    assert_eq!(first.get_header().producer_id, 3);
    assert_eq!(first.get_header().producer_epoch, -1);
    assert_eq!(first.records()[4].value().as_slice(), &[10, 20, 10]);
    assert!(first.records()[4].key().is_none());
    let empty = BatchProducer::builder().records(0).build().expect("build").batch();
    assert_eq!(empty.records_len(), 0);
    assert_eq!(empty.get_last_offset_delta(), 0);
}

#[test]
fn header_only_records_take_no_bytes() {
    let records = FileEmptyRecords::default();
    assert_eq!(records.remainder_bytes(22), 0);
    assert_eq!(records.remainder_bytes(0), 0);
    assert_eq!(records.write_size(0), 0);
    let mut dest = vec![1u8];
    records.encode(&mut dest, 0);
    assert_eq!(dest, vec![1]);
    let mut back = FileEmptyRecords::default();
    let mut src = ByteReader::new(&[9, 9]);
    assert_eq!(back.decode(&mut src, 0), Ok(()));
    assert_eq!(src.pos(), 0);
    let memory: MemoryRecords = Vec::new();
    assert_eq!(memory.remainder_bytes(22), 22);
}

#[test]
fn positions_continue_from_batch_to_batch() {
    let mut sink = MutFileRecords::create(0, &ConfigOption::default());
    let mut log = Vec::new();
    let mut expected = Vec::new();
    let mut producer = BatchProducer::builder().base_offset(0).records(1).build().expect("build");
    for size in [0usize, 1, 2, 100, 5000, 3] {
        producer.per_record_bytes = size;
        expected.push(log.len() as u64);
        log.extend(sink.write_batch(&producer.batch()).expect("write"));
        assert_eq!(sink.get_pos(), log.len() as u64);
    }
    let mut stream = BatchHeaderStream::open(log.clone());
    let mut position = 0u64;
    for want in &expected {
        let item = stream.next().expect("batch");
        assert_eq!(item.get_pos(), *want);
        assert_eq!(item.get_pos(), position);
        // the next batch begins where the header and the declared payload end
        position += BATCH_FILE_HEADER_SIZE as u64 + (item.len() as u64 - BATCH_HEADER_SIZE as u64);
        assert_eq!(item.total_len(), item.len() as u64 + 12);
        assert_eq!(stream.get_pos(), position);
    }
    assert!(stream.next().is_none());
    assert!(!stream.is_invalid());
    assert_eq!(stream.get_pos(), log.len() as u64);
}

#[test]
fn full_and_header_only_reading_visit_the_same_positions() {
    let log = log_of(5);
    let full = positions::<MemoryRecords>(&log);
    let heads = positions::<FileEmptyRecords>(&log);
    assert_eq!(full, heads);
    assert_eq!(full.0, vec![0, 79, 158, 237, 316]);
    assert_eq!(full.1, 395);
    assert_eq!(full.2, None);
}

#[test]
fn full_reading_yields_the_records() {
    let log = log_of(2);
    let mut stream = FileBatchStream::<MemoryRecords>::open(log);
    let items = stream.read_all();
    assert_eq!(items.len(), 2);
    assert_eq!(items[0].get_pos(), 0);
    assert_eq!(items[1].get_pos(), 79);
    assert_eq!(items[1].get_base_offset(), 202);
    assert_eq!(items[1].get_last_offset(), 203);
    let batch = items[1].get_batch();
    assert_eq!(batch.records_len(), 2);
    assert_eq!(batch.records()[1].value().as_slice(), &[10, 20]);
    assert_eq!(batch.records()[1].get_offset_delta(), 1);
    assert_eq!(stream.get_pos(), 158);
    assert!(stream.read_all().is_empty());
}

#[test]
fn offsets_ascend_from_batch_to_batch() {
    let log = log_of(6);
    let mut stream = BatchHeaderStream::open(log);
    let items = stream.read_all();
    assert_eq!(items.len(), 6);
    for pair in items.windows(2) {
        assert!(pair[0].get_base_offset() <= pair[1].get_base_offset());
        assert!(pair[0].get_last_offset() < pair[1].get_base_offset());
    }
}

#[test]
fn cut_tail_ends_the_stream_without_failure() {
    let log = log_of(3);
    assert_eq!(log.len(), 237);
    for cut in 0..=log.len() {
        let whole = (cut / 79) as u64;
        let expected: Vec<u64> = (0..whole).map(|i| i * 79).collect();
        let heads = positions::<FileEmptyRecords>(&log[..cut]);
        assert_eq!(heads, (expected.clone(), whole * 79, None), "header-only, cut at {}", cut);
        let full = positions::<MemoryRecords>(&log[..cut]);
        assert_eq!(full, (expected, whole * 79, None), "full, cut at {}", cut);
    }
}

#[test]
fn stream_over_nothing_ends_at_once() {
    let mut stream = BatchHeaderStream::open(Vec::new());
    assert!(stream.next().is_none());
    assert_eq!(stream.get_pos(), 0);
    assert!(!stream.is_invalid());
}

#[test]
fn declared_length_below_the_header_is_a_failure() {
    let mut log = log_of(2);
    // the declared length of the second batch
    log[79 + 8..79 + 12].copy_from_slice(&[0, 0, 0, 44]);
    let mut stream = BatchHeaderStream::open(log);
    assert!(stream.next().is_some());
    assert!(stream.next().is_none());
    assert!(stream.is_invalid());
    assert_eq!(
        stream.invalid(),
        Some(DecodeError::InvalidData { reason: Invalid::BatchLength(44) })
    );
    assert_eq!(stream.get_pos(), 79);
    // asking again changes nothing
    assert!(stream.next().is_none());
    assert_eq!(stream.get_pos(), 79);
}

#[test]
fn negative_offset_delta_is_a_failure() {
    let mut log = log_of(1);
    // the last-offset delta stands after base offset, length, epoch, magic, crc and attributes
    let at = 12 + 4 + 1 + 4 + 2;
    log[at..at + 4].copy_from_slice(&[0xff, 0xff, 0xff, 0xfe]);
    let mut stream = BatchHeaderStream::open(log);
    assert!(stream.next().is_none());
    assert_eq!(
        stream.invalid(),
        Some(DecodeError::InvalidData { reason: Invalid::OffsetDelta(-2) })
    );
}

#[test]
fn records_that_cannot_be_read_stop_full_reading_only() {
    let mut log = log_of(3);
    // the count of records of the second batch
    log[79 + 57..79 + 61].copy_from_slice(&[0, 0, 0, 9]);
    let heads = positions::<FileEmptyRecords>(&log);
    assert_eq!(heads, (vec![0, 79, 158], 237, None));
    let full = positions::<MemoryRecords>(&log);
    assert_eq!(
        full,
        (vec![0], 79, Some(DecodeError::InvalidData { reason: Invalid::Payload }))
    );
}

#[test]
fn records_that_leave_payload_over_are_a_failure() {
    let mut log = log_of(1);
    // one record only, so that the second record is left over
    log[57..61].copy_from_slice(&[0, 0, 0, 1]);
    let full = positions::<MemoryRecords>(&log);
    assert_eq!(
        full,
        (vec![], 0, Some(DecodeError::InvalidData { reason: Invalid::Payload }))
    );
}

#[test]
fn bad_record_in_the_payload_is_reported_as_it_is() {
    let mut log = log_of(1);
    // the flag that says whether the first record has a key
    log[57 + 4 + 4] = 5;
    let full = positions::<MemoryRecords>(&log);
    assert_eq!(
        full,
        (vec![], 0, Some(DecodeError::InvalidData { reason: Invalid::Flag(5) }))
    );
}

#[test]
fn writer_keeps_the_books() {
    let mut sink = MutFileRecords::create(200, &ConfigOption::default());
    assert_eq!(sink.get_base_offset(), 200);
    assert_eq!(sink.get_end_offset(), 200);
    assert_eq!(sink.get_pos(), 0);
    let mut producer = producer(200, 12);
    let bytes = sink.write_batch(&producer.batch()).expect("write");
    assert_eq!(bytes.len(), 79);
    assert_eq!(sink.get_pos(), 79);
    assert_eq!(sink.get_end_offset(), 202);
    assert_eq!(sink.get_item_last_offset_delta(), 1);
    assert_eq!(sink.get_base_offset(), 200);
}

#[test]
fn writer_turns_down_what_does_not_fit() {
    let mut sink = MutFileRecords::create(200, &ConfigOption::default());
    let mut early = producer(199, 12).batch();
    assert_eq!(sink.write_batch(&early), Err(StorageError::InvalidBaseOffset(199)));
    early.set_base_offset(200);
    early.get_mut_header().last_offset_delta = -1;
    assert_eq!(sink.write_batch(&early), Err(StorageError::InvalidOffsetDelta(-1)));
    let mut late = producer(200, 12).batch();
    late.set_base_offset(i64::MAX - 1);
    assert_eq!(sink.write_batch(&late), Err(StorageError::OffsetOutOfRange));
    // nothing was written
    assert_eq!(sink.get_pos(), 0);
    assert_eq!(sink.get_end_offset(), 200);

    sink.write_batch(&producer(200, 12).batch()).expect("write");
    // the same offsets again overlap what is there
    assert_eq!(
        sink.write_batch(&producer(200, 12).batch()),
        Err(StorageError::InvalidBaseOffset(200))
    );
    assert_eq!(
        sink.write_batch(&producer(201, 12).batch()),
        Err(StorageError::InvalidBaseOffset(201))
    );
    assert_eq!(sink.get_pos(), 79);
    // a gap is fine
    assert!(sink.write_batch(&producer(500, 12).batch()).is_ok());
    assert_eq!(sink.get_end_offset(), 502);
}

#[test]
fn batch_check_names_the_first_objection() {
    assert_eq!(check_batch(200, 0, 200, 1, 79), Ok(()));
    assert_eq!(check_batch(200, 0, 200, -1, 79), Err(StorageError::InvalidOffsetDelta(-1)));
    assert_eq!(check_batch(200, 0, 199, -1, 79), Err(StorageError::InvalidOffsetDelta(-1)));
    assert_eq!(check_batch(200, 0, 199, 1, 79), Err(StorageError::InvalidBaseOffset(199)));
    assert_eq!(check_batch(0, 0, i64::MAX, 0, 79), Err(StorageError::OffsetOutOfRange));
    assert_eq!(check_batch(0, 0, i64::MAX - 1, 0, 79), Ok(()));
    assert_eq!(check_batch(0, 0, i64::MAX - 1, 1, 79), Err(StorageError::OffsetOutOfRange));
    // the longest batch that a header can declare: 12 + i32::MAX bytes
    assert_eq!(check_batch(0, 0, 0, 0, 12 + i32::MAX as u64), Ok(()));
    assert_eq!(check_batch(0, 0, 0, 0, 13 + i32::MAX as u64), Err(StorageError::BatchTooBig));
    assert_eq!(check_batch(0, u64::MAX - 79, 0, 0, 79), Ok(()));
    assert_eq!(check_batch(0, u64::MAX - 78, 0, 0, 79), Err(StorageError::SegmentTooLong));
}

#[test]
fn segment_files_are_named_by_base_offset() {
    assert_eq!(log_file_name(0), "00000000000000000000.log");
    assert_eq!(log_file_name(200), "00000000000000000200.log");
    assert_eq!(log_file_name(1234567890), "00000000001234567890.log");
    assert_eq!(log_file_name(i64::MAX), "09223372036854775807.log");
    assert_eq!(log_file_name(-5), "-0000000000000000005.log");
    assert_eq!(log_file_name(i64::MIN), "-9223372036854775808.log");
    for offset in [0i64, 7, 200, -5, i64::MAX, i64::MIN] {
        assert_eq!(log_file_name(offset), format!("{:020}.log", offset));
    }
}

#[test]
fn writer_names_its_file_under_the_base_directory() {
    let option = ConfigOption::new("/tmp/logs/topic-0".to_string(), 1000);
    let sink = MutFileRecords::create(200, &option);
    assert_eq!(sink.file_name(), "00000000000000000200.log");
    assert_eq!(sink.get_path(), "/tmp/logs/topic-0/00000000000000000200.log");
}

#[test]
fn configuration_has_its_defaults() {
    let option = ConfigOption::default();
    assert_eq!(option.base_dir, DEFAULT_BASE_DIR);
    assert_eq!(option.base_dir, "/tmp/fluvio");
    assert_eq!(option.segment_max_bytes, DEFAULT_SEGMENT_MAX_BYTES);
    assert_eq!(option.segment_max_bytes, 1 << 30);
}

#[test]
fn segment_rolls_when_the_next_batch_would_pass_the_limit() {
    let option = ConfigOption::new("dir".to_string(), 1000);
    assert!(!option.must_roll(0, 79));
    assert!(!option.must_roll(0, 5000));
    assert!(!option.must_roll(921, 79));
    assert!(option.must_roll(922, 79));
    assert!(option.must_roll(1, 1000));
    assert!(!option.must_roll(1, 999));
    assert!(option.must_roll(u64::MAX, u64::MAX));
}

#[test]
fn batch_is_found_by_offset() {
    let log = log_of(4);
    for (offset, position) in [(200i64, 0u64), (201, 0), (202, 79), (205, 158), (207, 237)] {
        let mut stream = BatchHeaderStream::open(log.clone());
        let item = stream.find_offset(offset).expect("batch");
        assert_eq!(item.get_pos(), position);
        assert!(item.get_base_offset() <= offset && offset <= item.get_last_offset());
        assert_eq!(stream.get_pos(), position + 79);
    }
    for offset in [199i64, 208, i64::MIN, i64::MAX] {
        let mut stream = BatchHeaderStream::open(log.clone());
        assert!(stream.find_offset(offset).is_none());
        assert_eq!(stream.get_pos(), 316);
        assert!(!stream.is_invalid());
    }
    // what lies behind the stream is not found again
    let mut stream = BatchHeaderStream::open(log);
    assert!(stream.find_offset(204).is_some());
    assert!(stream.find_offset(200).is_none());
}

#[test]
fn stream_goes_on_from_a_recorded_position() {
    let log = log_of(3);
    let mut first = BatchHeaderStream::open(log.clone());
    first.next().expect("batch");
    let recorded = first.get_pos();
    let mut second = BatchHeaderStream::open_at(log.clone(), recorded).expect("within");
    assert_eq!(second.get_pos(), 79);
    assert_eq!(second.next().expect("batch").get_base_offset(), 202);
    assert_eq!(second.next().expect("batch").get_base_offset(), 204);
    assert!(second.next().is_none());
    assert!(BatchHeaderStream::open_at(log.clone(), 237).is_some());
    assert!(BatchHeaderStream::open_at(log, 238).is_none());
}

#[test]
fn header_and_records_can_be_read_apart() {
    let log = log_of(2);
    let mut item = match FileBatchPos::<MemoryRecords>::from_header(&log[79..79 + 57], 79) {
        HeaderRead::Head(item) => item,
        _ => panic!("no header"),
    };
    assert_eq!(item.get_pos(), 79);
    assert_eq!(item.get_base_offset(), 202);
    assert_eq!(item.remainder(), 22);
    assert_eq!(item.wanted(), 22);
    assert_eq!(item.get_batch().records_len(), 0);
    assert_eq!(item.read_records(&log[79 + 57..]), Ok(()));
    assert_eq!(item.get_batch().records_len(), 2);

    let only_head = match FileBatchPos::<FileEmptyRecords>::from_header(&log[..57], 0) {
        HeaderRead::Head(item) => item,
        _ => panic!("no header"),
    };
    assert_eq!(only_head.remainder(), 22);
    assert_eq!(only_head.wanted(), 0);

    assert!(matches!(
        FileBatchPos::<FileEmptyRecords>::from_header(&log[..56], 0),
        HeaderRead::End
    ));
    assert!(matches!(FileBatchPos::<FileEmptyRecords>::from_header(&[], 0), HeaderRead::End));
    let mut bad = log[..57].to_vec();
    bad[8..12].copy_from_slice(&[0xff, 0xff, 0xff, 0xff]);
    assert!(matches!(
        FileBatchPos::<FileEmptyRecords>::from_header(&bad, 0),
        HeaderRead::Fail(DecodeError::InvalidData { reason: Invalid::BatchLength(-1) })
    ));
    // what follows the header does not matter to it
    assert!(matches!(
        FileBatchPos::<FileEmptyRecords>::from_header(&log, 0),
        HeaderRead::Head(_)
    ));
}

#[test]
fn last_offset_beyond_all_offsets_is_a_failure() {
    let mut log = log_of(1);
    log[..8].copy_from_slice(&i64::MAX.to_be_bytes());
    let mut stream = BatchHeaderStream::open(log.clone());
    assert!(stream.next().is_none());
    assert_eq!(
        stream.invalid(),
        Some(DecodeError::InvalidData { reason: Invalid::OffsetDelta(1) })
    );
    // one offset lower the batch ends at the last offset there is
    log[..8].copy_from_slice(&(i64::MAX - 1).to_be_bytes());
    let mut stream = BatchHeaderStream::open(log);
    assert_eq!(stream.next().expect("batch").get_last_offset(), i64::MAX);
}

#[test]
fn start_of_a_damaged_file_reads_as_a_start_of_the_whole() {
    let mut log = log_of(4);
    // the count of records of the third batch
    log[158 + 57..158 + 61].copy_from_slice(&[0, 0, 0, 9]);
    // the declared length of the fourth batch
    log[237 + 8..237 + 12].copy_from_slice(&[0, 0, 0, 1]);
    let whole_full = positions::<MemoryRecords>(&log);
    let whole_heads = positions::<FileEmptyRecords>(&log);
    assert_eq!(
        whole_full,
        (vec![0, 79], 158, Some(DecodeError::InvalidData { reason: Invalid::Payload }))
    );
    assert_eq!(
        whole_heads,
        (vec![0, 79, 158], 237, Some(DecodeError::InvalidData { reason: Invalid::BatchLength(1) }))
    );
    for cut in 0..=log.len() {
        for (whole, part) in [
            (&whole_full, positions::<MemoryRecords>(&log[..cut])),
            (&whole_heads, positions::<FileEmptyRecords>(&log[..cut])),
        ] {
            assert!(part.0.len() <= whole.0.len());
            assert_eq!(&part.0[..], &whole.0[..part.0.len()]);
            assert!(part.1 <= cut as u64);
            if part.2.is_some() {
                assert_eq!(&part, whole, "cut at {}", cut);
            }
        }
    }
}

#[test]
fn producer_that_cannot_produce_is_not_built() {
    let result = BatchProducer::builder().base_offset(i64::MAX - 1).records(2).build();
    assert_eq!(result.err(), Some(BuilderError::OffsetOutOfRange));
    assert!(BatchProducer::builder().base_offset(i64::MAX - 2).records(2).build().is_ok());
    assert!(BatchProducer::builder().base_offset(i64::MAX).records(0).build().is_ok());
}

#[test]
fn step_after_a_header_goes_by_the_length_of_the_file() {
    let log = log_of(2);
    let full = match FileBatchPos::<MemoryRecords>::from_header(&log[79..79 + 57], 79) {
        HeaderRead::Head(item) => item,
        _ => panic!("no header"),
    };
    // the batch ends at 158
    assert_eq!(full.after_header(158), PayloadStep::Read { wanted: 22, next: 158 });
    assert_eq!(full.after_header(10_000), PayloadStep::Read { wanted: 22, next: 158 });
    assert_eq!(full.after_header(157), PayloadStep::End);
    assert_eq!(full.after_header(79 + 57), PayloadStep::End);
    assert_eq!(full.after_header(79), PayloadStep::End);
    assert_eq!(full.after_header(0), PayloadStep::End);
    let heads = match FileBatchPos::<FileEmptyRecords>::from_header(&log[..57], 0) {
        HeaderRead::Head(item) => item,
        _ => panic!("no header"),
    };
    assert_eq!(heads.after_header(79), PayloadStep::Read { wanted: 0, next: 79 });
    assert_eq!(heads.after_header(78), PayloadStep::End);
    // a batch that would end beyond every position
    let far = match FileBatchPos::<FileEmptyRecords>::from_header(&log[..57], u64::MAX - 60) {
        HeaderRead::Head(item) => item,
        _ => panic!("no header"),
    };
    assert_eq!(far.after_header(u64::MAX), PayloadStep::End);
}

#[test]
fn failed_record_leaves_read_what_was_read() {
    let record = Record::new(RecordData::new(vec![10, 20]));
    let mut bytes = Vec::new();
    record.encode(&mut bytes, 0);
    // a wrong length is found when all fields are read
    bytes[0] = 14;
    let mut back = Record::default();
    let mut src = ByteReader::new(&bytes);
    assert!(back.decode(&mut src, 0).is_err());
    assert_eq!(src.pos(), 9);
    assert_eq!(back, Record::default());
    // a record that ends in its value: length, attributes, deltas, key flag
    // and the length of the value are read
    let mut src = ByteReader::new(&bytes[..7]);
    assert_eq!(back.decode(&mut src, 0), Err(DecodeError::UnexpectedEnd));
    assert_eq!(src.pos(), 6);
    // a batch whose records end early: the header and the count of records are read
    let log = log_of(1);
    let mut batch = Batch::<MemoryRecords>::new();
    let mut src = ByteReader::new(&log[..62]);
    assert_eq!(batch.decode(&mut src, 0), Err(DecodeError::UnexpectedEnd));
    assert_eq!(src.pos(), 62);
    let mut src = ByteReader::new(&log[..56]);
    assert_eq!(batch.decode(&mut src, 0), Err(DecodeError::UnexpectedEnd));
    assert_eq!(src.pos(), 0);
}
