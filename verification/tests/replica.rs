use fluvio_core::storage::batch_header::BatchHeaderStream;
use fluvio_core::storage::config::ConfigOption;
use fluvio_core::storage::fixture::BatchProducer;
use fluvio_core::storage::mut_records::StorageError;
use fluvio_core::storage::replica::{FileReplica, SegmentId, SegmentInfo};

fn option(max: u64) -> ConfigOption {
    ConfigOption::new("replica".to_string(), max)
}

fn producer(base_offset: i64) -> BatchProducer {
    BatchProducer::builder().base_offset(base_offset).producer_id(1).build().expect("build")
}

#[test]
fn fresh_log_has_one_active_segment() {
    let log = FileReplica::create(200, option(1000));
    assert_eq!(log.get_base_offset(), 200);
    assert_eq!(log.get_end_offset(), 200);
    assert_eq!(log.sealed_len(), 0);
    assert_eq!(log.sealed_segment(0), None);
    assert_eq!(log.active_segment().get_base_offset(), 200);
    assert_eq!(log.active_segment().get_pos(), 0);
    assert_eq!(log.find_segment(200), None);
    log.in_order();
}

#[test]
fn log_rolls_over_when_the_active_segment_is_full() {
    // room for two batches of 79 bytes, not for three
    let mut log = FileReplica::create(200, option(200));
    let mut producer = producer(200);
    let mut files: Vec<Vec<u8>> = vec![Vec::new()];
    let mut rolls = Vec::new();
    for _ in 0..5 {
        let appended = log.write_batch(&producer.batch()).expect("write");
        rolls.push(appended.rolled);
        if appended.rolled {
            files.push(Vec::new());
        }
        files.last_mut().expect("file").extend(appended.bytes);
    }
    assert_eq!(rolls, vec![false, false, true, false, true]);
    assert_eq!(log.sealed_len(), 2);
    assert_eq!(
        log.sealed_segment(0),
        Some(SegmentInfo { base_offset: 200, end_offset: 204, size: 158 })
    );
    assert_eq!(
        log.sealed_segment(1),
        Some(SegmentInfo { base_offset: 204, end_offset: 208, size: 158 })
    );
    assert_eq!(log.sealed_segment(2), None);
    assert_eq!(log.active_segment().get_base_offset(), 208);
    assert_eq!(log.active_segment().get_pos(), 79);
    assert_eq!(log.active_segment().file_name(), "00000000000000000208.log");
    assert_eq!(log.get_end_offset(), 210);
    assert_eq!(files.iter().map(Vec::len).collect::<Vec<_>>(), vec![158, 158, 79]);

    // every segment reads back on its own, and the offsets go on from one to the next
    let mut next = 200;
    for file in files {
        let mut stream = BatchHeaderStream::open(file);
        for item in stream.read_all() {
            assert_eq!(item.get_base_offset(), next);
            next = item.get_last_offset() + 1;
        }
        assert!(!stream.is_invalid());
    }
    assert_eq!(next, 210);
}

#[test]
fn batch_larger_than_a_segment_gets_a_segment_of_its_own() {
    let mut log = FileReplica::create(0, option(50));
    let mut producer = producer(0);
    assert!(!log.write_batch(&producer.batch()).expect("write").rolled);
    assert!(log.write_batch(&producer.batch()).expect("write").rolled);
    assert!(log.write_batch(&producer.batch()).expect("write").rolled);
    assert_eq!(log.sealed_len(), 2);
    assert_eq!(log.active_segment().get_pos(), 79);
}

#[test]
fn segment_is_found_by_offset() {
    let mut log = FileReplica::create(200, option(200));
    let mut producer = producer(200);
    for _ in 0..5 {
        log.write_batch(&producer.batch()).expect("write");
    }
    assert_eq!(log.find_segment(199), None);
    assert_eq!(log.find_segment(i64::MIN), None);
    assert_eq!(log.find_segment(200), Some(SegmentId::Sealed(0)));
    assert_eq!(log.find_segment(203), Some(SegmentId::Sealed(0)));
    assert_eq!(log.find_segment(204), Some(SegmentId::Sealed(1)));
    assert_eq!(log.find_segment(207), Some(SegmentId::Sealed(1)));
    assert_eq!(log.find_segment(208), Some(SegmentId::Active));
    assert_eq!(log.find_segment(209), Some(SegmentId::Active));
    assert_eq!(log.find_segment(210), None);
    assert_eq!(log.find_segment(i64::MAX), None);
}

#[test]
fn log_turns_down_what_its_active_segment_turns_down() {
    let mut log = FileReplica::create(200, option(100));
    log.write_batch(&producer(200).batch()).expect("write");
    // a batch that would roll the segment, but overlaps what is there
    let result = log.write_batch(&producer(201).batch());
    assert_eq!(result.err(), Some(StorageError::InvalidBaseOffset(201)));
    assert_eq!(log.sealed_len(), 0);
    assert_eq!(log.active_segment().get_pos(), 79);
    assert_eq!(log.get_end_offset(), 202);
    let mut backwards = producer(300).batch();
    backwards.get_mut_header().last_offset_delta = -7;
    assert_eq!(
        log.write_batch(&backwards).err(),
        Some(StorageError::InvalidOffsetDelta(-7))
    );
    assert_eq!(log.sealed_len(), 0);
}
