use fluvio_core::codec::traits::Encoder;
use fluvio_core::storage::batch::Offset;
use fluvio_core::storage::batch_header::BatchHeaderStream;
use fluvio_core::storage::config::ConfigOption;
use fluvio_core::storage::fixture::BatchProducer;
use fluvio_core::storage::mut_records::MutFileRecords;

fn default_option(base_dir: &str) -> ConfigOption {
    ConfigOption {
        base_dir: base_dir.to_string(),
        segment_max_bytes: 1000,
        ..Default::default()
    }
}

#[test]
fn test_decode_batch_header_simple() {
    const BASE_OFFSET: Offset = 200;
    const PRODUCER_ID: i64 = 12;

    let options = default_option("header-simpl");

    let mut builder = BatchProducer::builder()
        .base_offset(BASE_OFFSET)
        .producer_id(PRODUCER_ID)
        .build()
        .expect("build");

    let mut msg_sink = MutFileRecords::create(BASE_OFFSET, &options);
    let mut log: Vec<u8> = Vec::new();

    let batch = builder.batch();
    assert_eq!(batch.get_last_offset(), BASE_OFFSET + 1);
    // write a batch with 2 records
    log.extend(msg_sink.write_batch(&batch).expect("write"));

    drop(msg_sink);

    let mut stream = BatchHeaderStream::open(log.clone());

    let file_pos = stream.next().expect("some");
    assert_eq!(stream.get_pos(), 79);
    assert_eq!(file_pos.get_pos(), 0);
    let batch = file_pos.get_batch();
    assert_eq!(batch.get_header().producer_id, 12);
    assert_eq!(batch.get_base_offset(), BASE_OFFSET);
    assert_eq!(batch.get_last_offset(), BASE_OFFSET + 1);
    assert!((stream.next()).is_none());

    // a second stream over the same bytes sees the same single batch
    let mut again = BatchHeaderStream::open(log);
    assert!(again.next().is_some());
    assert!(again.next().is_none());
    assert!(!again.is_invalid());
}

#[test]
fn test_decode_batch_header_multiple() {
    const BASE_OFFSET: Offset = 200;
    const PRODUCER_ID: i64 = 25;

    let options = default_option("header_multiple");

    let mut msg_sink = MutFileRecords::create(BASE_OFFSET, &options);
    let mut log: Vec<u8> = Vec::new();

    let mut builder = BatchProducer::builder()
        .base_offset(BASE_OFFSET)
        .producer_id(PRODUCER_ID)
        .build()
        .expect("build");

    // writing 2 batches of 2 records = 4 records
    log.extend(msg_sink.write_batch(&builder.batch()).expect("write"));

    let test_batch = builder.batch();

    assert_eq!(test_batch.get_header().producer_id, PRODUCER_ID);
    log.extend(msg_sink.write_batch(&test_batch).expect("write"));

    drop(msg_sink);

    let mut stream = BatchHeaderStream::open(log);

    let batch_pos1 = stream.next().expect("batch");
    assert_eq!(stream.get_pos(), 79);
    assert_eq!(batch_pos1.get_pos(), 0);
    let batch1 = batch_pos1.get_batch();
    assert_eq!(batch1.get_base_offset(), BASE_OFFSET);
    assert_eq!(batch1.get_header().producer_id, PRODUCER_ID);

    let batch_pos2 = stream.next().expect("batch");
    assert_eq!(stream.get_pos(), 158);
    assert_eq!(batch_pos2.get_pos(), 79);
    let batch2 = batch_pos2.get_batch();
    assert_eq!(batch2.get_base_offset(), BASE_OFFSET + 2);
    assert_eq!(batch2.get_header().producer_id, PRODUCER_ID);

    assert!((stream.next()).is_none());
}

#[test]
fn sample_batch_takes_79_bytes() {
    let mut builder = BatchProducer::builder().base_offset(200).producer_id(12).build().expect("build");
    let batch = builder.batch();
    assert_eq!(batch.write_size(0), 79);
    let mut bytes = Vec::new();
    batch.encode(&mut bytes, 0);
    assert_eq!(bytes.len(), 79);
    // base offset 200, then the declared length 67 = 45 + 22
    assert_eq!(&bytes[0..8], &[0, 0, 0, 0, 0, 0, 0, 200]);
    assert_eq!(&bytes[8..12], &[0, 0, 0, 67]);
}
