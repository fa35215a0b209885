use fluvio_core::codec::error::{DecodeError, Invalid};
use fluvio_core::codec::reader::ByteReader;
use fluvio_core::codec::traits::{as_bytes, decode_from, Encoder};
use fluvio_core::metadata::topic::{TopicReplicaParam, TopicSpec};
use fluvio_core::schema::create::{AllCreatableSpec, CreateRequest};
use fluvio_core::schema::message::{RequestHeader, RequestMessage};

fn request() -> CreateRequest {
    CreateRequest {
        name: "t1".to_string(),
        dry_run: true,
        spec: AllCreatableSpec::Topic(TopicSpec::Computed(TopicReplicaParam {
            partitions: 3,
            replication_factor: 2,
            ignore_rack_assignment: true,
        })),
    }
}

#[test]
fn frame_is_key_version_body() {
    let message = RequestMessage::new_request(request());
    assert_eq!(message.header, RequestHeader { api_key: 1001, api_version: 1 });
    let mut frame = Vec::new();
    message.encode(&mut frame);
    assert_eq!(message.write_size(), frame.len());
    assert_eq!(&frame[..4], &[0x03, 0xe9, 0, 1]);
    assert_eq!(&frame[4..], &as_bytes(&request(), 1)[..]);
    let back = RequestMessage::<CreateRequest>::decode_from(&mut ByteReader::new(&frame)).expect("frame");
    assert_eq!(back.header, message.header);
    assert_eq!(back.request, request());
}

#[test]
fn frame_is_read_under_the_version_it_names() {
    let message = RequestMessage::with_version(request(), 7);
    let mut frame = Vec::new();
    message.encode(&mut frame);
    let mut src = ByteReader::new(&frame);
    let back = RequestMessage::<CreateRequest>::decode_from(&mut src).expect("frame");
    assert_eq!(back.header.api_version, 7);
    assert_eq!(back.request, request());
    assert_eq!(src.pos(), frame.len());
}

#[test]
fn frame_under_another_key_is_no_request_of_this_kind() {
    let mut frame = Vec::new();
    RequestMessage::new_request(request()).encode(&mut frame);
    frame[1] = 0xea;
    let mut src = ByteReader::new(&frame);
    let result = RequestMessage::<CreateRequest>::decode_from(&mut src);
    assert_eq!(result.err(), Some(DecodeError::InvalidData { reason: Invalid::Code(1002) }));
    // key and version stay read
    assert_eq!(src.pos(), 4);
    let mut src = ByteReader::new(&frame[..3]);
    let result = RequestMessage::<CreateRequest>::decode_from(&mut src);
    assert_eq!(result.err(), Some(DecodeError::UnexpectedEnd));
    assert_eq!(src.pos(), 2);
}

#[test]
fn bytes_of_a_value_read_back() {
    let bytes = as_bytes(&request(), 1);
    assert_eq!(bytes.len(), request().write_size(1));
    let mut src = ByteReader::new(&bytes);
    assert_eq!(decode_from::<CreateRequest>(&mut src, 1), Ok(request()));
    assert_eq!(src.remaining(), 0);
    assert_eq!(decode_from::<CreateRequest>(&mut src, 1), Err(DecodeError::UnexpectedEnd));
}
