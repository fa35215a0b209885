use fluvio_core::codec::error::{DecodeError, Invalid};
use fluvio_core::codec::reader::ByteReader;
use fluvio_core::codec::traits::{Decoder, Encoder};
use fluvio_core::codec::varint::{varint_decode, varint_encode, varint_size};

fn encoded<T: Encoder>(value: &T, version: i16) -> Vec<u8> {
    let mut dest = Vec::new();
    value.encode(&mut dest, version);
    dest
}

fn decoded<T: Decoder + Default>(bytes: &[u8], version: i16) -> Result<(T, usize), DecodeError> {
    let mut src = ByteReader::new(bytes);
    let mut value = T::default();
    value.decode(&mut src, version)?;
    Ok((value, src.pos()))
}

#[test]
fn integers_are_written_most_significant_byte_first() {
    assert_eq!(encoded(&0x12u8, 0), vec![0x12]);
    assert_eq!(encoded(&0x1234u16, 0), vec![0x12, 0x34]);
    assert_eq!(encoded(&0x1234_5678u32, 0), vec![0x12, 0x34, 0x56, 0x78]);
    assert_eq!(encoded(&200i64, 0), vec![0, 0, 0, 0, 0, 0, 0, 200]);
    assert_eq!(encoded(&0x0102_0304_0506_0708i64, 0), vec![1, 2, 3, 4, 5, 6, 7, 8]);
}

#[test]
fn negative_integers_are_written_in_twos_complement() {
    assert_eq!(encoded(&-1i8, 0), vec![0xff]);
    assert_eq!(encoded(&-128i8, 0), vec![0x80]);
    assert_eq!(encoded(&-1i16, 0), vec![0xff, 0xff]);
    assert_eq!(encoded(&-2i32, 0), vec![0xff, 0xff, 0xff, 0xfe]);
    assert_eq!(encoded(&i32::MIN, 0), vec![0x80, 0, 0, 0]);
    assert_eq!(encoded(&-1i64, 0), vec![0xff; 8]);
    assert_eq!(encoded(&i64::MIN, 0), vec![0x80, 0, 0, 0, 0, 0, 0, 0]);
}

#[test]
fn integers_read_back_at_their_limits() {
    for v in [0u8, 1, 127, 128, 255] {
        assert_eq!(decoded::<u8>(&encoded(&v, 0), 0), Ok((v, 1)));
    }
    for v in [i8::MIN, -1, 0, 1, i8::MAX] {
        assert_eq!(decoded::<i8>(&encoded(&v, 0), 0), Ok((v, 1)));
    }
    for v in [0u16, 1, 255, 256, u16::MAX] {
        assert_eq!(decoded::<u16>(&encoded(&v, 0), 0), Ok((v, 2)));
    }
    for v in [i16::MIN, -1, 0, 1, i16::MAX] {
        assert_eq!(decoded::<i16>(&encoded(&v, 0), 0), Ok((v, 2)));
    }
    for v in [0u32, 1, 65_536, u32::MAX] {
        assert_eq!(decoded::<u32>(&encoded(&v, 0), 0), Ok((v, 4)));
    }
    for v in [i32::MIN, -1, 0, 1, i32::MAX] {
        assert_eq!(decoded::<i32>(&encoded(&v, 0), 0), Ok((v, 4)));
    }
    for v in [i64::MIN, -1, 0, 1, 1 << 40, i64::MAX] {
        assert_eq!(decoded::<i64>(&encoded(&v, 0), 0), Ok((v, 8)));
    }
}

#[test]
fn size_is_the_number_of_bytes_written() {
    assert_eq!(7u8.write_size(0), encoded(&7u8, 0).len());
    assert_eq!(7i16.write_size(0), encoded(&7i16, 0).len());
    assert_eq!(7i32.write_size(0), encoded(&7i32, 0).len());
    assert_eq!(7i64.write_size(0), encoded(&7i64, 0).len());
    assert_eq!(true.write_size(0), encoded(&true, 0).len());
    let text = "topic".to_string();
    assert_eq!(text.write_size(0), 7);
    assert_eq!(encoded(&text, 0).len(), 7);
    let list: Vec<i32> = vec![1, 2, 3];
    assert_eq!(list.write_size(0), 16);
    assert_eq!(encoded(&list, 0).len(), 16);
    let maybe: Option<u16> = Some(9);
    assert_eq!(maybe.write_size(0), 3);
    assert_eq!(encoded(&maybe, 0).len(), 3);
}

#[test]
fn short_input_is_an_unexpected_end() {
    assert_eq!(decoded::<u8>(&[], 0), Err(DecodeError::UnexpectedEnd));
    assert_eq!(decoded::<i16>(&[1], 0), Err(DecodeError::UnexpectedEnd));
    assert_eq!(decoded::<u32>(&[1, 2, 3], 0), Err(DecodeError::UnexpectedEnd));
    assert_eq!(decoded::<i64>(&[1, 2, 3, 4, 5, 6, 7], 0), Err(DecodeError::UnexpectedEnd));
    assert_eq!(decoded::<bool>(&[], 0), Err(DecodeError::UnexpectedEnd));
    assert_eq!(decoded::<String>(&[0, 5, b'a', b'b'], 0), Err(DecodeError::UnexpectedEnd));
    assert_eq!(decoded::<Vec<u8>>(&[0, 0, 0, 2, 7], 0), Err(DecodeError::UnexpectedEnd));
    assert_eq!(decoded::<Option<u16>>(&[1, 7], 0), Err(DecodeError::UnexpectedEnd));
}

#[test]
fn flags_are_zero_or_one() {
    assert_eq!(encoded(&false, 0), vec![0]);
    assert_eq!(encoded(&true, 0), vec![1]);
    assert_eq!(decoded::<bool>(&[0], 0), Ok((false, 1)));
    assert_eq!(decoded::<bool>(&[1], 0), Ok((true, 1)));
    assert_eq!(
        decoded::<bool>(&[2], 0),
        Err(DecodeError::InvalidData { reason: Invalid::Flag(2) })
    );
}

#[test]
fn failed_decode_stops_where_the_failure_is_and_leaves_the_value() {
    let mut value = true;
    let mut src = ByteReader::new(&[1, 7]);
    assert_eq!(src.get_u8(), Some(1));
    assert!(value.decode(&mut src, 0).is_err());
    assert!(value);
    // the byte that is no flag stays read
    assert_eq!(src.pos(), 2);

    let mut text = "kept".to_string();
    let mut src = ByteReader::new(&[0, 2, 0xff, 0xfe]);
    assert_eq!(
        text.decode(&mut src, 0),
        Err(DecodeError::InvalidData { reason: Invalid::Text })
    );
    assert_eq!(text, "kept");
    // the length and the bytes that are no text stay read
    assert_eq!(src.pos(), 4);
    let mut src = ByteReader::new(&[0, 9, b'a']);
    assert_eq!(text.decode(&mut src, 0), Err(DecodeError::UnexpectedEnd));
    // the length stays read, the bytes that are too few do not
    assert_eq!(src.pos(), 2);
    let mut src = ByteReader::new(&[0]);
    assert_eq!(text.decode(&mut src, 0), Err(DecodeError::UnexpectedEnd));
    assert_eq!(src.pos(), 0);

    let mut list: Vec<u8> = vec![1, 2, 3];
    let mut src = ByteReader::new(&[0, 0, 0, 4, 9]);
    assert_eq!(list.decode(&mut src, 0), Err(DecodeError::UnexpectedEnd));
    assert_eq!(list, vec![1, 2, 3]);
    // the count and the one item that is there stay read
    assert_eq!(src.pos(), 5);

    let mut maybe: Option<bool> = Some(true);
    let mut src = ByteReader::new(&[1, 5]);
    assert_eq!(
        maybe.decode(&mut src, 0),
        Err(DecodeError::InvalidData { reason: Invalid::Flag(5) })
    );
    assert_eq!(maybe, Some(true));
    assert_eq!(src.pos(), 2);

    let mut src = ByteReader::new(&[0x80, 0x80]);
    assert_eq!(varint_decode(&mut src), Err(DecodeError::UnexpectedEnd));
    assert_eq!(src.pos(), 2);
    // ten groups that spell more than 64 bits are all read
    let mut src = ByteReader::new(&[0xff, 0xff, 0xff, 0xff, 0xff, 0xff, 0xff, 0xff, 0xff, 0x02, 7]);
    assert!(varint_decode(&mut src).is_err());
    assert_eq!(src.pos(), 10);
    // of eleven groups ten are read
    let mut src = ByteReader::new(&[0x80; 11]);
    assert!(varint_decode(&mut src).is_err());
    assert_eq!(src.pos(), 10);

    let mut number = 7i32;
    let mut src = ByteReader::new(&[1, 2, 3]);
    assert_eq!(number.decode(&mut src, 0), Err(DecodeError::UnexpectedEnd));
    assert_eq!(number, 7);
    assert_eq!(src.pos(), 0);
}

#[test]
fn reader_can_be_moved_back() {
    let bytes = [1u8, 2, 3];
    let mut src = ByteReader::new(&bytes);
    assert_eq!(src.take(2), Some(&bytes[..2]));
    src.rewind(1);
    assert_eq!(src.pos(), 1);
    assert_eq!(src.get_u8(), Some(2));
    src.rewind(0);
    assert_eq!(src.pos(), 0);
}

#[test]
fn text_is_length_then_utf8() {
    let text = "héllo".to_string();
    let bytes = encoded(&text, 0);
    assert_eq!(bytes, vec![0, 6, b'h', 0xc3, 0xa9, b'l', b'l', b'o']);
    assert_eq!(decoded::<String>(&bytes, 0), Ok((text, 8)));
    assert_eq!(encoded(&String::new(), 0), vec![0, 0]);
    assert_eq!(decoded::<String>(&[0, 0], 0), Ok((String::new(), 2)));
}

#[test]
fn text_with_a_negative_length_is_empty() {
    assert_eq!(decoded::<String>(&[0xff, 0xff, b'x'], 0), Ok((String::new(), 2)));
}

#[test]
fn text_reads_back_with_what_follows_left_alone() {
    let mut bytes = encoded(&"ab".to_string(), 0);
    bytes.extend_from_slice(&[9, 9, 9]);
    assert_eq!(decoded::<String>(&bytes, 0), Ok(("ab".to_string(), 4)));
}

#[test]
fn longest_text_reads_back() {
    let text: String = "x".repeat(0x7fff);
    let bytes = encoded(&text, 0);
    assert_eq!(bytes.len(), 0x7fff + 2);
    assert_eq!(&bytes[..2], &[0x7f, 0xff]);
    assert_eq!(decoded::<String>(&bytes, 0), Ok((text, 0x7fff + 2)));
}

#[test]
fn text_beyond_the_longest_does_not_read_back() {
    let text: String = "x".repeat(0x8000);
    let bytes = encoded(&text, 0);
    assert_eq!(bytes.len(), 0x8000 + 2);
    assert_eq!(text.write_size(0), 0x8000 + 2);
    assert_eq!(decoded::<String>(&bytes, 0), Ok((String::new(), 2)));
}

#[test]
fn optional_values_are_flag_then_value() {
    let none: Option<u16> = None;
    assert_eq!(encoded(&none, 0), vec![0]);
    assert_eq!(encoded(&Some(0x0102u16), 0), vec![1, 1, 2]);
    assert_eq!(decoded::<Option<u16>>(&[0], 0), Ok((None, 1)));
    assert_eq!(decoded::<Option<u16>>(&[1, 1, 2], 0), Ok((Some(0x0102), 3)));
    assert_eq!(
        decoded::<Option<u16>>(&[3, 1, 2], 0),
        Err(DecodeError::InvalidData { reason: Invalid::Flag(3) })
    );
    let text = Some("a".to_string());
    assert_eq!(decoded::<Option<String>>(&encoded(&text, 0), 0), Ok((text, 4)));
}

#[test]
fn sequences_are_count_then_items() {
    let list: Vec<i16> = vec![1, -1, 256];
    let bytes = encoded(&list, 0);
    assert_eq!(bytes, vec![0, 0, 0, 3, 0, 1, 0xff, 0xff, 1, 0]);
    assert_eq!(decoded::<Vec<i16>>(&bytes, 0), Ok((list, 10)));
    let empty: Vec<i16> = vec![];
    assert_eq!(encoded(&empty, 0), vec![0, 0, 0, 0]);
    assert_eq!(decoded::<Vec<i16>>(&[0, 0, 0, 0], 0), Ok((vec![], 4)));
    assert_eq!(decoded::<Vec<i16>>(&[0xff, 0xff, 0xff, 0xff, 1], 0), Ok((vec![], 4)));
    let nested: Vec<Vec<String>> = vec![vec!["a".to_string()], vec![], vec!["bc".to_string(), "".to_string()]];
    let bytes = encoded(&nested, 0);
    assert_eq!(nested.write_size(0), bytes.len());
    assert_eq!(decoded::<Vec<Vec<String>>>(&bytes, 0), Ok((nested, bytes.len())));
}

#[test]
fn sequence_stops_at_the_first_bad_item() {
    let bytes = [0, 0, 0, 2, 1, 2];
    assert_eq!(
        decoded::<Vec<bool>>(&bytes, 0),
        Err(DecodeError::InvalidData { reason: Invalid::Flag(2) })
    );
}

fn varint(v: i64) -> Vec<u8> {
    let mut dest = Vec::new();
    varint_encode(&mut dest, v);
    dest
}

fn unvarint(bytes: &[u8]) -> Result<(i64, usize), DecodeError> {
    let mut src = ByteReader::new(bytes);
    let v = varint_decode(&mut src)?;
    Ok((v, src.pos()))
}

#[test]
fn variable_length_integers_zigzag() {
    assert_eq!(varint(0), vec![0]);
    assert_eq!(varint(-1), vec![1]);
    assert_eq!(varint(1), vec![2]);
    assert_eq!(varint(-2), vec![3]);
    assert_eq!(varint(2), vec![4]);
    assert_eq!(varint(63), vec![126]);
    assert_eq!(varint(-64), vec![127]);
    assert_eq!(varint(64), vec![0x80, 0x01]);
    assert_eq!(varint(150), vec![0xac, 0x02]);
    assert_eq!(varint(i64::MAX), vec![0xfe, 0xff, 0xff, 0xff, 0xff, 0xff, 0xff, 0xff, 0xff, 0x01]);
    assert_eq!(varint(i64::MIN), vec![0xff, 0xff, 0xff, 0xff, 0xff, 0xff, 0xff, 0xff, 0xff, 0x01]);
}

#[test]
fn variable_length_integers_read_back() {
    for v in [0i64, 1, -1, 2, 63, 64, -64, -65, 150, 1 << 20, -(1 << 33), i64::MAX, i64::MIN] {
        let bytes = varint(v);
        assert_eq!(varint_size(v), bytes.len());
        assert_eq!(unvarint(&bytes), Ok((v, bytes.len())));
        let mut more = bytes.clone();
        more.push(0x55);
        assert_eq!(unvarint(&more), Ok((v, bytes.len())));
    }
}

#[test]
fn variable_length_integers_fail_cleanly() {
    assert_eq!(unvarint(&[]), Err(DecodeError::UnexpectedEnd));
    assert_eq!(unvarint(&[0x80]), Err(DecodeError::UnexpectedEnd));
    assert_eq!(unvarint(&[0xff, 0xff]), Err(DecodeError::UnexpectedEnd));
    // eleven bytes
    assert_eq!(
        unvarint(&[0x80, 0x80, 0x80, 0x80, 0x80, 0x80, 0x80, 0x80, 0x80, 0x80, 0x01]),
        Err(DecodeError::InvalidData { reason: Invalid::Varint })
    );
    // ten bytes that spell more than 64 bits
    assert_eq!(
        unvarint(&[0xff, 0xff, 0xff, 0xff, 0xff, 0xff, 0xff, 0xff, 0xff, 0x02]),
        Err(DecodeError::InvalidData { reason: Invalid::Varint })
    );
}

#[test]
fn reader_moves_forward_only_within_its_bytes() {
    let bytes = [1u8, 2, 3];
    let mut src = ByteReader::new(&bytes);
    assert_eq!(src.pos(), 0);
    assert_eq!(src.remaining(), 3);
    assert_eq!(src.get_u8(), Some(1));
    assert_eq!(src.take(3), None);
    assert_eq!(src.pos(), 1);
    assert_eq!(src.take(2), Some(&bytes[1..]));
    assert_eq!(src.remaining(), 0);
    assert_eq!(src.get_u8(), None);
    assert_eq!(src.take(0), Some(&bytes[3..]));
}

#[test]
fn unknown_tag_error_names_the_tag() {
    assert_eq!(
        DecodeError::unknown_tag(9),
        DecodeError::InvalidData { reason: Invalid::Tag(9) }
    );
    assert!(DecodeError::UnexpectedEnd.is_unexpected_end());
    assert!(!DecodeError::unknown_tag(9).is_unexpected_end());
}
