use ttd::frame::{
    decode_frame, decode_len, encode_frame, encode_len, FrameReader, TransportError,
};
use ttd::socket::{decode_message, decode_segment, encode_answer, encode_message, message_body, terminate};

#[test]
fn length_is_four_bytes_most_significant_first() {
    assert_eq!(encode_len(0), vec![0, 0, 0, 0]);
    assert_eq!(encode_len(0x01020304), vec![1, 2, 3, 4]);
    assert_eq!(encode_len(u32::MAX), vec![255, 255, 255, 255]);
    assert_eq!(decode_len(&[1, 2, 3, 4]), Ok(0x01020304));
    assert_eq!(decode_len(&[255, 255, 255, 255, 9]), Ok(u32::MAX));
    assert_eq!(decode_len(&[1, 2, 3]), Err(TransportError::ConnectionClosed));
    assert_eq!(decode_len(&[]), Err(TransportError::ConnectionClosed));
}

#[test]
fn frame_is_length_then_payload() {
    assert_eq!(encode_frame(b"abc"), Some(vec![0, 0, 0, 3, b'a', b'b', b'c']));
    assert_eq!(encode_frame(b""), Some(vec![0, 0, 0, 0]));
    let long = vec![7u8; 300];
    let frame = encode_frame(&long).unwrap();
    assert_eq!(&frame[..4], &[0, 0, 1, 44]);
    assert_eq!(&frame[4..], &long[..]);
}

#[test]
fn frame_round_trip_leaves_what_follows() {
    let mut bytes = encode_frame(b"hello").unwrap();
    bytes.extend_from_slice(&encode_frame(b"again").unwrap());
    let (payload, used) = decode_frame(&bytes).unwrap();
    assert_eq!(payload, b"hello");
    assert_eq!(used, 9);
    let (next, used) = decode_frame(&bytes[used..]).unwrap();
    assert_eq!(next, b"again");
    assert_eq!(used, 9);
}

#[test]
fn truncated_frame_is_a_closed_connection() {
    let frame = encode_frame(b"hello").unwrap();
    for kept in 0..frame.len() {
        assert_eq!(decode_frame(&frame[..kept]), Err(TransportError::ConnectionClosed));
    }
    assert_eq!(decode_frame(&[0, 0, 0, 9, 1, 2]), Err(TransportError::ConnectionClosed));
    assert_eq!(
        decode_frame(&[255, 255, 255, 255, 1, 2]),
        Err(TransportError::ConnectionClosed)
    );
}

#[test]
fn message_is_base64_without_padding_then_end_of_transmission() {
    assert_eq!(encode_message(b"hello"), Some(b"aGVsbG8\x04".to_vec()));
    assert_eq!(encode_message(b"hi"), Some(b"aGk\x04".to_vec()));
    assert_eq!(encode_message(&[0xfb, 0xff]), Some(b"+/8\x04".to_vec()));
    assert_eq!(encode_message(b""), Some(vec![4]));
    assert_eq!(encode_message(b"a"), Some(b"YQ\x04".to_vec()));
    assert_eq!(encode_message(b"abc"), Some(b"YWJj\x04".to_vec()));
    assert_eq!(encode_message(b"abcd"), Some(b"YWJjZA\x04".to_vec()));
}

#[test]
fn answer_without_message_is_end_of_transmission_alone() {
    assert_eq!(encode_answer(&None), Some(vec![4]));
    assert_eq!(encode_answer(&Some(b"hello".to_vec())), Some(b"aGVsbG8\x04".to_vec()));
}

#[test]
fn message_round_trip() {
    let bytes = encode_message(b"any bytes \x00\x04\xff").unwrap();
    assert_eq!(bytes.iter().position(|b| *b == 4), Some(bytes.len() - 1));
    assert_eq!(decode_message(&bytes), Ok(Some(b"any bytes \x00\x04\xff".to_vec())));
}

#[test]
fn received_message() {
    assert_eq!(decode_message(b"aGVsbG8\x04"), Ok(Some(b"hello".to_vec())));
    assert_eq!(decode_message(b"\x04"), Ok(None));
    assert_eq!(decode_message(b""), Ok(None));
    assert_eq!(decode_message(b"aGVsbG8=\x04"), Err(TransportError::ProtocolError));
    assert_eq!(decode_message(b"a\x04"), Err(TransportError::ProtocolError));
    assert_eq!(decode_message(b"a b c\x04"), Err(TransportError::ProtocolError));
    assert_eq!(decode_message(b"aGk"), Err(TransportError::ProtocolError));
}

#[test]
fn segment_of_a_split_stream() {
    assert_eq!(decode_segment(b"aGVsbG8"), Ok(b"hello".to_vec()));
    assert_eq!(decode_segment(b""), Ok(Vec::new()));
    assert_eq!(decode_segment(b"!"), Err(TransportError::ProtocolError));
}

#[test]
fn last_byte_is_dropped_whatever_it_is() {
    assert_eq!(message_body(b"abc\x04"), b"abc");
    assert_eq!(message_body(b"abc"), b"ab");
    assert_eq!(message_body(b""), b"");
    assert_eq!(terminate(b"abc".to_vec()), b"abc\x04".to_vec());
}

#[test]
fn reader_gives_out_frames_as_they_complete() {
    let mut stream = encode_frame(b"one").unwrap();
    stream.extend_from_slice(&encode_frame(b"").unwrap());
    stream.extend_from_slice(&encode_frame(b"three").unwrap());
    let mut reader = FrameReader::new();
    assert!(!reader.has_pending());
    assert_eq!(reader.next_frame(), None);
    let mut got: Vec<Vec<u8>> = Vec::new();
    for byte in &stream {
        reader.push(&[*byte]);
        while let Some(payload) = reader.next_frame() {
            got.push(payload);
        }
    }
    assert_eq!(got, vec![b"one".to_vec(), b"".to_vec(), b"three".to_vec()]);
    assert!(!reader.has_pending());
}

#[test]
fn reader_keeps_what_follows_a_frame() {
    let mut stream = encode_frame(b"one").unwrap();
    stream.extend_from_slice(&encode_frame(b"two").unwrap());
    stream.extend_from_slice(&[0, 0]);
    let mut reader = FrameReader::new();
    reader.push(&stream);
    assert_eq!(reader.next_frame(), Some(b"one".to_vec()));
    assert_eq!(reader.next_frame(), Some(b"two".to_vec()));
    assert_eq!(reader.next_frame(), None);
    assert!(reader.has_pending());
    reader.push(&[0, 1, 9]);
    assert_eq!(reader.next_frame(), Some(vec![9]));
    assert!(!reader.has_pending());
}
