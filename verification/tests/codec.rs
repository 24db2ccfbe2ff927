use baka::codec::{decode, encode, BakaMessage, DecodeError, lifecycle_note};

#[test]
fn round_trip_plain() {
    let author = b"alice".to_vec();
    let content = b"hello world".to_vec();
    let encoded = encode(&author, &content);
    let env = decode(&encoded).unwrap();
    assert_eq!(env.author, author);
    assert_eq!(env.content, content);
}

#[test]
fn round_trip_empty() {
    let author: Vec<u8> = Vec::new();
    let content: Vec<u8> = Vec::new();
    let encoded = encode(&author, &content);
    assert_eq!(encoded.len(), 16);
    let env = decode(&encoded).unwrap();
    assert!(env.author.is_empty());
    assert!(env.content.is_empty());
}

#[test]
fn round_trip_non_text_bytes() {
    let author = vec![0u8, 255, 1, 0, 254];
    let content = vec![0u8, 159, 146, 150, 0, 255, 10, 13];
    let encoded = encode(&author, &content);
    let env = decode(&encoded).unwrap();
    assert_eq!(env.author, author);
    assert_eq!(env.content, content);
}

#[test]
fn round_trip_large() {
    let author = vec![7u8; 10_000];
    let mut content = Vec::new();
    for i in 0..100_000u32 {
        content.push((i % 251) as u8);
    }
    let encoded = encode(&author, &content);
    let env = decode(&encoded).unwrap();
    assert_eq!(env.author, author);
    assert_eq!(env.content, content);
}

#[test]
fn decode_empty_buffer_is_truncated() {
    let buf: Vec<u8> = Vec::new();
    assert_eq!(decode(&buf), Err(DecodeError::Truncated));
}

#[test]
fn decode_short_header_is_truncated() {
    let buf = vec![1u8, 2, 3];
    assert_eq!(decode(&buf), Err(DecodeError::Truncated));
}

#[test]
fn decode_overlong_declared_length_is_truncated() {
    // an author length far past the end of the buffer
    let mut buf = vec![0xffu8; 8];
    buf.extend_from_slice(b"abc");
    assert_eq!(decode(&buf), Err(DecodeError::Truncated));
}

#[test]
fn decode_extra_bytes_are_trailing() {
    let mut encoded = encode(&b"a".to_vec(), &b"b".to_vec());
    encoded.push(0);
    assert_eq!(decode(&encoded), Err(DecodeError::Trailing));
}

#[test]
fn decode_truncated_encoding_is_truncated() {
    let mut encoded = encode(&b"alice".to_vec(), &b"payload".to_vec());
    encoded.pop();
    assert_eq!(decode(&encoded), Err(DecodeError::Truncated));
}

#[test]
fn build_encodes_author_as_utf8() {
    let message = BakaMessage {
        author: "server:1".to_string(),
        content: b"ping".to_vec(),
    };
    let env = decode(&message.build()).unwrap();
    assert_eq!(env.author, b"server:1".to_vec());
    assert_eq!(env.content, b"ping".to_vec());
}

#[test]
fn lifecycle_note_carries_address_and_note() {
    let env = lifecycle_note(&"1.2.3.4:5".to_string(), "connected");
    assert_eq!(env.author, b"1.2.3.4:5".to_vec());
    assert_eq!(env.content, b"connected".to_vec());
}
