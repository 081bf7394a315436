use angelfish::mapper::SppMapper;
use angelfish::msg::{deserialize, serialize, DeserializeError, SppMessage};
use angelfish::bufs::new_buffer;
use bytes::{Bytes, BytesMut, IntoBuf};

fn ec_message() -> SppMessage {
    SppMessage {
        identifier: String::from("ec:gui_define"),
        payload: vec![0xea, 0x5e, 0xca, 0x71, 0x02],
    }
}

const EC_BYTES: [u8; 26] = [
    0x53, 0x50, 0x50, 0x01, 0x00, 0x0d, 0x65, 0x63, 0x3a, 0x67, 0x75, 0x69, 0x5f, 0x64, 0x65,
    0x66, 0x69, 0x6e, 0x65, 0x00, 0x05, 0xea, 0x5e, 0xca, 0x71, 0x02,
];

fn decode(mapper: &SppMapper, bytes: &[u8]) -> (Result<SppMessage, DeserializeError>, usize) {
    let mut cur = Bytes::from(bytes.to_vec()).into_buf();
    let r = deserialize(mapper, &mut cur);
    (r, cur.position() as usize)
}

// The byte layout of a message carries the payload length (two bytes)
// before the payload, as the reader and the decoding bench expect; an
// older expectation without those two bytes belongs to a message type that
// no longer exists, so the expected bytes here hold them.
#[test]
fn test_serialize() {
    let mapper = SppMapper::new();
    let mut ans = BytesMut::new();
    serialize(&ec_message(), &mapper, &mut ans);
    assert_eq!(ans.to_vec(), EC_BYTES.to_vec());
}

#[test]
fn decode_spelled_out_identifier() {
    let mapper = SppMapper::new();
    let mut with_trailer = EC_BYTES.to_vec();
    with_trailer.push(0x99);
    assert_eq!(decode(&mapper, &with_trailer), (Ok(ec_message()), 26));
}

#[test]
fn mapped_identifier_goes_by_id() {
    let mut mapper = SppMapper::new();
    mapper.define_string_id("x");
    mapper.define_string_id("ec:gui_define");
    let mut ans = BytesMut::new();
    serialize(&ec_message(), &mapper, &mut ans);
    let bytes = vec![0x53, 0x50, 0x50, 0x02, 0x00, 0x02, 0x00, 0x05, 0xea, 0x5e, 0xca, 0x71, 0x02];
    assert_eq!(ans.to_vec(), bytes);
    assert_eq!(decode(&mapper, &bytes), (Ok(ec_message()), 13));
    let empty = SppMapper::new();
    assert_eq!(decode(&empty, &bytes), (Err(DeserializeError::NoSuchId { id: 2 }), 6));
}

#[test]
fn spelled_out_bytes_read_one_char_each() {
    let mapper = SppMapper::new();
    let bytes = [0x53, 0x50, 0x50, 0x01, 0x00, 0x02, 0xc3, 0xa9, 0x00, 0x00];
    let (r, n) = decode(&mapper, &bytes);
    assert_eq!(n, 10);
    assert_eq!(r.unwrap().identifier, String::from("\u{c3}\u{a9}"));
}

#[test]
fn message_decode_errors() {
    let mapper = SppMapper::new();
    assert_eq!(decode(&mapper, &[0x53, 0x50]), (Err(DeserializeError::Magic), 0));
    assert_eq!(decode(&mapper, &[0x53, 0x51, 0x50]), (Err(DeserializeError::Magic), 2));
    assert_eq!(decode(&mapper, &[0x53, 0x50, 0x50]), (Err(DeserializeError::NoState), 3));
    assert_eq!(
        decode(&mapper, &[0x53, 0x50, 0x50, 0x07]),
        (Err(DeserializeError::WrongState { state: 7 }), 4)
    );
    assert_eq!(
        decode(&mapper, &[0x53, 0x50, 0x50, 0x01, 0x00]),
        (Err(DeserializeError::Length { required: 2, actual: 1 }), 4)
    );
    assert_eq!(
        decode(&mapper, &[0x53, 0x50, 0x50, 0x01, 0x00, 0x03, 0x61]),
        (Err(DeserializeError::Length { required: 3, actual: 1 }), 6)
    );
    assert_eq!(
        decode(&mapper, &[0x53, 0x50, 0x50, 0x01, 0x00, 0x01, 0x61, 0x00]),
        (Err(DeserializeError::Length { required: 2, actual: 1 }), 7)
    );
    assert_eq!(
        decode(&mapper, &[0x53, 0x50, 0x50, 0x01, 0x00, 0x01, 0x61, 0x00, 0x02, 0x01]),
        (Err(DeserializeError::Length { required: 2, actual: 1 }), 9)
    );
}

#[test]
fn message_error_texts() {
    assert_eq!(DeserializeError::NoState.message(), "no packet state");
    assert_eq!(DeserializeError::Magic.message(), "incorrect magic");
    assert_eq!(
        DeserializeError::Length { required: 300, actual: 0 }.message(),
        "packet length: required 300, got 0"
    );
    assert_eq!(DeserializeError::WrongState { state: 255 }.message(), "illegal state : 255");
    assert_eq!(DeserializeError::NoSuchId { id: 65535 }.message(), "no such id : 65535");
}

#[test]
fn serialize_appends_to_a_new_buffer() {
    let mapper = SppMapper::new();
    let mut ans = new_buffer();
    serialize(&ec_message(), &mapper, &mut ans);
    serialize(&ec_message(), &mapper, &mut ans);
    let mut twice = EC_BYTES.to_vec();
    twice.extend_from_slice(&EC_BYTES);
    assert_eq!(ans.to_vec(), twice);
}
