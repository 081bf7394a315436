use angelfish::packet::{
    bytes_from_pk, decode_would_panic, serialize, try_into_pk_checked, DeserializeError, IntoPk,
    Pk, PkGet, PkPut, SocketAddress, MAGIC,
};
use angelfish::bufs::new_buffer;
use bytes::{Bytes, BytesMut, IntoBuf};

#[test]
fn test_magic() {
    let mut bm = BytesMut::with_capacity(16);
    bm.put_pk_magic();
    assert_eq!(
        bm.as_mut(),
        b"\0\xff\xff\0\xfe\xfe\xfe\xfe\xfd\xfd\xfd\xfd\x124Vx"
    );
    let mut cur = bm.freeze().into_buf();
    assert!(cur.validate_pk_magic());
}

fn encode(pk: Pk) -> Vec<u8> {
    let mut ans = BytesMut::new();
    serialize(pk, &mut ans);
    ans.to_vec()
}

fn decode(bytes: Vec<u8>) -> Result<Pk, DeserializeError> {
    Bytes::from(bytes).try_into_pk()
}

fn with_magic(head: &[u8], tail: &[u8]) -> Vec<u8> {
    let mut v = head.to_vec();
    v.extend_from_slice(&MAGIC);
    v.extend_from_slice(tail);
    v
}

#[test]
fn unconnected_ping_bytes() {
    let b = encode(Pk::UnconnectedPing { ping_time: 0x0102030405060708 });
    assert_eq!(b, with_magic(&[0x01, 1, 2, 3, 4, 5, 6, 7, 8], &[]));
}

#[test]
fn unconnected_pong_bytes() {
    let pk = Pk::UnconnectedPong {
        ping_time: 1,
        server_id: 2,
        msg_of_today: String::from("hi"),
        online_count: 3,
        max_count: -20,
        bedrock_net_ver: 354,
        bedrock_game_ver: String::from("1.12"),
    };
    let text = b"MCPE;hi;354;1.12;3;-20";
    let mut tail = vec![0, text.len() as u8];
    tail.extend_from_slice(text);
    let head = [0x1c, 0, 0, 0, 0, 0, 0, 0, 1, 0, 0, 0, 0, 0, 0, 0, 2];
    assert_eq!(encode(pk.clone()), with_magic(&head, &tail));
    assert_eq!(decode(encode(pk.clone())).unwrap(), pk);
}

#[test]
fn offline_request_1_bytes() {
    let b = encode(Pk::OfflineConnectionRequest1 { protocol_version: 9 });
    let mut tail = vec![9u8];
    tail.extend_from_slice(&[0u8; 46]);
    assert_eq!(b, with_magic(&[0x05], &tail));
}

#[test]
fn offline_response_1_bytes() {
    let b = encode(Pk::OfflineConnectionResponse1 { server_id: 0xff, mtu: -2 });
    assert_eq!(b, with_magic(&[0x06], &[0, 0, 0, 0, 0, 0, 0, 0xff, 0, 0xff, 0xfe]));
}

#[test]
fn offline_request_2_bytes() {
    let b = encode(Pk::OfflineConnectionRequest2 {
        server_address: SocketAddress::V4 { ip: [127, 0, 0, 1], port: 19132 },
        mtu: 1400,
        client_id: 7,
    });
    let tail = [4, 127, 0, 0, 1, 0x4a, 0xbc, 0x05, 0x78, 0, 0, 0, 0, 0, 0, 0, 7];
    assert_eq!(b, with_magic(&[0x07], &tail));
}

#[test]
fn offline_response_2_bytes_v6() {
    let b = encode(Pk::OfflineConnectionResponse2 {
        server_id: 1,
        client_address: SocketAddress::V6 { ip: [0x2001, 0xdb8, 0, 0, 0, 0, 0, 1], port: 1 },
        mtu: 576,
    });
    let tail = [
        0, 0, 0, 0, 0, 0, 0, 1, 6, 0x20, 0x01, 0x0d, 0xb8, 0, 0, 0, 0, 0, 0, 0, 0, 0, 0, 0, 1,
        0, 1, 0x02, 0x40, 0,
    ];
    assert_eq!(b, with_magic(&[0x08], &tail));
}

#[test]
fn online_request_bytes_and_no_reading() {
    let b = encode(Pk::OnlineConnectionRequest { client_id: 3, ping_time: 4 });
    assert_eq!(b, vec![0x09, 0, 0, 0, 0, 0, 0, 0, 3, 0, 0, 0, 0, 0, 0, 0, 4]);
    assert_eq!(decode(b), Err(DeserializeError::Id(0x09)));
}

#[test]
fn roundtrip_every_readable_kind() {
    let pks = vec![
        Pk::UnconnectedPing { ping_time: u64::MAX },
        Pk::OfflineConnectionRequest1 { protocol_version: 10 },
        Pk::OfflineConnectionResponse1 { server_id: 42, mtu: i16::MIN },
        Pk::OfflineConnectionRequest2 {
            server_address: SocketAddress::V6 { ip: [1, 2, 3, 4, 5, 6, 7, 0xffff], port: 65535 },
            mtu: 1492,
            client_id: 99,
        },
        Pk::OfflineConnectionResponse2 {
            server_id: 5,
            client_address: SocketAddress::V4 { ip: [10, 0, 0, 2], port: 8080 },
            mtu: 1200,
        },
        Pk::UnconnectedPong {
            ping_time: 77,
            server_id: 88,
            msg_of_today: String::from("Grüße"),
            online_count: i32::MIN,
            max_count: i32::MAX,
            bedrock_net_ver: 0,
            bedrock_game_ver: String::from(""),
        },
    ];
    for pk in pks {
        let b = bytes_from_pk(pk.clone());
        assert_eq!(b.clone().try_into_pk().unwrap(), pk);
        assert_eq!(try_into_pk_checked(b), Some(Ok(pk)));
    }
}

#[test]
fn pong_with_separator_in_motd_does_not_read_back() {
    let pk = Pk::UnconnectedPong {
        ping_time: 1,
        server_id: 2,
        msg_of_today: String::from("a;b"),
        online_count: 3,
        max_count: 4,
        bedrock_net_ver: 5,
        bedrock_game_ver: String::from("v"),
    };
    let back = decode(encode(pk)).unwrap();
    assert_eq!(
        back,
        Pk::UnconnectedPong {
            ping_time: 1,
            server_id: 2,
            msg_of_today: String::from("a"),
            online_count: 0,
            max_count: 3,
            bedrock_net_ver: 0,
            bedrock_game_ver: String::from("5"),
        }
    );
}

#[test]
fn pong_with_missing_fields_reads_defaults() {
    let text = b"MCPE;motd;x";
    let mut tail = vec![0, text.len() as u8];
    tail.extend_from_slice(text);
    let head = [0x1c, 0, 0, 0, 0, 0, 0, 0, 1, 0, 0, 0, 0, 0, 0, 0, 2];
    assert_eq!(
        decode(with_magic(&head, &tail)).unwrap(),
        Pk::UnconnectedPong {
            ping_time: 1,
            server_id: 2,
            msg_of_today: String::from("motd"),
            online_count: 0,
            max_count: 0,
            bedrock_net_ver: 0,
            bedrock_game_ver: String::from("0"),
        }
    );
}

#[test]
fn pong_length_must_match_rest() {
    let head = [0x1c, 0, 0, 0, 0, 0, 0, 0, 1, 0, 0, 0, 0, 0, 0, 0, 2];
    assert_eq!(
        decode(with_magic(&head, &[0, 5, b'M', b'C'])),
        Err(DeserializeError::Length { required: 5, actual: 2 })
    );
    // Invalid UTF-8 counts as zero bytes read.
    assert_eq!(
        decode(with_magic(&head, &[0, 1, 0xff])),
        Err(DeserializeError::Length { required: 1, actual: 0 })
    );
    // ... so with a zero length it reads as an empty text.
    assert_eq!(
        decode(with_magic(&head, &[0, 0, 0xff])).unwrap(),
        Pk::UnconnectedPong {
            ping_time: 1,
            server_id: 2,
            msg_of_today: String::from("0"),
            online_count: 0,
            max_count: 0,
            bedrock_net_ver: 0,
            bedrock_game_ver: String::from("0"),
        }
    );
}

#[test]
fn packet_decode_errors() {
    assert_eq!(decode(vec![]), Err(DeserializeError::Header));
    assert_eq!(decode(vec![0x42]), Err(DeserializeError::Id(0x42)));
    assert_eq!(decode(vec![0x01, 0, 0]), Err(DeserializeError::Length { required: 8, actual: 2 }));
    assert_eq!(decode(vec![0x1c, 0]), Err(DeserializeError::Length { required: 34, actual: 1 }));
    assert_eq!(decode(vec![0x05, 0, 0xff]), Err(DeserializeError::Magic));
    assert_eq!(
        decode(with_magic(&[0x05], &[])),
        Err(DeserializeError::Length { required: 1, actual: 0 })
    );
    assert_eq!(
        decode(with_magic(&[0x06], &[0; 9])),
        Err(DeserializeError::Length { required: 10, actual: 9 })
    );
    assert_eq!(
        decode(with_magic(&[0x07], &[5])),
        Err(DeserializeError::IpProto { proto: 5 })
    );
    assert_eq!(
        decode(with_magic(&[0x07], &[4, 1, 2])),
        Err(DeserializeError::Length { required: 6, actual: 2 })
    );
    assert_eq!(
        decode(with_magic(&[0x07], &[])),
        Err(DeserializeError::Length { required: 1, actual: 0 })
    );
    assert_eq!(
        decode(with_magic(&[0x07], &[4, 1, 2, 3, 4, 0, 1, 0])),
        Err(DeserializeError::Length { required: 10, actual: 1 })
    );
    assert_eq!(
        decode(with_magic(&[0x08], &[0; 3])),
        Err(DeserializeError::Length { required: 8, actual: 3 })
    );
    assert_eq!(
        decode(with_magic(&[0x08], &[0, 0, 0, 0, 0, 0, 0, 1, 4, 1, 2, 3, 4, 0, 1, 7])),
        Err(DeserializeError::Length { required: 2, actual: 1 })
    );
}

#[test]
fn inputs_that_would_panic_are_refused() {
    // An IPv6 address followed by 10..18 bytes passes the length check but
    // is cut short.
    let short_v6 = with_magic(&[0x07], &[6, 0, 0, 0, 0, 0, 0, 0, 0, 0, 0]);
    assert!(decode_would_panic(&short_v6));
    assert_eq!(try_into_pk_checked(Bytes::from(short_v6)), None);
    // A first-step response with exactly ten bytes after its magic.
    let ten = with_magic(&[0x06], &[0; 10]);
    assert!(decode_would_panic(&ten));
    assert_eq!(try_into_pk_checked(Bytes::from(ten)), None);
    let eleven = with_magic(&[0x06], &[0; 11]);
    assert!(!decode_would_panic(&eleven));
    assert_eq!(
        try_into_pk_checked(Bytes::from(eleven)),
        Some(Ok(Pk::OfflineConnectionResponse1 { server_id: 0, mtu: 0 }))
    );
    assert!(!decode_would_panic(&[]));
}

#[test]
fn get_fields_from_cursor() {
    let mut cur = Bytes::from(vec![7u8, 0, 0, 0, 0, 0, 0, 1, 2, 0xff, 0xfe, 4, 1, 2, 3, 4, 0, 80])
        .into_buf();
    assert_eq!(cur.pk_remaining(), 18);
    assert_eq!(cur.get_pk_id(), 7);
    assert_eq!(cur.get_pk_guid(), 0x0102);
    assert_eq!(cur.get_pk_mtu(), -2);
    assert_eq!(
        cur.try_get_pk_address().unwrap(),
        SocketAddress::V4 { ip: [1, 2, 3, 4], port: 80 }
    );
    assert_eq!(cur.pk_remaining(), 0);
    assert!(!cur.validate_pk_magic());
}

#[test]
fn put_fields_into_buffer() {
    let mut b = BytesMut::new();
    b.reserve_pk_size(1 + 8 + 8 + 2);
    b.put_pk_id(3);
    b.put_pk_ping_pong_time(1);
    b.put_pk_guid(2);
    b.put_pk_mtu(-1);
    b.put_pk_string(String::from("é"));
    b.put_pk_address(SocketAddress::V4 { ip: [1, 1, 1, 1], port: 2 });
    assert_eq!(
        b.to_vec(),
        vec![
            3, 0, 0, 0, 0, 0, 0, 0, 1, 0, 0, 0, 0, 0, 0, 0, 2, 0xff, 0xff, 0, 2, 0xc3, 0xa9, 4, 1,
            1, 1, 1, 0, 2
        ]
    );
}

#[test]
fn packet_error_texts() {
    assert_eq!(DeserializeError::Header.message(), "no header found");
    assert_eq!(DeserializeError::Id(28).message(), "unsupported packet id: 28");
    assert_eq!(
        DeserializeError::Length { required: 34, actual: 1 }.message(),
        "packet length: required 34, got 1"
    );
    assert_eq!(DeserializeError::Magic.message(), "incorrect magic");
    assert_eq!(DeserializeError::IpProto { proto: 0 }.message(), "ip version: 0");
}

#[test]
fn trailing_bytes_after_a_packet_are_left() {
    let pks = vec![
        Pk::UnconnectedPing { ping_time: 5 },
        Pk::OfflineConnectionRequest1 { protocol_version: 1 },
        Pk::OfflineConnectionResponse1 { server_id: 6, mtu: 7 },
        Pk::OfflineConnectionRequest2 {
            server_address: SocketAddress::V6 { ip: [9; 8], port: 1 },
            mtu: 2,
            client_id: 3,
        },
        Pk::OfflineConnectionResponse2 {
            server_id: 4,
            client_address: SocketAddress::V4 { ip: [1, 2, 3, 4], port: 5 },
            mtu: 6,
        },
    ];
    for pk in pks {
        let mut b = encode(pk.clone());
        b.extend_from_slice(&[0xaa, 0xbb, 0xcc]);
        assert_eq!(decode(b), Ok(pk));
    }
}

#[test]
fn serialize_appends_and_fields_read_back() {
    let mut b = new_buffer();
    b.reserve_pk_size(2);
    b.put_pk_mtu(-300);
    serialize(Pk::UnconnectedPing { ping_time: 9 }, &mut b);
    let mut cur = b.freeze().into_buf();
    assert_eq!(cur.get_pk_mtu(), -300);
    assert_eq!(cur.get_pk_id(), 0x01);
    assert_eq!(cur.get_pk_ping_pong_time(), 9);
    assert!(cur.validate_pk_magic());
    assert_eq!(cur.pk_remaining(), 0);
}
