use mcapi::packet::{build_handshake, build_packet};
use mcapi::ping::{build_status_request, read_status_header, Motd, MotdExtra, StatusFrame};
use mcapi::varint::{encode_varint, read_varint, VarintRead};

#[test]
fn test_encode_varint() {
    assert_eq!(vec![0x00], encode_varint(0));
    assert_eq!(vec![0x01], encode_varint(1));
    assert_eq!(vec![0xFF, 0x01], encode_varint(255));
    assert_eq!(
        vec![0xFF, 0xFF, 0xFF, 0xFF, 0x07],
        encode_varint(2_147_483_647)
    );
}

#[test]
fn test_read_varint() {
    let src: Vec<u8> = vec![0x00];
    assert_eq!(
        read_varint(&src, 0),
        VarintRead::Value { value: 0, len: 1 }
    );

    let src: Vec<u8> = vec![0x01];
    assert_eq!(
        read_varint(&src, 0),
        VarintRead::Value { value: 1, len: 1 }
    );

    let src: Vec<u8> = vec![0xFF, 0x01];
    assert_eq!(
        read_varint(&src, 0),
        VarintRead::Value { value: 255, len: 2 }
    );

    let src: Vec<u8> = vec![0b1000_0100, 0b0100_0000];
    assert_eq!(
        read_varint(&src, 0),
        VarintRead::Value {
            value: 8196,
            len: 2
        }
    );

    let src: Vec<u8> = vec![0xFF, 0xFF, 0xFF, 0xFF, 0x07];
    assert_eq!(
        read_varint(&src, 0),
        VarintRead::Value {
            value: 2_147_483_647,
            len: 5
        }
    );
}

#[test]
fn test_read_varint_round_trip_samples() {
    for n in [0u32, 1, 127, 128, 255, 8196, 300, 65_535, 2_097_151, u32::MAX] {
        let enc = encode_varint(n);
        match read_varint(&enc, 0) {
            VarintRead::Value { value, len } => {
                assert_eq!(value, n);
                assert_eq!(len, enc.len());
            }
            other => panic!("unexpected outcome {:?}", other),
        }
    }
}

#[test]
fn test_read_varint_needs_more_and_malformed() {
    let src: Vec<u8> = vec![0x80, 0x80];
    assert_eq!(read_varint(&src, 0), VarintRead::NeedMore);

    let src: Vec<u8> = vec![0x80, 0x80, 0x80, 0x80, 0x80, 0x01];
    assert_eq!(read_varint(&src, 0), VarintRead::Malformed);
}

#[test]
fn test_build_packet() {
    let packet = build_packet(vec![], 0x00);
    assert_eq!(packet, vec![0x01, 0x00]);

    let packet = build_packet(vec![0x00], 0x00);
    assert_eq!(packet, vec![0x02, 0x00, 0x00]);
}

#[test]
fn test_packet_reader_round_trip() {
    let payload: Vec<u8> = vec![0xAA, 0xBB, 0xCC];
    let id: u32 = 0x07;
    let packet = build_packet(payload.clone(), id);

    let (total, after_len) = match read_varint(&packet, 0) {
        VarintRead::Value { value, len } => (value, len),
        other => panic!("unexpected outcome {:?}", other),
    };
    let (read_id, after_id) = match read_varint(&packet, after_len) {
        VarintRead::Value { value, len } => (value, after_len + len),
        other => panic!("unexpected outcome {:?}", other),
    };
    assert_eq!(read_id, id);
    assert_eq!(total as usize, (after_id - after_len) + payload.len());
    assert_eq!(&packet[after_id..], payload.as_slice());
}

#[test]
fn test_build_handshake_bytes() {
    let data = build_handshake("mc.example.com", 25565);
    let mut expected: Vec<u8> = vec![0x47];
    expected.push(14);
    expected.extend_from_slice(b"mc.example.com");
    expected.extend_from_slice(&25565u16.to_be_bytes());
    expected.push(0x01);
    assert_eq!(data, expected);
}

#[test]
fn test_build_status_request() {
    assert_eq!(build_status_request(), vec![0x01, 0x00]);
}

#[test]
fn test_read_status_header() {
    // total length, packet id, then the payload length VarInt
    let data: Vec<u8> = vec![0x07, 0x00, 0x05, b'"', b'h', b'i', b'!', b'"'];
    match read_status_header(&data) {
        StatusFrame::Header {
            payload_start,
            payload_len,
        } => {
            assert_eq!(payload_start, 3);
            assert_eq!(payload_len, 5);
        }
        other => panic!("unexpected outcome {:?}", other),
    }

    let partial: Vec<u8> = vec![0x80];
    assert!(matches!(
        read_status_header(&partial),
        StatusFrame::NeedMore
    ));

    // a declared payload length over ten MiB is refused
    let huge: Vec<u8> = vec![0x07, 0x00, 0xFF, 0xFF, 0xFF, 0xFF, 0x07];
    assert!(matches!(read_status_header(&huge), StatusFrame::TooLarge));
}

#[test]
fn test_motd_flatten() {
    let motd = Motd {
        text: "A ".to_string(),
        extra: vec![
            MotdExtra {
                text: "Minecraft".to_string(),
            },
            MotdExtra {
                text: " Server".to_string(),
            },
        ],
    };
    assert_eq!(motd.flatten(), "A Minecraft Server");

    let plain = Motd {
        text: "hello".to_string(),
        extra: vec![],
    };
    assert_eq!(plain.flatten(), "hello");
}

#[test]
fn test_extract_status_text() {
    let data: Vec<u8> = vec![0x00, b'o', b'k', 0x00];
    assert_eq!(
        mcapi::ping::extract_status_text(&data, 1, 2).unwrap(),
        "ok"
    );

    let bad: Vec<u8> = vec![0xFF, 0xFE];
    assert!(matches!(
        mcapi::ping::extract_status_text(&bad, 0, 2),
        Err(mcapi::error::Error::Utf8(_))
    ));
}

#[test]
fn test_read_status_header_bad_varint() {
    let data: Vec<u8> = vec![0x80, 0x80, 0x80, 0x80, 0x80, 0x80];
    assert!(matches!(read_status_header(&data), StatusFrame::Bad));
}

#[test]
fn test_status_frame_end_to_end() {
    // frame a small JSON payload the way a server would
    let payload = br#"{"version":{"protocol":763},"players":{"max":20,"online":0}}"#;
    let mut frame = encode_varint((payload.len() + 1 + encode_varint(payload.len() as u32).len()) as u32);
    frame.extend_from_slice(&encode_varint(0x00));
    frame.extend_from_slice(&encode_varint(payload.len() as u32));
    frame.extend_from_slice(payload);

    match read_status_header(&frame) {
        StatusFrame::Header {
            payload_start,
            payload_len,
        } => {
            assert_eq!(payload_len as usize, payload.len());
            let text = mcapi::ping::extract_status_text(&frame, payload_start, payload_len).unwrap();
            assert_eq!(text.as_bytes(), payload);
        }
        other => panic!("unexpected outcome {:?}", other),
    }
}
