use rusty_chat::frame::DecodeResult;
use rusty_chat::frame::OpCode;
use rusty_chat::frame::WebSocketFrame;

fn decoded(bytes: &[u8]) -> (WebSocketFrame, usize) {
    match WebSocketFrame::decode(bytes) {
        DecodeResult::Frame(f, n) => (f, n),
        DecodeResult::Incomplete => panic!("unexpected incomplete"),
        DecodeResult::Error(e) => panic!("unexpected error: {:?}", e),
    }
}

fn mask_bytes(key: [u8; 4], payload: &[u8]) -> Vec<u8> {
    let mut out = Vec::new();
    for (i, b) in payload.iter().enumerate() {
        out.push(b ^ key[i % 4]);
    }
    out
}

#[test]
fn round_trip_text_frame() {
    let frame = WebSocketFrame::text_frame(b"hello there".to_vec());
    let bytes = frame.encode();
    let (back, consumed) = decoded(bytes.as_slice());
    assert_eq!(consumed, bytes.len());
    assert_eq!(back.get_opcode(), OpCode::TextFrame);
    assert_eq!(back.header.fin, true);
    assert_eq!(back.payload, b"hello there".to_vec());
    assert!(back.mask.is_none());
}

#[test]
fn round_trip_every_opcode() {
    let ping = WebSocketFrame::text_frame(b"x".to_vec());
    let frames = vec![
        WebSocketFrame::text_frame(b"abc".to_vec()),
        WebSocketFrame::pong(&ping),
        WebSocketFrame::close_from(&ping),
    ];
    for frame in frames {
        let bytes = frame.encode();
        let (back, consumed) = decoded(bytes.as_slice());
        assert_eq!(consumed, bytes.len());
        assert_eq!(back.get_opcode(), frame.get_opcode());
        assert_eq!(back.payload, frame.payload);
    }
}

#[test]
fn length_form_inline() {
    let frame = WebSocketFrame::text_frame(vec![7u8; 10]);
    let bytes = frame.encode();
    assert_eq!(bytes.len(), 2 + 10);
    assert_eq!(bytes[1] & 0x7F, 10);
    let (back, _) = decoded(bytes.as_slice());
    assert_eq!(back.payload.len(), 10);
}

#[test]
fn length_form_sixteen_bit() {
    let frame = WebSocketFrame::text_frame(vec![7u8; 126]);
    let bytes = frame.encode();
    assert_eq!(bytes.len(), 2 + 2 + 126);
    assert_eq!(bytes[1] & 0x7F, 126);
    assert_eq!(&bytes[2..4], &[0u8, 126u8]);
    let (back, _) = decoded(bytes.as_slice());
    assert_eq!(back.payload.len(), 126);
}

#[test]
fn length_form_sixty_four_bit() {
    let frame = WebSocketFrame::text_frame(vec![7u8; 65536]);
    let bytes = frame.encode();
    assert_eq!(bytes.len(), 2 + 8 + 65536);
    assert_eq!(bytes[1] & 0x7F, 127);
    assert_eq!(&bytes[2..10], &[0u8, 0, 0, 0, 0, 1, 0, 0]);
    let (back, _) = decoded(bytes.as_slice());
    assert_eq!(back.payload.len(), 65536);
}

#[test]
fn largest_inline_sixteen_bit_boundary() {
    let frame = WebSocketFrame::text_frame(vec![1u8; 125]);
    assert_eq!(frame.encode()[1] & 0x7F, 125);
    let frame = WebSocketFrame::text_frame(vec![1u8; 65535]);
    assert_eq!(frame.encode()[1] & 0x7F, 126);
}

#[test]
fn masking_twice_is_identity() {
    let key = [0x12u8, 0x34, 0x56, 0x78];
    let original: Vec<u8> = (0u8..=255).collect();
    let mut data = original.clone();
    WebSocketFrame::apply_mask(key, &mut data);
    assert_ne!(data, original);
    WebSocketFrame::apply_mask(key, &mut data);
    assert_eq!(data, original);
}

#[test]
fn decode_unmasks_client_frame() {
    let key = [9u8, 8, 7, 6];
    let payload = b"masked payload".to_vec();
    let mut bytes = vec![0x81u8, 0x80 | (payload.len() as u8)];
    bytes.extend_from_slice(&key);
    bytes.extend_from_slice(&mask_bytes(key, &payload));
    let (back, consumed) = decoded(bytes.as_slice());
    assert_eq!(consumed, bytes.len());
    assert_eq!(back.payload, payload);
    assert_eq!(back.mask, Some(key));
}

#[test]
fn decode_rejects_unknown_opcode() {
    match WebSocketFrame::decode(&[0x83u8, 0x00]) {
        DecodeResult::Error(e) => assert_eq!(e, rusty_chat::frame::ProtocolError::InvalidOpcode),
        _ => panic!("expected an error"),
    }
}

#[test]
fn decode_rejects_reserved_bits() {
    match WebSocketFrame::decode(&[0xC1u8, 0x00]) {
        DecodeResult::Error(e) => {
            assert_eq!(e, rusty_chat::frame::ProtocolError::ReservedBitsSet)
        },
        _ => panic!("expected an error"),
    }
}

#[test]
fn decode_asks_for_more_bytes() {
    assert!(matches!(WebSocketFrame::decode(&[]), DecodeResult::Incomplete));
    assert!(matches!(WebSocketFrame::decode(&[0x81u8]), DecodeResult::Incomplete));
    assert!(matches!(WebSocketFrame::decode(&[0x81u8, 0x05, b'h']), DecodeResult::Incomplete));
    assert!(matches!(WebSocketFrame::decode(&[0x81u8, 126]), DecodeResult::Incomplete));
    assert!(matches!(WebSocketFrame::decode(&[0x81u8, 127, 0, 0]), DecodeResult::Incomplete));
}

#[test]
fn pong_echoes_ping_payload() {
    let ping = WebSocketFrame {
        header: rusty_chat::frame::WebSocketFrameHeader::new_header(4, OpCode::Ping),
        mask: None,
        payload: b"beat".to_vec(),
    };
    let pong = WebSocketFrame::pong(&ping);
    assert_eq!(pong.get_opcode(), OpCode::Pong);
    assert_eq!(pong.payload, b"beat".to_vec());
}

#[test]
fn close_from_keeps_status_code_only() {
    let recv = WebSocketFrame::text_frame(vec![3u8, 232, 99, 98]);
    let close = WebSocketFrame::close_from(&recv);
    assert_eq!(close.get_opcode(), OpCode::ConnectionClose);
    assert!(close.is_close());
    assert_eq!(close.payload, vec![3u8, 232]);

    let empty = WebSocketFrame::text_frame(Vec::new());
    assert_eq!(WebSocketFrame::close_from(&empty).payload, Vec::<u8>::new());

    let one = WebSocketFrame::text_frame(vec![42u8]);
    assert_eq!(WebSocketFrame::close_from(&one).payload, vec![42u8]);
}

#[test]
fn opcode_from_wire_values() {
    assert_eq!(OpCode::from(1), Some(OpCode::TextFrame));
    assert_eq!(OpCode::from(2), Some(OpCode::BinaryFrame));
    assert_eq!(OpCode::from(8), Some(OpCode::ConnectionClose));
    assert_eq!(OpCode::from(9), Some(OpCode::Ping));
    assert_eq!(OpCode::from(10), Some(OpCode::Pong));
    assert_eq!(OpCode::from(0), None);
    assert_eq!(OpCode::from(3), None);
    assert_eq!(OpCode::from(15), None);
}
