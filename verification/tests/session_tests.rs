use rusty_chat::frame::DecodeResult;
use rusty_chat::frame::OpCode;
use rusty_chat::frame::ProtocolError;
use rusty_chat::frame::WebSocketFrame;
use rusty_chat::hub::ChatServ;
use rusty_chat::hub::Disconnect;
use rusty_chat::hub::Connect;
use rusty_chat::session::heartbeat;
use rusty_chat::session::ClientState;
use rusty_chat::session::HeartbeatAction;
use rusty_chat::session::IoInterest;
use rusty_chat::session::WebSocketClient;
use rusty_chat::session::CLIENT_TIMEOUT;
use rusty_chat::session::HB_INTERVAL;

const UPGRADE_REQUEST: &[u8] = b"GET /chat HTTP/1.1\r\nHost: example.com\r\nUpgrade: websocket\r\nConnection: Upgrade\r\nSec-WebSocket-Key: dGhlIHNhbXBsZSBub25jZQ==\r\n\r\n";

fn masked_frame(opcode_byte: u8, key: [u8; 4], payload: &[u8]) -> Vec<u8> {
    assert!(payload.len() < 126);
    let mut bytes = vec![opcode_byte, 0x80 | (payload.len() as u8)];
    bytes.extend_from_slice(&key);
    for (i, b) in payload.iter().enumerate() {
        bytes.push(b ^ key[i % 4]);
    }
    bytes
}

fn connected_machine() -> WebSocketClient {
    let mut machine = WebSocketClient::new(0);
    let upgraded = machine.read_handshake(UPGRADE_REQUEST).expect("handshake expected");
    assert!(upgraded);
    machine.write();
    assert_eq!(machine.state, ClientState::Connected);
    machine
}

#[test]
fn heartbeat_tolerates_one_missed_beat() {
    assert_eq!(CLIENT_TIMEOUT, 2 * HB_INTERVAL);
    assert_eq!(heartbeat(10, 0), HeartbeatAction::Ping);
    assert_eq!(heartbeat(11, 0), HeartbeatAction::Stop);
    assert_eq!(heartbeat(5, 5), HeartbeatAction::Ping);
    assert_eq!(heartbeat(3, 5), HeartbeatAction::Ping);
}

#[test]
fn silent_connection_is_removed_exactly_once() {
    let mut hub = ChatServ::new();
    let joined = hub
        .handle_connect(Connect { req_username: Some("alice".to_string()) })
        .expect("join expected");
    let last_seen = 0u64;
    let now = CLIENT_TIMEOUT + 1;
    assert_eq!(heartbeat(now, last_seen), HeartbeatAction::Stop);
    let first = hub.handle_disconnect(Disconnect {
        id: joined.id,
        username: Some("alice".to_string()),
    });
    assert!(first.is_some(), "the timeout owes one leave notice");
    assert_eq!(hub.registry.len(), 0);
    let second = hub.handle_disconnect(Disconnect {
        id: joined.id,
        username: Some("alice".to_string()),
    });
    assert!(second.is_none(), "a second removal must not produce a notice");
}

#[test]
fn handshake_is_buffered_across_reads() {
    let mut machine = WebSocketClient::new(0);
    assert_eq!(machine.interest(), IoInterest::Read);
    let (first, second) = UPGRADE_REQUEST.split_at(40);
    let upgraded = machine.read_handshake(first).expect("no error expected");
    assert!(!upgraded);
    assert_eq!(machine.state, ClientState::AwaitingHandshake);
    let upgraded = machine.read_handshake(second).expect("no error expected");
    assert!(upgraded);
    assert_eq!(machine.state, ClientState::HandshakeResponsePending);
    assert_eq!(machine.interest(), IoInterest::Write);
}

#[test]
fn handshake_response_is_written_once() {
    let mut machine = WebSocketClient::new(0);
    machine.read_handshake(UPGRADE_REQUEST).expect("handshake expected");
    match machine.write() {
        rusty_chat::session::WriteOutput::Response(s) => {
            assert!(s.starts_with("HTTP/1.1 101 Switching Protocols\r\n"));
            assert!(s.contains("Sec-WebSocket-Accept: s3pPLMBiTxaQ9kYGzzhZRbK+xOo=\r\n"));
            assert!(s.ends_with("\r\n\r\n"));
        },
        _ => panic!("the response was owed"),
    }
    assert_eq!(machine.state, ClientState::Connected);
    assert_eq!(machine.interest(), IoInterest::Read);
}

#[test]
fn request_without_key_is_rejected() {
    let mut machine = WebSocketClient::new(0);
    let r = machine.read_handshake(b"GET / HTTP/1.1\r\nUpgrade: websocket\r\n\r\n");
    assert_eq!(r, Err(ProtocolError::MissingKey));
    assert_eq!(machine.state, ClientState::Closing);
    assert_eq!(machine.interest(), IoInterest::Shutdown);
}

#[test]
fn text_frames_are_forwarded_upward() {
    let mut machine = connected_machine();
    let bytes = masked_frame(0x81, [1, 2, 3, 4], b"hello hub");
    let outcome = machine.read_frames(bytes.as_slice(), 7);
    assert!(outcome.error.is_none());
    assert_eq!(outcome.texts, vec![b"hello hub".to_vec()]);
    assert_eq!(machine.state, ClientState::Connected);
}

#[test]
fn partial_frames_are_buffered_across_reads() {
    let mut machine = connected_machine();
    let bytes = masked_frame(0x81, [5, 6, 7, 8], b"split in two");
    let (first, second) = bytes.split_at(5);
    let outcome = machine.read_frames(first, 1);
    assert!(outcome.error.is_none());
    assert!(outcome.texts.is_empty());
    let outcome = machine.read_frames(second, 2);
    assert_eq!(outcome.texts, vec![b"split in two".to_vec()]);
}

#[test]
fn several_frames_in_one_read_are_all_processed() {
    let mut machine = connected_machine();
    let mut bytes = masked_frame(0x81, [1, 1, 1, 1], b"one");
    bytes.extend_from_slice(&masked_frame(0x81, [2, 2, 2, 2], b"two"));
    let outcome = machine.read_frames(bytes.as_slice(), 3);
    assert_eq!(outcome.texts, vec![b"one".to_vec(), b"two".to_vec()]);
}

#[test]
fn ping_is_answered_with_matching_pong() {
    let mut machine = connected_machine();
    let bytes = masked_frame(0x89, [1, 2, 3, 4], b"beat");
    let outcome = machine.read_frames(bytes.as_slice(), 42);
    assert!(outcome.error.is_none());
    assert!(outcome.texts.is_empty());
    assert_eq!(machine.last_seen, 42);
    assert_eq!(machine.interest(), IoInterest::Write);
    match machine.write() {
        rusty_chat::session::WriteOutput::Frames(frame_bytes, close_after) => {
            assert!(!close_after);
            match WebSocketFrame::decode(frame_bytes.as_slice()) {
                DecodeResult::Frame(f, n) => {
                    assert_eq!(n, frame_bytes.len());
                    assert_eq!(f.get_opcode(), OpCode::Pong);
                    assert_eq!(f.payload, b"beat".to_vec());
                },
                _ => panic!("one whole pong frame was owed"),
            }
        },
        _ => panic!("frames were owed"),
    }
    assert_eq!(machine.interest(), IoInterest::Read);
}

#[test]
fn pong_resets_the_heartbeat_clock() {
    let mut machine = connected_machine();
    let bytes = masked_frame(0x8A, [0, 0, 0, 0], b"");
    machine.read_frames(bytes.as_slice(), 99);
    assert_eq!(machine.last_seen, 99);
    assert_eq!(machine.state, ClientState::Connected);
}

#[test]
fn binary_frames_are_dropped_and_the_connection_stays_open() {
    let mut machine = connected_machine();
    let bytes = masked_frame(0x82, [1, 2, 3, 4], b"\x00\x01\x02");
    let outcome = machine.read_frames(bytes.as_slice(), 5);
    assert!(outcome.error.is_none());
    assert!(outcome.texts.is_empty());
    assert_eq!(machine.state, ClientState::Connected);
    assert_eq!(machine.interest(), IoInterest::Read);
}

#[test]
fn close_is_acknowledged_then_the_socket_is_torn_down() {
    let mut machine = connected_machine();
    let bytes = masked_frame(0x88, [1, 2, 3, 4], &[3, 232, 120, 121]);
    let outcome = machine.read_frames(bytes.as_slice(), 5);
    assert!(outcome.error.is_none());
    assert_eq!(machine.state, ClientState::Closing);
    assert_eq!(machine.interest(), IoInterest::Write);
    match machine.write() {
        rusty_chat::session::WriteOutput::Frames(frame_bytes, close_after) => {
            assert!(close_after);
            match WebSocketFrame::decode(frame_bytes.as_slice()) {
                DecodeResult::Frame(f, _) => {
                    assert_eq!(f.get_opcode(), OpCode::ConnectionClose);
                    assert_eq!(f.payload, vec![3u8, 232]);
                },
                _ => panic!("one whole close frame was owed"),
            }
        },
        _ => panic!("frames were owed"),
    }
    assert_eq!(machine.interest(), IoInterest::Shutdown);
}

#[test]
fn malformed_frame_closes_the_connection() {
    let mut machine = connected_machine();
    let outcome = machine.read_frames(&[0x83u8, 0x00], 5);
    assert_eq!(outcome.error, Some(ProtocolError::InvalidOpcode));
    assert_eq!(machine.state, ClientState::Closing);
}

#[test]
fn keep_alive_pings_are_encodable() {
    let mut machine = connected_machine();
    machine.enqueue_ping(b"U up?".to_vec());
    match machine.write() {
        rusty_chat::session::WriteOutput::Frames(frame_bytes, close_after) => {
            assert!(!close_after);
            match WebSocketFrame::decode(frame_bytes.as_slice()) {
                DecodeResult::Frame(f, _) => {
                    assert_eq!(f.get_opcode(), OpCode::Ping);
                    assert_eq!(f.payload, b"U up?".to_vec());
                },
                _ => panic!("one whole ping frame was owed"),
            }
        },
        _ => panic!("frames were owed"),
    }
}

#[test]
fn read_dispatches_by_state() {
    let mut machine = WebSocketClient::new(0);
    match machine.read(UPGRADE_REQUEST, 0) {
        rusty_chat::session::ReadResult::Handshake(h) => assert_eq!(h, Ok(true)),
        _ => panic!("the machine was awaiting the handshake"),
    }
    match machine.read(b"ignored", 0) {
        rusty_chat::session::ReadResult::Ignored => {},
        _ => panic!("a machine owing its response reads nothing"),
    }
    machine.write();
    let bytes = masked_frame(0x81, [1, 2, 3, 4], b"dispatched");
    match machine.read(bytes.as_slice(), 1) {
        rusty_chat::session::ReadResult::Frames(o) => {
            assert!(o.error.is_none());
            assert_eq!(o.texts, vec![b"dispatched".to_vec()]);
        },
        _ => panic!("a connected machine reads frames"),
    }
}

#[test]
fn hub_signals_are_wrapped_as_text_frames() {
    let mut machine = connected_machine();
    machine.enqueue_text(b"alice connected!".to_vec());
    assert_eq!(machine.interest(), IoInterest::Write);
    match machine.write() {
        rusty_chat::session::WriteOutput::Frames(frame_bytes, close_after) => {
            assert!(!close_after);
            match WebSocketFrame::decode(frame_bytes.as_slice()) {
                DecodeResult::Frame(f, _) => {
                    assert_eq!(f.get_opcode(), OpCode::TextFrame);
                    assert_eq!(f.payload, b"alice connected!".to_vec());
                    assert!(f.mask.is_none(), "server frames are never masked");
                },
                _ => panic!("one whole text frame was owed"),
            }
        },
        _ => panic!("frames were owed"),
    }
}
