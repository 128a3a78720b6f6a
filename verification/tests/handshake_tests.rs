use rusty_chat::handshake::accept_token;
use rusty_chat::handshake::gen_key;
use rusty_chat::handshake::http_response;
use rusty_chat::handshake::is_upgrade_request;
use rusty_chat::handshake::request_complete;
use rusty_chat::handshake::sec_websocket_key;

const SAMPLE_REQUEST: &[u8] = b"GET /chat HTTP/1.1\r\nHost: example.com\r\nUpgrade: websocket\r\nConnection: Upgrade\r\nSec-WebSocket-Key: dGhlIHNhbXBsZSBub25jZQ==\r\nSec-WebSocket-Version: 13\r\n\r\n";

#[test]
fn rfc_sample_key_derives_expected_accept() {
    let key = String::from("dGhlIHNhbXBsZSBub25jZQ==");
    assert_eq!(gen_key(&key), "s3pPLMBiTxaQ9kYGzzhZRbK+xOo=".to_string());
}

#[test]
fn accept_token_matches_gen_key() {
    let token = accept_token(b"dGhlIHNhbXBsZSBub25jZQ==");
    assert_eq!(token, "s3pPLMBiTxaQ9kYGzzhZRbK+xOo=".to_string());
}

#[test]
fn key_is_extracted_from_request() {
    let key = sec_websocket_key(SAMPLE_REQUEST).expect("key expected");
    assert_eq!(key, b"dGhlIHNhbXBsZSBub25jZQ==".to_vec());
}

#[test]
fn key_extraction_skips_spaces() {
    let req = b"GET / HTTP/1.1\r\nSec-WebSocket-Key:   abc123\r\n\r\n";
    assert_eq!(sec_websocket_key(req), Some(b"abc123".to_vec()));
}

#[test]
fn missing_key_yields_none() {
    let req = b"GET / HTTP/1.1\r\nHost: example.com\r\n\r\n";
    assert_eq!(sec_websocket_key(req), None);
}

#[test]
fn completeness_of_request_head() {
    assert!(request_complete(SAMPLE_REQUEST));
    assert!(!request_complete(b"GET / HTTP/1.1\r\nHost: example.com\r\n"));
    assert!(!request_complete(b""));
}

#[test]
fn upgrade_header_detection() {
    assert!(is_upgrade_request(SAMPLE_REQUEST));
    assert!(!is_upgrade_request(b"GET / HTTP/1.1\r\nHost: example.com\r\n\r\n"));
}

#[test]
fn response_has_fixed_format() {
    let response = http_response(b"dGhlIHNhbXBsZSBub25jZQ==");
    let expected = "HTTP/1.1 101 Switching Protocols\r\nConnection: Upgrade\r\nSec-WebSocket-Accept: s3pPLMBiTxaQ9kYGzzhZRbK+xOo=\r\nUpgrade: websocket\r\n\r\n";
    assert_eq!(response, expected.to_string());
}
