use ws_hub::handshake::{attempt_upgrade, find_http_end, plain_response, trim_ascii};

const UPGRADE_REQUEST: &[u8] = b"GET /chat HTTP/1.1\r\nHost: example\r\nUpgrade: websocket\r\nConnection: Upgrade\r\nSec-WebSocket-Key: dGhlIHNhbXBsZSBub25jZQ==\r\n\r\n";

const EXPECTED_101: &[u8] = b"HTTP/1.1 101 Switching Protocols\r\nUpgrade: websocket\r\nConnection: Upgrade\r\nSec-WebSocket-Accept: s3pPLMBiTxaQ9kYGzzhZRbK+xOo=\r\n\r\n";

#[test]
fn find_http_end_absent() {
    assert_eq!(find_http_end(b""), None);
    assert_eq!(find_http_end(b"GET / HTTP/1.1\r\nHost: x\r\n"), None);
    assert_eq!(find_http_end(b"\r\n\r"), None);
}

#[test]
fn find_http_end_first_occurrence() {
    assert_eq!(find_http_end(b"\r\n\r\n"), Some(0));
    assert_eq!(find_http_end(b"GET /\r\n\r\nGET /\r\n\r\n"), Some(5));
}

#[test]
fn upgrade_request_gets_exact_response() {
    let resp = attempt_upgrade(UPGRADE_REQUEST).expect("handshake should succeed");
    assert_eq!(resp, EXPECTED_101.to_vec());
}

#[test]
fn missing_upgrade_line_is_refused() {
    let req = b"GET / HTTP/1.1\r\nHost: example\r\nSec-WebSocket-Key: dGhlIHNhbXBsZSBub25jZQ==\r\n\r\n";
    assert!(attempt_upgrade(req).is_none());
}

#[test]
fn upgrade_line_must_be_exact() {
    // case-sensitive, form-sensitive: these do not count
    let req1 = b"GET / HTTP/1.1\r\nupgrade: websocket\r\nSec-WebSocket-Key: dGhlIHNhbXBsZSBub25jZQ==\r\n\r\n";
    assert!(attempt_upgrade(req1).is_none());
    let req2 = b"GET / HTTP/1.1\r\nUpgrade: websocket, h2c\r\nSec-WebSocket-Key: dGhlIHNhbXBsZSBub25jZQ==\r\n\r\n";
    assert!(attempt_upgrade(req2).is_none());
}

#[test]
fn missing_key_line_is_refused() {
    let req = b"GET / HTTP/1.1\r\nUpgrade: websocket\r\nConnection: Upgrade\r\n\r\n";
    assert!(attempt_upgrade(req).is_none());
}

#[test]
fn key_value_is_trimmed() {
    let req = b"GET / HTTP/1.1\r\nUpgrade: websocket\r\nSec-WebSocket-Key:   dGhlIHNhbXBsZSBub25jZQ==  \r\n\r\n";
    let resp = attempt_upgrade(req).expect("handshake should succeed");
    assert_eq!(resp, EXPECTED_101.to_vec());
}

#[test]
fn plain_response_exact_bytes() {
    let expected: &[u8] = b"HTTP/1.1 200 OK\r\nContent-Type: text/plain\r\nContent-Length: 5\r\nConnection: keep-alive\r\n\r\nHello";
    assert_eq!(plain_response(), expected.to_vec());
}

#[test]
fn trim_ascii_cases() {
    assert_eq!(trim_ascii(b""), Vec::<u8>::new());
    assert_eq!(trim_ascii(b"   "), Vec::<u8>::new());
    assert_eq!(trim_ascii(b" a b "), b"a b".to_vec());
    assert_eq!(trim_ascii(b"\r\nkey\t"), b"key".to_vec());
}
