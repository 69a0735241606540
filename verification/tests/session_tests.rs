use ws_hub::frame::{create_websocket_frame, OpCode};
use ws_hub::session::{Session, SessionAction, SessionState};

const UPGRADE_REQUEST: &[u8] = b"GET /chat HTTP/1.1\r\nHost: example\r\nUpgrade: websocket\r\nConnection: Upgrade\r\nSec-WebSocket-Key: dGhlIHNhbXBsZSBub25jZQ==\r\n\r\n";

const EXPECTED_101: &[u8] = b"HTTP/1.1 101 Switching Protocols\r\nUpgrade: websocket\r\nConnection: Upgrade\r\nSec-WebSocket-Accept: s3pPLMBiTxaQ9kYGzzhZRbK+xOo=\r\n\r\n";

const PLAIN_REQUEST: &[u8] = b"GET / HTTP/1.1\r\nHost: example\r\n\r\n";

const PLAIN_RESPONSE: &[u8] = b"HTTP/1.1 200 OK\r\nContent-Type: text/plain\r\nContent-Length: 5\r\nConnection: keep-alive\r\n\r\nHello";

fn client_mask(frame: &[u8], key: [u8; 4]) -> Vec<u8> {
    let b1 = frame[1];
    let ext = if b1 == 126 {
        2
    } else if b1 == 127 {
        8
    } else {
        0
    };
    let header = 2 + ext;
    let mut out = Vec::new();
    out.push(frame[0]);
    out.push(frame[1] | 0x80);
    out.extend_from_slice(&frame[2..header]);
    out.extend_from_slice(&key);
    for (i, &b) in frame[header..].iter().enumerate() {
        out.push(b ^ key[i % 4]);
    }
    out
}

fn client_frame(op: OpCode, payload: &[u8]) -> Vec<u8> {
    client_mask(&create_websocket_frame(true, op, payload), [0xa1, 0xb2, 0xc3, 0xd4])
}

fn open_session() -> Session {
    let mut session = Session::new();
    match session.on_bytes(UPGRADE_REQUEST) {
        SessionAction::CompleteUpgrade(resp) => assert_eq!(resp, EXPECTED_101.to_vec()),
        other => panic!("expected an upgrade, got {:?}", other),
    }
    assert_eq!(session.state(), SessionState::WebSocketOpen);
    session
}

#[test]
fn upgrade_request_opens_the_session() {
    open_session();
}

#[test]
fn handshake_waits_for_full_request() {
    let mut session = Session::new();
    let (head, tail) = UPGRADE_REQUEST.split_at(30);
    assert!(matches!(session.on_bytes(head), SessionAction::Wait));
    assert_eq!(session.state(), SessionState::Handshaking);
    match session.on_bytes(tail) {
        SessionAction::CompleteUpgrade(resp) => assert_eq!(resp, EXPECTED_101.to_vec()),
        other => panic!("expected an upgrade, got {:?}", other),
    }
}

#[test]
fn non_upgrade_request_gets_plain_response_and_stays_open() {
    let mut session = Session::new();
    // no hub registration can happen: the action is not an upgrade
    match session.on_bytes(PLAIN_REQUEST) {
        SessionAction::SendPlainResponse(resp) => assert_eq!(resp, PLAIN_RESPONSE.to_vec()),
        other => panic!("expected the plain response, got {:?}", other),
    }
    // the connection stays open, awaiting the next pipelined request
    assert_eq!(session.state(), SessionState::Handshaking);
    match session.on_bytes(PLAIN_REQUEST) {
        SessionAction::SendPlainResponse(resp) => assert_eq!(resp, PLAIN_RESPONSE.to_vec()),
        other => panic!("expected the plain response, got {:?}", other),
    }
    assert_eq!(session.state(), SessionState::Handshaking);
}

#[test]
fn pipelined_requests_in_one_read() {
    let mut session = Session::new();
    let mut two = PLAIN_REQUEST.to_vec();
    two.extend_from_slice(PLAIN_REQUEST);
    assert!(matches!(session.on_bytes(&two), SessionAction::SendPlainResponse(_)));
    // the second request is still buffered and is served on the next read
    assert!(matches!(session.on_bytes(&[]), SessionAction::SendPlainResponse(_)));
    assert!(matches!(session.on_bytes(&[]), SessionAction::Wait));
}

#[test]
fn text_frame_is_republished_as_text() {
    let mut session = open_session();
    match session.on_bytes(&client_frame(OpCode::Text, b"hello")) {
        SessionAction::PublishFrame(frame) => {
            assert_eq!(frame, create_websocket_frame(true, OpCode::Text, b"hello"));
        },
        other => panic!("expected a publish, got {:?}", other),
    }
    assert_eq!(session.state(), SessionState::WebSocketOpen);
}

#[test]
fn binary_frame_is_republished_as_text() {
    let mut session = open_session();
    match session.on_bytes(&client_frame(OpCode::Binary, &[0, 159, 146, 150])) {
        SessionAction::PublishFrame(frame) => {
            assert_eq!(frame, create_websocket_frame(true, OpCode::Text, &[0, 159, 146, 150]));
        },
        other => panic!("expected a publish, got {:?}", other),
    }
}

#[test]
fn ping_yields_exactly_one_pong_with_same_payload() {
    let mut session = open_session();
    match session.on_bytes(&client_frame(OpCode::Ping, b"payload-p")) {
        SessionAction::SendPong(frame) => {
            assert_eq!(frame, create_websocket_frame(true, OpCode::Pong, b"payload-p"));
        },
        other => panic!("expected a pong, got {:?}", other),
    }
    // no broadcast was requested, and the session stays open
    assert_eq!(session.state(), SessionState::WebSocketOpen);
    assert!(matches!(session.on_bytes(&[]), SessionAction::Wait));
}

#[test]
fn close_frame_ends_the_session() {
    let mut session = open_session();
    match session.on_bytes(&client_frame(OpCode::Close, b"")) {
        SessionAction::SendCloseAndStop(frame) => {
            assert_eq!(frame, create_websocket_frame(true, OpCode::Close, b""));
        },
        other => panic!("expected the closing exchange, got {:?}", other),
    }
    assert_eq!(session.state(), SessionState::Closed);
    // a closed session reacts to nothing
    assert!(matches!(session.on_bytes(&client_frame(OpCode::Text, b"x")), SessionAction::Wait));
    assert_eq!(session.state(), SessionState::Closed);
}

#[test]
fn continuation_frame_is_ignored() {
    let mut session = open_session();
    assert!(matches!(
        session.on_bytes(&client_frame(OpCode::Continuation, b"frag")),
        SessionAction::DiscardFrame
    ));
    assert_eq!(session.state(), SessionState::WebSocketOpen);
}

#[test]
fn partial_frame_waits_for_more_bytes() {
    let mut session = open_session();
    let frame = client_frame(OpCode::Text, b"split across reads");
    let (head, tail) = frame.split_at(7);
    assert!(matches!(session.on_bytes(head), SessionAction::Wait));
    assert!(matches!(session.on_bytes(tail), SessionAction::PublishFrame(_)));
}

#[test]
fn disconnect_closes_the_session() {
    let mut session = open_session();
    session.on_disconnect();
    assert_eq!(session.state(), SessionState::Closed);
}
