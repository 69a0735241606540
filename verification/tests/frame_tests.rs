use ws_hub::frame::{create_websocket_frame, parse_websocket_frame, OpCode};

/// Masks a server-built frame the way a client would: mask bit set, the
/// 4-byte key inserted after the length field, payload XOR-ed with it.
fn client_mask(frame: &[u8], key: [u8; 4]) -> Vec<u8> {
    let b1 = frame[1];
    let ext = if b1 == 126 {
        2
    } else if b1 == 127 {
        8
    } else {
        0
    };
    let header = 2 + ext;
    let mut out = Vec::new();
    out.push(frame[0]);
    out.push(frame[1] | 0x80);
    out.extend_from_slice(&frame[2..header]);
    out.extend_from_slice(&key);
    for (i, &b) in frame[header..].iter().enumerate() {
        out.push(b ^ key[i % 4]);
    }
    out
}

fn round_trip(fin: bool, op: OpCode, len: usize) {
    let payload: Vec<u8> = (0..len).map(|i| (i % 251) as u8).collect();
    let frame = create_websocket_frame(fin, op, &payload);
    let masked = client_mask(&frame, [0x37, 0xfa, 0x21, 0x3d]);
    let (fin2, op2, payload2) = parse_websocket_frame(&masked).expect("frame should parse");
    assert_eq!(fin2, fin);
    assert_eq!(op2, op);
    assert_eq!(payload2, payload);
}

#[test]
fn round_trip_text_len_0() {
    round_trip(true, OpCode::Text, 0);
}

#[test]
fn round_trip_text_len_1() {
    round_trip(true, OpCode::Text, 1);
}

#[test]
fn round_trip_text_len_125() {
    round_trip(true, OpCode::Text, 125);
}

#[test]
fn round_trip_text_len_126() {
    round_trip(true, OpCode::Text, 126);
}

#[test]
fn round_trip_text_len_65535() {
    round_trip(true, OpCode::Text, 65535);
}

#[test]
fn round_trip_text_len_65536() {
    round_trip(true, OpCode::Text, 65536);
}

#[test]
fn round_trip_binary_all_lengths() {
    for &len in &[0usize, 1, 125, 126, 65535, 65536] {
        round_trip(true, OpCode::Binary, len);
        round_trip(false, OpCode::Binary, len);
    }
}

#[test]
fn build_small_text_frame_exact_bytes() {
    let frame = create_websocket_frame(true, OpCode::Text, b"abc");
    assert_eq!(frame, vec![0x81, 3, b'a', b'b', b'c']);
}

#[test]
fn build_no_fin_ping_frame_exact_bytes() {
    let frame = create_websocket_frame(false, OpCode::Ping, b"hi");
    assert_eq!(frame, vec![0x09, 2, b'h', b'i']);
}

#[test]
fn build_medium_frame_length_field() {
    let payload = vec![7u8; 300];
    let frame = create_websocket_frame(true, OpCode::Binary, &payload);
    assert_eq!(&frame[..4], &[0x82, 126, 1, 44]);
    assert_eq!(frame.len(), 4 + 300);
}

#[test]
fn build_large_frame_length_field() {
    let payload = vec![1u8; 65536];
    let frame = create_websocket_frame(true, OpCode::Binary, &payload);
    assert_eq!(&frame[..10], &[0x82, 127, 0, 0, 0, 0, 0, 1, 0, 0]);
    assert_eq!(frame.len(), 10 + 65536);
}

#[test]
fn parse_rejects_short_buffer() {
    assert!(parse_websocket_frame(&[]).is_none());
    assert!(parse_websocket_frame(&[0x81]).is_none());
}

#[test]
fn parse_rejects_unmasked_frame() {
    // a server-style frame: mask bit clear
    let frame = create_websocket_frame(true, OpCode::Text, b"abc");
    assert!(parse_websocket_frame(&frame).is_none());
}

#[test]
fn parse_rejects_unknown_opcode() {
    let frame = create_websocket_frame(true, OpCode::Text, b"abc");
    let mut masked = client_mask(&frame, [1, 2, 3, 4]);
    masked[0] = 0x83; // opcode 0x3 is unassigned
    assert!(parse_websocket_frame(&masked).is_none());
}

#[test]
fn parse_waits_for_full_frame() {
    let frame = create_websocket_frame(true, OpCode::Text, b"hello");
    let masked = client_mask(&frame, [9, 8, 7, 6]);
    for cut in 0..masked.len() {
        assert!(parse_websocket_frame(&masked[..cut]).is_none());
    }
    assert!(parse_websocket_frame(&masked).is_some());
}

#[test]
fn opcode_wire_values_round_trip() {
    for op in [
        OpCode::Continuation,
        OpCode::Text,
        OpCode::Binary,
        OpCode::Close,
        OpCode::Ping,
        OpCode::Pong,
    ] {
        assert_eq!(OpCode::try_from(op.value()), Ok(op));
    }
    for v in [3u8, 4, 5, 6, 7, 0xB, 0xC, 0xD, 0xE, 0xF] {
        assert_eq!(OpCode::try_from(v), Err(()));
    }
}
