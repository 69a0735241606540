use ws_hub::base64::encode;
use ws_hub::handshake::{accept_key_bytes, compute_accept};
use ws_hub::sha1::Sha1;

fn sha1_hex(data: &[u8]) -> String {
    let mut sha = Sha1::new();
    sha.update(data);
    let digest = sha.finalize();
    let mut out = String::new();
    for b in digest {
        out.push_str(&format!("{:02x}", b));
    }
    out
}

#[test]
fn sha1_empty_message() {
    assert_eq!(sha1_hex(b""), "da39a3ee5e6b4b0d3255bfef95601890afd80709");
}

#[test]
fn sha1_abc() {
    assert_eq!(sha1_hex(b"abc"), "a9993e364706816aba3e25717850c26c9cd0d89d");
}

#[test]
fn sha1_padding_boundaries() {
    // 55 bytes: the length field still fits the first block;
    // 56 bytes: it no longer does; 64 bytes: exactly one full block
    assert_eq!(sha1_hex(&[b'a'; 55]), "c1c8bbdc22796e28c0e15163d20899b65621d65a");
    assert_eq!(sha1_hex(&[b'a'; 56]), "c2db330f6083854c99d4b5bfb6e8f29f201be699");
    assert_eq!(sha1_hex(&[b'a'; 64]), "0098ba824b5c16427bd7a1122a5a442a25ec644d");
}

#[test]
fn sha1_multiple_blocks() {
    assert_eq!(sha1_hex(&[b'a'; 200]), "e61cfffe0d9195a525fc6cf06ca2d77119c24a40");
}

#[test]
fn sha1_streaming_updates_match_one_shot() {
    let mut sha = Sha1::new();
    sha.update(&[b'a'; 100]);
    sha.update(&[b'a'; 100]);
    let digest = sha.finalize();
    let mut one = Sha1::new();
    one.update(&[b'a'; 200]);
    assert_eq!(digest, one.finalize());
}

#[test]
fn base64_standard_vectors() {
    assert_eq!(encode(b""), "");
    assert_eq!(encode(b"f"), "Zg==");
    assert_eq!(encode(b"fo"), "Zm8=");
    assert_eq!(encode(b"foo"), "Zm9v");
    assert_eq!(encode(b"foob"), "Zm9vYg==");
    assert_eq!(encode(b"fooba"), "Zm9vYmE=");
    assert_eq!(encode(b"foobar"), "Zm9vYmFy");
}

#[test]
fn base64_full_alphabet() {
    // 0x00, 0x10, 0x83, 0x10, 0x51, ... walks the whole alphabet in order
    let data: Vec<u8> = vec![
        0x00, 0x10, 0x83, 0x10, 0x51, 0x87, 0x20, 0x92, 0x8B, 0x30, 0xD3, 0x8F, 0x41, 0x14,
        0x93, 0x51, 0x55, 0x97, 0x61, 0x96, 0x9B, 0x71, 0xD7, 0x9F, 0x82, 0x18, 0xA3, 0x92,
        0x59, 0xA7, 0xA2, 0x9A, 0xAB, 0xB2, 0xDB, 0xAF, 0xC3, 0x1C, 0xB3, 0xD3, 0x5D, 0xB7,
        0xE3, 0x9E, 0xBB, 0xF3, 0xDF, 0xBF,
    ];
    assert_eq!(
        encode(&data),
        "ABCDEFGHIJKLMNOPQRSTUVWXYZabcdefghijklmnopqrstuvwxyz0123456789+/"
    );
}

#[test]
fn accept_known_vector() {
    // the worked example of the WebSocket RFC
    let accept = compute_accept(b"dGhlIHNhbXBsZSBub25jZQ==");
    assert_eq!(accept.as_str(), "s3pPLMBiTxaQ9kYGzzhZRbK+xOo=");
}

#[test]
fn accept_second_vector() {
    let accept = compute_accept(b"x3JJHMbDL1EzLkh9GBhXDw==");
    assert_eq!(accept.as_str(), "HSmrc0sMlYUkAGmm5OPpG2HaGWk=");
}

#[test]
fn accept_trims_surrounding_whitespace() {
    let plain = compute_accept(b"dGhlIHNhbXBsZSBub25jZQ==");
    let padded = compute_accept(b"  \tdGhlIHNhbXBsZSBub25jZQ== \r\n");
    assert_eq!(plain, padded);
}

#[test]
fn accept_bytes_match_accept_string() {
    let bytes = accept_key_bytes(b"dGhlIHNhbXBsZSBub25jZQ==");
    assert_eq!(bytes, b"s3pPLMBiTxaQ9kYGzzhZRbK+xOo=".to_vec());
}
