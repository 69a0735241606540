//! A minimal verified WebSocket server core: frame codec, handshake
//! (SHA-1 + base64 accept-key derivation), broadcast hub, and the
//! per-connection session state machine. Transport I/O is left to the
//! embedding program, which hands byte buffers in and writes byte
//! buffers out.

pub mod base64;
pub mod frame;
pub mod handshake;
pub mod hub;
pub mod session;
pub mod sha1;
