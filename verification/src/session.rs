//! Connection session state machine: `Handshaking`, then either plain
//! HTTP (staying in `Handshaking` for the next pipelined request) or
//! `WebSocketOpen`, and finally `Closed`.
//!
//! The session only decides: it takes the bytes read from the socket and
//! returns the action owed — a response to send, a frame to publish
//! through the hub, a pong, or the closing exchange. The embedding
//! program performs the I/O, registers the session with the hub after a
//! completed upgrade, and deregisters it once the session is closed.

use vstd::prelude::*;
use crate::frame::OpCode;
use crate::frame::build_frame_spec;
use crate::frame::create_websocket_frame;
use crate::frame::parse_frame_spec;
use crate::frame::parse_websocket_frame;
use crate::handshake::attempt_upgrade;
use crate::handshake::find_http_end;
use crate::handshake::plain_response;
use crate::handshake::spec_accept_key;
use crate::handshake::spec_find_http_end;
use crate::handshake::spec_plain_response;
use crate::handshake::spec_upgrade_key;
use crate::handshake::spec_upgrade_response;

verus! {

/// The states a session moves through. `Closed` is terminal.
#[derive(Clone, Copy, Debug, PartialEq, Eq, Structural)]
pub enum SessionState {
    Handshaking,
    WebSocketOpen,
    Closed,
}

/// What the embedding program must do after handing bytes to the
/// session.
#[derive(Debug)]
pub enum SessionAction {
    /// The buffer does not yet hold a full request or frame: keep the
    /// buffer and wait for more bytes.
    Wait,
    /// A complete non-upgrade HTTP request: send this fixed response and
    /// keep the connection open for the next pipelined request.
    SendPlainResponse(Vec<u8>),
    /// A completed handshake: send this 101 response and register the
    /// connection with the hub.
    CompleteUpgrade(Vec<u8>),
    /// A `Text` or `Binary` frame arrived: publish this re-encoded
    /// `Text` frame through the hub (the sender hears its own echo, as
    /// it subscribes too).
    PublishFrame(Vec<u8>),
    /// A `Ping` frame arrived: send this `Pong` frame, with the same
    /// payload, back on this connection only.
    SendPong(Vec<u8>),
    /// A `Close` frame arrived: send this empty `Close` frame, then
    /// deregister from the hub and release the socket.
    SendCloseAndStop(Vec<u8>),
    /// A `Continuation` frame or the like: ignored, no effect.
    DiscardFrame,
}

/// The session's observable state: its phase and the bytes accumulated
/// since the last successful parse or handshake.
pub ghost struct SessionView {
    pub state: SessionState,
    pub buffer: Seq<u8>,
}

/// A connection session: the current phase and the accumulation buffer.
pub struct Session {
    state: SessionState,
    buffer: Vec<u8>,
}

impl View for Session {
    type V = SessionView;

    closed spec fn view(&self) -> SessionView {
        SessionView { state: self.state, buffer: self.buffer@ }
    }
}

fn extend_bytes(dst: &mut Vec<u8>, src: &[u8])
    ensures
        final(dst)@ == old(dst)@ + src@,
{
    let ghost base = dst@;
    let mut i: usize = 0;
    while i < src.len()
        invariant
            0 <= i <= src@.len(),
            dst@ == base + src@.take(i as int),
        decreases src@.len() - i,
    {
        dst.push(src[i]);
        i = i + 1;
        proof {
            assert(dst@ =~= base + src@.take(i as int));
        }
    }
    proof {
        assert(base + src@.take(src@.len() as int) =~= base + src@);
    }
}

impl Session {
    /// A fresh session on a newly accepted connection.
    pub fn new() -> (s: Session)
        ensures
            s@.state is Handshaking,
            s@.buffer == Seq::<u8>::empty(),
    {
        let s = Session { state: SessionState::Handshaking, buffer: Vec::new() };
        s
    }

    /// The session's current phase.
    pub fn state(&self) -> (s: SessionState)
        ensures
            s == self@.state,
    {
        self.state
    }

    /// How many bytes are buffered since the last successful parse or
    /// handshake.
    pub fn buffered(&self) -> (n: usize)
        ensures
            n == self@.buffer.len(),
    {
        self.buffer.len()
    }

    /// Feeds bytes read from the socket into the session and returns the
    /// action owed.
    ///
    /// While handshaking: once the buffer holds a `\r\n\r\n`, the request
    /// either upgrades (101 response, session open, leftover bytes
    /// dropped) or falls back to plain HTTP (fixed response, request
    /// consumed, next pipelined request awaited). While open: once the
    /// buffer parses as a frame it is dispatched by opcode and the buffer
    /// is cleared — also when the frame was shorter than the buffer, a
    /// known simplification. The length bound keeps the handshake key
    /// within SHA-1's 64-bit bit-length field.
    pub fn on_bytes(&mut self, incoming: &[u8]) -> (action: SessionAction)
        requires
            old(self)@.buffer.len() + incoming@.len() <= 0x1000_0000_0000_0000,
        ensures
            (match old(self)@.state {
                SessionState::Closed => action is Wait && final(self)@ == old(self)@,
                SessionState::Handshaking => (match spec_find_http_end(
                    old(self)@.buffer + incoming@,
                    0,
                ) {
                    None => action is Wait && final(self)@.state is Handshaking && final(self)@.buffer == old(self)@.buffer + incoming@,
                    Some(p) => (match spec_upgrade_key(
                        (old(self)@.buffer + incoming@).take(p + 4),
                    ) {
                        Some(key) => (action matches SessionAction::CompleteUpgrade(resp)
                            && resp@ == spec_upgrade_response(spec_accept_key(key))) && final(self)@.state is WebSocketOpen && final(self)@.buffer
                            == Seq::<u8>::empty(),
                        None => (action matches SessionAction::SendPlainResponse(resp)
                            && resp@ == spec_plain_response()) && final(self)@.state is Handshaking && final(self)@.buffer == (old(self)@.buffer
                            + incoming@).skip(p + 4),
                    }),
                }),
                SessionState::WebSocketOpen => (match parse_frame_spec(
                    old(self)@.buffer + incoming@,
                ) {
                    None => action is Wait && final(self)@.state is WebSocketOpen && final(self)@.buffer == old(self)@.buffer + incoming@,
                    Some((fin, op, payload)) => final(self)@.buffer == Seq::<u8>::empty()
                        && (match op {
                        OpCode::Text | OpCode::Binary => (action
                            matches SessionAction::PublishFrame(f) && f@ == build_frame_spec(
                            true,
                            OpCode::Text,
                            payload,
                        )) && final(self)@.state is WebSocketOpen,
                        OpCode::Ping => (action matches SessionAction::SendPong(f) && f@
                            == build_frame_spec(true, OpCode::Pong, payload)) && final(self)@.state is WebSocketOpen,
                        OpCode::Close => (action matches SessionAction::SendCloseAndStop(f)
                            && f@ == build_frame_spec(true, OpCode::Close, Seq::empty()))
                            && final(self)@.state is Closed,
                        OpCode::Continuation | OpCode::Pong => action is DiscardFrame && final(self)@.state is WebSocketOpen,
                    }),
                }),
            }),
    {
        let ghost data = old(self)@.buffer + incoming@;
        match self.state {
            SessionState::Closed => SessionAction::Wait,
            SessionState::Handshaking => {
                extend_bytes(&mut self.buffer, incoming);
                let blen = self.buffer.len();
                match find_http_end(self.buffer.as_slice()) {
                    None => SessionAction::Wait,
                    Some(p) => {
                        proof {
                            assert(p + 4 <= blen);
                        }
                        let request: &[u8] = vstd::slice::slice_subrange(
                            self.buffer.as_slice(),
                            0,
                            p + 4,
                        );
                        proof {
                            assert(request@ =~= data.take(p + 4));
                        }
                        match attempt_upgrade(request) {
                            Some(resp) => {
                                self.state = SessionState::WebSocketOpen;
                                self.buffer.clear();
                                SessionAction::CompleteUpgrade(resp)
                            },
                            None => {
                                let rest = vstd::slice::slice_to_vec(
                                    vstd::slice::slice_subrange(
                                        self.buffer.as_slice(),
                                        p + 4,
                                        self.buffer.len(),
                                    ),
                                );
                                proof {
                                    assert(rest@ =~= data.skip(p + 4));
                                }
                                self.buffer = rest;
                                SessionAction::SendPlainResponse(plain_response())
                            },
                        }
                    },
                }
            },
            SessionState::WebSocketOpen => {
                extend_bytes(&mut self.buffer, incoming);
                match parse_websocket_frame(self.buffer.as_slice()) {
                    None => SessionAction::Wait,
                    Some((_fin, op, payload)) => {
                        self.buffer.clear();
                        match op {
                            OpCode::Text | OpCode::Binary => SessionAction::PublishFrame(
                                create_websocket_frame(true, OpCode::Text, payload.as_slice()),
                            ),
                            OpCode::Ping => SessionAction::SendPong(
                                create_websocket_frame(true, OpCode::Pong, payload.as_slice()),
                            ),
                            OpCode::Close => {
                                self.state = SessionState::Closed;
                                let empty: Vec<u8> = Vec::new();
                                SessionAction::SendCloseAndStop(
                                    create_websocket_frame(true, OpCode::Close, empty.as_slice()),
                                )
                            },
                            OpCode::Continuation | OpCode::Pong => SessionAction::DiscardFrame,
                        }
                    },
                }
            },
        }
    }

    /// A read of zero bytes, a read error, or a write failure ends the
    /// session. The caller then deregisters it from the hub and releases
    /// the socket.
    pub fn on_disconnect(&mut self)
        ensures
            final(self)@.state is Closed,
            final(self)@.buffer == old(self)@.buffer,
    {
        self.state = SessionState::Closed;
    }
}

} // verus!
