//! WebSocket frame codec: stateless encoding and decoding of RFC 6455
//! frames over byte buffers.
//!
//! Two documented simplifications are kept on purpose: the 64-bit
//! extended length field only honours its low 32 bits (both when
//! decoding and when encoding), and a client frame without the mask bit
//! is treated as not parseable rather than as a protocol error.

use vstd::prelude::*;

verus! {

/// The 4-bit frame opcode. Any other 4-bit value is invalid and makes a
/// frame unparseable.
#[derive(Clone, Copy, Debug, PartialEq, Eq, Structural)]
pub enum OpCode {
    Continuation,
    Text,
    Binary,
    Close,
    Ping,
    Pong,
}

impl OpCode {
    /// The wire value of the opcode.
    pub open spec fn spec_value(self) -> u8 {
        match self {
            OpCode::Continuation => 0x0,
            OpCode::Text => 0x1,
            OpCode::Binary => 0x2,
            OpCode::Close => 0x8,
            OpCode::Ping => 0x9,
            OpCode::Pong => 0xA,
        }
    }

    /// Maps a 4-bit wire value to the opcode, `None` for the ten
    /// unassigned values.
    pub open spec fn spec_from(value: u8) -> Option<OpCode> {
        match value {
            0x0 => Some(OpCode::Continuation),
            0x1 => Some(OpCode::Text),
            0x2 => Some(OpCode::Binary),
            0x8 => Some(OpCode::Close),
            0x9 => Some(OpCode::Ping),
            0xA => Some(OpCode::Pong),
            _ => None,
        }
    }

    /// Wire value of the opcode, as sent in the low 4 bits of a frame's
    /// first byte.
    pub fn value(self) -> (v: u8)
        ensures
            v == self.spec_value(),
    {
        match self {
            OpCode::Continuation => 0x0,
            OpCode::Text => 0x1,
            OpCode::Binary => 0x2,
            OpCode::Close => 0x8,
            OpCode::Ping => 0x9,
            OpCode::Pong => 0xA,
        }
    }

    /// Inverse of `value`: rejects the unassigned 4-bit values.
    pub fn try_from(value: u8) -> (r: Result<OpCode, ()>)
        ensures
            match r {
                Ok(op) => OpCode::spec_from(value) == Some(op),
                Err(()) => OpCode::spec_from(value) is None,
            },
    {
        match value {
            0x0 => Ok(OpCode::Continuation),
            0x1 => Ok(OpCode::Text),
            0x2 => Ok(OpCode::Binary),
            0x8 => Ok(OpCode::Close),
            0x9 => Ok(OpCode::Ping),
            0xA => Ok(OpCode::Pong),
            _ => Err(()),
        }
    }
}

/// Payload bytes XOR-ed with the 4-byte mask key, byte `i` with
/// `mask[i mod 4]`. Masking and unmasking are the same operation.
pub open spec fn xor_mask(payload: Seq<u8>, mask: Seq<u8>) -> Seq<u8> {
    Seq::new(payload.len(), |i: int| payload[i] ^ mask[i % 4])
}

/// The length field and the offset of the mask key, read from a client
/// frame: `Some((payload_len, mask_offset))` once the buffer holds the
/// whole length field, `None` while it does not.
///
/// A base length of 126 takes the next two bytes big-endian; 127 takes
/// the next eight, of which only the low four are honoured.
pub open spec fn spec_length_field(data: Seq<u8>) -> Option<(int, int)>
    recommends
        data.len() >= 2,
{
    let base = data[1] as int % 128;
    if base == 126 {
        if data.len() < 4 {
            None
        } else {
            Some((data[2] * 0x100 + data[3], 4))
        }
    } else if base == 127 {
        if data.len() < 10 {
            None
        } else {
            Some((data[6] * 0x100_0000 + data[7] * 0x1_0000 + data[8] * 0x100 + data[9], 10))
        }
    } else {
        Some((base, 2))
    }
}

/// Decoding of one client frame from the front of `data`.
///
/// `None` covers both "not yet parseable" (the buffer does not yet hold
/// the full frame) and "invalid" (unassigned opcode, or mask bit clear):
/// in either case no frame is consumed.
pub open spec fn parse_frame_spec(data: Seq<u8>) -> Option<(bool, OpCode, Seq<u8>)> {
    if data.len() < 2 {
        None
    } else {
        let fin = data[0] >= 128;
        match OpCode::spec_from((data[0] % 16) as u8) {
            None => None,
            Some(op) => {
                if data[1] < 128 {
                    // a client frame must be masked
                    None
                } else {
                    match spec_length_field(data) {
                        None => None,
                        Some((payload_len, mask_offset)) => {
                            if data.len() < mask_offset + 4 {
                                None
                            } else {
                                let mask = data.subrange(mask_offset, mask_offset + 4);
                                let data_offset = mask_offset + 4;
                                if data.len() < data_offset + payload_len {
                                    None
                                } else {
                                    Some(
                                        (
                                            fin,
                                            op,
                                            xor_mask(
                                                data.subrange(
                                                    data_offset,
                                                    data_offset + payload_len,
                                                ),
                                                mask,
                                            ),
                                        ),
                                    )
                                }
                            }
                        },
                    }
                }
            },
        }
    }
}

/// The length field a server frame carries for a payload of `n` bytes:
/// one byte below 126, `126` plus two big-endian bytes up to 65535, and
/// `127` plus eight bytes of which only the low four carry the length.
pub open spec fn spec_encoded_length(n: int) -> Seq<u8> {
    if n < 126 {
        seq![n as u8]
    } else if n <= 65535 {
        seq![126u8, (n / 0x100) as u8, (n % 0x100) as u8]
    } else {
        seq![
            127u8,
            0u8,
            0u8,
            0u8,
            0u8,
            ((n / 0x100_0000) % 0x100) as u8,
            ((n / 0x1_0000) % 0x100) as u8,
            ((n / 0x100) % 0x100) as u8,
            (n % 0x100) as u8,
        ]
    }
}

/// Encoding of a server frame: fin bit and opcode, the length field,
/// then the payload. Server frames carry no mask bit and no mask key.
pub open spec fn build_frame_spec(fin: bool, opcode: OpCode, payload: Seq<u8>) -> Seq<u8> {
    let first = if fin {
        (128 + opcode.spec_value()) as u8
    } else {
        opcode.spec_value()
    };
    seq![first] + spec_encoded_length(payload.len() as int) + payload
}

/// A server frame as a client would send it back: mask bit set, a
/// 4-byte mask key inserted after the length field, payload XOR-ed with
/// the key. Meaningful for outputs of `build_frame_spec`, whose second
/// byte is below 128.
pub open spec fn client_masked(frame: Seq<u8>, key: Seq<u8>) -> Seq<u8>
    recommends
        frame.len() >= 2,
        frame[1] < 128,
        key.len() == 4,
{
    let ext: int = if frame[1] == 126 {
        2
    } else if frame[1] == 127 {
        8
    } else {
        0
    };
    let header_end = 2 + ext;
    seq![frame[0], (frame[1] + 128) as u8] + frame.subrange(2, header_end) + key + xor_mask(
        frame.skip(header_end),
        key,
    )
}

proof fn lemma_xor_involution(a: u8, b: u8)
    ensures
        (a ^ b) ^ b == a,
{
    assert((a ^ b) ^ b == a) by (bit_vector);
}

/// Round trip: any server frame whose payload length fits the codec's
/// 32-bit ceiling, masked with an arbitrary 4-byte key the way a client
/// would, decodes back to exactly the fin bit, opcode and payload it was
/// built from.
pub proof fn lemma_frame_round_trip(fin: bool, opcode: OpCode, payload: Seq<u8>, key: Seq<u8>)
    requires
        payload.len() <= 0xFFFF_FFFF,
        key.len() == 4,
    ensures
        parse_frame_spec(client_masked(build_frame_spec(fin, opcode, payload), key)) == Some(
            (fin, opcode, payload),
        ),
{
    let frame = build_frame_spec(fin, opcode, payload);
    let n = payload.len() as int;
    let lf = spec_encoded_length(n);
    let v = opcode.spec_value();
    assert(v < 16 && OpCode::spec_from(v) == Some(opcode));

    let ext: int = if lf[0] == 126 {
        2
    } else if lf[0] == 127 {
        8
    } else {
        0
    };
    assert(lf.len() == 1 + ext);
    assert(frame.len() == 2 + ext + n);
    assert(frame[0] == if fin {
        (128 + v) as u8
    } else {
        v
    });
    assert(frame[1] == lf[0]);
    assert(lf[0] < 128);

    let header_end = 2 + ext;
    assert(frame.skip(header_end) =~= payload);
    let masked = client_masked(frame, key);
    assert(masked =~= seq![frame[0], (frame[1] + 128) as u8] + frame.subrange(2, header_end)
        + key + xor_mask(payload, key));
    assert(masked.len() == 6 + ext + n);

    // first byte: fin bit and opcode survive
    assert((masked[0] >= 128) == fin);
    assert(masked[0] as int % 16 == v);

    // second byte: the mask bit is set and the base length survives
    assert(masked[1] == (lf[0] + 128) as u8);
    assert(masked[1] >= 128);
    assert(masked[1] as int % 128 == lf[0] as int);

    // the length field decodes back to the payload length
    let mask_offset = header_end;
    if n < 126 {
        assert(lf[0] == n as u8);
        assert(spec_length_field(masked) == Some((n, 2int)));
    } else if n <= 65535 {
        assert(lf[0] == 126);
        assert(masked[2] == lf[1] && masked[3] == lf[2]);
        assert(lf[1] == (n / 0x100) as u8 && lf[2] == (n % 0x100) as u8);
        assert(n / 0x100 < 0x100);
        vstd::arithmetic::div_mod::lemma_fundamental_div_mod(n, 0x100);
        assert(masked[2] * 0x100 + masked[3] == n);
        assert(spec_length_field(masked) == Some((n, 4int)));
    } else {
        assert(lf[0] == 127);
        assert(masked[2] == lf[1] && masked[3] == lf[2] && masked[4] == lf[3] && masked[5]
            == lf[4] && masked[6] == lf[5] && masked[7] == lf[6] && masked[8] == lf[7]
            && masked[9] == lf[8]);
        assert(n / 0x100_0000 < 0x100);
        assert(masked[6] == (n / 0x100_0000) as u8 && masked[7] == ((n / 0x1_0000) % 0x100) as u8
            && masked[8] == ((n / 0x100) % 0x100) as u8 && masked[9] == (n % 0x100) as u8);
        vstd::arithmetic::div_mod::lemma_fundamental_div_mod(n, 0x100);
        vstd::arithmetic::div_mod::lemma_fundamental_div_mod(n / 0x100, 0x100);
        vstd::arithmetic::div_mod::lemma_fundamental_div_mod(n / 0x1_0000, 0x100);
        assert(n / 0x100 / 0x100 == n / 0x1_0000) by {
            vstd::arithmetic::div_mod::lemma_div_denominator(n, 0x100, 0x100);
        }
        assert(n / 0x1_0000 / 0x100 == n / 0x100_0000) by {
            vstd::arithmetic::div_mod::lemma_div_denominator(n, 0x1_0000, 0x100);
        }
        assert(masked[6] * 0x100_0000 + masked[7] * 0x1_0000 + masked[8] * 0x100 + masked[9]
            == n);
        assert(spec_length_field(masked) == Some((n, 10int)));
    }

    // the mask key is read back from where the client put it
    assert(masked.subrange(mask_offset, mask_offset + 4) =~= key);
    let data_offset = mask_offset + 4;
    assert(masked.len() == data_offset + n);

    // unmasking undoes the client's masking
    let sub = masked.subrange(data_offset, data_offset + n);
    assert(sub =~= xor_mask(payload, key));
    assert forall|i: int| 0 <= i < n implies xor_mask(sub, key)[i] == payload[i] by {
        lemma_xor_involution(payload[i], key[i % 4]);
    }
    assert(xor_mask(sub, key) =~= payload);
}

/// Decodes one client frame from the front of `data`.
///
/// Returns `None` both when the buffer does not yet hold the whole frame
/// (the caller keeps the buffer and retries after the next read) and
/// when the frame is invalid: an unassigned opcode or a clear mask bit.
pub fn parse_websocket_frame(data: &[u8]) -> (r: Option<(bool, OpCode, Vec<u8>)>)
    ensures
        match r {
            Some((fin, op, payload)) => parse_frame_spec(data@) == Some((fin, op, payload@)),
            None => parse_frame_spec(data@) is None,
        },
{
    if data.len() < 2 {
        return None;
    }

    let fin = data[0] >= 128;
    let opcode = match OpCode::try_from(data[0] % 16) {
        Ok(op) => op,
        Err(_) => {
            return None;
        },
    };

    if data[1] < 128 {
        // client frames must be masked
        return None;
    }

    let base: usize = (data[1] % 128) as usize;
    let mut payload_len: usize = base;
    let mut mask_offset: usize = 2;

    if base == 126 {
        if data.len() < 4 {
            return None;
        }
        payload_len = (data[2] as usize) * 0x100 + (data[3] as usize);
        mask_offset = 4;
    } else if base == 127 {
        if data.len() < 10 {
            return None;
        }
        // only the low 32 bits of the 64-bit length field are honoured
        payload_len = (data[6] as usize) * 0x100_0000 + (data[7] as usize) * 0x1_0000 + (
        data[8] as usize) * 0x100 + (data[9] as usize);
        mask_offset = 10;
    }

    if data.len() < mask_offset + 4 {
        return None;
    }
    let m0 = data[mask_offset];
    let m1 = data[mask_offset + 1];
    let m2 = data[mask_offset + 2];
    let m3 = data[mask_offset + 3];
    let data_offset = mask_offset + 4;

    if data.len() - data_offset < payload_len {
        return None;
    }

    let ghost mask = data@.subrange(mask_offset as int, mask_offset + 4);
    assert(mask[0] == m0 && mask[1] == m1 && mask[2] == m2 && mask[3] == m3);

    let n = data.len();
    let mut payload: Vec<u8> = Vec::new();
    let mut i: usize = 0;
    while i < payload_len
        invariant
            i <= payload_len,
            n == data@.len(),
            data_offset + payload_len <= n,
            mask_offset + 4 == data_offset,
            mask == data@.subrange(mask_offset as int, mask_offset + 4),
            mask[0] == m0 && mask[1] == m1 && mask[2] == m2 && mask[3] == m3,
            payload@ == xor_mask(
                data@.subrange(data_offset as int, data_offset + i as int),
                mask,
            ),
        decreases payload_len - i,
    {
        let k = i % 4;
        let key_byte = if k == 0 {
            m0
        } else if k == 1 {
            m1
        } else if k == 2 {
            m2
        } else {
            m3
        };
        payload.push(data[data_offset + i] ^ key_byte);
        i = i + 1;
        proof {
            assert(payload@ =~= xor_mask(
                data@.subrange(data_offset as int, data_offset + i as int),
                mask,
            ));
        }
    }

    Some((fin, opcode, payload))
}

/// Encodes a server frame: fin bit and opcode, the length field, then
/// the payload, unmasked. For payloads of 65536 bytes and more an
/// 8-byte length field is emitted but only its low 32 bits carry the
/// true length, mirroring the decoder's ceiling.
pub fn create_websocket_frame(fin: bool, opcode: OpCode, payload: &[u8]) -> (r: Vec<u8>)
    ensures
        r@ == build_frame_spec(fin, opcode, payload@),
{
    let mut frame: Vec<u8> = Vec::new();

    let v = opcode.value();
    let first_byte: u8 = if fin {
        128 + v
    } else {
        v
    };
    frame.push(first_byte);

    let payload_len = payload.len();
    if payload_len < 126 {
        frame.push(payload_len as u8);
    } else if payload_len <= 65535 {
        frame.push(126);
        frame.push((payload_len / 0x100) as u8);
        frame.push((payload_len % 0x100) as u8);
    } else {
        frame.push(127);
        // only the low 32 bits of the length are emitted
        frame.push(0);
        frame.push(0);
        frame.push(0);
        frame.push(0);
        frame.push(((payload_len / 0x100_0000) % 0x100) as u8);
        frame.push(((payload_len / 0x1_0000) % 0x100) as u8);
        frame.push(((payload_len / 0x100) % 0x100) as u8);
        frame.push((payload_len % 0x100) as u8);
    }

    proof {
        assert(frame@ =~= seq![first_byte] + spec_encoded_length(payload@.len() as int));
    }

    let ghost header = frame@;
    let mut i: usize = 0;
    while i < payload.len()
        invariant
            i <= payload@.len(),
            frame@ == header + payload@.take(i as int),
        decreases payload@.len() - i,
    {
        frame.push(payload[i]);
        i = i + 1;
        proof {
            assert(frame@ =~= header + payload@.take(i as int));
        }
    }

    proof {
        assert(payload@.take(payload@.len() as int) =~= payload@);
        assert(frame@ =~= seq![first_byte] + spec_encoded_length(payload@.len() as int)
            + payload@);
    }
    frame
}

} // verus!
