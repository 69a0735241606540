//! SHA-1 over byte streams, written out as the standard
//! Merkle-Damgard construction: 64-byte blocks, a padding byte `0x80`
//! followed by zeros up to 56 bytes, an 8-byte big-endian bit length,
//! an 80-word message schedule, and four round functions over the
//! ranges [0,20), [20,40), [40,60), [60,80).
//!
//! The spec functions model the construction directly; `Sha1` carries
//! the bytes fed so far as a ghost sequence, and `finalize` is proved
//! to return the digest of exactly those bytes.

use vstd::prelude::*;

verus! {

/// Left rotation of a 32-bit word.
pub open spec fn spec_rotl(x: u32, n: u32) -> u32
    recommends
        1 <= n < 32,
{
    (x << n) | (x >> (32 - n) as u32)
}

fn rotl(x: u32, n: u32) -> (r: u32)
    requires
        1 <= n < 32,
    ensures
        r == spec_rotl(x, n),
{
    (x << n) | (x >> (32 - n))
}

/// Big-endian 32-bit word from four bytes.
pub open spec fn spec_be_word(b0: u8, b1: u8, b2: u8, b3: u8) -> u32 {
    (b0 * 0x100_0000 + b1 * 0x1_0000 + b2 * 0x100 + b3) as u32
}

/// Word `i` of the 80-word message schedule: the first 16 come straight
/// from the block, the rest by left-rotate-by-1 XOR mixing.
pub open spec fn spec_schedule(block: Seq<u8>, i: int) -> u32
    recommends
        block.len() == 64,
        0 <= i < 80,
    decreases i,
{
    if i < 16 {
        spec_be_word(block[4 * i], block[4 * i + 1], block[4 * i + 2], block[4 * i + 3])
    } else {
        spec_rotl(
            spec_schedule(block, i - 3) ^ spec_schedule(block, i - 8) ^ spec_schedule(
                block,
                i - 14,
            ) ^ spec_schedule(block, i - 16),
            1,
        )
    }
}

/// Round function for round `i`.
pub open spec fn spec_round_f(i: int, b: u32, c: u32, d: u32) -> u32 {
    if i < 20 {
        (b & c) | ((!b) & d)
    } else if i < 40 {
        b ^ c ^ d
    } else if i < 60 {
        (b & c) | (b & d) | (c & d)
    } else {
        b ^ c ^ d
    }
}

/// Round constant for round `i`.
pub open spec fn spec_round_k(i: int) -> u32 {
    if i < 20 {
        0x5A82_7999
    } else if i < 40 {
        0x6ED9_EBA1
    } else if i < 60 {
        0x8F1B_BCDC
    } else {
        0xCA62_C1D6
    }
}

/// One update of the five working registers.
pub open spec fn spec_round(
    block: Seq<u8>,
    s: (u32, u32, u32, u32, u32),
    i: int,
) -> (u32, u32, u32, u32, u32) {
    let (a, b, c, d, e) = s;
    let temp = spec_rotl(a, 5).wrapping_add(spec_round_f(i, b, c, d)).wrapping_add(
        e,
    ).wrapping_add(spec_round_k(i)).wrapping_add(spec_schedule(block, i));
    (temp, a, spec_rotl(b, 30), c, d)
}

/// The registers after the first `i` of the 80 rounds.
pub open spec fn spec_rounds(
    block: Seq<u8>,
    s: (u32, u32, u32, u32, u32),
    i: int,
) -> (u32, u32, u32, u32, u32)
    decreases i,
{
    if i <= 0 {
        s
    } else {
        spec_round(block, spec_rounds(block, s, i - 1), i - 1)
    }
}

/// One compression step: run the 80 rounds and accumulate into the
/// running hash state.
pub open spec fn spec_process_block(
    h: (u32, u32, u32, u32, u32),
    block: Seq<u8>,
) -> (u32, u32, u32, u32, u32)
    recommends
        block.len() == 64,
{
    let (a, b, c, d, e) = spec_rounds(block, h, 80);
    (
        h.0.wrapping_add(a),
        h.1.wrapping_add(b),
        h.2.wrapping_add(c),
        h.3.wrapping_add(d),
        h.4.wrapping_add(e),
    )
}

/// The fixed initial hash state.
pub open spec fn spec_iv() -> (u32, u32, u32, u32, u32) {
    (0x6745_2301u32, 0xEFCD_AB89u32, 0x98BA_DCFEu32, 0x1032_5476u32, 0xC3D2_E1F0u32)
}

/// Hash state after compressing a whole number of 64-byte blocks.
pub open spec fn spec_hash_blocks(msg: Seq<u8>) -> (u32, u32, u32, u32, u32)
    recommends
        msg.len() % 64 == 0,
    decreases msg.len(),
{
    if msg.len() < 64 {
        spec_iv()
    } else {
        spec_process_block(
            spec_hash_blocks(msg.take(msg.len() - 64)),
            msg.skip(msg.len() - 64),
        )
    }
}

/// Number of zero bytes between the `0x80` byte and the length field,
/// chosen so the padded message is a whole number of 64-byte blocks.
pub open spec fn spec_pad_zeros(len: nat) -> nat {
    ((119 - (len % 64)) % 64) as nat
}

/// A 64-bit value as eight big-endian bytes.
pub open spec fn spec_u64_bytes(bits: u64) -> Seq<u8> {
    seq![
        ((bits / 0x100_0000_0000_0000) % 0x100) as u8,
        ((bits / 0x1_0000_0000_0000) % 0x100) as u8,
        ((bits / 0x100_0000_0000) % 0x100) as u8,
        ((bits / 0x1_0000_0000) % 0x100) as u8,
        ((bits / 0x100_0000) % 0x100) as u8,
        ((bits / 0x1_0000) % 0x100) as u8,
        ((bits / 0x100) % 0x100) as u8,
        (bits % 0x100) as u8,
    ]
}

/// The 8-byte big-endian bit length of a message of `len` bytes.
pub open spec fn spec_len_bytes(len: nat) -> Seq<u8>
    recommends
        8 * len <= u64::MAX,
{
    spec_u64_bytes((8 * len) as u64)
}

/// The padding appended to a message of `len` bytes: `0x80`, zeros,
/// then the bit length.
pub open spec fn spec_padding(len: nat) -> Seq<u8> {
    seq![0x80u8] + Seq::new(spec_pad_zeros(len), |i: int| 0u8) + spec_len_bytes(len)
}

/// The five digest words of a message.
pub open spec fn spec_digest_words(msg: Seq<u8>) -> (u32, u32, u32, u32, u32) {
    spec_hash_blocks(msg + spec_padding(msg.len()))
}

/// A 32-bit word as four big-endian bytes.
pub open spec fn spec_word_bytes(w: u32) -> Seq<u8> {
    seq![
        ((w / 0x100_0000) % 0x100) as u8,
        ((w / 0x1_0000) % 0x100) as u8,
        ((w / 0x100) % 0x100) as u8,
        (w % 0x100) as u8,
    ]
}

/// The 20-byte SHA-1 digest of a message.
pub open spec fn spec_sha1(msg: Seq<u8>) -> Seq<u8> {
    let (h0, h1, h2, h3, h4) = spec_digest_words(msg);
    spec_word_bytes(h0) + spec_word_bytes(h1) + spec_word_bytes(h2) + spec_word_bytes(h3)
        + spec_word_bytes(h4)
}

fn push_u64_be(out: &mut Vec<u8>, x: u64)
    ensures
        final(out)@ == old(out)@ + spec_u64_bytes(x),
{
    out.push(((x / 0x100_0000_0000_0000) % 0x100) as u8);
    out.push(((x / 0x1_0000_0000_0000) % 0x100) as u8);
    out.push(((x / 0x100_0000_0000) % 0x100) as u8);
    out.push(((x / 0x1_0000_0000) % 0x100) as u8);
    out.push(((x / 0x100_0000) % 0x100) as u8);
    out.push(((x / 0x1_0000) % 0x100) as u8);
    out.push(((x / 0x100) % 0x100) as u8);
    out.push((x % 0x100) as u8);
    proof {
        assert(final(out)@ =~= old(out)@ + spec_u64_bytes(x));
    }
}

fn push_u32_be(out: &mut Vec<u8>, w: u32)
    ensures
        final(out)@ == old(out)@ + spec_word_bytes(w),
{
    out.push(((w / 0x100_0000) % 0x100) as u8);
    out.push(((w / 0x1_0000) % 0x100) as u8);
    out.push(((w / 0x100) % 0x100) as u8);
    out.push((w % 0x100) as u8);
    proof {
        assert(final(out)@ =~= old(out)@ + spec_word_bytes(w));
    }
}

/// Largest message accepted: the bit length must fit the 8-byte
/// length field.
pub open spec fn max_message_len() -> nat {
    0x1FFF_FFFF_FFFF_FFFFnat
}

/// Streaming SHA-1 state: the running hash, the current partial block,
/// and the byte count, plus a ghost record of every byte fed so far.
pub struct Sha1 {
    h0: u32,
    h1: u32,
    h2: u32,
    h3: u32,
    h4: u32,
    block: Vec<u8>,
    total_len: u64,
    fed: Ghost<Seq<u8>>,
}

impl Sha1 {
    /// All bytes fed so far.
    pub closed spec fn bytes(self) -> Seq<u8> {
        self.fed@
    }

    /// The running state matches the bytes fed: whole blocks are
    /// compressed into the hash words and the tail sits in `block`.
    pub closed spec fn wf(self) -> bool {
        let m = self.fed@;
        &&& m.len() <= max_message_len()
        &&& self.total_len == m.len()
        &&& self.block@.len() == m.len() % 64
        &&& self.block@ == m.skip(m.len() - (m.len() % 64))
        &&& (self.h0, self.h1, self.h2, self.h3, self.h4) == spec_hash_blocks(
            m.take(m.len() - (m.len() % 64)),
        )
    }

    /// A fresh hash over the empty message.
    pub fn new() -> (r: Sha1)
        ensures
            r.wf(),
            r.bytes() == Seq::<u8>::empty(),
    {
        let r = Sha1 {
            h0: 0x6745_2301,
            h1: 0xEFCD_AB89,
            h2: 0x98BA_DCFE,
            h3: 0x1032_5476,
            h4: 0xC3D2_E1F0,
            block: Vec::new(),
            total_len: 0,
            fed: Ghost(Seq::empty()),
        };
        proof {
            assert(r.fed@.skip(0) =~= Seq::<u8>::empty());
            assert(r.fed@.take(0) =~= Seq::<u8>::empty());
        }
        r
    }

    /// Compresses the full 64-byte pending block into the hash words.
    /// Only the five hash words change.
    fn process_block(&mut self)
        requires
            old(self).block@.len() == 64,
        ensures
            (final(self).h0, final(self).h1, final(self).h2, final(self).h3, final(self).h4)
                == spec_process_block(
                (old(self).h0, old(self).h1, old(self).h2, old(self).h3, old(self).h4),
                old(self).block@,
            ),
            final(self).block == old(self).block,
            final(self).total_len == old(self).total_len,
            final(self).fed == old(self).fed,
    {
        let ghost blk = self.block@;
        let ghost h_init = (self.h0, self.h1, self.h2, self.h3, self.h4);

        // message schedule
        let mut w: Vec<u32> = Vec::new();
        let mut i: usize = 0;
        while i < 16
            invariant
                i <= 16,
                blk == self.block@,
                blk.len() == 64,
                w@.len() == i,
                forall|j: int| 0 <= j < i ==> w@[j] == spec_schedule(blk, j),
            decreases 16 - i,
        {
            let word = (self.block[4 * i] as u32) * 0x100_0000 + (self.block[4 * i + 1] as u32)
                * 0x1_0000 + (self.block[4 * i + 2] as u32) * 0x100 + (self.block[4 * i
                + 3] as u32);
            w.push(word);
            i = i + 1;
        }
        while i < 80
            invariant
                16 <= i <= 80,
                blk == self.block@,
                blk.len() == 64,
                w@.len() == i,
                forall|j: int| 0 <= j < i ==> w@[j] == spec_schedule(blk, j),
            decreases 80 - i,
        {
            let mixed = w[i - 3] ^ w[i - 8] ^ w[i - 14] ^ w[i - 16];
            let word = rotl(mixed, 1);
            w.push(word);
            proof {
                let ii = i as int;
                assert(w@[ii - 3] == spec_schedule(blk, ii - 3));
                assert(w@[ii - 8] == spec_schedule(blk, ii - 8));
                assert(w@[ii - 14] == spec_schedule(blk, ii - 14));
                assert(w@[ii - 16] == spec_schedule(blk, ii - 16));
                assert(mixed == spec_schedule(blk, ii - 3) ^ spec_schedule(blk, ii - 8)
                    ^ spec_schedule(blk, ii - 14) ^ spec_schedule(blk, ii - 16));
                assert(word == spec_rotl(mixed, 1));
                assert(spec_schedule(blk, ii) == spec_rotl(mixed, 1));
                assert(w@[ii] == spec_schedule(blk, ii));
            }
            i = i + 1;
        }

        // the 80 rounds
        let mut a = self.h0;
        let mut b = self.h1;
        let mut c = self.h2;
        let mut d = self.h3;
        let mut e = self.h4;
        let mut round: usize = 0;
        while round < 80
            invariant
                round <= 80,
                blk == self.block@,
                blk.len() == 64,
                w@.len() == 80,
                forall|j: int| 0 <= j < 80 ==> w@[j] == spec_schedule(blk, j),
                (a, b, c, d, e) == spec_rounds(blk, h_init, round as int),
                h_init == (self.h0, self.h1, self.h2, self.h3, self.h4),
            decreases 80 - round,
        {
            let f: u32;
            let k: u32;
            if round < 20 {
                f = (b & c) | ((!b) & d);
                k = 0x5A82_7999;
            } else if round < 40 {
                f = b ^ c ^ d;
                k = 0x6ED9_EBA1;
            } else if round < 60 {
                f = (b & c) | (b & d) | (c & d);
                k = 0x8F1B_BCDC;
            } else {
                f = b ^ c ^ d;
                k = 0xCA62_C1D6;
            }
            let temp = rotl(a, 5).wrapping_add(f).wrapping_add(e).wrapping_add(k).wrapping_add(
                w[round],
            );
            e = d;
            d = c;
            c = rotl(b, 30);
            b = a;
            a = temp;
            round = round + 1;
            proof {
                assert((a, b, c, d, e) == spec_round(
                    blk,
                    spec_rounds(blk, h_init, round - 1),
                    round - 1,
                ));
            }
        }

        self.h0 = self.h0.wrapping_add(a);
        self.h1 = self.h1.wrapping_add(b);
        self.h2 = self.h2.wrapping_add(c);
        self.h3 = self.h3.wrapping_add(d);
        self.h4 = self.h4.wrapping_add(e);
    }

    /// Feeds `data` into the hash.
    pub fn update(&mut self, data: &[u8])
        requires
            old(self).wf(),
            old(self).bytes().len() + data@.len() <= max_message_len(),
        ensures
            final(self).wf(),
            final(self).bytes() == old(self).bytes() + data@,
    {
        let ghost m0 = self.fed@;
        let mut i: usize = 0;
        while i < data.len()
            invariant
                self.wf(),
                i <= data@.len(),
                m0.len() + data@.len() <= max_message_len(),
                self.bytes() == m0 + data@.take(i as int),
            decreases data@.len() - i,
        {
            let ghost m_prev = self.fed@;
            let b = data[i];
            self.block.push(b);
            self.total_len = self.total_len + 1;
            proof {
                self.fed@ = self.fed@.push(b);
            }
            let ghost m = self.fed@;
            proof {
                assert(m == m_prev.push(b));
                assert(m.len() == m_prev.len() + 1);
                vstd::arithmetic::div_mod::lemma_fundamental_div_mod(m_prev.len() as int, 64);
                vstd::arithmetic::div_mod::lemma_fundamental_div_mod(m.len() as int, 64);
            }
            if self.block.len() == 64 {
                proof {
                    // the previous tail was 63 bytes, so the new length is a
                    // multiple of 64
                    assert(m_prev.len() % 64 == 63);
                    assert((m_prev.len() + 1) % 64 == 0) by {
                        vstd::arithmetic::div_mod::lemma_mod_adds(
                            m_prev.len() as int,
                            1,
                            64,
                        );
                    }
                    assert(m.len() % 64 == 0);
                    assert(m.take(m.len() - 64) =~= m_prev.take(
                        m_prev.len() - (m_prev.len() % 64),
                    ));
                    assert(m.skip(m.len() - 64) =~= self.block@);
                }
                self.process_block();
                self.block.clear();
                proof {
                    assert(m.len() >= 64);
                    assert(m.take(m.len() as int) =~= m);
                    // one unfolding of spec_hash_blocks at a block boundary
                    assert(spec_hash_blocks(m) == spec_process_block(
                        spec_hash_blocks(m.take(m.len() - 64)),
                        m.skip(m.len() - 64),
                    ));
                    assert(m.skip(m.len() as int) =~= Seq::<u8>::empty());
                    assert(self.block@ =~= m.skip(m.len() - (m.len() % 64)));
                    assert(m.take(m.len() - (m.len() % 64)) =~= m);
                }
            } else {
                proof {
                    assert(m_prev.len() % 64 < 63);
                    assert((m_prev.len() + 1) % 64 == m_prev.len() % 64 + 1) by {
                        vstd::arithmetic::div_mod::lemma_mod_adds(
                            m_prev.len() as int,
                            1,
                            64,
                        );
                    }
                    assert(m.take(m.len() - (m.len() % 64)) =~= m_prev.take(
                        m_prev.len() - (m_prev.len() % 64),
                    ));
                    assert(self.block@ =~= m.skip(m.len() - (m.len() % 64)));
                }
            }
            i = i + 1;
            proof {
                assert(self.bytes() =~= m0 + data@.take(i as int));
            }
        }
        proof {
            assert(data@.take(data@.len() as int) =~= data@);
        }
    }

    /// Pads the message and returns its 20-byte digest. The state is
    /// consumed: it is not specified for further use.
    #[verifier::rlimit(60)]
    pub fn finalize(&mut self) -> (digest: Vec<u8>)
        requires
            old(self).wf(),
        ensures
            digest@ == spec_sha1(old(self).bytes()),
            digest@.len() == 20,
    {
        let ghost m = self.fed@;
        let ghost big_l = m.len() as int;
        let ghost r = big_l % 64;
        let ghost z = spec_pad_zeros(m.len()) as int;
        let ghost padded = m + spec_padding(m.len());
        let ghost prefix_len = big_l - r;

        proof {
            vstd::arithmetic::div_mod::lemma_fundamental_div_mod(big_l, 64);
            assert(padded.len() == big_l + 1 + z + 8);
            if r < 56 {
                assert(z == 55 - r);
            } else {
                assert(z == 119 - r);
            }
        }

        self.block.push(0x80);
        proof {
            assert(self.block@ =~= padded.subrange(prefix_len, prefix_len + r + 1));
        }

        // `done` bytes of the padded message are already compressed into
        // the hash words; the pending block continues from there.
        let ghost mut done = prefix_len;
        proof {
            assert(m.take(prefix_len) =~= padded.take(prefix_len));
        }

        if self.block.len() > 56 {
            // no room for the length field: fill this block, compress it,
            // and start a fresh one
            proof {
                assert(r >= 56);
            }
            while self.block.len() < 64
                invariant
                    r + 1 <= self.block@.len() <= 64,
                    56 <= r < 64,
                    done == prefix_len == big_l - r,
                    big_l == m.len(),
                    r == big_l % 64,
                    z == 119 - r,
                    padded == m + spec_padding(m.len()),
                    padded.len() == big_l + 9 + z,
                    self.block@ == padded.subrange(done, done + self.block@.len()),
                    self.total_len == m.len(),
                    m.len() <= max_message_len(),
                    (self.h0, self.h1, self.h2, self.h3, self.h4) == spec_hash_blocks(
                        padded.take(done),
                    ),
                    self.fed@ == m,
                decreases 64 - self.block@.len(),
            {
                proof {
                    assert(padded[done + self.block@.len()] == 0);
                }
                self.block.push(0);
                proof {
                    assert(self.block@ =~= padded.subrange(done, done + self.block@.len()));
                }
            }
            proof {
                assert(self.block@ =~= padded.take(done + 64).skip(done));
                assert(padded.take(done + 64).take(done) =~= padded.take(done));
            }
            self.process_block();
            self.block.clear();
            proof {
                // one unfolding of spec_hash_blocks at the new boundary
                assert(spec_hash_blocks(padded.take(done + 64)) == spec_process_block(
                    spec_hash_blocks(padded.take(done + 64).take(done)),
                    padded.take(done + 64).skip(done),
                ));
                done = done + 64;
                assert((self.h0, self.h1, self.h2, self.h3, self.h4) == spec_hash_blocks(
                    padded.take(done),
                ));
                assert(self.block@ =~= padded.subrange(done, done + self.block@.len()));
            }
        }

        proof {
            assert(padded.len() == done + 64);
            assert(self.block@.len() <= 56);
        }

        while self.block.len() < 56
            invariant
                self.block@.len() <= 56,
                big_l == m.len(),
                padded == m + spec_padding(m.len()),
                padded.len() == done + 64,
                done + 56 + 8 == padded.len(),
                forall|j: int|
                    done + self.block@.len() <= j < done + 56 ==> padded[j] == 0,
                self.block@ == padded.subrange(done, done + self.block@.len()),
                self.total_len == m.len(),
                m.len() <= max_message_len(),
                (self.h0, self.h1, self.h2, self.h3, self.h4) == spec_hash_blocks(
                    padded.take(done),
                ),
                self.fed@ == m,
            decreases 56 - self.block@.len(),
        {
            self.block.push(0);
            proof {
                assert(self.block@ =~= padded.subrange(done, done + self.block@.len()));
            }
        }

        // the 8-byte big-endian bit length
        let bits: u64 = self.total_len * 8;
        proof {
            assert(spec_len_bytes(m.len()) == spec_u64_bytes(bits));
            assert(forall|k: int|
                0 <= k < 8 ==> padded[done + 56 + k] == spec_len_bytes(m.len())[k]);
        }
        push_u64_be(&mut self.block, bits);
        proof {
            assert(self.block@ =~= padded.skip(done));
            assert(self.block@ =~= padded.take(done + 64).skip(done));
            assert(padded.take(done + 64).take(done) =~= padded.take(done));
        }
        self.process_block();
        proof {
            assert(spec_hash_blocks(padded.take(done + 64)) == spec_process_block(
                spec_hash_blocks(padded.take(done + 64).take(done)),
                padded.take(done + 64).skip(done),
            ));
            assert(padded.take(done + 64) =~= padded);
            assert((self.h0, self.h1, self.h2, self.h3, self.h4) == spec_digest_words(m));
        }

        let mut digest: Vec<u8> = Vec::new();
        push_u32_be(&mut digest, self.h0);
        push_u32_be(&mut digest, self.h1);
        push_u32_be(&mut digest, self.h2);
        push_u32_be(&mut digest, self.h3);
        push_u32_be(&mut digest, self.h4);
        proof {
            assert(digest@ =~= spec_sha1(m));
        }
        digest
    }
}

} // verus!
