//! Base64 encoding with the standard alphabet (`A-Z a-z 0-9 + /`),
//! padded with `=` to a multiple of four characters.

use vstd::prelude::*;

verus! {

/// ASCII byte of sextet `n` in the standard base64 alphabet.
pub open spec fn spec_b64_char(n: int) -> u8
    recommends
        0 <= n < 64,
{
    if n < 26 {
        (65 + n) as u8  // 'A'..'Z'
    } else if n < 52 {
        (97 + (n - 26)) as u8  // 'a'..'z'
    } else if n < 62 {
        (48 + (n - 52)) as u8  // '0'..'9'
    } else if n == 62 {
        43u8  // '+'
    } else {
        47u8  // '/'
    }
}

/// Encoding of the bytes of `data` from position `i` on: full 3-byte
/// groups become four alphabet bytes; a trailing group of one or two
/// bytes is padded with `=` (ASCII 61).
pub open spec fn spec_b64_from(data: Seq<u8>, i: int) -> Seq<u8>
    recommends
        0 <= i <= data.len(),
    decreases data.len() - i,
{
    if 0 <= i && i + 3 <= data.len() {
        let n = data[i] * 0x1_0000 + data[i + 1] * 0x100 + data[i + 2];
        seq![
            spec_b64_char(n / 0x4_0000),
            spec_b64_char((n / 0x1000) % 64),
            spec_b64_char((n / 64) % 64),
            spec_b64_char(n % 64),
        ] + spec_b64_from(data, i + 3)
    } else if 0 <= i && i + 2 == data.len() {
        let n = data[i] * 0x1_0000 + data[i + 1] * 0x100;
        seq![
            spec_b64_char(n / 0x4_0000),
            spec_b64_char((n / 0x1000) % 64),
            spec_b64_char((n / 64) % 64),
            61u8,
        ]
    } else if 0 <= i && i + 1 == data.len() {
        let n = data[i] * 0x1_0000;
        seq![spec_b64_char(n / 0x4_0000), spec_b64_char((n / 0x1000) % 64), 61u8, 61u8]
    } else {
        Seq::empty()
    }
}

/// The base64 encoding of `data`, as ASCII bytes.
pub open spec fn spec_base64(data: Seq<u8>) -> Seq<u8> {
    spec_b64_from(data, 0)
}

/// Every byte of a base64 encoding is ASCII.
pub proof fn lemma_base64_ascii(data: Seq<u8>, i: int)
    requires
        0 <= i <= data.len(),
    ensures
        forall|j: int|
            0 <= j < spec_b64_from(data, i).len() ==> spec_b64_from(data, i)[j] < 128,
    decreases data.len() - i,
{
    assert(forall|v: int| 0 <= v < 64 ==> spec_b64_char(v) < 128);
    let s = spec_b64_from(data, i);
    if i + 3 <= data.len() {
        lemma_base64_ascii(data, i + 3);
        let tail = spec_b64_from(data, i + 3);
        let n = data[i] * 0x1_0000 + data[i + 1] * 0x100 + data[i + 2];
        assert(0 <= n < 0x100_0000);
        assert forall|j: int| 0 <= j < s.len() implies s[j] < 128 by {
            if j >= 4 {
                assert(s[j] == tail[j - 4]);
            } else {
                assert(0 <= n / 0x4_0000 < 64);
            }
        }
    } else if i + 2 == data.len() {
        let n = data[i] * 0x1_0000 + data[i + 1] * 0x100;
        assert(0 <= n / 0x4_0000 < 64);
    } else if i + 1 == data.len() {
        let n = data[i] * 0x1_0000;
        assert(0 <= n / 0x4_0000 < 64);
    }
}

fn b64_char(n: u32) -> (r: u8)
    requires
        n < 64,
    ensures
        r == spec_b64_char(n as int),
{
    if n < 26 {
        65 + (n as u8)
    } else if n < 52 {
        97 + (n as u8) - 26
    } else if n < 62 {
        48 + (n as u8) - 52
    } else if n == 62 {
        43
    } else {
        47
    }
}

/// The base64 encoding of `data`, as a byte vector.
pub fn encode_bytes(data: &[u8]) -> (r: Vec<u8>)
    ensures
        r@ == spec_base64(data@),
{
    let mut out: Vec<u8> = Vec::new();
    let mut i: usize = 0;
    proof {
        assert(Seq::<u8>::empty() + spec_b64_from(data@, 0) =~= spec_base64(data@));
    }
    while data.len() - i >= 3
        invariant
            i <= data@.len(),
            out@ + spec_b64_from(data@, i as int) == spec_base64(data@),
        decreases data@.len() - i,
    {
        let ghost i0 = i as int;
        let ghost out0 = out@;
        let n: u32 = (data[i] as u32) * 0x1_0000 + (data[i + 1] as u32) * 0x100 + (data[i
            + 2] as u32);
        out.push(b64_char(n / 0x4_0000));
        out.push(b64_char((n / 0x1000) % 64));
        out.push(b64_char((n / 64) % 64));
        out.push(b64_char(n % 64));
        i = i + 3;
        proof {
            assert(spec_b64_from(data@, i0) == seq![
                spec_b64_char(n as int / 0x4_0000),
                spec_b64_char((n as int / 0x1000) % 64),
                spec_b64_char((n as int / 64) % 64),
                spec_b64_char(n as int % 64),
            ] + spec_b64_from(data@, i0 + 3));
            assert(out@ + spec_b64_from(data@, i as int) =~= out0 + spec_b64_from(data@, i0));
        }
    }
    let ghost i0 = i as int;
    let ghost out0 = out@;
    if data.len() - i == 2 {
        let n: u32 = (data[i] as u32) * 0x1_0000 + (data[i + 1] as u32) * 0x100;
        out.push(b64_char(n / 0x4_0000));
        out.push(b64_char((n / 0x1000) % 64));
        out.push(b64_char((n / 64) % 64));
        out.push(61);
        proof {
            assert(out@ =~= out0 + spec_b64_from(data@, i0));
        }
    } else if data.len() - i == 1 {
        let n: u32 = (data[i] as u32) * 0x1_0000;
        out.push(b64_char(n / 0x4_0000));
        out.push(b64_char((n / 0x1000) % 64));
        out.push(61);
        out.push(61);
        proof {
            assert(out@ =~= out0 + spec_b64_from(data@, i0));
        }
    } else {
        proof {
            assert(spec_b64_from(data@, i0) =~= Seq::<u8>::empty());
            assert(out@ =~= out0 + spec_b64_from(data@, i0));
        }
    }
    out
}

/// Relies on `String::from_utf8`: a vector of ASCII bytes is valid
/// UTF-8 and decodes to the string of exactly those characters.
#[verifier::external_body]
pub(crate) fn ascii_to_string(bytes: Vec<u8>) -> (r: String)
    requires
        forall|i: int| 0 <= i < bytes@.len() ==> bytes@[i] < 128,
    ensures
        r@.len() == bytes@.len(),
        forall|i: int| 0 <= i < bytes@.len() ==> r@[i] == bytes@[i] as char,
{
    String::from_utf8(bytes).unwrap_or_default()
}

/// The base64 encoding of `data`, as a string.
pub fn encode(data: &[u8]) -> (r: String)
    ensures
        r@ == spec_base64(data@).map_values(|b: u8| b as char),
{
    let bytes = encode_bytes(data);
    proof {
        lemma_base64_ascii(data@, 0);
    }
    let r = ascii_to_string(bytes);
    proof {
        assert(r@ =~= spec_base64(data@).map_values(|b: u8| b as char));
    }
    r
}

} // verus!
