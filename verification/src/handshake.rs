//! HTTP Upgrade negotiation: finding the end of an HTTP request,
//! recognising a WebSocket upgrade request, deriving the accept key
//! (SHA-1 + base64 over the client key and the fixed GUID), and
//! building the two fixed responses.
//!
//! Header matching is deliberately simple, as the server it serves is:
//! the request must contain a header line that is exactly
//! `Upgrade: websocket` (case- and form-sensitive) and a line beginning
//! with `Sec-WebSocket-Key:`; the key is the rest of that line, trimmed
//! of ASCII whitespace.

use vstd::prelude::*;
use vstd::string::StringSliceAdditionalSpecFns;

verus! {

/// The fixed WebSocket GUID appended to the client key.
pub open spec fn spec_ws_guid() -> Seq<u8> {
    ("258EAFA5-E914-47DA-95CA-C5AB0DC85B11").spec_bytes()
}

/// The header line that marks an upgrade request.
pub open spec fn spec_upgrade_needle() -> Seq<u8> {
    ("Upgrade: websocket").spec_bytes()
}

/// The prefix of the header line that carries the client key.
pub open spec fn spec_key_prefix() -> Seq<u8> {
    ("Sec-WebSocket-Key:").spec_bytes()
}

/// The fixed response to a plain (non-upgrade) HTTP request.
pub open spec fn spec_plain_response() -> Seq<u8> {
    (
    "HTTP/1.1 200 OK\r\nContent-Type: text/plain\r\nContent-Length: 5\r\nConnection: keep-alive\r\n\r\nHello"
    ).spec_bytes()
}

/// Everything of the 101 response before the accept value.
pub open spec fn spec_upgrade_response_prefix() -> Seq<u8> {
    (
    "HTTP/1.1 101 Switching Protocols\r\nUpgrade: websocket\r\nConnection: Upgrade\r\nSec-WebSocket-Accept: "
    ).spec_bytes()
}

/// The 101 response carrying a given accept value.
pub open spec fn spec_upgrade_response(accept: Seq<u8>) -> Seq<u8> {
    spec_upgrade_response_prefix() + accept + ("\r\n\r\n").spec_bytes()
}

proof fn lemma_guid_len()
    ensures
        spec_ws_guid().len() == 36,
{
    reveal_strlit("258EAFA5-E914-47DA-95CA-C5AB0DC85B11");
    assert(vstd::utf8::is_ascii_chars(("258EAFA5-E914-47DA-95CA-C5AB0DC85B11")@));
    vstd::utf8::is_ascii_chars_encode_utf8(("258EAFA5-E914-47DA-95CA-C5AB0DC85B11")@);
}

proof fn lemma_needle_lens()
    ensures
        spec_upgrade_needle().len() == 18,
        spec_key_prefix().len() == 18,
{
    reveal_strlit("Upgrade: websocket");
    assert(vstd::utf8::is_ascii_chars(("Upgrade: websocket")@));
    vstd::utf8::is_ascii_chars_encode_utf8(("Upgrade: websocket")@);
    reveal_strlit("Sec-WebSocket-Key:");
    assert(vstd::utf8::is_ascii_chars(("Sec-WebSocket-Key:")@));
    vstd::utf8::is_ascii_chars_encode_utf8(("Sec-WebSocket-Key:")@);
}

/// The ASCII whitespace bytes stripped from the client key.
pub open spec fn is_ascii_whitespace(b: u8) -> bool {
    b == 9 || b == 10 || b == 11 || b == 12 || b == 13 || b == 32
}

/// `s` without leading ASCII whitespace.
pub open spec fn spec_trim_start(s: Seq<u8>) -> Seq<u8>
    decreases s.len(),
{
    if s.len() > 0 && is_ascii_whitespace(s[0]) {
        spec_trim_start(s.skip(1))
    } else {
        s
    }
}

/// `s` without trailing ASCII whitespace.
pub open spec fn spec_trim_end(s: Seq<u8>) -> Seq<u8>
    decreases s.len(),
{
    if s.len() > 0 && is_ascii_whitespace(s[s.len() - 1]) {
        spec_trim_end(s.take(s.len() - 1))
    } else {
        s
    }
}

/// `s` without leading and trailing ASCII whitespace.
pub open spec fn spec_trim(s: Seq<u8>) -> Seq<u8> {
    spec_trim_end(spec_trim_start(s))
}

/// The accept value owed for a client key: base64 of the SHA-1 digest
/// of the trimmed key followed by the fixed GUID.
pub open spec fn spec_accept_key(key: Seq<u8>) -> Seq<u8> {
    crate::base64::spec_base64(crate::sha1::spec_sha1(spec_trim(key) + spec_ws_guid()))
}

/// Position of the first `\r\n\r\n` at or after `i`, the end of the
/// HTTP headers.
pub open spec fn spec_find_http_end(req: Seq<u8>, i: int) -> Option<int>
    recommends
        0 <= i,
    decreases req.len() - i,
{
    if i < 0 || i + 4 > req.len() {
        None
    } else if req[i] == 13 && req[i + 1] == 10 && req[i + 2] == 13 && req[i + 3] == 10 {
        Some(i)
    } else {
        spec_find_http_end(req, i + 1)
    }
}

/// A header line starts at `i`: at the very start of the request or
/// right after a `\r\n`.
pub open spec fn line_starts_at(req: Seq<u8>, i: int) -> bool {
    i == 0 || (i >= 2 && req[i - 2] == 13 && req[i - 1] == 10)
}

/// A header line that is exactly `Upgrade: websocket` starts at `i`.
pub open spec fn upgrade_line_at(req: Seq<u8>, i: int) -> bool {
    let n = spec_upgrade_needle().len() as int;
    &&& 0 <= i
    &&& i + n <= req.len()
    &&& line_starts_at(req, i)
    &&& req.subrange(i, i + n) == spec_upgrade_needle()
    &&& (i + n == req.len() || (i + n + 2 <= req.len() && req[i + n] == 13 && req[i + n + 1]
        == 10))
}

/// The request contains a header line that is exactly
/// `Upgrade: websocket`.
pub open spec fn has_upgrade_line(req: Seq<u8>) -> bool {
    exists|i: int| upgrade_line_at(req, i)
}

/// A header line beginning with `Sec-WebSocket-Key:` starts at `i`.
pub open spec fn key_line_at(req: Seq<u8>, i: int) -> bool {
    let n = spec_key_prefix().len() as int;
    &&& 0 <= i
    &&& i + n <= req.len()
    &&& line_starts_at(req, i)
    &&& req.subrange(i, i + n) == spec_key_prefix()
}

/// Position of the first key line at or after `i`.
pub open spec fn spec_find_key_line(req: Seq<u8>, i: int) -> Option<int>
    recommends
        0 <= i,
    decreases req.len() - i,
{
    if i < 0 || i >= req.len() || i + spec_key_prefix().len() > req.len() {
        None
    } else if key_line_at(req, i) {
        Some(i)
    } else {
        spec_find_key_line(req, i + 1)
    }
}

/// End of the header line running from `j`: the first `\r\n` at or
/// after `j`, or the end of the request.
pub open spec fn spec_line_end(req: Seq<u8>, j: int) -> int
    recommends
        0 <= j <= req.len(),
    decreases req.len() - j,
{
    if j < 0 || j + 2 > req.len() {
        req.len() as int
    } else if req[j] == 13 && req[j + 1] == 10 {
        j
    } else {
        spec_line_end(req, j + 1)
    }
}

/// The trimmed value of the first `Sec-WebSocket-Key:` line, if any.
pub open spec fn spec_key_value(req: Seq<u8>) -> Option<Seq<u8>> {
    match spec_find_key_line(req, 0) {
        None => None,
        Some(i) => {
            let vstart = i + spec_key_prefix().len() as int;
            Some(spec_trim(req.subrange(vstart, spec_line_end(req, vstart))))
        },
    }
}

/// The trimmed client key of an upgrade request: present exactly when
/// the request has the `Upgrade: websocket` line and a key line.
pub open spec fn spec_upgrade_key(req: Seq<u8>) -> Option<Seq<u8>> {
    if has_upgrade_line(req) {
        spec_key_value(req)
    } else {
        None
    }
}

/// Position of the first `\r\n\r\n` in the request, the end of the
/// HTTP headers; `None` while the buffer does not yet hold one.
pub fn find_http_end(request: &[u8]) -> (r: Option<usize>)
    ensures
        match r {
            Some(p) => spec_find_http_end(request@, 0) == Some(p as int) && p + 4
                <= request@.len(),
            None => spec_find_http_end(request@, 0) is None,
        },
{
    let n = request.len();
    let mut i: usize = 0;
    while n - i >= 4
        invariant
            n == request@.len(),
            0 <= i <= n,
            spec_find_http_end(request@, 0) == spec_find_http_end(request@, i as int),
        decreases n - i,
    {
        if request[i] == 13 && request[i + 1] == 10 && request[i + 2] == 13 && request[i + 3]
            == 10 {
            return Some(i);
        }
        i = i + 1;
    }
    None
}

/// Whether `pat` occurs in `data` starting at `i`.
fn matches_at(data: &[u8], i: usize, pat: &[u8]) -> (r: bool)
    requires
        i + pat@.len() <= data@.len(),
    ensures
        r == (data@.subrange(i as int, i + pat@.len()) == pat@),
{
    let n = data.len();
    let m = pat.len();
    let mut k: usize = 0;
    while k < m
        invariant
            n == data@.len(),
            m == pat@.len(),
            i + m <= n,
            0 <= k <= m,
            forall|j: int| 0 <= j < k ==> data@[i + j] == pat@[j],
        decreases m - k,
    {
        if data[i + k] != pat[k] {
            proof {
                assert(data@.subrange(i as int, i + pat@.len())[k as int] != pat@[k as int]);
            }
            return false;
        }
        k = k + 1;
    }
    proof {
        assert(data@.subrange(i as int, i + pat@.len()) =~= pat@);
    }
    true
}

/// Whether the request carries a header line that is exactly
/// `Upgrade: websocket`.
pub fn has_upgrade(request: &[u8]) -> (r: bool)
    ensures
        r == has_upgrade_line(request@),
{
    let needle: &[u8] = "Upgrade: websocket".as_bytes();
    proof {
        lemma_needle_lens();
    }
    let nlen = needle.len();
    let n = request.len();
    if n < nlen {
        proof {
            assert(forall|j: int| !upgrade_line_at(request@, j));
        }
        return false;
    }
    let mut i: usize = 0;
    while i <= n - nlen
        invariant
            n == request@.len(),
            nlen == 18,
            nlen <= n,
            needle@ == spec_upgrade_needle(),
            spec_upgrade_needle().len() == 18,
            0 <= i <= n - nlen + 1,
            forall|j: int| 0 <= j < i ==> !upgrade_line_at(request@, j),
        decreases n - i,
    {
        let starts = i == 0 || (i >= 2 && request[i - 2] == 13 && request[i - 1] == 10);
        if starts && matches_at(request, i, needle) {
            let after = i + nlen;
            if after == n || (n - after >= 2 && request[after] == 13 && request[after + 1]
                == 10) {
                proof {
                    assert(upgrade_line_at(request@, i as int));
                }
                return true;
            }
        }
        proof {
            assert(!upgrade_line_at(request@, i as int));
        }
        i = i + 1;
    }
    proof {
        assert(forall|j: int| !upgrade_line_at(request@, j));
    }
    false
}

/// Copies `data[from..to]` out into a fresh vector.
fn copy_range(data: &[u8], from: usize, to: usize) -> (r: Vec<u8>)
    requires
        from <= to <= data@.len(),
    ensures
        r@ == data@.subrange(from as int, to as int),
{
    let mut r: Vec<u8> = Vec::new();
    let mut k: usize = from;
    while k < to
        invariant
            from <= k <= to <= data@.len(),
            r@ == data@.subrange(from as int, k as int),
        decreases to - k,
    {
        r.push(data[k]);
        k = k + 1;
        proof {
            assert(r@ =~= data@.subrange(from as int, k as int));
        }
    }
    r
}

fn is_whitespace_byte(b: u8) -> (r: bool)
    ensures
        r == is_ascii_whitespace(b),
{
    b == 9 || b == 10 || b == 11 || b == 12 || b == 13 || b == 32
}

/// `s` without leading and trailing ASCII whitespace.
pub fn trim_ascii(s: &[u8]) -> (r: Vec<u8>)
    ensures
        r@ == spec_trim(s@),
        r@.len() <= s@.len(),
{
    let n = s.len();
    let mut start: usize = 0;
    proof {
        assert(s@.skip(0) =~= s@);
    }
    while start < n && is_whitespace_byte(s[start])
        invariant
            n == s@.len(),
            0 <= start <= n,
            spec_trim_start(s@) == spec_trim_start(s@.skip(start as int)),
        decreases n - start,
    {
        proof {
            assert(s@.skip(start as int).skip(1) =~= s@.skip(start + 1));
        }
        start = start + 1;
    }
    proof {
        assert(spec_trim_start(s@) == s@.skip(start as int));
    }
    let ghost t = s@.skip(start as int);
    let mut end: usize = n;
    proof {
        assert(t.take(n - start as int) =~= t);
    }
    while end > start && is_whitespace_byte(s[end - 1])
        invariant
            n == s@.len(),
            0 <= start <= end <= n,
            t == s@.skip(start as int),
            spec_trim_end(t) == spec_trim_end(t.take(end - start as int)),
        decreases end,
    {
        proof {
            assert(t.take(end - start as int).take(end - 1 - start as int) =~= t.take(
                end - 1 - start as int,
            ));
            assert(t.take(end - start as int)[end - 1 - start as int] == s@[end - 1]);
        }
        end = end - 1;
    }
    proof {
        assert(spec_trim_end(t.take(end - start as int)) == t.take(end - start as int));
        assert(t.take(end - start as int) =~= s@.subrange(start as int, end as int));
    }
    copy_range(s, start, end)
}

/// The accept value owed for a client key, as ASCII bytes: base64 of
/// the SHA-1 digest of the trimmed key followed by the fixed GUID. The
/// length bound keeps the message within SHA-1's 64-bit bit-length
/// field.
pub fn accept_key_bytes(key: &[u8]) -> (r: Vec<u8>)
    requires
        key@.len() <= 0x1000_0000_0000_0000,
    ensures
        r@ == spec_accept_key(key@),
{
    let mut input = trim_ascii(key);
    let mut guid: Vec<u8> = vstd::slice::slice_to_vec(
        "258EAFA5-E914-47DA-95CA-C5AB0DC85B11".as_bytes(),
    );
    proof {
        lemma_guid_len();
    }
    input.append(&mut guid);
    let mut sha = crate::sha1::Sha1::new();
    sha.update(input.as_slice());
    let digest = sha.finalize();
    proof {
        assert(Seq::<u8>::empty() + input@ =~= input@);
    }
    crate::base64::encode_bytes(digest.as_slice())
}

/// The accept value for a client key, as a string: the base64 form of
/// the SHA-1 digest per `spec_accept_key`.
pub fn compute_accept(key: &[u8]) -> (r: String)
    requires
        key@.len() <= 0x1000_0000_0000_0000,
    ensures
        r@ == spec_accept_key(key@).map_values(|b: u8| b as char),
{
    let bytes = accept_key_bytes(key);
    proof {
        crate::base64::lemma_base64_ascii(
            crate::sha1::spec_sha1(spec_trim(key@) + spec_ws_guid()),
            0,
        );
    }
    let r = crate::base64::ascii_to_string(bytes);
    proof {
        assert(r@ =~= spec_accept_key(key@).map_values(|b: u8| b as char));
    }
    r
}

/// The fixed response to a plain HTTP request.
pub fn plain_response() -> (r: Vec<u8>)
    ensures
        r@ == spec_plain_response(),
{
    vstd::slice::slice_to_vec(
        "HTTP/1.1 200 OK\r\nContent-Type: text/plain\r\nContent-Length: 5\r\nConnection: keep-alive\r\n\r\nHello".as_bytes(),
    )
}

/// The 101 response carrying the given accept value.
fn upgrade_response(accept: &[u8]) -> (r: Vec<u8>)
    ensures
        r@ == spec_upgrade_response(accept@),
{
    let mut r: Vec<u8> = vstd::slice::slice_to_vec(
        "HTTP/1.1 101 Switching Protocols\r\nUpgrade: websocket\r\nConnection: Upgrade\r\nSec-WebSocket-Accept: ".as_bytes(),
    );
    let ghost prefix = r@;
    let mut k: usize = 0;
    while k < accept.len()
        invariant
            0 <= k <= accept@.len(),
            r@ == prefix + accept@.take(k as int),
        decreases accept@.len() - k,
    {
        r.push(accept[k]);
        k = k + 1;
        proof {
            assert(r@ =~= prefix + accept@.take(k as int));
        }
    }
    let mut tail: Vec<u8> = vstd::slice::slice_to_vec("\r\n\r\n".as_bytes());
    r.append(&mut tail);
    proof {
        assert(accept@.take(accept@.len() as int) =~= accept@);
        assert(r@ =~= spec_upgrade_response(accept@));
    }
    r
}

/// The trimmed value of the first `Sec-WebSocket-Key:` line, if any.
fn find_key_value(request: &[u8]) -> (r: Option<Vec<u8>>)
    ensures
        match r {
            Some(k) => spec_key_value(request@) == Some(k@) && k@.len() <= request@.len(),
            None => spec_key_value(request@) is None,
        },
{
    let prefix: &[u8] = "Sec-WebSocket-Key:".as_bytes();
    proof {
        lemma_needle_lens();
    }
    let plen = prefix.len();
    let n = request.len();

    // find the first key line
    let mut i: usize = 0;
    let mut found = false;
    loop
        invariant
            n == request@.len(),
            plen == 18,
            prefix@ == spec_key_prefix(),
            spec_key_prefix().len() == 18,
            0 <= i <= n,
            !found ==> spec_find_key_line(request@, 0) == spec_find_key_line(
                request@,
                i as int,
            ),
            found ==> spec_find_key_line(request@, 0) == Some(i as int) && key_line_at(
                request@,
                i as int,
            ),
        ensures
            found ==> spec_find_key_line(request@, 0) == Some(i as int) && key_line_at(
                request@,
                i as int,
            ) && i + 18 <= n,
            !found ==> spec_find_key_line(request@, 0) is None,
        decreases n + 1 - i,
    {
        if n < plen || i > n - plen {
            proof {
                assert(spec_find_key_line(request@, i as int) is None);
            }
            break;
        }
        let starts = i == 0 || (i >= 2 && request[i - 2] == 13 && request[i - 1] == 10);
        if starts && matches_at(request, i, prefix) {
            found = true;
            proof {
                assert(key_line_at(request@, i as int));
                assert(spec_find_key_line(request@, i as int) == Some(i as int));
            }
            break;
        }
        proof {
            assert(!key_line_at(request@, i as int));
        }
        i = i + 1;
    }

    if !found {
        return None;
    }

    // the value runs from after the prefix to the end of the line
    let vstart = i + plen;
    let mut j: usize = vstart;
    while n - j >= 2 && !(request[j] == 13 && request[j + 1] == 10)
        invariant
            n == request@.len(),
            vstart <= j <= n,
            spec_line_end(request@, vstart as int) == spec_line_end(request@, j as int),
        decreases n - j,
    {
        j = j + 1;
    }
    let vend = if n - j >= 2 {
        j
    } else {
        n
    };
    proof {
        assert(vend as int == spec_line_end(request@, vstart as int));
    }

    let value = copy_range(request, vstart, vend);
    let trimmed = trim_ascii(value.as_slice());
    Some(trimmed)
}

/// Attempts the WebSocket handshake on a complete HTTP request: when
/// the request has the exact `Upgrade: websocket` line and a
/// `Sec-WebSocket-Key:` line, returns the full 101 response carrying
/// the derived accept value; otherwise `None`, and the caller treats
/// the bytes as a plain HTTP request. The length bound keeps the key
/// within SHA-1's 64-bit bit-length field.
pub fn attempt_upgrade(request: &[u8]) -> (r: Option<Vec<u8>>)
    requires
        request@.len() <= 0x1000_0000_0000_0000,
    ensures
        match r {
            Some(resp) => match spec_upgrade_key(request@) {
                Some(k) => resp@ == spec_upgrade_response(spec_accept_key(k)),
                None => false,
            },
            None => spec_upgrade_key(request@) is None,
        },
{
    if !has_upgrade(request) {
        return None;
    }
    let key = match find_key_value(request) {
        Some(k) => k,
        None => {
            return None;
        },
    };
    let accept = accept_key_bytes(key.as_slice());
    Some(upgrade_response(accept.as_slice()))
}

} // verus!
