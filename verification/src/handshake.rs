//! The upgrade handshake: scanning the HTTP upgrade request for the
//! `Sec-WebSocket-Key` header, deriving the accept token, and producing the
//! fixed-format `101 Switching Protocols` response.
use vstd::prelude::*;
use crate::frame::WebSocketFrame;

verus! {

/// The SHA-1 digest of a byte sequence; a function of the bytes alone.
pub uninterp spec fn sha1_of(s: Seq<u8>) -> Seq<u8>;

/// The standard base64 text of a byte sequence; a function of the bytes
/// alone.
pub uninterp spec fn base64_of(s: Seq<u8>) -> Seq<char>;

/// Relies on `sha1::Sha1` through the digest traits: the SHA-1 digest
/// depends on the input bytes alone, and is always 20 bytes long.
#[verifier::external_body]
fn sha1_digest(input: &[u8]) -> (r: Vec<u8>)
    ensures
        r@ == sha1_of(input@),
        r@.len() == 20,
{
    let mut h = <sha1::Sha1 as sha1::Digest>::new();
    sha1::Digest::update(&mut h, input);
    sha1::Digest::finalize(h).to_vec()
}

/// Relies on `rustc_serialize::base64::ToBase64` with the `STANDARD`
/// configuration (padded, unbroken lines): the text depends on the input
/// bytes alone.
#[verifier::external_body]
fn base64_encode(input: &[u8]) -> (r: String)
    ensures
        r@ == base64_of(input@),
{
    rustc_serialize::base64::ToBase64::to_base64(input, rustc_serialize::base64::STANDARD)
}

/// The fixed GUID every accept token mixes into the client's key.
pub open spec fn spec_guid_bytes() -> Seq<u8> {
    vstd::utf8::encode_utf8("258EAFA5-E914-47DA-95CA-C5AB0DC85B11"@)
}

/// The accept token owed for a client key: the key bytes with the GUID
/// appended, digested with SHA-1, rendered as base64.
pub open spec fn spec_accept_token(key_bytes: Seq<u8>) -> Seq<char> {
    base64_of(sha1_of(key_bytes + spec_guid_bytes()))
}

/// Derive the accept token from the client key's bytes.
pub fn accept_token(key_bytes: &[u8]) -> (r: String)
    ensures
        r@ == spec_accept_token(key_bytes@),
{
    let mut input: Vec<u8> = vstd::slice::slice_to_vec(key_bytes);
    let guid: &str = "258EAFA5-E914-47DA-95CA-C5AB0DC85B11";
    let mut tail: Vec<u8> = vstd::slice::slice_to_vec(guid.as_bytes());
    input.append(&mut tail);
    let digest = sha1_digest(input.as_slice());
    base64_encode(digest.as_slice())
}

/// Derive the accept token from the client key as text.
pub fn gen_key(key: &String) -> (r: String)
    ensures
        r@ == spec_accept_token(vstd::utf8::encode_utf8(key@)),
{
    accept_token(key.as_str().as_bytes())
}

/// Whether `pat` occurs in `s` at position `i`.
pub open spec fn match_at(s: Seq<u8>, pat: Seq<u8>, i: int) -> bool {
    0 <= i && i + pat.len() <= s.len() && s.subrange(i, i + pat.len()) == pat
}

/// The first position at or after `from` where `pat` occurs in `s`.
pub open spec fn spec_find(s: Seq<u8>, pat: Seq<u8>, from: int) -> Option<int>
    decreases s.len() - from,
{
    if from < 0 || from + pat.len() > s.len() {
        None
    } else if pat.len() == 0 {
        Some(from)
    } else if match_at(s, pat, from) {
        Some(from)
    } else {
        spec_find(s, pat, from + 1)
    }
}

/// Whether `pat` occurs in `s` at position `i`, executably.
fn matches_at(buf: &[u8], pat: &[u8], i: usize) -> (r: bool)
    requires
        i + pat@.len() <= buf@.len(),
    ensures
        r == match_at(buf@, pat@, i as int),
{
    let m = pat.len();
    let total = buf.len();
    let mut j: usize = 0;
    while j < m
        invariant
            m == pat@.len(),
            total == buf@.len(),
            j <= m,
            i + m <= total,
            forall|k: int| 0 <= k < j ==> buf@[i + k] == pat@[k],
        decreases m - j,
    {
        if buf[i + j] != pat[j] {
            proof {
                assert(buf@.subrange(i as int, i + m)[j as int] != pat@[j as int]);
            }
            return false;
        }
        j += 1;
    }
    proof {
        assert(buf@.subrange(i as int, i + m) =~= pat@);
    }
    true
}

/// The first occurrence of `pat` in `buf` at or after `from`, executably.
pub fn find(buf: &[u8], pat: &[u8], from: usize) -> (r: Option<usize>)
    ensures
        match r {
            Some(p) => spec_find(buf@, pat@, from as int) == Some(p as int) && p + pat@.len()
                <= buf@.len(),
            None => spec_find(buf@, pat@, from as int) is None,
        },
{
    let n = buf.len();
    let m = pat.len();
    if from > n || m > n - from {
        proof {
            assert(spec_find(buf@, pat@, from as int) is None);
        }
        return None;
    }
    if m == 0 {
        proof {
            assert(buf@.subrange(from as int, from as int) =~= pat@);
        }
        return Some(from);
    }
    let last = n - m;
    let mut i: usize = from;
    while i <= last
        invariant
            n == buf@.len(),
            m == pat@.len(),
            1 <= m <= n,
            last == n - m,
            from <= i,
            i <= last + 1,
            spec_find(buf@, pat@, from as int) == spec_find(buf@, pat@, i as int),
        decreases last + 1 - i,
    {
        if matches_at(buf, pat, i) {
            return Some(i);
        }
        i += 1;
    }
    proof {
        assert(spec_find(buf@, pat@, i as int) is None);
    }
    None
}

/// The bytes of the header name an upgrade request must carry, colon
/// included.
pub open spec fn spec_key_pattern() -> Seq<u8> {
    vstd::utf8::encode_utf8("Sec-WebSocket-Key:"@)
}

/// The bytes of the header line that marks a request as an upgrade request.
pub open spec fn spec_upgrade_pattern() -> Seq<u8> {
    vstd::utf8::encode_utf8("Upgrade: websocket"@)
}

/// The bytes of the blank line that ends an HTTP request's head.
pub open spec fn spec_crlfcrlf() -> Seq<u8> {
    seq![13u8, 10u8, 13u8, 10u8]
}

/// The first position at or after `i` in `s` that holds no space byte.
pub open spec fn spec_skip_spaces(s: Seq<u8>, i: int) -> int
    decreases s.len() - i,
{
    if 0 <= i < s.len() && s[i] == 32 {
        spec_skip_spaces(s, i + 1)
    } else {
        i
    }
}

/// The value of the `Sec-WebSocket-Key` header in `s`: the bytes after the
/// first occurrence of the header name, spaces skipped, up to the next
/// carriage return. `None` when the header or its line end is missing.
pub open spec fn spec_sec_key(s: Seq<u8>) -> Option<Seq<u8>> {
    match spec_find(s, spec_key_pattern(), 0) {
        None => None,
        Some(p) => {
            let v0 = spec_skip_spaces(s, p + spec_key_pattern().len());
            match spec_find(s, seq![13u8], v0) {
                None => None,
                Some(e) => Some(s.subrange(v0, e)),
            }
        },
    }
}

/// Whether the request's head is complete: it holds the blank line.
pub open spec fn spec_request_complete(s: Seq<u8>) -> bool {
    spec_find(s, spec_crlfcrlf(), 0) is Some
}

/// Whether the request asks for the websocket upgrade.
pub open spec fn spec_is_upgrade(s: Seq<u8>) -> bool {
    spec_find(s, spec_upgrade_pattern(), 0) is Some
}

/// The four bytes of the blank line, executably.
fn crlfcrlf() -> (r: Vec<u8>)
    ensures
        r@ == spec_crlfcrlf(),
{
    let mut r: Vec<u8> = Vec::new();
    r.push(13);
    r.push(10);
    r.push(13);
    r.push(10);
    proof {
        assert(r@ =~= spec_crlfcrlf());
    }
    r
}

/// Whether the request's head is complete, executably.
pub fn request_complete(buf: &[u8]) -> (r: bool)
    ensures
        r == spec_request_complete(buf@),
{
    let pat = crlfcrlf();
    find(buf, pat.as_slice(), 0).is_some()
}

/// Whether the request asks for the websocket upgrade, executably.
pub fn is_upgrade_request(buf: &[u8]) -> (r: bool)
    ensures
        r == spec_is_upgrade(buf@),
{
    let pat: &str = "Upgrade: websocket";
    find(buf, pat.as_bytes(), 0).is_some()
}

/// Extract the `Sec-WebSocket-Key` header's value from the request bytes.
pub fn sec_websocket_key(buf: &[u8]) -> (r: Option<Vec<u8>>)
    ensures
        match r {
            Some(v) => spec_sec_key(buf@) == Some(v@),
            None => spec_sec_key(buf@) is None,
        },
{
    let name: &str = "Sec-WebSocket-Key:";
    let p = match find(buf, name.as_bytes(), 0) {
        Some(p) => p,
        None => {
            return None;
        },
    };
    let n = buf.len();
    let mut v0: usize = p + name.as_bytes().len();
    while v0 < n && buf[v0] == 32
        invariant
            n == buf@.len(),
            v0 <= n,
            spec_skip_spaces(buf@, p as int + spec_key_pattern().len()) == spec_skip_spaces(
                buf@,
                v0 as int,
            ),
        decreases n - v0,
    {
        v0 += 1;
    }
    proof {
        assert(spec_skip_spaces(buf@, v0 as int) == v0 as int);
    }
    let mut cr: Vec<u8> = Vec::new();
    cr.push(13);
    proof {
        assert(cr@ =~= seq![13u8]);
    }
    let e = match find(buf, cr.as_slice(), v0) {
        Some(e) => e,
        None => {
            return None;
        },
    };
    proof {
        assert(v0 <= e) by {
            lemma_find_at_least(buf@, seq![13u8], v0 as int);
        }
    }
    Some(WebSocketFrame::read_payload(buf, v0, e - v0))
}

/// A found position never lies before the search's starting point.
proof fn lemma_find_at_least(s: Seq<u8>, pat: Seq<u8>, from: int)
    ensures
        spec_find(s, pat, from) matches Some(p) ==> from <= p,
    decreases s.len() - from,
{
    if !(from < 0 || from + pat.len() > s.len()) && pat.len() != 0 && !match_at(s, pat, from) {
        lemma_find_at_least(s, pat, from + 1);
    }
}

/// The complete `101 Switching Protocols` response owed for a client key.
pub open spec fn spec_http_response(key_bytes: Seq<u8>) -> Seq<char> {
    "HTTP/1.1 101 Switching Protocols\r\nConnection: Upgrade\r\nSec-WebSocket-Accept: "@
        + spec_accept_token(key_bytes) + "\r\nUpgrade: websocket\r\n\r\n"@
}

/// Build the upgrade response for a client key.
pub fn http_response(key_bytes: &[u8]) -> (r: String)
    ensures
        r@ == spec_http_response(key_bytes@),
{
    let token = accept_token(key_bytes);
    let head = String::from_str(
        "HTTP/1.1 101 Switching Protocols\r\nConnection: Upgrade\r\nSec-WebSocket-Accept: ",
    );
    let mut r = head.concat(token.as_str());
    r.append("\r\nUpgrade: websocket\r\n\r\n");
    r
}

} // verus!
