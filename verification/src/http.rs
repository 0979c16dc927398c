//! Transport multiplexing and the HTTP subset: classify a new connection by
//! its first four bytes, decide what a GET request gets (the status page, a
//! WebSocket upgrade, or an error code), and build the responses. All of it
//! works on plain byte buffers; the reads and writes stay with the caller.

use vstd::prelude::*;
use crate::layout::push_range;
use crate::wire::{spec_dec, u64_to_dec};

verus! {

/// How many bytes of a new connection are sniffed to pick a protocol.
pub const PREFIX_SIZE: usize = 4;

/// The size of the buffer one HTTP request must fit in; a request that
/// fills it completely is treated as oversized.
pub const HTTP_BUF_SIZE: usize = 1024;

/// `"GET "`: the connection speaks HTTP.
pub open spec fn http_prefix() -> Seq<u8> {
    seq![71u8, 69u8, 84u8, 32u8]
}

/// `"SMRT"`: the connection speaks raw SMRT.
pub open spec fn smrt_prefix() -> Seq<u8> {
    seq![83u8, 77u8, 82u8, 84u8]
}

/// What the first bytes of a connection say it speaks.
pub enum Protocol {
    Http,
    Smrt,
    Unknown,
}

/// Pick the protocol from the first four bytes of a connection. Anything
/// but the two known prefixes is a protocol error: the caller drops the
/// connection with no response.
pub fn classify(prefix: &Vec<u8>) -> (r: Protocol)
    requires
        prefix@.len() == PREFIX_SIZE,
    ensures
        r is Http <==> prefix@ == http_prefix(),
        r is Smrt <==> prefix@ == smrt_prefix(),
{
    let b0 = prefix[0];
    let b1 = prefix[1];
    let b2 = prefix[2];
    let b3 = prefix[3];
    proof {
        assert(prefix@ =~= seq![b0, b1, b2, b3]);
    }
    if b0 == 71 && b1 == 69 && b2 == 84 && b3 == 32 {
        assert(prefix@ =~= http_prefix());
        Protocol::Http
    } else if b0 == 83 && b1 == 77 && b2 == 82 && b3 == 84 {
        assert(prefix@ =~= smrt_prefix());
        Protocol::Smrt
    } else {
        proof {
            assert(http_prefix()[0] == 71u8 && http_prefix()[1] == 69u8 && http_prefix()[2]
                == 84u8 && http_prefix()[3] == 32u8);
            assert(smrt_prefix()[0] == 83u8 && smrt_prefix()[1] == 77u8 && smrt_prefix()[2]
                == 82u8 && smrt_prefix()[3] == 84u8);
        }
        Protocol::Unknown
    }
}

/// What one connection does after finishing an HTTP request: a lightweight
/// abuse guard, not real keep-alive.
pub enum GuardAction {
    KeepOpen,
    SetShortTimeout,
    Close,
}

/// Count one handled HTTP request. The first one puts a short read timeout
/// on the connection; the third closes it.
pub fn http_guard_step(handled: u8) -> (r: (u8, GuardAction))
    requires
        handled < 255,
    ensures
        r.0 == handled + 1,
        r.1 is Close <==> handled + 1 >= 3,
        r.1 is SetShortTimeout <==> handled + 1 == 1,
        r.1 is KeepOpen <==> (1 < handled + 1 < 3),
{
    let next = handled + 1;
    if next >= 3 {
        (next, GuardAction::Close)
    } else if next == 1 {
        (next, GuardAction::SetShortTimeout)
    } else {
        (next, GuardAction::KeepOpen)
    }
}

/// The position of the first `b` in `s` at or after `start`, or `s.len()`
/// if there is none.
pub open spec fn spec_find(s: Seq<u8>, b: u8, start: int) -> int
    decreases s.len() - start,
{
    if start < 0 || start >= s.len() {
        s.len() as int
    } else if s[start] == b {
        start
    } else {
        spec_find(s, b, start + 1)
    }
}

/// Find the first `b` in `s` at or after `start`.
fn find_byte(s: &Vec<u8>, b: u8, start: usize) -> (r: usize)
    requires
        start <= s@.len(),
    ensures
        r == spec_find(s@, b, start as int),
        start <= r <= s@.len(),
        r < s@.len() ==> s@[r as int] == b,
{
    proof {
        lemma_spec_find_bounds(s@, b, start as int);
    }
    let n = s.len();
    let mut i = start;
    while i < n
        invariant
            start <= i <= n,
            n == s@.len(),
            spec_find(s@, b, start as int) == spec_find(s@, b, i as int),
        decreases n - i,
    {
        if s[i] == b {
            return i;
        }
        i += 1;
    }
    n
}

/// `spec_find` stays between `start` and the end, and lands on `b`.
pub proof fn lemma_spec_find_bounds(s: Seq<u8>, b: u8, start: int)
    requires
        0 <= start <= s.len(),
    ensures
        start <= spec_find(s, b, start) <= s.len(),
        spec_find(s, b, start) < s.len() ==> s[spec_find(s, b, start)] == b,
    decreases s.len() - start,
{
    if start < s.len() && s[start] != b {
        lemma_spec_find_bounds(s, b, start + 1);
    }
}

/// The request path: the second space-separated word of the request line,
/// or nothing if the request holds no space at all.
pub open spec fn spec_path(s: Seq<u8>) -> Option<Seq<u8>> {
    let i = spec_find(s, 32u8, 0);
    if i == s.len() {
        None
    } else {
        Some(s.subrange(i + 1, spec_find(s, 32u8, i + 1)))
    }
}

/// True when `pat` occurs in `s` at position `i`.
pub open spec fn match_at(s: Seq<u8>, pat: Seq<u8>, i: int) -> bool {
    &&& 0 <= i
    &&& i + pat.len() <= s.len()
    &&& s.subrange(i, i + pat.len()) == pat
}

/// The position of the first occurrence of `pat` in `s` at or after
/// `start`, or `-1` if there is none.
pub open spec fn spec_find_sub(s: Seq<u8>, pat: Seq<u8>, start: int) -> int
    decreases s.len() + 1 - pat.len() - start,
{
    if start < 0 || start + pat.len() > s.len() {
        -1
    } else if match_at(s, pat, start) {
        start
    } else {
        spec_find_sub(s, pat, start + 1)
    }
}

/// Find the first occurrence of `pat` in `s`.
fn find_sub(s: &Vec<u8>, pat: &Vec<u8>) -> (r: Option<usize>)
    requires
        pat@.len() >= 1,
    ensures
        match r {
            Some(i) => i == spec_find_sub(s@, pat@, 0) && match_at(s@, pat@, i as int),
            None => spec_find_sub(s@, pat@, 0) == -1,
        },
{
    let n = s.len();
    let m = pat.len();
    if m > n {
        return None;
    }
    let mut i: usize = 0;
    while i <= n - m
        invariant
            m >= 1,
            m <= n,
            n == s@.len(),
            m == pat@.len(),
            0 <= i <= n - m + 1,
            spec_find_sub(s@, pat@, 0) == spec_find_sub(s@, pat@, i as int),
        decreases n - i,
    {
        let mut k: usize = 0;
        let mut hit = true;
        while k < m
            invariant
                m <= n,
                n == s@.len(),
                m == pat@.len(),
                0 <= i <= n - m,
                0 <= k <= m,
                hit <==> (forall|j: int| 0 <= j < k ==> s@[i + j] == pat@[j]),
            decreases m - k,
        {
            if s[i + k] != pat[k] {
                hit = false;
                k = m;
            } else {
                k += 1;
            }
        }
        if hit {
            proof {
                assert(s@.subrange(i as int, i + pat@.len()) =~= pat@);
            }
            return Some(i);
        }
        proof {
            if match_at(s@, pat@, i as int) {
                assert(forall|j: int|
                    0 <= j < m ==> #[trigger] s@.subrange(i as int, i + m)[j] == s@[i + j]);
                assert(false);
            }
        }
        i += 1;
    }
    proof {
        assert(spec_find_sub(s@, pat@, i as int) == -1);
    }
    None
}

/// `"Sec-WebSocket-Key: "`, the header that must precede the 24-byte
/// WebSocket key.
pub open spec fn ws_key_header() -> Seq<u8> {
    seq![
        83u8, 101u8, 99u8, 45u8, 87u8, 101u8, 98u8, 83u8, 111u8, 99u8, 107u8, 101u8, 116u8,
        45u8, 75u8, 101u8, 121u8, 58u8, 32u8,
    ]
}

fn make_ws_key_header() -> (r: Vec<u8>)
    ensures
        r@ == ws_key_header(),
{
    let r = vec![
        83u8, 101u8, 99u8, 45u8, 87u8, 101u8, 98u8, 83u8, 111u8, 99u8, 107u8, 101u8, 116u8,
        45u8, 75u8, 101u8, 121u8, 58u8, 32u8,
    ];
    assert(r@ =~= ws_key_header());
    r
}

/// How many bytes a WebSocket key holds.
pub const WS_KEY_SIZE: usize = 24;

/// `"/"`.
pub open spec fn root_path() -> Seq<u8> {
    seq![47u8]
}

/// `"/ws"`.
pub open spec fn ws_path() -> Seq<u8> {
    seq![47u8, 119u8, 115u8]
}

/// The fixed status page body.
pub open spec fn index_body_bytes() -> Seq<u8> {
    seq![
        60u8, 104u8, 116u8, 109u8, 108u8, 62u8, 60u8, 98u8, 111u8, 100u8, 121u8, 62u8, 82u8,
        117u8, 110u8, 110u8, 105u8, 110u8, 103u8, 60u8, 47u8, 98u8, 111u8, 100u8, 121u8, 62u8,
        60u8, 47u8, 104u8, 116u8, 109u8, 108u8, 62u8,
    ]
}

/// The body of the status page: a short fixed HTML document.
pub fn index_body() -> (r: Vec<u8>)
    ensures
        r@ == index_body_bytes(),
{
    let r = vec![
        60u8, 104u8, 116u8, 109u8, 108u8, 62u8, 60u8, 98u8, 111u8, 100u8, 121u8, 62u8, 82u8,
        117u8, 110u8, 110u8, 105u8, 110u8, 103u8, 60u8, 47u8, 98u8, 111u8, 100u8, 121u8, 62u8,
        60u8, 47u8, 104u8, 116u8, 109u8, 108u8, 62u8,
    ];
    assert(r@ =~= index_body_bytes());
    r
}

/// The request buffer still ends in untouched zero bytes, so the request
/// was smaller than the buffer.
pub open spec fn well_sized(s: Seq<u8>) -> bool {
    forall|i: int| s.len() - 8 <= i < s.len() ==> s[i] == 0u8
}

/// What a GET request gets.
pub enum HttpAction {
    /// The request (probably) overflowed the buffer: respond `413`, fail.
    TooLarge,
    /// Path `/` or empty: respond `200` with the status page.
    ServeIndex,
    /// Path `/ws` with a key: upgrade to WebSocket with these 24 key bytes.
    WsUpgrade(Vec<u8>),
    /// Path `/ws` without a usable key: respond `400`, fail.
    WsKeyMissing,
    /// No second word in the request: faulty HTTP, fail without response.
    NoPath,
    /// Any other path is an unknown request: respond `413`, keep the
    /// connection.
    UnknownPath,
}

/// Decide what one GET request gets. The request must sit in a full sniff
/// buffer of `HTTP_BUF_SIZE` bytes; a request that reached the buffer's
/// last 8 bytes is oversized.
pub fn http_action(req: &Vec<u8>) -> (r: HttpAction)
    requires
        req@.len() == HTTP_BUF_SIZE,
    ensures
        r is TooLarge <==> !well_sized(req@),
        r is NoPath <==> well_sized(req@) && spec_path(req@) is None,
        r is ServeIndex <==> well_sized(req@) && (spec_path(req@) == Some(root_path())
            || spec_path(req@) == Some(Seq::<u8>::empty())),
        (r is WsUpgrade || r is WsKeyMissing) <==> (well_sized(req@) && spec_path(req@)
            == Some(ws_path())),
        r is UnknownPath <==> well_sized(req@) && (match spec_path(req@) {
            Some(p) => p != root_path() && p != ws_path() && p != Seq::<u8>::empty(),
            None => false,
        }),
        match r {
            HttpAction::WsUpgrade(key) => {
                let p = spec_find_sub(req@, ws_key_header(), 0);
                &&& p >= 0
                &&& p + ws_key_header().len() + WS_KEY_SIZE <= req@.len()
                &&& key@ == req@.subrange(
                    p + ws_key_header().len(),
                    p + ws_key_header().len() + WS_KEY_SIZE,
                )
            },
            HttpAction::WsKeyMissing => {
                let p = spec_find_sub(req@, ws_key_header(), 0);
                p == -1 || p + ws_key_header().len() + WS_KEY_SIZE > req@.len()
            },
            _ => true,
        },
{
    let n = req.len();
    let mut k: usize = n - 8;
    while k < n
        invariant
            n == req@.len(),
            n - 8 <= k <= n,
            forall|j: int| n - 8 <= j < k ==> req@[j] == 0u8,
        decreases n - k,
    {
        if req[k] != 0 {
            return HttpAction::TooLarge;
        }
        k += 1;
    }
    let i = find_byte(req, 32, 0);
    if i == n {
        return HttpAction::NoPath;
    }
    let j = find_byte(req, 32, i + 1);
    let ghost path = req@.subrange(i + 1, j as int);
    proof {
        lemma_spec_find_bounds(req@, 32u8, i as int + 1);
        assert(spec_path(req@) == Some(path));
    }
    let path_len = j - (i + 1);
    if path_len == 0 {
        proof {
            assert(path =~= Seq::<u8>::empty());
        }
        return HttpAction::ServeIndex;
    }
    if path_len == 1 && req[i + 1] == 47 {
        proof {
            assert(path =~= root_path());
        }
        return HttpAction::ServeIndex;
    }
    if path_len == 3 && req[i + 1] == 47 && req[i + 2] == 119 && req[i + 3] == 115 {
        proof {
            assert(path =~= ws_path());
        }
        let header = make_ws_key_header();
        match find_sub(req, &header) {
            Some(p) => {
                if p + header.len() + WS_KEY_SIZE <= n {
                    let mut key: Vec<u8> = Vec::new();
                    push_range(&mut key, req, p + header.len(), WS_KEY_SIZE);
                    HttpAction::WsUpgrade(key)
                } else {
                    HttpAction::WsKeyMissing
                }
            },
            None => HttpAction::WsKeyMissing,
        }
    } else {
        proof {
            assert(path != root_path() && path != Seq::<u8>::empty() && path != ws_path()) by {
                if path.len() == 1 && path == root_path() {
                    assert(path[0] == req@[i + 1]);
                }
                if path.len() == 3 && path == ws_path() {
                    assert(path[0] == req@[i + 1] && path[1] == req@[i + 2] && path[2] == req@[i
                        + 3]);
                }
            }
        }
        HttpAction::UnknownPath
    }
}

/// `"HTTP/1.1 "`.
pub open spec fn http_ver() -> Seq<u8> {
    seq![72u8, 84u8, 84u8, 80u8, 47u8, 49u8, 46u8, 49u8, 32u8]
}

/// `"\r\n"`.
pub open spec fn crlf() -> Seq<u8> {
    seq![13u8, 10u8]
}

/// `"Content-Length: "`.
pub open spec fn content_length_header() -> Seq<u8> {
    seq![
        67u8, 111u8, 110u8, 116u8, 101u8, 110u8, 116u8, 45u8, 76u8, 101u8, 110u8, 103u8, 116u8,
        104u8, 58u8, 32u8,
    ]
}

/// A bare HTTP status response: the status line and an empty header block.
pub open spec fn spec_status_response(code: u16) -> Seq<u8> {
    http_ver() + spec_dec(code as nat) + crlf() + crlf()
}

/// An HTTP response carrying a body, with its length declared.
pub open spec fn spec_data_response(code: u16, body: Seq<u8>) -> Seq<u8> {
    http_ver() + spec_dec(code as nat) + crlf() + content_length_header() + spec_dec(body.len())
        + crlf() + crlf() + body
}

fn make_http_ver() -> (r: Vec<u8>)
    ensures
        r@ == http_ver(),
{
    let r = vec![72u8, 84u8, 84u8, 80u8, 47u8, 49u8, 46u8, 49u8, 32u8];
    assert(r@ =~= http_ver());
    r
}

/// Build a bare status response, e.g. for `400` and `413`.
pub fn http_status_response(code: u16) -> (r: Vec<u8>)
    ensures
        r@ == spec_status_response(code),
{
    let mut r = make_http_ver();
    let digits = u64_to_dec(code as u64);
    let dn = digits.len();
    push_range(&mut r, &digits, 0, dn);
    r.push(13);
    r.push(10);
    r.push(13);
    r.push(10);
    proof {
        assert(digits@.subrange(0, dn as int) =~= digits@);
        assert(r@ =~= spec_status_response(code));
    }
    r
}

/// Build a response carrying a body, e.g. the `200` status page.
pub fn http_data_response(code: u16, body: &Vec<u8>) -> (r: Vec<u8>)
    ensures
        r@ == spec_data_response(code, body@),
{
    let mut r = make_http_ver();
    let digits = u64_to_dec(code as u64);
    let dn = digits.len();
    push_range(&mut r, &digits, 0, dn);
    r.push(13);
    r.push(10);
    let clh = vec![
        67u8, 111u8, 110u8, 116u8, 101u8, 110u8, 116u8, 45u8, 76u8, 101u8, 110u8, 103u8, 116u8,
        104u8, 58u8, 32u8,
    ];
    assert(clh@ =~= content_length_header());
    push_range(&mut r, &clh, 0, 16);
    let body_len = body.len();
    let len_digits = u64_to_dec(body_len as u64);
    let ln = len_digits.len();
    push_range(&mut r, &len_digits, 0, ln);
    r.push(13);
    r.push(10);
    r.push(13);
    r.push(10);
    push_range(&mut r, body, 0, body_len);
    proof {
        assert(digits@.subrange(0, dn as int) =~= digits@);
        assert(clh@.subrange(0, 16) =~= content_length_header());
        assert(len_digits@.subrange(0, ln as int) =~= len_digits@);
        assert(body@.subrange(0, body_len as int) =~= body@);
        assert(r@ =~= spec_data_response(code, body@));
    }
    r
}

} // verus!
