//! The LAN remote's server side: the pairing token (18 random bytes, base64url without padding),
//! the pairing URL, which endpoint a request asks for, its query values, and the HTTP responses.
//! Sockets and the player are the caller's.
use vstd::prelude::*;

use base64::Engine;
use rand::RngCore;

use vstd::string::StringSliceAdditionalSpecFns;
use vstd::utf8::{decode_utf8, encode_utf8, valid_utf8};

use crate::lyrics::opt_string_view;
use crate::remote::{extract_token, extract_token_spec, is_authorized, is_authorized_spec};
use crate::text::{
    append_chars, chars_eq, chars_of, contains_seq, copy_range, dec_digits, dec_digits_exec,
    find_exec, index_of_char, index_of_char_exec, lemma_index_of_char, lemma_index_of_char_shift,
    occurs_at, split_char, starts_with, starts_with_exec, string_of,
};

verus! {

// ---------------------------------------------------------------------------------------------
// Percent-encoding
// ---------------------------------------------------------------------------------------------

/// The bytes a URL keeps as they are: ASCII letters, digits, `-`, `.`, `_`, `~`.
pub open spec fn unreserved(b: u8) -> bool {
    (48 <= b <= 57) || (65 <= b <= 90) || (97 <= b <= 122) || b == 45 || b == 46 || b == 95
        || b == 126
}

/// An uppercase hex digit.
pub open spec fn hex_upper(d: u8) -> char {
    if d < 10 {
        (48 + d) as char
    } else {
        (55 + d) as char
    }
}

/// Percent-encoding of bytes: unreserved bytes stay, every other byte becomes `%XX`.
pub open spec fn pct_encode(b: Seq<u8>) -> Seq<char>
    decreases b.len(),
{
    if b.len() == 0 {
        seq![]
    } else {
        (if unreserved(b[0]) {
            seq![b[0] as char]
        } else {
            seq!['%', hex_upper(b[0] >> 4u8), hex_upper(b[0] & 15u8)]
        }) + pct_encode(b.skip(1))
    }
}

/// Percent-encodes a string's UTF-8 bytes (urlencoding's `encode`).
///
/// Trusted: wraps `urlencoding::encode`, which the crate documents (and its source does) as
/// keeping ASCII alphanumerics and `-`, `_`, `.`, `~`, and writing every other byte as `%`
/// and two uppercase hex digits.
#[verifier::external_body]
pub(crate) fn url_encode(s: &str) -> (r: String)
    ensures
        r@ == pct_encode(s.spec_bytes()),
{
    urlencoding::encode(s).into_owned()
}

pub open spec fn hex_val(b: u8) -> Option<u8> {
    if 48 <= b <= 57 {
        Some((b - 48) as u8)
    } else if 65 <= b <= 70 {
        Some((b - 55) as u8)
    } else if 97 <= b <= 102 {
        Some((b - 87) as u8)
    } else {
        None
    }
}

/// Percent-decoding of bytes: `%` and two hex digits become that byte; a `%` not followed by
/// two hex digits stays as it is (with the first digit, if that one is hex), and so does
/// everything else. `+` is not a space.
pub open spec fn pct_decode(b: Seq<u8>) -> Seq<u8>
    decreases b.len(),
{
    if b.len() == 0 {
        seq![]
    } else if b[0] != 37 {
        seq![b[0]] + pct_decode(b.skip(1))
    } else if b.len() < 3 {
        b
    } else {
        match (hex_val(b[1]), hex_val(b[2])) {
            (Some(h), Some(l)) => seq![((h * 16) + l) as u8] + pct_decode(b.skip(3)),
            (Some(_), None) => seq![37u8, b[1]] + pct_decode(b.skip(2)),
            _ => seq![37u8] + pct_decode(b.skip(1)),
        }
    }
}

/// The text a percent-encoded string stands for: `None` when the decoded bytes are not UTF-8.
pub open spec fn url_decode_spec(s: Seq<char>) -> Option<Seq<char>> {
    let d = pct_decode(encode_utf8(s));
    if valid_utf8(d) {
        Some(decode_utf8(d))
    } else {
        None
    }
}

/// Decodes a percent-encoded string (urlencoding's `decode`).
///
/// Trusted: wraps `urlencoding::decode`; its source decodes `%` and two hex digits into a byte,
/// keeps any other byte (a `%` without two hex digits after it included, `+` included), and
/// fails exactly when the result is not UTF-8 (see `pct_decode`).
#[verifier::external_body]
fn url_decode(s: &str) -> (r: Option<String>)
    ensures
        match r {
            Some(t) => url_decode_spec(s@) == Some(t@),
            None => url_decode_spec(s@) is None,
        },
{
    urlencoding::decode(s).ok().map(|c| c.into_owned())
}

// ---------------------------------------------------------------------------------------------
// The pairing token
// ---------------------------------------------------------------------------------------------

/// A character of the URL-safe base64 alphabet (`A-Z a-z 0-9 - _`).
pub open spec fn b64url_char(v: u8) -> char {
    if v < 26 {
        (65 + v) as char
    } else if v < 52 {
        (97 + v - 26) as char
    } else if v < 62 {
        (48 + v - 52) as char
    } else if v == 62 {
        '-'
    } else {
        '_'
    }
}

/// URL-safe base64 without padding: each three bytes make four characters; a last one byte
/// makes two, a last two make three.
pub open spec fn b64url(b: Seq<u8>) -> Seq<char>
    decreases b.len(),
{
    if b.len() == 0 {
        seq![]
    } else if b.len() == 1 {
        seq![b64url_char(b[0] >> 2u8), b64url_char(((b[0] & 3u8) << 4u8) as u8)]
    } else if b.len() == 2 {
        seq![
            b64url_char(b[0] >> 2u8),
            b64url_char((((b[0] & 3u8) << 4u8) | (b[1] >> 4u8)) as u8),
            b64url_char(((b[1] & 15u8) << 2u8) as u8),
        ]
    } else {
        seq![
            b64url_char(b[0] >> 2u8),
            b64url_char((((b[0] & 3u8) << 4u8) | (b[1] >> 4u8)) as u8),
            b64url_char((((b[1] & 15u8) << 2u8) | (b[2] >> 6u8)) as u8),
            b64url_char(b[2] & 63u8),
        ] + b64url(b.skip(3))
    }
}

/// Encodes bytes as URL-safe base64 without padding.
///
/// Trusted: wraps base64's `URL_SAFE_NO_PAD` engine (`Engine::encode`): the URL-safe alphabet
/// of RFC 4648, no `=` padding (see `b64url`).
#[verifier::external_body]
fn b64url_encode(bytes: &[u8]) -> (r: String)
    ensures
        r@ == b64url(bytes@),
{
    base64::engine::general_purpose::URL_SAFE_NO_PAD.encode(bytes)
}

/// Eighteen random bytes.
///
/// Trusted: wraps `rand::thread_rng` and `RngCore::fill_bytes`. The bytes are chance's; only
/// their number is stated.
#[verifier::external_body]
fn random_bytes() -> (r: Vec<u8>)
    ensures
        r@.len() == 18,
{
    let mut bytes = [0u8; 18];
    rand::thread_rng().fill_bytes(&mut bytes);
    bytes.to_vec()
}

/// A URL-safe base64 character.
pub open spec fn url_safe(c: char) -> bool {
    ('A' <= c <= 'Z') || ('a' <= c <= 'z') || ('0' <= c <= '9') || c == '-' || c == '_'
}

proof fn lemma_sextets(x: u8, y: u8, z: u8)
    by (bit_vector)
    ensures
        (x >> 2u8) < 64,
        ((((x & 3u8) << 4u8) | (y >> 4u8)) as u8) < 64,
        ((((y & 15u8) << 2u8) | (z >> 6u8)) as u8) < 64,
        (z & 63u8) < 64,
        (((y & 15u8) << 2u8) as u8) < 64,
        (((x & 3u8) << 4u8) as u8) < 64,
{
}

/// Three bytes at a time, the encoding is four characters each; and every character is from
/// the URL-safe alphabet.
pub proof fn lemma_b64url_shape(b: Seq<u8>)
    ensures
        b.len() % 3 == 0 ==> b64url(b).len() == b.len() / 3 * 4,
        forall|i: int| 0 <= i < b64url(b).len() ==> url_safe(#[trigger] b64url(b)[i]),
    decreases b.len(),
{
    assert forall|v: u8| v < 64 implies url_safe(#[trigger] b64url_char(v)) by {
    }
    if b.len() >= 3 {
        lemma_b64url_shape(b.skip(3));
        lemma_sextets(b[0], b[1], b[2]);
        let head = seq![
            b64url_char(b[0] >> 2u8),
            b64url_char((((b[0] & 3u8) << 4u8) | (b[1] >> 4u8)) as u8),
            b64url_char((((b[1] & 15u8) << 2u8) | (b[2] >> 6u8)) as u8),
            b64url_char(b[2] & 63u8),
        ];
        assert(b64url(b) == head + b64url(b.skip(3)));
        assert forall|i: int| 0 <= i < b64url(b).len() implies url_safe(#[trigger] b64url(b)[i]) by {
            if i >= 4 {
                assert(b64url(b)[i] == b64url(b.skip(3))[i - 4]);
            }
        }
    } else if b.len() == 2 {
        lemma_sextets(b[0], b[1], 0);
    } else if b.len() == 1 {
        lemma_sextets(b[0], 0, 0);
    }
}

/// The token the remote pairs with: the stored one when it is not empty, else a new one (which
/// the caller stores; the flag says so): 18 random bytes, URL-safe base64 without padding.
pub fn get_or_create_token(stored: Option<&str>) -> (r: (String, bool))
    ensures
        stored matches Some(s) ==> (s@.len() > 0 ==> r.0@ == s@ && !r.1),
        !(stored matches Some(s) && s@.len() > 0) ==> r.1 && exists|b: Seq<u8>|
            b.len() == 18 && r.0@ == #[trigger] b64url(b),
{
    if let Some(s) = stored {
        if !s.is_empty() {
            return (string_of(&chars_of(s)), false);
        }
    }
    let bytes = random_bytes();
    let t = b64url_encode(&bytes);
    (t, true)
}

/// A new token is always 24 characters from the URL-safe alphabet.
pub proof fn lemma_new_token_shape(b: Seq<u8>)
    requires
        b.len() == 18,
    ensures
        b64url(b).len() == 24,
        forall|i: int| 0 <= i < 24 ==> url_safe(#[trigger] b64url(b)[i]),
{
    lemma_b64url_shape(b);
}

// ---------------------------------------------------------------------------------------------
// The pairing URL
// ---------------------------------------------------------------------------------------------

pub open spec fn loopback() -> Seq<char> {
    seq!['1', '2', '7', '.', '0', '.', '0', '.', '1']
}

/// The address to advertise: the detected one, unless it is the unspecified address or a
/// loopback one (`127.`), in which case (or when none was detected) `127.0.0.1`.
pub open spec fn pick_lan_ip_spec(detected: Option<Seq<char>>) -> Seq<char> {
    match detected {
        Some(ip) => if ip != seq!['0', '.', '0', '.', '0', '.', '0'] && !crate::text::starts_with(
            ip,
            seq!['1', '2', '7', '.'],
        ) {
            ip
        } else {
            loopback()
        },
        None => loopback(),
    }
}

/// The address to advertise (see `pick_lan_ip_spec`).
pub fn pick_lan_ip(detected: Option<&str>) -> (r: String)
    ensures
        r@ == pick_lan_ip_spec(crate::lyrics::opt_str_view(detected)),
{
    let lo = vec!['1', '2', '7', '.', '0', '.', '0', '.', '1'];
    assert(lo@ =~= loopback());
    match detected {
        Some(ip) => {
            let v = chars_of(ip);
            let zero = vec!['0', '.', '0', '.', '0', '.', '0'];
            let p = vec!['1', '2', '7', '.'];
            assert(zero@ =~= seq!['0', '.', '0', '.', '0', '.', '0']);
            assert(p@ =~= seq!['1', '2', '7', '.']);
            if !crate::text::chars_eq(&v, &zero) && !crate::text::starts_with_exec(&v, &p) {
                string_of(&v)
            } else {
                string_of(&lo)
            }
        },
        None => string_of(&lo),
    }
}

pub open spec fn lan_url_spec(ip: Seq<char>, token: Seq<char>) -> Seq<char> {
    seq!['h', 't', 't', 'p', ':', '/', '/'] + ip + seq![':', '3', '2', '1', '4', '5', '?', 't', 'o', 'k', 'e', 'n', '=']
        + token
}

/// The URL the QR code carries: `http://<ip>:32145?token=<token>`.
pub fn lan_url(ip: &str, token: &str) -> (r: String)
    ensures
        r@ == lan_url_spec(ip@, token@),
{
    let mut v = vec!['h', 't', 't', 'p', ':', '/', '/'];
    append_chars(&mut v, &chars_of(ip));
    let tail = vec![':', '3', '2', '1', '4', '5', '?', 't', 'o', 'k', 'e', 'n', '='];
    append_chars(&mut v, &tail);
    append_chars(&mut v, &chars_of(token));
    assert(v@ =~= lan_url_spec(ip@, token@));
    string_of(&v)
}


// ---------------------------------------------------------------------------------------------
// Query values
// ---------------------------------------------------------------------------------------------

/// A query value as the server reads it: percent-decoded, or as it is when that is not UTF-8.
pub open spec fn decoded_or_raw(v: Seq<char>) -> Seq<char> {
    match url_decode_spec(v) {
        Some(d) => d,
        None => v,
    }
}

/// The value of `key` among `key=value` pieces: the first piece holding `=` whose part before
/// its first `=` is `key`.
pub open spec fn pieces_value(ps: Seq<Seq<char>>, key: Seq<char>) -> Option<Seq<char>>
    decreases ps.len(),
{
    if ps.len() == 0 {
        None
    } else {
        let p = ps[0];
        let e = index_of_char(p, '=', 0);
        if e < p.len() && p.take(e) == key {
            Some(decoded_or_raw(p.skip(e + 1)))
        } else {
            pieces_value(ps.skip(1), key)
        }
    }
}

/// The value of `key` in a request's query: the query runs from the first `?` up to the next
/// space (or the end) and splits at `&` (see `pieces_value`).
pub open spec fn query_value(req: Seq<char>, key: Seq<char>) -> Option<Seq<char>> {
    let start = index_of_char(req, '?', 0);
    if start >= req.len() {
        None
    } else {
        let end = index_of_char(req, ' ', start);
        pieces_value(split_char(req.subrange(start + 1, end), '&'), key)
    }
}

fn decoded_or_raw_exec(v: &Vec<char>) -> (r: String)
    ensures
        r@ == decoded_or_raw(v@),
{
    let s = string_of(v);
    match url_decode(s.as_str()) {
        Some(d) => d,
        None => s,
    }
}

/// The value one piece gives for `key`, if it is a `key=...` piece.
fn piece_value(p: &Vec<char>, key: &Vec<char>) -> (r: Option<String>)
    ensures
        ({
            let e = index_of_char(p@, '=', 0);
            if e < p@.len() && p@.take(e) == key@ {
                opt_string_view(r) == Some(decoded_or_raw(p@.skip(e + 1)))
            } else {
                r is None
            }
        }),
{
    let e = index_of_char_exec(p, '=', 0);
    if e >= p.len() {
        return None;
    }
    let k = copy_range(p, 0, e);
    assert(p@.subrange(0, e as int) =~= p@.take(e as int));
    if !chars_eq(&k, key) {
        return None;
    }
    let v = copy_range(p, e + 1, p.len());
    assert(p@.subrange(e + 1, p@.len() as int) =~= p@.skip(e + 1));
    Some(decoded_or_raw_exec(&v))
}

fn pieces_value_exec(qs: &Vec<char>, key: &Vec<char>) -> (r: Option<String>)
    ensures
        opt_string_view(r) == pieces_value(split_char(qs@, '&'), key@),
{
    let mut pos: usize = 0;
    assert(qs@.skip(0) =~= qs@);
    loop
        invariant
            pos <= qs.len(),
            pieces_value(split_char(qs@, '&'), key@) == pieces_value(
                split_char(qs@.skip(pos as int), '&'),
                key@,
            ),
        decreases qs.len() - pos,
    {
        let ghost rest = qs@.skip(pos as int);
        let i = index_of_char_exec(qs, '&', pos);
        proof {
            lemma_index_of_char_shift(qs@, '&', pos as int, 0);
            lemma_index_of_char(rest, '&', 0);
        }
        let piece = copy_range(qs, pos, i);
        proof {
            if i >= qs.len() {
                assert(piece@ =~= rest);
                assert(split_char(rest, '&') == seq![rest]);
            } else {
                assert(piece@ =~= rest.take(i - pos));
                assert(rest.skip(i - pos + 1) =~= qs@.skip(i + 1));
                assert(split_char(rest, '&') == seq![rest.take(i - pos)] + split_char(
                    rest.skip(i - pos + 1),
                    '&',
                ));
            }
            let ps = split_char(rest, '&');
            assert(ps[0] == piece@);
            assert(ps.skip(1) =~= if i >= qs.len() {
                Seq::<Seq<char>>::empty()
            } else {
                split_char(qs@.skip(i + 1), '&')
            });
        }
        let v = piece_value(&piece, key);
        if v.is_some() {
            return v;
        }
        if i >= qs.len() {
            return None;
        }
        pos = i + 1;
    }
}

/// A query value of a request (see `query_value`).
pub fn extract_query(req: &str, key: &str) -> (r: Option<String>)
    ensures
        opt_string_view(r) == query_value(req@, key@),
{
    let v = chars_of(req);
    let start = index_of_char_exec(&v, '?', 0);
    if start >= v.len() {
        return None;
    }
    let end = index_of_char_exec(&v, ' ', start);
    let qs = copy_range(&v, start + 1, end);
    proof {
        assert(v@[start as int] == '?');
        assert(end > start);
    }
    pieces_value_exec(&qs, &chars_of(key))
}

// ---------------------------------------------------------------------------------------------
// Routing
// ---------------------------------------------------------------------------------------------

/// What a request to the LAN server asks for.
pub enum RemoteRoute {
    /// A CORS preflight (`OPTIONS`).
    Preflight,
    /// The control page (`GET /`), and whether the request carries the right token.
    Page(bool),
    /// Pairing (anything naming `/pair`), and whether the token matches.
    Pair(bool),
    /// An API call without the right token.
    Unauthorized,
    Queue,
    Playback,
    /// A search, with the `q` query value (empty when there is none).
    Search(String),
    /// Play or queue requests are acknowledged only.
    Ack,
    Toggle,
    Next,
    Prev,
    /// A volume nudge, up or down.
    Volume(bool),
    NotFound,
}

pub enum RouteV {
    Preflight,
    Page(bool),
    Pair(bool),
    Unauthorized,
    Queue,
    Playback,
    Search(Seq<char>),
    Ack,
    Toggle,
    Next,
    Prev,
    Volume(bool),
    NotFound,
}

impl View for RemoteRoute {
    type V = RouteV;

    open spec fn view(&self) -> RouteV {
        match self {
            RemoteRoute::Preflight => RouteV::Preflight,
            RemoteRoute::Page(b) => RouteV::Page(*b),
            RemoteRoute::Pair(b) => RouteV::Pair(*b),
            RemoteRoute::Unauthorized => RouteV::Unauthorized,
            RemoteRoute::Queue => RouteV::Queue,
            RemoteRoute::Playback => RouteV::Playback,
            RemoteRoute::Search(q) => RouteV::Search(q@),
            RemoteRoute::Ack => RouteV::Ack,
            RemoteRoute::Toggle => RouteV::Toggle,
            RemoteRoute::Next => RouteV::Next,
            RemoteRoute::Prev => RouteV::Prev,
            RemoteRoute::Volume(b) => RouteV::Volume(*b),
            RemoteRoute::NotFound => RouteV::NotFound,
        }
    }
}

/// How the server reads a request, in this order: a preflight; the page (`GET / ` or
/// `GET /?`); anything naming `/pair`; a request that does not pass `is_authorized_spec`; then
/// the API by the first endpoint the request names.
pub open spec fn route_spec(req: Seq<char>, expected: Seq<char>) -> RouteV {
    if starts_with(req, "OPTIONS"@) {
        RouteV::Preflight
    } else if starts_with(req, "GET / "@) || starts_with(req, "GET /?"@) {
        RouteV::Page(extract_token_spec(req) == Some(expected))
    } else if contains_seq(req, "/pair"@) {
        RouteV::Pair(extract_token_spec(req) == Some(expected))
    } else if !is_authorized_spec(req, expected) {
        RouteV::Unauthorized
    } else if contains_seq(req, "GET /api/queue"@) {
        RouteV::Queue
    } else if contains_seq(req, "GET /api/playback"@) {
        RouteV::Playback
    } else if contains_seq(req, "GET /api/search"@) {
        RouteV::Search(
            match query_value(req, "q"@) {
                Some(q) => q,
                None => seq![],
            },
        )
    } else if contains_seq(req, "POST /api/play"@) || contains_seq(req, "POST /api/queue"@) {
        RouteV::Ack
    } else if contains_seq(req, "POST /api/toggle"@) {
        RouteV::Toggle
    } else if contains_seq(req, "POST /api/next"@) {
        RouteV::Next
    } else if contains_seq(req, "POST /api/prev"@) {
        RouteV::Prev
    } else if contains_seq(req, "POST /api/volup"@) || contains_seq(req, "POST /api/voldown"@) {
        RouteV::Volume(contains_seq(req, "POST /api/volup"@))
    } else {
        RouteV::NotFound
    }
}

/// The API endpoints the remote's page calls.
pub open spec fn api_endpoints() -> Seq<Seq<char>> {
    seq![
        "GET /api/queue"@,
        "GET /api/playback"@,
        "GET /api/search"@,
        "POST /api/play"@,
        "POST /api/queue"@,
        "POST /api/toggle"@,
        "POST /api/next"@,
        "POST /api/prev"@,
        "POST /api/volup"@,
        "POST /api/voldown"@,
    ]
}

/// A paired call of endpoint `k` of `api_endpoints`: its request line starts with the
/// endpoint, it carries the right token, it is no pairing request, and it names no other
/// endpoint.
pub open spec fn api_call(req: Seq<char>, k: int, expected: Seq<char>) -> bool {
    &&& 0 <= k < api_endpoints().len()
    &&& starts_with(req, api_endpoints()[k])
    &&& is_authorized_spec(req, expected)
    &&& !contains_seq(req, "/pair"@)
    &&& forall|i: int| 0 <= i < api_endpoints().len() && i != k ==> !contains_seq(req, #[trigger] api_endpoints()[i])
}

proof fn lemma_api_call_facts(req: Seq<char>, k: int, expected: Seq<char>)
    requires
        api_call(req, k, expected),
    ensures
        contains_seq(req, api_endpoints()[k]),
        !starts_with(req, "OPTIONS"@),
        !starts_with(req, "GET / "@),
        !starts_with(req, "GET /?"@),
{
    reveal_strlit("GET /api/queue");
    reveal_strlit("GET /api/playback");
    reveal_strlit("GET /api/search");
    reveal_strlit("POST /api/play");
    reveal_strlit("POST /api/queue");
    reveal_strlit("POST /api/toggle");
    reveal_strlit("POST /api/next");
    reveal_strlit("POST /api/prev");
    reveal_strlit("POST /api/volup");
    reveal_strlit("POST /api/voldown");
    reveal_strlit("OPTIONS");
    reveal_strlit("GET / ");
    reveal_strlit("GET /?");
    let ep = api_endpoints()[k];
    assert(occurs_at(req, ep, 0));
    assert(req[0] == ep[0]);
    assert(ep[0] == 'G' || ep[0] == 'P');
    if ep[0] == 'G' {
        assert(req[5] == ep[5]);
        assert(ep[5] == 'a');
    }
}

/// What each endpoint does: a paired `POST /api/queue` or `POST /api/play` is acknowledged
/// (the song is queued or played by the page's own follow-up), `POST /api/toggle`, `/next`,
/// `/prev` drive the player, `POST /api/volup` and `/voldown` nudge the volume up and down,
/// and `GET /api/queue`, `/playback` and `/search` read the queue, the playback state and search
/// results (for the `q` value, empty when there is none). Endpoints are numbered as in
/// `api_endpoints`.
pub proof fn lemma_api_routes(req: Seq<char>, expected: Seq<char>)
    ensures
        api_endpoints()[4] == "POST /api/queue"@ && (api_call(req, 4, expected) ==> route_spec(req, expected) == RouteV::Ack),
        api_endpoints()[3] == "POST /api/play"@ && (api_call(req, 3, expected) ==> route_spec(req, expected) == RouteV::Ack),
        api_endpoints()[5] == "POST /api/toggle"@ && (api_call(req, 5, expected) ==> route_spec(req, expected) == RouteV::Toggle),
        api_endpoints()[6] == "POST /api/next"@ && (api_call(req, 6, expected) ==> route_spec(req, expected) == RouteV::Next),
        api_endpoints()[7] == "POST /api/prev"@ && (api_call(req, 7, expected) ==> route_spec(req, expected) == RouteV::Prev),
        api_endpoints()[8] == "POST /api/volup"@ && (api_call(req, 8, expected) ==> route_spec(req, expected) == RouteV::Volume(true)),
        api_endpoints()[9] == "POST /api/voldown"@ && (api_call(req, 9, expected) ==> route_spec(req, expected) == RouteV::Volume(false)),
        api_endpoints()[0] == "GET /api/queue"@ && (api_call(req, 0, expected) ==> route_spec(req, expected) == RouteV::Queue),
        api_endpoints()[1] == "GET /api/playback"@ && (api_call(req, 1, expected) ==> route_spec(req, expected) == RouteV::Playback),
        api_endpoints()[2] == "GET /api/search"@ && (api_call(req, 2, expected) ==> route_spec(req, expected) == RouteV::Search(
            match query_value(req, "q"@) {
                Some(q) => q,
                None => seq![],
            },
        )),
{
    let eps = api_endpoints();
    assert forall|k: int| 0 <= k < 10 && #[trigger] api_call(req, k, expected) implies route_spec(req, expected) == (if k
        == 0 {
        RouteV::Queue
    } else if k == 1 {
        RouteV::Playback
    } else if k == 2 {
        RouteV::Search(
            match query_value(req, "q"@) {
                Some(q) => q,
                None => seq![],
            },
        )
    } else if k == 3 || k == 4 {
        RouteV::Ack
    } else if k == 5 {
        RouteV::Toggle
    } else if k == 6 {
        RouteV::Next
    } else if k == 7 {
        RouteV::Prev
    } else {
        RouteV::Volume(k == 8)
    }) by {
        lemma_api_call_facts(req, k, expected);
        assert(k != 0 ==> !contains_seq(req, eps[0]));
        assert(k != 1 ==> !contains_seq(req, eps[1]));
        assert(k != 2 ==> !contains_seq(req, eps[2]));
        assert(k != 3 ==> !contains_seq(req, eps[3]));
        assert(k != 4 ==> !contains_seq(req, eps[4]));
        assert(k != 5 ==> !contains_seq(req, eps[5]));
        assert(k != 6 ==> !contains_seq(req, eps[6]));
        assert(k != 7 ==> !contains_seq(req, eps[7]));
        assert(k != 8 ==> !contains_seq(req, eps[8]));
        assert(k != 9 ==> !contains_seq(req, eps[9]));
    }
}

fn has(v: &Vec<char>, p: &str) -> (b: bool)
    ensures
        b == contains_seq(v@, p@),
{
    let pv = chars_of(p);
    match find_exec(v, &pv, 0) {
        Some(_) => true,
        None => {
            assert forall|j: int| !occurs_at(v@, pv@, j) by {
                if j >= 0 {
                }
            }
            false
        },
    }
}

fn begins(v: &Vec<char>, p: &str) -> (b: bool)
    ensures
        b == starts_with(v@, p@),
{
    starts_with_exec(v, &chars_of(p))
}

fn token_is(req: &str, expected: &str) -> (b: bool)
    ensures
        b == (extract_token_spec(req@) == Some(expected@)),
{
    match extract_token(req) {
        Some(t) => chars_eq(&chars_of(t.as_str()), &chars_of(expected)),
        None => false,
    }
}

/// Reads what a request asks for (see `route_spec`).
pub fn route(req: &str, expected: &str) -> (r: RemoteRoute)
    ensures
        r@ == route_spec(req@, expected@),
{
    let v = chars_of(req);
    if begins(&v, "OPTIONS") {
        RemoteRoute::Preflight
    } else if begins(&v, "GET / ") || begins(&v, "GET /?") {
        RemoteRoute::Page(token_is(req, expected))
    } else if has(&v, "/pair") {
        RemoteRoute::Pair(token_is(req, expected))
    } else if !is_authorized(req, expected) {
        RemoteRoute::Unauthorized
    } else if has(&v, "GET /api/queue") {
        RemoteRoute::Queue
    } else if has(&v, "GET /api/playback") {
        RemoteRoute::Playback
    } else if has(&v, "GET /api/search") {
        let q = match extract_query(req, "q") {
            Some(q) => q,
            None => {
                let e: Vec<char> = Vec::new();
                assert(e@ =~= Seq::<char>::empty());
                string_of(&e)
            },
        };
        RemoteRoute::Search(q)
    } else if has(&v, "POST /api/play") || has(&v, "POST /api/queue") {
        RemoteRoute::Ack
    } else if has(&v, "POST /api/toggle") {
        RemoteRoute::Toggle
    } else if has(&v, "POST /api/next") {
        RemoteRoute::Next
    } else if has(&v, "POST /api/prev") {
        RemoteRoute::Prev
    } else if has(&v, "POST /api/volup") || has(&v, "POST /api/voldown") {
        RemoteRoute::Volume(has(&v, "POST /api/volup"))
    } else {
        RemoteRoute::NotFound
    }
}

/// The phone's volume nudge: ten points up or down, kept within 0..=100.
pub fn remote_volume(current: i64, up: bool) -> (v: i64)
    requires
        up ==> current <= i64::MAX - 10,
        !up ==> current >= i64::MIN + 10,
    ensures
        v == ({
            let n = if up { current + 10 } else { current - 10 };
            if n < 0 { 0 } else if n > 100 { 100 } else { n }
        }),
{
    let n = if up { current + 10 } else { current - 10 };
    if n < 0 { 0 } else if n > 100 { 100 } else { n }
}

// ---------------------------------------------------------------------------------------------
// Responses
// ---------------------------------------------------------------------------------------------

/// The CORS headers every answer carries.
pub open spec fn cors() -> Seq<char> {
    "Access-Control-Allow-Origin: *\r\nAccess-Control-Allow-Headers: Content-Type, X-Remote-Token\r\nAccess-Control-Allow-Methods: GET, POST, OPTIONS\r\n"@
}

fn cors_exec() -> (r: Vec<char>)
    ensures
        r@ == cors(),
{
    chars_of("Access-Control-Allow-Origin: *\r\nAccess-Control-Allow-Headers: Content-Type, X-Remote-Token\r\nAccess-Control-Allow-Methods: GET, POST, OPTIONS\r\n")
}

/// An answer: the status line, the CORS headers, the content type, the body's length in bytes,
/// and the body.
pub open spec fn response_spec(status: Seq<char>, content_type: Seq<char>, body: Seq<char>) -> Seq<char> {
    "HTTP/1.1 "@ + status + "\r\n"@ + cors() + "Content-Type: "@ + content_type
        + "\r\nContent-Length: "@ + dec_digits(encode_utf8(body).len()) + "\r\n\r\n"@ + body
}

/// Builds an answer (see `response_spec`).
pub fn http_response(status: &str, content_type: &str, body: &str) -> (r: String)
    ensures
        r@ == response_spec(status@, content_type@, body@),
{
    let mut v = chars_of("HTTP/1.1 ");
    append_chars(&mut v, &chars_of(status));
    append_chars(&mut v, &chars_of("\r\n"));
    append_chars(&mut v, &cors_exec());
    append_chars(&mut v, &chars_of("Content-Type: "));
    append_chars(&mut v, &chars_of(content_type));
    append_chars(&mut v, &chars_of("\r\nContent-Length: "));
    let ghost head = v@;
    let n = body.as_bytes().len();
    assert(n as nat == encode_utf8(body@).len());
    let d = dec_digits_exec(n as u64);
    assert(d@ == dec_digits(encode_utf8(body@).len()));
    append_chars(&mut v, &d);
    append_chars(&mut v, &chars_of("\r\n\r\n"));
    append_chars(&mut v, &chars_of(body));
    assert(v@ == head + d@ + "\r\n\r\n"@ + body@);
    assert(v@ =~= response_spec(status@, content_type@, body@));
    string_of(&v)
}

/// The answer to a preflight: no content, the CORS headers.
pub fn preflight_response() -> (r: String)
    ensures
        r@ == "HTTP/1.1 204 No Content\r\n"@ + cors() + "Content-Length: 0\r\n\r\n"@,
{
    let mut v = chars_of("HTTP/1.1 204 No Content\r\n");
    append_chars(&mut v, &cors_exec());
    append_chars(&mut v, &chars_of("Content-Length: 0\r\n\r\n"));
    string_of(&v)
}

/// A request for the page or the API is answered only with the right token: an unpaired
/// request never reaches the player.
pub proof fn lemma_api_needs_token(req: Seq<char>, expected: Seq<char>)
    ensures
        ({
            let r = route_spec(req, expected);
            &&& (r is Page && r->Page_0 ==> extract_token_spec(req) == Some(expected))
            &&& (r is Toggle || r is Next || r is Prev || r is Volume || r is Queue || r is Playback
                || r is Search || r is Ack) ==> is_authorized_spec(req, expected)
        }),
{
}


// ---------------------------------------------------------------------------------------------
// Answers
// ---------------------------------------------------------------------------------------------

/// What an answer's body is. The host's own content (the page, the queue, the playback state,
/// search results) and the JSON objects are written by the caller from this.
pub enum RemoteBody {
    /// The preflight answer, `preflight_response`, as it is.
    Preflight,
    /// The control page.
    Page,
    /// A plain-text message.
    Text(String),
    /// `{"paired": .., "token": ..}` with the stored token.
    Pair(bool),
    /// `{"error": "unauthorized, pair via QR first"}`.
    Unauthorized,
    /// The queue as JSON.
    Queue,
    /// The playback state as JSON.
    Playback,
    /// Search results for the query, as JSON.
    Search(String),
    /// `{"items": []}`.
    NoResults,
    /// `{"ok": true}`.
    Done,
    /// `{"ok": true, "volume": ..}`.
    Volume(i64),
    /// `{"error": "not found"}`.
    NotFound,
}

pub enum BodyV {
    Preflight,
    Page,
    Text(Seq<char>),
    Pair(bool),
    Unauthorized,
    Queue,
    Playback,
    Search(Seq<char>),
    NoResults,
    Done,
    Volume(i64),
    NotFound,
}

impl View for RemoteBody {
    type V = BodyV;

    open spec fn view(&self) -> BodyV {
        match self {
            RemoteBody::Preflight => BodyV::Preflight,
            RemoteBody::Page => BodyV::Page,
            RemoteBody::Text(t) => BodyV::Text(t@),
            RemoteBody::Pair(b) => BodyV::Pair(*b),
            RemoteBody::Unauthorized => BodyV::Unauthorized,
            RemoteBody::Queue => BodyV::Queue,
            RemoteBody::Playback => BodyV::Playback,
            RemoteBody::Search(q) => BodyV::Search(q@),
            RemoteBody::NoResults => BodyV::NoResults,
            RemoteBody::Done => BodyV::Done,
            RemoteBody::Volume(v) => BodyV::Volume(*v),
            RemoteBody::NotFound => BodyV::NotFound,
        }
    }
}

/// What the app does for a request besides answering it.
#[derive(PartialEq, Eq, Structural, Clone, Copy)]
pub enum RemoteAction {
    Nothing,
    Toggle,
    Next,
    Prev,
    /// Set the player to this volume and store it as the `volume` setting.
    SetVolume(i64),
    /// Store the pairing time (`remote_paired_at`).
    MarkPaired,
}

/// An answer to a request: status, content type, body, and what the app does.
pub struct RemoteAnswer {
    pub status: String,
    pub content_type: String,
    pub body: RemoteBody,
    pub action: RemoteAction,
}

pub open spec fn ok_status() -> Seq<char> {
    "200 OK"@
}

pub open spec fn unauthorized_status() -> Seq<char> {
    "401 Unauthorized"@
}

pub open spec fn json_type() -> Seq<char> {
    "application/json"@
}

pub open spec fn unpaired_message() -> Seq<char> {
    "Open this page from the in-app QR code (Settings \u{25b8} Remote)."@
}

/// The volume a nudge from the remote sets (see `remote_volume`).
pub open spec fn remote_volume_spec(current: i64, up: bool) -> i64 {
    let n = if up { current + 10 } else { current - 10 };
    if n < 0 { 0 } else if n > 100 { 100 } else { n as i64 }
}

/// The answer to a routed request, `current` being the volume shown now: the page with the
/// right token, else the plain-text pairing hint (401); pairing answers its outcome (401 when
/// the token did not match) and records the pairing when it did; API calls without the token
/// are refused (401); an empty search answers no results without asking the host; the
/// transport buttons act and acknowledge; a volume nudge sets and answers the new volume; the
/// rest are acknowledged or answered "not found", all with status 200 and JSON.
pub open spec fn remote_answer_spec(route: RouteV, current: i64) -> (Seq<char>, Seq<char>, BodyV, RemoteAction) {
    match route {
        RouteV::Preflight => ("204 No Content"@, seq![], BodyV::Preflight, RemoteAction::Nothing),
        RouteV::Page(true) => (ok_status(), "text/html; charset=utf-8"@, BodyV::Page, RemoteAction::Nothing),
        RouteV::Page(false) => (
            unauthorized_status(),
            "text/plain; charset=utf-8"@,
            BodyV::Text(unpaired_message()),
            RemoteAction::Nothing,
        ),
        RouteV::Pair(ok) => (
            if ok { ok_status() } else { unauthorized_status() },
            json_type(),
            BodyV::Pair(ok),
            if ok { RemoteAction::MarkPaired } else { RemoteAction::Nothing },
        ),
        RouteV::Unauthorized => (unauthorized_status(), json_type(), BodyV::Unauthorized, RemoteAction::Nothing),
        RouteV::Queue => (ok_status(), json_type(), BodyV::Queue, RemoteAction::Nothing),
        RouteV::Playback => (ok_status(), json_type(), BodyV::Playback, RemoteAction::Nothing),
        RouteV::Search(q) => (
            ok_status(),
            json_type(),
            if q.len() == 0 { BodyV::NoResults } else { BodyV::Search(q) },
            RemoteAction::Nothing,
        ),
        RouteV::Ack => (ok_status(), json_type(), BodyV::Done, RemoteAction::Nothing),
        RouteV::Toggle => (ok_status(), json_type(), BodyV::Done, RemoteAction::Toggle),
        RouteV::Next => (ok_status(), json_type(), BodyV::Done, RemoteAction::Next),
        RouteV::Prev => (ok_status(), json_type(), BodyV::Done, RemoteAction::Prev),
        RouteV::Volume(up) => {
            let v = remote_volume_spec(current, up);
            (ok_status(), json_type(), BodyV::Volume(v), RemoteAction::SetVolume(v))
        },
        RouteV::NotFound => (ok_status(), json_type(), BodyV::NotFound, RemoteAction::Nothing),
    }
}

fn text(s: &str) -> (r: String)
    ensures
        r@ == s@,
{
    string_of(&chars_of(s))
}

/// The answer to a routed request (see `remote_answer_spec`).
pub fn remote_answer(route: RemoteRoute, current: i64) -> (a: RemoteAnswer)
    requires
        route@ == RouteV::Volume(true) ==> current <= i64::MAX - 10,
        route@ == RouteV::Volume(false) ==> current >= i64::MIN + 10,
    ensures
        (a.status@, a.content_type@, a.body@, a.action) == remote_answer_spec(route@, current),
{
    let json = "application/json";
    match route {
        RemoteRoute::Preflight => RemoteAnswer {
            status: text("204 No Content"),
            content_type: String::new(),
            body: RemoteBody::Preflight,
            action: RemoteAction::Nothing,
        },
        RemoteRoute::Page(true) => RemoteAnswer {
            status: text("200 OK"),
            content_type: text("text/html; charset=utf-8"),
            body: RemoteBody::Page,
            action: RemoteAction::Nothing,
        },
        RemoteRoute::Page(false) => RemoteAnswer {
            status: text("401 Unauthorized"),
            content_type: text("text/plain; charset=utf-8"),
            body: RemoteBody::Text(text("Open this page from the in-app QR code (Settings \u{25b8} Remote).")),
            action: RemoteAction::Nothing,
        },
        RemoteRoute::Pair(ok) => RemoteAnswer {
            status: if ok { text("200 OK") } else { text("401 Unauthorized") },
            content_type: text(json),
            body: RemoteBody::Pair(ok),
            action: if ok { RemoteAction::MarkPaired } else { RemoteAction::Nothing },
        },
        RemoteRoute::Unauthorized => RemoteAnswer {
            status: text("401 Unauthorized"),
            content_type: text(json),
            body: RemoteBody::Unauthorized,
            action: RemoteAction::Nothing,
        },
        RemoteRoute::Queue => RemoteAnswer {
            status: text("200 OK"),
            content_type: text(json),
            body: RemoteBody::Queue,
            action: RemoteAction::Nothing,
        },
        RemoteRoute::Playback => RemoteAnswer {
            status: text("200 OK"),
            content_type: text(json),
            body: RemoteBody::Playback,
            action: RemoteAction::Nothing,
        },
        RemoteRoute::Search(q) => {
            let empty = chars_of(q.as_str()).len() == 0;
            RemoteAnswer {
                status: text("200 OK"),
                content_type: text(json),
                body: if empty { RemoteBody::NoResults } else { RemoteBody::Search(q) },
                action: RemoteAction::Nothing,
            }
        },
        RemoteRoute::Ack => RemoteAnswer {
            status: text("200 OK"),
            content_type: text(json),
            body: RemoteBody::Done,
            action: RemoteAction::Nothing,
        },
        RemoteRoute::Toggle => RemoteAnswer {
            status: text("200 OK"),
            content_type: text(json),
            body: RemoteBody::Done,
            action: RemoteAction::Toggle,
        },
        RemoteRoute::Next => RemoteAnswer {
            status: text("200 OK"),
            content_type: text(json),
            body: RemoteBody::Done,
            action: RemoteAction::Next,
        },
        RemoteRoute::Prev => RemoteAnswer {
            status: text("200 OK"),
            content_type: text(json),
            body: RemoteBody::Done,
            action: RemoteAction::Prev,
        },
        RemoteRoute::Volume(up) => {
            let v = remote_volume(current, up);
            RemoteAnswer {
                status: text("200 OK"),
                content_type: text(json),
                body: RemoteBody::Volume(v),
                action: RemoteAction::SetVolume(v),
            }
        },
        RemoteRoute::NotFound => RemoteAnswer {
            status: text("200 OK"),
            content_type: text(json),
            body: RemoteBody::NotFound,
            action: RemoteAction::Nothing,
        },
    }
}

} // verus!
