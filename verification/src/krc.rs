//! Kugou's KRC container: base64 (tolerant of missing padding and whitespace), then XOR with the
//! key `krc1`, then UTF-8 text with an optional `krc1` marker in front.
use vstd::prelude::*;
use vstd::string::StringSliceAdditionalSpecFns;
use vstd::utf8::{decode_utf8, encode_utf8, valid_utf8};

use crate::text::{chars_of, is_ws, starts_with, starts_with_exec, string_of};

verus! {

// ---------------------------------------------------------------------------------------------
// Base64
// ---------------------------------------------------------------------------------------------

/// The standard alphabet's value of a byte: `A-Z a-z 0-9 + /` are 0..63, padding `=` counts as
/// 0, anything else is -1 (invalid).
pub open spec fn b64_val(b: u8) -> i8 {
    if 65 <= b <= 90 {
        (b - 65) as i8
    } else if 97 <= b <= 122 {
        (b - 97 + 26) as i8
    } else if 48 <= b <= 57 {
        (b - 48 + 52) as i8
    } else if b == 43 {
        62
    } else if b == 47 {
        63
    } else if b == 61 {
        0i8
    } else {
        -1i8
    }
}

/// The decode table: every byte's value (see `b64_val`).
pub fn build_b64_table() -> (t: Vec<i8>)
    ensures
        t@.len() == 256,
        forall|i: int| 0 <= i < 256 ==> #[trigger] t@[i] == b64_val(i as u8),
{
    let mut t: Vec<i8> = Vec::new();
    let mut i: usize = 0;
    while i < 256
        invariant
            i <= 256,
            t@.len() == i,
            forall|k: int| 0 <= k < i ==> #[trigger] t@[k] == b64_val(k as u8),
        decreases 256 - i,
    {
        let b = i as u8;
        let v: i8 = if 65 <= b && b <= 90 {
            (b - 65) as i8
        } else if 97 <= b && b <= 122 {
            (b - 97 + 26) as i8
        } else if 48 <= b && b <= 57 {
            (b - 48 + 52) as i8
        } else if b == 43 {
            62
        } else if b == 47 {
            63
        } else if b == 61 {
            0
        } else {
            -1
        };
        t.push(v);
        i += 1;
    }
    t
}

/// The bytes one group of four encodes: two padding marks leave one byte, one leaves two.
pub open spec fn b64_group(g: Seq<u8>) -> Seq<u8> {
    let a = b64_val(g[0]) as u8;
    let b = b64_val(g[1]) as u8;
    let c = b64_val(g[2]) as u8;
    let d = b64_val(g[3]) as u8;
    let first = seq![((a << 2u8) | (b >> 4u8)) as u8];
    let second = if g[2] != 61 {
        seq![(((b & 0x0fu8) << 4u8) | (c >> 2u8)) as u8]
    } else {
        seq![]
    };
    let third = if g[3] != 61 {
        seq![(((c & 0x03u8) << 6u8) | d) as u8]
    } else {
        seq![]
    };
    first + second + third
}

/// Base64 decoding group by group; `None` when the length is not a multiple of four or any
/// byte is outside the alphabet.
pub open spec fn b64_decode(s: Seq<u8>) -> Option<Seq<u8>>
    decreases s.len(),
{
    if s.len() % 4 != 0 {
        None
    } else if s.len() == 0 {
        Some(seq![])
    } else if b64_val(s[0]) < 0 || b64_val(s[1]) < 0 || b64_val(s[2]) < 0 || b64_val(s[3]) < 0 {
        None
    } else {
        match b64_decode(s.skip(4)) {
            Some(rest) => Some(b64_group(s.take(4)) + rest),
            None => None,
        }
    }
}

/// The standard alphabet's character (as a byte) for a 6-bit value: `A-Z a-z 0-9 + /`.
pub open spec fn b64_char(v: u8) -> u8 {
    if v < 26 {
        (65 + v) as u8
    } else if v < 52 {
        (97 + (v - 26)) as u8
    } else if v < 62 {
        (48 + (v - 52)) as u8
    } else if v == 62 {
        43
    } else {
        47
    }
}

/// Standard base64 encoding (RFC 4648, with `=` padding): each three bytes become four
/// characters, and a final one or two bytes become four characters ending in `==` or `=`.
pub open spec fn b64_encode(b: Seq<u8>) -> Seq<u8>
    decreases b.len(),
{
    if b.len() == 0 {
        seq![]
    } else if b.len() == 1 {
        seq![b64_char(b[0] >> 2u8), b64_char(((b[0] & 3u8) << 4u8) as u8), 61u8, 61u8]
    } else if b.len() == 2 {
        seq![
            b64_char(b[0] >> 2u8),
            b64_char((((b[0] & 3u8) << 4u8) | (b[1] >> 4u8)) as u8),
            b64_char(((b[1] & 15u8) << 2u8) as u8),
            61u8,
        ]
    } else {
        seq![
            b64_char(b[0] >> 2u8),
            b64_char((((b[0] & 3u8) << 4u8) | (b[1] >> 4u8)) as u8),
            b64_char((((b[1] & 15u8) << 2u8) | (b[2] >> 6u8)) as u8),
            b64_char(b[2] & 63u8),
        ] + b64_encode(b.skip(3))
    }
}

proof fn lemma_b64_char(v: u8)
    requires
        v < 64,
    ensures
        b64_val(b64_char(v)) == v as i8,
        b64_char(v) != 61,
{
}

proof fn lemma_b64_three(x: u8, y: u8, z: u8)
    ensures
        ({
            let g = seq![
                b64_char(x >> 2u8),
                b64_char((((x & 3u8) << 4u8) | (y >> 4u8)) as u8),
                b64_char((((y & 15u8) << 2u8) | (z >> 6u8)) as u8),
                b64_char(z & 63u8),
            ];
            &&& b64_val(g[0]) >= 0 && b64_val(g[1]) >= 0 && b64_val(g[2]) >= 0 && b64_val(g[3]) >= 0
            &&& b64_group(g) == seq![x, y, z]
        }),
{
    let a = x >> 2u8;
    let b = (((x & 3u8) << 4u8) | (y >> 4u8)) as u8;
    let c = (((y & 15u8) << 2u8) | (z >> 6u8)) as u8;
    let d = z & 63u8;
    assert(a < 64 && b < 64 && c < 64 && d < 64) by (bit_vector)
        requires
            a == x >> 2u8,
            b == (((x & 3u8) << 4u8) | (y >> 4u8)) as u8,
            c == (((y & 15u8) << 2u8) | (z >> 6u8)) as u8,
            d == z & 63u8,
    ;
    lemma_b64_char(a);
    lemma_b64_char(b);
    lemma_b64_char(c);
    lemma_b64_char(d);
    assert(((a << 2u8) | (b >> 4u8)) as u8 == x) by (bit_vector)
        requires
            a == x >> 2u8,
            b == (((x & 3u8) << 4u8) | (y >> 4u8)) as u8,
    ;
    assert((((b & 0x0fu8) << 4u8) | (c >> 2u8)) as u8 == y) by (bit_vector)
        requires
            b == (((x & 3u8) << 4u8) | (y >> 4u8)) as u8,
            c == (((y & 15u8) << 2u8) | (z >> 6u8)) as u8,
    ;
    assert((((c & 0x03u8) << 6u8) | d) as u8 == z) by (bit_vector)
        requires
            c == (((y & 15u8) << 2u8) | (z >> 6u8)) as u8,
            d == z & 63u8,
    ;
    let g = seq![b64_char(a), b64_char(b), b64_char(c), b64_char(d)];
    assert(b64_val(g[0]) as u8 == a);
    assert(b64_val(g[1]) as u8 == b);
    assert(b64_val(g[2]) as u8 == c);
    assert(b64_val(g[3]) as u8 == d);
    assert(b64_group(g) =~= seq![x, y, z]);
}

proof fn lemma_b64_two(x: u8, y: u8)
    ensures
        ({
            let g = seq![
                b64_char(x >> 2u8),
                b64_char((((x & 3u8) << 4u8) | (y >> 4u8)) as u8),
                b64_char(((y & 15u8) << 2u8) as u8),
                61u8,
            ];
            &&& b64_val(g[0]) >= 0 && b64_val(g[1]) >= 0 && b64_val(g[2]) >= 0 && b64_val(g[3]) >= 0
            &&& b64_group(g) == seq![x, y]
        }),
{
    let a = x >> 2u8;
    let b = (((x & 3u8) << 4u8) | (y >> 4u8)) as u8;
    let c = ((y & 15u8) << 2u8) as u8;
    assert(a < 64 && b < 64 && c < 64) by (bit_vector)
        requires
            a == x >> 2u8,
            b == (((x & 3u8) << 4u8) | (y >> 4u8)) as u8,
            c == ((y & 15u8) << 2u8) as u8,
    ;
    lemma_b64_char(a);
    lemma_b64_char(b);
    lemma_b64_char(c);
    assert(((a << 2u8) | (b >> 4u8)) as u8 == x) by (bit_vector)
        requires
            a == x >> 2u8,
            b == (((x & 3u8) << 4u8) | (y >> 4u8)) as u8,
    ;
    assert((((b & 0x0fu8) << 4u8) | (c >> 2u8)) as u8 == y) by (bit_vector)
        requires
            b == (((x & 3u8) << 4u8) | (y >> 4u8)) as u8,
            c == ((y & 15u8) << 2u8) as u8,
    ;
    let g = seq![b64_char(a), b64_char(b), b64_char(c), 61u8];
    assert(b64_val(g[0]) as u8 == a);
    assert(b64_val(g[1]) as u8 == b);
    assert(b64_val(g[2]) as u8 == c);
    assert(b64_group(g) =~= seq![x, y]);
}

proof fn lemma_b64_one(x: u8)
    ensures
        ({
            let g = seq![b64_char(x >> 2u8), b64_char(((x & 3u8) << 4u8) as u8), 61u8, 61u8];
            &&& b64_val(g[0]) >= 0 && b64_val(g[1]) >= 0 && b64_val(g[2]) >= 0 && b64_val(g[3]) >= 0
            &&& b64_group(g) == seq![x]
        }),
{
    let a = x >> 2u8;
    let b = ((x & 3u8) << 4u8) as u8;
    assert(a < 64 && b < 64) by (bit_vector)
        requires
            a == x >> 2u8,
            b == ((x & 3u8) << 4u8) as u8,
    ;
    lemma_b64_char(a);
    lemma_b64_char(b);
    assert(((a << 2u8) | (b >> 4u8)) as u8 == x) by (bit_vector)
        requires
            a == x >> 2u8,
            b == ((x & 3u8) << 4u8) as u8,
    ;
    let g = seq![b64_char(a), b64_char(b), 61u8, 61u8];
    assert(b64_val(g[0]) as u8 == a);
    assert(b64_val(g[1]) as u8 == b);
    assert(b64_group(g) =~= seq![x]);
}

/// Decoding undoes standard base64 encoding: for every byte string, decoding its padded
/// encoding gives back exactly those bytes (so a final group with one `=` yields two bytes and
/// one with `==` a single byte, nothing more).
pub proof fn lemma_b64_round_trip(b: Seq<u8>)
    ensures
        b64_decode(b64_encode(b)) == Some(b),
    decreases b.len(),
{
    let e = b64_encode(b);
    assert(b64_decode(Seq::<u8>::empty()) == Some(Seq::<u8>::empty()));
    if b.len() == 0 {
    } else if b.len() == 1 {
        lemma_b64_one(b[0]);
        assert(e.take(4) =~= e);
        assert(e.skip(4) =~= Seq::<u8>::empty());
        assert(seq![b[0]] + Seq::<u8>::empty() =~= b);
        assert(b64_decode(e) == Some(b64_group(e.take(4)) + Seq::<u8>::empty()));
    } else if b.len() == 2 {
        lemma_b64_two(b[0], b[1]);
        assert(e.take(4) =~= e);
        assert(e.skip(4) =~= Seq::<u8>::empty());
        assert(seq![b[0], b[1]] + Seq::<u8>::empty() =~= b);
        assert(b64_decode(e) == Some(b64_group(e.take(4)) + Seq::<u8>::empty()));
    } else {
        lemma_b64_three(b[0], b[1], b[2]);
        lemma_b64_round_trip(b.skip(3));
        let head = seq![
            b64_char(b[0] >> 2u8),
            b64_char((((b[0] & 3u8) << 4u8) | (b[1] >> 4u8)) as u8),
            b64_char((((b[1] & 15u8) << 2u8) | (b[2] >> 6u8)) as u8),
            b64_char(b[2] & 63u8),
        ];
        lemma_b64_len(b.skip(3));
        assert(e.take(4) =~= head);
        assert(e.skip(4) =~= b64_encode(b.skip(3)));
        assert(e[0] == head[0] && e[1] == head[1] && e[2] == head[2] && e[3] == head[3]);
        assert(seq![b[0], b[1], b[2]] + b.skip(3) =~= b);
        assert(b64_decode(e) == Some(b64_group(e.take(4)) + b.skip(3)));
    }
}

proof fn lemma_b64_len(b: Seq<u8>)
    ensures
        b64_encode(b).len() % 4 == 0,
    decreases b.len(),
{
    if b.len() > 2 {
        lemma_b64_len(b.skip(3));
    }
}

/// Decodes standard base64 bytes.
fn b64_decode_exec(s: &[u8]) -> (r: Option<Vec<u8>>)
    ensures
        match r {
            Some(v) => b64_decode(s@) == Some(v@),
            None => b64_decode(s@) is None,
        },
{
    let table = build_b64_table();
    if s.len() % 4 != 0 {
        return None;
    }
    let mut out: Vec<u8> = Vec::new();
    let mut i: usize = 0;
    assert(s@.skip(0) =~= s@);
    while i < s.len()
        invariant
            i <= s.len(),
            s.len() % 4 == 0,
            i % 4 == 0,
            table@.len() == 256,
            forall|k: int| 0 <= k < 256 ==> #[trigger] table@[k] == b64_val(k as u8),
            b64_decode(s@) == (match b64_decode(s@.skip(i as int)) {
                Some(rest) => Some(out@ + rest),
                None => None::<Seq<u8>>,
            }),
        decreases s.len() - i,
    {
        let ghost rest = s@.skip(i as int);
        assert(rest.len() % 4 == 0);
        assert(rest[0] == s@[i as int] && rest[1] == s@[i + 1] && rest[2] == s@[i + 2] && rest[3]
            == s@[i + 3]);
        let a = table[s[i] as usize];
        let bb = table[s[i + 1] as usize];
        let cc = table[s[i + 2] as usize];
        let d = table[s[i + 3] as usize];
        if a < 0 || bb < 0 || cc < 0 || d < 0 {
            return None;
        }
        let ghost before = out@;
        out.push(((a as u8) << 2) | ((bb as u8) >> 4));
        if s[i + 2] != 61u8 {
            out.push(((bb as u8 & 0x0f) << 4) | ((cc as u8) >> 2));
        }
        if s[i + 3] != 61u8 {
            out.push(((cc as u8 & 0x03) << 6) | (d as u8));
        }
        proof {
            assert(rest.take(4) =~= s@.subrange(i as int, i + 4));
            assert(out@ =~= before + b64_group(rest.take(4)));
            assert(rest.skip(4) =~= s@.skip(i + 4));
            match b64_decode(s@.skip(i + 4)) {
                Some(r2) => {
                    assert(before + (b64_group(rest.take(4)) + r2) =~= out@ + r2);
                },
                None => {},
            }
        }
        i += 4;
    }
    assert(s@.skip(i as int) =~= Seq::<u8>::empty());
    assert(out@ + Seq::<u8>::empty() =~= out@);
    Some(out)
}

/// Standard base64 of a string's bytes.
pub fn base64_decode_bytes(s: &str) -> (r: Option<Vec<u8>>)
    ensures
        match r {
            Some(v) => b64_decode(s.spec_bytes()) == Some(v@),
            None => b64_decode(s.spec_bytes()) is None,
        },
{
    b64_decode_exec(s.as_bytes())
}

/// The text of some bytes, if they are valid UTF-8.
///
/// Trusted: wraps `String::from_utf8`, which std documents as succeeding exactly when the bytes
/// are valid UTF-8 (and then holding those bytes). Validity and decoding are vstd's `valid_utf8`
/// and `decode_utf8`.
#[verifier::external_body]
fn utf8_string(bytes: Vec<u8>) -> (r: Option<String>)
    ensures
        r is Some <==> valid_utf8(bytes@),
        r matches Some(s) ==> s@ == decode_utf8(bytes@),
{
    String::from_utf8(bytes).ok()
}

/// The base64 bytes of a tolerant input: whitespace dropped, and a missing `=` or `==` restored
/// when the length (in bytes) leaves a remainder of 3 or 2.
pub open spec fn padded_b64(s: Seq<char>) -> Seq<u8> {
    let c = encode_utf8(s.filter(|ch: char| !is_ws(ch)));
    if c.len() % 4 == 2 {
        c + seq![61u8, 61u8]
    } else if c.len() % 4 == 3 {
        c + seq![61u8]
    } else {
        c
    }
}

/// The decoded bytes of a tolerant base64 input.
pub open spec fn fallback_bytes(s: Seq<char>) -> Option<Seq<u8>> {
    b64_decode(padded_b64(s))
}

/// Tolerant base64 to text: `None` unless it decodes and the bytes are UTF-8.
pub open spec fn base64_fallback_spec(s: Seq<char>) -> Option<Seq<char>> {
    match fallback_bytes(s) {
        Some(b) => if valid_utf8(b) {
            Some(decode_utf8(b))
        } else {
            None
        },
        None => None,
    }
}

proof fn lemma_filter_push(s: Seq<char>, x: char, pred: spec_fn(char) -> bool)
    ensures
        s.push(x).filter(pred) == (if pred(x) {
            s.filter(pred).push(x)
        } else {
            s.filter(pred)
        }),
{
    reveal(Seq::filter);
    assert(s.push(x).drop_last() =~= s);
}

fn str_bytes(s: &str) -> (r: Vec<u8>)
    ensures
        r@ == s.spec_bytes(),
{
    let b = s.as_bytes();
    let mut out: Vec<u8> = Vec::new();
    let mut i: usize = 0;
    while i < b.len()
        invariant
            i <= b.len(),
            out@ == b@.take(i as int),
        decreases b.len() - i,
    {
        out.push(b[i]);
        assert(b@.take(i + 1) =~= b@.take(i as int).push(b@[i as int]));
        i += 1;
    }
    assert(b@.take(b.len() as int) =~= b@);
    out
}

/// The decoded bytes of a tolerant base64 input (see `fallback_bytes`).
fn fallback_bytes_exec(s: &str) -> (r: Option<Vec<u8>>)
    ensures
        match r {
            Some(v) => fallback_bytes(s@) == Some(v@),
            None => fallback_bytes(s@) is None,
        },
{
    let v = chars_of(s);
    let ghost pred = |ch: char| !is_ws(ch);
    let mut c: Vec<char> = Vec::new();
    let mut i: usize = 0;
    while i < v.len()
        invariant
            i <= v.len(),
            pred == (|ch: char| !is_ws(ch)),
            c@ == v@.take(i as int).filter(pred),
        decreases v.len() - i,
    {
        let ch = v[i];
        proof {
            assert(v@.take(i + 1) =~= v@.take(i as int).push(ch));
            lemma_filter_push(v@.take(i as int), ch, pred);
        }
        if !crate::text::char_is_ws(ch) {
            c.push(ch);
        }
        i += 1;
    }
    assert(v@.take(v.len() as int) =~= v@);
    let cs = string_of(&c);
    let mut bytes = str_bytes(cs.as_str());
    let ghost cb = bytes@;
    let rem = bytes.len() % 4;
    if rem == 2 {
        bytes.push(61u8);
        bytes.push(61u8);
        assert(bytes@ =~= cb + seq![61u8, 61u8]);
    } else if rem == 3 {
        bytes.push(61u8);
        assert(bytes@ =~= cb + seq![61u8]);
    }
    b64_decode_exec(&bytes)
}

/// Tolerant base64 to text (see `base64_fallback_spec`).
pub fn base64_decode_fallback(s: &str) -> (r: Option<String>)
    ensures
        match r {
            Some(t) => base64_fallback_spec(s@) == Some(t@),
            None => base64_fallback_spec(s@) is None,
        },
{
    match fallback_bytes_exec(s) {
        Some(b) => utf8_string(b),
        None => None,
    }
}

// ---------------------------------------------------------------------------------------------
// KRC
// ---------------------------------------------------------------------------------------------

pub open spec fn krc_key(i: int) -> u8 {
    if i % 4 == 0 {
        0x6bu8
    } else if i % 4 == 1 {
        0x72u8
    } else if i % 4 == 2 {
        0x63u8
    } else {
        0x31u8
    }
}

/// Every byte XORed with the repeating key `krc1`.
pub open spec fn krc_xor(b: Seq<u8>) -> Seq<u8> {
    Seq::new(b.len(), |i: int| (b[i] ^ krc_key(i)) as u8)
}

pub open spec fn krc_marker() -> Seq<char> {
    seq!['k', 'r', 'c', '1']
}

/// KRC content: tolerant base64 to UTF-8 text of at least four bytes, XOR with `krc1`, UTF-8
/// again, and the `krc1` marker dropped from the front when present.
pub open spec fn decode_krc_spec(b64: Seq<char>) -> Option<Seq<char>> {
    match fallback_bytes(b64) {
        Some(b) => if valid_utf8(b) && b.len() >= 4 && valid_utf8(krc_xor(b)) {
            let out = decode_utf8(krc_xor(b));
            Some(
                if starts_with(out, krc_marker()) {
                    out.skip(4)
                } else {
                    out
                },
            )
        } else {
            None
        },
        None => None,
    }
}

/// Decodes a KRC payload (see `decode_krc_spec`).
pub fn decode_krc_content(b64: &str) -> (r: Option<String>)
    ensures
        match r {
            Some(t) => decode_krc_spec(b64@) == Some(t@),
            None => decode_krc_spec(b64@) is None,
        },
{
    let s = match base64_decode_fallback(b64) {
        Some(s) => s,
        None => return None,
    };
    let ghost b = fallback_bytes(b64@)->0;
    let bytes = str_bytes(s.as_str());
    proof {
        vstd::utf8::decode_utf8_encode_utf8(b);
        assert(bytes@ == b);
    }
    if bytes.len() < 4 {
        return None;
    }
    let mut x: Vec<u8> = Vec::new();
    let mut i: usize = 0;
    while i < bytes.len()
        invariant
            i <= bytes.len(),
            x@ =~= krc_xor(bytes@).take(i as int),
        decreases bytes.len() - i,
    {
        let k: u8 = if i % 4 == 0 {
            0x6b
        } else if i % 4 == 1 {
            0x72
        } else if i % 4 == 2 {
            0x63
        } else {
            0x31
        };
        x.push(bytes[i] ^ k);
        i += 1;
    }
    assert(krc_xor(bytes@).take(bytes.len() as int) =~= krc_xor(bytes@));
    let out = match utf8_string(x) {
        Some(o) => o,
        None => return None,
    };
    let ov = chars_of(out.as_str());
    let m = vec!['k', 'r', 'c', '1'];
    assert(m@ =~= krc_marker());
    if starts_with_exec(&ov, &m) {
        let rest = crate::text::copy_range(&ov, 4, ov.len());
        assert(ov@.subrange(4, ov@.len() as int) =~= ov@.skip(4));
        Some(string_of(&rest))
    } else {
        Some(out)
    }
}

} // verus!
