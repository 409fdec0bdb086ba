//! The floating pop-out player's placement: where it last sat (stored as physical `"x,y"`),
//! whether that spot is still on a connected display, and the bottom-right default.
use vstd::prelude::*;

use vstd::wrapping::i32_specs::{wrapping_add, wrapping_sub};

use crate::text::{
    append_chars, chars_of, dec_digits, dec_int, dec_signed_exec, digit_char, digit_value,
    digits_value, index_of_char, index_of_char_exec, is_digit, is_ws, lemma_index_of_char,
    magnitude, parse_i64, parse_i64_exec, string_of, trim, trim_bounds, trim_end, trim_start,
    all_digits,
};

verus! {

/// The card's size and its inset from the screen edge, in pixels.
pub const W: i32 = 360;
pub const H: i32 = 560;
pub const MARGIN: i32 = 24;

/// A connected display: its top-left corner and size, in physical pixels.
#[derive(Clone, Copy, Debug)]
pub struct Monitor {
    pub x: i32,
    pub y: i32,
    pub width: u32,
    pub height: u32,
}

// ---------------------------------------------------------------------------------------------
// The stored position
// ---------------------------------------------------------------------------------------------

/// `str::parse::<i32>()`: an optional sign, then one or more ASCII digits, within range.
pub open spec fn parse_i32(s: Seq<char>) -> Option<i32> {
    let neg = s.len() > 0 && s[0] == '-';
    let body = if s.len() > 0 && (s[0] == '+' || s[0] == '-') {
        s.drop_first()
    } else {
        s
    };
    match magnitude(body) {
        Some(n) => {
            let v: int = if neg {
                -n
            } else {
                n as int
            };
            if i32::MIN <= v <= i32::MAX {
                Some(v as i32)
            } else {
                None
            }
        },
        None => None,
    }
}

fn parse_i32_exec(v: &[char], from: usize, to: usize) -> (r: Option<i32>)
    requires
        from <= to <= v.len(),
    ensures
        r == parse_i32(v@.subrange(from as int, to as int)),
{
    match parse_i64_exec(v, from, to) {
        Some(n) => {
            if -2147483648i64 <= n && n <= 2147483647i64 {
                Some(n as i32)
            } else {
                None
            }
        },
        None => None,
    }
}

/// `"x,y"`: split at the first comma, each side trimmed and read as an `i32`.
pub open spec fn parse_pos_spec(s: Seq<char>) -> Option<(i32, i32)> {
    let i = index_of_char(s, ',', 0);
    if i >= s.len() {
        None
    } else {
        match (parse_i32(trim(s.take(i))), parse_i32(trim(s.skip(i + 1)))) {
            (Some(x), Some(y)) => Some((x, y)),
            _ => None,
        }
    }
}

/// Reads a stored position (see `parse_pos_spec`).
pub fn parse_pos(s: &str) -> (r: Option<(i32, i32)>)
    ensures
        r == parse_pos_spec(s@),
{
    let v = chars_of(s);
    let i = index_of_char_exec(&v, ',', 0);
    if i >= v.len() {
        return None;
    }
    let (a, b) = trim_bounds(&v, 0, i);
    let (c, d) = trim_bounds(&v, i + 1, v.len());
    assert(v@.subrange(0, i as int) =~= v@.take(i as int));
    assert(v@.subrange(i + 1, v@.len() as int) =~= v@.skip(i + 1));
    match (parse_i32_exec(&v, a, b), parse_i32_exec(&v, c, d)) {
        (Some(x), Some(y)) => Some((x, y)),
        _ => None,
    }
}

/// How a position is stored: `"x,y"` in decimal.
pub open spec fn format_pos_spec(x: i32, y: i32) -> Seq<char> {
    dec_int(x as int) + seq![','] + dec_int(y as int)
}

fn dec_i32(n: i32) -> (r: Vec<char>)
    ensures
        r@ == dec_int(n as int),
{
    if n < 0 {
        let m: u64 = (-(n as i64)) as u64;
        dec_signed_exec(true, m)
    } else {
        dec_signed_exec(false, n as u64)
    }
}

/// How a position is stored (see `format_pos_spec`).
pub fn format_pos(x: i32, y: i32) -> (r: String)
    ensures
        r@ == format_pos_spec(x, y),
{
    let mut v = dec_i32(x);
    v.push(',');
    let w = dec_i32(y);
    append_chars(&mut v, &w);
    string_of(&v)
}

proof fn lemma_dec_digits(n: nat)
    ensures
        dec_digits(n).len() > 0,
        all_digits(dec_digits(n)),
        digits_value(dec_digits(n)) == n,
    decreases n,
{
    let d = dec_digits(n);
    if n < 10 {
        assert(d == seq![digit_char(n)]);
        assert(d.drop_last() =~= Seq::<char>::empty());
        assert(digit_value(digit_char(n)) == n);
        assert(digits_value(d) == digits_value(d.drop_last()) * 10 + digit_value(d.last()));
    } else {
        lemma_dec_digits(n / 10);
        let p = dec_digits(n / 10);
        assert(d == p + seq![digit_char(n % 10)]);
        assert(d.drop_last() =~= p);
        assert(d.last() == digit_char(n % 10));
        assert(digit_value(digit_char(n % 10)) == n % 10);
        assert(digits_value(d) == digits_value(p) * 10 + digit_value(d.last()));
        assert((n / 10) * 10 + n % 10 == n);
        assert(forall|i: int| 0 <= i < d.len() ==> is_digit(#[trigger] d[i])) by {
            assert forall|i: int| 0 <= i < d.len() implies is_digit(#[trigger] d[i]) by {
                if i < p.len() {
                    assert(d[i] == p[i]);
                }
            }
        }
    }
}

proof fn lemma_dec_int(n: i32)
    ensures
        dec_int(n as int).len() > 0,
        !is_ws(dec_int(n as int)[0]),
        !is_ws(dec_int(n as int).last()),
        forall|i: int| 0 <= i < dec_int(n as int).len() ==> #[trigger] dec_int(n as int)[i] != ',',
        parse_i32(dec_int(n as int)) == Some(n),
        trim(dec_int(n as int)) == dec_int(n as int),
{
    let s = dec_int(n as int);
    if n < 0 {
        let m = (-(n as int)) as nat;
        lemma_dec_digits(m);
        let d = dec_digits(m);
        assert(s == seq!['-'] + d);
        assert(s.drop_first() =~= d);
        assert(s.last() == d.last());
        assert(is_digit(d[d.len() - 1]));
        assert forall|i: int| 0 <= i < s.len() implies #[trigger] s[i] != ',' by {
            if i > 0 {
                assert(s[i] == d[i - 1]);
                assert(is_digit(d[i - 1]));
            }
        }
    } else {
        lemma_dec_digits(n as nat);
        assert(is_digit(s[0]));
        assert(is_digit(s[s.len() - 1]));
        assert forall|i: int| 0 <= i < s.len() implies #[trigger] s[i] != ',' by {
            assert(is_digit(s[i]));
        }
    }
    assert(trim_start(s) == s);
    assert(trim_end(s) == s);
}

/// A stored position reads back as the same position.
pub proof fn lemma_pos_round_trip(x: i32, y: i32)
    ensures
        parse_pos_spec(format_pos_spec(x, y)) == Some((x, y)),
{
    lemma_dec_int(x);
    lemma_dec_int(y);
    let a = dec_int(x as int);
    let b = dec_int(y as int);
    let s = format_pos_spec(x, y);
    assert(s == a + seq![','] + b);
    lemma_index_of_char(s, ',', 0);
    let i = index_of_char(s, ',', 0);
    assert(s[a.len() as int] == ',');
    if i < a.len() {
        assert(s[i] == a[i]);
    }
    assert(i == a.len());
    assert(s.take(i) =~= a);
    assert(s.skip(i + 1) =~= b);
}

// ---------------------------------------------------------------------------------------------
// Displays
// ---------------------------------------------------------------------------------------------

/// The point is on the display (its top-left corner inclusive, the far edges exclusive; the
/// far edges computed with 32-bit two's-complement arithmetic).
pub open spec fn contains_spec(m: Monitor, px: i32, py: i32) -> bool {
    &&& px >= m.x
    &&& py >= m.y
    &&& px < wrapping_add(m.x, m.width as i32)
    &&& py < wrapping_add(m.y, m.height as i32)
}

/// Whether a point is on a display (see `contains_spec`).
pub fn contains(m: Monitor, px: i32, py: i32) -> (r: bool)
    ensures
        r == contains_spec(m, px, py),
{
    px >= m.x && py >= m.y && px < m.x.wrapping_add(m.width as i32) && py < m.y.wrapping_add(
        m.height as i32,
    )
}

pub open spec fn on_a_display_spec(ms: Seq<Monitor>, px: i32, py: i32) -> bool {
    exists|i: int| 0 <= i < ms.len() && contains_spec(#[trigger] ms[i], px, py)
}

/// Whether a point is on any connected display.
pub fn on_a_display(ms: &Vec<Monitor>, px: i32, py: i32) -> (r: bool)
    ensures
        r == on_a_display_spec(ms@, px, py),
{
    let mut i: usize = 0;
    while i < ms.len()
        invariant
            i <= ms.len(),
            forall|j: int| 0 <= j < i ==> !contains_spec(#[trigger] ms@[j], px, py),
        decreases ms.len() - i,
    {
        if contains(ms[i], px, py) {
            return true;
        }
        i += 1;
    }
    false
}

/// The card's top-left corner at the display's bottom-right, inset by `MARGIN` (32-bit
/// two's-complement arithmetic, as the corner is computed).
pub open spec fn bottom_right_spec(m: Monitor) -> (i32, i32) {
    (
        wrapping_sub(wrapping_sub(wrapping_add(m.x, m.width as i32), W), MARGIN),
        wrapping_sub(wrapping_sub(wrapping_add(m.y, m.height as i32), H), MARGIN),
    )
}

/// The default spot on a display (see `bottom_right_spec`).
pub fn bottom_right(m: Monitor) -> (r: (i32, i32))
    ensures
        r == bottom_right_spec(m),
{
    (
        m.x.wrapping_add(m.width as i32).wrapping_sub(W).wrapping_sub(MARGIN),
        m.y.wrapping_add(m.height as i32).wrapping_sub(H).wrapping_sub(MARGIN),
    )
}

/// Where the card opens: the stored position when it reads and is still on a display, else
/// the bottom-right of the primary display, else wherever the window manager puts it.
pub open spec fn placement_spec(saved: Option<Seq<char>>, ms: Seq<Monitor>, primary: Option<Monitor>) -> Option<(i32, i32)> {
    let stored = match saved {
        Some(s) => match parse_pos_spec(s) {
            Some(p) => if on_a_display_spec(ms, p.0, p.1) {
                Some(p)
            } else {
                None
            },
            None => None,
        },
        None => None,
    };
    match stored {
        Some(p) => Some(p),
        None => match primary {
            Some(m) => Some(bottom_right_spec(m)),
            None => None,
        },
    }
}

/// Where the card opens (see `placement_spec`).
pub fn placement(saved: Option<&str>, ms: &Vec<Monitor>, primary: Option<Monitor>) -> (r: Option<(i32, i32)>)
    ensures
        r == placement_spec(crate::lyrics::opt_str_view(saved), ms@, primary),
{
    if let Some(s) = saved {
        if let Some(p) = parse_pos(s) {
            if on_a_display(ms, p.0, p.1) {
                return Some(p);
            }
        }
    }
    match primary {
        Some(m) => Some(bottom_right(m)),
        None => None,
    }
}

} // verus!
