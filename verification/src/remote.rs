//! The LAN remote's gate: which pairing token a request carries, and whether it may pass.
use vstd::prelude::*;

use crate::text::{
    ascii_lower, char_ascii_lower, char_is_ws, chars_eq, chars_of, copy_range,
    find_exec, find_from, is_ws, lines, lines_exec, occurs_at, starts_with, starts_with_exec,
    string_of, trim, trim_bounds,
};

verus! {

// ---------------------------------------------------------------------------------------------
// Whitespace-separated words
// ---------------------------------------------------------------------------------------------

/// First index at or after `from` holding whitespace (or `s.len()`).
pub open spec fn next_ws(s: Seq<char>, from: int) -> int
    decreases s.len() - from,
{
    if from >= s.len() {
        s.len() as int
    } else if is_ws(s[from]) {
        from
    } else {
        next_ws(s, from + 1)
    }
}

/// First index at or after `from` holding a non-whitespace character (or `s.len()`).
pub open spec fn next_non_ws(s: Seq<char>, from: int) -> int
    decreases s.len() - from,
{
    if from >= s.len() {
        s.len() as int
    } else if !is_ws(s[from]) {
        from
    } else {
        next_non_ws(s, from + 1)
    }
}

proof fn lemma_next_ws(s: Seq<char>, from: int)
    requires
        0 <= from <= s.len(),
    ensures
        from <= next_ws(s, from) <= s.len(),
        next_ws(s, from) < s.len() ==> is_ws(s[next_ws(s, from)]),
        forall|j: int| from <= j < next_ws(s, from) ==> !is_ws(s[j]),
    decreases s.len() - from,
{
    if from < s.len() && !is_ws(s[from]) {
        lemma_next_ws(s, from + 1);
    }
}

proof fn lemma_next_non_ws(s: Seq<char>, from: int)
    requires
        0 <= from <= s.len(),
    ensures
        from <= next_non_ws(s, from) <= s.len(),
        next_non_ws(s, from) < s.len() ==> !is_ws(s[next_non_ws(s, from)]),
    decreases s.len() - from,
{
    if from < s.len() && is_ws(s[from]) {
        lemma_next_non_ws(s, from + 1);
    }
}

/// `str::split_whitespace` of `s[from..]`: the maximal runs of non-whitespace characters.
pub open spec fn words_from(s: Seq<char>, from: int) -> Seq<Seq<char>>
    decreases s.len() - from,
{
    let a = next_non_ws(s, from);
    if from < 0 || a >= s.len() || a < from {
        seq![]
    } else {
        let b = next_ws(s, a);
        if b <= a || b > s.len() {
            seq![]
        } else {
            seq![s.subrange(a, b)] + words_from(s, b)
        }
    }
}

fn next_ws_exec(v: &[char], from: usize) -> (r: usize)
    requires
        from <= v.len(),
    ensures
        r == next_ws(v@, from as int),
{
    let mut i = from;
    while i < v.len() && !char_is_ws(v[i])
        invariant
            from <= i <= v.len(),
            next_ws(v@, i as int) == next_ws(v@, from as int),
        decreases v.len() - i,
    {
        i += 1;
    }
    i
}

fn next_non_ws_exec(v: &[char], from: usize) -> (r: usize)
    requires
        from <= v.len(),
    ensures
        r == next_non_ws(v@, from as int),
{
    let mut i = from;
    while i < v.len() && char_is_ws(v[i])
        invariant
            from <= i <= v.len(),
            next_non_ws(v@, i as int) == next_non_ws(v@, from as int),
        decreases v.len() - i,
    {
        i += 1;
    }
    i
}

// ---------------------------------------------------------------------------------------------
// Tokens
// ---------------------------------------------------------------------------------------------

pub open spec fn token_eq() -> Seq<char> {
    seq!['t', 'o', 'k', 'e', 'n', '=']
}

pub open spec fn header_name() -> Seq<char> {
    seq![
        'x', '-', 'r', 'e', 'm', 'o', 't', 'e', '-', 't', 'o', 'k', 'e', 'n', ':',
    ]
}

pub open spec fn is_token_end(c: char) -> bool {
    c == '&' || c == ' ' || c == '"' || c == '\''
}

/// Index of the first token terminator (`&`, space, `"` or `'`) at or after `from`.
pub open spec fn token_end(s: Seq<char>, from: int) -> int
    decreases s.len() - from,
{
    if from >= s.len() {
        s.len() as int
    } else if is_token_end(s[from]) {
        from
    } else {
        token_end(s, from + 1)
    }
}

/// The token a `token=` parameter in one word carries (the first occurrence counts; an empty
/// value is none).
pub open spec fn word_token(w: Seq<char>) -> Option<Seq<char>> {
    match find_from(w, token_eq(), 0) {
        None => None,
        Some(i) => {
            let start = i + 6;
            let end = token_end(w, start);
            if end > start {
                Some(w.subrange(start, end))
            } else {
                None
            }
        },
    }
}

/// The first word that carries a token.
pub open spec fn first_word_token(ws: Seq<Seq<char>>) -> Option<Seq<char>>
    decreases ws.len(),
{
    if ws.len() == 0 {
        None
    } else {
        match word_token(ws[0]) {
            Some(t) => Some(t),
            None => first_word_token(ws.drop_first()),
        }
    }
}

/// The value of an `X-Remote-Token:` header line (name matched case-insensitively), trimmed;
/// empty is none.
pub open spec fn header_token(line: Seq<char>) -> Option<Seq<char>> {
    if starts_with(line.map_values(|c: char| ascii_lower(c)), header_name()) {
        let t = trim(line.skip(15));
        if t.len() > 0 {
            Some(t)
        } else {
            None
        }
    } else {
        None
    }
}

pub open spec fn first_header_token(ls: Seq<Seq<char>>) -> Option<Seq<char>>
    decreases ls.len(),
{
    if ls.len() == 0 {
        None
    } else {
        match header_token(ls[0]) {
            Some(t) => Some(t),
            None => first_header_token(ls.drop_first()),
        }
    }
}

/// The pairing token of a request: a `token=` parameter anywhere in a whitespace-separated word
/// first, else an `X-Remote-Token` header.
pub open spec fn extract_token_spec(req: Seq<char>) -> Option<Seq<char>> {
    match first_word_token(words_from(req, 0)) {
        Some(t) => Some(t),
        None => first_header_token(lines(req)),
    }
}

fn token_end_exec(v: &[char], from: usize) -> (r: usize)
    requires
        from <= v.len(),
    ensures
        r == token_end(v@, from as int),
        from <= r <= v.len(),
{
    let mut i = from;
    while i < v.len() && !(v[i] == '&' || v[i] == ' ' || v[i] == '"' || v[i] == '\'')
        invariant
            from <= i <= v.len(),
            token_end(v@, i as int) == token_end(v@, from as int),
        decreases v.len() - i,
    {
        i += 1;
    }
    i
}

fn word_token_exec(w: &[char]) -> (r: Option<Vec<char>>)
    ensures
        match r {
            Some(t) => word_token(w@) == Some(t@),
            None => word_token(w@) is None,
        },
{
    let pat = vec!['t', 'o', 'k', 'e', 'n', '='];
    assert(pat@ =~= token_eq());
    match find_exec(w, &pat, 0) {
        None => None,
        Some(i) => {
            assert(occurs_at(w@, token_eq(), i as int));
            assert(token_eq().len() == 6);
            assert(i + 6 <= w@.len());
            assert(w@.len() == w.len());
            let start = i + 6;
            let end = token_end_exec(w, start);
            if end > start {
                Some(copy_range(w, start, end))
            } else {
                None
            }
        },
    }
}

fn header_token_exec(line: &[char]) -> (r: Option<Vec<char>>)
    ensures
        match r {
            Some(t) => header_token(line@) == Some(t@),
            None => header_token(line@) is None,
        },
{
    let mut lower: Vec<char> = Vec::new();
    let mut i: usize = 0;
    while i < line.len()
        invariant
            i <= line.len(),
            lower@ == line@.take(i as int).map_values(|c: char| ascii_lower(c)),
        decreases line.len() - i,
    {
        lower.push(char_ascii_lower(line[i]));
        assert(line@.take(i + 1).map_values(|c: char| ascii_lower(c)) =~= line@.take(
            i as int,
        ).map_values(|c: char| ascii_lower(c)).push(ascii_lower(line@[i as int])));
        i += 1;
    }
    assert(line@.take(line.len() as int) =~= line@);
    let name = vec!['x', '-', 'r', 'e', 'm', 'o', 't', 'e', '-', 't', 'o', 'k', 'e', 'n', ':'];
    assert(name@ =~= header_name());
    if !starts_with_exec(&lower, &name) {
        return None;
    }
    let (a, b) = trim_bounds(line, 15, line.len());
    assert(line@.subrange(15, line@.len() as int) =~= line@.skip(15));
    if b > a {
        Some(copy_range(line, a, b))
    } else {
        None
    }
}

/// The first `token=` value among the words of `v`.
fn query_token(v: &Vec<char>) -> (r: Option<Vec<char>>)
    ensures
        match r {
            Some(t) => first_word_token(words_from(v@, 0)) == Some(t@),
            None => first_word_token(words_from(v@, 0)) is None,
        },
{
    let mut pos: usize = 0;
    loop
        invariant
            pos <= v.len(),
            first_word_token(words_from(v@, 0)) == first_word_token(words_from(v@, pos as int)),
        decreases v.len() - pos,
    {
        let ghost ws = words_from(v@, pos as int);
        let a = next_non_ws_exec(v, pos);
        proof {
            lemma_next_non_ws(v@, pos as int);
        }
        if a >= v.len() {
            assert(ws =~= Seq::<Seq<char>>::empty());
            return None;
        }
        let b = next_ws_exec(v, a);
        proof {
            lemma_next_ws(v@, a as int);
        }
        let w = copy_range(v, a, b);
        proof {
            assert(ws == seq![v@.subrange(a as int, b as int)] + words_from(v@, b as int));
            assert(ws[0] == w@);
            assert(ws.drop_first() =~= words_from(v@, b as int));
        }
        let t = word_token_exec(&w);
        if t.is_some() {
            return t;
        }
        pos = b;
    }
}

/// The first `X-Remote-Token` header among the lines of `v`.
fn header_scan(v: &Vec<char>) -> (r: Option<Vec<char>>)
    ensures
        match r {
            Some(t) => first_header_token(lines(v@)) == Some(t@),
            None => first_header_token(lines(v@)) is None,
        },
{
    let ls = lines_exec(v);
    let ghost all = lines(v@);
    let mut i: usize = 0;
    assert(all.skip(0) =~= all);
    while i < ls.len()
        invariant
            i <= ls.len(),
            ls@.len() == all.len(),
            all == lines(v@),
            forall|k: int| 0 <= k < ls@.len() ==> #[trigger] ls@[k]@ == all[k],
            first_header_token(all) == first_header_token(all.skip(i as int)),
        decreases ls.len() - i,
    {
        proof {
            assert(all.skip(i as int)[0] == ls@[i as int]@);
            assert(all.skip(i as int).drop_first() =~= all.skip(i + 1));
        }
        let t = header_token_exec(&ls[i]);
        if t.is_some() {
            return t;
        }
        i += 1;
    }
    assert(all.skip(ls.len() as int) =~= Seq::<Seq<char>>::empty());
    None
}

/// Reads the pairing token a request carries, if any (see `extract_token_spec`).
pub fn extract_token(request: &str) -> (r: Option<String>)
    ensures
        match r {
            Some(t) => extract_token_spec(request@) == Some(t@),
            None => extract_token_spec(request@) is None,
        },
{
    let v = chars_of(request);
    match query_token(&v) {
        Some(t) => Some(string_of(&t)),
        None => match header_scan(&v) {
            Some(t) => Some(string_of(&t)),
            None => None,
        },
    }
}

pub open spec fn get_pair() -> Seq<char> {
    seq!['G', 'E', 'T', ' ', '/', 'p', 'a', 'i', 'r']
}

pub open spec fn post_pair() -> Seq<char> {
    seq!['P', 'O', 'S', 'T', ' ', '/', 'p', 'a', 'i', 'r']
}

/// A request passes when it is the pairing probe (its request line starts with `GET /pair` or
/// `POST /pair`), or when the token it carries is exactly the expected one.
pub open spec fn is_authorized_spec(req: Seq<char>, expected: Seq<char>) -> bool {
    starts_with(req, get_pair()) || starts_with(req, post_pair()) || extract_token_spec(req)
        == Some(expected)
}

/// Whether a LAN request may pass (see `is_authorized_spec`).
pub fn is_authorized(request: &str, expected: &str) -> (b: bool)
    ensures
        b == is_authorized_spec(request@, expected@),
{
    let v = chars_of(request);
    let g = vec!['G', 'E', 'T', ' ', '/', 'p', 'a', 'i', 'r'];
    let p = vec!['P', 'O', 'S', 'T', ' ', '/', 'p', 'a', 'i', 'r'];
    assert(g@ =~= get_pair());
    assert(p@ =~= post_pair());
    if starts_with_exec(&v, &g) || starts_with_exec(&v, &p) {
        return true;
    }
    match extract_token(request) {
        Some(t) => chars_eq(&chars_of(t.as_str()), &chars_of(expected)),
        None => false,
    }
}

} // verus!
