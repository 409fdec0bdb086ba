//! The small amount of markup the lyric sources need undone: HTML entities, XML tags, and
//! attribute values in a TTML tag.
use vstd::prelude::*;

use crate::text::{
    append_chars, chars_of, copy_range, find_exec, find_from, index_of_char, lemma_index_of_char,
    occurs_at, occurs_at_exec, starts_with, string_of,
};

verus! {

// ---------------------------------------------------------------------------------------------
// Replacing
// ---------------------------------------------------------------------------------------------

/// `str::replace` for a non-empty pattern: occurrences taken left to right, none overlapping.
pub open spec fn replace_all(s: Seq<char>, p: Seq<char>, r: Seq<char>) -> Seq<char>
    recommends
        p.len() > 0,
    decreases s.len(),
{
    if p.len() == 0 || s.len() == 0 {
        s
    } else if starts_with(s, p) {
        r + replace_all(s.skip(p.len() as int), p, r)
    } else {
        seq![s[0]] + replace_all(s.skip(1), p, r)
    }
}

/// Every occurrence of `p` (non-empty) replaced by `r`.
pub fn replace_all_exec(v: &Vec<char>, p: &Vec<char>, r: &Vec<char>) -> (out: Vec<char>)
    requires
        p.len() > 0,
    ensures
        out@ == replace_all(v@, p@, r@),
{
    let mut out: Vec<char> = Vec::new();
    let mut i: usize = 0;
    assert(v@.skip(0) =~= v@);
    while i < v.len()
        invariant
            i <= v.len(),
            p@.len() > 0,
            out@ + replace_all(v@.skip(i as int), p@, r@) == replace_all(v@, p@, r@),
        decreases v.len() - i,
    {
        let ghost rest = v@.skip(i as int);
        if occurs_at_exec(v, p, i) {
            proof {
                assert(rest.take(p@.len() as int) =~= v@.subrange(i as int, i + p@.len()));
                assert(rest.skip(p@.len() as int) =~= v@.skip(i + p@.len()));
                assert(out@ + r@ + replace_all(v@.skip(i + p@.len()), p@, r@) =~= out@ + (r@
                    + replace_all(rest.skip(p@.len() as int), p@, r@)));
            }
            append_chars(&mut out, r);
            i = i + p.len();
        } else {
            proof {
                if p@.len() <= rest.len() {
                    assert(rest.take(p@.len() as int) =~= v@.subrange(i as int, i + p@.len()));
                }
                assert(rest.skip(1) =~= v@.skip(i + 1));
                assert(rest[0] == v@[i as int]);
                assert(out@.push(v@[i as int]) + replace_all(v@.skip(i + 1), p@, r@) =~= out@ + (
                seq![rest[0]] + replace_all(rest.skip(1), p@, r@)));
            }
            out.push(v[i]);
            i = i + 1;
        }
    }
    assert(v@.skip(i as int) =~= Seq::<char>::empty());
    assert(out@ + Seq::<char>::empty() =~= out@);
    out
}

// ---------------------------------------------------------------------------------------------
// Entities
// ---------------------------------------------------------------------------------------------

pub open spec fn amp() -> Seq<char> { seq!['&', 'a', 'm', 'p', ';'] }
pub open spec fn quot() -> Seq<char> { seq!['&', 'q', 'u', 'o', 't', ';'] }
pub open spec fn num39() -> Seq<char> { seq!['&', '#', '3', '9', ';'] }
pub open spec fn apos() -> Seq<char> { seq!['&', 'a', 'p', 'o', 's', ';'] }
pub open spec fn lt() -> Seq<char> { seq!['&', 'l', 't', ';'] }
pub open spec fn gt() -> Seq<char> { seq!['&', 'g', 't', ';'] }
pub open spec fn nbsp() -> Seq<char> { seq!['&', 'n', 'b', 's', 'p', ';'] }

/// The entities lyric pages use, decoded one after the other in this order: `&amp;`, `&quot;`,
/// `&#39;`, `&apos;`, `&lt;`, `&gt;`, `&nbsp;` (so `&amp;lt;` ends as `<`).
pub open spec fn html_unescape_spec(s: Seq<char>) -> Seq<char> {
    let a = replace_all(s, amp(), seq!['&']);
    let b = replace_all(a, quot(), seq!['"']);
    let c = replace_all(b, num39(), seq!['\'']);
    let d = replace_all(c, apos(), seq!['\'']);
    let e = replace_all(d, lt(), seq!['<']);
    let f = replace_all(e, gt(), seq!['>']);
    replace_all(f, nbsp(), seq![' '])
}

/// Minimal entity decoding for what lyric pages actually use (see `html_unescape_spec`).
pub fn html_unescape(s: &str) -> (r: String)
    ensures
        r@ == html_unescape_spec(s@),
{
    let v = chars_of(s);
    let p1 = vec!['&', 'a', 'm', 'p', ';'];
    let r1 = vec!['&'];
    assert(p1@ =~= amp());
    assert(r1@ =~= seq!['&']);
    let a = replace_all_exec(&v, &p1, &r1);
    let p2 = vec!['&', 'q', 'u', 'o', 't', ';'];
    let r2 = vec!['"'];
    assert(p2@ =~= quot());
    assert(r2@ =~= seq!['"']);
    let b = replace_all_exec(&a, &p2, &r2);
    let p3 = vec!['&', '#', '3', '9', ';'];
    let r3 = vec!['\''];
    assert(p3@ =~= num39());
    assert(r3@ =~= seq!['\'']);
    let c = replace_all_exec(&b, &p3, &r3);
    let p4 = vec!['&', 'a', 'p', 'o', 's', ';'];
    assert(p4@ =~= apos());
    let d = replace_all_exec(&c, &p4, &r3);
    let p5 = vec!['&', 'l', 't', ';'];
    let r5 = vec!['<'];
    assert(p5@ =~= lt());
    assert(r5@ =~= seq!['<']);
    let e = replace_all_exec(&d, &p5, &r5);
    let p6 = vec!['&', 'g', 't', ';'];
    let r6 = vec!['>'];
    assert(p6@ =~= gt());
    assert(r6@ =~= seq!['>']);
    let f = replace_all_exec(&e, &p6, &r6);
    let p7 = vec!['&', 'n', 'b', 's', 'p', ';'];
    let r7 = vec![' '];
    assert(p7@ =~= nbsp());
    assert(r7@ =~= seq![' ']);
    let g = replace_all_exec(&f, &p7, &r7);
    string_of(&g)
}

// ---------------------------------------------------------------------------------------------
// Tags
// ---------------------------------------------------------------------------------------------

/// The text outside `<...>` tags; `in_tag` says whether the scan starts inside one. A `<`
/// opens a tag, a `>` closes one, and neither is kept.
pub open spec fn strip_tags_from(s: Seq<char>, in_tag: bool) -> Seq<char>
    decreases s.len(),
{
    if s.len() == 0 {
        seq![]
    } else if s[0] == '<' {
        strip_tags_from(s.skip(1), true)
    } else if s[0] == '>' {
        strip_tags_from(s.skip(1), false)
    } else if !in_tag {
        seq![s[0]] + strip_tags_from(s.skip(1), in_tag)
    } else {
        strip_tags_from(s.skip(1), in_tag)
    }
}

/// Strips XML tags, keeping the text between them (see `strip_tags_from`).
pub fn strip_xml_tags(s: &str) -> (r: String)
    ensures
        r@ == strip_tags_from(s@, false),
{
    let v = chars_of(s);
    let mut out: Vec<char> = Vec::new();
    let mut in_tag = false;
    let mut i: usize = 0;
    assert(v@.skip(0) =~= v@);
    while i < v.len()
        invariant
            i <= v.len(),
            out@ + strip_tags_from(v@.skip(i as int), in_tag) == strip_tags_from(v@, false),
        decreases v.len() - i,
    {
        let c = v[i];
        let ghost rest = v@.skip(i as int);
        assert(rest[0] == c);
        assert(rest.skip(1) =~= v@.skip(i + 1));
        if c == '<' {
            in_tag = true;
        } else if c == '>' {
            in_tag = false;
        } else if !in_tag {
            assert(out@.push(c) + strip_tags_from(v@.skip(i + 1), in_tag) =~= out@ + (seq![c]
                + strip_tags_from(rest.skip(1), in_tag)));
            out.push(c);
        }
        i += 1;
    }
    assert(v@.skip(i as int) =~= Seq::<char>::empty());
    assert(out@ + Seq::<char>::empty() =~= out@);
    string_of(&out)
}

/// The HTML tag pattern `<[^>]*>`.
pub open spec fn tag_pattern() -> Seq<char> {
    seq!['<', '[', '^', '>', ']', '*', '>']
}

/// What removing every match of `<[^>]*>` leaves: matches are found left to right, each from a
/// `<` through the first `>` after it; a `<` with no `>` after it stays.
pub open spec fn strip_html_spec(s: Seq<char>) -> Seq<char>
    decreases s.len(),
{
    if s.len() == 0 {
        seq![]
    } else if s[0] == '<' && index_of_char(s, '>', 1) < s.len() {
        proof {
            lemma_index_of_char(s, '>', 1);
        }
        strip_html_spec(s.skip(index_of_char(s, '>', 1) + 1))
    } else {
        seq![s[0]] + strip_html_spec(s.skip(1))
    }
}

/// Replaces the matches of a regular expression (regex's `Regex::new`, then
/// `Regex::replace_all`, owned).
///
/// Trusted, and claimed only for the tag pattern `<[^>]*>` (which compiles) with an empty
/// replacement: regex documents its matches as leftmost-first and non-overlapping, so each runs
/// from a `<` to the first `>` after it, and they are removed (see `strip_html_spec`).
#[verifier::external_body]
fn regex_replace_all(pattern: &str, text: &str, rep: &str) -> (r: String)
    requires
        pattern@ == tag_pattern(),
        rep@ == Seq::<char>::empty(),
    ensures
        r@ == strip_html_spec(text@),
{
    regex::Regex::new(pattern).unwrap().replace_all(text, rep).into_owned()
}

/// Removes HTML tags (`<[^>]*>`).
pub fn strip_html_tags(s: &str) -> (r: String)
    ensures
        r@ == strip_html_spec(s@),
{
    let pat = "<[^>]*>";
    let rep = "";
    proof {
        reveal_strlit("<[^>]*>");
        reveal_strlit("");
    }
    assert(pat@ =~= tag_pattern());
    assert(rep@ =~= Seq::<char>::empty());
    regex_replace_all(pat, s, rep)
}

// ---------------------------------------------------------------------------------------------
// Attributes
// ---------------------------------------------------------------------------------------------

/// The value of `attr` quoted with `q` in `tag`: after the first `attr=` followed by `q`, up to
/// the next `q`. `None` when there is no such opening, `Some(None)` when it is never closed.
pub open spec fn quoted_attr(tag: Seq<char>, attr: Seq<char>, q: char) -> Option<Option<Seq<char>>> {
    let pat = attr + seq!['=', q];
    match find_from(tag, pat, 0) {
        None => None,
        Some(idx) => {
            let start = idx + pat.len();
            match find_from(tag, seq![q], start) {
                None => Some(None),
                Some(end) => Some(Some(tag.subrange(start, end))),
            }
        },
    }
}

/// A `name="value"` (or, failing that, `name='value'`) attribute of a tag.
pub open spec fn xml_attr_spec(tag: Seq<char>, attr: Seq<char>) -> Option<Seq<char>> {
    match quoted_attr(tag, attr, '"') {
        Some(found) => found,
        None => match quoted_attr(tag, attr, '\'') {
            Some(found) => found,
            None => None,
        },
    }
}

fn quoted_attr_exec(tag: &Vec<char>, attr: &str, q: char) -> (r: Option<Option<Vec<char>>>)
    ensures
        match r {
            None => quoted_attr(tag@, attr@, q) is None,
            Some(None) => quoted_attr(tag@, attr@, q) == Some(None::<Seq<char>>),
            Some(Some(v)) => quoted_attr(tag@, attr@, q) == Some(Some(v@)),
        },
{
    let mut pat = chars_of(attr);
    pat.push('=');
    pat.push(q);
    assert(pat@ =~= attr@ + seq!['=', q]);
    let qs = vec![q];
    assert(qs@ =~= seq![q]);
    match find_exec(tag, &pat, 0) {
        None => None,
        Some(idx) => {
            assert(occurs_at(tag@, pat@, idx as int));
            let n = tag.len();
            assert(idx + pat@.len() <= n);
            let start = idx + pat.len();
            match find_exec(tag, &qs, start) {
                None => Some(None),
                Some(end) => {
                    assert(occurs_at(tag@, qs@, end as int));
                    Some(Some(copy_range(tag, start, end)))
                },
            }
        },
    }
}

/// A quoted attribute of a tag (see `xml_attr_spec`).
pub fn parse_xml_attr(tag: &str, attr: &str) -> (r: Option<String>)
    ensures
        match r {
            Some(v) => xml_attr_spec(tag@, attr@) == Some(v@),
            None => xml_attr_spec(tag@, attr@) is None,
        },
{
    let t = chars_of(tag);
    match quoted_attr_exec(&t, attr, '"') {
        Some(Some(v)) => Some(string_of(&v)),
        Some(None) => None,
        None => match quoted_attr_exec(&t, attr, '\'') {
            Some(Some(v)) => Some(string_of(&v)),
            _ => None,
        },
    }
}

} // verus!
