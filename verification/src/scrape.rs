//! Lyrics scraped from two sites' pages: Genius (plain text in `data-lyrics-container` blocks)
//! and Megalobiz (LRC lines in `lb-offset` paragraphs). The blocks are found with the regex
//! crate; what is done with them is here.
use vstd::prelude::*;

use crate::local::strings_view;
use crate::lrc::{parse_lrc, parse_lrc_spec};
use crate::lyrics::{
    lines_view, opt_lyrics_view, opt_string_view, plain_from_text, plain_spec, Lyrics, LyricsV,
};
use crate::markup::{
    html_unescape, html_unescape_spec, replace_all, replace_all_exec, strip_html_spec,
    strip_html_tags,
};
use crate::text::{append_chars, chars_of, string_of, trim, trim_vec};

verus! {

/// Genius's lyric blocks: `data-lyrics-container="true"[^>]*>((?s).*?)</div>`.
pub open spec fn genius_block_pattern() -> Seq<char> {
    "data-lyrics-container=\"true\"[^>]*>((?s).*?)</div>"@
}

/// Megalobiz's LRC paragraphs: `<p id="[^"]*" class="lb-offset[^"]*">(.*?)</p>`.
pub open spec fn megalobiz_block_pattern() -> Seq<char> {
    "<p id=\"[^\"]*\" class=\"lb-offset[^\"]*\">(.*?)</p>"@
}

/// Megalobiz's first search hit: `href="(/lyrics/[^"]+\.html)"`.
pub open spec fn megalobiz_href_pattern() -> Seq<char> {
    "href=\"(/lyrics/[^\"]+\\.html)\""@
}

/// What regex's `Regex::captures_iter` finds for `pattern` in `text`: capture group 1 of each
/// match, in order (`None` where the group did not take part).
pub uninterp spec fn regex_group_one_all(pattern: Seq<char>, text: Seq<char>) -> Seq<Option<Seq<char>>>;

/// What regex's `Regex::captures` finds for `pattern` in `text`: `None` without a match, else
/// capture group 1 of the first match (`None` where the group did not take part).
pub uninterp spec fn regex_first_group_one(pattern: Seq<char>, text: Seq<char>) -> Option<Option<Seq<char>>>;

pub open spec fn opt_strings_view(v: Seq<Option<String>>) -> Seq<Option<Seq<char>>> {
    v.map_values(|o: Option<String>| opt_string_view(o))
}

/// Capture group 1 of every match of a pattern (regex's `Regex::new`, then
/// `Regex::captures_iter`).
///
/// Trusted: claimed only for the two block patterns above, which compile; the captures are
/// named by `regex_group_one_all` and nothing more is said of them.
#[verifier::external_body]
fn captures_group_one(pattern: &str, text: &str) -> (r: Vec<Option<String>>)
    requires
        pattern@ == genius_block_pattern() || pattern@ == megalobiz_block_pattern(),
    ensures
        opt_strings_view(r@) == regex_group_one_all(pattern@, text@),
{
    regex::Regex::new(pattern).unwrap().captures_iter(text).map(|c| c.get(1).map(|m| m.as_str().to_string())).collect()
}

/// Capture group 1 of the first match of a pattern (regex's `Regex::new`, then
/// `Regex::captures`).
///
/// Trusted: claimed only for the search-hit pattern above, which compiles; the capture is
/// named by `regex_first_group_one` and nothing more is said of it.
#[verifier::external_body]
fn first_capture_group_one(pattern: &str, text: &str) -> (r: Option<Option<String>>)
    requires
        pattern@ == megalobiz_href_pattern(),
    ensures
        match r {
            None => regex_first_group_one(pattern@, text@) is None,
            Some(g) => regex_first_group_one(pattern@, text@) == Some(opt_string_view(g)),
        },
{
    regex::Regex::new(pattern).unwrap().captures(text).map(|c| c.get(1).map(|m| m.as_str().to_string()))
}

// ---------------------------------------------------------------------------------------------
// Genius
// ---------------------------------------------------------------------------------------------

pub open spec fn br_tag() -> Seq<char> {
    seq!['<', 'b', 'r', '>']
}

pub open spec fn div_close() -> Seq<char> {
    seq!['<', '/', 'd', 'i', 'v', '>']
}

/// One Genius block as text: `<br>` and `</div>` become line breaks, tags go, entities are
/// decoded, and the ends are trimmed.
pub open spec fn genius_block_text(raw: Seq<char>) -> Seq<char> {
    let with_breaks = replace_all(replace_all(raw, br_tag(), seq!['\n']), div_close(), seq!['\n']);
    trim(html_unescape_spec(strip_html_spec(with_breaks)))
}

/// The non-blank block texts, in order (an absent group reads as empty).
pub open spec fn genius_texts(raws: Seq<Option<Seq<char>>>) -> Seq<Seq<char>>
    decreases raws.len(),
{
    if raws.len() == 0 {
        seq![]
    } else {
        let t = genius_block_text(
            match raws.last() {
                Some(r) => r,
                None => seq![],
            },
        );
        if t.len() > 0 {
            genius_texts(raws.drop_last()).push(t)
        } else {
            genius_texts(raws.drop_last())
        }
    }
}

/// Texts joined with a blank line between them.
pub open spec fn joined_blocks(ts: Seq<Seq<char>>) -> Seq<char>
    decreases ts.len(),
{
    if ts.len() == 0 {
        seq![]
    } else if ts.len() == 1 {
        ts[0]
    } else {
        joined_blocks(ts.drop_last()) + seq!['\n', '\n'] + ts.last()
    }
}

pub open spec fn genius_name() -> Seq<char> {
    seq!['G', 'e', 'n', 'i', 'u', 's']
}

/// Genius lyrics from the page's captured blocks: nothing when no block has text, else the
/// blocks, a blank line apart, as plain lyrics.
pub open spec fn genius_spec(raws: Seq<Option<Seq<char>>>) -> Option<LyricsV> {
    let ts = genius_texts(raws);
    if ts.len() == 0 {
        None
    } else {
        plain_spec(Some(joined_blocks(ts)), genius_name())
    }
}

fn genius_block(raw: &str) -> (t: Vec<char>)
    ensures
        t@ == genius_block_text(raw@),
{
    let br = chars_of("<br>");
    let div = chars_of("</div>");
    let nl = chars_of("\n");
    proof {
        reveal_strlit("<br>");
        reveal_strlit("</div>");
        reveal_strlit("\n");
        assert(br@ =~= br_tag());
        assert(div@ =~= div_close());
        assert(nl@ =~= seq!['\n']);
    }
    let a = replace_all_exec(&chars_of(raw), &br, &nl);
    let b = replace_all_exec(&a, &div, &nl);
    let stripped = strip_html_tags(string_of(&b).as_str());
    let text = html_unescape(stripped.as_str());
    trim_vec(&chars_of(text.as_str()))
}

/// Genius lyrics from the captured blocks (see `genius_spec`).
pub fn genius_lyrics(raws: &Vec<Option<String>>) -> (r: Option<Lyrics>)
    ensures
        opt_lyrics_view(r) == genius_spec(opt_strings_view(raws@)),
{
    let ghost rv = opt_strings_view(raws@);
    let mut out: Vec<char> = Vec::new();
    let mut any = false;
    let mut i: usize = 0;
    while i < raws.len()
        invariant
            i <= raws.len(),
            rv == opt_strings_view(raws@),
            any == (genius_texts(rv.take(i as int)).len() > 0),
            out@ == joined_blocks(genius_texts(rv.take(i as int))),
        decreases raws.len() - i,
    {
        let raw: &str = match &raws[i] {
            Some(s) => s.as_str(),
            None => "",
        };
        proof {
            reveal_strlit("");
            assert(rv.take(i + 1).drop_last() =~= rv.take(i as int));
            assert(rv.take(i + 1).last() == opt_string_view(raws@[i as int]));
            assert(raw@ == match rv[i as int] {
                Some(r) => r,
                None => Seq::<char>::empty(),
            });
        }
        let t = genius_block(raw);
        if t.len() > 0 {
            let ghost prev = genius_texts(rv.take(i as int));
            if any {
                out.push('\n');
                out.push('\n');
            }
            append_chars(&mut out, &t);
            proof {
                let now = prev.push(t@);
                assert(now.drop_last() =~= prev);
                if !any {
                    assert(now =~= seq![t@]);
                } else {
                    assert(out@ =~= joined_blocks(prev) + seq!['\n', '\n'] + t@);
                }
            }
            any = true;
        }
        i += 1;
    }
    assert(rv.take(raws.len() as int) =~= rv);
    proof {
        reveal_strlit("Genius");
        assert("Genius"@ =~= genius_name());
    }
    if !any {
        return None;
    }
    let text = string_of(&out);
    plain_from_text(Some(text.as_str()), "Genius")
}

/// Genius lyrics from a song page.
pub fn genius_page_lyrics(html: &str) -> (r: Option<Lyrics>)
    ensures
        opt_lyrics_view(r) == genius_spec(regex_group_one_all(genius_block_pattern(), html@)),
{
    let pat = "data-lyrics-container=\"true\"[^>]*>((?s).*?)</div>";
    let raws = captures_group_one(pat, html);
    genius_lyrics(&raws)
}

// ---------------------------------------------------------------------------------------------
// Megalobiz
// ---------------------------------------------------------------------------------------------

/// One paragraph as a line: tags go, entities are decoded, and the ends are trimmed.
pub open spec fn megalobiz_line(raw: Seq<char>) -> Seq<char> {
    trim(html_unescape_spec(strip_html_spec(raw)))
}

/// The non-blank lines, each followed by a line break.
pub open spec fn megalobiz_text(raws: Seq<Option<Seq<char>>>) -> Seq<char>
    decreases raws.len(),
{
    if raws.len() == 0 {
        seq![]
    } else {
        let l = megalobiz_line(
            match raws.last() {
                Some(r) => r,
                None => seq![],
            },
        );
        if l.len() > 0 {
            megalobiz_text(raws.drop_last()) + l + seq!['\n']
        } else {
            megalobiz_text(raws.drop_last())
        }
    }
}

pub open spec fn megalobiz_name() -> Seq<char> {
    seq!['M', 'e', 'g', 'a', 'l', 'o', 'b', 'i', 'z']
}

/// Megalobiz lyrics from the captured paragraphs: nothing when their text is blank; else the
/// text's LRC lines, synced, when it has any; else the text as plain lyrics.
pub open spec fn megalobiz_spec(raws: Seq<Option<Seq<char>>>) -> Option<LyricsV> {
    let text = megalobiz_text(raws);
    if trim(text).len() == 0 {
        None
    } else if parse_lrc_spec(text).len() > 0 {
        Some(LyricsV { source: megalobiz_name(), synced: true, instrumental: false, lines: parse_lrc_spec(text) })
    } else {
        plain_spec(Some(text), megalobiz_name())
    }
}

fn megalobiz_paragraph(raw: &str) -> (t: Vec<char>)
    ensures
        t@ == megalobiz_line(raw@),
{
    let stripped = strip_html_tags(raw);
    let text = html_unescape(stripped.as_str());
    trim_vec(&chars_of(text.as_str()))
}

/// Megalobiz lyrics from the captured paragraphs (see `megalobiz_spec`).
pub fn megalobiz_lyrics(raws: &Vec<Option<String>>) -> (r: Option<Lyrics>)
    ensures
        opt_lyrics_view(r) == megalobiz_spec(opt_strings_view(raws@)),
{
    let ghost rv = opt_strings_view(raws@);
    let mut out: Vec<char> = Vec::new();
    let mut i: usize = 0;
    while i < raws.len()
        invariant
            i <= raws.len(),
            rv == opt_strings_view(raws@),
            out@ == megalobiz_text(rv.take(i as int)),
        decreases raws.len() - i,
    {
        let raw: &str = match &raws[i] {
            Some(s) => s.as_str(),
            None => "",
        };
        proof {
            reveal_strlit("");
            assert(rv.take(i + 1).drop_last() =~= rv.take(i as int));
            assert(rv.take(i + 1).last() == opt_string_view(raws@[i as int]));
            assert(raw@ == match rv[i as int] {
                Some(r) => r,
                None => Seq::<char>::empty(),
            });
        }
        let l = megalobiz_paragraph(raw);
        if l.len() > 0 {
            let ghost prev = out@;
            append_chars(&mut out, &l);
            out.push('\n');
            assert(out@ =~= prev + l@ + seq!['\n']);
        }
        i += 1;
    }
    assert(rv.take(raws.len() as int) =~= rv);
    proof {
        reveal_strlit("Megalobiz");
        assert("Megalobiz"@ =~= megalobiz_name());
    }
    if trim_vec(&out).len() == 0 {
        return None;
    }
    let text = string_of(&out);
    let lines = parse_lrc(text.as_str());
    if lines.len() > 0 {
        Some(Lyrics { source: "Megalobiz".to_string(), synced: true, instrumental: false, lines })
    } else {
        plain_from_text(Some(text.as_str()), "Megalobiz")
    }
}

/// Megalobiz lyrics from a lyrics page.
pub fn megalobiz_page_lyrics(page: &str) -> (r: Option<Lyrics>)
    ensures
        opt_lyrics_view(r) == megalobiz_spec(regex_group_one_all(megalobiz_block_pattern(), page@)),
{
    let pat = "<p id=\"[^\"]*\" class=\"lb-offset[^\"]*\">(.*?)</p>";
    let raws = captures_group_one(pat, page);
    megalobiz_lyrics(&raws)
}

/// The lyrics page of Megalobiz's first search hit: the captured link, when the search page
/// has one.
pub fn megalobiz_lyric_href(search: &str) -> (r: Option<String>)
    ensures
        opt_string_view(r) == match regex_first_group_one(megalobiz_href_pattern(), search@) {
            Some(g) => g,
            None => None,
        },
{
    let pat = "href=\"(/lyrics/[^\"]+\\.html)\"";
    match first_capture_group_one(pat, search) {
        Some(g) => g,
        None => None,
    }
}

} // verus!
