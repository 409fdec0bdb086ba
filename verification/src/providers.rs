//! What lyric providers' replies become once fetched: Kugou's base64 (KRC-encrypted or not)
//! download, NetEase's word-timed `yrc` with its plain `lrc` behind it, QQ Music's base64 QRC,
//! Unison's text or line list, SimpMusic's candidate texts, and
//! Musixmatch's word-timed lines or subtitle body. The LRC/TTML parse of a text, which reads fractional
//! seconds, is done by the caller and handed in.
use vstd::prelude::*;

use crate::krc::{base64_decode_fallback, base64_fallback_spec, decode_krc_content, decode_krc_spec};
use crate::lrc::{parse_krc_words, parse_krc_words_spec, parse_lrc, parse_lrc_spec};
use crate::lyrics::{
    from_parsed, from_parsed_spec, lines_view, opt_lyrics_view, opt_str_view, plain_from_text, plain_spec,
    LineV, LyricLine, Lyrics,
};
use crate::markup::{strip_html_spec, strip_html_tags};
use crate::text::{chars_of, index_of_char_exec, trim, trim_vec};

verus! {

/// Kugou's download as text: the KRC-decrypted content, else the plain base64 decode, else the
/// field itself; nothing when the field is empty or the text is blank.
pub open spec fn kugou_text_spec(b64: Seq<char>) -> Option<Seq<char>> {
    if b64.len() == 0 {
        None
    } else {
        let decoded = match decode_krc_spec(b64) {
            Some(t) => t,
            None => match base64_fallback_spec(b64) {
                Some(t) => t,
                None => b64,
            },
        };
        if trim(decoded).len() == 0 {
            None
        } else {
            Some(decoded)
        }
    }
}

pub fn kugou_text(b64: &str) -> (r: Option<String>)
    ensures
        match r {
            Some(t) => kugou_text_spec(b64@) == Some(t@),
            None => kugou_text_spec(b64@) is None,
        },
{
    if b64.unicode_len() == 0 {
        return None;
    }
    let decoded = match decode_krc_content(b64) {
        Some(t) => t,
        None => match base64_decode_fallback(b64) {
            Some(t) => t,
            None => b64.to_string(),
        },
    };
    let v = chars_of(decoded.as_str());
    if trim_vec(&v).len() == 0 {
        None
    } else {
        Some(decoded)
    }
}

pub open spec fn kugou_name() -> Seq<char> {
    seq!['K', 'u', 'g', 'o', 'u']
}

pub open spec fn any_words(ls: Seq<LineV>) -> bool {
    exists|i: int| 0 <= i < ls.len() && (#[trigger] ls[i]).words is Some
}

/// Kugou's text as lyrics, given its LRC/TTML parse `parsed`: that parse when it has lines,
/// except that a parse without word timings of a text that looks like KRC (`<` and `,`) gives
/// way to the KRC word parse when that finds lines; with no lines parsed, a plain LRC parse.
pub open spec fn kugou_spec(decoded: Seq<char>, parsed: Seq<LineV>) -> Option<crate::lyrics::LyricsV> {
    if parsed.len() > 0 {
        let krc = parse_krc_words_spec(decoded);
        if !any_words(parsed) && decoded.contains('<') && decoded.contains(',') && krc.len() > 0 {
            from_parsed_spec(kugou_name(), krc)
        } else {
            from_parsed_spec(kugou_name(), parsed)
        }
    } else {
        from_parsed_spec(kugou_name(), parse_lrc_spec(decoded))
    }
}

fn any_words_exec(ls: &Vec<LyricLine>) -> (b: bool)
    ensures
        b == any_words(lines_view(ls@)),
{
    let mut i: usize = 0;
    while i < ls.len()
        invariant
            i <= ls.len(),
            forall|k: int| 0 <= k < i ==> (#[trigger] lines_view(ls@)[k]).words is None,
        decreases ls.len() - i,
    {
        if ls[i].words.is_some() {
            assert(lines_view(ls@)[i as int].words is Some);
            return true;
        }
        i += 1;
    }
    false
}

fn has_char(s: &str, c: char) -> (b: bool)
    ensures
        b == s@.contains(c),
{
    let v = chars_of(s);
    let i = index_of_char_exec(&v, c, 0);
    if i < v.len() {
        true
    } else {
        assert forall|j: int| 0 <= j < v@.len() implies v@[j] != c by {}
        false
    }
}

/// Kugou's text as lyrics (see `kugou_spec`), its LRC/TTML parse made from the text and the
/// JSON and TTML readings of it (see `lrc_or_ttml`).
pub fn kugou_lyrics(decoded: &str, json: Option<Vec<LyricLine>>, ttml: Vec<LyricLine>) -> (r: Option<Lyrics>)
    ensures
        opt_lyrics_view(r) == kugou_spec(
            decoded@,
            crate::formats::lrc_or_ttml_spec(decoded@, crate::formats::opt_lines_view(json), lines_view(ttml@)),
        ),
{
    let parsed = crate::formats::lrc_or_ttml(decoded, json, ttml);
    proof {
        reveal_strlit("Kugou");
        assert("Kugou"@ =~= kugou_name());
    }
    if parsed.len() > 0 {
        let worded = any_words_exec(&parsed);
        if !worded && has_char(decoded, '<') && has_char(decoded, ',') {
            let kw = parse_krc_words(decoded);
            if kw.len() > 0 {
                return from_parsed("Kugou", kw);
            }
        }
        return from_parsed("Kugou", parsed);
    }
    let lrc = parse_lrc(decoded);
    from_parsed("Kugou", lrc)
}

pub open spec fn netease_name() -> Seq<char> {
    seq!['N', 'e', 't', 'E', 'a', 's', 'e']
}

pub open spec fn any_timed(ls: Seq<LineV>) -> bool {
    exists|i: int| 0 <= i < ls.len() && ((#[trigger] ls[i]).words is Some || ls[i].time_ms is Some)
}

/// NetEase's reply as lyrics, given the LRC/TTML parses of its two texts: the `yrc` text's KRC
/// word parse when it finds lines, else that text's LRC/TTML parse when it has lines and some
/// timing; failing both (or with a blank `yrc`), the `lrc` text's parse unless that text is
/// blank or parses to nothing.
pub open spec fn netease_spec(
    yrc: Seq<char>,
    yrc_parsed: Seq<LineV>,
    lrc: Seq<char>,
    lrc_parsed: Seq<LineV>,
) -> Option<crate::lyrics::LyricsV> {
    let yw = parse_krc_words_spec(yrc);
    if trim(yrc).len() > 0 && yw.len() > 0 {
        from_parsed_spec(netease_name(), yw)
    } else if trim(yrc).len() > 0 && yrc_parsed.len() > 0 && any_timed(yrc_parsed) {
        from_parsed_spec(netease_name(), yrc_parsed)
    } else if trim(lrc).len() == 0 || lrc_parsed.len() == 0 {
        None
    } else {
        from_parsed_spec(netease_name(), lrc_parsed)
    }
}

fn any_timed_exec(ls: &Vec<LyricLine>) -> (b: bool)
    ensures
        b == any_timed(lines_view(ls@)),
{
    let mut i: usize = 0;
    while i < ls.len()
        invariant
            i <= ls.len(),
            forall|k: int|
                0 <= k < i ==> (#[trigger] lines_view(ls@)[k]).words is None && lines_view(ls@)[k].time_ms is None,
        decreases ls.len() - i,
    {
        if ls[i].words.is_some() || ls[i].time_ms.is_some() {
            assert(lines_view(ls@)[i as int].words is Some || lines_view(ls@)[i as int].time_ms is Some);
            return true;
        }
        i += 1;
    }
    false
}

/// NetEase's reply as lyrics (see `netease_spec`), each text's LRC/TTML parse made from the text
/// and the JSON and TTML readings of it (see `lrc_or_ttml`).
pub fn netease_lyrics(
    yrc: &str,
    yrc_json: Option<Vec<LyricLine>>,
    yrc_ttml: Vec<LyricLine>,
    lrc: &str,
    lrc_json: Option<Vec<LyricLine>>,
    lrc_ttml: Vec<LyricLine>,
) -> (r: Option<Lyrics>)
    ensures
        opt_lyrics_view(r) == netease_spec(
            yrc@,
            crate::formats::lrc_or_ttml_spec(yrc@, crate::formats::opt_lines_view(yrc_json), lines_view(yrc_ttml@)),
            lrc@,
            crate::formats::lrc_or_ttml_spec(lrc@, crate::formats::opt_lines_view(lrc_json), lines_view(lrc_ttml@)),
        ),
{
    let yrc_parsed = crate::formats::lrc_or_ttml(yrc, yrc_json, yrc_ttml);
    let lrc_parsed = crate::formats::lrc_or_ttml(lrc, lrc_json, lrc_ttml);
    proof {
        reveal_strlit("NetEase");
        assert("NetEase"@ =~= netease_name());
    }
    let yv = chars_of(yrc);
    if trim_vec(&yv).len() > 0 {
        let yw = parse_krc_words(yrc);
        if yw.len() > 0 {
            return from_parsed("NetEase", yw);
        }
        if yrc_parsed.len() > 0 && any_timed_exec(&yrc_parsed) {
            return from_parsed("NetEase", yrc_parsed);
        }
    }
    let lv = chars_of(lrc);
    if trim_vec(&lv).len() == 0 || lrc_parsed.len() == 0 {
        return None;
    }
    from_parsed("NetEase", lrc_parsed)
}

// ---------------------------------------------------------------------------------------------
// QQ Music (QRC)
// ---------------------------------------------------------------------------------------------

/// QQ Music's `lyric` field as text: its base64 decode, else the field itself; nothing when
/// the field is empty or the text is blank.
pub open spec fn qrc_text_spec(b64: Seq<char>) -> Option<Seq<char>> {
    if b64.len() == 0 {
        None
    } else {
        let decoded = match base64_fallback_spec(b64) {
            Some(t) => t,
            None => b64,
        };
        if trim(decoded).len() == 0 {
            None
        } else {
            Some(decoded)
        }
    }
}

pub fn qrc_text(b64: &str) -> (r: Option<String>)
    ensures
        match r {
            Some(t) => qrc_text_spec(b64@) == Some(t@),
            None => qrc_text_spec(b64@) is None,
        },
{
    if b64.unicode_len() == 0 {
        return None;
    }
    let decoded = match base64_decode_fallback(b64) {
        Some(t) => t,
        None => b64.to_string(),
    };
    let v = chars_of(decoded.as_str());
    if trim_vec(&v).len() == 0 {
        None
    } else {
        Some(decoded)
    }
}

pub open spec fn qrc_name() -> Seq<char> {
    seq!['Q', 'R', 'C']
}

/// QRC text as lyrics: its KRC word parse when that finds lines, else its LRC/TTML parse.
pub open spec fn qrc_spec(decoded: Seq<char>, parsed: Seq<LineV>) -> Option<crate::lyrics::LyricsV> {
    let kw = parse_krc_words_spec(decoded);
    if kw.len() > 0 {
        from_parsed_spec(qrc_name(), kw)
    } else {
        from_parsed_spec(qrc_name(), parsed)
    }
}

/// QQ Music's decoded QRC as lyrics (see `qrc_spec`), its LRC/TTML parse made from the text and
/// the JSON and TTML readings of it (see `lrc_or_ttml`).
pub fn qrc_lyrics(decoded: &str, json: Option<Vec<LyricLine>>, ttml: Vec<LyricLine>) -> (r: Option<Lyrics>)
    ensures
        opt_lyrics_view(r) == qrc_spec(
            decoded@,
            crate::formats::lrc_or_ttml_spec(decoded@, crate::formats::opt_lines_view(json), lines_view(ttml@)),
        ),
{
    let parsed = crate::formats::lrc_or_ttml(decoded, json, ttml);
    proof {
        reveal_strlit("QRC");
        assert("QRC"@ =~= qrc_name());
    }
    let kw = parse_krc_words(decoded);
    if kw.len() > 0 {
        return from_parsed("QRC", kw);
    }
    from_parsed("QRC", parsed)
}

// ---------------------------------------------------------------------------------------------
// Unison
// ---------------------------------------------------------------------------------------------

pub open spec fn unison_name() -> Seq<char> {
    seq!['U', 'n', 'i', 's', 'o', 'n']
}

/// A Unison list entry as a line: its text (empty when absent) at its time, if given.
pub open spec fn unison_line(e: (Seq<char>, Option<u64>)) -> LineV {
    LineV { time_ms: e.1, end_time_ms: None, text: e.0, words: None, translation: None }
}

/// The list entries that carry text or a time.
pub open spec fn unison_lines(es: Seq<(Seq<char>, Option<u64>)>) -> Seq<LineV>
    decreases es.len(),
{
    if es.len() == 0 {
        seq![]
    } else if es.last().0.len() == 0 && es.last().1 is None {
        unison_lines(es.drop_last())
    } else {
        unison_lines(es.drop_last()).push(unison_line(es.last()))
    }
}

pub open spec fn entries_view(v: Seq<(String, Option<u64>)>) -> Seq<(Seq<char>, Option<u64>)> {
    v.map_values(|e: (String, Option<u64>)| (e.0@, e.1))
}

/// Unison's reply: its lyric text's LRC/TTML parse when the text is not blank and the parse has
/// lines; else its line list (entries with text or a time) when it has one and that is not
/// empty; else nothing.
pub open spec fn unison_spec(
    text: Seq<char>,
    parsed: Seq<LineV>,
    list: Option<Seq<(Seq<char>, Option<u64>)>>,
) -> Option<crate::lyrics::LyricsV> {
    if trim(text).len() > 0 && parsed.len() > 0 {
        from_parsed_spec(unison_name(), parsed)
    } else {
        match list {
            Some(es) => from_parsed_spec(unison_name(), unison_lines(es)),
            None => None,
        }
    }
}

/// Unison's reply as lyrics (see `unison_spec`), its text's LRC/TTML parse made from the text
/// and the JSON and TTML readings of it (see `lrc_or_ttml`).
pub fn unison_lyrics(
    text: &str,
    json: Option<Vec<LyricLine>>,
    ttml: Vec<LyricLine>,
    list: Option<Vec<(String, Option<u64>)>>,
) -> (r: Option<Lyrics>)
    ensures
        opt_lyrics_view(r) == unison_spec(
            text@,
            crate::formats::lrc_or_ttml_spec(text@, crate::formats::opt_lines_view(json), lines_view(ttml@)),
            match list {
                Some(v) => Some(entries_view(v@)),
                None => None,
            },
        ),
{
    proof {
        reveal_strlit("Unison");
        assert("Unison"@ =~= unison_name());
    }
    let parsed = crate::formats::lrc_or_ttml(text, json, ttml);
    let tv = chars_of(text);
    if trim_vec(&tv).len() > 0 && parsed.len() > 0 {
        return from_parsed("Unison", parsed);
    }
    let es = match list {
        Some(es) => es,
        None => return None,
    };
    let ghost ev = entries_view(es@);
    let mut out: Vec<LyricLine> = Vec::new();
    let mut i: usize = 0;
    while i < es.len()
        invariant
            i <= es.len(),
            ev == entries_view(es@),
            lines_view(out@) == unison_lines(ev.take(i as int)),
        decreases es.len() - i,
    {
        let e = &es[i];
        proof {
            assert(ev.take(i + 1).drop_last() =~= ev.take(i as int));
            assert(ev.take(i + 1).last() == (e.0@, e.1));
        }
        let empty = e.0.as_str().unicode_len() == 0;
        if !(empty && e.1.is_none()) {
            let ghost before = out@;
            out.push(LyricLine { time_ms: e.1, end_time_ms: None, text: e.0.clone(), words: None, translation: None });
            assert(lines_view(out@) =~= lines_view(before).push(unison_line((e.0@, e.1))));
        }
        i += 1;
    }
    assert(ev.take(es.len() as int) =~= ev);
    from_parsed("Unison", out)
}

// ---------------------------------------------------------------------------------------------
// SimpMusic
// ---------------------------------------------------------------------------------------------

pub open spec fn simp_name() -> Seq<char> {
    seq!['S', 'i', 'm', 'p', 'M', 'u', 's', 'i', 'c']
}

/// Whether a candidate text is used: it is not blank and its parse has lines.
pub open spec fn usable(c: (Seq<char>, Seq<LineV>)) -> bool {
    trim(c.0).len() > 0 && c.1.len() > 0
}

/// Index of the first usable candidate at or after `from`, or the number of candidates.
pub open spec fn first_usable(cs: Seq<(Seq<char>, Seq<LineV>)>, from: int) -> int
    decreases cs.len() - from,
{
    if from >= cs.len() {
        cs.len() as int
    } else if usable(cs[from]) {
        from
    } else {
        first_usable(cs, from + 1)
    }
}

/// A candidate text with its JSON and TTML readings, as the text and its LRC/TTML parse (see
/// `lrc_or_ttml_spec`).
pub open spec fn candidates_view(v: Seq<(String, Option<Vec<LyricLine>>, Vec<LyricLine>)>) -> Seq<(Seq<char>, Seq<LineV>)> {
    v.map_values(
        |c: (String, Option<Vec<LyricLine>>, Vec<LyricLine>)|
            (c.0@, crate::formats::lrc_or_ttml_spec(c.0@, crate::formats::opt_lines_view(c.1), lines_view(c.2@))),
    )
}

/// SimpMusic's reply, given its candidate texts in order (the top-level text, then each hit's)
/// with their LRC/TTML parses: the first usable one; else its plain text, if any.
pub open spec fn simp_spec(cs: Seq<(Seq<char>, Seq<LineV>)>, plain: Option<Seq<char>>) -> Option<crate::lyrics::LyricsV> {
    let i = first_usable(cs, 0);
    if i < cs.len() {
        from_parsed_spec(simp_name(), cs[i].1)
    } else {
        plain_spec(plain, simp_name())
    }
}

proof fn lemma_first_usable(cs: Seq<(Seq<char>, Seq<LineV>)>, from: int)
    requires
        0 <= from <= cs.len(),
    ensures
        from <= first_usable(cs, from) <= cs.len(),
        first_usable(cs, from) < cs.len() ==> usable(cs[first_usable(cs, from)]),
    decreases cs.len() - from,
{
    if from < cs.len() && !usable(cs[from]) {
        lemma_first_usable(cs, from + 1);
    }
}

pub fn simp_music_lyrics(
    candidates: Vec<(String, Option<Vec<LyricLine>>, Vec<LyricLine>)>,
    plain: Option<&str>,
) -> (r: Option<Lyrics>)
    ensures
        opt_lyrics_view(r) == simp_spec(candidates_view(candidates@), opt_str_view(plain)),
{
    proof {
        reveal_strlit("SimpMusic");
        assert("SimpMusic"@ =~= simp_name());
    }
    let ghost cv = candidates_view(candidates@);
    let mut rest = candidates;
    let ghost n = cv.len();
    proof {
        lemma_first_usable(cv, 0);
        assert(cv.skip(0) =~= cv);
    }
    while rest.len() > 0
        invariant
            rest.len() <= n,
            n == cv.len(),
            cv == candidates_view(candidates@),
            "SimpMusic"@ == simp_name(),
            candidates_view(rest@) == cv.skip(n - rest.len()),
            first_usable(cv, 0) == first_usable(cv, n - rest.len()),
        decreases rest.len(),
    {
        let ghost done = n - rest.len();
        let ghost before = rest@;
        let (text, json, ttml) = rest.remove(0);
        let lines = crate::formats::lrc_or_ttml(text.as_str(), json, ttml);
        proof {
            assert(candidates_view(before)[0] == (text@, lines_view(lines@)));
            assert(cv[done] == cv.skip(done)[0]);
            assert(candidates_view(rest@) =~= candidates_view(before).drop_first());
            assert(cv.skip(done).drop_first() =~= cv.skip(done + 1));
        }
        let tv = chars_of(text.as_str());
        if trim_vec(&tv).len() > 0 && lines.len() > 0 {
            proof {
                lemma_first_usable(cv, done);
            }
            return from_parsed("SimpMusic", lines);
        }
    }
    proof {
        assert(first_usable(cv, n as int) == n);
    }
    plain_from_text(plain, "SimpMusic")
}

// ---------------------------------------------------------------------------------------------
// Musixmatch
// ---------------------------------------------------------------------------------------------

pub open spec fn musixmatch_name() -> Seq<char> {
    seq!['M', 'u', 's', 'i', 'x', 'm', 'a', 't', 'c', 'h']
}

/// Musixmatch's answer: its word-timed lines when it has them (synced); else nothing when the
/// subtitle body is blank; else the body without its tags, as synced LRC lines when it has any
/// and as plain lyrics otherwise.
pub open spec fn musixmatch_spec(rich: Option<Seq<LineV>>, body: Seq<char>) -> Option<crate::lyrics::LyricsV> {
    match rich {
        Some(ls) => Some(crate::lyrics::LyricsV { source: musixmatch_name(), synced: true, instrumental: false, lines: ls }),
        None => if trim(body).len() == 0 {
            None
        } else {
            let cleaned = strip_html_spec(body);
            if parse_lrc_spec(cleaned).len() > 0 {
                Some(crate::lyrics::LyricsV {
                    source: musixmatch_name(),
                    synced: true,
                    instrumental: false,
                    lines: parse_lrc_spec(cleaned),
                })
            } else {
                plain_spec(Some(cleaned), musixmatch_name())
            }
        },
    }
}

pub fn musixmatch_lyrics(rich: Option<Vec<LyricLine>>, body: &str) -> (r: Option<Lyrics>)
    ensures
        opt_lyrics_view(r) == musixmatch_spec(
            match rich {
                Some(v) => Some(lines_view(v@)),
                None => None,
            },
            body@,
        ),
{
    proof {
        reveal_strlit("Musixmatch");
        assert("Musixmatch"@ =~= musixmatch_name());
    }
    if let Some(lines) = rich {
        return Some(Lyrics { source: "Musixmatch".to_string(), synced: true, instrumental: false, lines });
    }
    if trim_vec(&chars_of(body)).len() == 0 {
        return None;
    }
    let cleaned = strip_html_tags(body);
    let lines = parse_lrc(cleaned.as_str());
    if lines.len() > 0 {
        return Some(Lyrics { source: "Musixmatch".to_string(), synced: true, instrumental: false, lines });
    }
    plain_from_text(Some(cleaned.as_str()), "Musixmatch")
}

} // verus!
