//! The lyric text formats a provider may answer in, told apart and assembled into lines: the
//! JSON line arrays (Better-Lyrics and friends), TTML/AAML paragraphs with word spans, and LRC
//! (enhanced LRC included) as the fallback. Reading JSON values and fractional-second times is
//! the caller's; what the lines become is here.
use vstd::prelude::*;

use crate::lrc::{parse_elrc, parse_elrc_spec};
use crate::lyrics::{
    clone_string, lines_view, sort_by_cue, sort_lines_by_cue, LineV, LyricLine, LyricWord, WordV,
};
use crate::markup::{strip_tags_from, strip_xml_tags};
use crate::text::{
    append_chars, chars_of, contains_seq, copy_range, find_exec, find_from, occurs_at, string_of, trim, trim_vec,
};

verus! {

// ---------------------------------------------------------------------------------------------
// Telling the formats apart
// ---------------------------------------------------------------------------------------------

/// Which parses a text is a candidate for: the JSON line array (it starts with `[` or `{` and
/// names a line field) and TTML (it starts with `<`, or holds a `<p ` or `<tt`). LRC is always
/// the last resort.
pub struct LyricFormat {
    pub json: bool,
    pub ttml: bool,
}

pub open spec fn json_keys() -> Seq<Seq<char>> {
    seq![
        seq!['"', 't', 'e', 'x', 't', '"'],
        seq!['"', 't', 'i', 'm', 'e', '"'],
        seq!['"', 'w', 'o', 'r', 'd', 's', '"'],
        seq!['"', 's', 't', 'a', 'r', 't', '"'],
        seq!['"', 's', 't', 'a', 'r', 't', 'T', 'i', 'm', 'e', '"'],
    ]
}

pub open spec fn looks_like_json(t: Seq<char>) -> bool {
    &&& t.len() > 0
    &&& (t[0] == '[' || t[0] == '{')
    &&& exists|i: int| 0 <= i < json_keys().len() && contains_seq(t, #[trigger] json_keys()[i])
}

pub open spec fn looks_like_ttml(t: Seq<char>) -> bool {
    ||| (t.len() > 0 && t[0] == '<')
    ||| contains_seq(t, seq!['<', 'p', ' '])
    ||| contains_seq(t, seq!['<', 't', 't'])
}

/// The candidates for a text, judged on the text trimmed.
pub open spec fn lyric_format_spec(text: Seq<char>) -> LyricFormat {
    LyricFormat { json: looks_like_json(trim(text)), ttml: looks_like_ttml(trim(text)) }
}

fn has(v: &Vec<char>, p: Vec<char>) -> (b: bool)
    ensures
        b == contains_seq(v@, p@),
{
    find_exec(v.as_slice(), p.as_slice(), 0).is_some()
}

/// Which parses a text is a candidate for (see `lyric_format_spec`).
pub fn lyric_format(text: &str) -> (f: LyricFormat)
    ensures
        f == lyric_format_spec(text@),
{
    let t = trim_vec(&chars_of(text));
    let opens = t.len() > 0 && (t[0] == '[' || t[0] == '{');
    let k0 = vec!['"', 't', 'e', 'x', 't', '"'];
    let k1 = vec!['"', 't', 'i', 'm', 'e', '"'];
    let k2 = vec!['"', 'w', 'o', 'r', 'd', 's', '"'];
    let k3 = vec!['"', 's', 't', 'a', 'r', 't', '"'];
    let k4 = vec!['"', 's', 't', 'a', 'r', 't', 'T', 'i', 'm', 'e', '"'];
    proof {
        assert(k0@ =~= json_keys()[0]);
        assert(k1@ =~= json_keys()[1]);
        assert(k2@ =~= json_keys()[2]);
        assert(k3@ =~= json_keys()[3]);
        assert(k4@ =~= json_keys()[4]);
    }
    let keyed = has(&t, k0) || has(&t, k1) || has(&t, k2) || has(&t, k3) || has(&t, k4);
    proof {
        if keyed {
        } else {
            assert forall|i: int| 0 <= i < json_keys().len() implies !contains_seq(t@, #[trigger] json_keys()[i]) by {
                if i == 0 {} else if i == 1 {} else if i == 2 {} else if i == 3 {} else {}
            }
        }
    }
    let json = opens && keyed;
    let p1 = vec!['<', 'p', ' '];
    let p2 = vec!['<', 't', 't'];
    assert(p1@ =~= seq!['<', 'p', ' ']);
    assert(p2@ =~= seq!['<', 't', 't']);
    let ttml = (t.len() > 0 && t[0] == '<') || has(&t, p1) || has(&t, p2);
    LyricFormat { json, ttml }
}


// ---------------------------------------------------------------------------------------------
// JSON line arrays
// ---------------------------------------------------------------------------------------------

/// A word of a JSON line as read: its text (empty when absent) and its times in milliseconds
/// where given.
pub struct JsonWord {
    pub text: String,
    pub start_ms: Option<u64>,
    pub end_ms: Option<u64>,
}

/// A JSON line as read: its text (empty when absent), its cue where given, and its words.
pub struct JsonLine {
    pub text: String,
    pub time_ms: Option<u64>,
    pub words: Vec<JsonWord>,
}

pub struct JsonWordV {
    pub text: Seq<char>,
    pub start_ms: Option<u64>,
    pub end_ms: Option<u64>,
}

pub struct JsonLineV {
    pub text: Seq<char>,
    pub time_ms: Option<u64>,
    pub words: Seq<JsonWordV>,
}

impl View for JsonWord {
    type V = JsonWordV;

    open spec fn view(&self) -> JsonWordV {
        JsonWordV { text: self.text@, start_ms: self.start_ms, end_ms: self.end_ms }
    }
}

impl View for JsonLine {
    type V = JsonLineV;

    open spec fn view(&self) -> JsonLineV {
        JsonLineV { text: self.text@, time_ms: self.time_ms, words: self.words@.map_values(|w: JsonWord| w@) }
    }
}

pub open spec fn json_lines_view(ls: Seq<JsonLine>) -> Seq<JsonLineV> {
    ls.map_values(|l: JsonLine| l@)
}

/// A word's start: its own, else the line's cue.
pub open spec fn json_word_start(w: JsonWordV, line_time: Option<u64>) -> Option<u64> {
    match w.start_ms {
        Some(b) => Some(b),
        None => line_time,
    }
}

/// A word that has no end of its own and takes its start plus 500 ms stays in range.
pub open spec fn json_word_fits(w: JsonWordV, line_time: Option<u64>) -> bool {
    w.end_ms is None ==> (json_word_start(w, line_time) matches Some(b) ==> b + 500 <= u64::MAX)
}

/// Every word of every line fits (see `json_word_fits`).
pub open spec fn json_items_fit(ls: Seq<JsonLineV>) -> bool {
    forall|i: int, j: int|
        0 <= i < ls.len() && 0 <= j < ls[i].words.len() ==> json_word_fits(#[trigger] ls[i].words[j], ls[i].time_ms)
}

/// A word as kept: it needs a start (its own or the line's) and an end (its own, else the start
/// plus 500 ms).
pub open spec fn json_word_spec(w: JsonWordV, line_time: Option<u64>) -> Option<WordV> {
    match json_word_start(w, line_time) {
        None => None,
        Some(b) => Some(WordV {
            text: w.text,
            start_ms: b,
            end_ms: match w.end_ms {
                Some(e) => e,
                None => (b + 500) as u64,
            },
        }),
    }
}

/// The kept words of a line, in order.
pub open spec fn json_words_spec(ws: Seq<JsonWordV>, line_time: Option<u64>) -> Seq<WordV>
    decreases ws.len(),
{
    if ws.len() == 0 {
        seq![]
    } else {
        let rest = json_words_spec(ws.drop_last(), line_time);
        match json_word_spec(ws.last(), line_time) {
            Some(w) => rest.push(w),
            None => rest,
        }
    }
}

/// A line as kept: its text trimmed; kept when that text is not empty or it has a cue; words
/// attached when any were kept.
pub open spec fn json_line_spec(l: JsonLineV) -> Option<LineV> {
    let text = trim(l.text);
    let ws = json_words_spec(l.words, l.time_ms);
    if text.len() > 0 || l.time_ms is Some {
        Some(LineV {
            time_ms: l.time_ms,
            end_time_ms: None,
            text,
            words: if ws.len() > 0 {
                Some(ws)
            } else {
                None
            },
            translation: None,
        })
    } else {
        None
    }
}

/// The kept lines, in order of appearance.
pub open spec fn json_lines_unsorted(ls: Seq<JsonLineV>) -> Seq<LineV>
    decreases ls.len(),
{
    if ls.len() == 0 {
        seq![]
    } else {
        let rest = json_lines_unsorted(ls.drop_last());
        match json_line_spec(ls.last()) {
            Some(l) => rest.push(l),
            None => rest,
        }
    }
}

/// The lines of a JSON line array, sorted by cue.
pub open spec fn json_lines_spec(ls: Seq<JsonLineV>) -> Seq<LineV> {
    sort_by_cue(json_lines_unsorted(ls))
}

fn json_words(ws: &Vec<JsonWord>, line_time: Option<u64>) -> (r: Vec<LyricWord>)
    requires
        forall|j: int| 0 <= j < ws.len() ==> json_word_fits(#[trigger] ws@[j]@, line_time),
    ensures
        crate::lyrics::words_view(r@) == json_words_spec(ws@.map_values(|w: JsonWord| w@), line_time),
{
    let ghost wv = ws@.map_values(|w: JsonWord| w@);
    let mut out: Vec<LyricWord> = Vec::new();
    let mut i: usize = 0;
    while i < ws.len()
        invariant
            i <= ws.len(),
            wv == ws@.map_values(|w: JsonWord| w@),
            forall|j: int| 0 <= j < ws.len() ==> json_word_fits(#[trigger] ws@[j]@, line_time),
            crate::lyrics::words_view(out@) == json_words_spec(wv.take(i as int), line_time),
        decreases ws.len() - i,
    {
        let w = &ws[i];
        assert(wv.take(i + 1).drop_last() =~= wv.take(i as int));
        assert(wv.take(i + 1).last() == w@);
        let start = match w.start_ms {
            Some(b) => Some(b),
            None => line_time,
        };
        match start {
            Some(b) => {
                assert(json_word_fits(ws@[i as int]@, line_time));
                let e = match w.end_ms {
                    Some(e) => e,
                    None => b + 500,
                };
                let ghost before = crate::lyrics::words_view(out@);
                out.push(LyricWord { text: clone_string(&w.text), start_ms: b, end_ms: e });
                assert(crate::lyrics::words_view(out@) =~= before.push(json_word_spec(w@, line_time)->0));
            },
            None => {},
        }
        i += 1;
    }
    assert(wv.take(ws.len() as int) =~= wv);
    out
}

/// The lines of a JSON line array (see `json_lines_spec`): each line's text trimmed, its words'
/// starts falling back to the line's cue and their ends to the start plus 500 ms, lines with
/// neither text nor cue dropped, and the rest sorted by cue.
pub fn json_lines(items: Vec<JsonLine>) -> (r: Vec<LyricLine>)
    requires
        json_items_fit(json_lines_view(items@)),
    ensures
        lines_view(r@) == json_lines_spec(json_lines_view(items@)),
{
    let ghost lv = json_lines_view(items@);
    let mut out: Vec<LyricLine> = Vec::new();
    let mut i: usize = 0;
    while i < items.len()
        invariant
            i <= items.len(),
            lv == json_lines_view(items@),
            json_items_fit(lv),
            lines_view(out@) == json_lines_unsorted(lv.take(i as int)),
        decreases items.len() - i,
    {
        let it = &items[i];
        assert(lv.take(i + 1).drop_last() =~= lv.take(i as int));
        assert(lv.take(i + 1).last() == it@);
        assert forall|j: int| 0 <= j < it.words.len() implies json_word_fits(#[trigger] it.words@[j]@, it.time_ms) by {
            assert(lv[i as int].words[j] == it.words@[j]@);
        }
        let tv = trim_vec(&chars_of(it.text.as_str()));
        let words = json_words(&it.words, it.time_ms);
        if tv.len() > 0 || it.time_ms.is_some() {
            let text = string_of(&tv);
            let ghost before = lines_view(out@);
            let has_words = words.len() > 0;
            out.push(LyricLine {
                time_ms: it.time_ms,
                end_time_ms: None,
                text,
                words: if has_words { Some(words) } else { None },
                translation: None,
            });
            assert(lines_view(out@) =~= before.push(json_line_spec(it@)->0));
        }
        i += 1;
    }
    assert(lv.take(items.len() as int) =~= lv);
    sort_lines_by_cue(out)
}


// ---------------------------------------------------------------------------------------------
// Choosing the parse
// ---------------------------------------------------------------------------------------------

pub open spec fn opt_lines_view(l: Option<Vec<LyricLine>>) -> Option<Seq<LineV>> {
    match l {
        Some(v) => Some(lines_view(v@)),
        None => None,
    }
}

/// The lines of a lyric text: the JSON lines (`json`, what the JSON line array gave, `None` when
/// the text did not read as one) when the text is a JSON candidate and they are not empty; else
/// the TTML lines (`ttml`, what the TTML paragraphs gave) when it is a TTML candidate and they
/// are not empty; else the text as enhanced LRC.
pub open spec fn lrc_or_ttml_spec(text: Seq<char>, json: Option<Seq<LineV>>, ttml: Seq<LineV>) -> Seq<LineV> {
    let f = lyric_format_spec(text);
    let from_json = match json {
        Some(j) => f.json && j.len() > 0,
        None => false,
    };
    if from_json {
        json->0
    } else if f.ttml && ttml.len() > 0 {
        ttml
    } else {
        parse_elrc_spec(text)
    }
}

/// The lines of a lyric text (see `lrc_or_ttml_spec`).
pub fn lrc_or_ttml(text: &str, json: Option<Vec<LyricLine>>, ttml: Vec<LyricLine>) -> (r: Vec<LyricLine>)
    ensures
        lines_view(r@) == lrc_or_ttml_spec(text@, opt_lines_view(json), lines_view(ttml@)),
{
    let f = lyric_format(text);
    match json {
        Some(j) => {
            if f.json && j.len() > 0 {
                return j;
            }
        },
        None => {},
    }
    if f.ttml && ttml.len() > 0 {
        return ttml;
    }
    parse_elrc(text)
}


// ---------------------------------------------------------------------------------------------
// TTML / AAML paragraphs
// ---------------------------------------------------------------------------------------------

/// A piece of a paragraph's body: the text before a span (`span` false; it also extends the
/// word before it), or a span with its opening tag and its text. Tags are stripped from the
/// texts. The times are read off the tags by the caller (`begin` and `end` attributes).
pub struct TtmlPiece {
    pub span: bool,
    pub tag: String,
    pub text: String,
    pub begin_ms: Option<u64>,
    pub end_ms: Option<u64>,
}

/// A `<p>` paragraph: its opening tag, its pieces, the text after its last span, and its times
/// (read off the tag by the caller).
pub struct TtmlPara {
    pub tag: String,
    pub pieces: Vec<TtmlPiece>,
    pub tail: String,
    pub begin_ms: Option<u64>,
    pub end_ms: Option<u64>,
}

pub struct TtmlPieceV {
    pub span: bool,
    pub tag: Seq<char>,
    pub text: Seq<char>,
    pub begin_ms: Option<u64>,
    pub end_ms: Option<u64>,
}

pub struct TtmlParaV {
    pub tag: Seq<char>,
    pub pieces: Seq<TtmlPieceV>,
    pub tail: Seq<char>,
    pub begin_ms: Option<u64>,
    pub end_ms: Option<u64>,
}

impl View for TtmlPiece {
    type V = TtmlPieceV;

    open spec fn view(&self) -> TtmlPieceV {
        TtmlPieceV { span: self.span, tag: self.tag@, text: self.text@, begin_ms: self.begin_ms, end_ms: self.end_ms }
    }
}

pub open spec fn pieces_view(ps: Seq<TtmlPiece>) -> Seq<TtmlPieceV> {
    ps.map_values(|p: TtmlPiece| p@)
}

impl View for TtmlPara {
    type V = TtmlParaV;

    open spec fn view(&self) -> TtmlParaV {
        TtmlParaV {
            tag: self.tag@,
            pieces: pieces_view(self.pieces@),
            tail: self.tail@,
            begin_ms: self.begin_ms,
            end_ms: self.end_ms,
        }
    }
}

pub open spec fn paras_view(ps: Seq<TtmlPara>) -> Seq<TtmlParaV> {
    ps.map_values(|p: TtmlPara| p@)
}

pub open spec fn span_open() -> Seq<char> {
    seq!['<', 's', 'p', 'a', 'n']
}

pub open spec fn span_close() -> Seq<char> {
    seq!['<', '/', 's', 'p', 'a', 'n', '>']
}

pub open spec fn p_open() -> Seq<char> {
    seq!['<', 'p']
}

pub open spec fn p_close() -> Seq<char> {
    seq!['<', '/', 'p', '>']
}

pub open spec fn strip(s: Seq<char>) -> Seq<char> {
    strip_tags_from(s, false)
}

proof fn lemma_first_occurrence(s: Seq<char>, p: Seq<char>, from: int, k: int)
    requires
        from <= k,
        occurs_at(s, p, k),
    ensures
        exists|i: int| from <= i && occurs_at(s, p, i) && forall|j: int| from <= j < i ==> !occurs_at(s, p, j),
    decreases k - from,
{
    if exists|j: int| from <= j < k && occurs_at(s, p, j) {
        let j = choose|j: int| from <= j < k && occurs_at(s, p, j);
        lemma_first_occurrence(s, p, from, j);
    } else {
        assert(from <= k && occurs_at(s, p, k) && forall|j: int| from <= j < k ==> !occurs_at(s, p, j));
    }
}

/// What `find_from` finds is an occurrence at or after `from`, inside the text.
pub proof fn lemma_find_from(s: Seq<char>, p: Seq<char>, from: int)
    ensures
        find_from(s, p, from) matches Some(i) ==> from <= i && occurs_at(s, p, i) && i + p.len() <= s.len(),
{
    if exists|i: int| from <= i && occurs_at(s, p, i) {
        let k = choose|i: int| from <= i && occurs_at(s, p, i);
        lemma_first_occurrence(s, p, from, k);
    }
}

/// The first occurrence of `p` in `s` at or after `from` (`find_from`, kept folded).
#[verifier::opaque]
pub open spec fn first_at(s: Seq<char>, p: Seq<char>, from: int) -> Option<int> {
    find_from(s, p, from)
}

pub proof fn lemma_first_at(s: Seq<char>, p: Seq<char>, from: int)
    ensures
        first_at(s, p, from) matches Some(i) ==> from <= i && i + p.len() <= s.len() && occurs_at(s, p, i),
{
    reveal(first_at);
    lemma_find_from(s, p, from);
}

proof fn lemma_first_at_is(s: Seq<char>, p: Seq<char>, from: int)
    ensures
        first_at(s, p, from) == find_from(s, p, from),
{
    reveal(first_at);
}

/// The pieces of a paragraph body from `pos`, and the text left after them: up to each
/// `<span ...>`, the stripped text before it; then, when the span is closed, its tag and its
/// stripped text, and on after the `</span>`. When a span tag is not closed by `>` the scan stops
/// there; when a span is not closed by `</span>` the text before it is still a piece. The text
/// left is everything from where the scan stopped, stripped.
pub open spec fn span_scan(s: Seq<char>, pos: int) -> (Seq<TtmlPieceV>, Seq<char>)
    decreases s.len() - pos,
{
    if pos < 0 || pos > s.len() {
        (seq![], seq![])
    } else {
        let rest = strip(s.subrange(pos, s.len() as int));
        match first_at(s, span_open(), pos) {
            None => (seq![], rest),
            Some(a) => match first_at(s, seq!['>'], a) {
                None => (seq![], rest),
                Some(t) => {
                    let before = TtmlPieceV {
                        span: false,
                        tag: seq![],
                        text: strip(s.subrange(pos, a)),
                        begin_ms: None,
                        end_ms: None,
                    };
                    match first_at(s, span_close(), t) {
                        None => (seq![before], rest),
                        Some(c) => {
                            proof {
                                lemma_first_at(s, span_open(), pos);
                                lemma_first_at(s, seq!['>'], a);
                                lemma_first_at(s, span_close(), t);
                            }
                            let span = TtmlPieceV {
                                span: true,
                                tag: s.subrange(a, t + 1),
                                text: strip(s.subrange(t + 1, c)),
                                begin_ms: None,
                                end_ms: None,
                            };
                            let (ps, tail) = span_scan(s, c + 7);
                            (seq![before, span] + ps, tail)
                        },
                    }
                },
            },
        }
    }
}

/// The paragraphs of a TTML text from `pos`: each `<p ...>` tag closed by `>` and a later
/// `</p>`, with its body's pieces; the scan stops at the first that is not closed.
pub open spec fn para_scan(x: Seq<char>, pos: int) -> Seq<TtmlParaV>
    decreases x.len() - pos,
{
    if pos < 0 || pos > x.len() {
        seq![]
    } else {
        match first_at(x, p_open(), pos) {
            None => seq![],
            Some(a) => match first_at(x, seq!['>'], a) {
                None => seq![],
                Some(t) => match first_at(x, p_close(), t) {
                    None => seq![],
                    Some(c) => {
                        proof {
                            lemma_first_at(x, p_open(), pos);
                            lemma_first_at(x, seq!['>'], a);
                            lemma_first_at(x, p_close(), t);
                        }
                        let (ps, tail) = span_scan(x.subrange(t + 1, c), 0);
                        seq![TtmlParaV { tag: x.subrange(a, t + 1), pieces: ps, tail, begin_ms: None, end_ms: None }]
                            + para_scan(x, c + 4)
                    },
                },
            },
        }
    }
}

fn first_exec(v: &Vec<char>, p: &Vec<char>, from: usize) -> (r: Option<usize>)
    ensures
        match r {
            Some(i) => first_at(v@, p@, from as int) == Some(i as int) && from <= i && i + p@.len() <= v@.len()
                && (p@.len() > 0 ==> v@[i as int] == p@[0]),
            None => first_at(v@, p@, from as int) is None,
        },
{
    proof {
        lemma_first_at_is(v@, p@, from as int);
    }
    let r = find_exec(v.as_slice(), p.as_slice(), from);
    proof {
        lemma_first_at(v@, p@, from as int);
        if let Some(i) = r {
            if p@.len() > 0 {
                assert(v@.subrange(i as int, i + p@.len())[0] == v@[i as int]);
            }
        }
    }
    r
}

fn strip_range(v: &Vec<char>, from: usize, to: usize) -> (r: String)
    requires
        from <= to <= v.len(),
    ensures
        r@ == strip(v@.subrange(from as int, to as int)),
{
    let part = string_of(&copy_range(v.as_slice(), from, to));
    strip_xml_tags(part.as_str())
}

fn scan_spans(s: &Vec<char>) -> (r: (Vec<TtmlPiece>, String))
    ensures
        pieces_view(r.0@) == span_scan(s@, 0).0,
        r.1@ == span_scan(s@, 0).1,
{
    let so = vec!['<', 's', 'p', 'a', 'n'];
    let sc = vec!['<', '/', 's', 'p', 'a', 'n', '>'];
    let gt = vec!['>'];
    assert(so@ =~= span_open());
    assert(sc@ =~= span_close());
    assert(gt@ =~= seq!['>']);
    let n = s.len();
    let mut out: Vec<TtmlPiece> = Vec::new();
    let mut pos: usize = 0;
    loop
        invariant
            n == s.len(),
            pos <= n,
            so@ == span_open(),
            sc@ == span_close(),
            gt@ == seq!['>'],
            pieces_view(out@) + span_scan(s@, pos as int).0 == span_scan(s@, 0).0,
            span_scan(s@, pos as int).1 == span_scan(s@, 0).1,
        decreases n - pos,
    {
        let ghost here = span_scan(s@, pos as int);
        let ghost before_out = pieces_view(out@);
        let rest = strip_range(s, pos, n);
        let a = match first_exec(s, &so, pos) {
            None => {
                assert(here.0 =~= Seq::<TtmlPieceV>::empty());
                assert(before_out + here.0 =~= before_out);
                return (out, rest);
            },
            Some(a) => a,
        };
        let t = match first_exec(s, &gt, a) {
            None => {
                assert(here.0 =~= Seq::<TtmlPieceV>::empty());
                assert(before_out + here.0 =~= before_out);
                return (out, rest);
            },
            Some(t) => t,
        };
        let before = TtmlPiece { span: false, tag: String::new(), text: strip_range(s, pos, a), begin_ms: None, end_ms: None };
        proof {
            assert(before@.tag =~= Seq::<char>::empty());
        }
        match first_exec(s, &sc, t) {
            None => {
                out.push(before);
                assert(pieces_view(out@) =~= before_out + here.0);
                return (out, rest);
            },
            Some(c) => {
                let tag = string_of(&copy_range(s.as_slice(), a, t + 1));
                assert(c != t) by {
                    assert(s@[t as int] == '>');
                    assert(s@[c as int] == '<');
                }
                let text = strip_range(s, t + 1, c);
                let span = TtmlPiece { span: true, tag, text, begin_ms: None, end_ms: None };
                let ghost bv = before@;
                let ghost sv = span@;
                out.push(before);
                out.push(span);
                proof {
                    let next = span_scan(s@, c + 7);
                    assert(here.0 == seq![bv, sv] + next.0);
                    assert(pieces_view(out@) =~= before_out + seq![bv, sv]);
                    assert(pieces_view(out@) + next.0 =~= before_out + here.0);
                }
                pos = c + 7;
            },
        }
    }
}

/// The paragraphs of a TTML text (see `para_scan`); their times are left for the caller to read
/// off the tags.
pub fn ttml_paragraphs(xml: &str) -> (ps: Vec<TtmlPara>)
    ensures
        paras_view(ps@) == para_scan(xml@, 0),
{
    let x = chars_of(xml);
    let po = vec!['<', 'p'];
    let pc = vec!['<', '/', 'p', '>'];
    let gt = vec!['>'];
    assert(po@ =~= p_open());
    assert(pc@ =~= p_close());
    assert(gt@ =~= seq!['>']);
    let n = x.len();
    let mut out: Vec<TtmlPara> = Vec::new();
    let mut pos: usize = 0;
    loop
        invariant
            n == x.len(),
            x@ == xml@,
            pos <= n,
            po@ == p_open(),
            pc@ == p_close(),
            gt@ == seq!['>'],
            paras_view(out@) + para_scan(x@, pos as int) == para_scan(x@, 0),
        decreases n - pos,
    {
        let ghost here = para_scan(x@, pos as int);
        let ghost before_out = paras_view(out@);
        let a = match first_exec(&x, &po, pos) {
            None => {
                assert(before_out + here =~= before_out);
                return out;
            },
            Some(a) => a,
        };
        let t = match first_exec(&x, &gt, a) {
            None => {
                assert(before_out + here =~= before_out);
                return out;
            },
            Some(t) => t,
        };
        let c = match first_exec(&x, &pc, t) {
            None => {
                assert(before_out + here =~= before_out);
                return out;
            },
            Some(c) => c,
        };
        let tag = string_of(&copy_range(x.as_slice(), a, t + 1));
        assert(c != t) by {
            assert(x@[t as int] == '>');
            assert(x@[c as int] == '<');
        }
        let body = copy_range(x.as_slice(), t + 1, c);
        let (pieces, tail) = scan_spans(&body);
        let para = TtmlPara { tag, pieces, tail, begin_ms: None, end_ms: None };
        let ghost pv = para@;
        out.push(para);
        proof {
            let next = para_scan(x@, c + 4);
            assert(here == seq![pv] + next);
            assert(paras_view(out@) =~= before_out + seq![pv]);
            assert(paras_view(out@) + next =~= before_out + here);
        }
        pos = c + 4;
    }
}


/// A time of its own, else the fallback.
pub open spec fn or_time(own: Option<u64>, fallback: Option<u64>) -> Option<u64> {
    match own {
        Some(t) => Some(t),
        None => fallback,
    }
}

/// One piece folded into a paragraph's (words, text): its text always extends the text; text
/// before a span also extends the last word so far; a span becomes a word when it has text and
/// a begin and an end (its own, else the paragraph's).
pub open spec fn piece_step(
    st: (Seq<WordV>, Seq<char>),
    p: TtmlPieceV,
    line_begin: Option<u64>,
    line_end: Option<u64>,
) -> (Seq<WordV>, Seq<char>) {
    let ws = st.0;
    if p.span {
        let words = match (or_time(p.begin_ms, line_begin), or_time(p.end_ms, line_end)) {
            (Some(b), Some(e)) => if p.text.len() > 0 {
                ws.push(WordV { text: p.text, start_ms: b, end_ms: e })
            } else {
                ws
            },
            _ => ws,
        };
        (words, st.1 + p.text)
    } else {
        let words = if ws.len() > 0 {
            ws.update(ws.len() - 1, WordV { text: ws.last().text + p.text, ..ws.last() })
        } else {
            ws
        };
        (words, st.1 + p.text)
    }
}

pub open spec fn pieces_fold(ps: Seq<TtmlPieceV>, line_begin: Option<u64>, line_end: Option<u64>) -> (Seq<WordV>, Seq<char>)
    decreases ps.len(),
{
    if ps.len() == 0 {
        (seq![], seq![])
    } else {
        piece_step(pieces_fold(ps.drop_last(), line_begin, line_end), ps.last(), line_begin, line_end)
    }
}

/// A paragraph as a line: cued by its begin and end, its text the pieces' texts and the tail,
/// trimmed, its words the spans that became words; kept when that text is not empty or it has a
/// begin.
pub open spec fn ttml_line_spec(p: TtmlParaV) -> Option<LineV> {
    let (ws, txt) = pieces_fold(p.pieces, p.begin_ms, p.end_ms);
    let full = trim(txt + p.tail);
    if full.len() > 0 || p.begin_ms is Some {
        Some(LineV {
            time_ms: p.begin_ms,
            end_time_ms: p.end_ms,
            text: full,
            words: if ws.len() > 0 {
                Some(ws)
            } else {
                None
            },
            translation: None,
        })
    } else {
        None
    }
}

pub open spec fn ttml_lines_unsorted(ps: Seq<TtmlParaV>) -> Seq<LineV>
    decreases ps.len(),
{
    if ps.len() == 0 {
        seq![]
    } else {
        let rest = ttml_lines_unsorted(ps.drop_last());
        match ttml_line_spec(ps.last()) {
            Some(l) => rest.push(l),
            None => rest,
        }
    }
}

/// The lines of TTML paragraphs (with their times read), sorted by cue.
pub open spec fn ttml_lines_spec(ps: Seq<TtmlParaV>) -> Seq<LineV> {
    sort_by_cue(ttml_lines_unsorted(ps))
}

fn fold_pieces(para: &TtmlPara) -> (r: (Vec<LyricWord>, Vec<char>))
    ensures
        (crate::lyrics::words_view(r.0@), r.1@) == pieces_fold(pieces_view(para.pieces@), para.begin_ms, para.end_ms),
{
    let ghost pv = pieces_view(para.pieces@);
    let lb = para.begin_ms;
    let le = para.end_ms;
    let mut words: Vec<LyricWord> = Vec::new();
    let mut text: Vec<char> = Vec::new();
    let mut k: usize = 0;
    while k < para.pieces.len()
        invariant
            k <= para.pieces.len(),
            pv == pieces_view(para.pieces@),
            lb == para.begin_ms,
            le == para.end_ms,
            (crate::lyrics::words_view(words@), text@) == pieces_fold(pv.take(k as int), lb, le),
        decreases para.pieces.len() - k,
    {
        let p = &para.pieces[k];
        assert(pv.take(k + 1).drop_last() =~= pv.take(k as int));
        assert(pv.take(k + 1).last() == p@);
        let ghost ws0 = crate::lyrics::words_view(words@);
        let pt = chars_of(p.text.as_str());
        if p.span {
            let b = match p.begin_ms {
                Some(t) => Some(t),
                None => lb,
            };
            let e = match p.end_ms {
                Some(t) => Some(t),
                None => le,
            };
            match (b, e) {
                (Some(bb), Some(ee)) => {
                    if pt.len() > 0 {
                        words.push(LyricWord { text: clone_string(&p.text), start_ms: bb, end_ms: ee });
                        assert(crate::lyrics::words_view(words@) =~= ws0.push(WordV { text: p.text@, start_ms: bb, end_ms: ee }));
                    }
                },
                _ => {},
            }
        } else {
            if words.len() > 0 {
                let w = words.pop().unwrap();
                let mut tv = chars_of(w.text.as_str());
                append_chars(&mut tv, &pt);
                let nw = LyricWord { text: string_of(&tv), start_ms: w.start_ms, end_ms: w.end_ms };
                words.push(nw);
                assert(crate::lyrics::words_view(words@) =~= ws0.update(
                    ws0.len() - 1,
                    WordV { text: ws0.last().text + p.text@, ..ws0.last() },
                ));
            }
        }
        append_chars(&mut text, &pt);
        k += 1;
    }
    assert(pv.take(para.pieces.len() as int) =~= pv);
    (words, text)
}

/// The lines of TTML paragraphs whose times the caller has read (see `ttml_lines_spec`).
pub fn ttml_lines(ps: Vec<TtmlPara>) -> (r: Vec<LyricLine>)
    ensures
        lines_view(r@) == ttml_lines_spec(paras_view(ps@)),
{
    let ghost pv = paras_view(ps@);
    let mut out: Vec<LyricLine> = Vec::new();
    let mut i: usize = 0;
    while i < ps.len()
        invariant
            i <= ps.len(),
            pv == paras_view(ps@),
            lines_view(out@) == ttml_lines_unsorted(pv.take(i as int)),
        decreases ps.len() - i,
    {
        let para = &ps[i];
        assert(pv.take(i + 1).drop_last() =~= pv.take(i as int));
        assert(pv.take(i + 1).last() == para@);
        let (words, mut text) = fold_pieces(para);
        let tail = chars_of(para.tail.as_str());
        append_chars(&mut text, &tail);
        let full = trim_vec(&text);
        if full.len() > 0 || para.begin_ms.is_some() {
            let ghost before = lines_view(out@);
            let has_words = words.len() > 0;
            out.push(LyricLine {
                time_ms: para.begin_ms,
                end_time_ms: para.end_ms,
                text: string_of(&full),
                words: if has_words { Some(words) } else { None },
                translation: None,
            });
            assert(lines_view(out@) =~= before.push(ttml_line_spec(para@)->0));
        }
        i += 1;
    }
    assert(pv.take(ps.len() as int) =~= pv);
    sort_lines_by_cue(out)
}

} // verus!
