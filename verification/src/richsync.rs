//! Word-timed lines from JSON providers (Musixmatch richsync, Apple Music syllable lyrics). The
//! response is read into [`RichLine`]s (times already in milliseconds) and assembled here.
use vstd::prelude::*;

use crate::lyrics::{
    from_parsed, from_parsed_spec, lines_view, opt_lyrics_view, opt_str_view, words_view, LineV, LyricLine,
    LyricWord, Lyrics, LyricsV, WordV,
};
use crate::text::{append_chars, chars_of, string_of, trim, trim_vec};

verus! {

/// One word as the response gives it: its text (when it is a string) and its times, if given.
pub struct RichWord {
    pub text: Option<String>,
    pub start_ms: Option<u64>,
    pub end_ms: Option<u64>,
}

/// One line as the response gives it: start and end times (if given), its text (empty when
/// absent) and its words.
pub struct RichLine {
    pub ts: Option<u64>,
    pub te: Option<u64>,
    pub line: String,
    pub words: Vec<RichWord>,
}

pub struct RichWordV {
    pub text: Option<Seq<char>>,
    pub start_ms: Option<u64>,
    pub end_ms: Option<u64>,
}

pub struct RichLineV {
    pub ts: Option<u64>,
    pub te: Option<u64>,
    pub line: Seq<char>,
    pub words: Seq<RichWordV>,
}

impl View for RichWord {
    type V = RichWordV;

    open spec fn view(&self) -> RichWordV {
        RichWordV {
            text: match self.text {
                Some(t) => Some(t@),
                None => None,
            },
            start_ms: self.start_ms,
            end_ms: self.end_ms,
        }
    }
}

impl View for RichLine {
    type V = RichLineV;

    open spec fn view(&self) -> RichLineV {
        RichLineV {
            ts: self.ts,
            te: self.te,
            line: self.line@,
            words: self.words@.map_values(|w: RichWord| w@),
        }
    }
}

pub open spec fn rich_lines_view(v: Seq<RichLine>) -> Seq<RichLineV> {
    v.map_values(|l: RichLine| l@)
}

/// A word is kept when it has text that is not all whitespace.
pub open spec fn keeps_word(w: RichWordV) -> bool {
    w.text matches Some(t) && trim(t).len() > 0
}

/// A kept word: it starts at its own time or else at the line's, and ends at its own time or
/// else 500 ms after it starts.
pub open spec fn word_of(w: RichWordV, ts: u64) -> WordV {
    let start = match w.start_ms {
        Some(s) => s,
        None => ts,
    };
    WordV {
        text: w.text.unwrap(),
        start_ms: start,
        end_ms: match w.end_ms {
            Some(e) => e,
            None => (start + 500) as u64,
        },
    }
}

/// The kept words of a line, in order.
pub open spec fn words_of(ws: Seq<RichWordV>, ts: u64) -> Seq<WordV>
    decreases ws.len(),
{
    if ws.len() == 0 {
        seq![]
    } else if keeps_word(ws.last()) {
        words_of(ws.drop_last(), ts).push(word_of(ws.last(), ts))
    } else {
        words_of(ws.drop_last(), ts)
    }
}

/// The words' texts run together.
pub open spec fn joined_texts(ws: Seq<WordV>) -> Seq<char>
    decreases ws.len(),
{
    if ws.len() == 0 {
        seq![]
    } else {
        joined_texts(ws.drop_last()) + ws.last().text
    }
}

/// A line: timed at its start, ending at its own end or else its last word's, its text or
/// else its words run together, with its words when it has any.
pub open spec fn line_of(l: RichLineV) -> LineV {
    let ts = l.ts.unwrap();
    let ws = words_of(l.words, ts);
    LineV {
        time_ms: Some(ts),
        end_time_ms: match l.te {
            Some(e) => Some(e),
            None => if ws.len() > 0 {
                Some(ws.last().end_ms)
            } else {
                None
            },
        },
        text: if l.line.len() == 0 {
            joined_texts(ws)
        } else {
            l.line
        },
        words: if ws.len() == 0 {
            None
        } else {
            Some(ws)
        },
        translation: None,
    }
}

/// The whole answer: nothing without a line list or when a line has no start time; else the
/// lines, provided there is at least one and at least one has words.
pub open spec fn richsync_spec(lines: Option<Seq<RichLineV>>) -> Option<Seq<LineV>> {
    match lines {
        None => None,
        Some(ls) => if exists|i: int| 0 <= i < ls.len() && (#[trigger] ls[i]).ts is None {
            None
        } else {
            let out = ls.map_values(|l: RichLineV| line_of(l));
            if out.len() > 0 && exists|i: int| 0 <= i < out.len() && (#[trigger] out[i]).words is Some {
                Some(out)
            } else {
                None
            }
        },
    }
}

/// A word's fallback end (its start plus 500 ms) fits in a `u64`.
pub open spec fn end_fits(w: RichWordV, ts: u64) -> bool {
    keeps_word(w) && w.end_ms is None ==> match w.start_ms {
        Some(s) => s + 500 <= u64::MAX,
        None => ts + 500 <= u64::MAX,
    }
}

pub open spec fn ends_fit(lines: Seq<RichLineV>) -> bool {
    forall|i: int, j: int|
        0 <= i < lines.len() && 0 <= j < lines[i].words.len() ==> ((#[trigger] lines[i]).ts matches Some(
            ts,
        ) ==> end_fits(#[trigger] lines[i].words[j], ts))
}

fn line_words(ws: &Vec<RichWord>, ts: u64) -> (r: Vec<LyricWord>)
    requires
        forall|j: int| 0 <= j < ws.len() ==> end_fits(#[trigger] ws@[j]@, ts),
    ensures
        words_view(r@) == words_of(ws@.map_values(|w: RichWord| w@), ts),
{
    let ghost wv = ws@.map_values(|w: RichWord| w@);
    let mut out: Vec<LyricWord> = Vec::new();
    let mut j: usize = 0;
    while j < ws.len()
        invariant
            j <= ws.len(),
            wv == ws@.map_values(|w: RichWord| w@),
            forall|k: int| 0 <= k < ws.len() ==> end_fits(#[trigger] ws@[k]@, ts),
            words_view(out@) == words_of(wv.take(j as int), ts),
        decreases ws.len() - j,
    {
        let w = &ws[j];
        proof {
            assert(wv.take(j + 1).drop_last() =~= wv.take(j as int));
            assert(wv.take(j + 1).last() == w@);
            assert(end_fits(ws@[j as int]@, ts));
        }
        if let Some(t) = &w.text {
            let tv = chars_of(t.as_str());
            let tt = trim_vec(&tv);
            if tt.len() > 0 {
                let start = match w.start_ms {
                    Some(s) => s,
                    None => ts,
                };
                let end = match w.end_ms {
                    Some(e) => e,
                    None => start + 500,
                };
                let ghost before = out@;
                out.push(LyricWord { text: t.clone(), start_ms: start, end_ms: end });
                assert(words_view(out@) =~= words_view(before).push(word_of(w@, ts)));
            }
        }
        j += 1;
    }
    assert(wv.take(ws.len() as int) =~= wv);
    out
}

proof fn lemma_joined_texts_push(ws: Seq<WordV>, w: WordV)
    ensures
        joined_texts(ws.push(w)) == joined_texts(ws) + w.text,
{
    assert(ws.push(w).drop_last() =~= ws);
}

fn joined(ws: &Vec<LyricWord>) -> (r: String)
    ensures
        r@ == joined_texts(words_view(ws@)),
{
    let mut v: Vec<char> = Vec::new();
    let mut j: usize = 0;
    while j < ws.len()
        invariant
            j <= ws.len(),
            v@ == joined_texts(words_view(ws@).take(j as int)),
        decreases ws.len() - j,
    {
        let ghost before = v@;
        append_chars(&mut v, &chars_of(ws[j].text.as_str()));
        proof {
            assert(words_view(ws@).take(j + 1) =~= words_view(ws@).take(j as int).push(ws@[j as int]@));
            lemma_joined_texts_push(words_view(ws@).take(j as int), ws@[j as int]@);
        }
        j += 1;
    }
    assert(words_view(ws@).take(ws.len() as int) =~= words_view(ws@));
    string_of(&v)
}

/// Assembles richsync lines into lyric lines (see `richsync_spec`).
pub fn richsync_lines(lines: Option<Vec<RichLine>>) -> (r: Option<Vec<LyricLine>>)
    requires
        lines matches Some(ls) ==> ends_fit(rich_lines_view(ls@)),
    ensures
        match r {
            Some(v) => richsync_spec(
                match lines {
                    Some(ls) => Some(rich_lines_view(ls@)),
                    None => None,
                },
            ) == Some(lines_view(v@)),
            None => richsync_spec(
                match lines {
                    Some(ls) => Some(rich_lines_view(ls@)),
                    None => None,
                },
            ) is None,
        },
{
    let ls = match lines {
        Some(ls) => ls,
        None => return None,
    };
    let ghost lv = rich_lines_view(ls@);
    assert(lines == Some(ls));
    let mut out: Vec<LyricLine> = Vec::new();
    let mut any_words = false;
    let mut i: usize = 0;
    while i < ls.len()
        invariant
            i <= ls.len(),
            lines == Some(ls),
            lv == rich_lines_view(ls@),
            ends_fit(lv),
            forall|k: int| 0 <= k < i ==> (#[trigger] lv[k]).ts is Some,
            lines_view(out@) == lv.take(i as int).map_values(|l: RichLineV| line_of(l)),
            any_words == exists|k: int| 0 <= k < i && (#[trigger] lines_view(out@)[k]).words is Some,
        decreases ls.len() - i,
    {
        let l = &ls[i];
        assert(lv[i as int] == l@);
        let ts = match l.ts {
            Some(t) => t,
            None => {
                assert(lv[i as int].ts is None);
                assert(richsync_spec(Some(lv)) is None);
                return None;
            },
        };
        proof {
            assert forall|j: int| 0 <= j < l.words.len() implies end_fits(#[trigger] l.words@[j]@, ts) by {
                assert(lv[i as int].words[j] == l.words@[j]@);
            }
        }
        let words = line_words(&l.words, ts);
        let ghost wv = words_view(words@);
        let end = match l.te {
            Some(e) => Some(e),
            None => if words.len() > 0 {
                Some(words[words.len() - 1].end_ms)
            } else {
                None
            },
        };
        let empty = l.line.as_str().unicode_len() == 0;
        let text = if empty {
            joined(&words)
        } else {
            l.line.clone()
        };
        proof {
            if words.len() > 0 {
                assert(wv.last() == words@[words.len() - 1]@);
            }
        }
        let has = words.len() > 0;
        let ws = if has {
            Some(words)
        } else {
            None
        };
        let line = LyricLine { time_ms: Some(ts), end_time_ms: end, text, words: ws, translation: None };
        proof {
            assert(line@ == line_of(lv[i as int]));
        }
        let ghost before = out@;
        out.push(line);
        proof {
            assert(lv.take(i + 1) =~= lv.take(i as int).push(lv[i as int]));
            assert(lines_view(out@) =~= lines_view(before).push(line_of(lv[i as int])));
            if has {
                assert(lines_view(out@)[i as int].words is Some);
            }
            if any_words {
                let k = choose|k: int| 0 <= k < i && (#[trigger] lines_view(before)[k]).words is Some;
                assert(lines_view(out@)[k] == lines_view(before)[k]);
            }
            if exists|k: int| 0 <= k < i + 1 && (#[trigger] lines_view(out@)[k]).words is Some {
                let k = choose|k: int| 0 <= k < i + 1 && (#[trigger] lines_view(out@)[k]).words is Some;
                if k < i {
                    assert(lines_view(out@)[k] == lines_view(before)[k]);
                }
            }
        }
        any_words = any_words || has;
        i += 1;
    }
    assert(lv.take(ls.len() as int) =~= lv);
    if out.len() > 0 && any_words {
        Some(out)
    } else {
        None
    }
}

// ---------------------------------------------------------------------------------------------
// Apple Music
// ---------------------------------------------------------------------------------------------

/// An Apple Music word: it starts at its own time, else the line's, else 0; it ends at its own
/// time, else the line's end, else 500 ms after it starts.
pub open spec fn apple_word_of(w: RichWordV, begin: Option<u64>, end: Option<u64>) -> WordV {
    let start = match w.start_ms {
        Some(s) => s,
        None => match begin {
            Some(b) => b,
            None => 0,
        },
    };
    WordV {
        text: w.text.unwrap(),
        start_ms: start,
        end_ms: match w.end_ms {
            Some(e) => e,
            None => match end {
                Some(e) => e,
                None => (start + 500) as u64,
            },
        },
    }
}

pub open spec fn apple_words_of(ws: Seq<RichWordV>, begin: Option<u64>, end: Option<u64>) -> Seq<WordV>
    decreases ws.len(),
{
    if ws.len() == 0 {
        seq![]
    } else if keeps_word(ws.last()) {
        apple_words_of(ws.drop_last(), begin, end).push(apple_word_of(ws.last(), begin, end))
    } else {
        apple_words_of(ws.drop_last(), begin, end)
    }
}

/// An Apple Music line: timed at its begin (if any), ending at its end or else its last
/// word's, with its own text and its words when it has any.
pub open spec fn apple_line_of(l: RichLineV) -> LineV {
    let ws = apple_words_of(l.words, l.ts, l.te);
    LineV {
        time_ms: l.ts,
        end_time_ms: match l.te {
            Some(e) => Some(e),
            None => if ws.len() > 0 {
                Some(ws.last().end_ms)
            } else {
                None
            },
        },
        text: l.line,
        words: if ws.len() == 0 {
            None
        } else {
            Some(ws)
        },
        translation: None,
    }
}

/// The answer: nothing without a line list, else the lines as parsed lyrics.
pub open spec fn apple_spec(lines: Option<Seq<RichLineV>>) -> Option<LyricsV> {
    match lines {
        None => None,
        Some(ls) => from_parsed_spec(
            seq!['A', 'p', 'p', 'l', 'e', ' ', 'M', 'u', 's', 'i', 'c'],
            ls.map_values(|l: RichLineV| apple_line_of(l)),
        ),
    }
}

/// The fallback end of a kept word without its own or its line's end fits in a `u64`.
pub open spec fn apple_ends_fit(lines: Seq<RichLineV>) -> bool {
    forall|i: int, j: int|
        0 <= i < lines.len() && 0 <= j < lines[i].words.len() ==> {
            let w = #[trigger] lines[i].words[j];
            keeps_word(w) && w.end_ms is None && lines[i].te is None ==> apple_word_of(
                w,
                lines[i].ts,
                None,
            ).start_ms + 500 <= u64::MAX
        }
}

fn apple_line_words(ws: &Vec<RichWord>, begin: Option<u64>, end: Option<u64>) -> (r: Vec<LyricWord>)
    requires
        forall|j: int| 0 <= j < ws.len() ==> {
            let w = #[trigger] ws@[j]@;
            keeps_word(w) && w.end_ms is None && end is None ==> apple_word_of(w, begin, None).start_ms
                + 500 <= u64::MAX
        },
    ensures
        words_view(r@) == apple_words_of(ws@.map_values(|w: RichWord| w@), begin, end),
{
    let ghost wv = ws@.map_values(|w: RichWord| w@);
    let mut out: Vec<LyricWord> = Vec::new();
    let mut j: usize = 0;
    while j < ws.len()
        invariant
            j <= ws.len(),
            wv == ws@.map_values(|w: RichWord| w@),
            forall|k: int| 0 <= k < ws.len() ==> {
                let w = #[trigger] ws@[k]@;
                keeps_word(w) && w.end_ms is None && end is None ==> apple_word_of(w, begin, None).start_ms
                    + 500 <= u64::MAX
            },
            words_view(out@) == apple_words_of(wv.take(j as int), begin, end),
        decreases ws.len() - j,
    {
        let w = &ws[j];
        proof {
            assert(wv.take(j + 1).drop_last() =~= wv.take(j as int));
            assert(wv.take(j + 1).last() == w@);
            let _ = ws@[j as int]@;
        }
        if let Some(t) = &w.text {
            let tv = chars_of(t.as_str());
            let tt = trim_vec(&tv);
            if tt.len() > 0 {
                let start = match w.start_ms {
                    Some(s) => s,
                    None => match begin {
                        Some(b) => b,
                        None => 0,
                    },
                };
                let stop = match w.end_ms {
                    Some(e) => e,
                    None => match end {
                        Some(e) => e,
                        None => start + 500,
                    },
                };
                let ghost before = out@;
                out.push(LyricWord { text: t.clone(), start_ms: start, end_ms: stop });
                assert(words_view(out@) =~= words_view(before).push(apple_word_of(w@, begin, end)));
            }
        }
        j += 1;
    }
    assert(wv.take(ws.len() as int) =~= wv);
    out
}

/// Assembles Apple Music's lines into lyrics (see `apple_spec`).
pub fn apple_lyrics(lines: Option<Vec<RichLine>>) -> (r: Option<Lyrics>)
    requires
        lines matches Some(ls) ==> apple_ends_fit(rich_lines_view(ls@)),
    ensures
        opt_lyrics_view(r) == apple_spec(
            match lines {
                Some(ls) => Some(rich_lines_view(ls@)),
                None => None,
            },
        ),
{
    let ls = match lines {
        Some(ls) => ls,
        None => return None,
    };
    let ghost lv = rich_lines_view(ls@);
    let mut out: Vec<LyricLine> = Vec::new();
    let mut i: usize = 0;
    while i < ls.len()
        invariant
            i <= ls.len(),
            lines == Some(ls),
            lv == rich_lines_view(ls@),
            apple_ends_fit(lv),
            lines_view(out@) == lv.take(i as int).map_values(|l: RichLineV| apple_line_of(l)),
        decreases ls.len() - i,
    {
        let l = &ls[i];
        assert(lv[i as int] == l@);
        proof {
            assert forall|j: int| 0 <= j < l.words.len() implies {
                let w = #[trigger] l.words@[j]@;
                keeps_word(w) && w.end_ms is None && l.te is None ==> apple_word_of(w, l.ts, None).start_ms
                    + 500 <= u64::MAX
            } by {
                assert(lv[i as int].words[j] == l.words@[j]@);
            }
        }
        let words = apple_line_words(&l.words, l.ts, l.te);
        let ghost wv = words_view(words@);
        let end = match l.te {
            Some(e) => Some(e),
            None => if words.len() > 0 {
                Some(words[words.len() - 1].end_ms)
            } else {
                None
            },
        };
        proof {
            if words.len() > 0 {
                assert(wv.last() == words@[words.len() - 1]@);
            }
        }
        let ws = if words.len() > 0 {
            Some(words)
        } else {
            None
        };
        let line = LyricLine { time_ms: l.ts, end_time_ms: end, text: l.line.clone(), words: ws, translation: None };
        assert(line@ == apple_line_of(lv[i as int]));
        let ghost before = out@;
        out.push(line);
        proof {
            assert(lv.take(i + 1) =~= lv.take(i as int).push(lv[i as int]));
            assert(lines_view(out@) =~= lines_view(before).push(apple_line_of(lv[i as int])));
        }
        i += 1;
    }
    assert(lv.take(ls.len() as int) =~= lv);
    proof {
        reveal_strlit("Apple Music");
        assert("Apple Music"@ =~= seq!['A', 'p', 'p', 'l', 'e', ' ', 'M', 'u', 's', 'i', 'c']);
    }
    from_parsed("Apple Music", out)
}


// ---------------------------------------------------------------------------------------------
// Apple Music access
// ---------------------------------------------------------------------------------------------

/// What an Apple Music lyrics request is made with: the two tokens from the settings and the
/// storefront (lowercased).
pub struct AppleAuth {
    pub media_token: String,
    pub dev_token: String,
    pub storefront: String,
}

pub open spec fn us() -> Seq<char> {
    seq!['u', 's']
}

/// Whether the Apple provider runs: only when both tokens are set and neither is blank.
pub open spec fn apple_enabled(media: Option<Seq<char>>, dev: Option<Seq<char>>) -> bool {
    match (media, dev) {
        (Some(m), Some(d)) => trim(m).len() > 0 && trim(d).len() > 0,
        _ => false,
    }
}

/// The Apple provider's settings: `None` (the provider is off) unless both the media-user token
/// and the developer token are set and not blank; else the tokens as stored and the storefront
/// setting (`us` when unset), lowercased.
pub fn apple_auth(media: Option<&str>, dev: Option<&str>, storefront: Option<&str>) -> (r: Option<AppleAuth>)
    ensures
        r is Some == apple_enabled(opt_str_view(media), opt_str_view(dev)),
        r matches Some(a) ==> {
            &&& Some(a.media_token@) == opt_str_view(media)
            &&& Some(a.dev_token@) == opt_str_view(dev)
            &&& a.storefront@ == crate::local::lowercase(
                match opt_str_view(storefront) {
                    Some(f) => f,
                    None => us(),
                },
            )
        },
{
    let (m, d) = match (media, dev) {
        (Some(m), Some(d)) => (m, d),
        _ => return None,
    };
    if trim_vec(&chars_of(m)).len() == 0 || trim_vec(&chars_of(d)).len() == 0 {
        return None;
    }
    let front = match storefront {
        Some(f) => crate::local::to_lowercase(f),
        None => {
            let u = vec!['u', 's'];
            assert(u@ =~= us());
            crate::local::to_lowercase(string_of(&u).as_str())
        },
    };
    Some(AppleAuth { media_token: string_of(&chars_of(m)), dev_token: string_of(&chars_of(d)), storefront: front })
}

pub open spec fn apple_root() -> Seq<char> {
    "https://amp-api.music.apple.com/v1/catalog/"@
}

/// The catalog search URL of a storefront: `<root>/<storefront>/search`.
pub fn apple_search_url(storefront: &str) -> (r: String)
    ensures
        r@ == apple_root() + storefront@ + "/search"@,
{
    let mut v = chars_of("https://amp-api.music.apple.com/v1/catalog/");
    append_chars(&mut v, &chars_of(storefront));
    append_chars(&mut v, &chars_of("/search"));
    string_of(&v)
}

/// A song's lyrics URL: `<root>/<storefront>/songs/<id>/lyrics`.
pub fn apple_lyrics_url(storefront: &str, song_id: &str) -> (r: String)
    ensures
        r@ == apple_root() + storefront@ + "/songs/"@ + song_id@ + "/lyrics"@,
{
    let mut v = chars_of("https://amp-api.music.apple.com/v1/catalog/");
    append_chars(&mut v, &chars_of(storefront));
    append_chars(&mut v, &chars_of("/songs/"));
    append_chars(&mut v, &chars_of(song_id));
    append_chars(&mut v, &chars_of("/lyrics"));
    string_of(&v)
}

} // verus!
