//! LRC parsing: `[mm:ss.xx] text` lines into cued lyric lines.
use vstd::prelude::*;

use crate::lyrics::{
    cue_lt, cue_sorted, lemma_sort_by_cue, lines_view, simple_line, sort_by_cue,
    sort_lines_by_cue, words_view, LineV, LyricLine, LyricWord, WordV,
};
use crate::text::{
    chars_of, copy_range, index_of_char, index_of_char_exec, is_digit, lemma_index_of_char,
    lemma_index_of_char_shift, lemma_trim_start_len, lines, lines_exec, magnitude, parse_u64,
    parse_u64_exec, skip_ws, split_char, string_of, trim, trim_bounds, trim_start,
};

verus! {

/// The first `n` ASCII digits of `f`, skipping anything else.
pub open spec fn first_digits(f: Seq<char>, n: nat) -> Seq<char>
    decreases f.len(),
{
    if n == 0 || f.len() == 0 {
        seq![]
    } else if is_digit(f[0]) {
        seq![f[0]] + first_digits(f.drop_first(), (n - 1) as nat)
    } else {
        first_digits(f.drop_first(), n)
    }
}

/// The fraction after the seconds' dot, in milliseconds: one digit is tenths, two are
/// hundredths, three (the most read) are thousandths. No digit at all is not a time.
pub open spec fn frac_ms(f: Seq<char>) -> Option<u64> {
    let d = first_digits(f, 3);
    match magnitude(d) {
        Some(v) => if d.len() == 1 {
            Some((v * 100) as u64)
        } else if d.len() == 2 {
            Some((v * 10) as u64)
        } else {
            Some(v as u64)
        },
        None => None,
    }
}

/// Minutes, seconds and milliseconds to milliseconds, in `u64` arithmetic that wraps.
pub open spec fn lrc_ms(m: u64, s: u64, ms: u64) -> u64 {
    vstd::wrapping::u64_specs::wrapping_add(
        vstd::wrapping::u64_specs::wrapping_mul(
            vstd::wrapping::u64_specs::wrapping_add(
                vstd::wrapping::u64_specs::wrapping_mul(m, 60),
                s,
            ),
            1000,
        ),
        ms,
    )
}

/// `mm:ss`, `mm:ss.x`, `mm:ss.xx` or `mm:ss.xxx` to milliseconds.
pub open spec fn lrc_time(tag: Seq<char>) -> Option<u64> {
    let i = index_of_char(tag, ':', 0);
    if i < 0 || i >= tag.len() {
        None
    } else {
        let rest = tag.skip(i + 1);
        let j = index_of_char(rest, '.', 0);
        let secs = if 0 <= j < rest.len() {
            rest.take(j)
        } else {
            rest
        };
        match (parse_u64(trim(tag.take(i))), parse_u64(trim(secs))) {
            (Some(m), Some(s)) => {
                let ms = if 0 <= j < rest.len() {
                    frac_ms(rest.skip(j + 1))
                } else {
                    Some(0u64)
                };
                match ms {
                    Some(ms) => Some(lrc_ms(m, s, ms)),
                    None => None,
                }
            },
            _ => None,
        }
    }
}

proof fn lemma_first_digits(f: Seq<char>, n: nat)
    ensures
        first_digits(f, n).len() <= n,
        forall|k: int| 0 <= k < first_digits(f, n).len() ==> is_digit(#[trigger] first_digits(f, n)[k]),
    decreases f.len(),
{
    if n == 0 || f.len() == 0 {
    } else if is_digit(f[0]) {
        lemma_first_digits(f.drop_first(), (n - 1) as nat);
        let t = first_digits(f.drop_first(), (n - 1) as nat);
        assert forall|k: int| 0 <= k < first_digits(f, n).len() implies is_digit(
            #[trigger] first_digits(f, n)[k],
        ) by {
            if k > 0 {
                assert(first_digits(f, n)[k] == t[k - 1]);
            }
        }
    } else {
        lemma_first_digits(f.drop_first(), n);
    }
}

/// Collects up to `n` digits of `v[from..]`.
fn first_digits_exec(v: &[char], from: usize, n: usize) -> (r: Vec<char>)
    requires
        from <= v.len(),
    ensures
        r@ == first_digits(v@.skip(from as int), n as nat),
{
    let mut r: Vec<char> = Vec::new();
    let mut i = from;
    let mut left = n;
    while i < v.len()
        invariant
            from <= i <= v.len(),
            left <= n,
            r@ + first_digits(v@.skip(i as int), left as nat) == first_digits(
                v@.skip(from as int),
                n as nat,
            ),
        decreases v.len() - i,
    {
        if left == 0 {
            assert(first_digits(v@.skip(i as int), 0) =~= Seq::<char>::empty());
            assert(r@ =~= r@ + Seq::<char>::empty());
            return r;
        }
        let c = v[i];
        assert(v@.skip(i as int)[0] == c);
        assert(v@.skip(i as int).drop_first() =~= v@.skip(i + 1));
        if '0' <= c && c <= '9' {
            let ghost before = r@;
            r.push(c);
            assert(r@ + first_digits(v@.skip(i + 1), (left - 1) as nat) =~= before + (seq![c]
                + first_digits(v@.skip(i + 1), (left - 1) as nat)));
            left -= 1;
        }
        i += 1;
    }
    assert(first_digits(v@.skip(i as int), left as nat) =~= Seq::<char>::empty());
    assert(r@ =~= r@ + Seq::<char>::empty());
    r
}

/// Parses an LRC time tag held in `v[from..to]`.
pub fn lrc_time_exec(v: &[char], from: usize, to: usize) -> (r: Option<u64>)
    requires
        from <= to <= v.len(),
    ensures
        r == lrc_time(v@.subrange(from as int, to as int)),
{
    let ghost tag = v@.subrange(from as int, to as int);
    let w = copy_range(v, from, to);
    assert(w@ == tag);
    let i = index_of_char_exec(&w, ':', 0);
    if i >= w.len() {
        return None;
    }
    let ghost rest = tag.skip(i + 1);
    let j = index_of_char_exec(&w, '.', i + 1);
    proof {
        lemma_index_of_char(rest, '.', 0);
        lemma_index_of_char_dot(tag, i + 1);
    }
    let secs_end = j;
    let (ma, mb) = trim_bounds(&w, 0, i);
    assert(tag.take(i as int) =~= w@.subrange(0, i as int));
    let m = parse_u64_exec(&w, ma, mb);
    let (sa, sb) = trim_bounds(&w, i + 1, secs_end);
    proof {
        if j < w.len() {
            assert(rest.take(j - (i + 1)) =~= w@.subrange(i + 1, j as int));
        } else {
            assert(rest =~= w@.subrange(i + 1, j as int));
        }
    }
    let s = parse_u64_exec(&w, sa, sb);
    assert(m == parse_u64(trim(tag.take(i as int))));
    assert(index_of_char(tag, ':', 0) == i);
    assert(tag.skip(i + 1) == rest);
    assert(j < w.len() <==> index_of_char(rest, '.', 0) < rest.len());
    assert(s == parse_u64(trim(if j < w.len() { rest.take(j - (i + 1)) } else { rest })));
    match (m, s) {
        (Some(m), Some(s)) => {
            let ms = if j < w.len() {
                assert(rest.skip(j - (i + 1) + 1) =~= w@.skip(j + 1));
                frac_ms_exec(&w, j + 1)
            } else {
                Some(0u64)
            };
            match ms {
                Some(ms) => Some(m.wrapping_mul(60).wrapping_add(s).wrapping_mul(1000).wrapping_add(ms)),
                None => None,
            }
        },
        _ => None,
    }
}

/// The fraction of `v[from..]` in milliseconds.
fn frac_ms_exec(v: &[char], from: usize) -> (r: Option<u64>)
    requires
        from <= v.len(),
    ensures
        r == frac_ms(v@.skip(from as int)),
{
    let d = first_digits_exec(v, from, 3);
    proof {
        lemma_first_digits(v@.skip(from as int), 3);
        lemma_small_digits(d@);
        assert(d@.subrange(0, d@.len() as int) =~= d@);
        if d@.len() > 0 {
            assert(is_digit(d@[0]));
        }
    }
    let dv = parse_u64_exec(&d, 0, d.len());
    match dv {
        Some(val) => {
            if d.len() == 1 {
                Some(val * 100)
            } else if d.len() == 2 {
                Some(val * 10)
            } else {
                Some(val)
            }
        },
        None => None,
    }
}

proof fn lemma_index_of_char_dot(tag: Seq<char>, k: int)
    requires
        0 <= k <= tag.len(),
    ensures
        index_of_char(tag, '.', k) == index_of_char(tag.skip(k), '.', 0) + k,
{
    lemma_index_of_char_shift(tag, '.', k, 0);
}

/// A run of at most three digits is below a thousand.
proof fn lemma_small_digits(d: Seq<char>)
    requires
        d.len() <= 3,
        forall|k: int| 0 <= k < d.len() ==> is_digit(#[trigger] d[k]),
    ensures
        crate::text::digits_value(d) < 1000,
        d.len() <= 2 ==> crate::text::digits_value(d) < 100,
        d.len() <= 1 ==> crate::text::digits_value(d) < 10,
    decreases d.len(),
{
    if d.len() > 0 {
        assert forall|k: int| 0 <= k < d.drop_last().len() implies is_digit(
            #[trigger] d.drop_last()[k],
        ) by {
            assert(d.drop_last()[k] == d[k]);
        }
        lemma_small_digits(d.drop_last());
        assert(is_digit(d[d.len() - 1]));
    }
}

// ---------------------------------------------------------------------------------------------
// Lines
// ---------------------------------------------------------------------------------------------

/// The cue tags at the front of a (trimmed) LRC line and the text after them. A bracket that is
/// not a time ends the tags: a metadata tag (`[ar:...]`) then has no cues, and bracketed lyric
/// text (`[Chorus]`) stays part of the text.
pub open spec fn lrc_tags(rest: Seq<char>) -> (Seq<u64>, Seq<char>)
    decreases rest.len(),
{
    if rest.len() > 0 && rest[0] == '[' {
        let after = rest.drop_first();
        let e = index_of_char(after, ']', 0);
        if e < 0 || e >= after.len() {
            (seq![], rest)
        } else {
            match lrc_time(after.take(e)) {
                Some(ms) => {
                    let next = trim_start(after.skip(e + 1));
                    proof {
                        lemma_trim_start_len(after.skip(e + 1));
                    }
                    let (ts, t) = lrc_tags(next);
                    (seq![ms] + ts, t)
                },
                None => (seq![], rest),
            }
        }
    } else {
        (seq![], rest)
    }
}

/// The cued lines one LRC line yields: its text once per cue.
pub open spec fn lrc_entries(line: Seq<char>) -> Seq<LineV> {
    let (cues, text) = lrc_tags(trim(line));
    cues.map_values(|ms: u64| simple_line(Some(ms), text))
}

/// Every line's entries, in order of appearance.
pub open spec fn lrc_unsorted(ls: Seq<Seq<char>>) -> Seq<LineV>
    decreases ls.len(),
{
    if ls.len() == 0 {
        seq![]
    } else {
        lrc_unsorted(ls.drop_last()) + lrc_entries(ls.last())
    }
}

/// Parse LRC text (`[mm:ss.xx] line`) into lines ordered by cue. A line with several cues
/// (`[t1][t2]text`) repeats at each; lines without a cue (metadata) are skipped; cued empty lines
/// are kept (instrumental gaps).
pub open spec fn parse_lrc_spec(lrc: Seq<char>) -> Seq<LineV> {
    sort_by_cue(lrc_unsorted(lines(lrc)))
}

/// Reads the cue tags at the front of `t`.
fn lrc_tags_exec(t: &[char]) -> (r: (Vec<u64>, usize))
    ensures
        r.1 <= t.len(),
        r.0@ == lrc_tags(t@).0,
        t@.skip(r.1 as int) == lrc_tags(t@).1,
{
    let mut cues: Vec<u64> = Vec::new();
    let mut pos: usize = 0;
    assert(t@.skip(0) =~= t@);
    loop
        invariant
            pos <= t.len(),
            lrc_tags(t@).0 == cues@ + lrc_tags(t@.skip(pos as int)).0,
            lrc_tags(t@).1 == lrc_tags(t@.skip(pos as int)).1,
        decreases t.len() - pos,
    {
        let ghost rest = t@.skip(pos as int);
        if pos >= t.len() || t[pos] != '[' {
            assert(lrc_tags(rest) == (Seq::<u64>::empty(), rest));
            assert(cues@ + Seq::<u64>::empty() =~= cues@);
            return (cues, pos);
        }
        let e = index_of_char_exec(t, ']', pos + 1);
        proof {
            assert(rest[0] == '[');
            assert(rest.drop_first() =~= t@.skip(pos + 1));
            lemma_index_of_char_shift(t@, ']', pos + 1, 0);
        }
        if e >= t.len() {
            assert(lrc_tags(rest) == (Seq::<u64>::empty(), rest));
            assert(cues@ + Seq::<u64>::empty() =~= cues@);
            return (cues, pos);
        }
        let ghost after = t@.skip(pos + 1);
        let ghost el = e - (pos + 1);
        assert(after.take(el) =~= t@.subrange(pos + 1, e as int));
        match lrc_time_exec(t, pos + 1, e) {
            Some(ms) => {
                let next = skip_ws(t, e + 1);
                proof {
                    assert(after.skip(el + 1) =~= t@.skip(e + 1));
                    lemma_trim_start_len(after.skip(el + 1));
                    let (ts, tx) = lrc_tags(t@.skip(next as int));
                    assert(lrc_tags(rest) == (seq![ms] + ts, tx));
                    assert(cues@.push(ms) + ts =~= cues@ + (seq![ms] + ts));
                }
                cues.push(ms);
                pos = next;
            },
            None => {
                assert(lrc_tags(rest) == (Seq::<u64>::empty(), rest));
                assert(cues@ + Seq::<u64>::empty() =~= cues@);
                return (cues, pos);
            },
        }
    }
}

/// Parse LRC text into lines ordered by cue (see `parse_lrc_spec`).
pub fn parse_lrc(lrc: &str) -> (r: Vec<LyricLine>)
    ensures
        lines_view(r@) == parse_lrc_spec(lrc@),
{
    let v = chars_of(lrc);
    let ls = lines_exec(&v);
    let mut out: Vec<LyricLine> = Vec::new();
    let mut i: usize = 0;
    let ghost all = lines(lrc@);
    while i < ls.len()
        invariant
            i <= ls.len(),
            ls@.len() == all.len(),
            all == lines(lrc@),
            forall|k: int| 0 <= k < ls@.len() ==> #[trigger] ls@[k]@ == all[k],
            lines_view(out@) == lrc_unsorted(all.take(i as int)),
        decreases ls.len() - i,
    {
        let line = &ls[i];
        let (a, b) = trim_bounds(line, 0, line.len());
        let t = copy_range(line, a, b);
        proof {
            assert(line@.subrange(0, line@.len() as int) =~= line@);
            assert(t@ == trim(all[i as int]));
        }
        let (cues, p) = lrc_tags_exec(&t);
        let ghost text = t@.skip(p as int);
        let ghost base = lines_view(out@);
        let mut k: usize = 0;
        while k < cues.len()
            invariant
                k <= cues.len(),
                p <= t.len(),
                text == t@.skip(p as int),
                lines_view(out@) == base + cues@.take(k as int).map_values(
                    |ms: u64| simple_line(Some(ms), text),
                ),
            decreases cues.len() - k,
        {
            let s = string_of(&copy_range(&t, p, t.len()));
            assert(t@.subrange(p as int, t@.len() as int) =~= text);
            let l = LyricLine::simple(Some(cues[k]), s);
            let ghost prev = out@;
            out.push(l);
            proof {
                assert(lines_view(out@) =~= lines_view(prev).push(l@));
                assert(cues@.take(k + 1).map_values(|ms: u64| simple_line(Some(ms), text))
                    =~= cues@.take(k as int).map_values(|ms: u64| simple_line(Some(ms), text)).push(
                    simple_line(Some(cues@[k as int]), text),
                ));
            }
            k += 1;
        }
        proof {
            assert(cues@.take(cues@.len() as int) =~= cues@);
            assert(all.take(i + 1).drop_last() =~= all.take(i as int));
            assert(all.take(i + 1).last() == all[i as int]);
        }
        i += 1;
    }
    assert(all.take(ls.len() as int) =~= all);
    sort_lines_by_cue(out)
}

// ---------------------------------------------------------------------------------------------
// Enhanced LRC: inline word cues `<mm:ss.xx>word`
// ---------------------------------------------------------------------------------------------

/// Scans a line's text from `pos` for inline word cues. Each `<time>` ends the word before it
/// (which ran from the previous cue, `last`) and starts the text up to the next `<`; anything
/// else is copied through. Returns the words and the text with the cue tags removed.
pub open spec fn elrc_scan(t: Seq<char>, pos: int, last: u64) -> (Seq<WordV>, Seq<char>)
    decreases t.len() - pos,
{
    if pos < 0 || pos >= t.len() {
        (seq![], seq![])
    } else {
        let e = index_of_char(t, '>', pos);
        let timed = if t[pos] == '<' && pos < e < t.len() {
            lrc_time(t.subrange(pos + 1, e))
        } else {
            None
        };
        match timed {
            Some(w) => {
                let start = e + 1;
                let next = index_of_char(t, '<', start);
                proof {
                    lemma_index_of_char(t, '<', start);
                }
                let word = t.subrange(start, next);
                let (ws, txt) = elrc_scan(t, next, w);
                (seq![WordV { text: word, start_ms: last, end_ms: w }] + ws, word + txt)
            },
            None => {
                let (ws, txt) = elrc_scan(t, pos + 1, last);
                (ws, seq![t[pos]] + txt)
            },
        }
    }
}

/// A line after the word-cue pass: when its text holds `<` or `(` and at least one word cue,
/// the words are attached and the text becomes the trimmed text without the tags.
pub open spec fn elrc_line(l: LineV) -> LineV {
    if l.text.contains('<') || l.text.contains('(') {
        let start = match l.time_ms {
            Some(t) => t,
            None => 0,
        };
        let (ws, txt) = elrc_scan(l.text, 0, start);
        if ws.len() > 0 {
            LineV { text: trim(txt), words: Some(ws), ..l }
        } else {
            l
        }
    } else {
        l
    }
}

/// Enhanced LRC: LRC lines, then inline word cues per line.
pub open spec fn parse_elrc_spec(lrc: Seq<char>) -> Seq<LineV> {
    parse_lrc_spec(lrc).map_values(|l: LineV| elrc_line(l))
}

fn contains_char(v: &[char], c: char) -> (r: bool)
    ensures
        r == v@.contains(c),
{
    let mut i: usize = 0;
    while i < v.len()
        invariant
            i <= v.len(),
            forall|j: int| 0 <= j < i ==> v@[j] != c,
        decreases v.len() - i,
    {
        if v[i] == c {
            return true;
        }
        i += 1;
    }
    false
}

/// Runs the word-cue scan over a line's text.
fn elrc_scan_exec(t: &Vec<char>, last0: u64) -> (r: (Vec<LyricWord>, Vec<char>))
    ensures
        (words_view(r.0@), r.1@) == elrc_scan(t@, 0, last0),
{
    let mut words: Vec<LyricWord> = Vec::new();
    let mut buf: Vec<char> = Vec::new();
    let mut pos: usize = 0;
    let mut last = last0;
    while pos < t.len()
        invariant
            pos <= t.len(),
            ({
                let (ws, tx) = elrc_scan(t@, pos as int, last);
                elrc_scan(t@, 0, last0) == (words_view(words@) + ws, buf@ + tx)
            }),
        decreases t.len() - pos,
    {
        let ghost wv = words_view(words@);
        let ghost bv = buf@;
        let e = index_of_char_exec(t, '>', pos);
        let timed = if t[pos] == '<' && pos < e && e < t.len() {
            lrc_time_exec(t, pos + 1, e)
        } else {
            None
        };
        match timed {
            Some(w) => {
                let start = e + 1;
                let next = index_of_char_exec(t, '<', start);
                let word = copy_range(t, start, next);
                let ghost (ws, tx) = elrc_scan(t@, next as int, w);
                let lw = LyricWord { text: string_of(&word), start_ms: last, end_ms: w };
                crate::text::append_chars(&mut buf, &word);
                words.push(lw);
                proof {
                    assert(words_view(words@) =~= wv.push(lw@));
                    assert(wv + (seq![lw@] + ws) =~= words_view(words@) + ws);
                    assert(bv + (word@ + tx) =~= buf@ + tx);
                }
                last = w;
                pos = next;
            },
            None => {
                let c = t[pos];
                let ghost (ws, tx) = elrc_scan(t@, pos + 1, last);
                buf.push(c);
                proof {
                    assert(bv + (seq![c] + tx) =~= buf@ + tx);
                }
                pos += 1;
            },
        }
    }
    proof {
        let (ws, tx) = elrc_scan(t@, pos as int, last);
        assert(ws =~= Seq::<WordV>::empty());
        assert(tx =~= Seq::<char>::empty());
        assert(words_view(words@) + ws =~= words_view(words@));
        assert(buf@ + tx =~= buf@);
    }
    (words, buf)
}

/// Enhanced LRC parser: inline word-timing tags (`<00:01.23>word`) become per-word timings.
pub fn parse_elrc(lrc: &str) -> (r: Vec<LyricLine>)
    ensures
        lines_view(r@) == parse_elrc_spec(lrc@),
{
    let mut lines = parse_lrc(lrc);
    let ghost orig = lines_view(lines@);
    let mut i: usize = 0;
    while i < lines.len()
        invariant
            i <= lines.len(),
            lines@.len() == orig.len(),
            forall|k: int| 0 <= k < i ==> #[trigger] lines@[k]@ == elrc_line(orig[k]),
            forall|k: int| i <= k < lines@.len() ==> #[trigger] lines@[k]@ == orig[k],
        decreases lines.len() - i,
    {
        assert(lines@[i as int]@ == orig[i as int]);
        let mut line = lines.remove(i);
        let t = chars_of(line.text.as_str());
        if contains_char(&t, '<') || contains_char(&t, '(') {
            let start = match line.time_ms {
                Some(x) => x,
                None => 0,
            };
            let (ws, buf) = elrc_scan_exec(&t, start);
            if ws.len() > 0 {
                line.text = string_of(&crate::text::trim_vec(&buf));
                line.words = Some(ws);
            }
        }
        lines.insert(i, line);
        i += 1;
    }
    assert(lines_view(lines@) =~= orig.map_values(|l: LineV| elrc_line(l)));
    lines
}

// ---------------------------------------------------------------------------------------------
// KRC / YRC word lines: `[cue]<start,duration,0>word<start,duration,0>word`
// ---------------------------------------------------------------------------------------------

/// The word segments of `s` from `pos`: a `<start,duration,...>` tag (both numbers in ms)
/// introduces the text up to the next `<`; empty texts are dropped, other tags are skipped.
pub open spec fn krc_scan(s: Seq<char>, pos: int) -> Seq<WordV>
    decreases s.len() - pos,
{
    if pos < 0 || pos >= s.len() {
        seq![]
    } else {
        let end = index_of_char(s, '>', pos);
        if s[pos] == '<' && pos < end < s.len() {
            let parts = split_char(s.subrange(pos + 1, end), ',');
            if parts.len() >= 2 && parse_u64(parts[0]) is Some && parse_u64(parts[1]) is Some {
                let st = parse_u64(parts[0])->0;
                let du = parse_u64(parts[1])->0;
                let nxt = index_of_char(s, '<', end + 1);
                proof {
                    lemma_index_of_char(s, '<', end + 1);
                }
                let w = s.subrange(end + 1, nxt);
                (if w.len() > 0 {
                    seq![WordV { text: w, start_ms: st, end_ms: vstd::wrapping::u64_specs::wrapping_add(st, du) }]
                } else {
                    seq![]
                }) + krc_scan(s, nxt)
            } else {
                krc_scan(s, end + 1)
            }
        } else {
            krc_scan(s, pos + 1)
        }
    }
}

/// The words' texts run together.
pub open spec fn concat_texts(ws: Seq<WordV>) -> Seq<char>
    decreases ws.len(),
{
    if ws.len() == 0 {
        seq![]
    } else {
        concat_texts(ws.drop_last()) + ws.last().text
    }
}

/// The lines one KRC line yields: one per cue, carrying the words (text = the words together,
/// end = the last word's end) or, without words, the trimmed text.
pub open spec fn krc_entries(line: Seq<char>) -> Seq<LineV> {
    let (cues, rest) = lrc_tags(trim(line));
    let ws = krc_scan(rest, 0);
    if trim(line).len() == 0 {
        seq![]
    } else if ws.len() == 0 {
        cues.map_values(|ms: u64| simple_line(Some(ms), trim(rest)))
    } else {
        cues.map_values(
            |ms: u64|
                LineV {
                    time_ms: Some(ms),
                    end_time_ms: Some(ws.last().end_ms),
                    text: concat_texts(ws),
                    words: Some(ws),
                    translation: None,
                },
        )
    }
}

pub open spec fn krc_unsorted(ls: Seq<Seq<char>>) -> Seq<LineV>
    decreases ls.len(),
{
    if ls.len() == 0 {
        seq![]
    } else {
        krc_unsorted(ls.drop_last()) + krc_entries(ls.last())
    }
}

/// KRC/YRC word-level lyrics into lines ordered by cue.
pub open spec fn parse_krc_words_spec(text: Seq<char>) -> Seq<LineV> {
    sort_by_cue(krc_unsorted(lines(text)))
}

proof fn lemma_split_two(t: Seq<char>)
    ensures
        ({
            let i = index_of_char(t, ',', 0);
            let parts = split_char(t, ',');
            &&& (parts.len() >= 2 <==> i < t.len())
            &&& (i < t.len() ==> parts[0] == t.take(i))
            &&& (i < t.len() ==> parts[1] == t.skip(i + 1).take(index_of_char(t.skip(i + 1), ',', 0)))
        }),
{
    lemma_index_of_char(t, ',', 0);
    let i = index_of_char(t, ',', 0);
    if i < t.len() {
        let r = t.skip(i + 1);
        lemma_index_of_char(r, ',', 0);
        let j = index_of_char(r, ',', 0);
        if j < r.len() {
            assert(split_char(r, ',')[0] == r.take(j));
        } else {
            assert(split_char(r, ',') == seq![r]);
            assert(r.take(j) =~= r);
        }
    }
}

/// Parses `v[a..b]` as a `start,duration,...` word tag.
fn krc_tag(v: &[char], a: usize, b: usize) -> (r: Option<(u64, u64)>)
    requires
        a <= b <= v.len(),
    ensures
        ({
            let parts = split_char(v@.subrange(a as int, b as int), ',');
            if parts.len() >= 2 && parse_u64(parts[0]) is Some && parse_u64(parts[1]) is Some {
                r == Some((parse_u64(parts[0])->0, parse_u64(parts[1])->0))
            } else {
                r is None
            }
        }),
{
    let ghost t = v@.subrange(a as int, b as int);
    let tag = copy_range(v, a, b);
    proof {
        lemma_split_two(t);
    }
    let i = index_of_char_exec(&tag, ',', 0);
    if i >= tag.len() {
        return None;
    }
    let j = index_of_char_exec(&tag, ',', i + 1);
    proof {
        lemma_index_of_char_shift(t, ',', i + 1, 0);
        assert(t.take(i as int) =~= tag@.subrange(0, i as int));
        assert(t.skip(i + 1).take(j - (i + 1)) =~= tag@.subrange(i + 1, j as int));
    }
    let p0 = parse_u64_exec(&tag, 0, i);
    let p1 = parse_u64_exec(&tag, i + 1, j);
    match (p0, p1) {
        (Some(x), Some(y)) => Some((x, y)),
        _ => None,
    }
}

/// Scans `s` for word segments (see `krc_scan`).
fn krc_scan_exec(s: &Vec<char>) -> (r: Vec<LyricWord>)
    ensures
        words_view(r@) == krc_scan(s@, 0),
{
    let mut words: Vec<LyricWord> = Vec::new();
    let mut pos: usize = 0;
    while pos < s.len()
        invariant
            pos <= s.len(),
            krc_scan(s@, 0) == words_view(words@) + krc_scan(s@, pos as int),
        decreases s.len() - pos,
    {
        let ghost wv = words_view(words@);
        let end = index_of_char_exec(s, '>', pos);
        if s[pos] == '<' && pos < end && end < s.len() {
            match krc_tag(s, pos + 1, end) {
                Some((st, du)) => {
                    let nxt = index_of_char_exec(s, '<', end + 1);
                    let w = copy_range(s, end + 1, nxt);
                    if w.len() > 0 {
                        let lw = LyricWord { text: string_of(&w), start_ms: st, end_ms: st.wrapping_add(du) };
                        words.push(lw);
                        assert(words_view(words@) =~= wv.push(lw@));
                        assert(wv + (seq![lw@] + krc_scan(s@, nxt as int)) =~= words_view(words@) + krc_scan(s@, nxt as int));
                    } else {
                        assert(wv + (Seq::<WordV>::empty() + krc_scan(s@, nxt as int)) =~= wv + krc_scan(s@, nxt as int));
                    }
                    pos = nxt;
                },
                None => {
                    pos = end + 1;
                },
            }
        } else {
            pos += 1;
        }
    }
    assert(krc_scan(s@, pos as int) =~= Seq::<WordV>::empty());
    assert(words_view(words@) + Seq::<WordV>::empty() =~= words_view(words@));
    words
}

fn concat_words(ws: &Vec<LyricWord>) -> (r: Vec<char>)
    ensures
        r@ == concat_texts(words_view(ws@)),
{
    let mut out: Vec<char> = Vec::new();
    let mut i: usize = 0;
    while i < ws.len()
        invariant
            i <= ws.len(),
            out@ == concat_texts(words_view(ws@).take(i as int)),
        decreases ws.len() - i,
    {
        crate::text::append_chars(&mut out, &chars_of(ws[i].text.as_str()));
        proof {
            let t = words_view(ws@).take(i + 1);
            assert(t.drop_last() =~= words_view(ws@).take(i as int));
            assert(t.last() == ws@[i as int]@);
        }
        i += 1;
    }
    assert(words_view(ws@).take(ws.len() as int) =~= words_view(ws@));
    out
}

/// Parses KRC/YRC word-level lyrics (see `parse_krc_words_spec`).
pub fn parse_krc_words(text: &str) -> (r: Vec<LyricLine>)
    ensures
        lines_view(r@) == parse_krc_words_spec(text@),
{
    let v = chars_of(text);
    let ls = lines_exec(&v);
    let mut out: Vec<LyricLine> = Vec::new();
    let mut i: usize = 0;
    let ghost all = lines(text@);
    while i < ls.len()
        invariant
            i <= ls.len(),
            ls@.len() == all.len(),
            all == lines(text@),
            forall|k: int| 0 <= k < ls@.len() ==> #[trigger] ls@[k]@ == all[k],
            lines_view(out@) == krc_unsorted(all.take(i as int)),
        decreases ls.len() - i,
    {
        let line = &ls[i];
        let (a, b) = trim_bounds(line, 0, line.len());
        let t = copy_range(line, a, b);
        proof {
            assert(line@.subrange(0, line@.len() as int) =~= line@);
            assert(t@ == trim(all[i as int]));
            assert(all.take(i + 1).drop_last() =~= all.take(i as int));
            assert(all.take(i + 1).last() == all[i as int]);
        }
        let ghost base = lines_view(out@);
        if t.len() > 0 {
            let (cues, p) = lrc_tags_exec(&t);
            let rest = copy_range(&t, p, t.len());
            assert(t@.subrange(p as int, t@.len() as int) =~= t@.skip(p as int));
            let ws = krc_scan_exec(&rest);
            let ghost wsv = words_view(ws@);
            if ws.len() == 0 {
                let tr = crate::text::trim_vec(&rest);
                let mut k: usize = 0;
                while k < cues.len()
                    invariant
                        k <= cues.len(),
                        lines_view(out@) == base + cues@.take(k as int).map_values(
                            |ms: u64| simple_line(Some(ms), tr@),
                        ),
                    decreases cues.len() - k,
                {
                    let l = LyricLine::simple(Some(cues[k]), string_of(&tr));
                    let ghost prev = out@;
                    out.push(l);
                    proof {
                        assert(lines_view(out@) =~= lines_view(prev).push(l@));
                        assert(cues@.take(k + 1).map_values(|ms: u64| simple_line(Some(ms), tr@))
                            =~= cues@.take(k as int).map_values(|ms: u64| simple_line(Some(ms), tr@)).push(
                            simple_line(Some(cues@[k as int]), tr@),
                        ));
                    }
                    k += 1;
                }
                assert(cues@.take(cues@.len() as int) =~= cues@);
            } else {
                let full = concat_words(&ws);
                let last_end = ws[ws.len() - 1].end_ms;
                let ghost f = |ms: u64|
                    LineV {
                        time_ms: Some(ms),
                        end_time_ms: Some(wsv.last().end_ms),
                        text: concat_texts(wsv),
                        words: Some(wsv),
                        translation: None,
                    };
                let mut k: usize = 0;
                while k < cues.len()
                    invariant
                        k <= cues.len(),
                        wsv == words_view(ws@),
                        wsv.len() > 0,
                        last_end == wsv.last().end_ms,
                        full@ == concat_texts(wsv),
                        f == (|ms: u64|
                            LineV {
                                time_ms: Some(ms),
                                end_time_ms: Some(wsv.last().end_ms),
                                text: concat_texts(wsv),
                                words: Some(wsv),
                                translation: None,
                            }),
                        lines_view(out@) == base + cues@.take(k as int).map_values(f),
                    decreases cues.len() - k,
                {
                    let l = LyricLine {
                        time_ms: Some(cues[k]),
                        end_time_ms: Some(last_end),
                        text: string_of(&full),
                        words: Some(crate::lyrics::clone_words(&ws)),
                        translation: None,
                    };
                    let ghost prev = out@;
                    out.push(l);
                    proof {
                        assert(lines_view(out@) =~= lines_view(prev).push(l@));
                        assert(l@ == f(cues@[k as int]));
                        assert(cues@.take(k + 1).map_values(f) =~= cues@.take(k as int).map_values(f).push(
                            f(cues@[k as int]),
                        ));
                    }
                    k += 1;
                }
                assert(cues@.take(cues@.len() as int) =~= cues@);
            }
        }
        i += 1;
    }
    assert(all.take(ls.len() as int) =~= all);
    sort_lines_by_cue(out)
}


/// Word cues chain: the first word starts at `last`, and each word ends where the next starts.
pub open spec fn words_chained(ws: Seq<WordV>, first: u64) -> bool {
    &&& ws.len() > 0 ==> ws[0].start_ms == first
    &&& forall|j: int| 0 <= j < ws.len() - 1 ==> (#[trigger] ws[j]).end_ms == ws[j + 1].start_ms
}

proof fn lemma_elrc_scan_chained(t: Seq<char>, pos: int, last: u64)
    ensures
        words_chained(elrc_scan(t, pos, last).0, last),
    decreases t.len() - pos,
{
    if 0 <= pos < t.len() {
        let e = index_of_char(t, '>', pos);
        let timed = if t[pos] == '<' && pos < e < t.len() {
            lrc_time(t.subrange(pos + 1, e))
        } else {
            None
        };
        match timed {
            Some(w) => {
                let start = e + 1;
                lemma_index_of_char(t, '<', start);
                let next = index_of_char(t, '<', start);
                lemma_elrc_scan_chained(t, next, w);
                let rest = elrc_scan(t, next, w).0;
                let ws = elrc_scan(t, pos, last).0;
                assert(ws == seq![WordV { text: t.subrange(start, next), start_ms: last, end_ms: w }] + rest);
                assert forall|j: int| 0 <= j < ws.len() - 1 implies (#[trigger] ws[j]).end_ms == ws[j + 1].start_ms by {
                    if j > 0 {
                        assert(ws[j] == rest[j - 1]);
                        assert(ws[j + 1] == rest[j]);
                    }
                }
            },
            None => {
                lemma_elrc_scan_chained(t, pos + 1, last);
            },
        }
    }
}

/// The time of an inline word tag at `p`: a `<`, the first `>` after it, and between them a
/// time that `lrc_time` reads.
pub open spec fn tag_time_at(t: Seq<char>, p: int) -> Option<u64> {
    let e = index_of_char(t, '>', p);
    if 0 <= p < t.len() && t[p] == '<' && p < e < t.len() {
        lrc_time(t.subrange(p + 1, e))
    } else {
        None
    }
}

/// The inline word tags of a text from `pos`, read left to right: each tag's time, the scan
/// going on after the tag's `>`.
pub open spec fn inline_tag_times(t: Seq<char>, pos: int) -> Seq<u64>
    decreases t.len() - pos,
{
    if pos < 0 || pos >= t.len() {
        seq![]
    } else {
        match tag_time_at(t, pos) {
            Some(w) => {
                proof {
                    lemma_index_of_char(t, '>', pos);
                }
                seq![w] + inline_tag_times(t, index_of_char(t, '>', pos) + 1)
            },
            None => inline_tag_times(t, pos + 1),
        }
    }
}

/// A text from `pos` with its inline word tags (as `inline_tag_times` reads them) removed.
pub open spec fn without_inline_tags(t: Seq<char>, pos: int) -> Seq<char>
    decreases t.len() - pos,
{
    if pos < 0 || pos >= t.len() {
        seq![]
    } else {
        match tag_time_at(t, pos) {
            Some(w) => {
                proof {
                    lemma_index_of_char(t, '>', pos);
                }
                without_inline_tags(t, index_of_char(t, '>', pos) + 1)
            },
            None => seq![t[pos]] + without_inline_tags(t, pos + 1),
        }
    }
}

proof fn lemma_no_tags_between(t: Seq<char>, a: int, b: int)
    requires
        0 <= a <= b <= t.len(),
        forall|j: int| a <= j < b ==> t[j] != '<',
    ensures
        inline_tag_times(t, a) == inline_tag_times(t, b),
        without_inline_tags(t, a) == t.subrange(a, b) + without_inline_tags(t, b),
    decreases b - a,
{
    if a < b {
        lemma_no_tags_between(t, a + 1, b);
        assert(tag_time_at(t, a) is None);
        assert(t.subrange(a, b) =~= seq![t[a]] + t.subrange(a + 1, b));
    } else {
        assert(t.subrange(a, b) =~= Seq::<char>::empty());
    }
}

proof fn lemma_elrc_scan_tags(t: Seq<char>, pos: int, last: u64)
    requires
        0 <= pos <= t.len(),
    ensures
        elrc_scan(t, pos, last).0.map_values(|w: WordV| w.end_ms) == inline_tag_times(t, pos),
        elrc_scan(t, pos, last).1 == without_inline_tags(t, pos),
        inline_tag_times(t, pos).len() > 0 ==> t.contains('<'),
    decreases t.len() - pos,
{
    if pos < t.len() {
        let e = index_of_char(t, '>', pos);
        lemma_index_of_char(t, '>', pos);
        match tag_time_at(t, pos) {
            Some(w) => {
                let start = e + 1;
                lemma_index_of_char(t, '<', start);
                let next = index_of_char(t, '<', start);
                lemma_elrc_scan_tags(t, next, w);
                lemma_no_tags_between(t, start, next);
                let rest = elrc_scan(t, next, w);
                let scan = elrc_scan(t, pos, last);
                assert(scan.0 == seq![WordV { text: t.subrange(start, next), start_ms: last, end_ms: w }] + rest.0);
                assert(scan.0.map_values(|x: WordV| x.end_ms) =~= seq![w] + rest.0.map_values(|x: WordV| x.end_ms));
                assert(t[pos] == '<');
            },
            None => {
                lemma_elrc_scan_tags(t, pos + 1, last);
                let scan = elrc_scan(t, pos, last);
                assert(scan.0 == elrc_scan(t, pos + 1, last).0);
            },
        }
    } else {
        assert(elrc_scan(t, pos, last).0.map_values(|w: WordV| w.end_ms) =~= Seq::<u64>::empty());
    }
}

/// Enhanced LRC refines plain LRC line by line: the same lines with the same cues. A line whose
/// text holds no inline word tag (`<mm:ss.xx>` that `lrc_time` reads) is kept exactly as the
/// plain line. A line that holds some gets one word per tag, in order, each ending at its tag's
/// time, chained from the line's cue (each word ends where the next starts); its text becomes
/// the text without those tags, trimmed; everything else about the line is kept.
pub proof fn lemma_elrc_refines_lrc(lrc: Seq<char>)
    ensures
        ({
            let b = parse_lrc_spec(lrc);
            let v = parse_elrc_spec(lrc);
            &&& v.len() == b.len()
            &&& forall|i: int| 0 <= i < v.len() ==> (#[trigger] v[i]).time_ms == b[i].time_ms
            &&& forall|i: int|
                0 <= i < v.len() && inline_tag_times(b[i].text, 0).len() == 0 ==> #[trigger] v[i] == b[i]
            &&& forall|i: int|
                0 <= i < v.len() && inline_tag_times(b[i].text, 0).len() > 0 ==> ({
                    let start = match b[i].time_ms {
                        Some(t) => t,
                        None => 0,
                    };
                    let ws = elrc_scan(b[i].text, 0, start).0;
                    &&& (#[trigger] v[i]) == LineV {
                        text: trim(without_inline_tags(b[i].text, 0)),
                        words: Some(ws),
                        ..b[i]
                    }
                    &&& ws.map_values(|w: WordV| w.end_ms) == inline_tag_times(b[i].text, 0)
                    &&& words_chained(ws, start)
                })
        }),
{
    let b = parse_lrc_spec(lrc);
    let v = parse_elrc_spec(lrc);
    assert forall|i: int| 0 <= i < v.len() implies (inline_tag_times(b[i].text, 0).len() == 0 ==> #[trigger] v[i]
        == b[i]) && (inline_tag_times(b[i].text, 0).len() > 0 ==> ({
        let start = match b[i].time_ms {
            Some(t) => t,
            None => 0,
        };
        let ws = elrc_scan(b[i].text, 0, start).0;
        &&& v[i] == LineV { text: trim(without_inline_tags(b[i].text, 0)), words: Some(ws), ..b[i] }
        &&& ws.map_values(|w: WordV| w.end_ms) == inline_tag_times(b[i].text, 0)
        &&& words_chained(ws, start)
    })) by {
        let start = match b[i].time_ms {
            Some(t) => t,
            None => 0,
        };
        lemma_elrc_scan_chained(b[i].text, 0, start);
        lemma_elrc_scan_tags(b[i].text, 0, start);
        let ws = elrc_scan(b[i].text, 0, start).0;
        assert(ws.len() == ws.map_values(|w: WordV| w.end_ms).len());
    }
}

/// Every parser of the LRC family hands back its lines in cue order.
pub proof fn lemma_parsers_keep_cue_order(text: Seq<char>)
    ensures
        cue_sorted(parse_lrc_spec(text)),
        cue_sorted(parse_elrc_spec(text)),
        cue_sorted(parse_krc_words_spec(text)),
{
    lemma_sort_by_cue(lrc_unsorted(lines(text)));
    lemma_sort_by_cue(krc_unsorted(lines(text)));
    let a = parse_lrc_spec(text);
    let b = parse_elrc_spec(text);
    assert forall|i: int, j: int| 0 <= i < j < b.len() implies !cue_lt(#[trigger] b[j].time_ms, #[trigger] b[i].time_ms) by {
        assert(b[i].time_ms == a[i].time_ms);
        assert(b[j].time_ms == a[j].time_ms);
    }
}

} // verus!
