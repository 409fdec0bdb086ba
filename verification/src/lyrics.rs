//! Lyrics: the display model (lines, words, sources) and the LRC-family parsers that turn a
//! provider's text into it.
use vstd::prelude::*;

use crate::text::{chars_of, copy_range, lines, lines_exec, string_of, trim, trim_bounds, trim_end, trim_vec, skip_ws_back};

verus! {

/// One timed word (karaoke). Times are milliseconds.
#[derive(Debug)]
pub struct LyricWord {
    pub text: String,
    pub start_ms: u64,
    pub end_ms: u64,
}

/// One display line. `time_ms` present means the line is synced (a plain-lyrics response has
/// none). `words` carries per-word timings when a provider returned them; `end_time_ms` is the
/// line's own end cue.
#[derive(Debug)]
pub struct LyricLine {
    pub time_ms: Option<u64>,
    pub end_time_ms: Option<u64>,
    pub text: String,
    pub words: Option<Vec<LyricWord>>,
    pub translation: Option<String>,
}

/// What the UI gets (and what the lyrics cache stores).
#[derive(Debug)]
pub struct Lyrics {
    /// Attribution shown in the panel footer ("LRCLIB", "Musixmatch", ...).
    pub source: String,
    pub synced: bool,
    pub instrumental: bool,
    pub lines: Vec<LyricLine>,
}

/// The model of a word.
pub struct WordV {
    pub text: Seq<char>,
    pub start_ms: u64,
    pub end_ms: u64,
}

/// The model of a line.
pub struct LineV {
    pub time_ms: Option<u64>,
    pub end_time_ms: Option<u64>,
    pub text: Seq<char>,
    pub words: Option<Seq<WordV>>,
    pub translation: Option<Seq<char>>,
}

/// The model of a lyrics answer.
pub struct LyricsV {
    pub source: Seq<char>,
    pub synced: bool,
    pub instrumental: bool,
    pub lines: Seq<LineV>,
}

impl View for LyricWord {
    type V = WordV;

    open spec fn view(&self) -> WordV {
        WordV { text: self.text@, start_ms: self.start_ms, end_ms: self.end_ms }
    }
}

pub open spec fn words_view(ws: Seq<LyricWord>) -> Seq<WordV> {
    ws.map_values(|w: LyricWord| w@)
}

pub open spec fn opt_string_view(s: Option<String>) -> Option<Seq<char>> {
    match s {
        Some(t) => Some(t@),
        None => None,
    }
}

impl View for LyricLine {
    type V = LineV;

    open spec fn view(&self) -> LineV {
        LineV {
            time_ms: self.time_ms,
            end_time_ms: self.end_time_ms,
            text: self.text@,
            words: match self.words {
                Some(ws) => Some(words_view(ws@)),
                None => None,
            },
            translation: opt_string_view(self.translation),
        }
    }
}

pub open spec fn lines_view(ls: Seq<LyricLine>) -> Seq<LineV> {
    ls.map_values(|l: LyricLine| l@)
}

impl View for Lyrics {
    type V = LyricsV;

    open spec fn view(&self) -> LyricsV {
        LyricsV {
            source: self.source@,
            synced: self.synced,
            instrumental: self.instrumental,
            lines: lines_view(self.lines@),
        }
    }
}

/// A line with a cue (or none) and text only.
pub open spec fn simple_line(time_ms: Option<u64>, text: Seq<char>) -> LineV {
    LineV { time_ms, end_time_ms: None, text, words: None, translation: None }
}

impl LyricLine {
    /// Convenience constructor for the common case (plain text or a single cue, no words).
    pub fn simple(time_ms: Option<u64>, text: String) -> (l: Self)
        ensures
            l@ == simple_line(time_ms, text@),
    {
        LyricLine { time_ms, end_time_ms: None, text, words: None, translation: None }
    }
}

pub fn clone_string(s: &String) -> (r: String)
    ensures
        r@ == s@,
{
    s.clone()
}

pub fn clone_opt_string(s: &Option<String>) -> (r: Option<String>)
    ensures
        opt_string_view(r) == opt_string_view(*s),
{
    match s {
        Some(t) => Some(t.clone()),
        None => None,
    }
}

pub fn clone_word(w: &LyricWord) -> (r: LyricWord)
    ensures
        r@ == w@,
{
    LyricWord { text: w.text.clone(), start_ms: w.start_ms, end_ms: w.end_ms }
}

pub fn clone_words(ws: &Vec<LyricWord>) -> (r: Vec<LyricWord>)
    ensures
        words_view(r@) == words_view(ws@),
{
    let mut r: Vec<LyricWord> = Vec::new();
    let mut i: usize = 0;
    while i < ws.len()
        invariant
            i <= ws.len(),
            words_view(r@) == words_view(ws@.take(i as int)),
        decreases ws.len() - i,
    {
        let ghost prev = r@;
        let w = clone_word(&ws[i]);
        r.push(w);
        assert(words_view(r@) =~= words_view(prev).push(w@));
        assert(words_view(ws@.take(i + 1)) =~= words_view(ws@.take(i as int)).push(ws@[i as int]@));
        i += 1;
    }
    assert(ws@.take(ws.len() as int) =~= ws@);
    r
}

// ---------------------------------------------------------------------------------------------
// Ordering by cue
// ---------------------------------------------------------------------------------------------

/// `Option<u64>` order: no cue sorts before every cue.
pub open spec fn cue_lt(a: Option<u64>, b: Option<u64>) -> bool {
    match (a, b) {
        (None, Some(_)) => true,
        (Some(x), Some(y)) => x < y,
        _ => false,
    }
}

/// Where a line with cue `k` goes in an ordered sequence: after every line whose cue is not
/// greater (so equal cues keep their arrival order).
pub open spec fn insert_pos(s: Seq<LineV>, k: Option<u64>) -> int
    decreases s.len(),
{
    if s.len() == 0 {
        0
    } else if cue_lt(k, s.last().time_ms) {
        insert_pos(s.drop_last(), k)
    } else {
        s.len() as int
    }
}

/// Stable sort by cue (`sort_by_key(|l| l.time_ms)`), as insertion sort.
pub open spec fn sort_by_cue(s: Seq<LineV>) -> Seq<LineV>
    decreases s.len(),
{
    if s.len() == 0 {
        s
    } else {
        let sorted = sort_by_cue(s.drop_last());
        let p = insert_pos(sorted, s.last().time_ms);
        sorted.insert(p, s.last())
    }
}

proof fn lemma_insert_pos_bounds(s: Seq<LineV>, k: Option<u64>)
    ensures
        0 <= insert_pos(s, k) <= s.len(),
    decreases s.len(),
{
    if s.len() > 0 && cue_lt(k, s.last().time_ms) {
        lemma_insert_pos_bounds(s.drop_last(), k);
    }
}

proof fn lemma_sort_len(s: Seq<LineV>)
    ensures
        sort_by_cue(s).len() == s.len(),
    decreases s.len(),
{
    if s.len() > 0 {
        lemma_sort_len(s.drop_last());
        lemma_insert_pos_bounds(sort_by_cue(s.drop_last()), s.last().time_ms);
    }
}

/// Ordered by cue: no line's cue is before an earlier line's.
pub open spec fn cue_sorted(s: Seq<LineV>) -> bool {
    forall|i: int, j: int| 0 <= i < j < s.len() ==> !cue_lt(#[trigger] s[j].time_ms, #[trigger] s[i].time_ms)
}

proof fn lemma_cue_order(a: Option<u64>, b: Option<u64>, c: Option<u64>)
    ensures
        !cue_lt(b, a) && !cue_lt(c, b) ==> !cue_lt(c, a),
        !cue_lt(a, b) ==> (cue_lt(b, a) || a == b),
        cue_lt(a, b) && !cue_lt(c, b) ==> cue_lt(a, c),
{
}

proof fn lemma_insert_pos_split(s: Seq<LineV>, k: Option<u64>)
    requires
        cue_sorted(s),
    ensures
        forall|i: int| 0 <= i < insert_pos(s, k) ==> !cue_lt(k, #[trigger] s[i].time_ms),
        forall|i: int| insert_pos(s, k) <= i < s.len() ==> cue_lt(k, #[trigger] s[i].time_ms),
    decreases s.len(),
{
    lemma_insert_pos_bounds(s, k);
    if s.len() > 0 {
        let d = s.drop_last();
        assert(cue_sorted(d)) by {
            assert forall|i: int, j: int| 0 <= i < j < d.len() implies !cue_lt(#[trigger] d[j].time_ms, #[trigger] d[i].time_ms) by {
                assert(d[i] == s[i] && d[j] == s[j]);
            }
        }
        if cue_lt(k, s.last().time_ms) {
            lemma_insert_pos_split(d, k);
            lemma_insert_pos_bounds(d, k);
            assert(insert_pos(s, k) == insert_pos(d, k));
            assert forall|i: int| insert_pos(s, k) <= i < s.len() implies cue_lt(k, #[trigger] s[i].time_ms) by {
                if i < s.len() - 1 {
                    assert(s[i] == d[i]);
                }
            }
            assert forall|i: int| 0 <= i < insert_pos(s, k) implies !cue_lt(k, #[trigger] s[i].time_ms) by {
                assert(s[i] == d[i]);
            }
        } else {
            assert forall|i: int| 0 <= i < insert_pos(s, k) implies !cue_lt(k, #[trigger] s[i].time_ms) by {
                if i < s.len() - 1 {
                    assert(!cue_lt(s[s.len() - 1].time_ms, s[i].time_ms));
                    lemma_cue_order(s[i].time_ms, s.last().time_ms, k);
                }
            }
        }
    }
}

/// Sorting by cue puts the lines in cue order, keeps every line (the same lines, as many
/// times each), and is stable: a sequence already in order comes back unchanged.
pub proof fn lemma_sort_by_cue(s: Seq<LineV>)
    ensures
        cue_sorted(sort_by_cue(s)),
        sort_by_cue(s).to_multiset() == s.to_multiset(),
        cue_sorted(s) ==> sort_by_cue(s) == s,
    decreases s.len(),
{
    broadcast use vstd::seq_lib::to_multiset_insert;

    if s.len() == 0 {
        assert(sort_by_cue(s) == s);
    } else {
        let d = s.drop_last();
        lemma_sort_by_cue(d);
        let sorted = sort_by_cue(d);
        let x = s.last();
        let p = insert_pos(sorted, x.time_ms);
        lemma_insert_pos_bounds(sorted, x.time_ms);
        lemma_insert_pos_split(sorted, x.time_ms);
        let t = sorted.insert(p, x);
        assert(t == sort_by_cue(s));
        assert(cue_sorted(t)) by {
            assert forall|i: int, j: int| 0 <= i < j < t.len() implies !cue_lt(#[trigger] t[j].time_ms, #[trigger] t[i].time_ms) by {
                if j < p {
                    assert(t[i] == sorted[i] && t[j] == sorted[j]);
                } else if j == p {
                    assert(t[i] == sorted[i] && t[j] == x);
                } else if i == p {
                    assert(t[i] == x && t[j] == sorted[j - 1]);
                    assert(cue_lt(x.time_ms, sorted[j - 1].time_ms));
                    lemma_cue_order(x.time_ms, sorted[j - 1].time_ms, x.time_ms);
                } else if i < p {
                    assert(t[i] == sorted[i] && t[j] == sorted[j - 1]);
                } else {
                    assert(t[i] == sorted[i - 1] && t[j] == sorted[j - 1]);
                }
            }
        }
        assert(s =~= d.push(x));
        assert(t.to_multiset() == sorted.to_multiset().insert(x));
        d.to_multiset_ensures();
        assert(d.push(x).to_multiset() =~= d.to_multiset().insert(x));
        assert(t.to_multiset() =~= s.to_multiset());
        if cue_sorted(s) {
            assert(cue_sorted(d)) by {
                assert forall|i: int, j: int| 0 <= i < j < d.len() implies !cue_lt(#[trigger] d[j].time_ms, #[trigger] d[i].time_ms) by {
                    assert(d[i] == s[i] && d[j] == s[j]);
                }
            }
            assert(sorted == d);
            if d.len() > 0 {
                assert(!cue_lt(x.time_ms, d.last().time_ms)) by {
                    assert(s[s.len() - 1] == x && s[s.len() - 2] == d.last());
                }
            }
            assert(p == d.len());
            assert(t =~= s);
        }
    }
}

/// Position at which to insert a line with cue `k` into `v`.
fn insert_pos_exec(v: &Vec<LyricLine>, k: Option<u64>) -> (p: usize)
    ensures
        p == insert_pos(lines_view(v@), k),
{
    let mut j = v.len();
    proof {
        lemma_insert_pos_bounds(lines_view(v@), k);
        assert(v@.take(j as int) =~= v@);
    }
    while j > 0
        invariant
            j <= v.len(),
            insert_pos(lines_view(v@), k) == insert_pos(lines_view(v@.take(j as int)), k),
        decreases j,
    {
        let later = match (k, v[j - 1].time_ms) {
            (None, Some(_)) => true,
            (Some(x), Some(y)) => x < y,
            _ => false,
        };
        assert(lines_view(v@.take(j as int)).last() == v@[j - 1]@);
        if !later {
            return j;
        }
        assert(lines_view(v@.take(j as int)).drop_last() =~= lines_view(v@.take(j - 1)));
        j -= 1;
    }
    j
}

/// Sorts lines by cue, keeping the arrival order of equal cues.
pub fn sort_lines_by_cue(v: Vec<LyricLine>) -> (r: Vec<LyricLine>)
    ensures
        lines_view(r@) == sort_by_cue(lines_view(v@)),
{
    let mut out: Vec<LyricLine> = Vec::new();
    let mut rest = v;
    let ghost orig = lines_view(rest@);
    let ghost n = orig.len();
    assert(orig.take(0) =~= Seq::<LineV>::empty());
    assert(orig.skip(0) =~= orig);
    while rest.len() > 0
        invariant
            n == orig.len(),
            rest.len() <= n,
            lines_view(out@) == sort_by_cue(orig.take(n - rest.len())),
            lines_view(rest@) == orig.skip(n - rest.len()),
        decreases rest.len(),
    {
        let ghost done = n - rest.len();
        let ghost rest_before = rest@;
        let x = rest.remove(0);
        proof {
            assert(lines_view(rest_before)[0] == x@);
            assert(lines_view(rest@) =~= lines_view(rest_before).drop_first());
            assert(orig.skip(done).drop_first() =~= orig.skip(done + 1));
            assert(orig.take(done + 1).drop_last() =~= orig.take(done));
            assert(orig.take(done + 1).last() == orig[done]);
            assert(orig[done] == orig.skip(done)[0]);
            lemma_insert_pos_bounds(lines_view(out@), x.time_ms);
        }
        let p = insert_pos_exec(&out, x.time_ms);
        let ghost before = out@;
        out.insert(p, x);
        proof {
            assert(lines_view(out@) =~= lines_view(before).insert(p as int, x@));
        }
    }
    assert(orig.take(n as int) =~= orig);
    out
}

// ---------------------------------------------------------------------------------------------
// Assembling answers
// ---------------------------------------------------------------------------------------------

/// Plain text as un-timed lines: one per text line, trailing blanks cut, blank lines kept as
/// stanza breaks. Nothing (or only whitespace) is no answer.
pub open spec fn plain_spec(text: Option<Seq<char>>, source: Seq<char>) -> Option<LyricsV> {
    match text {
        None => None,
        Some(t) => {
            let t = trim(t);
            if t.len() == 0 {
                None
            } else {
                Some(
                    LyricsV {
                        source,
                        synced: false,
                        instrumental: false,
                        lines: lines(t).map_values(|l: Seq<char>| simple_line(None, trim_end(l))),
                    },
                )
            }
        },
    }
}

pub open spec fn opt_lyrics_view(l: Option<Lyrics>) -> Option<LyricsV> {
    match l {
        Some(x) => Some(x@),
        None => None,
    }
}

pub open spec fn opt_str_view(t: Option<&str>) -> Option<Seq<char>> {
    match t {
        Some(x) => Some(x@),
        None => None,
    }
}

/// Plain text to un-timed lines (blank lines kept as stanza breaks).
pub fn plain_from_text(text: Option<&str>, source: &str) -> (r: Option<Lyrics>)
    ensures
        opt_lyrics_view(r) == plain_spec(opt_str_view(text), source@),
{
    let text = match text {
        Some(t) => t,
        None => return None,
    };
    let v = chars_of(text);
    let tv = crate::text::trim_vec(&v);
    if tv.len() == 0 {
        return None;
    }
    let ls = lines_exec(&tv);
    let mut out: Vec<LyricLine> = Vec::new();
    let mut i: usize = 0;
    let ghost all = lines(tv@);
    while i < ls.len()
        invariant
            i <= ls.len(),
            ls@.len() == all.len(),
            forall|k: int| 0 <= k < ls@.len() ==> #[trigger] ls@[k]@ == all[k],
            lines_view(out@) == all.take(i as int).map_values(
                |l: Seq<char>| simple_line(None, trim_end(l)),
            ),
        decreases ls.len() - i,
    {
        let line = &ls[i];
        let e = skip_ws_back(line, 0, line.len());
        assert(line@.subrange(0, line@.len() as int) =~= line@);
        let s = string_of(&copy_range(line, 0, e));
        let l = LyricLine::simple(None, s);
        let ghost prev = out@;
        out.push(l);
        proof {
            assert(lines_view(out@) =~= lines_view(prev).push(l@));
            assert(all.take(i + 1).map_values(|l: Seq<char>| simple_line(None, trim_end(l)))
                =~= all.take(i as int).map_values(
                |l: Seq<char>| simple_line(None, trim_end(l)),
            ).push(simple_line(None, trim_end(all[i as int]))));
        }
        i += 1;
    }
    assert(all.take(ls.len() as int) =~= all);
    Some(Lyrics { source: crate::text::string_of(&chars_of(source)), synced: false, instrumental: false, lines: out })
}

/// Whether any line carries a cue.
pub open spec fn any_cued(ls: Seq<LineV>) -> bool {
    exists|i: int| 0 <= i < ls.len() && (#[trigger] ls[i]).time_ms is Some
}

/// A provider's parsed lines as an answer, or none when there was nothing to show. Whether it
/// is synced is read off the lines.
pub open spec fn from_parsed_spec(source: Seq<char>, ls: Seq<LineV>) -> Option<LyricsV> {
    if ls.len() == 0 {
        None
    } else {
        Some(LyricsV { source, synced: any_cued(ls), instrumental: false, lines: ls })
    }
}

/// Whether any of the lines carries a cue.
pub fn any_cued_exec(ls: &Vec<LyricLine>) -> (r: bool)
    ensures
        r == any_cued(lines_view(ls@)),
{
    let mut i: usize = 0;
    while i < ls.len()
        invariant
            i <= ls.len(),
            forall|k: int| 0 <= k < i ==> ls@[k].time_ms is None,
        decreases ls.len() - i,
    {
        if ls[i].time_ms.is_some() {
            assert(lines_view(ls@)[i as int].time_ms is Some);
            return true;
        }
        i += 1;
    }
    assert forall|k: int| 0 <= k < lines_view(ls@).len() implies !((#[trigger] lines_view(ls@)[k]).time_ms is Some) by {
        assert(lines_view(ls@)[k] == ls@[k]@);
    }
    false
}

/// A provider's parsed lines as a result (see `from_parsed_spec`).
pub fn from_parsed(source: &str, lines: Vec<LyricLine>) -> (r: Option<Lyrics>)
    ensures
        opt_lyrics_view(r) == from_parsed_spec(source@, lines_view(lines@)),
{
    if lines.len() == 0 {
        return None;
    }
    let synced = any_cued_exec(&lines);
    Some(Lyrics { source: string_of(&chars_of(source)), synced, instrumental: false, lines })
}

// ---------------------------------------------------------------------------------------------
// Per-song offset
// ---------------------------------------------------------------------------------------------

/// A cue moved by `offset_ms`, never before zero (`(t as i64 + offset).max(0) as u64`, with
/// two's-complement arithmetic).
pub open spec fn shift_cue(t: u64, offset_ms: i64) -> u64 {
    let x = vstd::wrapping::i64_specs::wrapping_add(t as i64, offset_ms);
    if x < 0 {
        0
    } else {
        x as u64
    }
}

pub open spec fn shift_opt(t: Option<u64>, offset_ms: i64) -> Option<u64> {
    match t {
        Some(x) => Some(shift_cue(x, offset_ms)),
        None => None,
    }
}

pub open spec fn shift_word(w: WordV, offset_ms: i64) -> WordV {
    WordV {
        text: w.text,
        start_ms: shift_cue(w.start_ms, offset_ms),
        end_ms: shift_cue(w.end_ms, offset_ms),
    }
}

pub open spec fn shift_line(l: LineV, offset_ms: i64) -> LineV {
    LineV {
        time_ms: shift_opt(l.time_ms, offset_ms),
        end_time_ms: shift_opt(l.end_time_ms, offset_ms),
        text: l.text,
        words: match l.words {
            Some(ws) => Some(ws.map_values(|w: WordV| shift_word(w, offset_ms))),
            None => None,
        },
        translation: l.translation,
    }
}

/// Every cue of the answer moved by the offset (a zero offset changes nothing).
pub open spec fn offset_spec(l: LyricsV, offset_ms: i64) -> LyricsV {
    if offset_ms == 0 {
        l
    } else {
        LyricsV {
            source: l.source,
            synced: l.synced,
            instrumental: l.instrumental,
            lines: l.lines.map_values(|x: LineV| shift_line(x, offset_ms)),
        }
    }
}

/// A zero offset changes nothing, and a forward shift is undone by the same shift backward
/// (for cues that stay within range; a backward shift is not undone, as cues stop at zero).
pub proof fn lemma_offset_undo(l: LyricsV, t: u64, offset_ms: i64)
    ensures
        offset_spec(l, 0) == l,
        0 <= offset_ms && t + offset_ms <= i64::MAX ==> shift_cue(shift_cue(t, offset_ms), (-offset_ms) as i64) == t,
{
}

/// A cue that two shifts, by `a` and then by `b`, move without clamping or overflow.
pub open spec fn cue_stays(t: u64, a: i64, b: i64) -> bool {
    &&& t <= i64::MAX
    &&& 0 <= t + a <= i64::MAX
    &&& 0 <= t + a + b <= i64::MAX
}

pub open spec fn opt_cue_stays(t: Option<u64>, a: i64, b: i64) -> bool {
    t matches Some(x) ==> cue_stays(x, a, b)
}

/// Every cue of a line (its times and its words' times) stays in range under both shifts.
pub open spec fn line_cues_stay(x: LineV, a: i64, b: i64) -> bool {
    &&& opt_cue_stays(x.time_ms, a, b)
    &&& opt_cue_stays(x.end_time_ms, a, b)
    &&& x.words matches Some(ws) ==> forall|j: int|
        0 <= j < ws.len() ==> cue_stays(#[trigger] ws[j].start_ms, a, b) && cue_stays(ws[j].end_ms, a, b)
}

proof fn lemma_cue_compose(t: u64, a: i64, b: i64)
    requires
        cue_stays(t, a, b),
        i64::MIN <= a + b <= i64::MAX,
    ensures
        shift_cue(shift_cue(t, a), b) == shift_cue(t, (a + b) as i64),
{
}

proof fn lemma_line_compose(x: LineV, a: i64, b: i64)
    requires
        line_cues_stay(x, a, b),
        i64::MIN <= a + b <= i64::MAX,
    ensures
        shift_line(shift_line(x, a), b) == shift_line(x, (a + b) as i64),
{
    if let Some(t) = x.time_ms {
        lemma_cue_compose(t, a, b);
    }
    if let Some(t) = x.end_time_ms {
        lemma_cue_compose(t, a, b);
    }
    if let Some(ws) = x.words {
        let once = ws.map_values(|w: WordV| shift_word(w, a)).map_values(|w: WordV| shift_word(w, b));
        let both = ws.map_values(|w: WordV| shift_word(w, (a + b) as i64));
        assert forall|j: int| 0 <= j < ws.len() implies #[trigger] once[j] == both[j] by {
            lemma_cue_compose(ws[j].start_ms, a, b);
            lemma_cue_compose(ws[j].end_ms, a, b);
        }
        assert(once =~= both);
    }
}

proof fn lemma_line_zero(x: LineV, a: i64, b: i64)
    requires
        line_cues_stay(x, a, b),
    ensures
        shift_line(x, 0) == x,
{
    if let Some(ws) = x.words {
        let m = ws.map_values(|w: WordV| shift_word(w, 0));
        assert forall|j: int| 0 <= j < ws.len() implies #[trigger] m[j] == ws[j] by {
            assert(cue_stays(ws[j].start_ms, a, b));
        }
        assert(m =~= ws);
    }
}

/// Two shifts compose into one: shifting by `a` and then by `b` is shifting by `a + b`, for an
/// answer whose cues neither clamp at zero nor overflow on the way. In particular a shift by
/// `a` is undone by a shift by `-a`.
pub proof fn lemma_offsets_compose(l: LyricsV, a: i64, b: i64)
    requires
        i64::MIN <= a + b <= i64::MAX,
        forall|i: int| 0 <= i < l.lines.len() ==> line_cues_stay(#[trigger] l.lines[i], a, b),
    ensures
        offset_spec(offset_spec(l, a), b) == offset_spec(l, (a + b) as i64),
{
    let s1 = offset_spec(l, a);
    let s2 = offset_spec(s1, b);
    let d = offset_spec(l, (a + b) as i64);
    assert forall|i: int| 0 <= i < l.lines.len() implies #[trigger] s2.lines[i] == d.lines[i] by {
        let x = l.lines[i];
        lemma_line_compose(x, a, b);
        lemma_line_zero(x, a, b);
        if b == 0 {
            assert(line_cues_stay(shift_line(x, a), 0, 0)) by {
                if let Some(ws) = x.words {
                    let m = ws.map_values(|w: WordV| shift_word(w, a));
                    assert forall|j: int| 0 <= j < m.len() implies cue_stays(#[trigger] m[j].start_ms, 0, 0)
                        && cue_stays(m[j].end_ms, 0, 0) by {
                        assert(cue_stays(ws[j].start_ms, a, b));
                    }
                }
            }
            lemma_line_zero(shift_line(x, a), 0, 0);
        }
    }
    assert(s2.lines =~= d.lines);
}

fn shift_cue_exec(t: u64, offset_ms: i64) -> (r: u64)
    ensures
        r == shift_cue(t, offset_ms),
{
    let x = (t as i64).wrapping_add(offset_ms);
    if x < 0 {
        0
    } else {
        x as u64
    }
}

fn shift_words(ws: &mut Vec<LyricWord>, offset_ms: i64)
    ensures
        words_view(final(ws)@) == words_view(old(ws)@).map_values(
            |w: WordV| shift_word(w, offset_ms),
        ),
{
    let ghost orig = words_view(ws@);
    let mut i: usize = 0;
    while i < ws.len()
        invariant
            i <= ws.len(),
            ws@.len() == orig.len(),
            forall|k: int| 0 <= k < i ==> #[trigger] ws@[k]@ == shift_word(orig[k], offset_ms),
            forall|k: int| i <= k < ws@.len() ==> #[trigger] ws@[k]@ == orig[k],
        decreases ws.len() - i,
    {
        let w = &ws[i];
        let nw = LyricWord {
            text: w.text.clone(),
            start_ms: shift_cue_exec(w.start_ms, offset_ms),
            end_ms: shift_cue_exec(w.end_ms, offset_ms),
        };
        assert(ws@[i as int]@ == orig[i as int]);
        ws.set(i, nw);
        i += 1;
    }
    assert(words_view(ws@) =~= orig.map_values(|w: WordV| shift_word(w, offset_ms)));
}

/// A song's stored lyric offset in ms (0 when none is stored).
pub fn get_offset(db: &crate::db::Db, video_id: &str) -> (r: i64)
    requires
        db.wf(),
    ensures
        r == crate::db::stored_offset(db@, video_id@),
{
    db.get_lyric_offset(video_id)
}

/// Stores a song's lyric offset in ms; 0 removes it.
pub fn set_offset(db: &mut crate::db::Db, video_id: &str, offset_ms: i64)
    requires
        old(db).wf(),
    ensures
        final(db).wf(),
        final(db)@ == (crate::db::DbV {
            offsets: crate::db::set_offset_spec(old(db)@.offsets, video_id@, offset_ms),
            ..old(db)@
        }),
{
    db.set_lyric_offset(video_id, offset_ms);
}

/// Apply a stored offset to an answer for display (shifts every cue).
pub fn apply_offset(lyrics: &mut Lyrics, offset_ms: i64)
    ensures
        final(lyrics)@ == offset_spec(old(lyrics)@, offset_ms),
{
    if offset_ms == 0 {
        return;
    }
    let ghost orig = lines_view(lyrics.lines@);
    let mut lines_vec: Vec<LyricLine> = Vec::new();
    std::mem::swap(&mut lines_vec, &mut lyrics.lines);
    let mut i: usize = 0;
    while i < lines_vec.len()
        invariant
            i <= lines_vec.len(),
            lines_vec@.len() == orig.len(),
            forall|k: int| 0 <= k < i ==> #[trigger] lines_vec@[k]@ == shift_line(orig[k], offset_ms),
            forall|k: int| i <= k < lines_vec@.len() ==> #[trigger] lines_vec@[k]@ == orig[k],
        decreases lines_vec.len() - i,
    {
        assert(lines_vec@[i as int]@ == orig[i as int]);
        let mut line = lines_vec.remove(i);
        line.time_ms = match line.time_ms {
            Some(t) => Some(shift_cue_exec(t, offset_ms)),
            None => None,
        };
        line.end_time_ms = match line.end_time_ms {
            Some(t) => Some(shift_cue_exec(t, offset_ms)),
            None => None,
        };
        let words = match line.words {
            Some(mut ws) => {
                shift_words(&mut ws, offset_ms);
                Some(ws)
            },
            None => None,
        };
        line.words = words;
        lines_vec.insert(i, line);
        i += 1;
    }
    lyrics.lines = lines_vec;
    assert(lines_view(lyrics.lines@) =~= orig.map_values(|x: LineV| shift_line(x, offset_ms)));
}

// ---------------------------------------------------------------------------------------------
// The lyrics cache in front of the providers
// ---------------------------------------------------------------------------------------------

/// How long a cached "no lyrics" verdict is trusted, in seconds.
pub const MISS_TTL_SECS: i64 = 120;

/// What the cache says about a song before any provider is asked.
pub enum CacheLookup {
    /// Cached lyrics, as stored text (parsed by the caller; if that fails, ask the providers).
    Cached(String),
    /// A fresh cached verdict that the song has no lyrics: answer nothing.
    KnownMissing,
    /// Nothing usable cached: ask the providers.
    Fetch,
}

/// Consults the cache with the miss lifetime of [`MISS_TTL_SECS`].
pub fn lookup_cached_lyrics(db: &crate::db::Db, video_id: &str, now: i64) -> (r: CacheLookup)
    requires
        db.wf(),
    ensures
        match crate::db::cached_lyrics_spec(db@, video_id@, now as int, MISS_TTL_SECS as int) {
            None => r is Fetch,
            Some(None) => r is KnownMissing,
            Some(Some(t)) => r matches CacheLookup::Cached(s) && s@ == t,
        },
{
    match db.get_lyrics(video_id, now, MISS_TTL_SECS) {
        None => CacheLookup::Fetch,
        Some(None) => CacheLookup::KnownMissing,
        Some(Some(t)) => CacheLookup::Cached(t),
    }
}

/// Lyrics as served: shifted by the song's stored offset.
pub fn serve_with_offset(db: &crate::db::Db, video_id: &str, lyrics: Lyrics) -> (r: Lyrics)
    requires
        db.wf(),
    ensures
        r@ == offset_spec(lyrics@, crate::db::stored_offset(db@, video_id@)),
{
    let mut l = lyrics;
    let off = get_offset(db, video_id);
    if off != 0 {
        apply_offset(&mut l, off);
    }
    l
}

/// After the providers answered: the outcome is cached only when `cacheable` (a clean run),
/// as `stored` (the serialized lyrics, or `None` for "no lyrics"), fetched `now`; the lyrics
/// are then served with the song's offset.
pub fn finish_fetched_lyrics(
    db: &mut crate::db::Db,
    video_id: &str,
    lyrics: Option<Lyrics>,
    stored: Option<&str>,
    cacheable: bool,
    now: i64,
) -> (r: Option<Lyrics>)
    requires
        old(db).wf(),
    ensures
        final(db).wf(),
        final(db)@ == (if cacheable {
            crate::db::DbV {
                lyrics: old(db)@.lyrics.insert(video_id@, (opt_str_view(stored), now)),
                ..old(db)@
            }
        } else {
            old(db)@
        }),
        opt_lyrics_view(r) == match lyrics {
            Some(l) => Some(offset_spec(l@, crate::db::stored_offset(old(db)@, video_id@))),
            None => None,
        },
{
    if cacheable {
        db.put_lyrics(video_id, stored, now);
    }
    match lyrics {
        Some(l) => Some(serve_with_offset(db, video_id, l)),
        None => None,
    }
}

/// The offset is applied once: when a fetched answer `l` is cached (as `stored`, its
/// unshifted serialization) and served, the cache then holds `stored` unshifted for any later
/// time, the song's offset is untouched, and so a later cache hit whose text reads back as `l`
/// is served exactly as the first answer was, shifted by the offset once.
pub proof fn lemma_offset_applied_once(
    db: crate::db::DbV,
    video_id: Seq<char>,
    l: LyricsV,
    stored: Seq<char>,
    now: i64,
    later: int,
)
    ensures
        ({
            let after = crate::db::DbV { lyrics: db.lyrics.insert(video_id, (Some(stored), now)), ..db };
            &&& crate::db::cached_lyrics_spec(after, video_id, later, MISS_TTL_SECS as int) == Some(Some(stored))
            &&& crate::db::stored_offset(after, video_id) == crate::db::stored_offset(db, video_id)
            &&& offset_spec(l, crate::db::stored_offset(after, video_id)) == offset_spec(
                l,
                crate::db::stored_offset(db, video_id),
            )
        }),
{
    crate::db::lemma_lyrics_cache_read_after_write(db, video_id, Some(stored), now, later, MISS_TTL_SECS as int, video_id);
}

/// A vote on a song's lyric source: clamped to -1..=1 and stored locally. Returns the stored
/// vote, which the caller also reports to the shared service.
pub fn vote_lyrics(db: &mut crate::db::Db, video_id: &str, source: &str, vote: i32) -> (v: i32)
    requires
        old(db).wf(),
    ensures
        v == (if vote < -1 {
            -1
        } else if vote > 1 {
            1
        } else {
            vote as int
        }),
        final(db).wf(),
        final(db)@ == (crate::db::DbV {
            votes: crate::db::set_vote_spec(old(db)@.votes, video_id@, source@, v),
            ..old(db)@
        }),
{
    let v = if vote < -1 {
        -1
    } else if vote > 1 {
        1
    } else {
        vote
    };
    db.set_lyric_vote(video_id, source, v);
    v
}

/// A report of wrong lyrics counts as a down-vote on that source.
pub fn report_lyrics(db: &mut crate::db::Db, video_id: &str, source: &str)
    requires
        old(db).wf(),
    ensures
        final(db).wf(),
        final(db)@ == (crate::db::DbV {
            votes: crate::db::set_vote_spec(old(db)@.votes, video_id@, source@, -1i32),
            ..old(db)@
        }),
{
    db.set_lyric_vote(video_id, source, -1);
}

// ---------------------------------------------------------------------------------------------
// Translation
// ---------------------------------------------------------------------------------------------

/// A text goes to the translator only when it and the target language are not blank and the
/// target is not `auto`; otherwise it comes back as it is.
pub open spec fn skips_translation(text: Seq<char>, target: Seq<char>) -> bool {
    trim(text).len() == 0 || trim(target).len() == 0 || target == seq!['a', 'u', 't', 'o']
}

pub fn translation_skipped(text: &str, target: &str) -> (b: bool)
    ensures
        b == skips_translation(text@, target@),
{
    let t = chars_of(text);
    let g = chars_of(target);
    proof {
        reveal_strlit("auto");
    }
    let a = chars_of("auto");
    assert(a@ =~= seq!['a', 'u', 't', 'o']);
    let auto = crate::text::chars_eq(&g, &a);
    trim_vec(&t).len() == 0 || trim_vec(&g).len() == 0 || auto
}

/// The translator's segments run together.
pub open spec fn joined_segments(segs: Seq<Option<Seq<char>>>) -> Seq<char>
    decreases segs.len(),
{
    if segs.len() == 0 {
        seq![]
    } else {
        joined_segments(segs.drop_last()) + match segs.last() {
            Some(t) => t,
            None => seq![],
        }
    }
}

pub open spec fn opt_strings_view(v: Seq<Option<String>>) -> Seq<Option<Seq<char>>> {
    v.map_values(|o: Option<String>| opt_string_view(o))
}

/// The translation: the text segments of the reply run together, or the text itself when
/// they are blank.
pub open spec fn translation_spec(text: Seq<char>, segs: Seq<Option<Seq<char>>>) -> Seq<char> {
    if trim(joined_segments(segs)).len() == 0 {
        text
    } else {
        joined_segments(segs)
    }
}

pub fn assemble_translation(text: &str, segments: &Vec<Option<String>>) -> (r: String)
    ensures
        r@ == translation_spec(text@, opt_strings_view(segments@)),
{
    let ghost sv = opt_strings_view(segments@);
    let mut out: Vec<char> = Vec::new();
    let mut i: usize = 0;
    while i < segments.len()
        invariant
            i <= segments.len(),
            sv == opt_strings_view(segments@),
            out@ == joined_segments(sv.take(i as int)),
        decreases segments.len() - i,
    {
        proof {
            assert(sv.take(i + 1).drop_last() =~= sv.take(i as int));
            assert(sv.take(i + 1).last() == opt_string_view(segments@[i as int]));
        }
        match &segments[i] {
            Some(t) => {
                crate::text::append_chars(&mut out, &chars_of(t.as_str()));
            },
            None => {
                assert(out@ =~= out@ + Seq::<char>::empty());
            },
        }
        i += 1;
    }
    assert(sv.take(segments.len() as int) =~= sv);
    if trim_vec(&out).len() == 0 {
        text.to_string()
    } else {
        string_of(&out)
    }
}

/// Whether a line is sent for translation: it has text that is not blank.
pub fn wants_translation(line: &LyricLine) -> (b: bool)
    ensures
        b == (trim(line.text@).len() > 0),
{
    trim_vec(&chars_of(line.text.as_str())).len() > 0
}

/// Keeps a translation on the line when one came back and differs from the line's text.
pub fn keep_translation(line: &mut LyricLine, translated: Option<String>)
    ensures
        final(line)@ == (match translated {
            Some(t) => if t@ != old(line).text@ {
                LineV { translation: Some(t@), ..old(line)@ }
            } else {
                old(line)@
            },
            None => old(line)@,
        }),
{
    if let Some(t) = translated {
        if t != line.text {
            line.translation = Some(t);
        }
    }
}

} // verus!
