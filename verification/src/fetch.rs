//! The lyrics fetch: which providers go out in the wave, how their answers are ranked and one
//! picked, and what follows the wave (YouTube Music's timed and plain lyrics as fallbacks) down
//! to whether the outcome may be cached. The network work itself is the caller's; every
//! decision between the calls is here.
use vstd::prelude::*;

use crate::lrc::{parse_lrc, parse_lrc_spec};
use crate::lyrics::{
    lines_view, opt_lyrics_view, opt_string_view, plain_from_text, plain_spec, LineV, LyricLine,
    Lyrics, LyricsV,
};
use crate::text::{chars_of, string_of, trim, trim_vec};

verus! {

// ---------------------------------------------------------------------------------------------
// LRCLIB
// ---------------------------------------------------------------------------------------------

/// An LRCLIB record, as far as the answer depends on it.
pub struct LrclibTrack {
    pub instrumental: bool,
    pub plain_lyrics: Option<String>,
    pub synced_lyrics: Option<String>,
}

pub open spec fn lrclib_name() -> Seq<char> {
    seq!['L', 'R', 'C', 'L', 'I', 'B']
}

/// The best answer an LRCLIB record gives: instrumental, else its synced lyrics when they hold
/// text and parse to at least one line, else its plain lyrics.
pub open spec fn lrclib_spec(
    instrumental: bool,
    plain: Option<Seq<char>>,
    synced: Option<Seq<char>>,
) -> Option<LyricsV> {
    if instrumental {
        Some(LyricsV { source: lrclib_name(), synced: false, instrumental: true, lines: seq![] })
    } else if synced is Some && trim(synced->0).len() > 0 && parse_lrc_spec(synced->0).len() > 0 {
        Some(
            LyricsV {
                source: lrclib_name(),
                synced: true,
                instrumental: false,
                lines: parse_lrc_spec(synced->0),
            },
        )
    } else {
        plain_spec(plain, lrclib_name())
    }
}

/// The answer an LRCLIB record gives (see `lrclib_spec`).
pub fn lrclib_to_lyrics(t: &LrclibTrack) -> (r: Option<Lyrics>)
    ensures
        opt_lyrics_view(r) == lrclib_spec(
            t.instrumental,
            opt_string_view(t.plain_lyrics),
            opt_string_view(t.synced_lyrics),
        ),
{
    let name = vec!['L', 'R', 'C', 'L', 'I', 'B'];
    assert(name@ =~= lrclib_name());
    if t.instrumental {
        let l = Lyrics {
            source: string_of(&name),
            synced: false,
            instrumental: true,
            lines: Vec::new(),
        };
        assert(lines_view(l.lines@) =~= Seq::<LineV>::empty());
        return Some(l);
    }
    if let Some(s) = &t.synced_lyrics {
        let tv = trim_vec(&chars_of(s.as_str()));
        if tv.len() > 0 {
            let lines = parse_lrc(s.as_str());
            if lines.len() > 0 {
                return Some(
                    Lyrics { source: string_of(&name), synced: true, instrumental: false, lines },
                );
            }
        }
    }
    match &t.plain_lyrics {
        Some(p) => {
            let src = string_of(&name);
            plain_from_text(Some(p.as_str()), src.as_str())
        },
        None => None,
    }
}

// ---------------------------------------------------------------------------------------------
// The wave
// ---------------------------------------------------------------------------------------------

/// The providers' priorities, in the order they are launched: 0 Apple Music, 1 Boidu (only
/// while its setting is on), 2 LRCLIB exact, 3 LRCLIB search, 4 NetEase, 5 Kugou, 6 Unison,
/// 7 QRC, 8 Musixmatch, 9 SimpMusic, 10 Megalobiz, 11 Genius.
pub open spec fn wave_slots_spec(boidu_enabled: bool) -> Seq<u8> {
    if boidu_enabled {
        Seq::new(12, |i: int| i as u8)
    } else {
        seq![0u8] + Seq::new(10, |i: int| (i + 2) as u8)
    }
}

/// The wave's priorities (see `wave_slots_spec`).
pub fn wave_slots(boidu_enabled: bool) -> (r: Vec<u8>)
    ensures
        r@ == wave_slots_spec(boidu_enabled),
{
    let mut r: Vec<u8> = Vec::new();
    r.push(0);
    if boidu_enabled {
        r.push(1);
    }
    let ghost start = r@;
    let mut p: u8 = 2;
    while p < 12
        invariant
            2 <= p <= 12,
            r@ == start + Seq::new((p - 2) as nat, |i: int| (i + 2) as u8),
        decreases 12 - p,
    {
        r.push(p);
        assert(start + Seq::new((p + 1 - 2) as nat, |i: int| (i + 2) as u8) =~= (start + Seq::new(
            (p - 2) as nat,
            |i: int| (i + 2) as u8,
        )).push(p));
        p += 1;
    }
    assert(r@ =~= wave_slots_spec(boidu_enabled));
    r
}

/// How one provider's slot ended: an answer, a clean "nothing here", or out of its deadline
/// (or a transport error, which counts the same).
pub enum ProviderReply {
    Found(Lyrics),
    Nothing,
    Late,
}

pub enum ReplyV {
    Found(LyricsV),
    Nothing,
    Late,
}

impl View for ProviderReply {
    type V = ReplyV;

    open spec fn view(&self) -> ReplyV {
        match self {
            ProviderReply::Found(l) => ReplyV::Found(l@),
            ProviderReply::Nothing => ReplyV::Nothing,
            ProviderReply::Late => ReplyV::Late,
        }
    }
}

/// One settled slot of the wave.
pub struct WaveAnswer {
    pub prio: u8,
    pub reply: ProviderReply,
}

pub open spec fn answers_view(ws: Seq<WaveAnswer>) -> Seq<(u8, ReplyV)> {
    ws.map_values(|w: WaveAnswer| (w.prio, w.reply@))
}

pub open spec fn line_has_words(l: LineV) -> bool {
    match l.words {
        Some(w) => w.len() > 0,
        None => false,
    }
}

pub open spec fn has_words(l: LyricsV) -> bool {
    exists|i: int| 0 <= i < l.lines.len() && line_has_words(#[trigger] l.lines[i])
}

/// How good an answer is: synced with word timings (when words are preferred) 3, synced 2,
/// instrumental 1, plain 0.
pub open spec fn rank_spec(l: LyricsV, prefer_words: bool) -> u8 {
    if l.synced {
        if prefer_words && has_words(l) {
            3
        } else {
            2
        }
    } else if l.instrumental {
        1
    } else {
        0
    }
}

/// An answer's rank (see `rank_spec`).
pub fn rank(l: &Lyrics, prefer_words: bool) -> (r: u8)
    ensures
        r == rank_spec(l@, prefer_words),
{
    if l.synced {
        if prefer_words {
            let mut i: usize = 0;
            while i < l.lines.len()
                invariant
                    i <= l.lines.len(),
                    l.synced,
                    prefer_words,
                    forall|k: int| 0 <= k < i ==> !line_has_words(#[trigger] lines_view(l.lines@)[k]),
                decreases l.lines.len() - i,
            {
                assert(lines_view(l.lines@)[i as int] == l.lines@[i as int]@);
                let w = match &l.lines[i].words {
                    Some(ws) => ws.len() > 0,
                    None => false,
                };
                if w {
                    assert(line_has_words(l@.lines[i as int]));
                    assert(has_words(l@));
                    return 3;
                }
                i += 1;
            }
            2
        } else {
            2
        }
    } else if l.instrumental {
        1
    } else {
        0
    }
}

pub open spec fn reply_rank(r: ReplyV, prefer_words: bool) -> u8 {
    match r {
        ReplyV::Found(l) => rank_spec(l, prefer_words),
        _ => 0,
    }
}

/// Slot `i` is at least as good as slot `j`: a higher rank, or the same rank and a lower
/// priority number, or the same of both and launched no later.
pub open spec fn at_least_as_good(a: Seq<(u8, ReplyV)>, i: int, j: int, prefer_words: bool) -> bool {
    let ri = reply_rank(a[i].1, prefer_words);
    let rj = reply_rank(a[j].1, prefer_words);
    ri > rj || (ri == rj && (a[i].0 < a[j].0 || (a[i].0 == a[j].0 && i <= j)))
}

pub open spec fn found_at(a: Seq<(u8, ReplyV)>, i: int) -> bool {
    0 <= i < a.len() && a[i].1 is Found
}

/// Slot `i` holds the wave's winning answer.
pub open spec fn is_best(a: Seq<(u8, ReplyV)>, i: int, prefer_words: bool) -> bool {
    found_at(a, i) && forall|j: int| #[trigger] found_at(a, j) ==> at_least_as_good(a, i, j, prefer_words)
}

/// Whether some slot ran out of its deadline.
pub open spec fn any_late(a: Seq<(u8, ReplyV)>) -> bool {
    exists|j: int| 0 <= j < a.len() && (#[trigger] a[j]).1 is Late
}

/// How many of LRCLIB's two passes (priorities 2 and 3) answered, with a hit or a clean miss.
pub open spec fn lrclib_spoke(a: Seq<(u8, ReplyV)>) -> nat
    decreases a.len(),
{
    if a.len() == 0 {
        0
    } else {
        let last = a.last();
        lrclib_spoke(a.drop_last()) + (if (last.0 == 2 || last.0 == 3) && !(last.1 is Late) {
            1nat
        } else {
            0nat
        })
    }
}

/// At most one slot wins.
pub proof fn lemma_best_unique(a: Seq<(u8, ReplyV)>, i: int, j: int, prefer_words: bool)
    requires
        is_best(a, i, prefer_words),
        is_best(a, j, prefer_words),
    ensures
        i == j,
{
    assert(found_at(a, j));
    assert(found_at(a, i));
    assert(at_least_as_good(a, i, j, prefer_words));
    assert(at_least_as_good(a, j, i, prefer_words));
}

/// Synced lyrics always beat unsynced ones: when any slot holds a synced answer, so does the
/// winning slot.
pub proof fn lemma_synced_wins(a: Seq<(u8, ReplyV)>, i: int, j: int, prefer_words: bool)
    requires
        is_best(a, i, prefer_words),
        found_at(a, j),
        a[j].1->Found_0.synced,
    ensures
        a[i].1->Found_0.synced,
{
    assert(at_least_as_good(a, i, j, prefer_words));
}

/// What the wave's replies add up to: the winning slot, whether any slot was late, and how
/// many LRCLIB passes answered.
pub struct WaveSummary {
    pub best: Option<usize>,
    pub late: bool,
    pub lrclib_spoke: u64,
}

/// Reads the wave's replies in launch order (see `is_best`, `any_late`, `lrclib_spoke`).
pub fn settle_wave(answers: &Vec<WaveAnswer>, prefer_words: bool) -> (s: WaveSummary)
    ensures
        (s.best is Some) <==> (exists|i: int| found_at(answers_view(answers@), i)),
        s.best matches Some(i) ==> is_best(answers_view(answers@), i as int, prefer_words),
        s.late == any_late(answers_view(answers@)),
        s.lrclib_spoke == lrclib_spoke(answers_view(answers@)),
{
    let ghost a = answers_view(answers@);
    let mut best: Option<usize> = None;
    let mut best_rank: u8 = 0;
    let mut best_prio: u8 = 0;
    let mut late = false;
    let mut spoke: u64 = 0;
    let mut i: usize = 0;
    while i < answers.len()
        invariant
            i <= answers.len(),
            a == answers_view(answers@),
            a.len() == answers.len(),
            spoke <= i,
            spoke == lrclib_spoke(a.take(i as int)),
            late == (exists|j: int| 0 <= j < i && (#[trigger] a[j]).1 is Late),
            (best is None) == (forall|j: int| 0 <= j < i ==> !found_at(a, j)),
            best matches Some(b) ==> {
                &&& b < i
                &&& found_at(a, b as int)
                &&& best_rank == reply_rank(a[b as int].1, prefer_words)
                &&& best_prio == a[b as int].0
                &&& forall|j: int| 0 <= j < i && #[trigger] found_at(a, j) ==> at_least_as_good(a, b as int, j, prefer_words)
            },
        decreases answers.len() - i,
    {
        let w = &answers[i];
        assert(a[i as int] == (w.prio, w.reply@));
        proof {
            assert(a.take(i + 1).drop_last() =~= a.take(i as int));
        }
        match &w.reply {
            ProviderReply::Found(l) => {
                assert(found_at(a, i as int));
                if w.prio == 2 || w.prio == 3 {
                    spoke = spoke + 1;
                }
                let r = rank(l, prefer_words);
                let takes = match best {
                    None => true,
                    Some(_) => r > best_rank || (r == best_rank && w.prio < best_prio),
                };
                if takes {
                    proof {
                        assert forall|j: int| 0 <= j < i + 1 && #[trigger] found_at(a, j) implies at_least_as_good(a, i as int, j, prefer_words) by {
                            if j < i {
                                let b = best->0 as int;
                                assert(at_least_as_good(a, b, j, prefer_words));
                            }
                        }
                    }
                    best = Some(i);
                    best_rank = r;
                    best_prio = w.prio;
                } else {
                    proof {
                        let b = best->0 as int;
                        assert(at_least_as_good(a, b, i as int, prefer_words));
                    }
                }
            },
            ProviderReply::Nothing => {
                assert(!found_at(a, i as int));
                if w.prio == 2 || w.prio == 3 {
                    spoke = spoke + 1;
                }
            },
            ProviderReply::Late => {
                assert(!found_at(a, i as int));
                late = true;
            },
        }
        i += 1;
    }
    assert(a.take(i as int) =~= a);
    WaveSummary { best, late, lrclib_spoke: spoke }
}

// ---------------------------------------------------------------------------------------------
// After the wave
// ---------------------------------------------------------------------------------------------

pub open spec fn ytm_name() -> Seq<char> {
    seq!['Y', 'o', 'u', 'T', 'u', 'b', 'e', ' ', 'M', 'u', 's', 'i', 'c']
}

/// Where a fetch stands after the wave: the answer so far, whether a miss would be definitive
/// (LRCLIB answered both passes, nothing was late, and the YouTube Music steps did not fail),
/// whether the track's duration is known (the only case a hit is cached), and which of the
/// YouTube Music steps are possible (a lyrics browse id, and a client for each step).
pub struct LyricsFetch {
    pub best: Option<Lyrics>,
    pub definitive: bool,
    pub duration_known: bool,
    pub browse_id: bool,
    pub timed_client: bool,
    pub metadata_client: bool,
}

pub struct FetchV {
    pub best: Option<LyricsV>,
    pub definitive: bool,
    pub duration_known: bool,
    pub browse_id: bool,
    pub timed_client: bool,
    pub metadata_client: bool,
}

impl View for LyricsFetch {
    type V = FetchV;

    open spec fn view(&self) -> FetchV {
        FetchV {
            best: opt_lyrics_view(self.best),
            definitive: self.definitive,
            duration_known: self.duration_known,
            browse_id: self.browse_id,
            timed_client: self.timed_client,
            metadata_client: self.metadata_client,
        }
    }
}

/// What the caller does next: ask YouTube Music for timed lyrics, or for plain lyrics (each
/// within the budget left), or stop with `best` as the outcome, cached when the flag says so.
#[derive(PartialEq, Eq, Structural, Clone, Copy, Debug)]
pub enum FetchAction {
    AskTimed,
    AskPlain,
    Finish(bool),
}

/// The plain-lyrics step runs only when the wave found nothing at all.
pub open spec fn plain_gate_spec(f: FetchV, budget_left: bool) -> (FetchV, FetchAction) {
    if f.best is None && f.browse_id && f.metadata_client && budget_left {
        (f, FetchAction::AskPlain)
    } else {
        (f, FetchAction::Finish(f.definitive))
    }
}

/// The timed step runs when there is a browse id and a client; with no budget left it is
/// skipped, and the miss is then no longer definitive.
pub open spec fn timed_gate_spec(f: FetchV, budget_left: bool) -> (FetchV, FetchAction) {
    if f.browse_id && f.timed_client {
        if budget_left {
            (f, FetchAction::AskTimed)
        } else {
            plain_gate_spec(
                FetchV {
                    best: f.best,
                    definitive: false,
                    duration_known: f.duration_known,
                    browse_id: f.browse_id,
                    timed_client: f.timed_client,
                    metadata_client: f.metadata_client,
                },
                budget_left,
            )
        }
    } else {
        plain_gate_spec(f, budget_left)
    }
}

/// The YouTube Music steps never make a miss more definitive than it was: neither gate raises
/// the flag, and a fetch they end without an answer is cached only from a definitive state.
pub proof fn lemma_gates_keep_misses_honest(f: FetchV, budget_left: bool)
    ensures
        timed_gate_spec(f, budget_left).0.definitive ==> f.definitive,
        plain_gate_spec(f, budget_left).0.definitive ==> f.definitive,
        timed_gate_spec(f, budget_left).1 == FetchAction::Finish(true) ==> f.definitive,
        plain_gate_spec(f, budget_left).1 == FetchAction::Finish(true) ==> f.definitive,
{
}

impl LyricsFetch {
    fn plain_gate(self, budget_left: bool) -> (r: (LyricsFetch, FetchAction))
        ensures
            (r.0@, r.1) == plain_gate_spec(self@, budget_left),
    {
        if self.best.is_none() && self.browse_id && self.metadata_client && budget_left {
            (self, FetchAction::AskPlain)
        } else {
            let d = self.definitive;
            (self, FetchAction::Finish(d))
        }
    }

    fn timed_gate(self, budget_left: bool) -> (r: (LyricsFetch, FetchAction))
        ensures
            (r.0@, r.1) == timed_gate_spec(self@, budget_left),
    {
        if self.browse_id && self.timed_client {
            if budget_left {
                (self, FetchAction::AskTimed)
            } else {
                let mut s = self;
                s.definitive = false;
                s.plain_gate(budget_left)
            }
        } else {
            self.plain_gate(budget_left)
        }
    }

    /// Settles the wave. `None` means the wave as a whole ran out of the fetch budget: no
    /// answer, nothing cached. Otherwise the winning answer is kept; a synced one ends the
    /// fetch at once (cached when the duration is known), anything less goes on to the
    /// YouTube Music steps.
    pub fn after_wave(
        wave: Option<Vec<WaveAnswer>>,
        prefer_words: bool,
        duration_known: bool,
        browse_id: bool,
        timed_client: bool,
        metadata_client: bool,
        budget_left: bool,
    ) -> (r: (LyricsFetch, FetchAction))
        ensures
            wave is None ==> r.0@.best is None && r.1 == FetchAction::Finish(false),
            wave matches Some(ws) ==> {
                let a = answers_view(ws@);
                let base = FetchV {
                    best: r.0@.best,
                    definitive: lrclib_spoke(a) == 2 && !any_late(a),
                    duration_known,
                    browse_id,
                    timed_client,
                    metadata_client,
                };
                &&& (r.0@.best is Some <==> exists|i: int| found_at(a, i))
                &&& (r.0@.best matches Some(l) ==> exists|i: int|
                    is_best(a, i, prefer_words) && a[i].1 == ReplyV::Found(l))
                &&& (r.0@.best matches Some(l) && rank_spec(l, prefer_words) >= 2 ==> r.0@ == base
                    && r.1 == FetchAction::Finish(duration_known))
                &&& (!(r.0@.best matches Some(l) && rank_spec(l, prefer_words) >= 2) ==> (
                r.0@, r.1) == timed_gate_spec(base, budget_left))
            },
    {
        let mut answers = match wave {
            Some(a) => a,
            None => {
                let f = LyricsFetch {
                    best: None,
                    definitive: false,
                    duration_known,
                    browse_id,
                    timed_client,
                    metadata_client,
                };
                return (f, FetchAction::Finish(false));
            },
        };
        let ghost a = answers_view(answers@);
        let s = settle_wave(&answers, prefer_words);
        let definitive = s.lrclib_spoke == 2 && !s.late;
        let best = match s.best {
            Some(i) => {
                let ghost before = answers@;
                let w = answers.remove(i);
                assert(w == before[i as int]);
                assert(a[i as int] == (w.prio, w.reply@));
                match w.reply {
                    ProviderReply::Found(l) => Some(l),
                    _ => None,
                }
            },
            None => None,
        };
        let f = LyricsFetch {
            best,
            definitive,
            duration_known,
            browse_id,
            timed_client,
            metadata_client,
        };
        let synced = match &f.best {
            Some(l) => rank(l, prefer_words) >= 2,
            None => false,
        };
        if synced {
            (f, FetchAction::Finish(duration_known))
        } else {
            f.timed_gate(budget_left)
        }
    }

    /// YouTube Music's timed lyrics came back: any lines end the fetch with them (cached when
    /// the duration is known); none go on to the plain step; a failure or a blown budget also
    /// goes on, and the miss is then no longer definitive.
    pub fn on_timed(self, reply: Option<Vec<LyricLine>>, budget_left: bool) -> (r: (
        LyricsFetch,
        FetchAction,
    ))
        ensures
            reply matches Some(ls) ==> ls.len() > 0 ==> {
                &&& r.0@.best == Some(
                    LyricsV {
                        source: ytm_name(),
                        synced: true,
                        instrumental: false,
                        lines: lines_view(ls@),
                    },
                )
                &&& r.0@.definitive == self@.definitive
                &&& r.1 == FetchAction::Finish(self@.duration_known)
            },
            reply matches Some(ls) ==> ls.len() == 0 ==> (r.0@, r.1) == plain_gate_spec(
                self@,
                budget_left,
            ),
            reply is None ==> (r.0@, r.1) == plain_gate_spec(
                FetchV {
                    best: self@.best,
                    definitive: false,
                    duration_known: self@.duration_known,
                    browse_id: self@.browse_id,
                    timed_client: self@.timed_client,
                    metadata_client: self@.metadata_client,
                },
                budget_left,
            ),
            r.0@.duration_known == self@.duration_known,
            r.0@.browse_id == self@.browse_id,
            r.0@.timed_client == self@.timed_client,
            r.0@.metadata_client == self@.metadata_client,
    {
        match reply {
            Some(lines) => {
                if lines.len() > 0 {
                    let name = vec![
                        'Y',
                        'o',
                        'u',
                        'T',
                        'u',
                        'b',
                        'e',
                        ' ',
                        'M',
                        'u',
                        's',
                        'i',
                        'c',
                    ];
                    assert(name@ =~= ytm_name());
                    let l = Lyrics {
                        source: string_of(&name),
                        synced: true,
                        instrumental: false,
                        lines,
                    };
                    let d = self.duration_known;
                    let mut s = self;
                    s.best = Some(l);
                    (s, FetchAction::Finish(d))
                } else {
                    self.plain_gate(budget_left)
                }
            },
            None => {
                let mut s = self;
                s.definitive = false;
                s.plain_gate(budget_left)
            },
        }
    }

    /// YouTube Music's plain lyrics came back (`Ok` with the text and its attribution footer,
    /// or `Ok(None)` for none, or `Err` for a failure or a blown budget). Text that makes an
    /// answer ends the fetch with it (source: the footer, else "YouTube Music"; cached when the
    /// duration is known); otherwise the fetch ends with what the wave had, a failure making
    /// the miss no longer definitive.
    pub fn on_plain(self, reply: Result<Option<(String, Option<String>)>, ()>) -> (r: (
        LyricsFetch,
        FetchAction,
    ))
        ensures
            reply matches Ok(Some(p)) ==> {
                let source = match p.1 {
                    Some(f) => f@,
                    None => ytm_name(),
                };
                let ans = plain_spec(Some(p.0@), source);
                if ans is Some {
                    &&& r.0@.best == ans
                    &&& r.1 == FetchAction::Finish(self@.duration_known)
                } else {
                    &&& r.0@ == self@
                    &&& r.1 == FetchAction::Finish(self@.definitive)
                }
            },
            reply matches Ok(None) ==> r.0@ == self@ && r.1 == FetchAction::Finish(
                self@.definitive,
            ),
            reply is Err ==> r.0@.best == self@.best && r.1 == FetchAction::Finish(false),
    {
        match reply {
            Ok(Some((text, footer))) => {
                let source = match footer {
                    Some(f) => f,
                    None => {
                        let name = vec![
                            'Y',
                            'o',
                            'u',
                            'T',
                            'u',
                            'b',
                            'e',
                            ' ',
                            'M',
                            'u',
                            's',
                            'i',
                            'c',
                        ];
                        assert(name@ =~= ytm_name());
                        string_of(&name)
                    },
                };
                match plain_from_text(Some(text.as_str()), source.as_str()) {
                    Some(l) => {
                        let d = self.duration_known;
                        let mut s = self;
                        s.best = Some(l);
                        (s, FetchAction::Finish(d))
                    },
                    None => {
                        let d = self.definitive;
                        (self, FetchAction::Finish(d))
                    },
                }
            },
            Ok(None) => {
                let d = self.definitive;
                (self, FetchAction::Finish(d))
            },
            Err(()) => {
                let mut s = self;
                s.definitive = false;
                (s, FetchAction::Finish(false))
            },
        }
    }
}

} // verus!
