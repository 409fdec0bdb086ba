//! Player-side decisions that do not need mpv itself: quoting a path for mpv's command parser,
//! volume nudges, and the playing/stopped state derived from mpv's `pause` and `idle-active`.
use vstd::prelude::*;

use crate::lyrics::opt_string_view;
use crate::text::{
    append_chars, chars_eq, chars_of, dec_digits, dec_digits_exec, dec_int, dec_signed_exec, parse_i64, parse_i64_exec,
    string_of,
};

verus! {

/// Precise step (1%) for keyboard / wheel volume nudges.
pub const VOLUME_STEP_PRECISE: i64 = 1;

/// Coarse step (5%) for keyboard / wheel volume nudges.
pub const VOLUME_STEP_COARSE: i64 = 5;

/// Precise step (1%) vs coarse step (5%) for keyboard / wheel volume nudges.
pub fn volume_step(precise: bool) -> (step: i64)
    ensures
        step == (if precise { VOLUME_STEP_PRECISE } else { VOLUME_STEP_COARSE }),
{
    if precise {
        VOLUME_STEP_PRECISE
    } else {
        VOLUME_STEP_COARSE
    }
}

/// Inside double quotes mpv only treats `\` and `"` specially; each gets a backslash.
pub open spec fn escape_for_mpv(s: Seq<char>) -> Seq<char>
    decreases s.len(),
{
    if s.len() == 0 {
        seq![]
    } else {
        let c = s.last();
        escape_for_mpv(s.drop_last()) + if c == '\\' {
            seq!['\\', '\\']
        } else if c == '"' {
            seq!['\\', '"']
        } else {
            seq![c]
        }
    }
}

/// Quote a filename/URL for mpv's command parser: wrapped in double quotes, with backslashes
/// and double quotes escaped. Without this a space in a path ends the argument.
pub fn quoted(arg: &str) -> (r: String)
    ensures
        r@ == seq!['"'] + escape_for_mpv(arg@) + seq!['"'],
{
    let v = chars_of(arg);
    let mut out: Vec<char> = Vec::new();
    out.push('"');
    let mut i: usize = 0;
    while i < v.len()
        invariant
            i <= v.len(),
            out@ == seq!['"'] + escape_for_mpv(v@.take(i as int)),
        decreases v.len() - i,
    {
        let c = v[i];
        if c == '\\' {
            out.push('\\');
            out.push('\\');
        } else if c == '"' {
            out.push('\\');
            out.push('"');
        } else {
            out.push(c);
        }
        proof {
            assert(v@.take(i + 1).drop_last() =~= v@.take(i as int));
            assert(v@.take(i + 1).last() == c);
        }
        assert(out@ =~= seq!['"'] + escape_for_mpv(v@.take(i + 1)));
        i += 1;
    }
    out.push('"');
    assert(v@.take(v.len() as int) =~= v@);
    assert(out@ =~= seq!['"'] + escape_for_mpv(arg@) + seq!['"']);
    string_of(&out)
}

/// One property report applied to (paused, idle, playing): `pause` when `is_pause`, else
/// `idle-active`; playing is then neither paused nor idle.
pub open spec fn flag_step(st: (bool, bool, bool), is_pause: bool, value: bool) -> (bool, bool, bool) {
    let paused = if is_pause { value } else { st.0 };
    let idle = if is_pause { st.1 } else { value };
    (paused, idle, !paused && !idle)
}

/// The state after a run of reports from `st`, and the playing flags announced along the way
/// (one whenever the playing flag changed).
pub open spec fn run_flags(st: (bool, bool, bool), reports: Seq<(bool, bool)>) -> ((bool, bool, bool), Seq<bool>)
    decreases reports.len(),
{
    if reports.len() == 0 {
        (st, Seq::<bool>::empty())
    } else {
        let (before, said) = run_flags(st, reports.drop_last());
        let r = reports.last();
        let after = flag_step(before, r.0, r.1);
        (after, if after.2 != before.2 {
            said.push(after.2)
        } else {
            said
        })
    }
}

/// Over any run of reports from the state before anything is loaded, the announced playing
/// flags strictly alternate, the first being `true`; and the current playing flag is the last
/// one announced (not playing before any announcement).
pub proof fn lemma_play_announcements_alternate(reports: Seq<(bool, bool)>)
    ensures
        ({
            let (st, said) = run_flags((false, true, false), reports);
            &&& forall|i: int| 0 <= i < said.len() ==> #[trigger] said[i] == (i % 2 == 0)
            &&& st.2 == (said.len() % 2 == 1)
            &&& st.2 == (!st.0 && !st.1)
        }),
    decreases reports.len(),
{
    if reports.len() > 0 {
        lemma_play_announcements_alternate(reports.drop_last());
    }
}

/// Playback state as mpv's event thread tracks it: `pause` and `idle-active` as last reported,
/// and the playing flag last announced.
pub struct PlayState {
    pub paused: bool,
    pub idle: bool,
    pub playing: bool,
}

impl PlayState {
    /// Before anything is loaded mpv reports `pause: false`, `idle-active: true`: not playing.
    pub fn new() -> (s: Self)
        ensures
            !s.paused,
            s.idle,
            !s.playing,
    {
        PlayState { paused: false, idle: true, playing: false }
    }

    /// Records one property report (`pause` when `is_pause`, else `idle-active`) and returns the
    /// playing flag to announce, if it changed. Playing means neither paused nor idle.
    pub fn on_flag(&mut self, is_pause: bool, value: bool) -> (ev: Option<bool>)
        ensures
            final(self).paused == (if is_pause { value } else { old(self).paused }),
            final(self).idle == (if is_pause { old(self).idle } else { value }),
            final(self).playing == (!final(self).paused && !final(self).idle),
            (final(self).paused, final(self).idle, final(self).playing) == flag_step(
                (old(self).paused, old(self).idle, old(self).playing),
                is_pause,
                value,
            ),
            ev == (if final(self).playing != old(self).playing {
                Some(final(self).playing)
            } else {
                None
            }),
    {
        if is_pause {
            self.paused = value;
        } else {
            self.idle = value;
        }
        let now = !self.paused && !self.idle;
        if now != self.playing {
            self.playing = now;
            Some(now)
        } else {
            self.playing = now;
            None
        }
    }
}


// ---------------------------------------------------------------------------------------------
// Volume
// ---------------------------------------------------------------------------------------------

/// What the mute toggle sets: from silence, the stored level (100 when none is stored or it does
/// not read as a number); from any other level, silence.
pub open spec fn mute_target_spec(current: i64, stored: Option<Seq<char>>) -> i64 {
    if current == 0 {
        match stored {
            Some(s) => match parse_i64(s) {
                Some(v) => v,
                None => 100,
            },
            None => 100,
        }
    } else {
        0
    }
}

/// The level the mute toggle sets (see `mute_target_spec`).
pub fn mute_target(current: i64, stored: Option<&str>) -> (v: i64)
    ensures
        v == mute_target_spec(current, crate::lyrics::opt_str_view(stored)),
{
    if current != 0 {
        return 0;
    }
    match stored {
        Some(s) => {
            let c = chars_of(s);
            assert(c@.subrange(0, c@.len() as int) =~= c@);
            match parse_i64_exec(&c, 0, c.len()) {
                Some(v) => v,
                None => 100,
            }
        },
        None => 100,
    }
}

/// The volume the UI is shown: the stored level when it reads as a number, else the player's.
pub open spec fn shown_volume_spec(stored: Option<Seq<char>>, player: i64) -> i64 {
    match stored {
        Some(s) => match parse_i64(s) {
            Some(v) => v,
            None => player,
        },
        None => player,
    }
}

/// The volume the UI is shown (see `shown_volume_spec`).
pub fn shown_volume(stored: Option<&str>, player: i64) -> (v: i64)
    ensures
        v == shown_volume_spec(crate::lyrics::opt_str_view(stored), player),
{
    match stored {
        Some(s) => {
            let c = chars_of(s);
            assert(c@.subrange(0, c@.len() as int) =~= c@);
            match parse_i64_exec(&c, 0, c.len()) {
                Some(v) => v,
                None => player,
            }
        },
        None => player,
    }
}

/// The global volume shortcuts: a coarse step up (at most 100) or down (at least 0).
pub fn nudge_volume(current: i64, up: bool) -> (v: i64)
    requires
        up ==> current <= i64::MAX - VOLUME_STEP_COARSE,
        !up ==> current >= i64::MIN + VOLUME_STEP_COARSE,
    ensures
        v == (if up {
            if current + VOLUME_STEP_COARSE < 100 { current + VOLUME_STEP_COARSE } else { 100 }
        } else {
            if current - VOLUME_STEP_COARSE > 0 { current - VOLUME_STEP_COARSE } else { 0 }
        }),
{
    if up {
        let n = current + VOLUME_STEP_COARSE;
        if n < 100 { n } else { 100 }
    } else {
        let n = current - VOLUME_STEP_COARSE;
        if n > 0 { n } else { 0 }
    }
}

/// The level restored at startup from the stored setting: its number, clamped to 0..=100.
pub fn startup_volume(stored: Option<&str>) -> (v: Option<i64>)
    ensures
        v == (match crate::lyrics::opt_str_view(stored) {
            Some(s) => match parse_i64(s) {
                Some(n) => Some(if n < 0 { 0 } else if n > 100 { 100 } else { n }),
                None => None,
            },
            None => None,
        }),
{
    match stored {
        Some(s) => {
            let c = chars_of(s);
            assert(c@.subrange(0, c@.len() as int) =~= c@);
            match parse_i64_exec(&c, 0, c.len()) {
                Some(n) => Some(if n < 0 { 0 } else if n > 100 { 100 } else { n }),
                None => None,
            }
        },
        None => None,
    }
}

/// Muting always silences, and toggling from silence sets the stored level (or the default
/// when nothing usable is stored).
pub proof fn lemma_mute_toggle(current: i64, stored: Option<Seq<char>>)
    ensures
        current != 0 ==> mute_target_spec(current, stored) == 0,
        current == 0 && stored is None ==> mute_target_spec(current, stored) == 100,
        current == 0 ==> (stored matches Some(s) ==> (parse_i64(s) matches Some(v) ==> mute_target_spec(current, stored) == v)),
{
}

// ---------------------------------------------------------------------------------------------
// Repeat and the sleep timer
// ---------------------------------------------------------------------------------------------

#[derive(PartialEq, Eq, Structural, Clone, Copy, Debug)]
pub enum RepeatMode {
    Off,
    All,
    One,
}

pub open spec fn unknown_repeat_msg(mode: Seq<char>) -> Seq<char> {
    seq!['u', 'n', 'k', 'n', 'o', 'w', 'n', ' ', 'r', 'e', 'p', 'e', 'a', 't', ' ', 'm', 'o', 'd', 'e', ':', ' '] + mode
}

pub open spec fn repeat_mode_spec(mode: Seq<char>) -> Result<RepeatMode, Seq<char>> {
    if mode == seq!['o', 'f', 'f'] {
        Ok(RepeatMode::Off)
    } else if mode == seq!['a', 'l', 'l'] {
        Ok(RepeatMode::All)
    } else if mode == seq!['o', 'n', 'e'] {
        Ok(RepeatMode::One)
    } else {
        Err(unknown_repeat_msg(mode))
    }
}

/// The UI's repeat mode: `off`, `all` or `one`; anything else is refused with the reason.
pub fn parse_repeat_mode(mode: &str) -> (r: Result<RepeatMode, String>)
    ensures
        match r {
            Ok(m) => repeat_mode_spec(mode@) == Ok::<RepeatMode, Seq<char>>(m),
            Err(e) => repeat_mode_spec(mode@) == Err::<RepeatMode, Seq<char>>(e@),
        },
{
    let v = chars_of(mode);
    let off = vec!['o', 'f', 'f'];
    let all = vec!['a', 'l', 'l'];
    let one = vec!['o', 'n', 'e'];
    assert(off@ =~= seq!['o', 'f', 'f']);
    assert(all@ =~= seq!['a', 'l', 'l']);
    assert(one@ =~= seq!['o', 'n', 'e']);
    if chars_eq(&v, &off) {
        Ok(RepeatMode::Off)
    } else if chars_eq(&v, &all) {
        Ok(RepeatMode::All)
    } else if chars_eq(&v, &one) {
        Ok(RepeatMode::One)
    } else {
        let mut m = vec!['u', 'n', 'k', 'n', 'o', 'w', 'n', ' ', 'r', 'e', 'p', 'e', 'a', 't', ' ', 'm', 'o', 'd', 'e', ':', ' '];
        append_chars(&mut m, &v);
        assert(m@ =~= unknown_repeat_msg(mode@));
        Err(string_of(&m))
    }
}

/// The sleep timer: off, at the end of the current song, or at a deadline (milliseconds on a
/// monotonic clock).
#[derive(PartialEq, Eq, Structural, Clone, Copy, Debug)]
pub enum SleepTimer {
    Off,
    EndOfSong,
    At(u64),
}

/// The once-a-second check: a deadline that has been reached fires (pause playback) and the
/// timer switches off; anything else is left as it is.
pub fn sleep_tick(timer: &mut SleepTimer, now: u64) -> (fire: bool)
    ensures
        fire == (*old(timer) matches SleepTimer::At(end) && now >= end),
        fire ==> *final(timer) == SleepTimer::Off,
        !fire ==> *final(timer) == *old(timer),
{
    match *timer {
        SleepTimer::At(end) => {
            if now >= end {
                *timer = SleepTimer::Off;
                true
            } else {
                false
            }
        },
        _ => false,
    }
}

pub open spec fn sleep_timer_text_spec(t: SleepTimer, now: u64) -> Seq<char> {
    match t {
        SleepTimer::Off => seq!['o', 'f', 'f'],
        SleepTimer::EndOfSong => seq!['e', 'n', 'd', '_', 'o', 'f', '_', 's', 'o', 'n', 'g'],
        SleepTimer::At(end) => dec_digits(((if end >= now { end - now } else { 0 }) / 1000) as nat),
    }
}

/// What the window shows on restore: `off`, `end_of_song`, or the whole seconds left.
pub fn sleep_timer_text(t: SleepTimer, now: u64) -> (r: String)
    ensures
        r@ == sleep_timer_text_spec(t, now),
{
    match t {
        SleepTimer::Off => {
            let v = vec!['o', 'f', 'f'];
            assert(v@ =~= seq!['o', 'f', 'f']);
            string_of(&v)
        },
        SleepTimer::EndOfSong => {
            let v = vec!['e', 'n', 'd', '_', 'o', 'f', '_', 's', 'o', 'n', 'g'];
            assert(v@ =~= seq!['e', 'n', 'd', '_', 'o', 'f', '_', 's', 'o', 'n', 'g']);
            string_of(&v)
        },
        SleepTimer::At(end) => string_of(&dec_digits_exec(end.saturating_sub(now) / 1000)),
    }
}


// ---------------------------------------------------------------------------------------------
// Stream headers
// ---------------------------------------------------------------------------------------------

pub open spec fn pairs_view(hs: Seq<(String, String)>) -> Seq<(Seq<char>, Seq<char>)> {
    hs.map_values(|p: (String, String)| (p.0@, p.1@))
}

/// A header name that is `User-Agent` in any ASCII case.
pub open spec fn is_user_agent(k: Seq<char>) -> bool {
    crate::local::ascii_lowercase(k) == "user-agent"@
}

/// The value of the first header named exactly `name`.
pub open spec fn header_named(hs: Seq<(Seq<char>, Seq<char>)>, name: Seq<char>) -> Option<Seq<char>>
    decreases hs.len(),
{
    if hs.len() == 0 {
        None
    } else if hs[0].0 == name {
        Some(hs[0].1)
    } else {
        header_named(hs.skip(1), name)
    }
}

/// The user agent mpv gets its own property for: `User-Agent`, else `user-agent`.
pub open spec fn user_agent_spec(hs: Seq<(Seq<char>, Seq<char>)>) -> Option<Seq<char>> {
    match header_named(hs, "User-Agent"@) {
        Some(v) => Some(v),
        None => header_named(hs, "user-agent"@),
    }
}

/// Every other header as `name: value`, joined with commas (mpv's `http-header-fields`).
pub open spec fn header_fields_spec(hs: Seq<(Seq<char>, Seq<char>)>) -> Seq<char>
    decreases hs.len(),
{
    if hs.len() == 0 {
        seq![]
    } else {
        let rest = header_fields_spec(hs.drop_last());
        let (k, v) = hs.last();
        if is_user_agent(k) {
            rest
        } else if rest.len() == 0 && no_fields(hs.drop_last()) {
            k + ": "@ + v
        } else {
            rest + seq![','] + k + ": "@ + v
        }
    }
}

/// Whether no header but the user agent is there.
pub open spec fn no_fields(hs: Seq<(Seq<char>, Seq<char>)>) -> bool {
    forall|i: int| 0 <= i < hs.len() ==> is_user_agent(#[trigger] hs[i].0)
}

fn header_named_exec(hs: &Vec<(String, String)>, name: &str) -> (r: Option<String>)
    ensures
        opt_string_view(r) == header_named(pairs_view(hs@), name@),
{
    let n = chars_of(name);
    let mut i: usize = 0;
    assert(pairs_view(hs@).skip(0) =~= pairs_view(hs@));
    while i < hs.len()
        invariant
            i <= hs.len(),
            n@ == name@,
            header_named(pairs_view(hs@), name@) == header_named(pairs_view(hs@).skip(i as int), name@),
        decreases hs.len() - i,
    {
        let ghost rest = pairs_view(hs@).skip(i as int);
        assert(rest[0] == (hs@[i as int].0@, hs@[i as int].1@));
        if chars_eq(&chars_of(hs[i].0.as_str()), &n) {
            return Some(crate::lyrics::clone_string(&hs[i].1));
        }
        assert(rest.skip(1) =~= pairs_view(hs@).skip(i + 1));
        i += 1;
    }
    None
}

/// The user agent of a stream's headers (see `user_agent_spec`).
pub fn stream_user_agent(hs: &Vec<(String, String)>) -> (r: Option<String>)
    ensures
        opt_string_view(r) == user_agent_spec(pairs_view(hs@)),
{
    match header_named_exec(hs, "User-Agent") {
        Some(v) => Some(v),
        None => header_named_exec(hs, "user-agent"),
    }
}

/// The other headers as mpv's `http-header-fields` (see `header_fields_spec`).
pub fn stream_header_fields(hs: &Vec<(String, String)>) -> (r: String)
    ensures
        r@ == header_fields_spec(pairs_view(hs@)),
{
    let ua = chars_of("user-agent");
    let mut out: Vec<char> = Vec::new();
    let mut any = false;
    let mut i: usize = 0;
    while i < hs.len()
        invariant
            i <= hs.len(),
            ua@ == "user-agent"@,
            out@ == header_fields_spec(pairs_view(hs@).take(i as int)),
            any == !no_fields(pairs_view(hs@).take(i as int)),
        decreases hs.len() - i,
    {
        let ghost pv = pairs_view(hs@);
        assert(pv.take(i + 1).drop_last() =~= pv.take(i as int));
        assert(pv.take(i + 1).last() == (hs@[i as int].0@, hs@[i as int].1@));
        let k = chars_of(hs[i].0.as_str());
        let lower = crate::local::ascii_lowercase_exec(&k);
        if !chars_eq(&lower, &ua) {
            if any {
                out.push(',');
            }
            append_chars(&mut out, &k);
            append_chars(&mut out, &chars_of(": "));
            append_chars(&mut out, &chars_of(hs[i].1.as_str()));
            proof {
                if !any {
                    assert(header_fields_spec(pv.take(i as int)).len() == 0) by {
                        lemma_no_fields_empty(pv.take(i as int));
                    }
                }
                assert(!no_fields(pv.take(i + 1))) by {
                    assert(pv.take(i + 1)[i as int] == pv[i as int]);
                }
            }
            any = true;
        } else {
            proof {
                assert(is_user_agent(pv[i as int].0));
                assert(no_fields(pv.take(i as int)) ==> no_fields(pv.take(i + 1))) by {
                    if no_fields(pv.take(i as int)) {
                        assert forall|j: int| 0 <= j < i + 1 implies is_user_agent(#[trigger] pv.take(i + 1)[j].0) by {
                            if j < i {
                                assert(pv.take(i + 1)[j] == pv.take(i as int)[j]);
                            } else {
                                assert(pv.take(i + 1)[j] == pv[i as int]);
                            }
                        }
                    }
                }
                assert(!no_fields(pv.take(i as int)) ==> !no_fields(pv.take(i + 1))) by {
                    if !no_fields(pv.take(i as int)) {
                        let j = choose|j: int| 0 <= j < i && !is_user_agent(#[trigger] pv.take(i as int)[j].0);
                        assert(pv.take(i + 1)[j] == pv.take(i as int)[j]);
                    }
                }
            }
        }
        assert(out@ =~= header_fields_spec(pv.take(i + 1)));
        i += 1;
    }
    assert(pairs_view(hs@).take(hs.len() as int) =~= pairs_view(hs@));
    string_of(&out)
}

proof fn lemma_no_fields_empty(hs: Seq<(Seq<char>, Seq<char>)>)
    requires
        no_fields(hs),
    ensures
        header_fields_spec(hs).len() == 0,
    decreases hs.len(),
{
    if hs.len() > 0 {
        assert(no_fields(hs.drop_last())) by {
            assert forall|j: int| 0 <= j < hs.len() - 1 implies is_user_agent(#[trigger] hs.drop_last()[j].0) by {
                assert(hs.drop_last()[j] == hs[j]);
            }
        }
        lemma_no_fields_empty(hs.drop_last());
        assert(is_user_agent(hs[hs.len() - 1].0));
    }
}

/// mpv's `MPV_ERROR_LOADING_FAILED`.
pub const MPV_LOADING_FAILED: i32 = -13;

/// mpv's `MPV_ERROR_AO_INIT_FAILED`.
pub const MPV_AO_INIT_FAILED: i32 = -14;

/// mpv's `MPV_ERROR_NOTHING_TO_PLAY`.
pub const MPV_NOTHING_TO_PLAY: i32 = -16;

/// mpv's `MPV_ERROR_UNKNOWN_FORMAT`.
pub const MPV_UNKNOWN_FORMAT: i32 = -17;

/// Why mpv failed a track, as values: a `loadfile` failure wrapping its cause, a raw mpv error
/// code, or any other error by its own text.
pub enum MpvFailure {
    Loadfile(Box<MpvFailure>),
    Raw(i32),
    Other(String),
}

/// The message a user sees for a failed track: known mpv codes in words, other codes by
/// number, other errors by their text (raw codes like "Raw(-13)" mean nothing to users).
pub open spec fn friendly_error_spec(e: MpvFailure) -> Seq<char>
    decreases e,
{
    match e {
        MpvFailure::Loadfile(inner) => friendly_error_spec(*inner),
        MpvFailure::Raw(code) => if code == MPV_LOADING_FAILED {
            "Couldn't load this track \u{2014} YouTube rejected the stream link"@
        } else if code == MPV_NOTHING_TO_PLAY {
            "This stream contains no playable audio"@
        } else if code == MPV_UNKNOWN_FORMAT {
            "Unrecognized audio format"@
        } else if code == MPV_AO_INIT_FAILED {
            "Couldn't start audio output"@
        } else {
            "Playback failed (mpv error "@ + dec_int(code as int) + ")"@
        },
        MpvFailure::Other(text) => "Playback failed ("@ + text@ + ")"@,
    }
}

/// The user-facing message for a failed track.
pub fn friendly_error(e: &MpvFailure) -> (r: String)
    ensures
        r@ == friendly_error_spec(*e),
    decreases e,
{
    match e {
        MpvFailure::Loadfile(inner) => friendly_error(inner),
        MpvFailure::Raw(code) => {
            let code = *code;
            if code == MPV_LOADING_FAILED {
                "Couldn't load this track \u{2014} YouTube rejected the stream link".to_string()
            } else if code == MPV_NOTHING_TO_PLAY {
                "This stream contains no playable audio".to_string()
            } else if code == MPV_UNKNOWN_FORMAT {
                "Unrecognized audio format".to_string()
            } else if code == MPV_AO_INIT_FAILED {
                "Couldn't start audio output".to_string()
            } else {
                let neg = code < 0;
                let wide = code as i64;
                let mag: u64 = if neg { (0 - wide) as u64 } else { wide as u64 };
                let mut v = chars_of("Playback failed (mpv error ");
                let d = dec_signed_exec(neg, mag);
                append_chars(&mut v, &d);
                let close = chars_of(")");
                append_chars(&mut v, &close);
                string_of(&v)
            }
        },
        MpvFailure::Other(text) => {
            let mut v = chars_of("Playback failed (");
            let t = chars_of(text.as_str());
            append_chars(&mut v, &t);
            let close = chars_of(")");
            append_chars(&mut v, &close);
            string_of(&v)
        },
    }
}

} // verus!
