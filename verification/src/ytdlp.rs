//! yt-dlp, the playback and download fallback: when the binary is due for a self-update, the
//! minimum size of a downloaded binary, and the flag that keeps installs and updates from
//! running twice at once.
use vstd::prelude::*;

use crate::text::{append_chars, chars_of, dec_digits, dec_digits_exec, parse_u64, parse_u64_exec, string_of, trim, trim_bounds};

verus! {

/// One resolved stream, ready to hand to mpv.
pub struct YtDlpStream {
    pub url: String,
}

/// How long a binary goes between self-updates (three days).
pub const UPDATE_INTERVAL_SECS: u64 = 259200;

/// A real yt-dlp binary is well over this; anything smaller is an error page.
pub const MIN_BIN_SIZE: u64 = 1000000;

/// Whether the installed binary should run its self-update: when the stamp file is missing or
/// does not hold a number (after trimming), when the clock cannot be read, or when at least
/// the update interval has passed since the stamp (a stamp in the future counts as no time).
pub open spec fn update_due_spec(stamp: Option<Seq<char>>, now: Option<u64>) -> bool {
    match stamp {
        None => true,
        Some(s) => match parse_u64(trim(s)) {
            None => true,
            Some(t) => match now {
                None => true,
                Some(n) => (if n >= t { n - t } else { 0 }) >= UPDATE_INTERVAL_SECS,
            },
        },
    }
}

/// Whether the binary is due for a self-update (see `update_due_spec`).
pub fn update_due(stamp: Option<&str>, now: Option<u64>) -> (b: bool)
    ensures
        b == update_due_spec(crate::lyrics::opt_str_view(stamp), now),
{
    match stamp {
        None => true,
        Some(s) => {
            let v = chars_of(s);
            let (a, b) = trim_bounds(&v, 0, v.len());
            assert(v@.subrange(0, v@.len() as int) =~= v@);
            match parse_u64_exec(&v, a, b) {
                None => true,
                Some(t) => match now {
                    None => true,
                    Some(n) => n.saturating_sub(t) >= UPDATE_INTERVAL_SECS,
                },
            }
        },
    }
}

pub open spec fn too_small_msg(len: nat) -> Seq<char> {
    seq!['y', 't', '-', 'd', 'l', 'p', ' ', 'd', 'o', 'w', 'n', 'l', 'o', 'a', 'd', ' ', 's', 'u', 's', 'p', 'i', 'c', 'i', 'o', 'u', 's', 'l', 'y', ' ', 's', 'm', 'a', 'l', 'l', ' ', '(']
        + dec_digits(len) + seq![' ', 'b', 'y', 't', 'e', 's', ')', ' ', '\u{2014}', ' ', 'a', 'b', 'o', 'r', 't', 'i', 'n', 'g']
}

/// A downloaded binary must be at least `MIN_BIN_SIZE` bytes; a smaller one is refused with the
/// reason.
pub fn check_download_size(len: usize) -> (r: Result<(), String>)
    ensures
        len >= MIN_BIN_SIZE ==> r is Ok,
        len < MIN_BIN_SIZE ==> (r matches Err(m) && m@ == too_small_msg(len as nat)),
{
    if len as u64 >= MIN_BIN_SIZE {
        return Ok(());
    }
    let mut m = vec![
        'y', 't', '-', 'd', 'l', 'p', ' ', 'd', 'o', 'w', 'n', 'l', 'o', 'a', 'd', ' ', 's', 'u',
        's', 'p', 'i', 'c', 'i', 'o', 'u', 's', 'l', 'y', ' ', 's', 'm', 'a', 'l', 'l', ' ', '(',
    ];
    let ghost head = m@;
    let d = dec_digits_exec(len as u64);
    append_chars(&mut m, &d);
    let tail = vec![' ', 'b', 'y', 't', 'e', 's', ')', ' ', '\u{2014}', ' ', 'a', 'b', 'o', 'r', 't', 'i', 'n', 'g'];
    append_chars(&mut m, &tail);
    assert(m@ =~= too_small_msg(len as nat));
    Err(string_of(&m))
}

/// What `ensure_ready` does when asked.
#[derive(PartialEq, Eq, Structural, Clone, Copy, Debug)]
pub enum ReadyStep {
    /// The fallback is switched off: refuse.
    Disabled,
    /// An install or update is already running: report success without starting another.
    AlreadyBusy,
    /// Start the install or update now.
    Run,
}

/// The decision: refused while disabled, skipped while a run is going, otherwise start.
pub open spec fn ready_step_spec(busy: bool, enabled: bool) -> ReadyStep {
    if !enabled {
        ReadyStep::Disabled
    } else if busy {
        ReadyStep::AlreadyBusy
    } else {
        ReadyStep::Run
    }
}

/// Whether an install or update is running, and how the last one ended.
pub struct YtDlpRunFlag {
    busy: bool,
    last_error: Option<String>,
}

impl YtDlpRunFlag {
    pub closed spec fn spec_busy(&self) -> bool {
        self.busy
    }

    pub closed spec fn spec_last_error(&self) -> Option<Seq<char>> {
        crate::lyrics::opt_string_view(self.last_error)
    }

    pub fn new() -> (g: Self)
        ensures
            !g.spec_busy(),
            g.spec_last_error() is None,
    {
        YtDlpRunFlag { busy: false, last_error: None }
    }

    /// Decides whether to start: refused while disabled, skipped while one runs, otherwise the
    /// flag goes up.
    pub fn try_begin(&mut self, enabled: bool) -> (step: ReadyStep)
        ensures
            step == ready_step_spec(old(self).spec_busy(), enabled),
            final(self).spec_busy() == (old(self).spec_busy() || step == ReadyStep::Run),
            final(self).spec_last_error() == old(self).spec_last_error(),
    {
        if !enabled {
            return ReadyStep::Disabled;
        }
        if self.busy {
            return ReadyStep::AlreadyBusy;
        }
        self.busy = true;
        ReadyStep::Run
    }

    /// When a run is over the flag comes down, and its outcome is kept (an error's text, or none).
    pub fn finish(&mut self, result: &Result<(), String>)
        ensures
            !final(self).spec_busy(),
            final(self).spec_last_error() == (match result {
                Ok(()) => None,
                Err(e) => Some(e@),
            }),
    {
        self.busy = false;
        self.last_error = match result {
            Ok(()) => None,
            Err(e) => Some(crate::lyrics::clone_string(e)),
        };
    }

    /// How the last run ended.
    pub fn last_error(&self) -> (r: Option<String>)
        ensures
            crate::lyrics::opt_string_view(r) == self.spec_last_error(),
    {
        crate::lyrics::clone_opt_string(&self.last_error)
    }
}

/// At most one install or update runs at a time: while one runs, asking again never starts
/// another; once the flag is down, an enabled request starts one.
pub proof fn lemma_one_run_at_a_time(enabled: bool)
    ensures
        ready_step_spec(true, enabled) != ReadyStep::Run,
        enabled ==> ready_step_spec(false, enabled) == ReadyStep::Run,
{
}

} // verus!
