//! Gamepad input to player actions. The poller hands every event here with the time it came
//! in (milliseconds on a monotonic clock); this decides which action, if any, the event means.
//!
//! Stability rules: sticks only act past their deadzone; a held stick or trigger repeats at most
//! once per `REPEAT_EVERY_MS`; and a (dis)connect swallows everything for `CONNECT_SETTLE_MS`
//! while the pad replays its stale state, restarting every repeat clock.
use vstd::prelude::*;

verus! {

/// Minimum gap between two actions from the same held stick or trigger.
pub const REPEAT_EVERY_MS: u64 = 100;

/// How long after a (dis)connect every event is dropped.
pub const CONNECT_SETTLE_MS: u64 = 500;

/// The pad's buttons (standard names; Xbox labels in the comments).
#[derive(PartialEq, Eq, Structural, Clone, Copy, Debug)]
pub enum PadButton {
    /// A
    South,
    /// B
    East,
    /// X
    West,
    /// Y
    North,
    Select,
    Start,
    /// LB
    LeftTrigger,
    /// RB
    RightTrigger,
    /// LT (on pads that report it as a button)
    LeftTrigger2,
    /// RT (on pads that report it as a button)
    RightTrigger2,
    DPadUp,
    DPadDown,
    DPadLeft,
    DPadRight,
    Other,
}

/// One input event. For a stick, `past_deadzone` says the reading's magnitude is beyond the
/// deadzone and `positive` that it is above zero; for an analog trigger, `pulled` says the
/// reading is beyond the trigger threshold.
#[derive(PartialEq, Eq, Structural, Clone, Copy, Debug)]
pub enum PadEvent {
    Connected,
    Disconnected,
    Pressed(PadButton),
    LeftStickX { past_deadzone: bool, positive: bool },
    LeftStickY { past_deadzone: bool, positive: bool },
    RightStickX { past_deadzone: bool, positive: bool },
    LeftZ { pulled: bool },
    RightZ { pulled: bool },
    Other,
}

/// What the frontend is asked to do.
#[derive(PartialEq, Eq, Structural, Clone, Copy, Debug)]
pub enum PadAction {
    PlayPause,
    Next,
    Prev,
    Mute,
    ToggleMini,
    VolDown,
    VolUp,
    SeekBack,
    SeekFwd,
    SeekBackFast,
    SeekFwdFast,
}

/// When each held input last acted, and until when events are swallowed.
#[derive(PartialEq, Eq, Structural, Clone, Copy, Debug)]
pub struct PadClock {
    pub last_left_x: u64,
    pub last_left_y: u64,
    pub last_right_x: u64,
    pub last_left_trigger: u64,
    pub last_right_trigger: u64,
    pub settle_until: u64,
}

/// `Instant::duration_since`: zero when `last` is not before `now`.
pub open spec fn elapsed(now: u64, last: u64) -> u64 {
    if now >= last {
        (now - last) as u64
    } else {
        0
    }
}

/// A button's action.
pub open spec fn button_action(b: PadButton) -> Option<PadAction> {
    match b {
        PadButton::South => Some(PadAction::PlayPause),
        PadButton::East => Some(PadAction::Next),
        PadButton::West => Some(PadAction::Prev),
        PadButton::North => Some(PadAction::Mute),
        PadButton::Select => Some(PadAction::Prev),
        PadButton::Start => Some(PadAction::ToggleMini),
        PadButton::LeftTrigger => Some(PadAction::VolDown),
        PadButton::RightTrigger => Some(PadAction::VolUp),
        PadButton::LeftTrigger2 => Some(PadAction::SeekBack),
        PadButton::RightTrigger2 => Some(PadAction::SeekFwd),
        PadButton::DPadUp => Some(PadAction::VolUp),
        PadButton::DPadDown => Some(PadAction::VolDown),
        PadButton::DPadLeft => Some(PadAction::SeekBack),
        PadButton::DPadRight => Some(PadAction::SeekFwd),
        PadButton::Other => None,
    }
}

/// A held input acts when it is engaged and its repeat clock allows it.
pub open spec fn may_repeat(engaged: bool, now: u64, last: u64) -> bool {
    engaged && elapsed(now, last) >= REPEAT_EVERY_MS
}

/// One event: the new clock and the action. A (dis)connect restarts every clock at `now` and
/// swallows events until `CONNECT_SETTLE_MS` later; while settling nothing acts; otherwise a
/// button acts at once, and a stick or trigger acts (and restarts its own clock) when engaged
/// and its clock allows. The left stick's X scrubs (right is forward), its Y sets the volume
/// (up, which reads negative, is louder), the right stick's X scrubs fast, and the analog
/// triggers lower (left) or raise (right) the volume.
pub open spec fn pad_step(c: PadClock, ev: PadEvent, now: u64) -> (PadClock, Option<PadAction>) {
    match ev {
        PadEvent::Connected | PadEvent::Disconnected => (
            PadClock {
                last_left_x: now,
                last_left_y: now,
                last_right_x: now,
                last_left_trigger: now,
                last_right_trigger: now,
                settle_until: (now + CONNECT_SETTLE_MS) as u64,
            },
            None,
        ),
        _ => if now < c.settle_until {
            (c, None)
        } else {
            match ev {
                PadEvent::Pressed(b) => (c, button_action(b)),
                PadEvent::LeftStickX { past_deadzone, positive } => if may_repeat(past_deadzone, now, c.last_left_x) {
                    (
                        PadClock { last_left_x: now, ..c },
                        Some(if positive { PadAction::SeekFwd } else { PadAction::SeekBack }),
                    )
                } else {
                    (c, None)
                },
                PadEvent::LeftStickY { past_deadzone, positive } => if may_repeat(past_deadzone, now, c.last_left_y) {
                    (
                        PadClock { last_left_y: now, ..c },
                        Some(if !positive { PadAction::VolUp } else { PadAction::VolDown }),
                    )
                } else {
                    (c, None)
                },
                PadEvent::RightStickX { past_deadzone, positive } => if may_repeat(past_deadzone, now, c.last_right_x) {
                    (
                        PadClock { last_right_x: now, ..c },
                        Some(if positive { PadAction::SeekFwdFast } else { PadAction::SeekBackFast }),
                    )
                } else {
                    (c, None)
                },
                PadEvent::LeftZ { pulled } => if may_repeat(pulled, now, c.last_left_trigger) {
                    (PadClock { last_left_trigger: now, ..c }, Some(PadAction::VolDown))
                } else {
                    (c, None)
                },
                PadEvent::RightZ { pulled } => if may_repeat(pulled, now, c.last_right_trigger) {
                    (PadClock { last_right_trigger: now, ..c }, Some(PadAction::VolUp))
                } else {
                    (c, None)
                },
                _ => (c, None),
            }
        },
    }
}

fn elapsed_exec(now: u64, last: u64) -> (r: u64)
    ensures
        r == elapsed(now, last),
{
    now.saturating_sub(last)
}

impl PadClock {
    /// Every clock starts at `now` (the poller's start), with nothing to settle.
    pub fn new(now: u64) -> (c: Self)
        ensures
            c == (PadClock {
                last_left_x: now,
                last_left_y: now,
                last_right_x: now,
                last_left_trigger: now,
                last_right_trigger: now,
                settle_until: now,
            }),
    {
        PadClock {
            last_left_x: now,
            last_left_y: now,
            last_right_x: now,
            last_left_trigger: now,
            last_right_trigger: now,
            settle_until: now,
        }
    }

    /// Handles one event (see `pad_step`).
    pub fn on_event(&mut self, ev: PadEvent, now: u64) -> (a: Option<PadAction>)
        requires
            now <= u64::MAX - CONNECT_SETTLE_MS,
        ensures
            (*final(self), a) == pad_step(*old(self), ev, now),
    {
        match ev {
            PadEvent::Connected | PadEvent::Disconnected => {
                *self = PadClock {
                    last_left_x: now,
                    last_left_y: now,
                    last_right_x: now,
                    last_left_trigger: now,
                    last_right_trigger: now,
                    settle_until: now + CONNECT_SETTLE_MS,
                };
                return None;
            },
            _ => {},
        }
        if now < self.settle_until {
            return None;
        }
        match ev {
            PadEvent::Pressed(b) => match b {
                PadButton::South => Some(PadAction::PlayPause),
                PadButton::East => Some(PadAction::Next),
                PadButton::West => Some(PadAction::Prev),
                PadButton::North => Some(PadAction::Mute),
                PadButton::Select => Some(PadAction::Prev),
                PadButton::Start => Some(PadAction::ToggleMini),
                PadButton::LeftTrigger => Some(PadAction::VolDown),
                PadButton::RightTrigger => Some(PadAction::VolUp),
                PadButton::LeftTrigger2 => Some(PadAction::SeekBack),
                PadButton::RightTrigger2 => Some(PadAction::SeekFwd),
                PadButton::DPadUp => Some(PadAction::VolUp),
                PadButton::DPadDown => Some(PadAction::VolDown),
                PadButton::DPadLeft => Some(PadAction::SeekBack),
                PadButton::DPadRight => Some(PadAction::SeekFwd),
                PadButton::Other => None,
            },
            PadEvent::LeftStickX { past_deadzone, positive } => {
                if past_deadzone && elapsed_exec(now, self.last_left_x) >= REPEAT_EVERY_MS {
                    self.last_left_x = now;
                    Some(if positive { PadAction::SeekFwd } else { PadAction::SeekBack })
                } else {
                    None
                }
            },
            PadEvent::LeftStickY { past_deadzone, positive } => {
                if past_deadzone && elapsed_exec(now, self.last_left_y) >= REPEAT_EVERY_MS {
                    self.last_left_y = now;
                    Some(if !positive { PadAction::VolUp } else { PadAction::VolDown })
                } else {
                    None
                }
            },
            PadEvent::RightStickX { past_deadzone, positive } => {
                if past_deadzone && elapsed_exec(now, self.last_right_x) >= REPEAT_EVERY_MS {
                    self.last_right_x = now;
                    Some(if positive { PadAction::SeekFwdFast } else { PadAction::SeekBackFast })
                } else {
                    None
                }
            },
            PadEvent::LeftZ { pulled } => {
                if pulled && elapsed_exec(now, self.last_left_trigger) >= REPEAT_EVERY_MS {
                    self.last_left_trigger = now;
                    Some(PadAction::VolDown)
                } else {
                    None
                }
            },
            PadEvent::RightZ { pulled } => {
                if pulled && elapsed_exec(now, self.last_right_trigger) >= REPEAT_EVERY_MS {
                    self.last_right_trigger = now;
                    Some(PadAction::VolUp)
                } else {
                    None
                }
            },
            _ => None,
        }
    }
}

/// After a (dis)connect at `t`, every event that comes in before `t + CONNECT_SETTLE_MS` is
/// swallowed, whatever it is.
pub proof fn lemma_connect_settles(c: PadClock, t: u64, ev: PadEvent, now: u64)
    requires
        t <= u64::MAX - CONNECT_SETTLE_MS,
        now < t + CONNECT_SETTLE_MS,
        !(ev is Connected || ev is Disconnected),
    ensures
        pad_step(pad_step(c, PadEvent::Connected, t).0, ev, now).1 is None,
        pad_step(pad_step(c, PadEvent::Disconnected, t).0, ev, now).1 is None,
{
}

/// A held stick repeats at most once per `REPEAT_EVERY_MS`: right after the left stick's X
/// acted at `t`, the same stick does not act again before `t + REPEAT_EVERY_MS`.
pub proof fn lemma_stick_repeat_throttled(c: PadClock, e1: PadEvent, t: u64, e2: PadEvent, now: u64)
    requires
        e1 is LeftStickX,
        e2 is LeftStickX,
        pad_step(c, e1, t).1 is Some,
        t <= now < t + REPEAT_EVERY_MS,
    ensures
        pad_step(pad_step(c, e1, t).0, e2, now).1 is None,
{
}

/// The keymap, once any connect has settled (whatever the clocks): A plays or pauses, B skips
/// to the next track, X and Select go back, Y mutes, Start toggles the mini player, the right
/// shoulder (RB) and D-pad up raise the volume while the left shoulder (LB) and D-pad down lower
/// it, the trigger buttons and D-pad left/right seek (right is forward); held, the left stick
/// scrubs (right is forward) and sets the volume (pushed up, which reads negative, is louder),
/// the right stick scrubs fast, and the analog triggers lower (left) or raise (right) the
/// volume. A plain button press changes no clock.
pub proof fn lemma_pad_keymap(c: PadClock, now: u64)
    requires
        now >= c.settle_until,
    ensures
        pad_step(c, PadEvent::Pressed(PadButton::South), now) == (c, Some(PadAction::PlayPause)),
        pad_step(c, PadEvent::Pressed(PadButton::East), now) == (c, Some(PadAction::Next)),
        pad_step(c, PadEvent::Pressed(PadButton::West), now) == (c, Some(PadAction::Prev)),
        pad_step(c, PadEvent::Pressed(PadButton::Select), now) == (c, Some(PadAction::Prev)),
        pad_step(c, PadEvent::Pressed(PadButton::North), now) == (c, Some(PadAction::Mute)),
        pad_step(c, PadEvent::Pressed(PadButton::Start), now) == (c, Some(PadAction::ToggleMini)),
        pad_step(c, PadEvent::Pressed(PadButton::RightTrigger), now) == (c, Some(PadAction::VolUp)),
        pad_step(c, PadEvent::Pressed(PadButton::LeftTrigger), now) == (c, Some(PadAction::VolDown)),
        pad_step(c, PadEvent::Pressed(PadButton::DPadUp), now) == (c, Some(PadAction::VolUp)),
        pad_step(c, PadEvent::Pressed(PadButton::DPadDown), now) == (c, Some(PadAction::VolDown)),
        pad_step(c, PadEvent::Pressed(PadButton::DPadLeft), now) == (c, Some(PadAction::SeekBack)),
        pad_step(c, PadEvent::Pressed(PadButton::DPadRight), now) == (c, Some(PadAction::SeekFwd)),
        pad_step(c, PadEvent::Pressed(PadButton::LeftTrigger2), now) == (c, Some(PadAction::SeekBack)),
        pad_step(c, PadEvent::Pressed(PadButton::RightTrigger2), now) == (c, Some(PadAction::SeekFwd)),
        pad_step(c, PadEvent::Pressed(PadButton::Other), now) == (c, None::<PadAction>),
        elapsed(now, c.last_left_x) >= REPEAT_EVERY_MS ==> pad_step(
            c,
            PadEvent::LeftStickX { past_deadzone: true, positive: true },
            now,
        ).1 == Some(PadAction::SeekFwd) && pad_step(c, PadEvent::LeftStickX { past_deadzone: true, positive: false }, now).1
            == Some(PadAction::SeekBack),
        elapsed(now, c.last_left_y) >= REPEAT_EVERY_MS ==> pad_step(
            c,
            PadEvent::LeftStickY { past_deadzone: true, positive: false },
            now,
        ).1 == Some(PadAction::VolUp) && pad_step(c, PadEvent::LeftStickY { past_deadzone: true, positive: true }, now).1
            == Some(PadAction::VolDown),
        elapsed(now, c.last_right_x) >= REPEAT_EVERY_MS ==> pad_step(
            c,
            PadEvent::RightStickX { past_deadzone: true, positive: true },
            now,
        ).1 == Some(PadAction::SeekFwdFast) && pad_step(
            c,
            PadEvent::RightStickX { past_deadzone: true, positive: false },
            now,
        ).1 == Some(PadAction::SeekBackFast),
        elapsed(now, c.last_left_trigger) >= REPEAT_EVERY_MS ==> pad_step(c, PadEvent::LeftZ { pulled: true }, now).1
            == Some(PadAction::VolDown),
        elapsed(now, c.last_right_trigger) >= REPEAT_EVERY_MS ==> pad_step(c, PadEvent::RightZ { pulled: true }, now).1
            == Some(PadAction::VolUp),
{
}

// ---------------------------------------------------------------------------------------------
// Names
// ---------------------------------------------------------------------------------------------

/// The name an action has on the `gamepad` event.
pub open spec fn action_name_spec(a: PadAction) -> Seq<char> {
    match a {
        PadAction::PlayPause => seq!['p', 'l', 'a', 'y', 'p', 'a', 'u', 's', 'e'],
        PadAction::Next => seq!['n', 'e', 'x', 't'],
        PadAction::Prev => seq!['p', 'r', 'e', 'v'],
        PadAction::Mute => seq!['m', 'u', 't', 'e'],
        PadAction::ToggleMini => seq!['t', 'o', 'g', 'g', 'l', 'e', 'm', 'i', 'n', 'i'],
        PadAction::VolDown => seq!['v', 'o', 'l', 'd', 'o', 'w', 'n'],
        PadAction::VolUp => seq!['v', 'o', 'l', 'u', 'p'],
        PadAction::SeekBack => seq!['s', 'e', 'e', 'k', 'b', 'a', 'c', 'k'],
        PadAction::SeekFwd => seq!['s', 'e', 'e', 'k', 'f', 'w', 'd'],
        PadAction::SeekBackFast => seq!['s', 'e', 'e', 'k', 'b', 'a', 'c', 'k', '_', 'f', 'a', 's', 't'],
        PadAction::SeekFwdFast => seq!['s', 'e', 'e', 'k', 'f', 'w', 'd', '_', 'f', 'a', 's', 't'],
    }
}

/// The name an action has on the `gamepad` event (see `action_name_spec`).
pub fn action_name(a: PadAction) -> (r: &'static str)
    ensures
        r@ == action_name_spec(a),
{
    match a {
        PadAction::PlayPause => {
            proof {
                reveal_strlit("playpause");
            }
            "playpause"
        },
        PadAction::Next => {
            proof {
                reveal_strlit("next");
            }
            "next"
        },
        PadAction::Prev => {
            proof {
                reveal_strlit("prev");
            }
            "prev"
        },
        PadAction::Mute => {
            proof {
                reveal_strlit("mute");
            }
            "mute"
        },
        PadAction::ToggleMini => {
            proof {
                reveal_strlit("togglemini");
            }
            "togglemini"
        },
        PadAction::VolDown => {
            proof {
                reveal_strlit("voldown");
            }
            "voldown"
        },
        PadAction::VolUp => {
            proof {
                reveal_strlit("volup");
            }
            "volup"
        },
        PadAction::SeekBack => {
            proof {
                reveal_strlit("seekback");
            }
            "seekback"
        },
        PadAction::SeekFwd => {
            proof {
                reveal_strlit("seekfwd");
            }
            "seekfwd"
        },
        PadAction::SeekBackFast => {
            proof {
                reveal_strlit("seekback_fast");
            }
            "seekback_fast"
        },
        PadAction::SeekFwdFast => {
            proof {
                reveal_strlit("seekfwd_fast");
            }
            "seekfwd_fast"
        },
    }
}

} // verus!
