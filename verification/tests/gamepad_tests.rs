use limusic::gamepad::{action_name, PadAction, PadButton, PadClock, PadEvent};

#[test]
fn buttons_map_to_actions() {
    let mut c = PadClock::new(0);
    assert_eq!(c.on_event(PadEvent::Pressed(PadButton::South), 10), Some(PadAction::PlayPause));
    assert_eq!(c.on_event(PadEvent::Pressed(PadButton::East), 10), Some(PadAction::Next));
    assert_eq!(c.on_event(PadEvent::Pressed(PadButton::Select), 10), Some(PadAction::Prev));
    assert_eq!(c.on_event(PadEvent::Pressed(PadButton::Start), 10), Some(PadAction::ToggleMini));
    assert_eq!(c.on_event(PadEvent::Pressed(PadButton::DPadLeft), 10), Some(PadAction::SeekBack));
    assert_eq!(c.on_event(PadEvent::Pressed(PadButton::Other), 10), None);
    assert_eq!(action_name(PadAction::PlayPause), "playpause");
    assert_eq!(action_name(PadAction::SeekFwdFast), "seekfwd_fast");
    assert_eq!(action_name(PadAction::ToggleMini), "togglemini");
}

#[test]
fn a_connect_swallows_the_replay_burst() {
    let mut c = PadClock::new(0);
    assert_eq!(c.on_event(PadEvent::Connected, 1000), None);
    assert_eq!(c.on_event(PadEvent::Pressed(PadButton::South), 1499), None);
    assert_eq!(c.on_event(PadEvent::Pressed(PadButton::South), 1500), Some(PadAction::PlayPause));
}

#[test]
fn held_sticks_repeat_at_most_every_100ms() {
    let mut c = PadClock::new(0);
    let right = PadEvent::LeftStickX { past_deadzone: true, positive: true };
    assert_eq!(c.on_event(right, 50), None);
    assert_eq!(c.on_event(right, 100), Some(PadAction::SeekFwd));
    assert_eq!(c.on_event(right, 150), None);
    assert_eq!(c.on_event(right, 200), Some(PadAction::SeekFwd));
    let rest = PadEvent::LeftStickX { past_deadzone: false, positive: true };
    assert_eq!(c.on_event(rest, 400), None);
    // Up on the left stick reads negative and is louder.
    let up = PadEvent::LeftStickY { past_deadzone: true, positive: false };
    assert_eq!(c.on_event(up, 400), Some(PadAction::VolUp));
    let fast = PadEvent::RightStickX { past_deadzone: true, positive: false };
    assert_eq!(c.on_event(fast, 400), Some(PadAction::SeekBackFast));
    assert_eq!(c.on_event(PadEvent::RightZ { pulled: true }, 400), Some(PadAction::VolUp));
    assert_eq!(c.on_event(PadEvent::RightZ { pulled: true }, 450), None);
}
