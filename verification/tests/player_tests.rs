use limusic::player::{friendly_error, quoted, volume_step, MpvFailure, PlayState};

#[test]
fn paths_survive_mpvs_command_parser() {
    assert_eq!(quoted("/music/My music/a, b.mp3"), "\"/music/My music/a, b.mp3\"");
    assert_eq!(quoted(r#"/m/say "hi".mp3"#), r#""/m/say \"hi\".mp3""#);
    assert_eq!(quoted(r"C:\Music\x.mp3"), r#""C:\\Music\\x.mp3""#);
    assert_eq!(quoted("https://x/y?a=1&b=2"), "\"https://x/y?a=1&b=2\"");
}

#[test]
fn volume_steps() {
    assert_eq!(volume_step(false), 5);
    assert_eq!(volume_step(true), 1);
}

#[test]
fn playing_is_announced_only_on_change() {
    let mut s = PlayState::new();
    // A file starts: idle-active goes false while pause stays false.
    assert_eq!(s.on_flag(false, false), Some(true));
    // A repeated report changes nothing.
    assert_eq!(s.on_flag(false, false), None);
    assert_eq!(s.on_flag(true, true), Some(false));
    assert_eq!(s.on_flag(true, false), Some(true));
    // The playlist runs dry.
    assert_eq!(s.on_flag(false, true), Some(false));
}

use limusic::player::{
    mute_target, nudge_volume, parse_repeat_mode, shown_volume, sleep_tick, sleep_timer_text,
    startup_volume, RepeatMode, SleepTimer,
};

#[test]
fn mute_toggles_between_silence_and_the_stored_level() {
    assert_eq!(mute_target(40, Some("40")), 0);
    assert_eq!(mute_target(0, Some("65")), 65);
    assert_eq!(mute_target(0, Some("garbage")), 100);
    assert_eq!(mute_target(0, None), 100);
    // Muting stores 0, so toggling back reads 0 again.
    assert_eq!(mute_target(0, Some("0")), 0);
}

#[test]
fn the_shown_volume_prefers_the_stored_one() {
    assert_eq!(shown_volume(Some("30"), 80), 30);
    assert_eq!(shown_volume(Some(" 30"), 80), 80);
    assert_eq!(shown_volume(None, 80), 80);
    assert_eq!(startup_volume(Some("150")), Some(100));
    assert_eq!(startup_volume(Some("-3")), Some(0));
    assert_eq!(startup_volume(Some("55")), Some(55));
    assert_eq!(startup_volume(Some("x")), None);
}

#[test]
fn shortcuts_nudge_by_five_within_bounds() {
    assert_eq!(nudge_volume(50, true), 55);
    assert_eq!(nudge_volume(98, true), 100);
    assert_eq!(nudge_volume(3, false), 0);
    assert_eq!(nudge_volume(50, false), 45);
}

#[test]
fn repeat_modes_parse_or_are_refused() {
    assert_eq!(parse_repeat_mode("off"), Ok(RepeatMode::Off));
    assert_eq!(parse_repeat_mode("all"), Ok(RepeatMode::All));
    assert_eq!(parse_repeat_mode("one"), Ok(RepeatMode::One));
    assert_eq!(parse_repeat_mode("shuffle"), Err("unknown repeat mode: shuffle".to_string()));
}

#[test]
fn the_sleep_timer_fires_once_at_its_deadline() {
    let mut t = SleepTimer::At(5_000);
    assert!(!sleep_tick(&mut t, 4_999));
    assert_eq!(t, SleepTimer::At(5_000));
    assert!(sleep_tick(&mut t, 5_000));
    assert_eq!(t, SleepTimer::Off);
    assert!(!sleep_tick(&mut t, 9_000));
    let mut e = SleepTimer::EndOfSong;
    assert!(!sleep_tick(&mut e, u64::MAX));
    assert_eq!(sleep_timer_text(SleepTimer::Off, 0), "off");
    assert_eq!(sleep_timer_text(SleepTimer::EndOfSong, 0), "end_of_song");
    assert_eq!(sleep_timer_text(SleepTimer::At(65_900), 5_000), "60");
    assert_eq!(sleep_timer_text(SleepTimer::At(1_000), 5_000), "0");
}

#[test]
fn failed_tracks_get_messages_a_user_can_read() {
    assert_eq!(
        friendly_error(&MpvFailure::Raw(-13)),
        "Couldn't load this track \u{2014} YouTube rejected the stream link"
    );
    assert_eq!(
        friendly_error(&MpvFailure::Loadfile(Box::new(MpvFailure::Raw(-16)))),
        "This stream contains no playable audio"
    );
    assert_eq!(friendly_error(&MpvFailure::Raw(-17)), "Unrecognized audio format");
    assert_eq!(friendly_error(&MpvFailure::Raw(-14)), "Couldn't start audio output");
    assert_eq!(friendly_error(&MpvFailure::Raw(-20)), "Playback failed (mpv error -20)");
    assert_eq!(friendly_error(&MpvFailure::Raw(i32::MIN)), format!("Playback failed (mpv error {})", i32::MIN));
    assert_eq!(friendly_error(&MpvFailure::Other("timeout".to_string())), "Playback failed (timeout)");
}

#[test]
fn playing_announcements_alternate_over_a_run_of_reports() {
    let mut s = PlayState::new();
    let reports = [(false, false), (true, true), (true, true), (false, true), (false, false), (true, false)];
    let mut said = Vec::new();
    for (is_pause, value) in reports {
        if let Some(p) = s.on_flag(is_pause, value) {
            said.push(p);
        }
    }
    assert_eq!(said, vec![true, false, true]);
    assert!(s.playing);
}
