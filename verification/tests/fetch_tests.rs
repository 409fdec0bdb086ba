use limusic::fetch::{
    lrclib_to_lyrics, rank, settle_wave, wave_slots, FetchAction, LrclibTrack, LyricsFetch,
    ProviderReply, WaveAnswer,
};
use limusic::lyrics::{LyricLine, LyricWord, Lyrics};

fn answer(source: &str, synced: bool, instrumental: bool, words: bool) -> Lyrics {
    let line = LyricLine {
        time_ms: if synced { Some(1000) } else { None },
        end_time_ms: None,
        text: "hey".to_string(),
        words: if words {
            Some(vec![LyricWord { text: "hey".to_string(), start_ms: 1000, end_ms: 1500 }])
        } else {
            None
        },
        translation: None,
    };
    Lyrics { source: source.to_string(), synced, instrumental, lines: vec![line] }
}

#[test]
fn lrclib_prefers_instrumental_then_synced_then_plain() {
    let inst = LrclibTrack {
        instrumental: true,
        plain_lyrics: Some("x".to_string()),
        synced_lyrics: Some("[00:01.00] x".to_string()),
    };
    let l = lrclib_to_lyrics(&inst).unwrap();
    assert!(l.instrumental && !l.synced && l.lines.is_empty());
    assert_eq!(l.source, "LRCLIB");

    let synced = LrclibTrack {
        instrumental: false,
        plain_lyrics: Some("plain".to_string()),
        synced_lyrics: Some("[00:01.00] one\n[00:02.50] two".to_string()),
    };
    let l = lrclib_to_lyrics(&synced).unwrap();
    assert!(l.synced);
    assert_eq!(l.lines.len(), 2);
    assert_eq!(l.lines[1].time_ms, Some(2500));

    let blank_synced = LrclibTrack {
        instrumental: false,
        plain_lyrics: Some("a\nb".to_string()),
        synced_lyrics: Some("   ".to_string()),
    };
    let l = lrclib_to_lyrics(&blank_synced).unwrap();
    assert!(!l.synced);
    assert_eq!(l.lines.len(), 2);

    let nothing = LrclibTrack { instrumental: false, plain_lyrics: None, synced_lyrics: None };
    assert!(lrclib_to_lyrics(&nothing).is_none());
}

#[test]
fn ranks_words_over_synced_over_instrumental_over_plain() {
    assert_eq!(rank(&answer("a", true, false, true), true), 3);
    assert_eq!(rank(&answer("a", true, false, true), false), 2);
    assert_eq!(rank(&answer("a", true, false, false), true), 2);
    assert_eq!(rank(&answer("a", false, true, false), true), 1);
    assert_eq!(rank(&answer("a", false, false, false), true), 0);
}

#[test]
fn the_wave_slots_skip_boidu_when_it_is_off() {
    assert_eq!(wave_slots(true), (0u8..12).collect::<Vec<u8>>());
    assert_eq!(wave_slots(false), vec![0u8, 2, 3, 4, 5, 6, 7, 8, 9, 10, 11]);
}

#[test]
fn the_best_answer_wins_then_the_lower_priority() {
    let wave = vec![
        WaveAnswer { prio: 2, reply: ProviderReply::Found(answer("LRCLIB", true, false, false)) },
        WaveAnswer { prio: 3, reply: ProviderReply::Nothing },
        WaveAnswer { prio: 5, reply: ProviderReply::Found(answer("Kugou", true, false, true)) },
        WaveAnswer { prio: 4, reply: ProviderReply::Found(answer("NetEase", true, false, true)) },
        WaveAnswer { prio: 11, reply: ProviderReply::Late },
    ];
    let s = settle_wave(&wave, true);
    assert_eq!(s.best, Some(3));
    assert!(s.late);
    assert_eq!(s.lrclib_spoke, 2);
    // Without the word preference every synced answer ties, and LRCLIB's priority wins.
    let s = settle_wave(&wave, false);
    assert_eq!(s.best, Some(0));
}

#[test]
fn a_synced_wave_answer_ends_the_fetch_and_is_cached_with_a_duration() {
    let wave = vec![
        WaveAnswer { prio: 2, reply: ProviderReply::Found(answer("LRCLIB", true, false, false)) },
        WaveAnswer { prio: 3, reply: ProviderReply::Nothing },
    ];
    let (f, act) = LyricsFetch::after_wave(Some(wave), true, true, true, true, true, true);
    assert_eq!(act, FetchAction::Finish(true));
    assert_eq!(f.best.unwrap().source, "LRCLIB");
}

#[test]
fn a_clean_miss_asks_youtube_music_then_is_cached_as_definitive() {
    let wave = vec![
        WaveAnswer { prio: 2, reply: ProviderReply::Nothing },
        WaveAnswer { prio: 3, reply: ProviderReply::Nothing },
    ];
    let (f, act) = LyricsFetch::after_wave(Some(wave), true, true, true, true, true, true);
    assert_eq!(act, FetchAction::AskTimed);
    assert!(f.definitive);
    let (f, act) = f.on_timed(Some(Vec::new()), true);
    assert_eq!(act, FetchAction::AskPlain);
    let (f, act) = f.on_plain(Ok(None));
    assert_eq!(act, FetchAction::Finish(true));
    assert!(f.best.is_none());
}

#[test]
fn a_late_provider_keeps_a_miss_out_of_the_cache() {
    let wave = vec![
        WaveAnswer { prio: 2, reply: ProviderReply::Nothing },
        WaveAnswer { prio: 3, reply: ProviderReply::Nothing },
        WaveAnswer { prio: 8, reply: ProviderReply::Late },
    ];
    let (f, act) = LyricsFetch::after_wave(Some(wave), true, true, false, false, false, true);
    assert_eq!(act, FetchAction::Finish(false));
    assert!(f.best.is_none());
    let (_, act) = LyricsFetch::after_wave(None, true, true, true, true, true, true);
    assert_eq!(act, FetchAction::Finish(false));
}

#[test]
fn youtube_music_timed_lines_become_the_answer() {
    let wave = vec![WaveAnswer {
        prio: 11,
        reply: ProviderReply::Found(answer("Genius", false, false, false)),
    }];
    let (f, act) = LyricsFetch::after_wave(Some(wave), true, false, true, true, true, true);
    assert_eq!(act, FetchAction::AskTimed);
    let lines = vec![LyricLine::simple(Some(500), "la".to_string())];
    let (f, act) = f.on_timed(Some(lines), true);
    assert_eq!(act, FetchAction::Finish(false));
    let l = f.best.unwrap();
    assert_eq!(l.source, "YouTube Music");
    assert!(l.synced);
}

#[test]
fn a_plain_answer_from_the_wave_stands_when_youtube_music_fails() {
    let wave = vec![WaveAnswer {
        prio: 11,
        reply: ProviderReply::Found(answer("Genius", false, false, false)),
    }];
    let (f, act) = LyricsFetch::after_wave(Some(wave), true, true, true, true, true, true);
    assert_eq!(act, FetchAction::AskTimed);
    let (f, act) = f.on_timed(None, true);
    // The wave found something, so the plain step is skipped.
    assert_eq!(act, FetchAction::Finish(false));
    assert_eq!(f.best.unwrap().source, "Genius");
}

#[test]
fn plain_youtube_music_lyrics_carry_their_footer() {
    let wave = vec![
        WaveAnswer { prio: 2, reply: ProviderReply::Nothing },
        WaveAnswer { prio: 3, reply: ProviderReply::Nothing },
    ];
    let (f, act) = LyricsFetch::after_wave(Some(wave), true, true, true, false, true, true);
    assert_eq!(act, FetchAction::AskPlain);
    let (f, act) = f.on_plain(Ok(Some(("one\ntwo".to_string(), Some("Source: Musixmatch".to_string())))));
    assert_eq!(act, FetchAction::Finish(true));
    let l = f.best.unwrap();
    assert_eq!(l.source, "Source: Musixmatch");
    assert_eq!(l.lines.len(), 2);
    let wave = vec![WaveAnswer { prio: 2, reply: ProviderReply::Nothing }];
    let (f, _) = LyricsFetch::after_wave(Some(wave), true, true, true, false, true, true);
    let (f, act) = f.on_plain(Ok(Some(("x".to_string(), None))));
    assert_eq!(act, FetchAction::Finish(true));
    assert_eq!(f.best.unwrap().source, "YouTube Music");
}

#[test]
fn no_budget_left_skips_youtube_music_and_the_miss_is_not_definitive() {
    let wave = vec![
        WaveAnswer { prio: 2, reply: ProviderReply::Nothing },
        WaveAnswer { prio: 3, reply: ProviderReply::Nothing },
    ];
    let (f, act) = LyricsFetch::after_wave(Some(wave), true, true, true, true, true, false);
    assert_eq!(act, FetchAction::Finish(false));
    assert!(!f.definitive);
}
