use limusic::lrc::parse_lrc;
use limusic::lyrics::{
    assemble_translation, keep_translation, plain_from_text, translation_skipped, wants_translation,
    LyricLine,
};

#[test]
fn parses_basic_lrc() {
    let lrc = "[ar:Fleetwood Mac]\n[00:27.93] Listen to the wind blow\n[00:31.16] Watch the sun rise\n";
    let lines = parse_lrc(lrc);
    assert_eq!(lines.len(), 2);
    assert_eq!(lines[0].time_ms, Some(27930));
    assert_eq!(lines[0].text, "Listen to the wind blow");
    assert_eq!(lines[1].time_ms, Some(31160));
}

#[test]
fn multi_timestamp_line_repeats() {
    let lines = parse_lrc("[00:10.00][01:10.00]la la la");
    assert_eq!(lines.len(), 2);
    assert_eq!(lines[0].time_ms, Some(10000));
    assert_eq!(lines[1].time_ms, Some(70000));
    assert!(lines.iter().all(|l| l.text == "la la la"));
}

#[test]
fn keeps_bracketed_lyric_text_and_gap_lines() {
    let lines = parse_lrc("[00:05.5][Chorus] yeah\n[00:20.123]\n[00:30] plain seconds");
    assert_eq!(lines.len(), 3);
    assert_eq!(lines[0].time_ms, Some(5500));
    assert_eq!(lines[0].text, "[Chorus] yeah");
    assert_eq!(lines[1].time_ms, Some(20123));
    assert_eq!(lines[1].text, "");
    assert_eq!(lines[2].time_ms, Some(30000));
}

#[test]
fn plain_text_splits_lines() {
    let l = plain_from_text(Some("one\ntwo\n\nthree"), "LRCLIB").unwrap();
    assert!(!l.synced);
    assert_eq!(l.lines.len(), 4);
    assert_eq!(l.lines[2].text, "");
}

#[test]
fn lrc_lines_come_out_in_cue_order() {
    let lines = parse_lrc("[00:30.00]third\n[00:10.00]first\n[00:20.00]second\n[00:10.00]also first");
    let texts: Vec<&str> = lines.iter().map(|l| l.text.as_str()).collect();
    assert_eq!(texts, vec!["first", "also first", "second", "third"]);
}

#[test]
fn translation_is_skipped_for_blank_text_and_auto_targets() {
    assert!(translation_skipped("  ", "es"));
    assert!(translation_skipped("hello", " "));
    assert!(translation_skipped("hello", "auto"));
    assert!(!translation_skipped("hello", "es"));
}

#[test]
fn translation_segments_run_together_or_fall_back() {
    let segs = vec![Some("hola ".to_string()), None, Some("mundo".to_string())];
    assert_eq!(assemble_translation("hello world", &segs), "hola mundo");
    assert_eq!(assemble_translation("hello", &vec![Some("  ".to_string())]), "hello");
    assert_eq!(assemble_translation("hello", &vec![]), "hello");
}

#[test]
fn a_translation_is_kept_only_when_it_differs() {
    let mut line = LyricLine {
        time_ms: None,
        end_time_ms: None,
        text: "hello".into(),
        words: None,
        translation: None,
    };
    assert!(wants_translation(&line));
    keep_translation(&mut line, Some("hello".into()));
    assert_eq!(line.translation, None);
    keep_translation(&mut line, None);
    assert_eq!(line.translation, None);
    keep_translation(&mut line, Some("hola".into()));
    assert_eq!(line.translation.as_deref(), Some("hola"));
    let blank = LyricLine { time_ms: None, end_time_ms: None, text: " ".into(), words: None, translation: None };
    assert!(!wants_translation(&blank));
}

fn shifted_sample() -> limusic::lyrics::Lyrics {
    limusic::lyrics::Lyrics {
        source: "lrclib".to_string(),
        synced: true,
        instrumental: false,
        lines: vec![LyricLine {
            time_ms: Some(1000),
            end_time_ms: Some(2500),
            text: "la".to_string(),
            words: Some(vec![limusic::lyrics::LyricWord { text: "la".to_string(), start_ms: 1000, end_ms: 1800 }]),
            translation: None,
        }],
    }
}

fn cues(l: &limusic::lyrics::Lyrics) -> Vec<u64> {
    let mut out = Vec::new();
    for x in &l.lines {
        out.push(x.time_ms.unwrap());
        out.push(x.end_time_ms.unwrap());
        for w in x.words.as_ref().unwrap() {
            out.push(w.start_ms);
            out.push(w.end_ms);
        }
    }
    out
}

#[test]
fn two_offsets_compose_into_one() {
    let mut twice = shifted_sample();
    limusic::lyrics::apply_offset(&mut twice, 300);
    limusic::lyrics::apply_offset(&mut twice, -500);
    let mut once = shifted_sample();
    limusic::lyrics::apply_offset(&mut once, -200);
    assert_eq!(cues(&twice), cues(&once));
    assert_eq!(cues(&once), vec![800, 2300, 800, 1600]);
    limusic::lyrics::apply_offset(&mut once, 200);
    assert_eq!(cues(&once), cues(&shifted_sample()));
}
