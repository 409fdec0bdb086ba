use limusic::richsync::{apple_auth, apple_lyrics_url, apple_search_url};
use limusic::providers::{kugou_lyrics, kugou_text, netease_lyrics, qrc_lyrics, qrc_text, unison_lyrics};
use limusic::richsync::{richsync_lines, RichLine, RichWord};
use limusic::krc::{base64_decode_bytes, base64_decode_fallback, build_b64_table, decode_krc_content};
use limusic::lrc::{parse_elrc, parse_krc_words};
use limusic::lyrics::{apply_offset, from_parsed, LyricLine, Lyrics};

#[test]
fn elrc_word_cues_become_words() {
    let lines = parse_elrc("[00:01.00]<00:01.00>Hel<00:01.50>lo <00:02.00>there");
    assert_eq!(lines.len(), 1);
    let w = lines[0].words.as_ref().unwrap();
    assert_eq!(w.len(), 3);
    assert_eq!(w[0].text, "Hel");
    assert_eq!((w[0].start_ms, w[0].end_ms), (1000, 1000));
    assert_eq!((w[1].start_ms, w[1].end_ms), (1000, 1500));
    assert_eq!(w[2].text, "there");
    assert_eq!(lines[0].text, "Hello there");
}

#[test]
fn krc_words_carry_start_and_duration() {
    let lines = parse_krc_words("[00:01.00]<0,300,0>Hi <300,600,0>you\n[00:00.50]plain\n[1000,900]skipped\n");
    assert_eq!(lines.len(), 2);
    assert_eq!(lines[0].time_ms, Some(500));
    assert_eq!(lines[0].text, "plain");
    assert!(lines[0].words.is_none());
    let w = lines[1].words.as_ref().unwrap();
    assert_eq!(w.len(), 2);
    assert_eq!(w[0].text, "Hi ");
    assert_eq!((w[1].start_ms, w[1].end_ms), (300, 900));
    assert_eq!(lines[1].text, "Hi you");
    assert_eq!(lines[1].end_time_ms, Some(900));
}

#[test]
fn base64_decodes_standard_and_tolerant_inputs() {
    let t = build_b64_table();
    assert_eq!(t.len(), 256);
    assert_eq!(t[b'A' as usize], 0);
    assert_eq!(t[b'/' as usize], 63);
    assert_eq!(t[b'=' as usize], 0);
    assert_eq!(t[b'*' as usize], -1);
    assert_eq!(base64_decode_bytes("aGk="), Some(b"hi".to_vec()));
    assert_eq!(base64_decode_bytes("aGk"), None);
    assert_eq!(base64_decode_bytes("a*k="), None);
    assert_eq!(base64_decode_fallback("aGk"), Some("hi".to_string()));
    assert_eq!(base64_decode_fallback(" aG\nk= "), Some("hi".to_string()));
}

#[test]
fn krc_payloads_unmask_and_drop_the_marker() {
    // "krc1hi" masked with the repeating key `krc1`, then base64.
    let key = [0x6bu8, 0x72, 0x63, 0x31];
    let plain = b"krc1[0,1]hi";
    let masked: Vec<u8> = plain.iter().enumerate().map(|(i, b)| b ^ key[i % 4]).collect();
    let b64 = std_b64(&masked);
    assert_eq!(decode_krc_content(&b64), Some("[0,1]hi".to_string()));
    assert_eq!(decode_krc_content("!!!"), None);
}

fn std_b64(bytes: &[u8]) -> String {
    const A: &[u8] = b"ABCDEFGHIJKLMNOPQRSTUVWXYZabcdefghijklmnopqrstuvwxyz0123456789+/";
    let mut out = String::new();
    for chunk in bytes.chunks(3) {
        let b = [chunk[0], *chunk.get(1).unwrap_or(&0), *chunk.get(2).unwrap_or(&0)];
        out.push(A[(b[0] >> 2) as usize] as char);
        out.push(A[(((b[0] & 3) << 4) | (b[1] >> 4)) as usize] as char);
        out.push(if chunk.len() > 1 { A[(((b[1] & 15) << 2) | (b[2] >> 6)) as usize] as char } else { '=' });
        out.push(if chunk.len() > 2 { A[(b[2] & 63) as usize] as char } else { '=' });
    }
    out
}

#[test]
fn offsets_shift_every_cue_and_stop_at_zero() {
    let mut l = from_parsed("x", vec![
        LyricLine::simple(Some(1000), "a".to_string()),
        LyricLine::simple(None, "b".to_string()),
    ])
    .unwrap();
    assert!(l.synced);
    apply_offset(&mut l, -1500);
    assert_eq!(l.lines[0].time_ms, Some(0));
    assert_eq!(l.lines[1].time_ms, None);
    apply_offset(&mut l, 250);
    assert_eq!(l.lines[0].time_ms, Some(250));
    let mut same = Lyrics { source: "s".to_string(), synced: true, instrumental: false, lines: vec![LyricLine::simple(Some(7), "c".to_string())] };
    apply_offset(&mut same, 0);
    assert_eq!(same.lines[0].time_ms, Some(7));
    assert!(from_parsed("x", Vec::new()).is_none());
}

#[test]
fn richsync_lines_take_word_times_and_fallbacks() {
    let w = |t: Option<&str>, s: Option<u64>, e: Option<u64>| RichWord {
        text: t.map(str::to_string),
        start_ms: s,
        end_ms: e,
    };
    let lines = vec![
        RichLine {
            ts: Some(1_000),
            te: None,
            line: String::new(),
            words: vec![
                w(Some("Hel"), Some(1_000), Some(1_200)),
                w(Some("  "), Some(1_200), None),
                w(None, Some(1_300), None),
                w(Some("lo"), None, None),
            ],
        },
        RichLine { ts: Some(3_000), te: Some(4_000), line: "plain".to_string(), words: vec![] },
    ];
    let out = richsync_lines(Some(lines)).expect("words present");
    assert_eq!(out.len(), 2);
    assert_eq!(out[0].time_ms, Some(1_000));
    assert_eq!(out[0].text, "Hello");
    let ws = out[0].words.as_ref().unwrap();
    assert_eq!(ws.len(), 2);
    assert_eq!((ws[1].start_ms, ws[1].end_ms), (1_000, 1_500), "line start, then +500");
    assert_eq!(out[0].end_time_ms, Some(1_500), "last word's end");
    assert_eq!(out[1].text, "plain");
    assert!(out[1].words.is_none());
    assert_eq!(out[1].end_time_ms, Some(4_000));
}

#[test]
fn richsync_without_words_or_start_times_is_nothing() {
    assert!(richsync_lines(None).is_none());
    assert!(richsync_lines(Some(vec![])).is_none());
    let no_words = vec![RichLine { ts: Some(1), te: None, line: "x".into(), words: vec![] }];
    assert!(richsync_lines(Some(no_words)).is_none());
    let no_start = vec![RichLine { ts: None, te: None, line: "x".into(), words: vec![] }];
    assert!(richsync_lines(Some(no_start)).is_none());
}

#[test]
fn apple_lines_fall_back_to_the_line_times() {
    let lines = vec![RichLine {
        ts: Some(2_000),
        te: Some(3_000),
        line: "la la".to_string(),
        words: vec![
            RichWord { text: Some("la".into()), start_ms: None, end_ms: None },
            RichWord { text: Some("la".into()), start_ms: Some(2_500), end_ms: None },
        ],
    }];
    let l = limusic::richsync::apple_lyrics(Some(lines)).expect("one line");
    assert_eq!(l.source, "Apple Music");
    assert!(l.synced);
    let ws = l.lines[0].words.as_ref().unwrap();
    assert_eq!((ws[0].start_ms, ws[0].end_ms), (2_000, 3_000));
    assert_eq!((ws[1].start_ms, ws[1].end_ms), (2_500, 3_000));
    assert!(limusic::richsync::apple_lyrics(None).is_none());
    assert!(limusic::richsync::apple_lyrics(Some(vec![])).is_none());
}

#[test]
fn netease_prefers_word_timed_yrc_then_lrc() {
    let yrc = "[00:01.00]<0,200,0>Hel<200,300,0>lo";
    let got = netease_lyrics(yrc, None, vec![], "", None, vec![]).expect("yrc words");
    assert_eq!(got.source, "NetEase");
    assert!(got.lines[0].words.is_some());
    let got = netease_lyrics("  ", None, vec![], "[00:05.00]plain", None, vec![]).expect("lrc");
    assert_eq!(got.lines[0].text, "plain");
    assert!(netease_lyrics("", None, vec![], "   ", None, vec![]).is_none());
}

#[test]
fn kugou_text_needs_content() {
    assert_eq!(kugou_text(""), None);
    // Not base64 at all: the field itself is the text.
    assert_eq!(kugou_text("[00:01.00]hi").as_deref(), Some("[00:01.00]hi"));
    let got = kugou_lyrics("[00:01.00]hi", None, vec![]).expect("lrc fallback");
    assert_eq!(got.source, "Kugou");
    assert_eq!(got.lines[0].time_ms, Some(1_000));
}

#[test]
fn qrc_prefers_word_timings() {
    assert_eq!(qrc_text(""), None);
    assert_eq!(qrc_text("   ").as_deref(), None);
    let got = qrc_lyrics("[00:01.00]<0,200,0>Hi", None, vec![]).expect("words");
    assert_eq!(got.source, "QRC");
    assert!(got.lines[0].words.is_some());
    assert!(qrc_lyrics("nothing timed", None, vec![]).is_none());
}

#[test]
fn unison_falls_back_to_its_line_list() {
    let list = vec![
        ("first".to_string(), Some(1_000)),
        (String::new(), None),
        (String::new(), Some(2_000)),
    ];
    let got = unison_lyrics("  ", None, vec![], Some(list)).expect("list");
    assert_eq!(got.source, "Unison");
    assert_eq!(got.lines.len(), 2, "the entry with neither text nor time is dropped");
    assert!(got.synced);
    assert!(unison_lyrics("", None, vec![], Some(vec![])).is_none());
    assert!(unison_lyrics("", None, vec![], None).is_none());
}

#[test]
fn simp_music_takes_the_first_usable_candidate() {
    let timed = |t: &str| LyricLine {
        time_ms: Some(1_000),
        end_time_ms: None,
        text: t.into(),
        words: None,
        translation: None,
    };
    let cands = vec![
        ("   ".to_string(), None, vec![timed("blank text is skipped")]),
        ("no cues here".to_string(), None, vec![]),
        ("[00:01.00]y".to_string(), None, vec![]),
        ("[00:01.00]z".to_string(), None, vec![]),
    ];
    let got = limusic::providers::simp_music_lyrics(cands, Some("plain")).expect("a hit");
    assert_eq!(got.source, "SimpMusic");
    assert_eq!(got.lines[0].text, "y");
    let plain = limusic::providers::simp_music_lyrics(vec![], Some("one\ntwo")).expect("plain");
    assert!(!plain.synced);
    assert_eq!(plain.lines.len(), 2);
    assert!(limusic::providers::simp_music_lyrics(vec![], None).is_none());
}

#[test]
fn musixmatch_prefers_richsync_then_the_subtitle_body() {
    let rich = vec![LyricLine {
        time_ms: Some(10),
        end_time_ms: None,
        text: "word".into(),
        words: None,
        translation: None,
    }];
    let got = limusic::providers::musixmatch_lyrics(Some(rich), "").expect("richsync");
    assert_eq!((got.source.as_str(), got.synced), ("Musixmatch", true));
    let got = limusic::providers::musixmatch_lyrics(None, "<span start=\"1\">[00:02.00] hi</span>").expect("lrc body");
    assert!(got.synced);
    assert_eq!(got.lines[0].time_ms, Some(2_000));
    assert_eq!(got.lines[0].text, "hi");
    let plain = limusic::providers::musixmatch_lyrics(None, "<b>no cues</b>").expect("plain");
    assert!(!plain.synced);
    assert_eq!(plain.lines[0].text, "no cues");
    assert!(limusic::providers::musixmatch_lyrics(None, "  ").is_none());
}

#[test]
fn enhanced_lrc_refines_plain_lrc_line_by_line() {
    let text = "[00:01.00]<00:01.00>Hel<00:01.50>lo <00:02.00>\n[00:03.00]plain line";
    let plain = limusic::lrc::parse_lrc(text);
    let enhanced = limusic::lrc::parse_elrc(text);
    assert_eq!(plain.len(), enhanced.len());
    for (p, e) in plain.iter().zip(enhanced.iter()) {
        assert_eq!(p.time_ms, e.time_ms);
    }
    let ws = enhanced[0].words.as_ref().expect("word cues");
    assert_eq!(ws[0].start_ms, 1000);
    let ends: Vec<u64> = ws.iter().map(|w| w.end_ms).collect();
    assert_eq!(ends, vec![1000, 1500, 2000], "one word per inline tag, ending at its time");
    for pair in ws.windows(2) {
        assert_eq!(pair[0].end_ms, pair[1].start_ms);
    }
    assert_eq!(enhanced[0].text, "Hello");
    assert!(enhanced[1].words.is_none());
    assert_eq!(enhanced[1].text, plain[1].text);
}

#[test]
fn providers_read_a_ttml_or_json_answer_before_lrc() {
    let ttml = vec![LyricLine::simple(Some(700), "from ttml".to_string())];
    let got = kugou_lyrics("<tt><p>x</p></tt>", None, ttml).expect("ttml");
    assert_eq!(got.lines[0].text, "from ttml");
    let json = vec![LyricLine::simple(Some(900), "from json".to_string())];
    let got = qrc_lyrics("[{\"time\": 1, \"text\": \"a\"}]", Some(json), vec![]).expect("json");
    assert_eq!(got.lines[0].text, "from json");
}

#[test]
fn apple_runs_only_with_both_tokens() {
    assert!(apple_auth(None, Some("d"), None).is_none());
    assert!(apple_auth(Some("m"), Some("  "), None).is_none());
    let a = apple_auth(Some("m"), Some("d"), None).expect("on");
    assert_eq!((a.media_token.as_str(), a.dev_token.as_str(), a.storefront.as_str()), ("m", "d", "us"));
    let a = apple_auth(Some("m"), Some("d"), Some("GB")).expect("on");
    assert_eq!(a.storefront, "gb");
    assert_eq!(apple_search_url("gb"), "https://amp-api.music.apple.com/v1/catalog/gb/search");
    assert_eq!(apple_lyrics_url("us", "123"), "https://amp-api.music.apple.com/v1/catalog/us/songs/123/lyrics");
}
