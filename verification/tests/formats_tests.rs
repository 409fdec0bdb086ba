use limusic::formats::{
    json_lines, lrc_or_ttml, lyric_format, ttml_lines, ttml_paragraphs, JsonLine, JsonWord,
};
use limusic::lyrics::LyricLine;

#[test]
fn formats_are_told_apart_on_the_trimmed_text() {
    let f = lyric_format("  [{\"time\": 1, \"text\": \"a\"}]");
    assert!(f.json && !f.ttml);
    let f = lyric_format("<tt><body><p begin=\"1s\">a</p></body></tt>");
    assert!(!f.json && f.ttml);
    let f = lyric_format("[00:01.00] hello");
    assert!(!f.json && !f.ttml);
    let f = lyric_format("{\"startTime\": 5} <p x");
    assert!(f.json && f.ttml);
}

fn word(text: &str, start: Option<u64>, end: Option<u64>) -> JsonWord {
    JsonWord { text: text.to_string(), start_ms: start, end_ms: end }
}

#[test]
fn json_lines_fill_word_times_keep_cued_lines_and_sort() {
    let items = vec![
        JsonLine {
            text: "  second ".to_string(),
            time_ms: Some(5000),
            words: vec![word("sec", None, None), word("ond", Some(5400), Some(5900)), word("x", None, Some(1))],
        },
        JsonLine { text: "".to_string(), time_ms: None, words: vec![] },
        JsonLine { text: "".to_string(), time_ms: Some(1000), words: vec![] },
        JsonLine { text: "free".to_string(), time_ms: None, words: vec![word("w", None, None)] },
    ];
    let lines = json_lines(items);
    assert_eq!(lines.len(), 3);
    assert_eq!(lines[0].text, "free");
    assert_eq!(lines[0].time_ms, None);
    assert_eq!(lines[1].time_ms, Some(1000));
    assert_eq!(lines[1].text, "");
    assert!(lines[1].words.is_none());
    let second = lines.iter().find(|l| l.text == "second").expect("second");
    let ws = second.words.as_ref().expect("words");
    assert_eq!((ws[0].start_ms, ws[0].end_ms), (5000, 5500));
    assert_eq!((ws[1].start_ms, ws[1].end_ms), (5400, 5900));
    assert_eq!((ws[2].start_ms, ws[2].end_ms), (5000, 1));
    let free = lines.iter().find(|l| l.text == "free").expect("free");
    assert!(free.words.is_none());
}

#[test]
fn ttml_paragraphs_are_scanned_into_pieces() {
    let xml = "<tt><p begin=\"1s\" end=\"2s\">Hi <span begin=\"a\">the</span>re<span x=\"1\">!</span> end</p><p>open";
    let ps = ttml_paragraphs(xml);
    assert_eq!(ps.len(), 1);
    assert_eq!(ps[0].tag, "<p begin=\"1s\" end=\"2s\">");
    let p = &ps[0].pieces;
    assert_eq!(p.len(), 4);
    assert!(!p[0].span && p[0].text == "Hi ");
    assert!(p[1].span && p[1].text == "the" && p[1].tag == "<span begin=\"a\">");
    assert!(!p[2].span && p[2].text == "re");
    assert!(p[3].span && p[3].text == "!");
    assert_eq!(ps[0].tail, " end");
}

#[test]
fn ttml_lines_attach_words_and_gap_text() {
    let mut ps = ttml_paragraphs("<p a><span b>Hel</span>lo <span c>you</span></p><p z>  </p><p y>later</p>");
    ps[0].begin_ms = Some(2000);
    ps[0].end_ms = Some(3000);
    ps[0].pieces[1].begin_ms = Some(2100);
    ps[0].pieces[3].end_ms = Some(2900);
    ps[2].begin_ms = Some(500);
    let lines = ttml_lines(ps);
    assert_eq!(lines.len(), 2);
    assert_eq!(lines[0].time_ms, Some(500));
    assert_eq!(lines[0].text, "later");
    assert_eq!(lines[1].text, "Hello you");
    assert_eq!(lines[1].end_time_ms, Some(3000));
    let ws = lines[1].words.as_ref().expect("words");
    assert_eq!(ws.len(), 2);
    assert_eq!((ws[0].text.as_str(), ws[0].start_ms, ws[0].end_ms), ("Hello ", 2100, 3000));
    assert_eq!((ws[1].text.as_str(), ws[1].start_ms, ws[1].end_ms), ("you", 2000, 2900));
}

fn line(t: u64, text: &str) -> LyricLine {
    LyricLine::simple(Some(t), text.to_string())
}

#[test]
fn the_parse_is_chosen_json_then_ttml_then_lrc() {
    let j = "[{\"time\": 1, \"text\": \"a\"}]";
    let r = lrc_or_ttml(j, Some(vec![line(1000, "json")]), vec![line(1, "ttml")]);
    assert_eq!(r[0].text, "json");
    let r = lrc_or_ttml(j, Some(vec![]), vec![line(1, "ttml")]);
    assert_eq!(r.len(), 0);
    let r = lrc_or_ttml("<p>x</p>", None, vec![line(1, "ttml")]);
    assert_eq!(r[0].text, "ttml");
    let r = lrc_or_ttml("[00:02.00] lrc", Some(vec![line(1, "json")]), vec![line(1, "ttml")]);
    assert_eq!(r[0].text, "lrc");
    assert_eq!(r[0].time_ms, Some(2000));
}
