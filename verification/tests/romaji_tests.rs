use limusic::lyrics::{LyricLine, LyricWord};
use limusic::romaji::{kana_to_romaji, kana_to_romaji_char, romanize_lyrics, romanize_text};

#[test]
fn kana_reads_as_romaji() {
    assert_eq!(kana_to_romaji("きょうは"), "kyouha");
    assert_eq!(kana_to_romaji("カタカナ"), "katakana");
    assert_eq!(kana_to_romaji_char('あ'), "a");
    assert_eq!(romanize_text("hello"), "hello");
    assert_eq!(romanize_text("漢字"), "漢字");
}

#[test]
fn romanized_lines_carry_the_reading_as_translation() {
    let mut lines = vec![
        LyricLine {
            time_ms: Some(0),
            end_time_ms: None,
            text: "さくら".to_string(),
            words: Some(vec![LyricWord { text: "さ".to_string(), start_ms: 0, end_ms: 10 }]),
            translation: None,
        },
        LyricLine::simple(Some(5), "plain".to_string()),
    ];
    romanize_lyrics(&mut lines);
    assert_eq!(lines[0].translation, Some("sakura".to_string()));
    assert_eq!(lines[0].words.as_ref().unwrap()[0].text, "sa");
    assert_eq!(lines[1].translation, None);
}

#[test]
fn a_small_tsu_doubles_the_next_consonant() {
    assert_eq!(limusic::romaji::kana_to_romaji("かった"), "katta");
    assert_eq!(limusic::romaji::kana_to_romaji("ラッキー"), "rakki-");
    assert_eq!(limusic::romaji::kana_to_romaji("きっ"), "ki");
}
