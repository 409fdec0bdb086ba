use limusic::local::{is_audio, is_audio_ext};
use limusic::visualizer::Visualizer;

#[test]
fn audio_is_recognised_by_extension() {
    assert!(is_audio_ext(Some("mp3")));
    assert!(is_audio_ext(Some("FLAC")));
    assert!(is_audio_ext(Some("wv")));
    assert!(!is_audio_ext(Some("txt")));
    assert!(!is_audio_ext(None));
    assert!(is_audio("/music/a/Song.OPUS"));
    assert!(!is_audio("/music/a/cover.jpg"));
    assert!(!is_audio("/music/a/noext"));
}

#[test]
fn a_file_name_is_audio_exactly_when_its_extension_is() {
    assert!(is_audio("track.M4A"));
    assert!(is_audio("a.b.mp3"));
    assert!(!is_audio(".mp3"));
    assert!(!is_audio("mp3"));
    assert!(!is_audio("song.mp3.txt"));
    assert!(is_audio("music/album.flac/"));
}

#[test]
fn the_visualizer_starts_its_capture_once() {
    let mut v = Visualizer::new();
    assert!(!v.is_enabled());
    assert!(v.set_enabled(true));
    assert!(v.is_enabled());
    assert!(!v.set_enabled(false));
    assert!(!v.set_enabled(true));
}
