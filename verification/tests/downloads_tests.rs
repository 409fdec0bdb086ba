use limusic::downloads::{video_id_prefix, download_target};
use limusic::db::Db;
use limusic::downloads::{begin_download, delete_track, finish_download, DownloadStart};
use limusic::downloads::{
    cancel_all_downloads, cancel_download, download_base_name, download_file_name,
    download_format, download_part_name, download_quality, name_taken, progress_due,
    sanitize_filename, with_ratebypass, DownloadRegistry,
};

#[test]
fn filenames_lose_reserved_and_control_characters() {
    assert_eq!(sanitize_filename("  AC/DC: Back in Black?  "), "ACDC Back in Black");
    assert_eq!(sanitize_filename("a\u{0}b\tc"), "abc");
    assert_eq!(sanitize_filename(&"x".repeat(300)).chars().count(), 180);
    assert_eq!(sanitize_filename("日本語 ok"), "日本語 ok");
}

#[test]
fn download_names_read_title_dash_artist() {
    assert_eq!(download_base_name(" Song ", " Band ", "vid12345678"), "Song - Band");
    assert_eq!(download_base_name("Song", "   ", "vid"), "Song");
    assert_eq!(download_base_name("///", "", "vid12345678"), "vid12345678");
    assert_eq!(download_file_name("Song - Band", "m4a", "abcdefgh", false), "Song - Band.m4a");
    assert_eq!(download_file_name("Song - Band", "m4a", "abcdefgh", true), "Song - Band [abcdefgh].m4a");
    assert_eq!(download_part_name("Song", "opus", "abcdefgh"), ".Song.abcdefgh.opus.part");
}

#[test]
fn a_taken_name_gets_the_id_suffix() {
    assert!(name_taken(Some("other"), "mine", false));
    assert!(!name_taken(Some("mine"), "mine", true));
    assert!(name_taken(None, "mine", true));
    assert!(!name_taken(None, "mine", false));
}

#[test]
fn format_and_quality_settings_fall_back() {
    assert_eq!(download_format(Some("opus")), "opus");
    assert_eq!(download_format(Some("webm")), "webm");
    assert_eq!(download_format(Some("mp3")), "m4a");
    assert_eq!(download_format(None), "m4a");
    assert_eq!(download_quality(Some("LOW")), "LOW");
    assert_eq!(download_quality(Some("AUTO")), "AUTO");
    assert_eq!(download_quality(Some("low")), "HIGH");
    assert_eq!(download_quality(None), "HIGH");
}

#[test]
fn googlevideo_urls_get_ratebypass_once() {
    assert_eq!(
        with_ratebypass("https://r1.googlevideo.com/videoplayback?id=1"),
        "https://r1.googlevideo.com/videoplayback?id=1&ratebypass=yes"
    );
    assert_eq!(
        with_ratebypass("https://r1.googlevideo.com/videoplayback"),
        "https://r1.googlevideo.com/videoplayback?ratebypass=yes"
    );
    assert_eq!(
        with_ratebypass("https://r1.googlevideo.com/v?ratebypass=yes"),
        "https://r1.googlevideo.com/v?ratebypass=yes"
    );
    assert_eq!(with_ratebypass("https://example.com/a"), "https://example.com/a");
}

#[test]
fn progress_is_throttled_except_at_the_end() {
    assert!(!progress_due(50, 10, 100));
    assert!(progress_due(100, 10, 100));
    assert!(progress_due(0, 100, 100));
}

#[test]
fn cancelling_a_live_download_raises_its_flag() {
    let mut reg = DownloadRegistry::new();
    reg.register("a");
    assert!(!reg.is_cancelled("a"));
    assert!(cancel_download(&mut reg, "a"));
    assert!(reg.is_cancelled("a"));
    reg.unregister("a");
    assert!(!reg.is_cancelled("a"));
}

#[test]
fn cancelling_a_queued_track_skips_it_once() {
    let mut reg = DownloadRegistry::new();
    assert!(!cancel_download(&mut reg, "q"));
    assert!(reg.skip_in_batch("q"));
    assert!(!reg.skip_in_batch("q"));
    assert!(!reg.take_request("q"));
}

#[test]
fn cancel_all_stops_live_and_queued_work() {
    let mut reg = DownloadRegistry::new();
    reg.register("a");
    reg.register("b");
    cancel_download(&mut reg, "q");
    assert_eq!(cancel_all_downloads(&mut reg), 3);
    assert!(reg.is_cancelled("a") && reg.is_cancelled("b"));
    assert!(reg.skip_in_batch("anything"));
    reg.begin_batch();
    assert!(!reg.skip_in_batch("anything"));
}

#[test]
fn a_download_starts_once_and_lands_in_the_catalogue() {
    let mut db = Db::new();
    let mut reg = DownloadRegistry::new();
    assert!(matches!(begin_download(&db, &mut reg, "v1"), DownloadStart::Go));
    assert!(cancel_download(&mut reg, "v1"), "it is live, so the cancel raises its flag");
    assert!(reg.is_cancelled("v1"));
    db.set_setting("download_quality", "LOW");
    let rec = finish_download(
        &mut db, &mut reg, "v1", "/d/Song - Band.m4a", "Song", "Band", None, 200, None, "m4a", 1_234, 77,
    );
    assert_eq!(rec.quality, "LOW");
    assert_eq!(rec.size_bytes, 1_234);
    assert!(!reg.is_cancelled("v1"), "it left the live set");
    assert!(matches!(begin_download(&db, &mut reg, "v1"), DownloadStart::AlreadyDownloaded));
    assert_eq!(delete_track(&mut db, "v1").as_deref(), Some("/d/Song - Band.m4a"));
    assert_eq!(delete_track(&mut db, "v1"), None);
    // A cancel that arrives while the track is still queued ends it at the start.
    assert!(!cancel_download(&mut reg, "v2"));
    assert!(matches!(begin_download(&db, &mut reg, "v2"), DownloadStart::Cancelled));
    assert!(matches!(begin_download(&db, &mut reg, "v2"), DownloadStart::Go), "the request was drained");
}

#[test]
fn the_id_tag_is_the_first_eight_bytes_of_the_video_id() {
    assert_eq!(video_id_prefix("dQw4w9WgXcQ"), "dQw4w9Wg");
    assert_eq!(video_id_prefix("abc"), "abc");
    assert_eq!(video_id_prefix("\u{e9}\u{e9}\u{e9}\u{e9}\u{e9}"), "\u{e9}\u{e9}\u{e9}\u{e9}");
}

#[test]
fn a_taken_name_gets_the_id_tag_in_the_download_dir() {
    let sep = std::path::MAIN_SEPARATOR;
    let (file, part) = download_target("/dl", " Song ", "Artist", "dQw4w9WgXcQ", "m4a", true);
    assert_eq!(file, format!("/dl{sep}Song - Artist [dQw4w9Wg].m4a"));
    assert_eq!(part, format!("/dl{sep}.Song - Artist.dQw4w9Wg.m4a.part"));
    let (file, _) = download_target("/dl", "Song", "", "dQw4w9WgXcQ", "opus", false);
    assert_eq!(file, format!("/dl{sep}Song.opus"));
}

#[test]
fn a_batch_runs_at_most_four_downloads_at_once() {
    let mut w = limusic::downloads::DownloadWindow::new();
    let started: Vec<bool> = (0..6).map(|_| w.try_start()).collect();
    assert_eq!(started, vec![true, true, true, true, false, false]);
    assert_eq!(w.running(), 4);
    w.finish();
    assert_eq!(w.running(), 3);
    assert!(w.try_start());
    assert!(!w.try_start());
}
