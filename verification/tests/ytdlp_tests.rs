use limusic::ytdlp::{check_download_size, update_due, ReadyStep, YtDlpRunFlag, UPDATE_INTERVAL_SECS};

#[test]
fn the_binary_updates_every_three_days() {
    assert!(update_due(None, Some(10)));
    assert!(update_due(Some("garbage"), Some(10)));
    assert!(update_due(Some("100"), None));
    assert!(!update_due(Some(" 100\n"), Some(100 + UPDATE_INTERVAL_SECS - 1)));
    assert!(update_due(Some("100"), Some(100 + UPDATE_INTERVAL_SECS)));
    // A stamp from the future counts as no time passed.
    assert!(!update_due(Some("5000"), Some(10)));
}

#[test]
fn a_tiny_download_is_refused() {
    assert_eq!(check_download_size(2_000_000), Ok(()));
    assert_eq!(
        check_download_size(512),
        Err("yt-dlp download suspiciously small (512 bytes) \u{2014} aborting".to_string())
    );
}

#[test]
fn only_one_install_runs_at_a_time() {
    let mut g = YtDlpRunFlag::new();
    assert_eq!(g.try_begin(false), ReadyStep::Disabled);
    assert_eq!(g.try_begin(true), ReadyStep::Run);
    assert_eq!(g.try_begin(true), ReadyStep::AlreadyBusy);
    g.finish(&Err("boom".to_string()));
    assert_eq!(g.last_error(), Some("boom".to_string()));
    assert_eq!(g.try_begin(true), ReadyStep::Run);
    g.finish(&Ok(()));
    assert_eq!(g.last_error(), None);
}
