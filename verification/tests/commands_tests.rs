use limusic::commands::{
    check_setting_key, close_hides, cover_key, duration_secs, is_ui_setting, on_unless_false,
    release_notes_from, synced_key, visible_settings, GitHubRelease,
};

#[test]
fn parses_every_shape_the_ui_sends() {
    assert_eq!(duration_secs(Some("3:21")), 201);
    assert_eq!(duration_secs(Some("1:02:03")), 3723);
    assert_eq!(duration_secs(Some("45")), 45);
    // Garbage and absences are catalogue metadata only — zero, never an error.
    assert_eq!(duration_secs(None), 0);
    assert_eq!(duration_secs(Some("")), 0);
    assert_eq!(duration_secs(Some("not:a:time")), 0);
    assert_eq!(
        duration_secs(Some("3:xx")),
        3,
        "parseable segments still count"
    );
}

#[test]
fn close_hides_unless_explicitly_disabled() {
    assert!(close_hides(None)); // fresh install → tray on
    assert!(close_hides(Some("true")));
    assert!(close_hides(Some("garbage")));
    assert!(!close_hides(Some("false")));
}

#[test]
fn default_on_switches_read_only_false_as_off() {
    assert!(on_unless_false(None));
    assert!(on_unless_false(Some("")));
    assert!(on_unless_false(Some("FALSE")));
    assert!(!on_unless_false(Some("false")));
}

#[test]
fn only_allowlisted_settings_cross_to_the_ui() {
    assert!(is_ui_setting("proxy"));
    assert!(is_ui_setting("close_to_tray"));
    assert!(!is_ui_setting("session_cookie"));
    assert!(!is_ui_setting("queue_json"));
    let all = vec![
        ("session_cookie".to_string(), "SAPISID=x".to_string()),
        ("proxy".to_string(), "socks5://h".to_string()),
        ("queue_json".to_string(), "[]".to_string()),
        ("autoplay".to_string(), "true".to_string()),
    ];
    let shown = visible_settings(all);
    assert_eq!(
        shown,
        vec![
            ("proxy".to_string(), "socks5://h".to_string()),
            ("autoplay".to_string(), "true".to_string()),
        ]
    );
}

#[test]
fn writing_an_unknown_setting_is_refused() {
    assert_eq!(check_setting_key("proxy"), Ok(()));
    assert_eq!(
        check_setting_key("session_cookie"),
        Err("unknown setting: session_cookie".to_string())
    );
}

#[test]
fn cover_keys_ignore_the_browse_prefix() {
    assert_eq!(cover_key("VLPL123"), "playlist_cover:PL123");
    assert_eq!(cover_key("PL123"), "playlist_cover:PL123");
    assert_eq!(synced_key("VLPL123"), "playlist_cover:PL123:synced");
}

#[test]
fn release_notes_skip_drafts_and_prereleases() {
    let rs = vec![
        GitHubRelease {
            tag_name: "v1.2.0".to_string(),
            body: Some("notes".to_string()),
            published_at: Some("2026-01-01T10:00:00Z".to_string()),
            draft: false,
            prerelease: false,
        },
        GitHubRelease {
            tag_name: "v1.3.0-beta".to_string(),
            body: None,
            published_at: None,
            draft: false,
            prerelease: true,
        },
        GitHubRelease {
            tag_name: "v1.4.0".to_string(),
            body: None,
            published_at: None,
            draft: true,
            prerelease: false,
        },
    ];
    let notes = release_notes_from(&rs);
    assert_eq!(notes.len(), 1);
    assert_eq!(notes[0].version, "1.2.0");
    assert_eq!(notes[0].date, "2026-01-01");
    assert_eq!(notes[0].body, "notes");
}

#[test]
fn apple_music_lyrics_tokens_can_be_saved() {
    assert_eq!(check_setting_key("lyrics_apple_media_token"), Ok(()));
    assert_eq!(check_setting_key("lyrics_apple_dev_token"), Ok(()));
    assert_eq!(check_setting_key("lyrics_apple_storefront"), Ok(()));
}

#[test]
fn the_word_timing_preference_can_be_saved() {
    assert_eq!(check_setting_key("lyrics_word_first"), Ok(()));
    assert!(is_ui_setting("lyrics_word_first"));
}
