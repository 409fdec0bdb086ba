use limusic::db::{CachedStream, Db};
use limusic::downloads::{is_downloaded, DownloadTrack};
use limusic::waveform::{bar_count, cached_peaks, store_peaks, WAVEFORM_BARS};
use limusic::lyrics::{
    finish_fetched_lyrics, get_offset, lookup_cached_lyrics, serve_with_offset, set_offset,
    CacheLookup, LyricLine, Lyrics, MISS_TTL_SECS,
};

fn db() -> Db {
    Db::new()
}

fn track(id: &str, path: &str, size: i64, added_at: i64) -> DownloadTrack {
    DownloadTrack {
        video_id: id.to_string(),
        file_path: path.to_string(),
        title: format!("title {id}"),
        artists: "artist".to_string(),
        album: None,
        duration: 200,
        thumb: None,
        quality: "high".to_string(),
        format: "m4a".to_string(),
        size_bytes: size,
        added_at,
    }
}

#[test]
fn top_plays_ranks_by_count_then_recency_and_carries_the_latest_metadata() {
    let mut d = db();
    // "a" twice, "b" three times, "c" once but most recently, "old" outside the window.
    for (id, json, at) in [
        ("old", "{\"old\":1}", 100),
        ("a", "{\"a\":1}", 1_000),
        ("a", "{\"a\":2}", 1_100),
        ("b", "{\"b\":1}", 1_000),
        ("b", "{\"b\":2}", 1_050),
        ("b", "{\"b\":3}", 1_060),
        ("c", "{\"c\":1}", 2_000),
    ] {
        // A window wide enough that inserting doesn't prune what the next row needs; the
        // "old" row is excluded by `since` below instead.
        d.record_play(id, json, at, 10_000);
    }

    let top = d.top_plays(900, 20);
    assert_eq!(
        top,
        vec![
            ("{\"b\":3}".into(), 3), // most plays
            ("{\"a\":2}".into(), 2), // latest json wins for a song, not the first
            ("{\"c\":1}".into(), 1), // ties on count break toward the recent play
        ],
        "'old' is outside the window and must not appear"
    );
    assert_eq!(d.top_plays(900, 2).len(), 2, "limit applies");
}

#[test]
fn record_play_prunes_outside_the_window() {
    let mut d = db();
    d.record_play("stale", "{}", 1_000, 60);
    d.record_play("fresh", "{}", 5_000, 60); // prunes anything before 4_940
    assert_eq!(d.top_plays(0, 20), vec![("{}".to_string(), 1)]);
}

#[test]
fn dropping_local_plays_keeps_only_streamed_songs() {
    let mut d = db();
    d.record_play("LOCAL:/music/a.mp3", "{\"local\":1}", 1_000, 10_000);
    d.record_play("local:/music/b.mp3", "{\"local\":2}", 1_001, 10_000);
    d.record_play("dQw4w9WgXcQ", "{\"yt\":1}", 1_000, 10_000);
    assert_eq!(d.top_plays(0, 20).len(), 3, "all were recorded");
    d.drop_local_plays();
    assert_eq!(d.top_plays(0, 20), vec![("{\"yt\":1}".to_string(), 1)]);
}

#[test]
fn a_negative_window_keeps_not_even_the_new_play() {
    let mut d = db();
    d.record_play("a", "{}", 1_000, 10_000);
    d.record_play("b", "{}", 1_000, -1);
    assert!(d.top_plays(0, 20).is_empty());
}

#[test]
fn recent_plays_are_newest_first_with_duplicates() {
    let mut d = db();
    d.record_play("a", "{\"a\":1}", 100, 10_000);
    d.record_play("b", "{\"b\":1}", 300, 10_000);
    d.record_play("a", "{\"a\":2}", 200, 10_000);
    d.record_play("c", "{\"c\":1}", 300, 10_000);
    assert_eq!(
        d.recent_plays(10),
        vec![
            (300, "{\"c\":1}".to_string()), // same time: the later row first
            (300, "{\"b\":1}".to_string()),
            (200, "{\"a\":2}".to_string()),
            (100, "{\"a\":1}".to_string()),
        ]
    );
    assert_eq!(d.recent_plays(2).len(), 2);
    assert_eq!(d.recent_plays(-1).len(), 4, "a negative limit means no limit");
    d.clear_plays();
    assert!(d.recent_plays(-1).is_empty());
}

#[test]
fn play_counts_group_per_song_inside_the_window() {
    let mut d = db();
    d.record_play("a", "{}", 100, 10_000);
    d.record_play("b", "{}", 300, 10_000);
    d.record_play("a", "{}", 400, 10_000);
    d.record_play("a", "{}", 500, 10_000);
    assert_eq!(
        d.play_counts(0),
        vec![("a".to_string(), 3), ("b".to_string(), 1)]
    );
    assert_eq!(
        d.play_counts(350),
        vec![("a".to_string(), 2)]
    );
}

#[test]
fn lyric_offsets_read_back_and_zero_clears() {
    let mut d = db();
    assert_eq!(get_offset(&d, "vid"), 0);
    set_offset(&mut d, "vid", -250);
    assert_eq!(get_offset(&d, "vid"), -250);
    assert_eq!(d.get_lyric_offset("other"), 0);
    d.set_lyric_offset("vid", 400);
    assert_eq!(get_offset(&d, "vid"), 400);
    set_offset(&mut d, "vid", 0);
    assert_eq!(get_offset(&d, "vid"), 0);
}

#[test]
fn cached_misses_expire_but_hits_do_not() {
    let mut d = db();
    assert_eq!(d.get_lyrics("vid", 1_000, 60), None);
    d.put_lyrics("vid", None, 1_000);
    assert_eq!(d.get_lyrics("vid", 1_060, 60), Some(None), "still fresh at the boundary");
    assert_eq!(d.get_lyrics("vid", 1_061, 60), None, "stale miss: refetch");
    d.put_lyrics("vid", Some("{\"lines\":[]}"), 1_000);
    assert_eq!(
        d.get_lyrics("vid", 1_000_000, 60),
        Some(Some("{\"lines\":[]}".to_string()))
    );
}

#[test]
fn the_catalogue_answers_paths_ids_and_totals() {
    let mut d = db();
    assert!(!is_downloaded(&d, "a"));
    d.put_download(&track("a", "/m/a.m4a", 1_000, 10));
    d.put_download(&track("b", "/m/b.m4a", 2_500, 30));
    d.put_download(&track("c", "/m/c.m4a", 500, 20));
    assert!(is_downloaded(&d, "a"));
    assert_eq!(d.download_path("b").as_deref(), Some("/m/b.m4a"));
    assert_eq!(d.video_id_for_path("/m/c.m4a").as_deref(), Some("c"));
    assert_eq!(d.video_id_for_path("/m/x.m4a"), None);
    assert_eq!(d.downloads_total_bytes(), 4_000);
    let ids: Vec<String> = d.list_downloads().into_iter().map(|t| t.video_id).collect();
    assert_eq!(ids, vec!["b", "c", "a"], "newest first");
    d.put_download(&track("a", "/m/a2.m4a", 100, 40));
    assert_eq!(d.download_path("a").as_deref(), Some("/m/a2.m4a"));
    assert_eq!(d.downloads_total_bytes(), 3_100);
    d.delete_download("b");
    assert!(!is_downloaded(&d, "b"));
    assert_eq!(d.list_downloads().len(), 2);
}

#[test]
fn an_overflowing_total_reads_as_zero() {
    let mut d = db();
    d.put_download(&track("a", "/m/a", i64::MAX, 1));
    d.put_download(&track("b", "/m/b", 1, 2));
    assert_eq!(d.downloads_total_bytes(), 0);
}

#[test]
fn the_lyrics_cache_decides_before_any_provider_is_asked() {
    let mut d = db();
    assert!(matches!(lookup_cached_lyrics(&d, "v", 1_000), CacheLookup::Fetch));
    // A clean "nothing exists" run is cached as a miss ...
    assert!(finish_fetched_lyrics(&mut d, "v", None, None, true, 1_000).is_none());
    assert!(matches!(lookup_cached_lyrics(&d, "v", 1_000 + MISS_TTL_SECS), CacheLookup::KnownMissing));
    // ... that expires.
    assert!(matches!(lookup_cached_lyrics(&d, "v", 1_001 + MISS_TTL_SECS), CacheLookup::Fetch));
    // A run with transient trouble is not cached at all.
    finish_fetched_lyrics(&mut d, "w", None, None, false, 1_000);
    assert!(matches!(lookup_cached_lyrics(&d, "w", 1_000), CacheLookup::Fetch));
    // Found lyrics are stored as given.
    finish_fetched_lyrics(&mut d, "x", None, Some("{}"), true, 5);
    match lookup_cached_lyrics(&d, "x", 1_000_000) {
        CacheLookup::Cached(t) => assert_eq!(t, "{}"),
        _ => panic!("expected a cached answer"),
    }
}

#[test]
fn served_lyrics_carry_the_stored_offset() {
    let mut d = db();
    let make = || Lyrics {
        source: "LRCLIB".to_string(),
        synced: true,
        instrumental: false,
        lines: vec![LyricLine {
            time_ms: Some(1_000),
            end_time_ms: None,
            text: "hi".to_string(),
            words: None,
            translation: None,
        }],
    };
    let same = serve_with_offset(&d, "v", make());
    assert_eq!(same.lines[0].time_ms, Some(1_000));
    set_offset(&mut d, "v", 250);
    let later = serve_with_offset(&d, "v", make());
    assert_eq!(later.lines[0].time_ms, Some(1_250));
    set_offset(&mut d, "v", -5_000);
    let clamped = serve_with_offset(&d, "v", make());
    assert_eq!(clamped.lines[0].time_ms, Some(0));
}

#[test]
fn votes_are_clamped_and_kept_per_source() {
    let mut d = db();
    assert_eq!(d.get_lyric_vote("v", "LRCLIB"), None);
    assert_eq!(limusic::lyrics::vote_lyrics(&mut d, "v", "LRCLIB", 5), 1);
    assert_eq!(limusic::lyrics::vote_lyrics(&mut d, "v", "Musixmatch", -9), -1);
    assert_eq!(d.get_lyric_vote("v", "LRCLIB"), Some(1));
    assert_eq!(d.get_lyric_vote("v", "Musixmatch"), Some(-1));
    limusic::lyrics::report_lyrics(&mut d, "v", "LRCLIB");
    assert_eq!(d.get_lyric_vote("v", "LRCLIB"), Some(-1));
    assert_eq!(d.get_lyric_vote("w", "LRCLIB"), None);
    assert_eq!(limusic::lyrics::vote_lyrics(&mut d, "w", "LRCLIB", 0), 0);
    assert_eq!(d.get_lyric_vote("w", "LRCLIB"), Some(0));
}

#[test]
fn waveforms_are_served_from_the_store_at_the_asked_width() {
    let mut d = db();
    assert_eq!(bar_count(None), WAVEFORM_BARS);
    assert_eq!(bar_count(Some(3)), 24);
    assert_eq!(bar_count(Some(1_000)), 240);
    assert_eq!(cached_peaks(&d, "v", None), None);
    let peaks: Vec<u8> = (0..120u32).map(|i| (i * 2) as u8).collect();
    let wide = store_peaks(&mut d, "v", &peaks, Some(240));
    assert_eq!(wide.len(), 240);
    assert_eq!(wide[1], 0);
    assert_eq!(wide[2], 2);
    assert_eq!(d.get_waveform("v").map(|(b, n)| (b.len(), n)), Some((120, 120)));
    assert_eq!(cached_peaks(&d, "v", None), Some(peaks.clone()));
    assert_eq!(cached_peaks(&d, "v", Some(24)).map(|p| p.len()), Some(24));
    d.put_waveform("empty", &[], 120);
    assert_eq!(cached_peaks(&d, "empty", None), None, "an empty store is recomputed");
}

fn stream_url(c: &Option<CachedStream>) -> Option<String> {
    c.as_ref().map(|c| c.url.clone())
}

#[test]
fn stream_cache_serves_a_url_only_until_it_expires() {
    let mut d = db();
    d.put_stream("v1", "https://a/1", 251, 1000, Some((-7.5f64).to_bits()));
    let hit = d.get_stream("v1", 999);
    assert_eq!(stream_url(&hit), Some("https://a/1".to_string()));
    let hit = hit.unwrap();
    assert_eq!(hit.itag, 251);
    assert_eq!(hit.expires_at, 1000);
    assert_eq!(hit.loudness_bits.map(f64::from_bits), Some(-7.5));
    assert!(d.get_stream("v1", 1000).is_none());
    assert!(d.get_stream("v2", 0).is_none());
}

#[test]
fn stream_cache_replaces_evicts_and_clears_with_the_lyrics() {
    let mut d = db();
    d.put_stream("v1", "https://a/1", 251, 1000, None);
    d.put_stream("v1", "https://a/2", 140, 2000, None);
    assert_eq!(stream_url(&d.get_stream("v1", 1500)), Some("https://a/2".to_string()));
    d.put_stream("v2", "https://b/1", 251, 2000, None);
    d.evict_stream("v1");
    assert!(d.get_stream("v1", 0).is_none());
    assert_eq!(stream_url(&d.get_stream("v2", 0)), Some("https://b/1".to_string()));
    d.put_lyrics("v2", Some("[]"), 10);
    d.clear_stream_cache();
    assert!(d.get_stream("v2", 0).is_none());
    assert_eq!(d.get_lyrics("v2", 10, 120), None);
}

#[test]
fn sweeping_streams_drops_only_expired_urls() {
    let mut d = db();
    d.put_stream("old", "https://a/old", 251, 100, None);
    d.put_stream("new", "https://a/new", 251, 500, None);
    d.sweep_streams(100);
    assert!(d.get_stream("old", 0).is_none());
    assert_eq!(stream_url(&d.get_stream("new", 100)), Some("https://a/new".to_string()));
}

fn one_line(t: u64) -> Lyrics {
    Lyrics {
        source: "lrclib".to_string(),
        synced: true,
        instrumental: false,
        lines: vec![LyricLine { time_ms: Some(t), end_time_ms: None, text: "la".to_string(), words: None, translation: None }],
    }
}

#[test]
fn the_offset_is_applied_once_across_the_cache() {
    let mut d = db();
    set_offset(&mut d, "v", 500);
    let first = finish_fetched_lyrics(&mut d, "v", Some(one_line(1000)), Some("cached-text"), true, 10).unwrap();
    assert_eq!(first.lines[0].time_ms, Some(1500));
    match lookup_cached_lyrics(&d, "v", 1_000_000) {
        CacheLookup::Cached(t) => assert_eq!(t, "cached-text"),
        _ => panic!("expected a cache hit"),
    }
    let second = serve_with_offset(&d, "v", one_line(1000));
    assert_eq!(second.lines[0].time_ms, first.lines[0].time_ms);
}
