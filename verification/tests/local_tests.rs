use limusic::db::{Db, LocalTrack};
use limusic::local::{
    add_folder_to, album_id_of, album_key, album_page, finish_scan, font_file_check, to_song, fmt_duration, forget_missing, is_local_song,
    local_playback, playback_data, playback_if_found, remove_folder_from, song_id, song_path,
};

#[test]
fn album_key_is_stable_and_filename_safe() {
    let k = album_key("Daft Punk", "Discovery / Deluxe", None);
    assert_eq!(k, "daft-punk--discovery---deluxe");
    assert!(k.chars().all(|c| c.is_ascii_alphanumeric() || c == '-'));
    assert_eq!(album_key("Daft Punk", "Discovery / Deluxe", None), k);
}

#[test]
fn durations_format_like_the_rest_of_the_app() {
    assert_eq!(fmt_duration(227), "3:47");
    assert_eq!(fmt_duration(4100), "1:08:20");
    assert_eq!(fmt_duration(5), "0:05");
}

#[test]
fn a_missing_file_is_not_playable() {
    assert!(playback_data("LOCAL:/nope/gone.mp3", "/nope/gone.mp3").is_err());
}

#[test]
fn a_local_file_plays_from_its_path() {
    let d = local_playback("LOCAL:/m/a.mp3", "/m/a.mp3");
    assert_eq!(d.stream_url, "/m/a.mp3");
    assert_eq!(d.video_id, "LOCAL:/m/a.mp3");
    assert_eq!(d.stream_client, "local");
    assert_eq!(d.expires_in_seconds, i64::MAX / 2);
    assert_eq!(d.itag, 0);
    assert!(d.headers.is_empty());
}

#[test]
fn local_ids_round_trip() {
    assert!(is_local_song("LOCAL:/m/a.mp3"));
    assert!(!is_local_song("dQw4w9WgXcQ"));
    assert_eq!(song_path("LOCAL:/m/a b.mp3"), Some("/m/a b.mp3"));
    assert_eq!(song_path("dQw4w9WgXcQ"), None);
    assert_eq!(song_id("/m/a.mp3"), "LOCAL:/m/a.mp3");
    assert_eq!(album_id_of("band--album"), "LOCALALBUM:band--album");
}

#[test]
fn album_key_falls_back_to_the_folder_and_caps_length() {
    assert_eq!(album_key("X", "", Some("/Music/Rock")), "-music-rock");
    assert_eq!(album_key("X", "", None), "unknown");
    let long = "a".repeat(200);
    assert_eq!(album_key(&long, "b", None).len(), 80);
}

#[test]
fn negative_and_hour_durations() {
    assert_eq!(fmt_duration(0), "0:00");
    assert_eq!(fmt_duration(3600), "1:00:00");
    assert_eq!(fmt_duration(-65), "-1:-5");
}

#[test]
fn folders_ignore_nesting_in_both_directions() {
    let list: Vec<String> = Vec::new();
    let list = add_folder_to(list, "/music".into());
    let list = add_folder_to(list, "/music/rock".into());
    assert_eq!(list, vec!["/music".to_string()]);
    let list = add_folder_to(list, "/other/jazz".into());
    let list = add_folder_to(list, "/other".into());
    assert_eq!(list, vec!["/music".to_string(), "/other".to_string()]);
    let list = remove_folder_from(list, "/music");
    assert_eq!(list, vec!["/other".to_string()]);
}

fn lt(path: &str, album: &str, key: &str, track_no: i64, title: &str) -> LocalTrack {
    LocalTrack {
        path: path.into(),
        title: title.into(),
        artist: "Band".into(),
        album: album.into(),
        album_key: key.into(),
        track_no,
        duration_secs: 10,
        cover: None,
        mtime: 1,
    }
}

#[test]
fn forgetting_one_file_only_reports_the_album_when_it_empties() {
    let mut db = Db::new();
    let track = |path: &str, key: &str| LocalTrack {
        path: path.into(),
        title: path.into(),
        artist: "Band".into(),
        album: "Album".into(),
        album_key: key.into(),
        track_no: 1,
        duration_secs: 10,
        cover: None,
        mtime: 1,
    };
    db.put_local_track(&track("/m/a.mp3", "band--album"));
    db.put_local_track(&track("/m/b.mp3", "band--album"));

    assert_eq!(
        forget_missing(&mut db, "/m/a.mp3"),
        vec!["LOCAL:/m/a.mp3".to_string()],
        "the album still has a track, so only the song id is reported"
    );
    assert_eq!(
        forget_missing(&mut db, "/m/b.mp3"),
        vec!["LOCAL:/m/b.mp3".to_string(), "LOCALALBUM:band--album".to_string()],
        "the last track takes the album with it"
    );
    assert!(db.local_tracks(None).is_empty(), "and both rows are gone");
    assert!(forget_missing(&mut db, "/m/a.mp3").len() == 1, "forgetting twice is harmless");
}

#[test]
fn a_rescan_reports_songs_and_albums_that_left() {
    let mut db = Db::new();
    db.put_local_tracks(&[
        lt("/m/a.mp3", "one", "band--one", 1, "a"),
        lt("/m/b.mp3", "two", "band--two", 1, "b"),
        lt("/m/c.mp3", "two", "band--two", 2, "c"),
    ]);
    let before = vec!["band--one".to_string(), "band--two".to_string()];
    let found = vec!["/m/c.mp3".to_string()];
    let mut removed = finish_scan(&mut db, &before, &found);
    removed.sort();
    assert_eq!(
        removed,
        vec![
            "LOCAL:/m/a.mp3".to_string(),
            "LOCAL:/m/b.mp3".to_string(),
            "LOCALALBUM:band--one".to_string(),
        ]
    );
    assert_eq!(db.local_tracks(None).len(), 1);
    let before = vec!["band--two".to_string()];
    assert!(finish_scan(&mut db, &before, &found).is_empty(), "a second scan reports nothing");
}

#[test]
fn the_local_library_lists_in_album_order() {
    let mut db = Db::new();
    db.put_local_track(&lt("/m/3.mp3", "Beta", "k-b", 1, "x"));
    db.put_local_track(&lt("/m/2.mp3", "Alpha", "k-a", 2, "b"));
    db.put_local_track(&lt("/m/1.mp3", "Alpha", "k-a", 2, "a"));
    db.put_local_track(&lt("/m/0.mp3", "Alpha", "k-a", 1, "z"));
    let paths: Vec<String> = db.local_tracks(None).into_iter().map(|t| t.path).collect();
    assert_eq!(paths, vec!["/m/0.mp3", "/m/1.mp3", "/m/2.mp3", "/m/3.mp3"]);
    let alpha = db.local_tracks(Some("k-a"));
    assert_eq!(alpha.len(), 3);
    assert_eq!(db.local_album_key("/m/3.mp3").as_deref(), Some("k-b"));
    assert_eq!(db.local_album_key("/m/9.mp3"), None);
    let mut mtimes = db.local_mtimes();
    mtimes.sort();
    assert_eq!(mtimes.len(), 4);
    assert_eq!(mtimes[0], ("/m/0.mp3".to_string(), 1));
    db.delete_local_tracks(&["/m/0.mp3".to_string(), "/m/none.mp3".to_string()]);
    assert_eq!(db.local_tracks(None).len(), 3);
}

#[test]
fn a_local_album_page_counts_songs_and_time() {
    let mut db = Db::new();
    let mut t1 = lt("/m/1.mp3", "Album", "band--album", 1, "one");
    t1.duration_secs = 125;
    t1.cover = Some("/c/album.jpg".into());
    let mut t2 = lt("/m/2.mp3", "Album", "band--album", 2, "two");
    t2.duration_secs = 3_600;
    db.put_local_track(&t2);
    db.put_local_track(&t1);
    db.put_local_track(&lt("/m/x.mp3", "Other", "band--other", 1, "x"));
    let page = album_page(&db, "band--album");
    assert_eq!(page.title.as_deref(), Some("Album"));
    assert_eq!(page.artist.as_deref(), Some("Band"));
    assert_eq!(page.subtitle, "On this device");
    assert_eq!(page.second_subtitle, "2 songs \u{2022} 1:02:05");
    assert_eq!(page.thumbnail.as_deref(), Some("/c/album.jpg"));
    assert_eq!(page.items.len(), 2);
    assert_eq!(page.items[0].video_id, "LOCAL:/m/1.mp3");
    assert_eq!(page.items[0].duration.as_deref(), Some("2:05"));
    assert_eq!(page.items[0].album_id.as_deref(), Some("LOCALALBUM:band--album"));
    let one = album_page(&db, "band--other");
    assert_eq!(one.second_subtitle, "1 song \u{2022} 0:10");
    let none = album_page(&db, "nothing");
    assert_eq!(none.title, None);
    assert_eq!(none.second_subtitle, "0 songs \u{2022} 0:00");
    let s = to_song(&lt("/m/z.mp3", "A", "k", 1, "z"));
    assert_eq!(s.title, "z");
}

#[test]
fn only_existing_font_files_are_served() {
    assert_eq!(font_file_check("/fonts/readme").err().as_deref(), Some("not a font file: /fonts/readme"));
    assert_eq!(font_file_check("/fonts/a.png").err().as_deref(), Some("not a font file: /fonts/a.png"));
    assert_eq!(
        font_file_check("/no/such/dir/Inter.WOFF2").err().as_deref(),
        Some("font file not found: /no/such/dir/Inter.WOFF2")
    );
}

#[test]
fn a_local_file_plays_only_while_it_is_there() {
    assert!(playback_if_found(false, "LOCAL:x", "/m/x.mp3").is_err());
    let d = playback_if_found(true, "LOCAL:x", "/m/x.mp3").expect("found");
    assert_eq!(d.stream_url, "/m/x.mp3");
    assert_eq!(d.video_id, "LOCAL:x");
    assert_eq!(d.stream_client, "local");
}
