use limusic::art::{
    canvas_from_field, canvas_from_text, canvas_urls, full_res_artwork, lookup_key, LookupCache,
    CACHE_CAP,
};

#[test]
fn a_stored_answer_reads_back() {
    let mut c = LookupCache::new();
    assert_eq!(c.cache_get("a|b"), None);
    c.cache_put("a|b".to_string(), Some("https://art".to_string()));
    c.cache_put("c|d".to_string(), None);
    assert_eq!(c.cache_get("a|b"), Some(Some("https://art".to_string())));
    // A certain miss is an answer too.
    assert_eq!(c.cache_get("c|d"), Some(None));
    // Storing again replaces.
    c.cache_put("a|b".to_string(), Some("https://other".to_string()));
    assert_eq!(c.cache_get("a|b"), Some(Some("https://other".to_string())));
}

#[test]
fn the_least_recently_used_entry_leaves_first() {
    let mut c = LookupCache::new();
    for i in 0..CACHE_CAP {
        c.cache_put(format!("k{i}"), None);
    }
    // Touch the oldest so it becomes the newest.
    assert_eq!(c.cache_get("k0"), Some(None));
    c.cache_put("new".to_string(), Some("x".to_string()));
    assert_eq!(c.cache_get("k0"), Some(None));
    assert_eq!(c.cache_get("k1"), None);
    assert_eq!(c.cache_get("new"), Some(Some("x".to_string())));
}

#[test]
fn keys_are_lowercased_artist_and_title() {
    assert_eq!(lookup_key("Daft Punk", "One More Time"), "daft punk|one more time");
}

#[test]
fn artwork_urls_are_upgraded_to_full_size() {
    assert_eq!(
        full_res_artwork("https://is1.mzstatic.com/a/100x100bb.jpg"),
        "https://is1.mzstatic.com/a/100000x100000-999.jpg"
    );
    assert_eq!(full_res_artwork("https://x/y.jpg"), "https://x/y.jpg");
}

#[test]
fn canvas_answers_must_be_web_addresses() {
    assert_eq!(canvas_from_field("  https://c/v.mp4 "), Some("https://c/v.mp4".to_string()));
    assert_eq!(canvas_from_field("http://c/v"), Some("http://c/v".to_string()));
    assert_eq!(canvas_from_field("ftp://c/v.mp4"), None);
    assert_eq!(canvas_from_field("   "), None);
    assert_eq!(canvas_from_text("\"https://c/canvas/1\"\n"), Some("https://c/canvas/1".to_string()));
    assert_eq!(canvas_from_text("https://c/v.mp4"), Some("https://c/v.mp4".to_string()));
    assert_eq!(canvas_from_text("https://c/v.webm"), None);
    assert_eq!(canvas_from_text("http://c/v.mp4"), None);
}

#[test]
fn canvas_lookups_encode_artist_and_title() {
    let urls = canvas_urls("AC/DC", "Back in Black");
    assert_eq!(urls[0], "https://api.simpmusic.org/canvas?artist=AC%2FDC&title=Back%20in%20Black");
    assert_eq!(urls[1], "https://api.simpmusic.org/spotify/canvas?artist=AC%2FDC&track=Back%20in%20Black");
}
