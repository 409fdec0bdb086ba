use limusic::artist_packs::{pack_entry_target};
use limusic::artist_packs::{get_pack, install_pack, list_packs, read_pack_entries, remove_pack, PackEntry};
use limusic::db::Db;
use limusic::artist_packs::{
    is_pack_url, pack_dir_name, pack_file_kind, pack_from_meta, packs_dir_for, ArtistJson,
    PackFile,
};

#[test]
fn pack_ids_become_safe_directory_names() {
    assert_eq!(pack_dir_name("../../etc/taylor-swift_v2!"), "etctaylor-swift_v2");
    let d = packs_dir_for("/data", "x/y");
    assert!(d == "/data/artist_packs/xy" || d == "/data\\artist_packs\\xy");
}

#[test]
fn only_web_urls_install() {
    assert!(is_pack_url("https://packs.example/a.zip"));
    assert!(is_pack_url("http://packs.example/a.zip"));
    assert!(!is_pack_url("file:///etc/passwd"));
}

#[test]
fn archive_entries_that_matter() {
    assert!(matches!(pack_file_kind("pack/artist.json"), PackFile::ArtistJson));
    assert!(matches!(pack_file_kind("style.css"), PackFile::StyleCss));
    assert!(matches!(pack_file_kind("img/cover.png"), PackFile::Other));
}

#[test]
fn an_install_records_the_metadata() {
    let meta = ArtistJson {
        id: "tswift".to_string(),
        name: "Taylor".to_string(),
        version: "1.0".to_string(),
        layout: Some("hero".to_string()),
        aliases: vec!["T".to_string()],
        artist_ids: vec!["UC1".to_string()],
        description: None,
    };
    let p = pack_from_meta(&meta, Some("body{}".to_string()), 42);
    assert_eq!(p.id, "tswift");
    assert_eq!(p.layout, Some("hero".to_string()));
    assert_eq!(p.style_css, Some("body{}".to_string()));
    assert_eq!(p.installed_at, 42);
    assert_eq!(p.aliases, vec!["T".to_string()]);
    assert!(p.thumbnail.is_none());
}

fn meta(id: &str) -> ArtistJson {
    ArtistJson {
        id: id.into(),
        name: format!("Pack {id}"),
        version: "1.0".into(),
        layout: None,
        aliases: vec!["alias".into()],
        artist_ids: vec!["UC1".into()],
        description: None,
    }
}

#[test]
fn an_archive_needs_an_artist_json_and_keeps_the_last_of_each() {
    let entry = |name: &str, text: &str, artist: Option<ArtistJson>| PackEntry {
        name: name.into(),
        text: text.into(),
        artist,
    };
    let got = read_pack_entries(vec![
        entry("pack/artist.json", "{}", Some(meta("first"))),
        entry("pack/style.css", "a{}", None),
        entry("pack/other/artist.json", "broken", None),
        entry("pack/more/style.css", "b{}", None),
        entry("pack/readme.txt", "", None),
    ]);
    let (m, css) = got.expect("metadata present");
    assert_eq!(m.id, "first", "an artist.json that did not parse leaves the earlier one");
    assert_eq!(css.as_deref(), Some("b{}"));
    let err = read_pack_entries(vec![entry("style.css", "x", None)]).err();
    assert_eq!(err.as_deref(), Some("ZIP missing artist.json"));
}

#[test]
fn installed_packs_are_listed_newest_first_and_removed_by_id() {
    let mut db = Db::new();
    let a = install_pack(&mut db, &meta("a"), Some("css".into()), 100);
    assert_eq!(a.style_css.as_deref(), Some("css"));
    install_pack(&mut db, &meta("b"), None, 300);
    install_pack(&mut db, &meta("c"), None, 200);
    let ids: Vec<String> = list_packs(&db).into_iter().map(|p| p.id).collect();
    assert_eq!(ids, vec!["b", "c", "a"]);
    assert_eq!(get_pack(&db, "c").map(|p| p.installed_at), Some(200));
    install_pack(&mut db, &meta("a"), None, 400);
    assert_eq!(list_packs(&db)[0].id, "a", "a reinstall replaces the row");
    assert_eq!(list_packs(&db).len(), 3);
    remove_pack(&mut db, "b");
    assert!(get_pack(&db, "b").is_none());
    assert_eq!(list_packs(&db).len(), 2);
}

#[test]
fn a_pack_dir_sits_under_artist_packs_with_a_safe_name() {
    let p = limusic::artist_packs::packs_dir_for("/data", "../evil/x");
    let sep = std::path::MAIN_SEPARATOR;
    assert_eq!(p, format!("/data{sep}artist_packs{sep}evilx"));
}

#[test]
fn archive_entries_cannot_leave_the_pack_dir() {
    let sep = std::path::MAIN_SEPARATOR;
    assert_eq!(pack_entry_target("/p", "style.css"), Some(format!("/p{sep}style.css")));
    assert_eq!(pack_entry_target("/p", "img/a..b.png"), Some(format!("/p{sep}img/a..b.png")));
    assert_eq!(pack_entry_target("/p", "../x"), None);
    assert_eq!(pack_entry_target("/p", "a/../../x"), None);
    assert_eq!(pack_entry_target("/p", "a\\..\\x"), None);
    assert_eq!(pack_entry_target("/p", "a/.."), None);
    assert_eq!(pack_entry_target("/p", "/etc/passwd"), None);
    assert_eq!(pack_entry_target("/p", "\\x"), None);
    assert_eq!(pack_entry_target("/p", "C:x"), None);
    assert_eq!(pack_entry_target("/p", ""), None);
}
