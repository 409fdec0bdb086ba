use limusic::db::Db;
use limusic::settings::SettingsStore;

#[test]
fn auth_identity_projections_are_updated_and_cleared_together() {
    let mut d = Db::new();
    d.set_auth_identity(
        "SAPISID=cookie-a",
        r#"{"data_sync_id":"channel-a"}"#,
        Some("channel-a"),
        r#"{"name":"Channel A"}"#,
    );
    assert_eq!(d.get_setting("data_sync_id").as_deref(), Some("channel-a"));
    assert_eq!(
        d.get_setting("selected_identity_json").as_deref(),
        Some(r#"{"data_sync_id":"channel-a"}"#)
    );
    assert_eq!(
        d.get_setting("account_json").as_deref(),
        Some(r#"{"name":"Channel A"}"#)
    );
    assert_eq!(
        d.get_setting("session_cookie").as_deref(),
        Some("SAPISID=cookie-a")
    );

    d.set_pending_auth_selection("SAPISID=cookie-b");
    assert_eq!(
        d.get_setting("session_cookie").as_deref(),
        Some("SAPISID=cookie-b")
    );
    assert_eq!(d.get_setting("selected_identity_json"), None);
    assert_eq!(d.get_setting("data_sync_id"), None);
    assert_eq!(d.get_setting("account_json"), None);
    assert_eq!(
        d.get_setting("account_selection_pending").as_deref(),
        Some("true")
    );

    d.set_auth_identity(
        "SAPISID=cookie-b",
        r#"{"data_sync_id":null}"#,
        None,
        r#"{"name":"Single channel"}"#,
    );
    assert_eq!(
        d.get_setting("data_sync_id"),
        None,
        "a stale delegated id must be deleted"
    );
    assert_eq!(d.get_setting("account_selection_pending"), None);

    d.clear_auth_identity();
    assert_eq!(d.get_setting("selected_identity_json"), None);
    assert_eq!(d.get_setting("data_sync_id"), None);
    assert_eq!(d.get_setting("account_json"), None);
}

#[test]
fn settings_store_replace_and_delete() {
    let mut d = SettingsStore::new();
    assert_eq!(d.get_setting("volume"), None);
    d.set_setting("volume", "40");
    d.set_setting("volume", "55");
    d.set_setting("proxy", "");
    assert_eq!(d.get_setting("volume").as_deref(), Some("55"));
    assert_eq!(d.get_setting("proxy").as_deref(), Some(""));
    d.delete_setting("volume");
    d.delete_setting("never-set");
    assert_eq!(d.get_setting("volume"), None);
    assert_eq!(d.get_setting("proxy").as_deref(), Some(""));
}

#[test]
fn all_settings_lists_each_key_once() {
    let mut d = Db::new();
    d.set_setting("volume", "40");
    d.set_setting("proxy", "");
    d.set_setting("volume", "41");
    let mut all = d.all_settings();
    all.sort();
    assert_eq!(
        all,
        vec![("proxy".to_string(), String::new()), ("volume".to_string(), "41".to_string())]
    );
}
