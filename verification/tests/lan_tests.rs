use limusic::lan::{remote_answer, RemoteAction, RemoteBody};
use limusic::lan::{
    extract_query, get_or_create_token, http_response, lan_url, pick_lan_ip, preflight_response,
    remote_volume, route, RemoteRoute,
};
use limusic::remote::{extract_token, is_authorized};

#[test]
fn a_stored_token_is_reused() {
    let (t, fresh) = get_or_create_token(Some("abc123"));
    assert_eq!(t, "abc123");
    assert!(!fresh);
}

#[test]
fn a_new_token_is_24_url_safe_characters() {
    for stored in [None, Some("")] {
        let (t, fresh) = get_or_create_token(stored);
        assert!(fresh);
        assert_eq!(t.len(), 24);
        assert!(t.chars().all(|c| c.is_ascii_alphanumeric() || c == '-' || c == '_'));
    }
    let (a, _) = get_or_create_token(None);
    let (b, _) = get_or_create_token(None);
    assert_ne!(a, b);
}

#[test]
fn the_pairing_url_carries_ip_port_and_token() {
    assert_eq!(lan_url("192.168.1.5", "tok"), "http://192.168.1.5:32145?token=tok");
    assert_eq!(pick_lan_ip(Some("192.168.1.5")), "192.168.1.5");
    assert_eq!(pick_lan_ip(Some("0.0.0.0")), "127.0.0.1");
    assert_eq!(pick_lan_ip(Some("127.0.1.1")), "127.0.0.1");
    assert_eq!(pick_lan_ip(None), "127.0.0.1");
}

#[test]
fn tokens_come_from_the_query_or_the_header() {
    assert_eq!(extract_token("GET /api/queue?token=abc&x=1 HTTP/1.1"), Some("abc".to_string()));
    assert_eq!(
        extract_token("POST /api/next HTTP/1.1\r\nX-Remote-Token: zz9\r\n\r\n"),
        Some("zz9".to_string())
    );
    assert_eq!(extract_token("GET /api/queue HTTP/1.1\r\n\r\n"), None);
    assert!(is_authorized("GET /pair HTTP/1.1", "secret"));
    assert!(is_authorized("GET /api/queue?token=secret HTTP/1.1", "secret"));
    assert!(!is_authorized("GET /api/queue?token=wrong HTTP/1.1", "secret"));
}

#[test]
fn requests_are_routed_by_endpoint() {
    let ok = "secret";
    assert!(matches!(route("OPTIONS /api/queue HTTP/1.1", ok), RemoteRoute::Preflight));
    assert!(matches!(route("GET /?token=secret HTTP/1.1", ok), RemoteRoute::Page(true)));
    assert!(matches!(route("GET / HTTP/1.1", ok), RemoteRoute::Page(false)));
    assert!(matches!(route("POST /pair?token=secret HTTP/1.1", ok), RemoteRoute::Pair(true)));
    assert!(matches!(route("POST /pair HTTP/1.1", ok), RemoteRoute::Pair(false)));
    assert!(matches!(route("POST /api/next HTTP/1.1", ok), RemoteRoute::Unauthorized));
    assert!(matches!(route("POST /api/next?token=secret HTTP/1.1", ok), RemoteRoute::Next));
    assert!(matches!(route("POST /api/prev?token=secret HTTP/1.1", ok), RemoteRoute::Prev));
    assert!(matches!(route("POST /api/toggle?token=secret HTTP/1.1", ok), RemoteRoute::Toggle));
    assert!(matches!(route("GET /api/queue?token=secret HTTP/1.1", ok), RemoteRoute::Queue));
    assert!(matches!(route("GET /api/playback?token=secret HTTP/1.1", ok), RemoteRoute::Playback));
    assert!(matches!(route("POST /api/play?token=secret HTTP/1.1", ok), RemoteRoute::Ack));
    assert!(matches!(route("POST /api/volup?token=secret HTTP/1.1", ok), RemoteRoute::Volume(true)));
    assert!(matches!(route("POST /api/voldown?token=secret HTTP/1.1", ok), RemoteRoute::Volume(false)));
    assert!(matches!(route("GET /api/nothing?token=secret HTTP/1.1", ok), RemoteRoute::NotFound));
    match route("GET /api/search?token=secret&q=daft%20punk HTTP/1.1", ok) {
        RemoteRoute::Search(q) => assert_eq!(q, "daft punk"),
        _ => panic!("expected a search"),
    }
}

#[test]
fn query_values_are_percent_decoded() {
    assert_eq!(extract_query("GET /x?q=a%20b HTTP/1.1", "q"), Some("a b".to_string()));
    assert_eq!(extract_query("GET /x?a=1&q=two+three HTTP/1.1", "q"), Some("two+three".to_string()));
    assert_eq!(extract_query("GET /x?q=%ff HTTP/1.1", "q"), Some("%ff".to_string()));
    assert_eq!(extract_query("GET /x?q=%zz HTTP/1.1", "q"), Some("%zz".to_string()));
    assert_eq!(extract_query("GET /x?qq=1 HTTP/1.1", "q"), None);
    assert_eq!(extract_query("GET /x HTTP/1.1", "q"), None);
}

#[test]
fn the_phone_nudges_volume_by_ten_within_bounds() {
    assert_eq!(remote_volume(50, true), 60);
    assert_eq!(remote_volume(95, true), 100);
    assert_eq!(remote_volume(5, false), 0);
    assert_eq!(remote_volume(40, false), 30);
}

#[test]
fn responses_carry_cors_and_the_byte_length() {
    let r = http_response("200 OK", "application/json", "{\"ok\":true}");
    assert!(r.starts_with("HTTP/1.1 200 OK\r\nAccess-Control-Allow-Origin: *\r\n"));
    assert!(r.contains("Content-Type: application/json\r\nContent-Length: 11\r\n\r\n{\"ok\":true}"));
    let u = http_response("401 Unauthorized", "text/plain; charset=utf-8", "▸");
    assert!(u.contains("Content-Length: 3\r\n"));
    assert!(preflight_response().starts_with("HTTP/1.1 204 No Content\r\n"));
    assert!(preflight_response().ends_with("Content-Length: 0\r\n\r\n"));
}

#[test]
fn only_a_pair_request_line_skips_the_token() {
    assert!(is_authorized("POST /pair HTTP/1.1", "secret"));
    assert!(!is_authorized("X GET /pair HTTP/1.1", "secret"));
    assert!(!is_authorized("GET /api/queue HTTP/1.1\r\nReferer: http://h/GET /pair\r\n\r\n", "secret"));
    assert!(!is_authorized("X GET /pair?token=wrong HTTP/1.1", "secret"));
}

#[test]
fn remote_answers_follow_the_route() {
    let a = remote_answer(RemoteRoute::Pair(false), 0);
    assert_eq!(a.status, "401 Unauthorized");
    assert!(matches!(a.body, RemoteBody::Pair(false)));
    assert!(a.action == RemoteAction::Nothing);
    let a = remote_answer(RemoteRoute::Pair(true), 0);
    assert_eq!(a.status, "200 OK");
    assert!(a.action == RemoteAction::MarkPaired);
    let a = remote_answer(RemoteRoute::Page(false), 0);
    assert_eq!(a.content_type, "text/plain; charset=utf-8");
    assert!(matches!(a.body, RemoteBody::Text(ref t) if t == "Open this page from the in-app QR code (Settings \u{25b8} Remote)."));
    let a = remote_answer(RemoteRoute::Search(String::new()), 0);
    assert!(matches!(a.body, RemoteBody::NoResults));
    let a = remote_answer(RemoteRoute::Search("abba".to_string()), 0);
    assert!(matches!(a.body, RemoteBody::Search(ref q) if q == "abba"));
    let a = remote_answer(RemoteRoute::Volume(true), 95);
    assert!(matches!(a.body, RemoteBody::Volume(100)));
    assert!(a.action == RemoteAction::SetVolume(100));
    let a = remote_answer(RemoteRoute::Toggle, 0);
    assert_eq!(a.content_type, "application/json");
    assert!(a.action == RemoteAction::Toggle);
}
