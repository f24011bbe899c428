use luakit::url::ParsedUrl;
use luakit::cookies::{cookie_header_value, merge_cookie_header, SessionCookieStore};
use luakit::http::{session_cookie, session_set_cookie, HttpError};
use reqwest::header::HeaderValue;

fn header(value: &str) -> HeaderValue {
    HeaderValue::from_str(value).unwrap()
}

#[test]
fn session_cookie_store_obeys_scope_and_supports_named_access() {
    let mut store = SessionCookieStore::new();
    let origin = ParsedUrl::parse("https://example.com/login").unwrap();
    let headers = vec![
        header("secure_token=token; Domain=example.com; Path=/; Secure; HttpOnly"),
        header("scoped=value; Path=/workshop"),
        header("expired=value; Path=/; Max-Age=0"),
    ];
    assert_eq!(store.set_cookies(&headers, &origin), 2);
    assert!(store.is_dirty());
    assert_eq!(store.revision(), 1);

    let workshop = ParsedUrl::parse("https://example.com/workshop/item").unwrap();
    let other_site = ParsedUrl::parse("https://example.net/").unwrap();
    let insecure = ParsedUrl::parse("http://example.com/workshop/item").unwrap();
    assert_eq!(
        store.cookie(&workshop, "secure_token").as_deref(),
        Some("token")
    );
    assert_eq!(store.cookie(&workshop, "scoped").as_deref(), Some("value"));
    assert_eq!(store.cookie(&workshop, "expired"), None);
    assert_eq!(store.cookie(&other_site, "secure_token"), None);
    assert_eq!(store.cookie(&insecure, "secure_token"), None);

    store.clear();
    assert_eq!(store.cookie(&workshop, "secure_token"), None);
}

#[test]
fn session_cookie_store_inserts_and_builds_request_header() {
    let mut store = SessionCookieStore::new();
    let url = ParsedUrl::parse("https://example.com/").unwrap();
    store
        .insert(
            &url,
            "sessionid=abc; Domain=example.com; Path=/; Secure; SameSite=None",
        )
        .unwrap();

    let cookies = store.cookies(&url).unwrap().to_str().unwrap().to_owned();
    assert_eq!(cookies, "sessionid=abc");
}

#[test]
fn injected_sessions_are_isolated_and_views_share_their_store() {
    fn assert_send_sync<T: Send + Sync>() {}
    assert_send_sync::<SessionCookieStore>();

    let mut first = SessionCookieStore::new();
    let second = SessionCookieStore::new();
    let url = "https://example.com/";
    session_set_cookie(Some(&mut first), url, "sessionid=first; Domain=example.com; Path=/").unwrap();

    let first_view = &first;
    assert_eq!(
        session_cookie(Some(&first), url, "sessionid").unwrap().as_deref(),
        Some("first")
    );
    assert_eq!(
        session_cookie(Some(first_view), url, "sessionid").unwrap().as_deref(),
        Some("first")
    );
    assert_eq!(session_cookie(Some(&second), url, "sessionid").unwrap(), None);
}

#[test]
fn cookie_snapshot_round_trip_tracks_revision_and_drops_expired_entries() {
    let mut store = SessionCookieStore::new();
    let url = ParsedUrl::parse("https://example.com/").unwrap();
    store
        .insert(&url, "session=ready; Domain=example.com; Path=/; Secure")
        .unwrap();
    let revision = store.revision();
    assert!(store.is_dirty());

    let snapshot = store.snapshot().unwrap();
    assert_eq!(snapshot.revision, revision);
    assert!(store.mark_clean(snapshot.revision));
    assert!(!store.is_dirty());

    store
        .insert(&url, "obsolete=value; Domain=example.com; Path=/")
        .unwrap();
    store
        .insert(&url, "obsolete=gone; Domain=example.com; Path=/; Max-Age=0")
        .unwrap();
    assert!(store.is_dirty());
    let snapshot_without_expired = store.snapshot().unwrap();

    let mut restored = SessionCookieStore::new();
    restored.restore(&snapshot.value).unwrap();
    assert_eq!(restored.cookie(&url, "session").as_deref(), Some("ready"));
    assert_eq!(restored.cookie(&url, "expired"), None);
    assert!(!restored.is_dirty());

    let mut restored_without_expired = SessionCookieStore::new();
    restored_without_expired
        .restore(&snapshot_without_expired.value)
        .unwrap();
    assert_eq!(restored_without_expired.cookie(&url, "obsolete"), None);
}

#[test]
fn revision_counts_changes_only() {
    let mut store = SessionCookieStore::new();
    let url = ParsedUrl::parse("https://example.com/").unwrap();
    assert_eq!(store.revision(), 0);
    assert!(!store.is_dirty());
    store.clear();
    assert_eq!(store.revision(), 0);
    assert!(store.insert(&url, "a=1; Domain=other.org").is_err());
    assert_eq!(store.revision(), 0);
    store.insert(&url, "a=1").unwrap();
    assert_eq!(store.revision(), 1);
    assert!(!store.mark_clean(7));
    assert!(store.is_dirty());
    assert!(store.mark_clean(1));
    store.clear();
    assert_eq!(store.revision(), 2);
    assert!(store.is_dirty());
    assert!(store.restore("not json").is_err());
    assert_eq!(store.revision(), 2);
    store.restore("[]").unwrap();
    assert_eq!(store.revision(), 3);
    assert!(!store.is_dirty());
}

#[test]
fn set_cookies_skips_unusable_headers() {
    let mut store = SessionCookieStore::new();
    let url = ParsedUrl::parse("https://example.com/").unwrap();
    let headers = vec![
        HeaderValue::from_bytes(b"caf\xc3\xa9=1").unwrap(),
        header("bad; Domain=other.org"),
    ];
    assert_eq!(store.set_cookies(&headers, &url), 0);
    assert_eq!(store.revision(), 0);
    assert_eq!(store.set_cookies(&vec![header("ok=1"), header("also=2")], &url), 2);
    assert_eq!(store.revision(), 1);
    assert_eq!(store.cookie(&url, "also").as_deref(), Some("2"));
}

#[test]
fn empty_store_sends_no_cookie_header() {
    let store = SessionCookieStore::new();
    let url = ParsedUrl::parse("https://example.com/").unwrap();
    assert!(store.cookies(&url).is_none());
    assert!(cookie_header_value(&vec![]).is_none());
    let pairs = vec![("a".to_string(), "1".to_string()), ("b".to_string(), "2".to_string())];
    assert_eq!(cookie_header_value(&pairs).unwrap().to_str().unwrap(), "a=1; b=2");
    let bad = vec![("a".to_string(), "x\ny".to_string())];
    assert!(cookie_header_value(&bad).is_none());
}

#[test]
fn merged_cookie_header_lets_request_win() {
    assert_eq!(merge_cookie_header("a=1; b=2", "b=3; c=4"), "a=1; b=3; c=4");
    assert_eq!(merge_cookie_header(" a = 1 ;junk; ; b=2=3", ""), "a=1; b=2=3");
    assert_eq!(merge_cookie_header("", ""), "");
    assert_eq!(merge_cookie_header("a=1; a=2", "a=3"), "a=3");
}

#[test]
fn session_cookie_checks_url_first() {
    assert!(matches!(session_cookie(None, "not a url", "x"), Err(HttpError::InvalidUrl(_))));
    assert_eq!(session_cookie(None, "https://example.com/", "x").unwrap(), None);
    assert!(matches!(
        session_set_cookie(None, "not a url", "a=1"),
        Err(HttpError::InvalidUrl(_))
    ));
    assert!(matches!(
        session_set_cookie(None, "https://example.com/", "a=1"),
        Err(HttpError::NoCookieStore)
    ));
    let mut store = SessionCookieStore::new();
    assert!(matches!(
        session_set_cookie(Some(&mut store), "https://example.com/", "a=1; Domain=other.org"),
        Err(HttpError::Cookie(_))
    ));
    assert_eq!(store.revision(), 0);
    assert!(matches!(
        session_set_cookie(Some(&mut store), "not a url", "a=1"),
        Err(HttpError::InvalidUrl(_))
    ));
    assert_eq!(store.revision(), 0);
    session_set_cookie(Some(&mut store), "https://example.com/", "a=1").unwrap();
    assert_eq!(store.revision(), 1);
    assert_eq!(
        session_cookie(Some(&store), "https://example.com/", "a").unwrap().as_deref(),
        Some("1")
    );
}

#[test]
fn insert_replaces_the_value_of_the_same_cookie_only() {
    let url = ParsedUrl::parse("https://example.com/").unwrap();
    let mut store = SessionCookieStore::new();
    store.insert(&url, "a=1").unwrap();
    store.insert(&url, "b=2").unwrap();
    store.insert(&url, " a = 3 ; Path=/").unwrap();
    assert_eq!(store.cookie(&url, "a").as_deref(), Some("3"));
    assert_eq!(store.cookie(&url, "b").as_deref(), Some("2"));
    assert_eq!(store.revision(), 3);
    assert!(store.insert(&url, "=novalue").is_err());
    assert!(store.insert(&url, "noequals").is_err());
    assert_eq!(store.revision(), 3);
}

#[test]
fn restore_keeps_only_the_snapshot_cookies() {
    let url = ParsedUrl::parse("https://example.com/").unwrap();
    let mut a = SessionCookieStore::new();
    a.insert(&url, "kept=yes; Path=/").unwrap();
    let snap = a.snapshot().unwrap();
    let mut b = SessionCookieStore::new();
    b.insert(&url, "other=old; Path=/").unwrap();
    b.restore(&snap.value).unwrap();
    assert_eq!(b.cookie(&url, "kept").as_deref(), Some("yes"));
    assert_eq!(b.cookie(&url, "other"), None);
    assert_eq!(b.revision(), 2);
    assert!(!b.is_dirty());
}

#[test]
fn empty_store_snapshot_succeeds_and_restores_empty() {
    let store = SessionCookieStore::new();
    let snap = store.snapshot().unwrap();
    let mut restored = SessionCookieStore::new();
    restored.restore(&snap.value).unwrap();
    let url = ParsedUrl::parse("https://example.com/").unwrap();
    assert!(restored.cookies(&url).is_none());
}

#[test]
fn insert_binds_cookies_to_the_given_url() {
    let mut store = SessionCookieStore::new();
    let a = ParsedUrl::parse("https://a.example/").unwrap();
    let b = ParsedUrl::parse("https://b.example/").unwrap();
    store.insert(&a, "sid=1").unwrap();
    assert_eq!(store.cookie(&a, "sid").as_deref(), Some("1"));
    assert_eq!(store.cookie(&b, "sid"), None);
    assert!(store.insert(&a, "x=1; Domain=b.example").is_err());
    assert_eq!(store.cookie(&b, "x"), None);
    assert_eq!(store.cookies(&a).unwrap().to_str().unwrap(), "sid=1");
    assert!(store.cookies(&b).is_none());
}
