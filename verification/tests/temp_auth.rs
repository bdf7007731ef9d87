use rscholar::temp_auth::{
    accepts_html, access_decision, is_api_path, is_valid_password, login_cookie,
    session_token_from_cookie_header, AccessDecision, LoginForm, SessionStore, SESSION_TTL_SECS,
};

#[test]
fn only_the_shared_password_logs_in() {
    assert!(is_valid_password("142536"));
    assert!(!is_valid_password("1425360"));
    assert!(!is_valid_password(" 142536"));
    assert!(!is_valid_password(""));
    assert!(LoginForm { password: "142536".to_string() }.is_valid());
    assert!(!LoginForm { password: "wrong".to_string() }.is_valid());
}

#[test]
fn session_token_is_read_from_cookie_pairs() {
    assert_eq!(
        session_token_from_cookie_header(Some("scholarlens_temp_session=abc123")),
        Some("abc123".to_string())
    );
    assert_eq!(
        session_token_from_cookie_header(Some("theme=dark; scholarlens_temp_session=tok=en ; lang=zh")),
        Some("tok=en".to_string())
    );
    assert_eq!(
        session_token_from_cookie_header(Some("a=1;  scholarlens_temp_session=first; scholarlens_temp_session=second")),
        Some("first".to_string())
    );
    assert_eq!(session_token_from_cookie_header(Some("theme=dark; other=1")), None);
    assert_eq!(session_token_from_cookie_header(Some("scholarlens_temp_session")), None);
    assert_eq!(session_token_from_cookie_header(Some("")), None);
    assert_eq!(session_token_from_cookie_header(None), None);
    assert_eq!(
        session_token_from_cookie_header(Some("scholarlens_temp_session=")),
        Some(String::new())
    );
}

#[test]
fn login_cookie_carries_token_and_lifetime() {
    assert_eq!(
        login_cookie("deadbeef"),
        "scholarlens_temp_session=deadbeef; Path=/; Max-Age=43200; HttpOnly; SameSite=Lax"
    );
}

#[test]
fn api_paths_and_html_clients() {
    assert!(is_api_path("/sources"));
    assert!(is_api_path("/tasks"));
    assert!(is_api_path("/tasks/42"));
    assert!(is_api_path("/api/search"));
    assert!(!is_api_path("/tasksx"));
    assert!(!is_api_path("/"));
    assert!(!is_api_path("/api"));

    assert!(accepts_html(Some("text/html,application/xhtml+xml")));
    assert!(accepts_html(Some("*/*")));
    assert!(!accepts_html(Some("application/json")));
    assert!(!accepts_html(None));
}

#[test]
fn browsers_are_redirected_and_others_refused() {
    assert_eq!(access_decision(true, false, "/api/x", None), AccessDecision::Proceed);
    assert_eq!(
        access_decision(false, true, "/", Some("text/html")),
        AccessDecision::RedirectToLogin
    );
    assert_eq!(
        access_decision(false, true, "/api/search", Some("text/html")),
        AccessDecision::Unauthorized
    );
    assert_eq!(
        access_decision(false, false, "/", Some("text/html")),
        AccessDecision::Unauthorized
    );
    assert_eq!(access_decision(false, true, "/", None), AccessDecision::Unauthorized);
}

#[test]
fn new_session_authenticates_until_it_expires() {
    let now = 1_700_000_000;
    let mut store = SessionStore::new();
    let token = store.create_session(now);
    assert_eq!(token.len(), 64);
    assert!(token.chars().all(|c| c.is_ascii_hexdigit() && !c.is_ascii_uppercase()));

    assert!(store.is_valid(&token, now + SESSION_TTL_SECS));
    assert!(!store.is_valid(&token, now + SESSION_TTL_SECS + 1));
    assert!(!store.is_valid("not-a-token", now));

    // Using the session moves its expiry forward.
    assert!(store.authenticate(&token, now + 100));
    assert!(store.is_valid(&token, now + 100 + SESSION_TTL_SECS));
}

#[test]
fn logout_and_expiry_close_sessions() {
    let now = 1_700_000_000;
    let mut store = SessionStore::new();
    let a = store.create_session(now);
    let b = store.create_session(now);
    assert_ne!(a, b);

    store.remove(&a);
    assert!(!store.authenticate(&a, now));
    assert!(store.authenticate(&b, now));

    // An idle session is refused and forgotten.
    let later = now + 3 * SESSION_TTL_SECS;
    assert!(!store.authenticate(&b, later));
    assert!(!store.is_valid(&b, now));
}

#[test]
fn insert_replaces_expiry_and_cleanup_drops_expired() {
    let mut store = SessionStore::new();
    store.insert("t1".to_string(), 100);
    store.insert("t2".to_string(), 50);
    store.insert("t1".to_string(), 10);
    assert!(store.is_valid("t1", 10));
    assert!(!store.is_valid("t1", 11));
    store.cleanup_expired(20);
    assert!(!store.is_valid("t1", 0));
    assert!(store.is_valid("t2", 20));
}

#[test]
fn opened_session_token_is_the_hex_of_its_bytes() {
    let now = 1_700_000_000;
    let mut store = SessionStore::new();
    let token = store.open_session(&[0x00, 0xab, 0x10, 0xff], now);
    assert_eq!(token, "00ab10ff");
    assert!(store.is_valid("00ab10ff", now + SESSION_TTL_SECS));
    let other = store.open_session(&[1, 2], now);
    assert_eq!(other, "0102");
    assert!(store.is_valid("00ab10ff", now));
}
