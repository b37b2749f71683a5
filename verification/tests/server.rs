use fortytwo::config::{
    default_context_window, default_history_turns, default_max_sources, default_snippet_chars,
    AdminSeed,
};
use fortytwo::engine::search::{search_url, sources_from_hits, truncate_chars, SearchHit};
use fortytwo::server::ask::{settings_failed, AskEvent};
use fortytwo::server::auth::{cookie_from, login_result, session_cookie, session_ttl_seconds, SESSION_COOKIE};
use fortytwo::server::conversations::{conversation_title, CreateBody};
use fortytwo::server::seed_admin;
use fortytwo::server::settings::require_admin;
use fortytwo::server::static_ui::{asset_for_path, UiAsset};
use fortytwo::store::types::User;

#[test]
fn cookie_parsing() {
    assert_eq!(
        cookie_from(Some("a=1; 42_session=abc123; b=2")).as_deref(),
        Some("abc123")
    );
    assert!(cookie_from(Some("a=1")).is_none());
    assert!(cookie_from(None).is_none());
}

#[test]
fn cookie_takes_the_first_session_pair() {
    assert_eq!(
        cookie_from(Some("42_session=one;42_session=two")).as_deref(),
        Some("one")
    );
    assert_eq!(cookie_from(Some("  42_session=  ")).as_deref(), Some(""));
    assert!(cookie_from(Some("x42_session=abc")).is_none());
}

#[test]
fn session_cookie_header() {
    assert_eq!(SESSION_COOKIE, "42_session");
    assert_eq!(session_ttl_seconds(), 2_592_000);
    assert_eq!(
        session_cookie("tok"),
        "42_session=tok; HttpOnly; SameSite=Lax; Path=/; Max-Age=2592000"
    );
}

fn user(is_admin: bool) -> User {
    User {
        id: 1,
        username: "u".into(),
        password_hash: "h".into(),
        is_admin,
        created_at: "now".into(),
    }
}

#[test]
fn only_admins_pass() {
    assert!(require_admin(&user(true)).is_ok());
    assert_eq!(require_admin(&user(false)), Err("admin only".to_string()));
}

#[test]
fn new_conversation_title_defaults() {
    assert_eq!(conversation_title(CreateBody { title: None }), "New conversation");
    assert_eq!(
        conversation_title(CreateBody {
            title: Some("Mine".into())
        }),
        "Mine"
    );
}

#[test]
fn static_ui_routes() {
    assert_eq!(asset_for_path("/"), Some(UiAsset::Index));
    assert_eq!(asset_for_path("/index.html"), Some(UiAsset::Index));
    assert_eq!(asset_for_path("/style.css"), Some(UiAsset::Style));
    assert_eq!(asset_for_path("/app.js"), Some(UiAsset::Script));
    assert_eq!(asset_for_path("/v1/other"), None);
    assert_eq!(UiAsset::Index.content_type(), "text/html; charset=utf-8");
    assert_eq!(UiAsset::Style.content_type(), "text/css; charset=utf-8");
    assert_eq!(UiAsset::Script.content_type(), "text/javascript; charset=utf-8");
}

#[test]
fn admin_seed_only_when_absent() {
    let seed = Some(AdminSeed {
        username: "admin".into(),
        password_hash: "$argon2id$x".into(),
    });
    let a = seed_admin(&seed, false).unwrap();
    assert_eq!(a.username, "admin");
    assert_eq!(a.password_hash, "$argon2id$x");
    assert!(seed_admin(&seed, true).is_none());
    assert!(seed_admin(&None, false).is_none());
}

#[test]
fn config_defaults() {
    assert_eq!(default_context_window(), 32768);
    assert_eq!(default_max_sources(), 8);
    assert_eq!(default_snippet_chars(), 500);
    assert_eq!(default_history_turns(), 10);
}

fn hit(i: usize, content: &str) -> SearchHit {
    SearchHit {
        title: format!("t{i}"),
        url: format!("u{i}"),
        content: content.into(),
    }
}

#[test]
fn search_hits_become_numbered_sources() {
    let hits = vec![hit(0, "abcdef"), hit(1, "xy"), hit(2, "zzz")];
    let s = sources_from_hits(&hits, 2, 3);
    assert_eq!(s.len(), 2);
    assert_eq!(s[0].index, 1);
    assert_eq!(s[0].title, "t0");
    assert_eq!(s[0].snippet, "abc");
    assert_eq!(s[1].index, 2);
    assert_eq!(s[1].url, "u1");
    assert_eq!(s[1].snippet, "xy");
    assert_eq!(sources_from_hits(&hits, 10, 500).len(), 3);
}

#[test]
fn truncation_counts_characters() {
    assert_eq!(truncate_chars("héllo", 2), "hé");
    assert_eq!(truncate_chars("hi", 5), "hi");
}

#[test]
fn issued_session_cookie_reads_back() {
    let raw = "0123456789abcdef";
    let set = session_cookie(raw);
    // the browser sends back the name=value pair before the first ';'
    let pair = set.split(';').next().unwrap();
    assert_eq!(cookie_from(Some(pair)).as_deref(), Some(raw));
    let header = format!("theme=dark; {pair}");
    assert_eq!(cookie_from(Some(&header)).as_deref(), Some(raw));
}

#[test]
fn login_outcomes() {
    let u = user(false);
    match login_result(Ok(Some(u))) {
        Ok(v) => assert_eq!(v.username, "u"),
        Err(_) => panic!("expected the user"),
    }
    match login_result(Ok(None)) {
        Err((code, m)) => {
            assert_eq!(code, 401);
            assert_eq!(m, "invalid credentials");
        }
        Ok(_) => panic!("expected a refusal"),
    }
    match login_result(Err("db down".into())) {
        Err((code, m)) => {
            assert_eq!(code, 500);
            assert_eq!(m, "db down");
        }
        Ok(_) => panic!("expected an error"),
    }
}

#[test]
fn searx_endpoint() {
    assert_eq!(search_url("http://searx:8080//"), "http://searx:8080/search");
    assert_eq!(search_url("http://searx"), "http://searx/search");
}

#[test]
fn settings_failure_is_one_error_event() {
    let e = settings_failed("no settings".into());
    assert_eq!(e.len(), 1);
    assert!(matches!(&e[0], AskEvent::Error { message } if message == "no settings"));
}
