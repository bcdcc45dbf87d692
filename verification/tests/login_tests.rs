use amax_lib::login::{build_cookie_header, extract_session, login_step, session_expiry, LoginStep};

fn cookie(name: &str, value: &str) -> (String, String) {
    (name.to_string(), value.to_string())
}

#[test]
fn builds_header_from_cookies() {
    let cookies = [
        cookie("session", "abc123"),
        cookie("theme", "dark"),
        cookie("csrf", "xyz"),
    ];
    assert_eq!(
        build_cookie_header(&cookies),
        "session=abc123; theme=dark; csrf=xyz"
    );
}

#[test]
fn builds_empty_header_for_no_cookies() {
    assert_eq!(build_cookie_header(&[]), "");
}

#[test]
fn extracts_session_value() {
    assert_eq!(
        extract_session("session=MTc4MzQy; theme=dark").as_deref(),
        Some("MTc4MzQy")
    );
}

#[test]
fn extracts_session_not_first() {
    assert_eq!(
        extract_session("theme=dark; session=v9; csrf=x").as_deref(),
        Some("v9")
    );
}

#[test]
fn returns_none_when_session_absent_or_empty() {
    assert_eq!(extract_session("theme=dark"), None);
    assert_eq!(extract_session("session=; theme=dark"), None);
    assert_eq!(extract_session(""), None);
}

#[test]
fn session_lookup_trims_pairs_and_ignores_lookalike_names() {
    assert_eq!(extract_session("  session=abc  ").as_deref(), Some("abc"));
    assert_eq!(extract_session("my_session=x; session=y").as_deref(), Some("y"));
    assert_eq!(extract_session("sessionid=x"), None);
    assert_eq!(build_cookie_header(&[cookie("a", "")]), "a=");
}

#[test]
fn session_expiry_only_counts_future_timestamps() {
    let now = 1_800_000_000;
    let cookies = vec![("session".to_string(), Some(now + 3600))];
    assert_eq!(session_expiry(&cookies, now), Some(now + 3600));
    let past = vec![("session".to_string(), Some(now - 1))];
    assert_eq!(session_expiry(&past, now), None);
    let epoch = vec![("session".to_string(), Some(0))];
    assert_eq!(session_expiry(&epoch, now), None);
}

#[test]
fn session_expiry_needs_a_session_cookie_with_an_expiry() {
    let now = 1_800_000_000;
    assert_eq!(session_expiry(&[("theme".to_string(), Some(now + 10))], now), None);
    assert_eq!(session_expiry(&[], now), None);
    assert_eq!(session_expiry(&[("session".to_string(), None)], now), None);
    let first_wins = vec![
        ("session".to_string(), None),
        ("session".to_string(), Some(now + 10)),
    ];
    assert_eq!(session_expiry(&first_wins, now), None);
}

#[test]
fn login_poll_steps() {
    assert_eq!(login_step(true, true, true), LoginStep::Stop);
    assert_eq!(login_step(false, true, true), LoginStep::TimedOut);
    assert_eq!(login_step(false, false, true), LoginStep::LoggedIn);
    assert_eq!(login_step(false, false, false), LoginStep::Wait);
}

#[test]
fn a_built_header_carries_the_first_session_pair() {
    let cookies = [cookie("theme", "dark"), cookie("session", "abc"), cookie("session", "later")];
    assert_eq!(extract_session(&build_cookie_header(&cookies)).as_deref(), Some("abc"));
    let empty_first = [cookie("session", ""), cookie("session", "v2")];
    assert_eq!(extract_session(&build_cookie_header(&empty_first)).as_deref(), Some("v2"));
    assert_eq!(extract_session(&build_cookie_header(&[cookie("theme", "dark")])), None);
}
