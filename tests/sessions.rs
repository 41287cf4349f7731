use site_auth::sessions::{session_cookie, SessionTable, TOKEN_LEN};

#[test]
fn taken_token_is_not_reused() {
    let mut table = SessionTable::new();
    assert!(table.start_session("tok".to_string(), "alice"));
    // A colliding token is turned down and leaves the owner in place.
    assert!(!table.start_session("tok".to_string(), "mallory"));
    assert_eq!(table.validate_session("tok"), Some("alice".to_string()));
}

#[test]
fn new_sessions_are_fresh_alphanumeric_tokens() {
    let mut table = SessionTable::new();
    let mut seen = Vec::new();
    for _ in 0..20 {
        let t = table.new_session("bob").unwrap();
        assert_eq!(t.chars().count(), TOKEN_LEN);
        assert!(t.chars().all(|c| c.is_ascii_alphanumeric()));
        assert!(!seen.contains(&t));
        seen.push(t);
    }
    for t in &seen {
        assert_eq!(table.validate_session(t), Some("bob".to_string()));
    }
}

#[test]
fn validate_after_invalidate_is_none() {
    let mut table = SessionTable::new();
    let t = table.new_session("carol").unwrap();
    assert_eq!(table.validate_session(&t), Some("carol".to_string()));
    table.remove_session(&t);
    assert_eq!(table.validate_session(&t), None);
    table.remove_session("never-issued");
    assert_eq!(table.validate_session("never-issued"), None);
}

#[test]
fn empty_table_always_opens_a_session() {
    let mut table = SessionTable::new();
    let t = table.new_session("dave");
    assert!(t.is_some());
}

#[test]
fn cookie_attributes() {
    assert_eq!(session_cookie("abc"), "session_uuid=abc; Secure; HttpOnly; SameSite=Strict");
}
