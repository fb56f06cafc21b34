//! Tests of session identity: identifier generation, token validation, and
//! the resolve-or-create decision.

use kindle_chat::session::get_or_create_session_id;
use uuid::Uuid;

#[test]
fn test_uuid_generation() {
    let uuid1 = Uuid::new_v4().to_string();
    let uuid2 = Uuid::new_v4().to_string();

    assert_ne!(uuid1, uuid2);

    assert_eq!(uuid1.len(), 36);
    assert_eq!(uuid2.len(), 36);
}

#[test]
fn test_uuid_parsing() {
    let uuid_str = "550e8400-e29b-41d4-a716-446655440000";
    let uuid = Uuid::parse_str(uuid_str).expect("Failed to parse UUID");

    assert_eq!(uuid.to_string(), uuid_str);
}

#[test]
fn test_missing_token_creates_fresh_session() {
    let (id, fresh) = get_or_create_session_id(None);
    assert!(fresh);
    assert_eq!(id.len(), 36);
    Uuid::parse_str(&id).expect("fresh identifier is a valid token");
}

#[test]
fn test_valid_token_keeps_its_identity() {
    let token = "550e8400-e29b-41d4-a716-446655440000";
    let (id, fresh) = get_or_create_session_id(Some(token));
    assert!(!fresh);
    assert_eq!(id, token);
}

#[test]
fn test_token_is_normalized_to_canonical_form() {
    // An upper-case writing of the same identifier resolves to the canonical
    // lower-case hyphenated form, not to the raw token text.
    let (id, fresh) = get_or_create_session_id(Some("550E8400-E29B-41D4-A716-446655440000"));
    assert!(!fresh);
    assert_eq!(id, "550e8400-e29b-41d4-a716-446655440000");
}

#[test]
fn test_malformed_token_creates_fresh_session() {
    let (id, fresh) = get_or_create_session_id(Some("not-a-session-token"));
    assert!(fresh);
    assert_eq!(id.len(), 36);
    assert_ne!(id, "not-a-session-token");
}

#[test]
fn test_fresh_sessions_are_distinct() {
    let (a, _) = get_or_create_session_id(None);
    let (b, _) = get_or_create_session_id(None);
    assert_ne!(a, b);
}
