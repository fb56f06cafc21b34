//! Tests of the conversation history: construction, appending, rendering,
//! the persistence codec round trip, and the store's load decisions.

use kindle_chat::history::{ConversationHistory, ConversationMessage};
use kindle_chat::store::{load_record, storage_key, LoadError};

#[test]
fn test_conversation_history_new() {
    let session_id = "test-session-123".to_string();
    let history = ConversationHistory::new(session_id.clone());

    assert_eq!(history.session_id, session_id);
    assert!(history.messages.is_empty());
    assert!(history.created_at > 0);
    assert_eq!(history.created_at, history.updated_at);
}

#[test]
fn test_conversation_history_add_message() {
    let session_id = "test-session-123".to_string();
    let mut history = ConversationHistory::new(session_id);

    let now = chrono::Utc::now().timestamp();
    history.add_message("user".to_string(), "Hello".to_string());

    assert_eq!(history.messages.len(), 1);
    assert_eq!(history.messages[0].role, "user");
    assert_eq!(history.messages[0].content, "Hello");
    assert!(history.messages[0].timestamp >= now);
}

#[test]
fn test_to_conversation_text() {
    let session_id = "test-session-123".to_string();
    let mut history = ConversationHistory::new(session_id);

    history.add_message("user".to_string(), "Hello".to_string());
    history.add_message("assistant".to_string(), "Hi there!".to_string());
    history.add_message("user".to_string(), "How are you?".to_string());

    let text = history.to_conversation_text();

    println!("Conversation text: {}", text);

    assert!(text.contains("Hello"));
    assert!(text.contains("Hi there!"));
    assert!(text.contains("How are you?"));
}

fn fixed_history() -> ConversationHistory {
    ConversationHistory {
        session_id: "s-1".to_string(),
        messages: vec![
            ConversationMessage {
                role: "user".to_string(),
                content: "Hi".to_string(),
                timestamp: 100,
            },
            ConversationMessage {
                role: "assistant".to_string(),
                content: "Hello".to_string(),
                timestamp: 101,
            },
            ConversationMessage {
                role: "user".to_string(),
                content: "How are you?".to_string(),
                timestamp: 102,
            },
        ],
        created_at: 100,
        updated_at: 102,
    }
}

#[test]
fn test_rendering_exact() {
    let history = fixed_history();
    assert_eq!(
        history.to_conversation_text(),
        "Human: Hi\n\nAssistant: Hello\n\nHow are you?"
    );
}

#[test]
fn test_rendering_empty_history() {
    let history = ConversationHistory {
        session_id: "s-1".to_string(),
        messages: vec![],
        created_at: 7,
        updated_at: 7,
    };
    assert_eq!(history.to_conversation_text(), "");
}

#[test]
fn test_rendering_trailing_assistant_message_stays_labeled() {
    let history = ConversationHistory {
        session_id: "s-1".to_string(),
        messages: vec![
            ConversationMessage {
                role: "user".to_string(),
                content: "Hi".to_string(),
                timestamp: 1,
            },
            ConversationMessage {
                role: "assistant".to_string(),
                content: "Hello".to_string(),
                timestamp: 2,
            },
        ],
        created_at: 1,
        updated_at: 2,
    };
    // The final message is not a user message, so it is not appended raw.
    assert_eq!(history.to_conversation_text(), "Human: Hi");
}

#[test]
fn test_rendering_unknown_role_passes_through() {
    let history = ConversationHistory {
        session_id: "s-1".to_string(),
        messages: vec![
            ConversationMessage {
                role: "system".to_string(),
                content: "Be brief".to_string(),
                timestamp: 1,
            },
            ConversationMessage {
                role: "user".to_string(),
                content: "Hi".to_string(),
                timestamp: 2,
            },
        ],
        created_at: 1,
        updated_at: 2,
    };
    assert_eq!(history.to_conversation_text(), "system: Be brief\n\nHi");
}

#[test]
fn test_to_json_exact() {
    let history = ConversationHistory {
        session_id: "s-1".to_string(),
        messages: vec![ConversationMessage {
            role: "user".to_string(),
            content: "Hi".to_string(),
            timestamp: 100,
        }],
        created_at: 100,
        updated_at: 100,
    };
    assert_eq!(
        history.to_json(),
        "{\"session_id\":\"s-1\",\"messages\":[{\"role\":\"user\",\"content\":\"Hi\",\"timestamp\":100}],\"created_at\":100,\"updated_at\":100}"
    );
}

#[test]
fn test_to_json_negative_timestamps_exact() {
    let history = ConversationHistory {
        session_id: "s".to_string(),
        messages: vec![ConversationMessage {
            role: "user".to_string(),
            content: "x".to_string(),
            timestamp: -1,
        }],
        created_at: -5,
        updated_at: 0,
    };
    assert_eq!(
        history.to_json(),
        "{\"session_id\":\"s\",\"messages\":[{\"role\":\"user\",\"content\":\"x\",\"timestamp\":-1}],\"created_at\":-5,\"updated_at\":0}"
    );
}

fn assert_histories_equal(a: &ConversationHistory, b: &ConversationHistory) {
    assert_eq!(a.session_id, b.session_id);
    assert_eq!(a.messages.len(), b.messages.len());
    for (x, y) in a.messages.iter().zip(b.messages.iter()) {
        assert_eq!(x.role, y.role);
        assert_eq!(x.content, y.content);
        assert_eq!(x.timestamp, y.timestamp);
    }
    assert_eq!(a.created_at, b.created_at);
    assert_eq!(a.updated_at, b.updated_at);
}

#[test]
fn test_round_trip_plain() {
    let history = fixed_history();
    let loaded = ConversationHistory::from_json(&history.to_json()).expect("round trip");
    assert_histories_equal(&history, &loaded);
}

#[test]
fn test_round_trip_awkward_text_and_timestamps() {
    let history = ConversationHistory {
        session_id: "sid with \"quotes\" and \\backslash\\".to_string(),
        messages: vec![
            ConversationMessage {
                role: "assistant".to_string(),
                content: "line one\nline two\ttabbed\r\"quoted\" \\esc\\ ünïcödé 🙂".to_string(),
                timestamp: -62135596800,
            },
            ConversationMessage {
                role: "".to_string(),
                content: "".to_string(),
                timestamp: i64::MIN,
            },
            ConversationMessage {
                role: "user".to_string(),
                content: "{}[]:,\"".to_string(),
                timestamp: i64::MAX,
            },
        ],
        created_at: i64::MIN,
        updated_at: i64::MAX,
    };
    let loaded = ConversationHistory::from_json(&history.to_json()).expect("round trip");
    assert_histories_equal(&history, &loaded);
}

#[test]
fn test_round_trip_empty_messages() {
    let history = ConversationHistory {
        session_id: "empty".to_string(),
        messages: vec![],
        created_at: 5,
        updated_at: 5,
    };
    let loaded = ConversationHistory::from_json(&history.to_json()).expect("round trip");
    assert_histories_equal(&history, &loaded);
}

#[test]
fn test_from_json_rejects_garbage() {
    assert!(ConversationHistory::from_json("").is_none());
    assert!(ConversationHistory::from_json("not json at all").is_none());
    assert!(ConversationHistory::from_json("{\"session_id\":\"x\"}").is_none());
    // A truncated record.
    assert!(ConversationHistory::from_json(
        "{\"session_id\":\"s\",\"messages\":[],\"created_at\":1"
    )
    .is_none());
    // Trailing bytes after a well-formed record.
    assert!(ConversationHistory::from_json(
        "{\"session_id\":\"s\",\"messages\":[],\"created_at\":1,\"updated_at\":1}x"
    )
    .is_none());
    // A timestamp beyond the machine range.
    assert!(ConversationHistory::from_json(
        "{\"session_id\":\"s\",\"messages\":[],\"created_at\":99999999999999999999,\"updated_at\":1}"
    )
    .is_none());
}

#[test]
fn test_conversation_history_load_nonexistent() {
    let result = load_record("nonexistent-session", None);

    assert!(result.is_ok());
    if let Ok(history) = result {
        assert_eq!(history.session_id, "nonexistent-session");
        assert!(history.messages.is_empty());
        assert_eq!(history.created_at, history.updated_at);
    }
}

#[test]
fn test_load_existing_record_rekeys_to_requested_id() {
    let history = fixed_history();
    let text = history.to_json();
    let loaded = load_record("other-id", Some(&text)).expect("load");
    assert_eq!(loaded.session_id, "other-id");
    assert_eq!(loaded.messages.len(), 3);
    assert_eq!(loaded.created_at, history.created_at);
    assert_eq!(loaded.updated_at, history.updated_at);
}

#[test]
fn test_load_corrupt_record_is_an_error() {
    let result = load_record("s-1", Some("{\"session_id\":"));
    assert_eq!(result.err(), Some(LoadError::Corruption));
}

#[test]
fn test_load_rejects_update_stamp_behind_creation_stamp() {
    let text = "{\"session_id\":\"s\",\"messages\":[],\"created_at\":10,\"updated_at\":5}";
    assert_eq!(load_record("s", Some(text)).err(), Some(LoadError::Corruption));
}

#[test]
fn test_storage_keys() {
    assert_eq!(storage_key("abc"), "abc.json");
    assert_ne!(storage_key("session-a"), storage_key("session-b"));
}

#[test]
fn test_updated_at_never_behind_created_at() {
    let mut history = ConversationHistory::new("s".to_string());
    let created = history.created_at;
    history.add_message("user".to_string(), "one".to_string());
    history.add_message("assistant".to_string(), "two".to_string());
    assert!(history.updated_at >= created);
    assert_eq!(history.created_at, created);
}
