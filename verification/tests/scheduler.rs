use growth_companion::scheduler::{
    get_pending_message, proactive_message, proactive_reason, PendingMessages,
};
use growth_companion::types::PendingMessage;

#[test]
fn test_pending_messages_queue() {
    let mut state = PendingMessages::default();
    assert!(get_pending_message(&mut state, "u1").is_none());

    state.insert(
        "u1".to_string(),
        PendingMessage {
            message: "hello".to_string(),
            reason: "idle".to_string(),
            created_at: "2026-01-01T00:00:00Z".to_string(),
        },
    );

    let msg = get_pending_message(&mut state, "u1");
    assert!(msg.is_some());
    assert_eq!(msg.unwrap().message, "hello");

    assert!(get_pending_message(&mut state, "u1").is_none());
}

#[test]
fn pending_message_replaces_and_stays_per_user() {
    let mut state = PendingMessages::default();
    let pm = |m: &str| PendingMessage { message: m.to_string(), reason: "idle".to_string(), created_at: String::new() };
    state.insert("u1".to_string(), pm("first"));
    state.insert("u1".to_string(), pm("second"));
    state.insert("u2".to_string(), pm("other"));
    assert!(state.has_pending("u2"));
    assert_eq!(get_pending_message(&mut state, "u1").unwrap().message, "second");
    assert!(state.has_pending("u2"));
    assert!(!state.has_pending("u1"));
}

#[test]
fn heartbeat_reasons_follow_idle_time() {
    assert_eq!(proactive_reason(true, false, 0, 120, 1440), None);
    assert_eq!(proactive_reason(true, false, 120 * 60, 120, 1440), None);
    assert_eq!(proactive_reason(true, false, 120 * 60 + 1, 120, 1440), Some("idle"));
    assert_eq!(proactive_reason(true, false, 1440 * 60 + 1, 120, 1440), Some("long_idle"));
    assert_eq!(proactive_reason(false, false, 1440 * 60 + 1, 120, 1440), None);
    assert_eq!(proactive_reason(true, true, 1440 * 60 + 1, 120, 1440), None);
}

#[test]
fn proactive_message_is_trimmed_or_dropped() {
    assert_eq!(proactive_message("  你好呀  \n"), Some("你好呀".to_string()));
    assert_eq!(proactive_message(" \n "), None);
}
