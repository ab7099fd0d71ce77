use growth_companion::chat::{
    append_exchange, build_chat_messages, build_system_prompt, escape_fts5_query,
    event_type_emoji, format_retrieved_memories, topic_link_action, truncate_for_display,
    TopicLinkAction, SYSTEM_PROMPT_TEMPLATE,
};
use growth_companion::types::{ChatMessage, ConversationTurn, Event, Topic};

fn event(content: &str, emotions: Vec<String>, event_type: Option<String>, created_at: &str) -> Event {
    Event {
        id: "evt1".into(),
        content: content.into(),
        emotions,
        importance_hundredths: 80,
        event_type,
        recall_count: 0,
        last_recalled_at: None,
        created_at: created_at.into(),
        updated_at: created_at.into(),
    }
}

#[test]
fn test_system_prompt_contains_key_phrases() {
    assert!(SYSTEM_PROMPT_TEMPLATE.contains("Growth Companion"));
    assert!(SYSTEM_PROMPT_TEMPLATE.contains("见证"));
    assert!(SYSTEM_PROMPT_TEMPLATE.contains("追问"));
}

#[test]
fn test_escape_fts5_query_removes_special_chars() {
    let input = "今天\"面试\"怎么样* (还不错) - 开心^";
    let escaped = escape_fts5_query(input);
    assert!(!escaped.contains('"'));
    assert!(!escaped.contains('*'));
    assert!(!escaped.contains('('));
    assert!(!escaped.contains(')'));
    assert!(!escaped.contains('-'));
    assert!(!escaped.contains('^'));
}

#[test]
fn test_escape_fts5_query_truncates_long_input() {
    let input: String = std::iter::repeat("你好").take(100).collect::<String>();
    let escaped = escape_fts5_query(&input);
    assert!(escaped.chars().count() <= 122, "got {} chars", escaped.chars().count());
}

#[test]
fn test_event_type_emoji_variants() {
    assert_eq!(event_type_emoji(&Some("milestone".into())), "🏔");
    assert_eq!(event_type_emoji(&Some("conflict".into())), "⚡");
    assert_eq!(event_type_emoji(&Some("decision".into())), "🎯");
    assert_eq!(event_type_emoji(&Some("emotion".into())), "💭");
    assert_eq!(event_type_emoji(&None), "📌");
    assert_eq!(event_type_emoji(&Some("unknown".into())), "📌");
}

#[test]
fn test_truncate_for_display_short_text() {
    assert_eq!(truncate_for_display("hello", 10), "hello");
}

#[test]
fn test_truncate_for_display_long_text() {
    let long = "你好".repeat(80);
    let result = truncate_for_display(&long, 150);
    assert!(result.chars().count() <= 153);
    assert!(result.ends_with('…'));
}

#[test]
fn truncate_for_display_keeps_exactly_the_limit() {
    let result = truncate_for_display("abcdef", 3);
    assert_eq!(result, "abc…");
}

#[test]
fn test_format_retrieved_memories_empty() {
    let result = format_retrieved_memories(&vec![], &vec![]);
    assert!(result.is_none());
}

#[test]
fn test_format_retrieved_memories_with_events_and_turns() {
    let events = vec![event(
        "用户参加了面试",
        vec!["anxiety".into(), "hope".into()],
        Some("milestone".into()),
        "2026-05-25T10:00:00Z",
    )];
    let turns = vec![ConversationTurn {
        id: 1,
        summary: "用户聊到找工作的事情".into(),
        emotions: vec!["anxiety".into()],
        created_at: "2026-05-20T08:00:00Z".into(),
    }];
    let result = format_retrieved_memories(&turns, &events);
    assert!(result.is_some());
    let text = result.unwrap();
    assert!(text.contains("相关历史记忆"));
    assert!(text.contains("过往相关事件"));
    assert!(text.contains("参加了面试"));
    assert!(text.contains("🏔"));
    assert!(text.contains("[anxiety, hope]"));
    assert!(text.contains("相关过往对话"));
    assert!(text.contains("找工作"));
}

#[test]
fn test_format_retrieved_memories_only_events() {
    let events = vec![event("测试事件", vec![], None, "2026-05-15T00:00:00Z")];
    let result = format_retrieved_memories(&vec![], &events);
    assert!(result.is_some());
    let text = result.unwrap();
    assert!(text.contains("过往相关事件"));
    assert!(!text.contains("相关过往对话"));
    assert!(text.contains("📌"));
}

#[test]
fn test_format_retrieved_memories_only_turns() {
    let turns = vec![ConversationTurn {
        id: 2,
        summary: "一段很长的摘要".into(),
        emotions: vec![],
        created_at: "2026-05-18T12:00:00Z".into(),
    }];
    let result = format_retrieved_memories(&turns, &vec![]);
    assert!(result.is_some());
    let text = result.unwrap();
    assert!(!text.contains("过往相关事件"));
    assert!(text.contains("相关过往对话"));
}

#[test]
fn system_prompt_places_memory_and_retrieved_text() {
    let without = build_system_prompt("", None);
    assert!(without.starts_with("你是 Growth Companion"));
    assert!(!without.contains("USER PROFILE"));
    let with = build_system_prompt("USER PROFILE 测试用户画像", Some("过去你提到过关于工作的焦虑"));
    assert!(with.contains("测试用户画像"));
    assert!(with.contains("过去你提到过关于工作的焦虑"));
}

#[test]
fn chat_messages_put_system_history_then_user() {
    let history = vec![ChatMessage { role: "user".into(), content: "hi".into() }];
    let msgs = build_chat_messages("sys".to_string(), &history, "next");
    assert_eq!(msgs.len(), 3);
    assert_eq!(msgs[0].role, "system");
    assert_eq!(msgs[0].content, "sys");
    assert_eq!(msgs[1].content, "hi");
    assert_eq!(msgs[2].role, "user");
    assert_eq!(msgs[2].content, "next");
    let after = append_exchange(&history, "next", "reply");
    assert_eq!(after.len(), 3);
    assert_eq!(after[2].role, "assistant");
    assert_eq!(after[2].content, "reply");
}

#[test]
fn known_topics_are_mentioned_again_and_new_ones_created_once() {
    let known = Topic {
        id: "t1".to_string(),
        name: "career".to_string(),
        description: "work".to_string(),
        first_mentioned: None,
        last_mentioned: None,
        mention_count: 4,
    };
    assert_eq!(
        topic_link_action(Some(&known), "career", "new".to_string()),
        TopicLinkAction::Touch { topic_id: "t1".to_string(), mention_count: 5 }
    );
    match topic_link_action(None, "health", "t2".to_string()) {
        TopicLinkAction::Create { topic } => {
            assert_eq!(topic.id, "t2");
            assert_eq!(topic.name, "health");
            assert_eq!(topic.mention_count, 1);
            assert!(topic.description.is_empty());
        }
        other => panic!("expected a new topic, got {other:?}"),
    }
}
