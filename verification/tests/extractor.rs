use growth_companion::extractor::{
    accepted_event_type, build_emotion_extraction_prompt, filter_valid_emotions,
    format_quick_note_for_extraction, quick_event_summary, quick_note_topic_names,
    strip_codeblock, valid_emotions_list,
};

#[test]
fn test_strip_codeblock() {
    let input = "```json\n{\"emotions\": []}\n```";
    let stripped = strip_codeblock(input);
    assert_eq!(stripped, "{\"emotions\": []}");
}

#[test]
fn test_strip_codeblock_no_wrapping() {
    let input = "{\"emotions\": []}";
    let stripped = strip_codeblock(input);
    assert_eq!(stripped, "{\"emotions\": []}");
}

#[test]
fn strip_codeblock_without_closing_fence() {
    assert_eq!(strip_codeblock("```json\n  {\"a\": 1}  "), "{\"a\": 1}");
    assert_eq!(strip_codeblock("```"), "");
}

#[test]
fn test_format_quick_note_for_extraction() {
    assert_eq!(format_quick_note_for_extraction("Decision", "I chose Rust"), "Decision\n\nI chose Rust");
    assert_eq!(format_quick_note_for_extraction(" ", "Only body"), "Only body");
}

#[test]
fn test_filter_invalid_emotions() {
    let raw = vec!["joy".to_string(), "invalid_emotion".to_string(), "calm".to_string()];
    assert_eq!(filter_valid_emotions(&raw), vec!["joy", "calm"]);
}

#[test]
fn test_filter_invalid_event_type() {
    assert!(accepted_event_type(Some("unknown_type".to_string())).is_none());
    assert_eq!(accepted_event_type(Some("Milestone".to_string())), Some("Milestone".to_string()));
    assert!(accepted_event_type(None).is_none());
}

#[test]
fn extraction_prompt_fills_every_slot() {
    let prompt = build_emotion_extraction_prompt("我升职了", "恭喜！");
    assert!(prompt.contains("用户消息：我升职了\n"));
    assert!(prompt.contains("AI 回复：恭喜！\n"));
    assert!(prompt.contains(&valid_emotions_list()));
    assert!(!prompt.contains("{user_message}"));
    assert!(!prompt.contains("{valid_emotions}"));
    assert!(prompt.contains("{{"));
    assert_eq!(valid_emotions_list(), "joy/sadness/anger/anxiety/fear/surprise/disgust/calm/overwhelm/hope");
}

#[test]
fn quick_event_summary_falls_back_to_title_then_content() {
    assert_eq!(quick_event_summary(" Started a new project ", "T", "C"), "Started a new project");
    assert_eq!(quick_event_summary("  ", " Title ", "C"), "Title");
    assert_eq!(quick_event_summary("", " ", "  body  "), "body");
    let long = "字".repeat(200);
    assert_eq!(quick_event_summary("", "", &long).chars().count(), 160);
}

#[test]
fn quick_note_topics_are_trimmed_and_non_blank() {
    let topics = vec![" 健身 ".to_string(), "  ".to_string(), "考研".to_string()];
    assert_eq!(quick_note_topic_names(&topics), vec!["健身", "考研"]);
}
