use growth_companion::diary_memory::{
    extract_date, extract_keyword_anchors, format_related_memories_for_prompt,
    gather_related_candidates, result_cap, DiaryMemoryQuery, RelatedDiaryMemory,
};
use growth_companion::types::{ConversationTurn, Event};

#[test]
fn test_extract_date() {
    assert_eq!(extract_date("2026-05-30T10:00:00Z"), "2026-05-30");
    assert_eq!(extract_date("2026-01-15T23:59:59Z"), "2026-01-15");
    assert_eq!(extract_date("2026-12-31"), "2026-12-31");
}

#[test]
fn test_format_related_memories_empty() {
    let result = format_related_memories_for_prompt(&[]);
    assert!(result.is_none(), "empty memories should return None");
}

#[test]
fn test_format_related_memories_nonempty() {
    let memories = vec![
        RelatedDiaryMemory {
            event_id: Some("e1".to_string()),
            date: "2026-05-20".to_string(),
            content: "用户参加了面试".to_string(),
            reason: "topic: career".to_string(),
        },
        RelatedDiaryMemory {
            event_id: None,
            date: "2026-05-18".to_string(),
            content: "用户讨论了职业规划".to_string(),
            reason: "keyword match".to_string(),
        },
    ];
    let result = format_related_memories_for_prompt(&memories).unwrap();
    assert!(result.contains("可能相关的过往记忆"), "should contain header");
    assert!(result.contains("不要硬凑因果"), "should contain conservative instruction");
    assert!(result.contains("[2026-05-20]"), "should contain first date");
    assert!(result.contains("[2026-05-18]"), "should contain second date");
    assert!(result.contains("面试"), "should contain first content");
    assert!(result.contains("职业规划"), "should contain second content");
    assert!(result.contains("topic: career"), "should contain first reason");
    assert!(result.contains("keyword match"), "should contain second reason");
    assert!(result.starts_with("---"), "should start with separator");
    assert!(result.ends_with("- [2026-05-18] 用户讨论了职业规划 (keyword match)\n---\n"));
}

#[test]
fn test_extract_keyword_anchors() {
    let events = vec![Event {
        id: "e1".to_string(),
        content: "用户参加了面试并且表现很好".to_string(),
        emotions: vec![],
        importance_hundredths: 80,
        event_type: Some("milestone".to_string()),
        recall_count: 0,
        last_recalled_at: None,
        created_at: "2026-06-01T10:00:00Z".to_string(),
        updated_at: "2026-06-01T10:00:00Z".to_string(),
    }];
    let turns = vec![ConversationTurn {
        id: 1,
        summary: "讨论了职业发展".to_string(),
        emotions: vec![],
        created_at: "2026-06-01T10:00:00Z".to_string(),
    }];
    let query = DiaryMemoryQuery {
        user_id: "test",
        diary_date: "2026-06-01",
        day_events: &events,
        day_turns: &turns,
        day_notes: &vec![("想法笔记".to_string(), "内容".to_string())],
        max_results: 5,
    };
    let anchors = extract_keyword_anchors(&query);
    assert!(!anchors.is_empty(), "should extract at least one anchor");
    assert!(anchors.iter().any(|a| a.contains("面试")), "should contain anchor from event content");
}

#[test]
fn anchors_are_sorted_deduplicated_and_capped() {
    let turns: Vec<ConversationTurn> = ["banana split", "apple pie", "apple tart", "x", "", "cherry"]
        .iter()
        .enumerate()
        .map(|(i, s)| ConversationTurn { id: i as i64, summary: s.to_string(), emotions: vec![], created_at: String::new() })
        .collect();
    let query = DiaryMemoryQuery {
        user_id: "u",
        diary_date: "2026-06-01",
        day_events: &[],
        day_turns: &turns,
        day_notes: &[],
        max_results: 0,
    };
    assert_eq!(extract_keyword_anchors(&query), vec!["apple pie", "banana split", "cherry"]);
    assert_eq!(result_cap(0), 5);
    assert_eq!(result_cap(3), 3);
}

fn past_event(id: &str, content: &str, created_at: &str) -> Event {
    Event {
        id: id.to_string(),
        content: content.to_string(),
        emotions: vec![],
        importance_hundredths: 70,
        event_type: None,
        recall_count: 0,
        last_recalled_at: None,
        created_at: created_at.to_string(),
        updated_at: created_at.to_string(),
    }
}

fn past_turn(id: i64, summary: &str, created_at: &str) -> ConversationTurn {
    ConversationTurn { id, summary: summary.to_string(), emotions: vec![], created_at: created_at.to_string() }
}

#[test]
fn related_candidates_take_each_event_once_and_layer_by_need() {
    let e1 = past_event("e1", "面试准备", "2026-05-20T10:00:00Z");
    let e2 = past_event("e2", "跑步", "2026-05-21T10:00:00Z");
    let hits = vec![
        (e1.clone(), "career".to_string()),
        (e1.clone(), "study".to_string()),
        (e2.clone(), "health".to_string()),
    ];
    let keyword_events = vec![e2.clone(), past_event("e3", "读书", "2026-05-22T10:00:00Z")];
    let turns = vec![past_turn(7, "聊了面试", "2026-05-19T09:00:00Z")];
    let recent = vec![past_event("e9", "搬家", "2026-05-18T10:00:00Z")];

    let got = gather_related_candidates(&hits, &keyword_events, &turns, &recent, 5);
    let picks: Vec<(usize, usize)> = got.iter().map(|c| (c.layer, c.index)).collect();
    assert_eq!(picks, vec![(1, 0), (1, 2), (2, 1), (3, 0)]);
    assert_eq!(got[0].memory.reason, "topic: career");
    assert_eq!(got[0].memory.date, "2026-05-20");
    assert_eq!(got[0].memory.event_id.as_deref(), Some("e1"));
    assert_eq!(got[2].memory.reason, "keyword match");
    assert_eq!(got[3].memory.event_id, None);
    assert_eq!(got[3].memory.reason, "keyword conversation");
    assert_eq!(got[3].memory.content, "聊了面试");

    let capped = gather_related_candidates(&hits, &keyword_events, &turns, &recent, 2);
    assert_eq!(capped.len(), 2);
    assert!(capped.iter().all(|c| c.layer == 1));

    let fallback = gather_related_candidates(&vec![], &vec![], &vec![], &recent, 5);
    assert_eq!(fallback.len(), 1);
    assert_eq!(fallback[0].memory.reason, "recent important");
    assert_eq!(fallback[0].memory.date, "2026-05-18");
}
