use growth_companion::dates::Date;
use growth_companion::diary::{
    build_diary_prompt, diary_messages, diary_save_request, empty_day_diary,
    finalize_diary_content, find_existing_diary, format_events_for_prompt,
    format_notes_for_prompt, format_turns_for_prompt, get_diary, get_diary_list,
    has_direct_diary_sources, list_diary_entries, notes_for_day, validate_date, DIARY_TEMPERATURE_HUNDREDTHS,
};
use growth_companion::notes::NoteRecord;
use growth_companion::types::{ConversationTurn, Event};

fn note(id: &str, title: &str, category: &str, content: &str) -> NoteRecord {
    NoteRecord {
        id: id.to_string(),
        title: title.to_string(),
        category: category.to_string(),
        content: content.to_string(),
        created_at: "2026-05-30T10:00:00+00:00".to_string(),
        updated_at: "2026-05-30T10:00:00+00:00".to_string(),
        created_date: Date { year: 2026, month: 5, day: 30 },
    }
}

#[test]
fn test_validate_date_accepts_valid() {
    assert!(validate_date("2026-05-30").is_ok());
    assert!(validate_date("2026-01-01").is_ok());
    assert!(validate_date("2026-12-31").is_ok());
    assert!(validate_date("2024-02-29").is_ok());
}

#[test]
fn test_validate_date_rejects_invalid() {
    assert!(validate_date("").is_err());
    assert!(validate_date("not-a-date").is_err());
    assert!(validate_date("2026-13-01").is_err());
    assert!(validate_date("2026-01-32").is_err());
    assert!(validate_date("2026-02-30").is_err());
    assert!(validate_date("2025-02-29").is_err());
    assert!(validate_date("2019-01-01").is_err());
    assert!(validate_date("2100-01-01").is_err());
    assert!(validate_date("2026/05/30").is_err());
    assert!(validate_date("2026-4-5").is_err());
}

#[test]
fn validate_date_error_messages_name_the_problem() {
    let e = validate_date("2026/05/30").unwrap_err();
    assert_eq!(e.code, "invalidDate");
    assert_eq!(e.message, "Invalid date format: '2026/05/30'. Expected YYYY-MM-DD");
    let e = validate_date("2026-02-30").unwrap_err();
    assert_eq!(e.message, "Day 30 not valid for February 2026: '2026-02-30'");
    let e = validate_date("2026-04-31").unwrap_err();
    assert_eq!(e.message, "Day 31 not valid for month 4: '2026-04-31'");
    let e = validate_date("2019-01-01").unwrap_err();
    assert_eq!(e.message, "Year out of range 2020-2099: '2019-01-01'");
}

#[test]
fn validate_date_needs_zero_padded_unsigned_parts() {
    let e = validate_date("2026-5-030").unwrap_err();
    assert_eq!(e.code, "invalidDate");
    assert_eq!(e.message, "Invalid month in date: '2026-5-030'");
    let e = validate_date("+2026-5-30").unwrap_err();
    assert_eq!(e.message, "Invalid year in date: '+2026-5-30'");
    let e = validate_date("2026-05-+3").unwrap_err();
    assert_eq!(e.message, "Invalid day in date: '2026-05-+3'");
    let e = validate_date("02026-5-30").unwrap_err();
    assert_eq!(e.message, "Invalid year in date: '02026-5-30'");
    assert!(validate_date("2099-12-31").is_ok());
    assert!(validate_date("2020-01-01").is_ok());
}

#[test]
fn test_empty_day_diary_format() {
    let content = empty_day_diary("2026-05-30");
    assert!(content.starts_with("# 2026-05-30"));
    assert!(content.contains("没有足够的记录"));
}

#[test]
fn test_direct_diary_sources_require_nonempty_turn_summary_or_note() {
    let no_turns: Vec<ConversationTurn> = vec![];
    let no_notes: Vec<(String, String)> = vec![];
    assert!(!has_direct_diary_sources(&no_turns, &no_notes));

    let empty_turns = vec![ConversationTurn {
        id: 1,
        summary: "  ".to_string(),
        emotions: vec![],
        created_at: "2026-06-04T10:00:00Z".to_string(),
    }];
    assert!(!has_direct_diary_sources(&empty_turns, &no_notes));

    let useful_turns = vec![ConversationTurn {
        id: 2,
        summary: "user said something concrete".to_string(),
        emotions: vec![],
        created_at: "2026-06-04T10:00:00Z".to_string(),
    }];
    assert!(has_direct_diary_sources(&useful_turns, &no_notes));

    let blank_notes = vec![("note".to_string(), "   ".to_string())];
    assert!(!has_direct_diary_sources(&no_turns, &blank_notes));

    let useful_notes = vec![("note".to_string(), "one concrete note".to_string())];
    assert!(has_direct_diary_sources(&no_turns, &useful_notes));
}

#[test]
fn test_format_events_for_prompt() {
    let events = vec![Event {
        id: "e1".to_string(),
        content: "用户今天面试了".to_string(),
        emotions: vec!["焦虑".to_string(), "期待".to_string()],
        importance_hundredths: 80,
        event_type: Some("milestone".to_string()),
        recall_count: 0,
        last_recalled_at: None,
        created_at: "2026-05-30T10:00:00Z".to_string(),
        updated_at: "2026-05-30T10:00:00Z".to_string(),
    }];
    let formatted = format_events_for_prompt(&events);
    assert!(formatted.contains("面试"));
    assert!(formatted.contains("焦虑"));
    assert!(formatted.contains("期待"));
    assert!(formatted.contains("0.80"));
}

#[test]
fn format_events_writes_the_exact_line() {
    let events = vec![Event {
        id: "e1".to_string(),
        content: "面试".to_string(),
        emotions: vec!["焦虑".to_string(), "期待".to_string()],
        importance_hundredths: 7,
        event_type: None,
        recall_count: 0,
        last_recalled_at: None,
        created_at: "2026-05-30T10:00:00Z".to_string(),
        updated_at: "2026-05-30T10:00:00Z".to_string(),
    }];
    assert_eq!(format_events_for_prompt(&events), "1. 面试 [情绪: 焦虑, 期待] (重要性: 0.07)");
}

#[test]
fn test_format_turns_for_prompt() {
    let turns = vec![ConversationTurn {
        id: 1,
        summary: "用户讨论了职业规划".to_string(),
        emotions: vec!["困惑".to_string()],
        created_at: "2026-05-30T10:00:00Z".to_string(),
    }];
    let formatted = format_turns_for_prompt(&turns);
    assert!(formatted.contains("职业规划"));
}

#[test]
fn test_format_turns_empty_summary() {
    let turns = vec![ConversationTurn {
        id: 1,
        summary: String::new(),
        emotions: vec![],
        created_at: "2026-05-30T10:00:00Z".to_string(),
    }];
    let formatted = format_turns_for_prompt(&turns);
    assert!(formatted.contains("无摘要"));
}

#[test]
fn test_build_diary_prompt_no_data() {
    let prompt = build_diary_prompt("2026-05-30", "", "", "", "", false, None);
    assert!(prompt.is_empty());
}

#[test]
fn test_build_diary_prompt_with_data() {
    let prompt = build_diary_prompt(
        "2026-05-30",
        "1. 面试事件",
        "1. 职业讨论",
        "### 1. 想法\n\n今天的一些思考",
        "用户画像: 程序员",
        true,
        None,
    );
    assert!(prompt.contains("# 2026-05-30"));
    assert!(prompt.contains("面试事件"));
    assert!(prompt.contains("职业讨论"));
    assert!(prompt.contains("今天的一些思考"));
    assert!(prompt.contains("用户画像"));
}

#[test]
fn test_build_diary_prompt_requires_grounded_nonfiction_style() {
    let prompt = build_diary_prompt(
        "2026-05-30",
        "1. 面试事件",
        "1. 用户提到今天有点累",
        "### 1. 随手记\n\n只写了几个关键词",
        "",
        true,
        None,
    );
    assert!(prompt.contains("今天的对话摘要"));
    assert!(prompt.contains("今天的笔记"));
    assert!(prompt.contains("不得编造"));
    assert!(prompt.contains("不要写成小说"));
    assert!(prompt.contains("不要添加戏剧化场景"));
    assert!(prompt.contains("优先准确"));
}

#[test]
fn test_build_diary_prompt_requires_natural_diary_voice() {
    let prompt = build_diary_prompt(
        "2026-06-03",
        "1. 用户补考通过；2. 用户和女朋友吵架",
        "1. 用户犹豫要不要主动去哄女朋友",
        "### 1. 随手记\n\n补考成功过了，哈哈哈\n\n今天和女朋友吵架了",
        "",
        true,
        Some("--- 可能相关的过往记忆 ---\n- [2026-05-31] 用户曾因补考焦虑\n---"),
    );
    assert!(prompt.contains("自然像本人写下来的日记"));
    assert!(prompt.contains("不要写成资料汇总、复盘报告或事实核查"));
    assert!(prompt.contains("不要在正文里写“笔记里”"));
    assert!(prompt.contains("不要在正文里写“重要事件里”"));
    assert!(prompt.contains("不要在正文里写“记忆里”"));
    assert!(prompt.contains("不要把矛盾分析过程写出来"));
    assert!(prompt.contains("静默采用今天的笔记和对话"));
}

#[test]
fn test_build_diary_prompt_contains_anti_hallucination_rules() {
    let prompt = build_diary_prompt(
        "2026-06-04",
        "1. derived event",
        "1. user said hello",
        "",
        "",
        true,
        Some("--- related memory ---\nold memory\n---"),
    );
    assert!(prompt.contains("ANTI-HALLUCINATION RULES"));
    assert!(prompt.contains("same-day chat summaries or same-day user notes"));
    assert!(prompt.contains("must not create new facts for today"));
    assert!(prompt.contains("Do not infer a concrete event"));
    assert!(prompt.contains("Do not invent causes"));
    assert!(prompt.contains("write a sparse diary"));
}

#[test]
fn test_diary_generation_uses_low_temperature() {
    assert!(DIARY_TEMPERATURE_HUNDREDTHS as f64 / 100.0 <= 0.2);
}

#[test]
fn test_build_diary_prompt_formats_date_in_final_instruction() {
    let prompt = build_diary_prompt("2026-05-30", "1. 面试事件", "1. 职业讨论", "", "", true, None);
    assert!(!prompt.contains("{date}"), "prompt should not contain literal {{date}}: {prompt}");
    let last_line = prompt.lines().last().unwrap();
    assert!(last_line.contains("2026-05-30"), "final instruction should contain formatted date, got: {last_line}");
}

#[test]
fn test_format_notes_for_prompt() {
    let notes = vec![
        ("想法".to_string(), "今天的一些思考".to_string()),
        ("计划".to_string(), "明天要做的事情".to_string()),
    ];
    let formatted = format_notes_for_prompt(&notes);
    assert!(formatted.contains("想法"));
    assert!(formatted.contains("今天的一些思考"));
    assert!(formatted.contains("计划"));
    assert!(formatted.contains("明天要做的事情"));
}

#[test]
fn test_format_notes_empty() {
    let notes: Vec<(String, String)> = vec![];
    let formatted = format_notes_for_prompt(&notes);
    assert!(formatted.is_empty());
}

#[test]
fn test_format_notes_truncates_long_content() {
    let long_content = "a".repeat(2000);
    let notes = vec![("长文".to_string(), long_content)];
    let formatted = format_notes_for_prompt(&notes);
    assert!(formatted.contains("已截断"));
    assert!(formatted.len() < 2000);
}

#[test]
fn test_build_diary_prompt_with_related_memories() {
    let related = "--- 可能相关的过往记忆 ---\n这些记忆可能与今天有关。\n- [2026-05-20] 用户参加了面试 (topic: career)\n---\n";
    let prompt = build_diary_prompt("2026-05-30", "1. 面试事件", "", "", "", true, Some(related));
    assert!(prompt.contains("可能相关的过往记忆"), "should include related memories section");
    assert!(prompt.contains("[2026-05-20]"), "should include related memory date");
}

#[test]
fn test_build_diary_prompt_without_related_memories() {
    let prompt = build_diary_prompt("2026-05-30", "1. 面试事件", "", "", "", true, None);
    assert!(!prompt.contains("可能相关的过往记忆"), "should NOT include related memories section");
}

#[test]
fn diary_messages_send_rules_then_prompt() {
    let msgs = diary_messages("the prompt".to_string());
    assert_eq!(msgs.len(), 2);
    assert_eq!(msgs[0].role, "system");
    assert!(msgs[0].content.contains("ANTI-HALLUCINATION RULES"));
    assert_eq!(msgs[1].role, "user");
    assert_eq!(msgs[1].content, "the prompt");
}

#[test]
fn finalized_diary_is_headed_by_the_date() {
    assert_eq!(finalize_diary_content("2026-05-30", "  body text \n"), "# 2026-05-30\n\nbody text");
    assert_eq!(finalize_diary_content("2026-05-30", "# 2026-05-30\n\nbody"), "# 2026-05-30\n\nbody");
}

#[test]
fn test_diary_idempotency_find_existing() {
    let date = "2026-05-30";
    let content = "# 2026-05-30\n\nTest diary content.";
    let request = diary_save_request(date, content);
    assert_eq!(request.title, date);
    assert_eq!(request.category, "diary");
    let store = vec![note("n1", &request.title, &request.category, &request.content)];
    let found = find_existing_diary(&store, date).expect("the saved diary is found");
    assert_eq!(found.note_id, "n1");
    assert_eq!(found.date, date);
    assert_eq!(found.content, content);
}

#[test]
fn diary_lookup_ignores_other_categories_and_dates() {
    let store = vec![
        note("a", "2026-05-30", "plain", "x"),
        note("b", "2026-05-29", "diary", "y"),
        note("c", "2026-05-30", "diary", "z"),
    ];
    assert_eq!(find_existing_diary(&store, "2026-05-30").unwrap().note_id, "c");
    assert!(find_existing_diary(&store, "2026-05-28").is_none());
    assert!(get_diary("u", "2026-5-30", &store).is_err());
    assert_eq!(get_diary("u", "2026-05-29", &store).unwrap().unwrap().note_id, "b");
}

#[test]
fn diary_list_is_capped_and_content_free() {
    let store = vec![
        note("a", "2026-05-30", "diary", "x"),
        note("b", "2026-05-29", "plain", "y"),
        note("c", "2026-05-28", "diary", "z"),
    ];
    let all = get_diary_list("u", None, &store);
    assert_eq!(all.len(), 2);
    assert_eq!(all[0].note_id, "a");
    assert_eq!(all[1].date, "2026-05-28");
    assert!(all[0].content.is_empty());
    assert_eq!(list_diary_entries(&store, 1).len(), 1);
    assert!(list_diary_entries(&store, 0).is_empty());
    assert!(get_diary_list("u", Some(0), &store).is_empty());
}

#[test]
fn day_notes_skip_diaries_and_other_days() {
    let mut early = note("n0", "昨天", "inbox", "前一天的笔记");
    early.created_at = "2026-05-29T15:59:59+00:00".to_string();
    let mut late = note("n3", "明天", "inbox", "后一天的笔记");
    late.created_at = "2026-05-30T16:00:00+00:00".to_string();
    let notes = vec![
        early,
        note("n1", "读书", "inbox", "读了半本书"),
        note("d1", "2026-05-30", "diary", "# 2026-05-30\n\n日记"),
        note("n2", "散步", "life", "傍晚散步"),
        late,
    ];
    let day = notes_for_day(&notes, "2026-05-29T16:00:00Z", "2026-05-30T15:59:59Z");
    assert_eq!(
        day,
        vec![
            ("读书".to_string(), "读了半本书".to_string()),
            ("散步".to_string(), "傍晚散步".to_string()),
        ]
    );
    assert!(notes_for_day(&notes, "2026-06-01T00:00:00Z", "2026-06-01T23:59:59Z").is_empty());
}
