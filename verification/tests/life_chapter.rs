use growth_companion::dates::{date_to_string, Date};
use growth_companion::life_chapter::{
    build_life_chapter_prompt, build_sparse_life_chapter, choose_chapter_title,
    collect_notes_for_range, finalize_chapter_markdown, gather_life_chapter_sources,
    generate_chapter_title, life_chapter_messages, life_chapter_save_request,
    life_chapter_update_result, limit_chapter_sources, list_life_chapters,
    normalize_chapter_heading, parse_chapter_range_from_content, saved_life_chapter_result,
    strip_range_metadata, update_life_chapter, with_range_metadata, LifeChapterNoteSource,
    LifeChapterRange, LifeChapterSources,
};
use growth_companion::notes::{NoteRecord, SaveNoteRequest};
use growth_companion::types::{
    Event, GrowthLine, GrowthRecord, LifeChapterSourceCounts, Observation, Project, Topic,
};

fn event(id: &str, content: &str, created_at: &str) -> Event {
    Event {
        id: id.to_string(),
        content: content.to_string(),
        emotions: vec![],
        importance_hundredths: 80,
        event_type: Some("milestone".to_string()),
        recall_count: 0,
        last_recalled_at: None,
        created_at: created_at.to_string(),
        updated_at: created_at.to_string(),
    }
}

fn observation(id: &str, date: &str, content: &str) -> Observation {
    Observation {
        id: id.to_string(),
        date: date.to_string(),
        content: content.to_string(),
        category: Some("growth".to_string()),
        source: Some("reflection".to_string()),
        created_at: format!("{date}T10:00:00Z"),
    }
}

/// A store of notes kept in memory, numbering the notes it creates and
/// stamping each write with a later time.
struct Store {
    notes: Vec<NoteRecord>,
    clock: u32,
}

impl Store {
    fn new() -> Store {
        Store { notes: Vec::new(), clock: 0 }
    }

    fn stamp(&mut self) -> String {
        self.clock += 1;
        format!("2026-07-01T10:00:{:02}+00:00", self.clock)
    }

    fn create_note(&mut self, req: SaveNoteRequest) -> NoteRecord {
        let at = self.stamp();
        let note = NoteRecord {
            id: format!("n{}", self.notes.len() + 1),
            title: req.title,
            category: req.category,
            content: req.content,
            created_at: at.clone(),
            updated_at: at,
            created_date: Date { year: 2026, month: 7, day: 1 },
        };
        self.notes.push(note.clone());
        note
    }

    fn update_note(&mut self, id: &str, req: SaveNoteRequest) -> NoteRecord {
        let at = self.stamp();
        let note = self.notes.iter_mut().find(|n| n.id == id).expect("note exists");
        note.title = req.title;
        note.category = req.category;
        note.content = req.content;
        note.updated_at = at;
        note.clone()
    }

    fn read_note(&self, id: &str) -> NoteRecord {
        self.notes.iter().find(|n| n.id == id).expect("note exists").clone()
    }
}

fn save_chapter(store: &mut Store, range: &LifeChapterRange, title: &str, content: &str) -> growth_companion::types::LifeChapterGenerateResult {
    let req = life_chapter_save_request(title, content);
    let note = store.create_note(req);
    saved_life_chapter_result(range, &note, LifeChapterSourceCounts::default())
}

#[test]
fn validates_chapter_date_range() {
    let range = LifeChapterRange::new("2026-06-01", "2026-06-30").unwrap();
    assert_eq!(date_to_string(range.start_date), "2026-06-01");
    assert_eq!(date_to_string(range.end_date), "2026-06-30");
    assert_eq!(range.start_date, Date { year: 2026, month: 6, day: 1 });
    assert_eq!(range.label(), "2026-06-01 ~ 2026-06-30");

    let err = LifeChapterRange::new("2026-07-01", "2026-06-30").unwrap_err();
    assert_eq!(err.code, "invalidDateRange");
}

#[test]
fn chapter_range_rejects_text_that_is_no_date() {
    let err = LifeChapterRange::new("2026-02-30", "2026-06-30").unwrap_err();
    assert_eq!(err.code, "invalidDate");
    assert_eq!(err.message, "Invalid date: 2026-02-30");
    let err = LifeChapterRange::new("2026-06-01", "soon").unwrap_err();
    assert_eq!(err.message, "Invalid date: soon");
    assert!(LifeChapterRange::new("2026-06-01", "2026-06-01").is_ok());
}

#[test]
fn sparse_chapter_does_not_fill_missing_details() {
    let range = LifeChapterRange::new("2026-06-01", "2026-06-30").unwrap();
    let result = build_sparse_life_chapter(&range, &LifeChapterSources::default());
    assert!(result.content.contains("可用记录较少"));
    assert!(!result.content.contains("dialogue"));
    assert!(!result.content.contains("decision"));
    assert!(!result.title.trim().is_empty());
    assert_eq!(result.title, "2026 6-6: 记录有限");
    assert_eq!(result.start_date, "2026-06-01");
}

#[test]
fn long_range_sources_are_limited_before_prompting() {
    let mut sources = LifeChapterSources::default();
    sources.events = (0..80)
        .map(|index| event(&format!("e{index}"), "important event", "2026-06-01T09:00:00Z"))
        .collect();
    let limited = limit_chapter_sources(sources, 20);
    assert_eq!(limited.events.len(), 20);
    assert_eq!(limited.counts.event_count, 20);
}

#[test]
fn generated_title_uses_date_range_and_source_theme() {
    let range = LifeChapterRange::new("2026-03-01", "2026-05-31").unwrap();
    let sources = LifeChapterSources {
        events: vec![event("e1", "Started allowing imperfect work", "2026-04-01T09:00:00Z")],
        observations: vec![observation("o1", "2026-04-02", "More tolerant of imperfection")],
        ..Default::default()
    };
    let title = generate_chapter_title(&range, &sources);
    assert!(title.contains("2026"));
    assert!(title.contains(":"));
    assert!(!title.contains("Untitled"));
    assert!(!title.contains("limited records"));
    assert_eq!(title, "2026 3-5: More tolerant of imperfectio...");
}

#[test]
fn title_across_years_and_long_themes() {
    let range = LifeChapterRange::new("2025-11-01", "2026-02-28").unwrap();
    let sources = LifeChapterSources {
        notes: vec![LifeChapterNoteSource {
            title: "。one two three four five six seven eight nine ten；".to_string(),
            content: String::new(),
            category: String::new(),
        }],
        ..Default::default()
    };
    let title = generate_chapter_title(&range, &sources);
    assert_eq!(title, "2025-11-01 to 2026-02-28: one two three four five six ...");
    assert_eq!(choose_chapter_title(Some("  ".to_string()), &range, &sources), title);
    assert_eq!(choose_chapter_title(Some("Mine".to_string()), &range, &sources), "Mine");
}

#[test]
fn stable_chapter_note_identity_survives_title_edit() {
    let mut store = Store::new();
    let range = LifeChapterRange::new("2026-06-01", "2026-06-30").unwrap();
    let saved = save_chapter(&mut store, &range, "2026 Jun: A quieter month", "# chapter");
    let edited = store.update_note(
        &saved.note_id,
        SaveNoteRequest {
            title: "A title edited by user".to_string(),
            content: "# chapter edited".to_string(),
            category: "life-chapter".to_string(),
        },
    );
    assert_eq!(saved.note_id, edited.id);
    assert_eq!(store.read_note(&saved.note_id).title, "A title edited by user");
}

#[test]
fn chapter_prompt_contains_missing_detail_constraints() {
    let range = LifeChapterRange::new("2026-06-01", "2026-06-30").unwrap();
    let mut sources = LifeChapterSources {
        events: vec![event("e1", "Started a calmer routine", "2026-06-01T09:00:00Z")],
        ..Default::default()
    };
    sources.refresh_counts();
    let prompt = build_life_chapter_prompt(&range, &sources);
    assert!(prompt.contains("来源数量"));
    assert!(prompt.contains("不要编造缺失的原因"));
    assert!(prompt.contains("数字人格权重"));
    assert!(prompt.contains("全文必须使用中文输出"));
    assert!(prompt.contains("不要像 AI 资料汇总"));
    assert!(prompt.contains("只输出章节成品"));
    assert!(prompt.contains("2026-06-01 ~ 2026-06-30"));
    assert!(prompt.contains("事件记忆:\n1. Started a calmer routine (2026-06-01T09:00:00Z)"));
    assert!(prompt.contains("来源数量：日记=0，周总结=0，事件记忆=1，"));
}

#[test]
fn chapter_prompt_is_empty_without_material() {
    let range = LifeChapterRange::new("2026-06-01", "2026-06-30").unwrap();
    assert_eq!(build_life_chapter_prompt(&range, &LifeChapterSources::default()), "");
}

#[test]
fn growth_line_records_outside_range_do_not_count_as_material() {
    let range = LifeChapterRange::new("2026-06-01", "2026-06-30").unwrap();
    let mut sources = LifeChapterSources {
        growth_lines: vec![GrowthLine {
            id: "gl1".to_string(),
            dimension: "self_trust".to_string(),
            records: vec![GrowthRecord {
                date: Some("2026-05-20".to_string()),
                json: r#"{"date":"2026-05-20","note":"older record"}"#.to_string(),
            }],
        }],
        ..Default::default()
    };
    sources.filter_to_range(&range);
    sources.refresh_counts();
    assert!(!sources.has_material());
    assert_eq!(sources.counts.growth_line_count, 0);
}

#[test]
fn filtering_keeps_what_meets_the_span() {
    let range = LifeChapterRange::new("2026-06-01", "2026-06-30").unwrap();
    let topic = |id: &str, first: Option<&str>, last: Option<&str>| Topic {
        id: id.to_string(),
        name: id.to_string(),
        description: String::new(),
        first_mentioned: first.map(String::from),
        last_mentioned: last.map(String::from),
        mention_count: 1,
    };
    let mut sources = LifeChapterSources {
        topics: vec![
            topic("before", Some("2026-05-01T00:00:00Z"), Some("2026-05-31T23:00:00Z")),
            topic("across", Some("2026-05-01"), Some("2026-07-01")),
            topic("one_end", None, Some("2026-06-15T08:00:00Z")),
            topic("undated", None, None),
        ],
        projects: vec![Project {
            id: "p".to_string(),
            title: "p".to_string(),
            description: String::new(),
            status: "active".to_string(),
            start_date: Some("2026-06-30".to_string()),
            end_date: None,
            event_ids: vec![],
            summary: String::new(),
            created_at: String::new(),
            updated_at: String::new(),
        }],
        growth_lines: vec![GrowthLine {
            id: "g".to_string(),
            dimension: "d".to_string(),
            records: vec![
                GrowthRecord { date: Some("2026-06-02".to_string()), json: "{\"a\":1}".to_string() },
                GrowthRecord { date: None, json: "{}".to_string() },
                GrowthRecord { date: Some("2026-07-02".to_string()), json: "{\"b\":2}".to_string() },
            ],
        }],
        ..Default::default()
    };
    sources.filter_to_range(&range);
    let names: Vec<&str> = sources.topics.iter().map(|t| t.id.as_str()).collect();
    assert_eq!(names, vec!["across", "one_end"]);
    assert_eq!(sources.projects.len(), 1);
    assert_eq!(sources.growth_lines[0].records.len(), 1);
    assert_eq!(sources.counts.topic_count, 2);
    let prompt = build_life_chapter_prompt(&range, &sources);
    assert!(prompt.contains("成长线:\n1. d：[{\"a\":1}]"));
}

#[test]
fn chapter_heading_is_normalized_to_selected_title() {
    let normalized = normalize_chapter_heading("2026 6-6: 真实标题", "# 模型自己起的标题\n\n正文内容");
    assert_eq!(normalized, "# 2026 6-6: 真实标题\n\n正文内容");
}

#[test]
fn heading_is_added_when_the_text_has_none() {
    assert_eq!(normalize_chapter_heading("T", "  body  "), "# T\n\nbody");
    assert_eq!(normalize_chapter_heading("T", "# only heading"), "# T");
    assert_eq!(finalize_chapter_markdown("T", "\n# x\nbody\n"), "# T\n\nbody");
}

#[test]
fn list_and_generate_results_hide_range_metadata_from_content() {
    let mut store = Store::new();
    let range = LifeChapterRange::new("2026-06-01", "2026-06-30").unwrap();
    let saved = save_chapter(
        &mut store,
        &range,
        "2026 6-6: 真实标题",
        &with_range_metadata(&range, "# 2026 6-6: 真实标题\n\n正文内容"),
    );
    assert!(saved.content.starts_with("# 2026 6-6: 真实标题"));
    assert!(!saved.content.contains("start_date:"));

    let listed = list_life_chapters(&store.notes);
    assert_eq!(listed[0].start_date, "2026-06-01");
    assert_eq!(listed[0].end_date, "2026-06-30");
    assert!(!listed[0].content.contains("end_date:"));
}

#[test]
fn stored_span_and_text_read_back() {
    let range = LifeChapterRange::new("2026-06-01", "2026-06-30").unwrap();
    let stored = with_range_metadata(&range, "\n  # T\n\nbody  \n");
    assert_eq!(stored, "---\nstart_date: 2026-06-01\nend_date: 2026-06-30\n---\n\n# T\n\nbody");
    assert_eq!(
        parse_chapter_range_from_content(&stored),
        Some(("2026-06-01".to_string(), "2026-06-30".to_string()))
    );
    assert_eq!(strip_range_metadata(&stored), "# T\n\nbody");
    assert_eq!(strip_range_metadata("plain text"), "plain text");
    assert_eq!(strip_range_metadata("---\r\nstart_date: x\r\n---\r\n\r\nbody"), "body");
    assert_eq!(parse_chapter_range_from_content("no metadata"), None);
}

#[test]
fn chapters_are_listed_latest_update_first() {
    let mut store = Store::new();
    let range = LifeChapterRange::new("2026-06-01", "2026-06-30").unwrap();
    let first = save_chapter(&mut store, &range, "first", "# first");
    store.create_note(SaveNoteRequest { title: "x".to_string(), content: "y".to_string(), category: "diary".to_string() });
    let second = save_chapter(&mut store, &range, "second", "# second");
    let listed = list_life_chapters(&store.notes);
    assert_eq!(listed.len(), 2);
    assert_eq!(listed[0].note_id, second.note_id);
    assert_eq!(listed[1].note_id, first.note_id);
    assert_eq!(listed[1].start_date, "");
    store.update_note(&first.note_id, life_chapter_save_request("first", "# edited"));
    let listed = list_life_chapters(&store.notes);
    assert_eq!(listed[0].note_id, first.note_id);
}

#[test]
fn update_life_chapter_preserves_note_id_and_date_metadata() {
    let mut store = Store::new();
    let range = LifeChapterRange::new("2026-06-01", "2026-06-30").unwrap();
    let saved = save_chapter(&mut store, &range, "Old title", &with_range_metadata(&range, "# Old title\n\nold body"));

    let existing = store.read_note(&saved.note_id);
    let edit = update_life_chapter(&saved.note_id, &existing, "New title".to_string(), "# User heading\n\nnew body".to_string()).unwrap();
    let note = store.update_note(&saved.note_id, edit.request.clone());
    let updated = life_chapter_update_result(&edit, &note);
    let stored = store.read_note(&saved.note_id);

    assert_eq!(updated.note_id, saved.note_id);
    assert_eq!(updated.title, "New title");
    assert_eq!(updated.start_date, "2026-06-01");
    assert_eq!(updated.end_date, "2026-06-30");
    assert_eq!(updated.content, "# New title\n\nnew body");
    assert!(stored.content.contains("start_date: 2026-06-01"));
    assert!(stored.content.contains("end_date: 2026-06-30"));
    assert!(stored.content.contains("# New title"));
}

#[test]
fn update_life_chapter_keeps_title_when_blank() {
    let mut store = Store::new();
    let range = LifeChapterRange::new("2026-06-01", "2026-06-30").unwrap();
    let saved = save_chapter(&mut store, &range, "Kept", &with_range_metadata(&range, "# Kept\n\nbody"));
    let existing = store.read_note(&saved.note_id);
    let edit = update_life_chapter(&saved.note_id, &existing, "   ".to_string(), "text".to_string()).unwrap();
    assert_eq!(edit.request.title, "Kept");
    assert_eq!(edit.request.category, "life-chapter");
    assert_eq!(edit.request.content, "---\nstart_date: 2026-06-01\nend_date: 2026-06-30\n---\n\n# Kept\n\ntext");
}

#[test]
fn update_life_chapter_rejects_non_chapter_note() {
    let mut store = Store::new();
    let note = store.create_note(SaveNoteRequest {
        title: "Plain note".to_string(),
        content: "body".to_string(),
        category: "diary".to_string(),
    });
    let err = update_life_chapter(&note.id, &note, "New title".to_string(), "new body".to_string()).unwrap_err();
    assert_eq!(err.code, "lifeChapterNotFound");
    assert_eq!(err.message, format!("Life chapter {} was not found", note.id));
}

#[test]
fn update_life_chapter_needs_its_span() {
    let mut store = Store::new();
    let note = store.create_note(life_chapter_save_request("t", "# no metadata"));
    let err = update_life_chapter(&note.id, &note, "t".to_string(), "b".to_string()).unwrap_err();
    assert_eq!(err.code, "lifeChapterMetadataMissing");
    assert_eq!(err.message, format!("Life chapter {} is missing date-range metadata", note.id));
}

#[test]
fn notes_of_the_span_become_sources() {
    let range = LifeChapterRange::new("2026-06-01", "2026-06-30").unwrap();
    let mk = |title: &str, category: &str, day: Date| NoteRecord {
        id: title.to_string(),
        title: title.to_string(),
        category: category.to_string(),
        content: format!("{title} body"),
        created_at: String::new(),
        updated_at: String::new(),
        created_date: day,
    };
    let june = Date { year: 2026, month: 6, day: 10 };
    let july = Date { year: 2026, month: 7, day: 10 };
    let notes = vec![
        mk("2026-06-05", "diary", july),
        mk("2026-07-05", "diary", june),
        mk("loose", "", june),
        mk("late", "", july),
        mk("chapter", "life-chapter", june),
        mk("week-2026-W23", "weekly-growth-summary", june),
    ];
    let picked = collect_notes_for_range(&notes, &range);
    let titles: Vec<&str> = picked.iter().map(|n| n.title.as_str()).collect();
    assert_eq!(titles, vec!["2026-06-05", "loose", "week-2026-W23"]);
    let sources = gather_life_chapter_sources(
        vec![],
        vec![],
        vec![observation("o1", "2026-06-02", "in"), observation("o2", "2026-05-02", "out"), observation("o3", "bad", "bad")],
        vec![],
        vec![],
        vec![],
        &notes,
        &range,
    );
    assert_eq!(sources.observations.len(), 1);
    assert_eq!(sources.counts.diary_count, 1);
    assert_eq!(sources.counts.weekly_summary_count, 1);
    assert_eq!(sources.counts.note_count, 1);
    assert_eq!(sources.counts.observation_count, 1);
    let msgs = life_chapter_messages(build_life_chapter_prompt(&range, &sources));
    assert_eq!(msgs[0].role, "system");
    assert!(msgs[1].content.contains("笔记、日记与周总结：\n1. [diary] 2026-06-05\n2026-06-05 body"));
}
