use growth_companion::dates::{date_to_string, Date};
use growth_companion::notes::{NoteRecord, SaveNoteRequest};
use growth_companion::types::{ConversationTurn, Event, Observation, WeeklySourceCounts};
use growth_companion::weekly_summary::{
    build_sparse_weekly_summary, build_weekly_summary_prompt, collect_notes_for_week,
    finalize_weekly_markdown, gather_weekly_sources, list_weekly_summaries, parse_week_title,
    saved_weekly_summary_result, weekly_summary_messages, weekly_summary_save_plan,
    WeeklySummaryIdentity, WeeklySummarySources,
};

fn event(id: &str, content: &str, created_at: &str) -> Event {
    Event {
        id: id.to_string(),
        content: content.to_string(),
        emotions: vec!["calm".to_string()],
        importance_hundredths: 70,
        event_type: Some("milestone".to_string()),
        recall_count: 0,
        last_recalled_at: None,
        created_at: created_at.to_string(),
        updated_at: created_at.to_string(),
    }
}

fn turn(id: i64, summary: &str, created_at: &str) -> ConversationTurn {
    ConversationTurn { id, summary: summary.to_string(), emotions: vec![], created_at: created_at.to_string() }
}

fn observation(id: &str, date: &str, content: &str) -> Observation {
    Observation {
        id: id.to_string(),
        date: date.to_string(),
        content: content.to_string(),
        category: Some("growth".to_string()),
        source: Some("reflection".to_string()),
        created_at: format!("{date}T10:00:00Z"),
    }
}

/// Notes kept in memory, each created on the given day.
struct Store {
    notes: Vec<NoteRecord>,
}

impl Store {
    fn create_note(&mut self, req: SaveNoteRequest, day: Date) -> NoteRecord {
        let note = NoteRecord {
            id: format!("n{}", self.notes.len() + 1),
            title: req.title,
            category: req.category,
            content: req.content,
            created_at: "2026-06-03T10:00:00+00:00".to_string(),
            updated_at: "2026-06-03T10:00:00+00:00".to_string(),
            created_date: day,
        };
        self.notes.push(note.clone());
        note
    }

    fn update_note(&mut self, id: &str, req: SaveNoteRequest) -> NoteRecord {
        let note = self.notes.iter_mut().find(|n| n.id == id).expect("note exists");
        note.title = req.title;
        note.category = req.category;
        note.content = req.content;
        note.clone()
    }

    /// Saves `content` as the summary of `identity` the way the app does.
    fn save_summary(&mut self, identity: &WeeklySummaryIdentity, content: &str, regenerated: bool) -> growth_companion::types::WeeklySummaryGenerateResult {
        let plan = weekly_summary_save_plan(&self.notes, identity, content);
        let note = match plan.existing_note_id {
            Some(id) => self.update_note(&id, plan.request),
            None => self.create_note(plan.request, Date { year: 2026, month: 6, day: 3 }),
        };
        saved_weekly_summary_result(identity, &note, WeeklySourceCounts::default(), regenerated)
    }
}

#[test]
fn computes_iso_week_identity_and_display_range() {
    let identity = WeeklySummaryIdentity::new(2026, 23).expect("valid week");
    assert_eq!(identity.year, 2026);
    assert_eq!(identity.week, 23);
    assert_eq!(identity.note_title(), "week-2026-W23");
    assert_eq!(identity.week_display_range(), "2026-06-01 ~ 2026-06-07");
    assert_eq!(date_to_string(identity.start_date), "2026-06-01");
    assert_eq!(date_to_string(identity.end_date), "2026-06-07");
}

#[test]
fn week_identity_across_a_year_end() {
    let identity = WeeklySummaryIdentity::new(2026, 1).unwrap();
    assert_eq!(identity.week_display_range(), "2025-12-29 ~ 2026-01-04");
    assert_eq!(identity.note_title(), "week-2026-W01");
    let identity = WeeklySummaryIdentity::new(2020, 53).unwrap();
    assert_eq!(identity.week_display_range(), "2020-12-28 ~ 2021-01-03");
}

#[test]
fn aggregates_weekly_sources_and_counts_by_type() {
    let mut store = Store { notes: vec![] };
    store.create_note(
        SaveNoteRequest {
            title: "2026-06-02".to_string(),
            content: "# 2026-06-02\n\nDiary body".to_string(),
            category: "diary".to_string(),
        },
        Date { year: 2026, month: 6, day: 9 },
    );
    store.create_note(
        SaveNoteRequest {
            title: "Loose note".to_string(),
            content: "A note from the same week".to_string(),
            category: String::new(),
        },
        Date { year: 2026, month: 6, day: 3 },
    );
    let sources = WeeklySummarySources::from_parts(
        vec![event("e1", "Finished a difficult task", "2026-06-03T09:00:00Z")],
        vec![turn(1, "Talked about recovery", "2026-06-04T09:00:00Z")],
        vec![observation("o1", "2026-06-05", "More patient under pressure")],
        vec![],
        vec![],
        vec![],
        collect_notes_for_week(&store.notes, &WeeklySummaryIdentity::new(2026, 23).unwrap()),
    );
    assert_eq!(sources.counts.diary_count, 1);
    assert_eq!(sources.counts.event_count, 1);
    assert_eq!(sources.counts.turn_count, 1);
    assert_eq!(sources.counts.note_count, 1);
    assert_eq!(sources.counts.observation_count, 1);
    assert!(sources.has_material());
}

#[test]
fn sparse_week_uses_empty_state_without_inventing_events() {
    let identity = WeeklySummaryIdentity::new(2026, 23).unwrap();
    let sources = WeeklySummarySources::default();
    let result = build_sparse_weekly_summary(&identity, &sources);
    assert!(result.content.contains("可用记录较少"));
    assert_eq!(result.source_counts.total(), 0);
    assert!(!result.content.contains("dialogue"));
    assert!(!result.content.contains("decision"));
    assert!(result.content.starts_with("# week-2026-W23\n\n"));
}

#[test]
fn weekly_prompt_includes_counts_and_grounding_rules() {
    let identity = WeeklySummaryIdentity::new(2026, 23).unwrap();
    let sources = WeeklySummarySources::from_parts(
        vec![event("e1", "Finished a difficult task", "2026-06-03T09:00:00Z")],
        vec![],
        vec![observation("o1", "2026-06-05", "More patient under pressure")],
        vec![],
        vec![],
        vec![],
        vec![],
    );
    let prompt = build_weekly_summary_prompt(&identity, &sources);
    assert!(prompt.contains("来源数量"));
    assert!(prompt.contains("事件记忆=1"));
    assert!(prompt.contains("定性观察=1"));
    assert!(prompt.contains("不要编造事件"));
    assert!(prompt.contains("数字人格权重"));
    assert!(prompt.contains("全文必须使用中文输出"));
    assert!(prompt.contains("不要像 AI 资料汇总"));
    assert!(prompt.contains("只输出周总结成品"));
    assert!(prompt.contains("2026-06-01 ~ 2026-06-07"));
    assert!(prompt.contains("ISO 周 2026-W23（2026-06-01 ~ 2026-06-07）"));
    assert!(prompt.contains("事件记忆：\n1. Finished a difficult task (2026-06-03T09:00:00Z)"));
    assert!(prompt.contains("定性观察：\n1. [2026-06-05] More patient under pressure"));
}

#[test]
fn weekly_prompt_needs_material() {
    let identity = WeeklySummaryIdentity::new(2026, 23).unwrap();
    assert_eq!(build_weekly_summary_prompt(&identity, &WeeklySummarySources::default()), "");
    let only_topics = WeeklySummarySources::from_parts(vec![], vec![], vec![], vec!["t".to_string()], vec![], vec![], vec![]);
    assert!(only_topics.has_material());
    assert!(build_weekly_summary_prompt(&identity, &only_topics).ends_with("不要写得丰富但缺乏依据。"));
}

#[test]
fn same_week_regeneration_replaces_existing_note() {
    let mut store = Store { notes: vec![] };
    let identity = WeeklySummaryIdentity::new(2026, 23).unwrap();
    let first = store.save_summary(&identity, "first body", false);
    let second = store.save_summary(&identity, "second body", true);
    assert_eq!(first.note_id, second.note_id);
    assert_eq!(store.notes.len(), 1);
    assert_eq!(store.notes[0].content, "second body");
    assert!(second.regenerated);
}

#[test]
fn rejects_invalid_iso_week() {
    assert!(WeeklySummaryIdentity::new(2026, 54).is_err());
    let err = WeeklySummaryIdentity::new(2026, 0).unwrap_err();
    assert_eq!(err.code, "invalidIsoWeek");
    assert_eq!(err.message, "Invalid ISO week identity: 2026-W00");
    assert!(WeeklySummaryIdentity::new(2026, 53).is_ok());
    assert!(WeeklySummaryIdentity::new(2025, 53).is_err());
    assert!(WeeklySummaryIdentity::new(i32::MAX, 1).is_err());
}

#[test]
fn list_weekly_summaries_orders_by_week_descending() {
    let mut store = Store { notes: vec![] };
    let first = WeeklySummaryIdentity::new(2026, 22).unwrap();
    let second = WeeklySummaryIdentity::new(2026, 23).unwrap();
    store.save_summary(&first, "first", false);
    store.save_summary(&second, "second", false);
    let entries = list_weekly_summaries(&store.notes).unwrap();
    assert_eq!(entries.len(), 2);
    assert_eq!(entries[0].iso_week, 23);
    assert_eq!(entries[1].iso_week, 22);
    assert_eq!(entries[1].week_display_range, "2026-05-25 ~ 2026-05-31");
}

#[test]
fn listing_skips_other_titles_and_reports_impossible_weeks() {
    let mut store = Store { notes: vec![] };
    let day = Date { year: 2026, month: 6, day: 3 };
    let weekly = |t: &str| SaveNoteRequest { title: t.to_string(), content: String::new(), category: "weekly-growth-summary".to_string() };
    store.create_note(weekly("week-2025-W52"), day);
    store.create_note(weekly("not a week"), day);
    store.create_note(weekly("week-2026-W01"), day);
    let entries = list_weekly_summaries(&store.notes).unwrap();
    assert_eq!(entries.iter().map(|e| (e.iso_year, e.iso_week)).collect::<Vec<_>>(), vec![(2026, 1), (2025, 52)]);
    store.create_note(weekly("week-2026-W60"), day);
    let err = list_weekly_summaries(&store.notes).unwrap_err();
    assert_eq!(err.message, "Invalid ISO week identity: 2026-W60");
    assert_eq!(parse_week_title("week-+2026-W7"), Some((2026, 7)));
    assert_eq!(parse_week_title("week-2026W7"), None);
}

#[test]
fn weekly_output_gets_a_heading() {
    let identity = WeeklySummaryIdentity::new(2026, 23).unwrap();
    assert_eq!(finalize_weekly_markdown(&identity, " body "), "# week-2026-W23\n\nbody");
    assert_eq!(finalize_weekly_markdown(&identity, "# Mine\nbody"), "# Mine\nbody");
    let msgs = weekly_summary_messages("p".to_string());
    assert_eq!(msgs[1].content, "p");
    assert!(msgs[0].content.starts_with("扎根规则"));
}

#[test]
fn gathering_keeps_the_week_only() {
    let identity = WeeklySummaryIdentity::new(2026, 23).unwrap();
    let mut store = Store { notes: vec![] };
    store.create_note(SaveNoteRequest { title: "in".to_string(), content: "c".to_string(), category: String::new() }, Date { year: 2026, month: 6, day: 7 });
    store.create_note(SaveNoteRequest { title: "out".to_string(), content: "c".to_string(), category: String::new() }, Date { year: 2026, month: 6, day: 8 });
    store.create_note(SaveNoteRequest { title: "week-2026-W23".to_string(), content: "c".to_string(), category: "weekly-growth-summary".to_string() }, Date { year: 2026, month: 6, day: 2 });
    let sources = gather_weekly_sources(
        vec![],
        vec![],
        vec![observation("o1", "2026-06-01", "a"), observation("o2", "2026-05-31", "b")],
        &store.notes,
        &identity,
    );
    assert_eq!(sources.notes.len(), 1);
    assert_eq!(sources.notes[0].title, "in");
    assert_eq!(sources.observations.len(), 1);
    assert_eq!(sources.counts.note_count, 1);
}
