use growth_companion::types::{
    default_limit, default_notes_max_chars, default_profile_max_chars, default_project_status,
    CoreMemory, LifeChapterSourceCounts, WeeklySourceCounts,
};

#[test]
fn test_core_memory_near_limit() {
    let mem = CoreMemory {
        profile_content: "A".repeat(90),
        notes_content: String::new(),
        profile_max_chars: 100,
        notes_max_chars: 100,
    };
    assert!(mem.profile_near_limit());
}

#[test]
fn core_memory_usage_counts_bytes() {
    let mem = CoreMemory {
        profile_content: "Hello world".to_string(),
        notes_content: "你好".to_string(),
        profile_max_chars: 100,
        notes_max_chars: 7,
    };
    assert_eq!(mem.profile_usage(), 11);
    assert_eq!(mem.notes_usage(), 6);
    assert!(!mem.profile_near_limit());
    assert!(mem.notes_near_limit());
    let empty = CoreMemory::default();
    assert!(!empty.profile_near_limit());
}

#[test]
fn defaults_of_records() {
    assert_eq!(default_profile_max_chars(), 1200);
    assert_eq!(default_notes_max_chars(), 800);
    assert_eq!(default_project_status(), "active");
    assert_eq!(default_limit(), 20);
}

#[test]
fn source_counts_add_up() {
    let w = WeeklySourceCounts { diary_count: 1, event_count: 2, turn_count: 3, note_count: 4, observation_count: 5 };
    assert_eq!(w.total(), 15);
    assert_eq!(WeeklySourceCounts::default().total(), 0);
    let l = LifeChapterSourceCounts { topic_count: 2, growth_line_count: 1, ..LifeChapterSourceCounts::default() };
    assert_eq!(l.total(), 3);
}
