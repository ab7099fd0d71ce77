use growth_companion::memory::{
    format_memory_for_prompt, patch_core_memory, trim_history, validate_user_id,
};
use growth_companion::types::{ChatMessage, CoreMemory, MemoryPatch};

#[test]
fn test_format_memory_for_prompt() {
    let memory = CoreMemory {
        profile_content: "测试画像".to_string(),
        notes_content: "测试笔记".to_string(),
        ..CoreMemory::default()
    };
    let prompt = format_memory_for_prompt(&memory, 0, 0);
    assert!(prompt.contains("USER PROFILE"));
    assert!(prompt.contains("COMPANION NOTES"));
    assert!(prompt.contains("测试画像"));
    assert!(prompt.contains("测试笔记"));
}

#[test]
fn test_format_empty_memory() {
    let memory = CoreMemory {
        profile_content: String::new(),
        notes_content: String::new(),
        ..CoreMemory::default()
    };
    let prompt = format_memory_for_prompt(&memory, 0, 0);
    assert!(prompt.is_empty());
}

#[test]
fn memory_block_shows_usage_and_capacity() {
    let memory = CoreMemory {
        profile_content: "abc".to_string(),
        notes_content: String::new(),
        profile_max_chars: 10,
        notes_max_chars: 10,
    };
    let prompt = format_memory_for_prompt(&memory, 30, 0);
    let rule = "=".repeat(48);
    assert_eq!(prompt, format!("{rule}\nUSER PROFILE (用户画像) [30% — 3/10 chars]\nabc\n{rule}"));
}

#[test]
fn memory_test_rejects_path_traversal_user_id() {
    let err = validate_user_id("../outside").unwrap_err();
    assert_eq!(err.code, "invalidUserId");
    assert!(validate_user_id("user_1-a").is_ok());
    assert!(validate_user_id("").is_err());
}

#[test]
fn test_patch_add() {
    let memory = CoreMemory {
        profile_content: String::new(),
        notes_content: String::new(),
        profile_max_chars: 1200,
        notes_max_chars: 800,
    };
    let patch = MemoryPatch {
        action: "add".to_string(),
        target: "profile".to_string(),
        content: "用户喜欢编程".to_string(),
        old_text: None,
    };
    let result = patch_core_memory(memory, &patch).unwrap();
    assert_eq!(result.profile_content, "用户喜欢编程");
}

#[test]
fn test_patch_replace() {
    let memory = CoreMemory {
        profile_content: "用户喜欢 Python".to_string(),
        notes_content: String::new(),
        profile_max_chars: 1200,
        notes_max_chars: 800,
    };
    let patch = MemoryPatch {
        action: "replace".to_string(),
        target: "profile".to_string(),
        content: "Rust".to_string(),
        old_text: Some("Python".to_string()),
    };
    let result = patch_core_memory(memory, &patch).unwrap();
    assert_eq!(result.profile_content, "用户喜欢 Rust");
}

#[test]
fn test_patch_capacity_exceeded() {
    let memory = CoreMemory {
        profile_content: "short".to_string(),
        notes_content: String::new(),
        profile_max_chars: 10,
        notes_max_chars: 800,
    };
    let patch = MemoryPatch {
        action: "add".to_string(),
        target: "profile".to_string(),
        content: "this is way too long content".to_string(),
        old_text: None,
    };
    let result = patch_core_memory(memory, &patch);
    assert!(result.is_err());
    assert!(result.unwrap_err().message.contains("exceeds limit"));
}

#[test]
fn patch_errors_name_their_cause() {
    let memory = CoreMemory {
        profile_content: "a b".to_string(),
        notes_content: "notes".to_string(),
        profile_max_chars: 100,
        notes_max_chars: 100,
    };
    let missing = MemoryPatch {
        action: "remove".to_string(),
        target: "notes".to_string(),
        content: String::new(),
        old_text: Some("zzz".to_string()),
    };
    let e = patch_core_memory(memory.clone(), &missing).unwrap_err();
    assert_eq!(e.code, "memory");
    assert_eq!(e.message, "old_text 'zzz' not found in content");
    let unknown = MemoryPatch {
        action: "rename".to_string(),
        target: "profile".to_string(),
        content: String::new(),
        old_text: None,
    };
    assert_eq!(patch_core_memory(memory.clone(), &unknown).unwrap_err().message, "Unknown action: rename");
    let removal = MemoryPatch {
        action: "remove".to_string(),
        target: "notes".to_string(),
        content: String::new(),
        old_text: Some("no".to_string()),
    };
    let out = patch_core_memory(memory, &removal).unwrap();
    assert_eq!(out.notes_content, "tes");
    assert_eq!(out.profile_content, "a b");
}

#[test]
fn test_history_trim() {
    let messages: Vec<ChatMessage> = (0..50)
        .flat_map(|i| {
            vec![
                ChatMessage { role: "user".to_string(), content: format!("msg {i}") },
                ChatMessage { role: "assistant".to_string(), content: format!("reply {i}") },
            ]
        })
        .collect();
    let saved = trim_history(&messages, 20);
    assert_eq!(saved.len(), 40);
    let loaded = trim_history(&saved, 5);
    assert_eq!(loaded.len(), 10);
    assert_eq!(loaded[0].content, "msg 45");
    assert_eq!(loaded[9].content, "reply 49");
}
