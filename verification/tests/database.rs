use growth_companion::database::{turn_search_entry, DbState};

#[test]
fn database_test_rejects_path_traversal_user_id() {
    let db = DbState::new("/data/gc".to_string());
    let err = db.user_db_path("../outside").unwrap_err();
    assert_eq!(err.code, "invalidUserId");
}

#[test]
fn user_database_lives_under_the_user_directory() {
    let db = DbState::new("/data/gc".to_string());
    assert_eq!(db.user_db_dir("user1").unwrap(), "/data/gc/user1");
    assert_eq!(db.user_db_path("user1").unwrap(), "/data/gc/user1/events.db");
    let db = DbState::new("/data/gc/".to_string());
    assert_eq!(db.user_db_path("u").unwrap(), "/data/gc/u/events.db");
}

#[test]
fn turn_index_entry_cuts_by_characters() {
    let long = "汉".repeat(600);
    let (summary, message) = turn_search_entry(&long, "");
    assert_eq!(summary.chars().count(), 200);
    assert_eq!(message.chars().count(), 500);
    let (summary, _) = turn_search_entry("hi", "a summary");
    assert_eq!(summary, "a summary");
}
