use growth_companion::config::{
    ai_config_path, path_join, default_heartbeat_interval_minutes, default_heartbeat_max_idle_minutes,
    default_heartbeat_min_idle_minutes, default_heartbeat_proactive_enabled,
    default_llm_base_url, default_llm_cheap_model, default_llm_model, default_max_history_turns,
};

#[test]
fn defaults_of_ai_settings() {
    assert_eq!(default_llm_base_url(), "https://api.openai.com/v1");
    assert_eq!(default_llm_model(), "gpt-4o-mini");
    assert_eq!(default_llm_cheap_model(), "gpt-4o-mini");
    assert_eq!(default_max_history_turns(), 20);
    assert_eq!(default_heartbeat_interval_minutes(), 30);
    assert_eq!(default_heartbeat_min_idle_minutes(), 120);
    assert_eq!(default_heartbeat_max_idle_minutes(), 1440);
    assert!(default_heartbeat_proactive_enabled());
}

#[test]
fn config_file_is_in_the_base_directory() {
    assert_eq!(ai_config_path("/home/a/.gc"), "/home/a/.gc/ai_config.json");
    assert_eq!(ai_config_path("/home/a/.gc/"), "/home/a/.gc/ai_config.json");
    assert_eq!(ai_config_path(""), "ai_config.json");
}

#[test]
fn paths_join_with_the_platform_separator() {
    assert_eq!(path_join("C:\\gc", "u", '\\'), "C:\\gc\\u");
    assert_eq!(path_join("C:/gc/", "u", '\\'), "C:/gc/u");
    assert_eq!(path_join("/a\\", "u", '/'), "/a\\/u");
    assert_eq!(path_join("", "u", '/'), "u");
    assert_eq!(path_join("C:", "ai_config.json", '\\'), "C:ai_config.json");
    assert_eq!(path_join("C:", "u", '/'), "C:/u");
    assert_eq!(path_join("1:", "u", '\\'), "1:\\u");
}
