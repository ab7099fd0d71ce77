pub mod locales;
pub mod text;
pub mod error;
pub mod types;
pub mod memory;
pub mod chat;
pub mod dates;
pub mod notes;
pub mod diary;
pub mod life_chapter;
pub mod weekly_summary;
pub mod llm;
pub mod extractor;
pub mod scheduler;
pub mod config;
pub mod database;
pub mod diary_memory;
