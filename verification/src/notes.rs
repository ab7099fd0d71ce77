//! The notes that the diary, weekly summaries and life chapters are stored as.
//!
//! The library reads a snapshot of the note store (a list of notes in the
//! store's order) and says what to write back as a [`SaveNoteRequest`].
use vstd::prelude::*;
use crate::dates::{chrono_date, parse_date_chrono, Date};
use crate::text::str_eq;

verus! {

/// A stored note. `created_at` and `updated_at` are RFC 3339 timestamps;
/// `created_date` is the UTC calendar day of `created_at`.
#[derive(Debug, Clone, PartialEq, Eq)]
pub struct NoteRecord {
    pub id: String,
    pub title: String,
    pub category: String,
    pub content: String,
    pub created_at: String,
    pub updated_at: String,
    pub created_date: Date,
}

/// The fields of a note to create, or to write over an existing note.
#[derive(Debug, Clone, PartialEq, Eq)]
pub struct SaveNoteRequest {
    pub title: String,
    pub content: String,
    pub category: String,
}


/// The category of diary notes.
pub const DIARY_NOTE_CATEGORY: &'static str = "diary";

/// The category of weekly growth summaries.
pub const WEEKLY_SUMMARY_CATEGORY: &'static str = "weekly-growth-summary";

/// The category of life chapters.
pub const LIFE_CHAPTER_CATEGORY: &'static str = "life-chapter";

/// The day a note belongs to: a diary note is titled with its date, any other
/// note belongs to the day it was created.
pub open spec fn note_day(n: NoteRecord) -> Option<Date> {
    if n.category@ == DIARY_NOTE_CATEGORY@ {
        chrono_date(n.title@)
    } else {
        Some(n.created_date)
    }
}

pub fn note_date(n: &NoteRecord) -> (r: Option<Date>)
    ensures
        r == note_day(*n),
{
    if str_eq(n.category.as_str(), DIARY_NOTE_CATEGORY) {
        parse_date_chrono(n.title.as_str())
    } else {
        Some(n.created_date)
    }
}

} // verus!
