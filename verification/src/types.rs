//! The records that the companion keeps and hands to its callers.
use vstd::prelude::*;

verus! {

// ─── Event ────────────────────────────────────────────────────────────────

/// A remembered event. `importance_hundredths` is the importance score in
/// hundredths, as it reads with two decimals (an importance of `0.8` is `80`).
#[derive(Debug, Clone, PartialEq, Eq)]
pub struct Event {
    pub id: String,
    pub content: String,
    pub emotions: Vec<String>,
    pub importance_hundredths: u32,
    pub event_type: Option<String>,
    pub recall_count: u32,
    pub last_recalled_at: Option<String>,
    pub created_at: String,
    pub updated_at: String,
}

// ─── Core Memory ──────────────────────────────────────────────────────────

/// The two long-lived memory blocks of a user, each with a capacity in bytes.
#[derive(Debug, Clone, PartialEq, Eq)]
pub struct CoreMemory {
    pub profile_content: String,
    pub notes_content: String,
    pub profile_max_chars: u32,
    pub notes_max_chars: u32,
}

/// The number of bytes of the UTF-8 encoding of `s` (`str::len`).
pub open spec fn byte_len(s: Seq<char>) -> nat {
    vstd::utf8::encode_utf8(s).len()
}

/// `str::len` of a string whose characters are `s`: the byte count of its UTF-8
/// encoding (a machine word).
pub open spec fn str_len(s: Seq<char>) -> usize {
    byte_len(s) as usize
}

/// Whether `usage` is at least 80% of `max` (a capacity of 0 is never near its limit).
pub open spec fn near_limit(usage: int, max: int) -> bool {
    max > 0 && 5 * usage >= 4 * max
}

impl Default for CoreMemory {
    fn default() -> (r: CoreMemory)
        ensures
            r.profile_content@ == Seq::<char>::empty(),
            r.notes_content@ == Seq::<char>::empty(),
            r.profile_max_chars == 0,
            r.notes_max_chars == 0,
    {
        CoreMemory {
            profile_content: String::new(),
            notes_content: String::new(),
            profile_max_chars: 0,
            notes_max_chars: 0,
        }
    }
}

impl CoreMemory {
    /// The size of the profile block in bytes.
    pub fn profile_usage(&self) -> (r: usize)
        ensures
            r == str_len(self.profile_content@),
    {
        self.profile_content.as_str().len()
    }

    /// The size of the notes block in bytes.
    pub fn notes_usage(&self) -> (r: usize)
        ensures
            r == str_len(self.notes_content@),
    {
        self.notes_content.as_str().len()
    }

    /// Whether the profile block fills at least 80% of its capacity.
    pub fn profile_near_limit(&self) -> (r: bool)
        ensures
            r == near_limit(str_len(self.profile_content@) as int, self.profile_max_chars as int),
    {
        let usage = self.profile_usage() as u128;
        let max = self.profile_max_chars as u128;
        max > 0 && 5 * usage >= 4 * max
    }

    /// Whether the notes block fills at least 80% of its capacity.
    pub fn notes_near_limit(&self) -> (r: bool)
        ensures
            r == near_limit(str_len(self.notes_content@) as int, self.notes_max_chars as int),
    {
        let usage = self.notes_usage() as u128;
        let max = self.notes_max_chars as u128;
        max > 0 && 5 * usage >= 4 * max
    }
}

/// A change to one block of the core memory.
/// `action` is `add`, `replace` or `remove`; `target` is `profile` or anything
/// else for the notes block.
#[derive(Debug, Clone, PartialEq, Eq)]
pub struct MemoryPatch {
    pub action: String,
    pub target: String,
    pub content: String,
    pub old_text: Option<String>,
}

// ─── Chat ─────────────────────────────────────────────────────────────────

#[derive(Debug, Clone, PartialEq, Eq)]
pub struct ChatMessage {
    pub role: String,
    pub content: String,
}

#[derive(Debug, Clone, PartialEq, Eq)]
pub struct ChatDaySummary {
    pub date: String,
    pub message_count: usize,
}

#[derive(Debug, Clone, PartialEq, Eq)]
pub struct ConversationTurn {
    pub id: i64,
    pub summary: String,
    pub emotions: Vec<String>,
    pub created_at: String,
}

// ─── Observations, topics, projects, growth lines ─────────────────────────

#[derive(Debug, Clone, PartialEq, Eq)]
pub struct Observation {
    pub id: String,
    pub date: String,
    pub content: String,
    pub category: Option<String>,
    pub source: Option<String>,
    pub created_at: String,
}

#[derive(Debug, Clone, PartialEq, Eq)]
pub struct Topic {
    pub id: String,
    pub name: String,
    pub description: String,
    pub first_mentioned: Option<String>,
    pub last_mentioned: Option<String>,
    pub mention_count: u32,
}

#[derive(Debug, Clone, PartialEq, Eq)]
pub struct TopicLink {
    pub topic_id: String,
    pub item_id: String,
    pub item_type: String,
}

#[derive(Debug, Clone, PartialEq, Eq)]
pub struct Project {
    pub id: String,
    pub title: String,
    pub description: String,
    pub status: String,
    pub start_date: Option<String>,
    pub end_date: Option<String>,
    pub event_ids: Vec<String>,
    pub summary: String,
    pub created_at: String,
    pub updated_at: String,
}

/// One record of a growth line: its compact JSON text, and its `date` field
/// when that field is a string.
#[derive(Debug, Clone, PartialEq, Eq)]
pub struct GrowthRecord {
    pub date: Option<String>,
    pub json: String,
}

#[derive(Debug, Clone, PartialEq, Eq)]
pub struct GrowthLine {
    pub id: String,
    pub dimension: String,
    pub records: Vec<GrowthRecord>,
}

// ─── Pending and streamed messages ────────────────────────────────────────

#[derive(Debug, Clone, PartialEq, Eq)]
pub struct PendingMessage {
    pub message: String,
    pub reason: String,
    pub created_at: String,
}

#[derive(Debug, Clone, PartialEq, Eq)]
pub struct StreamTokenEvent {
    pub stream_id: String,
    pub token: String,
}

#[derive(Debug, Clone, PartialEq, Eq)]
pub struct StreamErrorEvent {
    pub stream_id: String,
    pub error: String,
}

// ─── Diary ────────────────────────────────────────────────────────────────

#[derive(Debug, Clone, PartialEq, Eq)]
pub struct DiaryEntry {
    pub date: String,
    pub note_id: String,
    pub title: String,
    pub content: String,
    pub created_at: String,
    pub updated_at: String,
}

#[derive(Debug, Clone, PartialEq, Eq)]
pub struct DiaryGenerateResult {
    pub date: String,
    pub note_id: String,
    pub title: String,
    pub content: String,
    pub source_event_count: usize,
    pub source_turn_count: usize,
    pub source_note_count: usize,
    pub regenerated: bool,
}

// ─── Weekly Growth Summary ────────────────────────────────────────────────

#[derive(Debug, Clone, PartialEq, Eq)]
pub struct WeeklySummaryRequest {
    pub user_id: String,
    pub iso_year: i32,
    pub iso_week: u32,
}

#[derive(Debug, Clone, Copy, PartialEq, Eq)]
pub struct WeeklySourceCounts {
    pub diary_count: usize,
    pub event_count: usize,
    pub turn_count: usize,
    pub note_count: usize,
    pub observation_count: usize,
}

impl Default for WeeklySourceCounts {
    fn default() -> (r: WeeklySourceCounts)
        ensures
            r.spec_total() == 0,
            r.diary_count == 0,
            r.event_count == 0,
            r.turn_count == 0,
            r.note_count == 0,
            r.observation_count == 0,
    {
        WeeklySourceCounts {
            diary_count: 0,
            event_count: 0,
            turn_count: 0,
            note_count: 0,
            observation_count: 0,
        }
    }
}

impl WeeklySourceCounts {
    pub open spec fn spec_total(&self) -> int {
        self.diary_count + self.event_count + self.turn_count + self.note_count
            + self.observation_count
    }

    /// The number of source records of all kinds.
    pub fn total(&self) -> (r: usize)
        requires
            self.spec_total() <= usize::MAX,
        ensures
            r == self.spec_total(),
    {
        self.diary_count + self.event_count + self.turn_count + self.note_count
            + self.observation_count
    }
}

#[derive(Debug, Clone, PartialEq, Eq)]
pub struct WeeklySummaryEntry {
    pub iso_year: i32,
    pub iso_week: u32,
    pub week_display_range: String,
    pub note_id: String,
    pub title: String,
    pub content: String,
    pub source_counts: WeeklySourceCounts,
    pub created_at: String,
    pub updated_at: String,
}

#[derive(Debug, Clone, PartialEq, Eq)]
pub struct WeeklySummaryGenerateResult {
    pub iso_year: i32,
    pub iso_week: u32,
    pub week_display_range: String,
    pub note_id: String,
    pub title: String,
    pub content: String,
    pub source_counts: WeeklySourceCounts,
    pub regenerated: bool,
}

#[derive(Debug, Clone, PartialEq, Eq)]
pub struct WeeklySummaryUpdateResult {
    pub iso_year: i32,
    pub iso_week: u32,
    pub week_display_range: String,
    pub note_id: String,
    pub title: String,
    pub content: String,
    pub updated_at: String,
}

// ─── Life Chapter ─────────────────────────────────────────────────────────

#[derive(Debug, Clone, PartialEq, Eq)]
pub struct LifeChapterRequest {
    pub user_id: String,
    pub start_date: String,
    pub end_date: String,
    pub title: Option<String>,
}

#[derive(Debug, Clone, Copy, PartialEq, Eq)]
pub struct LifeChapterSourceCounts {
    pub diary_count: usize,
    pub weekly_summary_count: usize,
    pub event_count: usize,
    pub turn_count: usize,
    pub note_count: usize,
    pub topic_count: usize,
    pub project_count: usize,
    pub growth_line_count: usize,
    pub observation_count: usize,
}

impl Default for LifeChapterSourceCounts {
    fn default() -> (r: LifeChapterSourceCounts)
        ensures
            r.spec_total() == 0,
            r.diary_count == 0,
            r.weekly_summary_count == 0,
            r.event_count == 0,
            r.turn_count == 0,
            r.note_count == 0,
            r.topic_count == 0,
            r.project_count == 0,
            r.growth_line_count == 0,
            r.observation_count == 0,
    {
        LifeChapterSourceCounts {
            diary_count: 0,
            weekly_summary_count: 0,
            event_count: 0,
            turn_count: 0,
            note_count: 0,
            topic_count: 0,
            project_count: 0,
            growth_line_count: 0,
            observation_count: 0,
        }
    }
}

impl LifeChapterSourceCounts {
    pub open spec fn spec_total(&self) -> int {
        self.diary_count + self.weekly_summary_count + self.event_count + self.turn_count
            + self.note_count + self.topic_count + self.project_count + self.growth_line_count
            + self.observation_count
    }

    /// The number of source records of all kinds.
    pub fn total(&self) -> (r: usize)
        requires
            self.spec_total() <= usize::MAX,
        ensures
            r == self.spec_total(),
    {
        self.diary_count + self.weekly_summary_count + self.event_count + self.turn_count
            + self.note_count + self.topic_count + self.project_count + self.growth_line_count
            + self.observation_count
    }
}

#[derive(Debug, Clone, PartialEq, Eq)]
pub struct LifeChapterEntry {
    pub note_id: String,
    pub title: String,
    pub start_date: String,
    pub end_date: String,
    pub content: String,
    pub source_counts: LifeChapterSourceCounts,
    pub created_at: String,
    pub updated_at: String,
}

#[derive(Debug, Clone, PartialEq, Eq)]
pub struct LifeChapterGenerateResult {
    pub note_id: String,
    pub title: String,
    pub start_date: String,
    pub end_date: String,
    pub content: String,
    pub source_counts: LifeChapterSourceCounts,
}

#[derive(Debug, Clone, PartialEq, Eq)]
pub struct LifeChapterUpdateResult {
    pub note_id: String,
    pub title: String,
    pub start_date: String,
    pub end_date: String,
    pub content: String,
    pub updated_at: String,
}

// ─── Defaults ─────────────────────────────────────────────────────────────

pub fn default_profile_max_chars() -> (r: u32)
    ensures
        r == 1200,
{
    1200
}

pub fn default_notes_max_chars() -> (r: u32)
    ensures
        r == 800,
{
    800
}

pub const DEFAULT_PROJECT_STATUS: &'static str = "active";

pub fn default_project_status() -> (r: String)
    ensures
        r@ == DEFAULT_PROJECT_STATUS@,
{
    String::from_str(DEFAULT_PROJECT_STATUS)
}

pub fn default_limit() -> (r: usize)
    ensures
        r == 20,
{
    20
}

} // verus!
