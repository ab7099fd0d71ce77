//! Life chapters: a chapter of the user's story over a chosen span of days,
//! written from the records of that span and stored as a note whose front
//! matter keeps the span.
use vstd::prelude::*;
use crate::chat::option_view;
use crate::dates::{
    chrono_date, date_le, lemma_date_str_chars, date_prefix, date_str, date_to_string, parse_date_chrono, parse_date_prefix,
    Date,
};
use crate::error::{error_spec, AppError, ErrorSpec};
use crate::notes::{
    note_date, note_day, NoteRecord, SaveNoteRequest, DIARY_NOTE_CATEGORY, LIFE_CHAPTER_CATEGORY,
    WEEKLY_SUMMARY_CATEGORY,
};
use crate::text::{
    contains_seq, copy_string, drop_cr, ends_with, i64_to_string, lemma_contains_middle,
    lemma_contains_trans, lemma_join_contains, lemma_join_ends, lemma_section_contains, int_str, is_blank, is_digit, is_ws, lemma_split_char_after,
    lemma_find_from_first, lemma_seq_lt_asym, lemma_seq_lt_trans,
    lemma_split_char_nonempty, lemma_trim_no_ws_ends, lemma_trim_start_of_trim,
    occurs_at, split_char, join, join_strings, lines, lines_of, nat_str,
    seq_lt, skip_chars, split_once, split_once_str, starts_with, str_eq, str_lt, str_starts_with,
    to_owned, trim,
    trim_start, trim_start_str, trim_str, truncate_chars, truncated, u64_to_string, views, words,
    words_of,
};
use crate::types::{
    ChatMessage, ConversationTurn, Event, GrowthLine, GrowthRecord, LifeChapterEntry,
    LifeChapterGenerateResult, LifeChapterSourceCounts, LifeChapterUpdateResult, Observation, Project,
    Topic,
};

verus! {

pub const LIFE_CHAPTER_TEMPERATURE_HUNDREDTHS: u32 = 25;

pub const LIFE_CHAPTER_MAX_TOKENS: u32 = 3000;

pub const MAX_CHAPTER_EVENTS: usize = 160;

pub const MAX_CHAPTER_TURNS: usize = 260;

/// How many records of each kind a chapter is written from.
pub const DEFAULT_CHAPTER_SOURCE_LIMIT: usize = 60;

pub const INVALID_DATE: &'static str = "invalidDate";

pub const INVALID_DATE_PREFIX: &'static str = "Invalid date: ";

pub const INVALID_DATE_RANGE: &'static str = "invalidDateRange";

pub const INVALID_DATE_RANGE_MESSAGE: &'static str = "end date must be on or after start date";

pub const RANGE_SEP: &'static str = " ~ ";

/// The theme of a chapter when its records give none.
pub const LIMITED_RECORDS: &'static str = "记录有限";

pub const SPACE: &'static str = " ";

pub const MONTH_SEP: &'static str = "-";

pub const YEARS_SEP: &'static str = " to ";

pub const TITLE_SEP: &'static str = ": ";

pub const HEADING: &'static str = "# ";

pub const PART_SEP: &'static str = "\n\n";

pub const LINE_SEP: &'static str = "\n";

pub const SPARSE_TAIL: &'static str = " 这段时间的可用记录较少。为了避免补写没有依据的经历，这一章会保持简短，只保留已有记录能够支撑的内容。";

pub const LIFE_CHAPTER_GROUNDING_RULES: &'static str = "扎根规则：\n- 只使用所选日期范围内提供的记录。\n- 全文必须使用中文输出。\n- 不要编造缺失的原因、对话、决定、结果、时间线、地点或关系状态。\n- 如果来源材料稀疏，就写成简短章节，并明确说明记录有限。\n- 优先写有日期范围支撑的变化模式，不要制造缺乏依据的故事弧线。\n- 不要出现数字人格权重或 Ti/Te/Fi/Fe/Si/Se/Ni/Ne 时间线。";

pub const CHAPTER_STYLE: &'static str = "写作风格要求（优先级很高）：\n- 使用 Markdown，标题格式参考《时间标签：一句描述变化的话》。\n- 语气要像用户在回看自己经历过的一段时期，不要像 AI 资料汇总。\n- 不要写成研究报告、项目复盘、事实核查或来源审计。\n- 正文里不要反复出现“根据记录”“材料显示”“来源显示”“对话里”“笔记里”“事件记忆里”。\n- 可以串联长期模式、情绪变化、主题反复出现的地方，但不要把没有依据的联系写成确定事实。\n- 如果材料很少，宁可写短一点；不要为了形成完整人生故事而补充不存在的细节。\n- 只输出章节成品，不输出分析过程、证据判断或写作说明。";

pub const PROMPT_HEAD_A: &'static str = "你是一个克制、准确、自然的成长日记整理助手。请根据以下记录，为 ";

pub const PROMPT_HEAD_B: &'static str = " 生成一章中文人生章节，并生成一个有反思感的中文标题。";

pub const PROMPT_FINAL: &'static str = "请直接输出中文 Markdown 人生章节正文。宁可短而真实，也不要写得完整但缺乏依据。";

pub const COUNT_DIARY: &'static str = "来源数量：日记=";

pub const COUNT_WEEKLY: &'static str = "，周总结=";

pub const COUNT_EVENTS: &'static str = "，事件记忆=";

pub const COUNT_TURNS: &'static str = "，对话摘要=";

pub const COUNT_NOTES: &'static str = "，笔记=";

pub const COUNT_TOPICS: &'static str = "，主题=";

pub const COUNT_PROJECTS: &'static str = "，项目=";

pub const COUNT_LINES: &'static str = "，成长线=";

pub const COUNT_OBSERVATIONS: &'static str = "，定性观察=";

pub const NOTES_HEAD: &'static str = "笔记、日记与周总结：\n";

pub const EVENTS_LABEL: &'static str = "事件记忆";

pub const TURNS_LABEL: &'static str = "对话摘要";

pub const OBSERVATIONS_LABEL: &'static str = "定性观察";

pub const TOPICS_LABEL: &'static str = "主题";

pub const PROJECTS_LABEL: &'static str = "项目";

pub const LINES_LABEL: &'static str = "成长线";

pub const LABEL_END: &'static str = ":\n";

pub const ITEM_DOT: &'static str = ". ";

pub const BRACKET_OPEN: &'static str = "[";

pub const BRACKET_CLOSE_SPACE: &'static str = "] ";

pub const PAREN_OPEN: &'static str = " (";

pub const PAREN_CLOSE: &'static str = ")";

pub const FULL_COLON: &'static str = "：";

pub const FIRST_SEEN: &'static str = "；首次=";

pub const LAST_SEEN: &'static str = "；最近=";

pub const MENTIONS: &'static str = "；次数=";

pub const STATUS_OPEN: &'static str = " [";

pub const STATUS_CLOSE: &'static str = "]：";

pub const SPAN: &'static str = "；范围=";

pub const UNKNOWN: &'static str = "未知";

pub const JSON_OPEN: &'static str = "[";

pub const JSON_SEP: &'static str = ",";

pub const JSON_CLOSE: &'static str = "]";

pub const FRONT_START: &'static str = "---\nstart_date: ";

pub const FRONT_END: &'static str = "\nend_date: ";

pub const FRONT_CLOSE: &'static str = "\n---\n\n";

pub const START_KEY: &'static str = "start_date: ";

pub const END_KEY: &'static str = "end_date: ";

pub const FENCE_LF: &'static str = "---\n";

pub const FENCE_CRLF: &'static str = "---\r\n";

pub const CLOSING_LF: &'static str = "\n---\n";

pub const CLOSING_CRLF: &'static str = "\r\n---\r\n";

pub const ROLE_SYSTEM: &'static str = "system";

pub const ROLE_USER: &'static str = "user";

pub const CHAPTER_NOT_FOUND: &'static str = "lifeChapterNotFound";

pub const METADATA_MISSING: &'static str = "lifeChapterMetadataMissing";

pub const CHAPTER_PREFIX: &'static str = "Life chapter ";

pub const NOT_FOUND_SUFFIX: &'static str = " was not found";

pub const MISSING_SUFFIX: &'static str = " is missing date-range metadata";

// ─── The span of a chapter ────────────────────────────────────────────────

/// The days a chapter covers, both ends included.
#[derive(Debug, Clone, Copy, PartialEq, Eq, Structural)]
pub struct LifeChapterRange {
    pub start_date: Date,
    pub end_date: Date,
}

impl LifeChapterRange {
    /// Both ends are days of the calendar and the span is not empty.
    pub open spec fn wf(self) -> bool {
        &&& self.start_date.valid()
        &&& self.end_date.valid()
        &&& self.start_date.le(self.end_date)
    }

    pub open spec fn spec_contains(self, d: Date) -> bool {
        self.start_date.le(d) && d.le(self.end_date)
    }
}

pub open spec fn invalid_date_error(value: Seq<char>) -> ErrorSpec {
    error_spec(INVALID_DATE@, INVALID_DATE_PREFIX@ + value)
}

/// The span from `start` to `end` (each `YYYY-MM-DD`), or why there is none:
/// the first of them that is not a date, or an end before the start.
pub open spec fn range_outcome(start: Seq<char>, end: Seq<char>) -> Result<LifeChapterRange, ErrorSpec> {
    match chrono_date(start) {
        None => Err(invalid_date_error(start)),
        Some(a) => match chrono_date(end) {
            None => Err(invalid_date_error(end)),
            Some(b) => if a.le(b) {
                Ok(LifeChapterRange { start_date: a, end_date: b })
            } else {
                Err(error_spec(INVALID_DATE_RANGE@, INVALID_DATE_RANGE_MESSAGE@))
            },
        },
    }
}

/// `start ~ end`.
pub open spec fn range_label(r: LifeChapterRange) -> Seq<char> {
    date_str(r.start_date) + RANGE_SEP@ + date_str(r.end_date)
}

fn parse_chapter_date(value: &str) -> (r: Result<Date, AppError>)
    ensures
        match (r, chrono_date(value@)) {
            (Ok(d), Some(e)) => d == e && d.valid(),
            (Err(err), None) => err@ == invalid_date_error(value@),
            _ => false,
        },
{
    match parse_date_chrono(value) {
        Some(d) => Ok(d),
        None => {
            let mut msg = to_owned(INVALID_DATE_PREFIX);
            msg.append(value);
            Err(AppError::new(INVALID_DATE, msg))
        },
    }
}

impl LifeChapterRange {
    /// The span from `start_date` to `end_date`, both `YYYY-MM-DD`.
    pub fn new(start_date: &str, end_date: &str) -> (r: Result<Self, AppError>)
        ensures
            match (r, range_outcome(start_date@, end_date@)) {
                (Ok(x), Ok(y)) => x == y && x.wf(),
                (Err(e), Err(s)) => e@ == s,
                _ => false,
            },
    {
        let start = match parse_chapter_date(start_date) {
            Ok(d) => d,
            Err(e) => return Err(e),
        };
        let end = match parse_chapter_date(end_date) {
            Ok(d) => d,
            Err(e) => return Err(e),
        };
        if !date_le(start, end) {
            return Err(AppError::new(INVALID_DATE_RANGE, to_owned(INVALID_DATE_RANGE_MESSAGE)));
        }
        Ok(LifeChapterRange { start_date: start, end_date: end })
    }

    /// Whether `date` lies in the span.
    pub fn contains_date(&self, date: Date) -> (r: bool)
        ensures
            r == self.spec_contains(date),
    {
        date_le(self.start_date, date) && date_le(date, self.end_date)
    }

    /// The span as `start ~ end`.
    pub fn label(&self) -> (r: String)
        ensures
            r@ == range_label(*self),
    {
        let mut r = date_to_string(self.start_date);
        r.append(RANGE_SEP);
        r.append(date_to_string(self.end_date).as_str());
        r
    }
}

// ─── Sources ──────────────────────────────────────────────────────────────

/// A note that a chapter is written from.
#[derive(Debug, Clone, PartialEq, Eq)]
pub struct LifeChapterNoteSource {
    pub title: String,
    pub content: String,
    pub category: String,
}

/// The records a chapter is written from, and how many there are of each kind.
#[derive(Debug, Clone, PartialEq, Eq)]
pub struct LifeChapterSources {
    pub events: Vec<Event>,
    pub turns: Vec<ConversationTurn>,
    pub observations: Vec<Observation>,
    pub topics: Vec<Topic>,
    pub projects: Vec<Project>,
    pub growth_lines: Vec<GrowthLine>,
    pub notes: Vec<LifeChapterNoteSource>,
    pub counts: LifeChapterSourceCounts,
}

impl Default for LifeChapterSources {
    fn default() -> (r: LifeChapterSources)
        ensures
            r.events@.len() == 0,
            r.turns@.len() == 0,
            r.observations@.len() == 0,
            r.topics@.len() == 0,
            r.projects@.len() == 0,
            r.growth_lines@.len() == 0,
            r.notes@.len() == 0,
            r.counts == counts_of(r),
            r.counts.spec_total() == 0,
    {
        LifeChapterSources {
            events: Vec::new(),
            turns: Vec::new(),
            observations: Vec::new(),
            topics: Vec::new(),
            projects: Vec::new(),
            growth_lines: Vec::new(),
            notes: Vec::new(),
            counts: LifeChapterSourceCounts::default(),
        }
    }
}

/// How many of `notes` are in category `cat`.
pub open spec fn category_count(notes: Seq<LifeChapterNoteSource>, cat: Seq<char>) -> nat
    decreases notes.len(),
{
    if notes.len() == 0 {
        0
    } else {
        category_count(notes.drop_last(), cat) + if notes.last().category@ == cat {
            1nat
        } else {
            0nat
        }
    }
}

/// The counts of `s`: diaries and weekly summaries among its notes, the other
/// notes, and the length of each other list.
pub open spec fn counts_of(s: LifeChapterSources) -> LifeChapterSourceCounts {
    let diary = category_count(s.notes@, DIARY_NOTE_CATEGORY@);
    let weekly = category_count(s.notes@, WEEKLY_SUMMARY_CATEGORY@);
    LifeChapterSourceCounts {
        diary_count: diary as usize,
        weekly_summary_count: weekly as usize,
        event_count: s.events@.len() as usize,
        turn_count: s.turns@.len() as usize,
        note_count: (s.notes@.len() - diary - weekly) as usize,
        topic_count: s.topics@.len() as usize,
        project_count: s.projects@.len() as usize,
        growth_line_count: s.growth_lines@.len() as usize,
        observation_count: s.observations@.len() as usize,
    }
}

/// The records of `s` other than its counts are those of `t`.
pub open spec fn same_records(s: LifeChapterSources, t: LifeChapterSources) -> bool {
    &&& s.events == t.events
    &&& s.turns == t.turns
    &&& s.observations == t.observations
    &&& s.topics == t.topics
    &&& s.projects == t.projects
    &&& s.growth_lines == t.growth_lines
    &&& s.notes == t.notes
}

fn count_note_kinds(notes: &Vec<LifeChapterNoteSource>) -> (r: (usize, usize, usize))
    ensures
        r.0 == category_count(notes@, DIARY_NOTE_CATEGORY@),
        r.1 == category_count(notes@, WEEKLY_SUMMARY_CATEGORY@),
        r.2 == notes@.len() - r.0 - r.1,
{
    let mut diary: usize = 0;
    let mut weekly: usize = 0;
    let mut other: usize = 0;
    let mut i: usize = 0;
    assert(notes@.take(0).len() == 0);
    while i < notes.len()
        invariant
            0 <= i <= notes.len(),
            diary == category_count(notes@.take(i as int), DIARY_NOTE_CATEGORY@),
            weekly == category_count(notes@.take(i as int), WEEKLY_SUMMARY_CATEGORY@),
            diary + weekly + other == i,
        decreases notes.len() - i,
    {
        proof {
            assert(notes@.take(i + 1).drop_last() =~= notes@.take(i as int));
            assert(notes@.take(i + 1).last() == notes@[i as int]);
            reveal_strlit("diary");
            reveal_strlit("weekly-growth-summary");
            assert(DIARY_NOTE_CATEGORY@ != WEEKLY_SUMMARY_CATEGORY@) by {
                assert(DIARY_NOTE_CATEGORY@[0] != WEEKLY_SUMMARY_CATEGORY@[0]);
            }
        }
        let cat = notes[i].category.as_str();
        if str_eq(cat, DIARY_NOTE_CATEGORY) {
            diary = diary + 1;
        } else if str_eq(cat, WEEKLY_SUMMARY_CATEGORY) {
            weekly = weekly + 1;
        } else {
            other = other + 1;
        }
        i = i + 1;
    }
    assert(notes@.take(i as int) =~= notes@);
    (diary, weekly, other)
}

impl LifeChapterSources {
    /// Sets the counts from the records.
    pub fn refresh_counts(&mut self)
        ensures
            same_records(*final(self), *old(self)),
            final(self).counts == counts_of(*old(self)),
    {
        let (diary, weekly, other) = count_note_kinds(&self.notes);
        self.counts = LifeChapterSourceCounts {
            diary_count: diary,
            weekly_summary_count: weekly,
            event_count: self.events.len(),
            turn_count: self.turns.len(),
            note_count: other,
            topic_count: self.topics.len(),
            project_count: self.projects.len(),
            growth_line_count: self.growth_lines.len(),
            observation_count: self.observations.len(),
        };
    }

    /// Whether the counts show any record at all.
    pub fn has_material(&self) -> (r: bool)
        ensures
            r == (self.counts.spec_total() > 0),
    {
        let c = &self.counts;
        c.diary_count > 0 || c.weekly_summary_count > 0 || c.event_count > 0 || c.turn_count > 0
            || c.note_count > 0 || c.topic_count > 0 || c.project_count > 0 || c.growth_line_count
            > 0 || c.observation_count > 0
    }
}

/// The first `n` items of `s`, or all of them when there are fewer.
pub open spec fn first_n<A>(s: Seq<A>, n: int) -> Seq<A> {
    if n < s.len() {
        s.take(n)
    } else {
        s
    }
}

/// `sources` with at most `max_each` records of each kind, the first ones,
/// and counts that match them.
pub fn limit_chapter_sources(sources: LifeChapterSources, max_each: usize) -> (r: LifeChapterSources)
    ensures
        r.events@ == first_n(sources.events@, max_each as int),
        r.turns@ == first_n(sources.turns@, max_each as int),
        r.observations@ == first_n(sources.observations@, max_each as int),
        r.topics@ == first_n(sources.topics@, max_each as int),
        r.projects@ == first_n(sources.projects@, max_each as int),
        r.growth_lines@ == first_n(sources.growth_lines@, max_each as int),
        r.notes@ == first_n(sources.notes@, max_each as int),
        r.counts == counts_of(r),
{
    let mut s = sources;
    s.events.truncate(max_each);
    s.turns.truncate(max_each);
    s.observations.truncate(max_each);
    s.topics.truncate(max_each);
    s.projects.truncate(max_each);
    s.growth_lines.truncate(max_each);
    s.notes.truncate(max_each);
    proof {
        assert(sources.events@.subrange(0, max_each as int) =~= sources.events@.take(max_each as int));
    }
    s.refresh_counts();
    s
}


// ─── Keeping what overlaps the span ───────────────────────────────────────

/// Whether an interval whose ends are given as texts that start with a date
/// meets the span. With one end known, that day must lie in the span; with
/// neither, it does not.
pub open spec fn interval_overlaps(start: Option<Seq<char>>, end: Option<Seq<char>>, r: LifeChapterRange) -> bool {
    let s = match start {
        Some(v) => date_prefix(v),
        None => None,
    };
    let e = match end {
        Some(v) => date_prefix(v),
        None => None,
    };
    match (s, e) {
        (Some(a), Some(b)) => a.le(r.end_date) && r.start_date.le(b),
        (Some(d), None) => r.spec_contains(d),
        (None, Some(d)) => r.spec_contains(d),
        (None, None) => false,
    }
}

pub open spec fn topic_overlaps(t: Topic, r: LifeChapterRange) -> bool {
    interval_overlaps(option_view(t.first_mentioned), option_view(t.last_mentioned), r)
}

pub open spec fn project_overlaps(p: Project, r: LifeChapterRange) -> bool {
    interval_overlaps(option_view(p.start_date), option_view(p.end_date), r)
}

/// Whether a growth record is dated inside the span.
pub open spec fn record_in_range(rec: GrowthRecord, r: LifeChapterRange) -> bool {
    match rec.date {
        Some(v) => match date_prefix(v@) {
            Some(d) => r.spec_contains(d),
            None => false,
        },
        None => false,
    }
}

pub open spec fn topic_pred(r: LifeChapterRange) -> spec_fn(Topic) -> bool {
    |t: Topic| topic_overlaps(t, r)
}

pub open spec fn project_pred(r: LifeChapterRange) -> spec_fn(Project) -> bool {
    |p: Project| project_overlaps(p, r)
}

pub open spec fn record_pred(r: LifeChapterRange) -> spec_fn(GrowthRecord) -> bool {
    |rec: GrowthRecord| record_in_range(rec, r)
}

/// A growth line stays when one of its records is dated inside the span.
pub open spec fn line_kept(l: GrowthLine, r: LifeChapterRange) -> bool {
    l.records@.filter(record_pred(r)).len() > 0
}

pub open spec fn line_pred(r: LifeChapterRange) -> spec_fn(GrowthLine) -> bool {
    |l: GrowthLine| line_kept(l, r)
}

/// `out` is `lines` with the lines that have no record in the span left out,
/// and from each other line its records outside the span.
pub open spec fn lines_filtered(out: Seq<GrowthLine>, lines: Seq<GrowthLine>, r: LifeChapterRange) -> bool {
    let kept = lines.filter(line_pred(r));
    &&& out.len() == kept.len()
    &&& forall|k: int|
        0 <= k < out.len() ==> {
            &&& (#[trigger] out[k]).id == kept[k].id
            &&& out[k].dimension == kept[k].dimension
            &&& out[k].records@ == kept[k].records@.filter(record_pred(r))
        }
}

fn dated_interval_overlaps(start: &Option<String>, end: &Option<String>, range: &LifeChapterRange) -> (r: bool)
    ensures
        r == interval_overlaps(option_view(*start), option_view(*end), *range),
{
    let s = match start {
        Some(v) => parse_date_prefix(v.as_str()),
        None => None,
    };
    let e = match end {
        Some(v) => parse_date_prefix(v.as_str()),
        None => None,
    };
    match (s, e) {
        (Some(a), Some(b)) => date_le(a, range.end_date) && date_le(range.start_date, b),
        (Some(d), None) => range.contains_date(d),
        (None, Some(d)) => range.contains_date(d),
        (None, None) => false,
    }
}

fn record_date_in_range(rec: &GrowthRecord, range: &LifeChapterRange) -> (r: bool)
    ensures
        r == record_in_range(*rec, *range),
{
    match &rec.date {
        Some(v) => match parse_date_prefix(v.as_str()) {
            Some(d) => range.contains_date(d),
            None => false,
        },
        None => false,
    }
}

pub(crate) proof fn lemma_filter_take_step<A>(s: Seq<A>, p: spec_fn(A) -> bool, j: int)
    requires
        0 <= j < s.len(),
    ensures
        s.take(j + 1).filter(p) == if p(s[j]) {
            s.take(j).filter(p).push(s[j])
        } else {
            s.take(j).filter(p)
        },
{
    reveal(Seq::filter);
    assert(s.take(j + 1).drop_last() =~= s.take(j));
    assert(s.take(j + 1).last() == s[j]);
}

pub(crate) proof fn lemma_retain_step<A>(orig: Seq<A>, cur: Seq<A>, p: spec_fn(A) -> bool, i: int, j: int)
    requires
        0 <= j < orig.len(),
        cur == orig.take(j).filter(p) + orig.skip(j),
        i == orig.take(j).filter(p).len(),
    ensures
        i < cur.len(),
        cur[i] == orig[j],
        p(orig[j]) ==> cur == orig.take(j + 1).filter(p) + orig.skip(j + 1) && i + 1 == orig.take(
            j + 1,
        ).filter(p).len(),
        !p(orig[j]) ==> cur.remove(i) == orig.take(j + 1).filter(p) + orig.skip(j + 1) && i
            == orig.take(j + 1).filter(p).len(),
{
    lemma_filter_take_step(orig, p, j);
    assert(orig.skip(j)[0] == orig[j]);
    assert(orig.skip(j).drop_first() =~= orig.skip(j + 1));
    let f = orig.take(j).filter(p);
    if p(orig[j]) {
        assert(f + orig.skip(j) =~= f.push(orig[j]) + orig.skip(j + 1));
    } else {
        assert((f + orig.skip(j)).remove(i) =~= f + orig.skip(j + 1));
    }
}

pub(crate) proof fn lemma_retain_done<A>(orig: Seq<A>, cur: Seq<A>, p: spec_fn(A) -> bool, j: int)
    requires
        0 <= j <= orig.len(),
        cur == orig.take(j).filter(p) + orig.skip(j),
        orig.take(j).filter(p).len() >= cur.len(),
    ensures
        cur == orig.filter(p),
{
    assert(orig.skip(j).len() == 0);
    assert(orig.take(j) =~= orig);
    assert(cur =~= orig.take(j).filter(p));
}

/// Keeps the topics whose mentions meet the span.
fn retain_topics(topics: &mut Vec<Topic>, range: &LifeChapterRange)
    ensures
        final(topics)@ == old(topics)@.filter(topic_pred(*range)),
{
    let ghost orig = topics@;
    let ghost p = topic_pred(*range);
    let ghost mut j: int = 0;
    let mut i: usize = 0;
    assert(orig.take(0).filter(p) =~= Seq::<Topic>::empty()) by {
        reveal(Seq::filter);
    }
    assert(orig.take(0).filter(p) + orig.skip(0) =~= orig);
    while i < topics.len()
        invariant
            0 <= j <= orig.len(),
            p == topic_pred(*range),
            topics@ == orig.take(j).filter(p) + orig.skip(j),
            i == orig.take(j).filter(p).len(),
        decreases topics.len() - i,
    {
        proof {
            if j == orig.len() {
                assert(orig.skip(j).len() == 0);
            }
            lemma_retain_step(orig, topics@, p, i as int, j);
        }
        let keep = {
            let t = &topics[i];
            dated_interval_overlaps(&t.first_mentioned, &t.last_mentioned, range)
        };
        if keep {
            i = i + 1;
        } else {
            topics.remove(i);
        }
        proof {
            j = j + 1;
        }
    }
    proof {
        lemma_retain_done(orig, topics@, p, j);
    }
}


/// Keeps the projects whose dates meet the span.
fn retain_projects(projects: &mut Vec<Project>, range: &LifeChapterRange)
    ensures
        final(projects)@ == old(projects)@.filter(project_pred(*range)),
{
    let ghost orig = projects@;
    let ghost p = project_pred(*range);
    let ghost mut j: int = 0;
    let mut i: usize = 0;
    assert(orig.take(0).filter(p) =~= Seq::<Project>::empty()) by {
        reveal(Seq::filter);
    }
    assert(orig.take(0).filter(p) + orig.skip(0) =~= orig);
    while i < projects.len()
        invariant
            0 <= j <= orig.len(),
            p == project_pred(*range),
            projects@ == orig.take(j).filter(p) + orig.skip(j),
            i == orig.take(j).filter(p).len(),
        decreases projects.len() - i,
    {
        proof {
            if j == orig.len() {
                assert(orig.skip(j).len() == 0);
            }
            lemma_retain_step(orig, projects@, p, i as int, j);
        }
        let keep = {
            let pr = &projects[i];
            dated_interval_overlaps(&pr.start_date, &pr.end_date, range)
        };
        if keep {
            i = i + 1;
        } else {
            projects.remove(i);
        }
        proof {
            j = j + 1;
        }
    }
    proof {
        lemma_retain_done(orig, projects@, p, j);
    }
}

/// Keeps the records dated inside the span.
fn retain_records(records: &mut Vec<GrowthRecord>, range: &LifeChapterRange)
    ensures
        final(records)@ == old(records)@.filter(record_pred(*range)),
{
    let ghost orig = records@;
    let ghost p = record_pred(*range);
    let ghost mut j: int = 0;
    let mut i: usize = 0;
    assert(orig.take(0).filter(p) =~= Seq::<GrowthRecord>::empty()) by {
        reveal(Seq::filter);
    }
    assert(orig.take(0).filter(p) + orig.skip(0) =~= orig);
    while i < records.len()
        invariant
            0 <= j <= orig.len(),
            p == record_pred(*range),
            records@ == orig.take(j).filter(p) + orig.skip(j),
            i == orig.take(j).filter(p).len(),
        decreases records.len() - i,
    {
        proof {
            if j == orig.len() {
                assert(orig.skip(j).len() == 0);
            }
            lemma_retain_step(orig, records@, p, i as int, j);
        }
        if record_date_in_range(&records[i], range) {
            i = i + 1;
        } else {
            records.remove(i);
        }
        proof {
            j = j + 1;
        }
    }
    proof {
        lemma_retain_done(orig, records@, p, j);
    }
}

/// Keeps in each growth line the records dated inside the span, and the lines
/// that keep a record.
fn retain_lines(lines: &mut Vec<GrowthLine>, range: &LifeChapterRange)
    ensures
        lines_filtered(final(lines)@, old(lines)@, *range),
{
    let ghost orig = lines@;
    let ghost p = line_pred(*range);
    let ghost mut j: int = 0;
    let mut i: usize = 0;
    assert(orig.take(0).filter(p) =~= Seq::<GrowthLine>::empty()) by {
        reveal(Seq::filter);
    }
    while i < lines.len()
        invariant
            0 <= j <= orig.len(),
            p == line_pred(*range),
            i == orig.take(j).filter(p).len(),
            lines@.len() == i + (orig.len() - j),
            lines@.skip(i as int) == orig.skip(j),
            lines_filtered(lines@.take(i as int), orig.take(j), *range),
        decreases lines.len() - i,
    {
        proof {
            lemma_filter_take_step(orig, p, j);
            assert(lines@.skip(i as int)[0] == lines@[i as int]);
            assert(orig.skip(j)[0] == orig[j]);
        }
        let ghost prev = lines@;
        let mut line = lines.remove(i);
        let ghost before = lines@;
        proof {
            assert(prev.skip(i as int).drop_first() =~= prev.skip(i + 1));
            assert(orig.skip(j).drop_first() =~= orig.skip(j + 1));
            assert(before.skip(i as int) =~= prev.skip(i + 1));
            assert(before.take(i as int) =~= prev.take(i as int));
        }
        retain_records(&mut line.records, range);
        if line.records.len() > 0 {
            lines.insert(i, line);
            proof {
                let kept0 = orig.take(j).filter(p);
                let kept1 = orig.take(j + 1).filter(p);
                assert(kept1 == kept0.push(orig[j]));
                assert(lines@.take(i + 1) =~= before.take(i as int).push(line));
                assert(lines@.skip(i + 1) =~= orig.skip(j + 1));
                assert forall|k: int| 0 <= k < i + 1 implies {
                    &&& (#[trigger] lines@.take(i + 1)[k]).id == kept1[k].id
                    &&& lines@.take(i + 1)[k].dimension == kept1[k].dimension
                    &&& lines@.take(i + 1)[k].records@ == kept1[k].records@.filter(record_pred(*range))
                } by {
                    if k < i {
                        assert(lines@.take(i + 1)[k] == before.take(i as int)[k]);
                    }
                }
            }
            i = i + 1;
        } else {
            proof {
                let kept0 = orig.take(j).filter(p);
                assert(orig.take(j + 1).filter(p) == kept0);
                assert(lines@.take(i as int) =~= before.take(i as int));
                assert(lines@.skip(i as int) =~= orig.skip(j + 1));
            }
        }
        proof {
            j = j + 1;
        }
    }
    proof {
        assert(orig.skip(j).len() == 0);
        assert(orig.take(j) =~= orig);
        assert(lines@.take(i as int) =~= lines@);
    }
}

impl LifeChapterSources {
    /// Keeps only what the span covers: topics and projects whose dates meet
    /// it, and growth lines with records dated inside it (each with those
    /// records only); then sets the counts.
    pub fn filter_to_range(&mut self, range: &LifeChapterRange)
        ensures
            final(self).events == old(self).events,
            final(self).turns == old(self).turns,
            final(self).observations == old(self).observations,
            final(self).notes == old(self).notes,
            final(self).topics@ == old(self).topics@.filter(topic_pred(*range)),
            final(self).projects@ == old(self).projects@.filter(project_pred(*range)),
            lines_filtered(final(self).growth_lines@, old(self).growth_lines@, *range),
            final(self).counts == counts_of(*final(self)),
    {
        retain_topics(&mut self.topics, range);
        retain_projects(&mut self.projects, range);
        retain_lines(&mut self.growth_lines, range);
        self.refresh_counts();
    }
}


// ─── Titles ───────────────────────────────────────────────────────────────

/// The punctuation that is cut from both ends of a title's theme.
pub open spec fn is_title_punct(c: char) -> bool {
    c == '.' || c == ',' || c == ';' || c == '。' || c == '，' || c == '；'
}

pub open spec fn strip_punct_start(s: Seq<char>) -> Seq<char>
    decreases s.len(),
{
    if s.len() > 0 && is_title_punct(s[0]) {
        strip_punct_start(s.drop_first())
    } else {
        s
    }
}

pub open spec fn strip_punct_end(s: Seq<char>) -> Seq<char>
    decreases s.len(),
{
    if s.len() > 0 && is_title_punct(s.last()) {
        strip_punct_end(s.drop_last())
    } else {
        s
    }
}

/// The theme of a title drawn from `value`: its first eight words joined by
/// spaces, without title punctuation at either end, cut to 28 characters;
/// `记录有限` when nothing is left.
pub open spec fn title_fragment_spec(value: Seq<char>) -> Seq<char> {
    let f = strip_punct_end(strip_punct_start(join(first_n(words(value), 8), SPACE@)));
    if f.len() == 0 {
        LIMITED_RECORDS@
    } else {
        truncated(f, 28)
    }
}

/// `2026 3-5` for a span inside one year, `2025-11-01 to 2026-02-28` otherwise.
pub open spec fn time_label(r: LifeChapterRange) -> Seq<char> {
    if r.start_date.year == r.end_date.year {
        int_str(r.start_date.year as int) + SPACE@ + nat_str(r.start_date.month as nat) + MONTH_SEP@
            + nat_str(r.end_date.month as nat)
    } else {
        date_str(r.start_date) + YEARS_SEP@ + date_str(r.end_date)
    }
}

/// What a chapter is about: the first observation, else the first event, else
/// the title of the first note.
pub open spec fn chapter_theme(s: LifeChapterSources) -> Seq<char> {
    if s.observations@.len() > 0 {
        s.observations@[0].content@
    } else if s.events@.len() > 0 {
        s.events@[0].content@
    } else if s.notes@.len() > 0 {
        s.notes@[0].title@
    } else {
        LIMITED_RECORDS@
    }
}

pub open spec fn chapter_title(r: LifeChapterRange, s: LifeChapterSources) -> Seq<char> {
    time_label(r) + TITLE_SEP@ + title_fragment_spec(chapter_theme(s))
}

fn is_title_punct_char(c: char) -> (r: bool)
    ensures
        r == is_title_punct(c),
{
    c == '.' || c == ',' || c == ';' || c == '。' || c == '，' || c == '；'
}

proof fn lemma_strip_punct_start_skip(s: Seq<char>, i: int)
    requires
        0 <= i <= s.len(),
        forall|k: int| 0 <= k < i ==> is_title_punct(#[trigger] s[k]),
    ensures
        strip_punct_start(s) == strip_punct_start(s.skip(i)),
    decreases i,
{
    if i > 0 {
        assert(is_title_punct(s[0]));
        lemma_strip_punct_start_skip(s.drop_first(), i - 1);
        assert(s.drop_first().skip(i - 1) =~= s.skip(i));
    } else {
        assert(s.skip(0) =~= s);
    }
}

proof fn lemma_strip_punct_end_take(s: Seq<char>, j: int)
    requires
        0 <= j <= s.len(),
        forall|k: int| j <= k < s.len() ==> is_title_punct(#[trigger] s[k]),
    ensures
        strip_punct_end(s) == strip_punct_end(s.take(j)),
    decreases s.len() - j,
{
    if j < s.len() {
        assert(is_title_punct(s.last()));
        lemma_strip_punct_end_take(s.drop_last(), j);
        assert(s.drop_last().take(j) =~= s.take(j));
    } else {
        assert(s.take(j) =~= s);
    }
}

/// `s` without title punctuation at either end.
fn strip_title_punct<'a>(s: &'a str) -> (r: &'a str)
    ensures
        r@ == strip_punct_end(strip_punct_start(s@)),
{
    let len = s.unicode_len();
    let mut i: usize = 0;
    while i < len && is_title_punct_char(s.get_char(i))
        invariant
            0 <= i <= len,
            len == s@.len(),
            forall|k: int| 0 <= k < i ==> is_title_punct(#[trigger] s@[k]),
        decreases len - i,
    {
        i = i + 1;
    }
    proof {
        lemma_strip_punct_start_skip(s@, i as int);
        if i < len {
            assert(s@.skip(i as int)[0] == s@[i as int]);
        }
        assert(strip_punct_start(s@.skip(i as int)) == s@.skip(i as int));
    }
    let mut j: usize = len;
    while j > i && is_title_punct_char(s.get_char(j - 1))
        invariant
            i <= j <= len,
            len == s@.len(),
            forall|k: int| j <= k < len ==> is_title_punct(#[trigger] s@[k]),
        decreases j - i,
    {
        j = j - 1;
    }
    let ghost t = s@.skip(i as int);
    proof {
        assert forall|k: int| (j - i) <= k < t.len() implies is_title_punct(#[trigger] t[k]) by {
            assert(t[k] == s@[k + i]);
        }
        lemma_strip_punct_end_take(t, j - i);
        if j > i {
            assert(t.take(j - i).last() == s@[j - 1]);
        }
        assert(strip_punct_end(t.take(j - i)) == t.take(j - i));
        assert(t.take(j - i) =~= s@.subrange(i as int, j as int));
    }
    s.substring_char(i, j)
}

fn title_fragment(value: &str) -> (r: String)
    ensures
        r@ == title_fragment_spec(value@),
{
    let mut ws = words_of(value);
    let ghost all = ws@;
    ws.truncate(8);
    proof {
        if 8 <= all.len() {
            assert(views(ws@) =~= first_n(views(all), 8));
        } else {
            assert(views(ws@) =~= views(all));
        }
    }
    let joined = join_strings(&ws, SPACE);
    let fragment = strip_title_punct(joined.as_str());
    if fragment.unicode_len() == 0 {
        to_owned(LIMITED_RECORDS)
    } else {
        truncate_chars(fragment, 28)
    }
}

fn time_label_of(range: &LifeChapterRange) -> (r: String)
    ensures
        r@ == time_label(*range),
{
    if range.start_date.year == range.end_date.year {
        let mut r = i64_to_string(range.start_date.year as i64);
        r.append(SPACE);
        r.append(u64_to_string(range.start_date.month as u64).as_str());
        r.append(MONTH_SEP);
        r.append(u64_to_string(range.end_date.month as u64).as_str());
        r
    } else {
        let mut r = date_to_string(range.start_date);
        r.append(YEARS_SEP);
        r.append(date_to_string(range.end_date).as_str());
        r
    }
}

/// A title for the chapter: the span's time label and a theme from its records.
pub fn generate_chapter_title(range: &LifeChapterRange, sources: &LifeChapterSources) -> (r: String)
    ensures
        r@ == chapter_title(*range, *sources),
{
    let theme: &str = if sources.observations.len() > 0 {
        sources.observations[0].content.as_str()
    } else if sources.events.len() > 0 {
        sources.events[0].content.as_str()
    } else if sources.notes.len() > 0 {
        sources.notes[0].title.as_str()
    } else {
        LIMITED_RECORDS
    };
    let mut r = time_label_of(range);
    r.append(TITLE_SEP);
    r.append(title_fragment(theme).as_str());
    r
}


// ─── A chapter without material ───────────────────────────────────────────

/// The text of a short chapter that says the span has few records.
pub open spec fn sparse_content(title: Seq<char>, r: LifeChapterRange) -> Seq<char> {
    HEADING@ + title + PART_SEP@ + range_label(r) + SPARSE_TAIL@
}

/// `res` is the unsaved short chapter titled `title` for the span `r`.
pub open spec fn is_sparse_chapter(
    res: LifeChapterGenerateResult,
    r: LifeChapterRange,
    s: LifeChapterSources,
    title: Seq<char>,
) -> bool {
    &&& res.note_id@ == Seq::<char>::empty()
    &&& res.title@ == title
    &&& res.start_date@ == date_str(r.start_date)
    &&& res.end_date@ == date_str(r.end_date)
    &&& res.content@ == sparse_content(title, r)
    &&& res.source_counts == s.counts
}

/// A short chapter titled `title` that only says that the span has few records.
pub fn build_sparse_life_chapter_with_title(
    range: &LifeChapterRange,
    sources: &LifeChapterSources,
    title: &str,
) -> (r: LifeChapterGenerateResult)
    ensures
        is_sparse_chapter(r, *range, *sources, title@),
{
    let mut content = to_owned(HEADING);
    content.append(title);
    content.append(PART_SEP);
    content.append(range.label().as_str());
    content.append(SPARSE_TAIL);
    LifeChapterGenerateResult {
        note_id: String::new(),
        title: to_owned(title),
        start_date: date_to_string(range.start_date),
        end_date: date_to_string(range.end_date),
        content,
        source_counts: sources.counts,
    }
}

/// A short chapter under the generated title that only says that the span has
/// few records.
pub fn build_sparse_life_chapter(range: &LifeChapterRange, sources: &LifeChapterSources) -> (r:
    LifeChapterGenerateResult)
    ensures
        is_sparse_chapter(r, *range, *sources, chapter_title(*range, *sources)),
{
    let title = generate_chapter_title(range, sources);
    build_sparse_life_chapter_with_title(range, sources, title.as_str())
}

// ─── The prompt ───────────────────────────────────────────────────────────

/// Items numbered from 1: `1. item`.
pub open spec fn numbered(items: Seq<Seq<char>>) -> Seq<Seq<char>> {
    Seq::new(items.len(), |i: int| nat_str((i + 1) as nat) + ITEM_DOT@ + items[i])
}

/// `label:` and the numbered items, one per line.
pub open spec fn items_section(label: Seq<char>, items: Seq<Seq<char>>) -> Seq<char> {
    label + LABEL_END@ + join(numbered(items), LINE_SEP@)
}

pub open spec fn or_unknown(o: Option<String>) -> Seq<char> {
    match o {
        Some(v) => v@,
        None => UNKNOWN@,
    }
}

pub open spec fn counts_line(c: LifeChapterSourceCounts) -> Seq<char> {
    COUNT_DIARY@ + nat_str(c.diary_count as nat) + COUNT_WEEKLY@ + nat_str(c.weekly_summary_count as nat)
        + COUNT_EVENTS@ + nat_str(c.event_count as nat) + COUNT_TURNS@ + nat_str(c.turn_count as nat)
        + COUNT_NOTES@ + nat_str(c.note_count as nat) + COUNT_TOPICS@ + nat_str(c.topic_count as nat)
        + COUNT_PROJECTS@ + nat_str(c.project_count as nat) + COUNT_LINES@ + nat_str(
        c.growth_line_count as nat,
    ) + COUNT_OBSERVATIONS@ + nat_str(c.observation_count as nat)
}

pub open spec fn note_text(i: int, n: LifeChapterNoteSource) -> Seq<char> {
    nat_str((i + 1) as nat) + ITEM_DOT@ + BRACKET_OPEN@ + n.category@ + BRACKET_CLOSE_SPACE@ + n.title@
        + LINE_SEP@ + truncated(n.content@, 1000)
}

pub open spec fn event_text(e: Event) -> Seq<char> {
    e.content@ + PAREN_OPEN@ + e.created_at@ + PAREN_CLOSE@
}

pub open spec fn turn_text(t: ConversationTurn) -> Seq<char> {
    t.summary@ + PAREN_OPEN@ + t.created_at@ + PAREN_CLOSE@
}

pub open spec fn observation_text(o: Observation) -> Seq<char> {
    BRACKET_OPEN@ + o.date@ + BRACKET_CLOSE_SPACE@ + o.content@
}

pub open spec fn topic_text(t: Topic) -> Seq<char> {
    t.name@ + FULL_COLON@ + truncated(t.description@, 240) + FIRST_SEEN@ + or_unknown(t.first_mentioned)
        + LAST_SEEN@ + or_unknown(t.last_mentioned) + MENTIONS@ + nat_str(t.mention_count as nat)
}

pub open spec fn project_text(p: Project) -> Seq<char> {
    p.title@ + STATUS_OPEN@ + p.status@ + STATUS_CLOSE@ + truncated(p.summary@, 240) + SPAN@
        + or_unknown(p.start_date) + RANGE_SEP@ + or_unknown(p.end_date)
}

/// The records of a growth line as a compact JSON array.
pub open spec fn records_json(recs: Seq<GrowthRecord>) -> Seq<char> {
    JSON_OPEN@ + join(Seq::new(recs.len(), |k: int| recs[k].json@), JSON_SEP@) + JSON_CLOSE@
}

pub open spec fn line_text(l: GrowthLine) -> Seq<char> {
    l.dimension@ + FULL_COLON@ + truncated(records_json(l.records@), 480)
}

/// The sections of the chapter prompt: instructions with the span, style,
/// grounding rules, counts, each non-empty kind of record, and the request.
pub open spec fn chapter_prompt_parts(r: LifeChapterRange, s: LifeChapterSources) -> Seq<Seq<char>> {
    let p0 = seq![
        PROMPT_HEAD_A@ + range_label(r) + PROMPT_HEAD_B@,
        CHAPTER_STYLE@,
        LIFE_CHAPTER_GROUNDING_RULES@,
        counts_line(s.counts),
    ];
    let notes = s.notes@;
    let p1 = if notes.len() > 0 {
        p0.push(NOTES_HEAD@ + join(Seq::new(notes.len(), |i: int| note_text(i, notes[i])), PART_SEP@))
    } else {
        p0
    };
    let es = s.events@;
    let p2 = if es.len() > 0 {
        p1.push(items_section(EVENTS_LABEL@, Seq::new(es.len(), |i: int| event_text(es[i]))))
    } else {
        p1
    };
    let ts = s.turns@;
    let p3 = if ts.len() > 0 {
        p2.push(items_section(TURNS_LABEL@, Seq::new(ts.len(), |i: int| turn_text(ts[i]))))
    } else {
        p2
    };
    let os = s.observations@;
    let p4 = if os.len() > 0 {
        p3.push(items_section(OBSERVATIONS_LABEL@, Seq::new(os.len(), |i: int| observation_text(os[i]))))
    } else {
        p3
    };
    let tops = s.topics@;
    let p5 = if tops.len() > 0 {
        p4.push(items_section(TOPICS_LABEL@, Seq::new(tops.len(), |i: int| topic_text(tops[i]))))
    } else {
        p4
    };
    let ps = s.projects@;
    let p6 = if ps.len() > 0 {
        p5.push(items_section(PROJECTS_LABEL@, Seq::new(ps.len(), |i: int| project_text(ps[i]))))
    } else {
        p5
    };
    let ls = s.growth_lines@;
    let p7 = if ls.len() > 0 {
        p6.push(items_section(LINES_LABEL@, Seq::new(ls.len(), |i: int| line_text(ls[i]))))
    } else {
        p6
    };
    p7.push(PROMPT_FINAL@)
}

/// The prompt for a chapter, empty when the counts show no record.
pub open spec fn chapter_prompt(r: LifeChapterRange, s: LifeChapterSources) -> Seq<char> {
    if s.counts.spec_total() > 0 {
        join(chapter_prompt_parts(r, s), PART_SEP@)
    } else {
        Seq::empty()
    }
}

/// A chapter's prompt is empty exactly when its counts show no record;
/// otherwise it opens with the request that names the span, holds the
/// grounding rules, and ends with the final request.
#[verifier::spinoff_prover]
#[verifier::rlimit(30)]
pub proof fn lemma_chapter_prompt_shape(r: LifeChapterRange, s: LifeChapterSources)
    ensures
        chapter_prompt(r, s).len() == 0 <==> s.counts.spec_total() == 0,
        s.counts.spec_total() > 0 ==> {
            &&& starts_with(chapter_prompt(r, s), PROMPT_HEAD_A@ + range_label(r) + PROMPT_HEAD_B@)
            &&& contains_seq(chapter_prompt(r, s), LIFE_CHAPTER_GROUNDING_RULES@)
            &&& ends_with(chapter_prompt(r, s), PROMPT_FINAL@)
        },
{
    if s.counts.spec_total() > 0 {
        let parts = chapter_prompt_parts(r, s);
        reveal_strlit("你是一个克制、准确、自然的成长日记整理助手。请根据以下记录，为 ");
        assert(parts[0] == PROMPT_HEAD_A@ + range_label(r) + PROMPT_HEAD_B@);
        assert(parts[2] == LIFE_CHAPTER_GROUNDING_RULES@);
        assert(parts.last() == PROMPT_FINAL@);
        lemma_join_ends(parts, PART_SEP@);
        lemma_join_contains(parts, PART_SEP@, 2);
        assert(PROMPT_HEAD_A@.len() > 0);
    }
}

/// A chapter whose counts show records shows every record it was written
/// from: each note under the notes heading as `n. [category] title`, a line
/// break and its content (1000 characters at most); each event as
/// `n. content (time)`, each conversation as `n. summary (time)`, each
/// observation as `n. [date] content`, and each topic, project and growth line
/// as a numbered line that starts with its name, title or dimension, each kind
/// under its label.
#[verifier::spinoff_prover]
#[verifier::rlimit(60)]
pub proof fn lemma_chapter_prompt_shows_every_record(r: LifeChapterRange, s: LifeChapterSources)
    requires
        s.counts.spec_total() > 0,
    ensures
        s.notes@.len() > 0 ==> contains_seq(chapter_prompt(r, s), NOTES_HEAD@),
        forall|k: int|
            0 <= k < s.notes@.len() ==> contains_seq(
                chapter_prompt(r, s),
                nat_str((k + 1) as nat) + ITEM_DOT@ + BRACKET_OPEN@ + (#[trigger] s.notes@[k]).category@
                    + BRACKET_CLOSE_SPACE@ + s.notes@[k].title@ + LINE_SEP@ + truncated(
                    s.notes@[k].content@,
                    1000,
                ),
            ),
        s.events@.len() > 0 ==> contains_seq(chapter_prompt(r, s), EVENTS_LABEL@ + LABEL_END@),
        forall|k: int|
            0 <= k < s.events@.len() ==> contains_seq(
                chapter_prompt(r, s),
                nat_str((k + 1) as nat) + ITEM_DOT@ + (#[trigger] s.events@[k]).content@ + PAREN_OPEN@
                    + s.events@[k].created_at@ + PAREN_CLOSE@,
            ),
        s.turns@.len() > 0 ==> contains_seq(chapter_prompt(r, s), TURNS_LABEL@ + LABEL_END@),
        forall|k: int|
            0 <= k < s.turns@.len() ==> contains_seq(
                chapter_prompt(r, s),
                nat_str((k + 1) as nat) + ITEM_DOT@ + (#[trigger] s.turns@[k]).summary@ + PAREN_OPEN@
                    + s.turns@[k].created_at@ + PAREN_CLOSE@,
            ),
        s.observations@.len() > 0 ==> contains_seq(chapter_prompt(r, s), OBSERVATIONS_LABEL@ + LABEL_END@),
        forall|k: int|
            0 <= k < s.observations@.len() ==> contains_seq(
                chapter_prompt(r, s),
                nat_str((k + 1) as nat) + ITEM_DOT@ + BRACKET_OPEN@ + (#[trigger] s.observations@[k]).date@
                    + BRACKET_CLOSE_SPACE@ + s.observations@[k].content@,
            ),
        s.topics@.len() > 0 ==> contains_seq(chapter_prompt(r, s), TOPICS_LABEL@ + LABEL_END@),
        forall|k: int|
            0 <= k < s.topics@.len() ==> contains_seq(
                chapter_prompt(r, s),
                nat_str((k + 1) as nat) + ITEM_DOT@ + (#[trigger] s.topics@[k]).name@,
            ),
        s.projects@.len() > 0 ==> contains_seq(chapter_prompt(r, s), PROJECTS_LABEL@ + LABEL_END@),
        forall|k: int|
            0 <= k < s.projects@.len() ==> contains_seq(
                chapter_prompt(r, s),
                nat_str((k + 1) as nat) + ITEM_DOT@ + (#[trigger] s.projects@[k]).title@,
            ),
        s.growth_lines@.len() > 0 ==> contains_seq(chapter_prompt(r, s), LINES_LABEL@ + LABEL_END@),
        forall|k: int|
            0 <= k < s.growth_lines@.len() ==> contains_seq(
                chapter_prompt(r, s),
                nat_str((k + 1) as nat) + ITEM_DOT@ + (#[trigger] s.growth_lines@[k]).dimension@,
            ),
{
    let parts = chapter_prompt_parts(r, s);
    let p = chapter_prompt(r, s);
    let e = Seq::<char>::empty();
    let j1: int = 4 + if s.notes@.len() > 0 { 1int } else { 0int };
    let j2: int = j1 + if s.events@.len() > 0 { 1int } else { 0int };
    let j3: int = j2 + if s.turns@.len() > 0 { 1int } else { 0int };
    let j4: int = j3 + if s.observations@.len() > 0 { 1int } else { 0int };
    let j5: int = j4 + if s.topics@.len() > 0 { 1int } else { 0int };
    let j6: int = j5 + if s.projects@.len() > 0 { 1int } else { 0int };
    if s.notes@.len() > 0 {
        let ns = s.notes@;
        let items = Seq::new(ns.len(), |i: int| note_text(i, ns[i]));
        assert(parts[4] == NOTES_HEAD@ + join(items, PART_SEP@));
        lemma_section_contains(parts, PART_SEP@, 4, NOTES_HEAD@, items, PART_SEP@);
        assert forall|k: int| 0 <= k < ns.len() implies contains_seq(
            p,
            nat_str((k + 1) as nat) + ITEM_DOT@ + BRACKET_OPEN@ + (#[trigger] s.notes@[k]).category@
                + BRACKET_CLOSE_SPACE@ + s.notes@[k].title@ + LINE_SEP@ + truncated(s.notes@[k].content@, 1000),
        ) by {
            assert(items[k] == note_text(k, ns[k]));
        }
    }
    if s.events@.len() > 0 {
        let es = s.events@;
        let items = numbered(Seq::new(es.len(), |i: int| event_text(es[i])));
        assert(parts[j1] == EVENTS_LABEL@ + LABEL_END@ + join(items, LINE_SEP@));
        lemma_section_contains(parts, PART_SEP@, j1, EVENTS_LABEL@ + LABEL_END@, items, LINE_SEP@);
        assert forall|k: int| 0 <= k < es.len() implies contains_seq(
            p,
            nat_str((k + 1) as nat) + ITEM_DOT@ + (#[trigger] s.events@[k]).content@ + PAREN_OPEN@
                + s.events@[k].created_at@ + PAREN_CLOSE@,
        ) by {
            assert(items[k] =~= nat_str((k + 1) as nat) + ITEM_DOT@ + s.events@[k].content@ + PAREN_OPEN@
                + s.events@[k].created_at@ + PAREN_CLOSE@);
        }
    }
    if s.turns@.len() > 0 {
        let ts = s.turns@;
        let items = numbered(Seq::new(ts.len(), |i: int| turn_text(ts[i])));
        assert(parts[j2] == TURNS_LABEL@ + LABEL_END@ + join(items, LINE_SEP@));
        lemma_section_contains(parts, PART_SEP@, j2, TURNS_LABEL@ + LABEL_END@, items, LINE_SEP@);
        assert forall|k: int| 0 <= k < ts.len() implies contains_seq(
            p,
            nat_str((k + 1) as nat) + ITEM_DOT@ + (#[trigger] s.turns@[k]).summary@ + PAREN_OPEN@
                + s.turns@[k].created_at@ + PAREN_CLOSE@,
        ) by {
            assert(items[k] =~= nat_str((k + 1) as nat) + ITEM_DOT@ + s.turns@[k].summary@ + PAREN_OPEN@
                + s.turns@[k].created_at@ + PAREN_CLOSE@);
        }
    }
    if s.observations@.len() > 0 {
        let os = s.observations@;
        let items = numbered(Seq::new(os.len(), |i: int| observation_text(os[i])));
        assert(parts[j3] == OBSERVATIONS_LABEL@ + LABEL_END@ + join(items, LINE_SEP@));
        lemma_section_contains(parts, PART_SEP@, j3, OBSERVATIONS_LABEL@ + LABEL_END@, items, LINE_SEP@);
        assert forall|k: int| 0 <= k < os.len() implies contains_seq(
            p,
            nat_str((k + 1) as nat) + ITEM_DOT@ + BRACKET_OPEN@ + (#[trigger] s.observations@[k]).date@
                + BRACKET_CLOSE_SPACE@ + s.observations@[k].content@,
        ) by {
            assert(items[k] =~= nat_str((k + 1) as nat) + ITEM_DOT@ + BRACKET_OPEN@ + s.observations@[k].date@
                + BRACKET_CLOSE_SPACE@ + s.observations@[k].content@);
        }
    }
    if s.topics@.len() > 0 {
        let xs = s.topics@;
        let items = numbered(Seq::new(xs.len(), |i: int| topic_text(xs[i])));
        assert(parts[j4] == TOPICS_LABEL@ + LABEL_END@ + join(items, LINE_SEP@));
        lemma_section_contains(parts, PART_SEP@, j4, TOPICS_LABEL@ + LABEL_END@, items, LINE_SEP@);
        assert forall|k: int| 0 <= k < xs.len() implies contains_seq(
            p,
            nat_str((k + 1) as nat) + ITEM_DOT@ + (#[trigger] s.topics@[k]).name@,
        ) by {
            let head = nat_str((k + 1) as nat) + ITEM_DOT@ + s.topics@[k].name@;
            let tail = items[k].skip(head.len() as int);
            assert(items[k] =~= e + head + tail);
            lemma_contains_middle(e, head, tail);
            lemma_contains_trans(p, items[k], head);
        }
    }
    if s.projects@.len() > 0 {
        let xs = s.projects@;
        let items = numbered(Seq::new(xs.len(), |i: int| project_text(xs[i])));
        assert(parts[j5] == PROJECTS_LABEL@ + LABEL_END@ + join(items, LINE_SEP@));
        lemma_section_contains(parts, PART_SEP@, j5, PROJECTS_LABEL@ + LABEL_END@, items, LINE_SEP@);
        assert forall|k: int| 0 <= k < xs.len() implies contains_seq(
            p,
            nat_str((k + 1) as nat) + ITEM_DOT@ + (#[trigger] s.projects@[k]).title@,
        ) by {
            let head = nat_str((k + 1) as nat) + ITEM_DOT@ + s.projects@[k].title@;
            let tail = items[k].skip(head.len() as int);
            assert(items[k] =~= e + head + tail);
            lemma_contains_middle(e, head, tail);
            lemma_contains_trans(p, items[k], head);
        }
    }
    if s.growth_lines@.len() > 0 {
        let xs = s.growth_lines@;
        let items = numbered(Seq::new(xs.len(), |i: int| line_text(xs[i])));
        assert(parts[j6] == LINES_LABEL@ + LABEL_END@ + join(items, LINE_SEP@));
        lemma_section_contains(parts, PART_SEP@, j6, LINES_LABEL@ + LABEL_END@, items, LINE_SEP@);
        assert forall|k: int| 0 <= k < xs.len() implies contains_seq(
            p,
            nat_str((k + 1) as nat) + ITEM_DOT@ + (#[trigger] s.growth_lines@[k]).dimension@,
        ) by {
            let head = nat_str((k + 1) as nat) + ITEM_DOT@ + s.growth_lines@[k].dimension@;
            let tail = items[k].skip(head.len() as int);
            assert(items[k] =~= e + head + tail);
            lemma_contains_middle(e, head, tail);
            lemma_contains_trans(p, items[k], head);
        }
    }
}

/// `head` followed by the numbered items, one per line.
pub(crate) fn numbered_block(head: &str, items: &Vec<String>) -> (r: String)
    ensures
        r@ == head@ + join(numbered(views(items@)), LINE_SEP@),
{
    let mut lines: Vec<String> = Vec::new();
    let mut i: usize = 0;
    while i < items.len()
        invariant
            0 <= i <= items.len(),
            views(lines@) =~= Seq::new(
                i as nat,
                |k: int| nat_str((k + 1) as nat) + ITEM_DOT@ + items@[k]@,
            ),
        decreases items.len() - i,
    {
        let mut line = u64_to_string((i as u64) + 1);
        line.append(ITEM_DOT);
        line.append(items[i].as_str());
        let ghost before = lines@;
        lines.push(line);
        proof {
            crate::text::lemma_views_push(before, line);
        }
        i = i + 1;
    }
    assert(views(lines@) =~= numbered(views(items@)));
    let mut r = to_owned(head);
    r.append(join_strings(&lines, LINE_SEP).as_str());
    r
}

fn numbered_section(label: &str, items: &Vec<String>) -> (r: String)
    ensures
        r@ == items_section(label@, views(items@)),
{
    let mut head = to_owned(label);
    head.append(LABEL_END);
    numbered_block(head.as_str(), items)
}

fn counts_text(c: &LifeChapterSourceCounts) -> (r: String)
    ensures
        r@ == counts_line(*c),
{
    let mut r = to_owned(COUNT_DIARY);
    r.append(u64_to_string(c.diary_count as u64).as_str());
    r.append(COUNT_WEEKLY);
    r.append(u64_to_string(c.weekly_summary_count as u64).as_str());
    r.append(COUNT_EVENTS);
    r.append(u64_to_string(c.event_count as u64).as_str());
    r.append(COUNT_TURNS);
    r.append(u64_to_string(c.turn_count as u64).as_str());
    r.append(COUNT_NOTES);
    r.append(u64_to_string(c.note_count as u64).as_str());
    r.append(COUNT_TOPICS);
    r.append(u64_to_string(c.topic_count as u64).as_str());
    r.append(COUNT_PROJECTS);
    r.append(u64_to_string(c.project_count as u64).as_str());
    r.append(COUNT_LINES);
    r.append(u64_to_string(c.growth_line_count as u64).as_str());
    r.append(COUNT_OBSERVATIONS);
    r.append(u64_to_string(c.observation_count as u64).as_str());
    r
}

fn notes_text(notes: &Vec<LifeChapterNoteSource>) -> (r: String)
    ensures
        r@ == join(Seq::new(notes@.len(), |i: int| note_text(i, notes@[i])), PART_SEP@),
{
    let mut items: Vec<String> = Vec::new();
    let mut i: usize = 0;
    while i < notes.len()
        invariant
            0 <= i <= notes.len(),
            views(items@) =~= Seq::new(i as nat, |k: int| note_text(k, notes@[k])),
        decreases notes.len() - i,
    {
        let n = &notes[i];
        let mut item = u64_to_string((i as u64) + 1);
        item.append(ITEM_DOT);
        item.append(BRACKET_OPEN);
        item.append(n.category.as_str());
        item.append(BRACKET_CLOSE_SPACE);
        item.append(n.title.as_str());
        item.append(LINE_SEP);
        item.append(truncate_chars(n.content.as_str(), 1000).as_str());
        let ghost before = items@;
        items.push(item);
        proof {
            crate::text::lemma_views_push(before, item);
        }
        i = i + 1;
    }
    join_strings(&items, PART_SEP)
}

fn opt_or_unknown(o: &Option<String>) -> (r: &str)
    ensures
        r@ == or_unknown(*o),
{
    match o {
        Some(v) => v.as_str(),
        None => UNKNOWN,
    }
}

fn records_json_text(recs: &Vec<GrowthRecord>) -> (r: String)
    ensures
        r@ == records_json(recs@),
{
    let mut parts: Vec<String> = Vec::new();
    let mut i: usize = 0;
    while i < recs.len()
        invariant
            0 <= i <= recs.len(),
            views(parts@) =~= Seq::new(i as nat, |k: int| recs@[k].json@),
        decreases recs.len() - i,
    {
        let part = copy_string(&recs[i].json);
        let ghost before = parts@;
        parts.push(part);
        proof {
            crate::text::lemma_views_push(before, part);
        }
        i = i + 1;
    }
    let mut r = to_owned(JSON_OPEN);
    r.append(join_strings(&parts, JSON_SEP).as_str());
    r.append(JSON_CLOSE);
    r
}


pub(crate) fn event_items(xs: &Vec<Event>) -> (r: Vec<String>)
    ensures
        views(r@) == Seq::new(xs@.len(), |i: int| event_text(xs@[i])),
{
    let mut items: Vec<String> = Vec::new();
    let mut i: usize = 0;
    while i < xs.len()
        invariant
            0 <= i <= xs.len(),
            views(items@) =~= Seq::new(i as nat, |k: int| event_text(xs@[k])),
        decreases xs.len() - i,
    {
        let e = &xs[i];
        let mut item = copy_string(&e.content);
        item.append(PAREN_OPEN);
        item.append(e.created_at.as_str());
        item.append(PAREN_CLOSE);
        let ghost before = items@;
        items.push(item);
        proof {
            crate::text::lemma_views_push(before, item);
        }
        i = i + 1;
    }
    items
}

pub(crate) fn turn_items(xs: &Vec<ConversationTurn>) -> (r: Vec<String>)
    ensures
        views(r@) == Seq::new(xs@.len(), |i: int| turn_text(xs@[i])),
{
    let mut items: Vec<String> = Vec::new();
    let mut i: usize = 0;
    while i < xs.len()
        invariant
            0 <= i <= xs.len(),
            views(items@) =~= Seq::new(i as nat, |k: int| turn_text(xs@[k])),
        decreases xs.len() - i,
    {
        let t = &xs[i];
        let mut item = copy_string(&t.summary);
        item.append(PAREN_OPEN);
        item.append(t.created_at.as_str());
        item.append(PAREN_CLOSE);
        let ghost before = items@;
        items.push(item);
        proof {
            crate::text::lemma_views_push(before, item);
        }
        i = i + 1;
    }
    items
}

pub(crate) fn observation_items(xs: &Vec<Observation>) -> (r: Vec<String>)
    ensures
        views(r@) == Seq::new(xs@.len(), |i: int| observation_text(xs@[i])),
{
    let mut items: Vec<String> = Vec::new();
    let mut i: usize = 0;
    while i < xs.len()
        invariant
            0 <= i <= xs.len(),
            views(items@) =~= Seq::new(i as nat, |k: int| observation_text(xs@[k])),
        decreases xs.len() - i,
    {
        let o = &xs[i];
        let mut item = to_owned(BRACKET_OPEN);
        item.append(o.date.as_str());
        item.append(BRACKET_CLOSE_SPACE);
        item.append(o.content.as_str());
        let ghost before = items@;
        items.push(item);
        proof {
            crate::text::lemma_views_push(before, item);
        }
        i = i + 1;
    }
    items
}

fn topic_items(xs: &Vec<Topic>) -> (r: Vec<String>)
    ensures
        views(r@) == Seq::new(xs@.len(), |i: int| topic_text(xs@[i])),
{
    let mut items: Vec<String> = Vec::new();
    let mut i: usize = 0;
    while i < xs.len()
        invariant
            0 <= i <= xs.len(),
            views(items@) =~= Seq::new(i as nat, |k: int| topic_text(xs@[k])),
        decreases xs.len() - i,
    {
        let t = &xs[i];
        let mut item = copy_string(&t.name);
        item.append(FULL_COLON);
        item.append(truncate_chars(t.description.as_str(), 240).as_str());
        item.append(FIRST_SEEN);
        item.append(opt_or_unknown(&t.first_mentioned));
        item.append(LAST_SEEN);
        item.append(opt_or_unknown(&t.last_mentioned));
        item.append(MENTIONS);
        item.append(u64_to_string(t.mention_count as u64).as_str());
        let ghost before = items@;
        items.push(item);
        proof {
            crate::text::lemma_views_push(before, item);
        }
        i = i + 1;
    }
    items
}

fn project_items(xs: &Vec<Project>) -> (r: Vec<String>)
    ensures
        views(r@) == Seq::new(xs@.len(), |i: int| project_text(xs@[i])),
{
    let mut items: Vec<String> = Vec::new();
    let mut i: usize = 0;
    while i < xs.len()
        invariant
            0 <= i <= xs.len(),
            views(items@) =~= Seq::new(i as nat, |k: int| project_text(xs@[k])),
        decreases xs.len() - i,
    {
        let p = &xs[i];
        let mut item = copy_string(&p.title);
        item.append(STATUS_OPEN);
        item.append(p.status.as_str());
        item.append(STATUS_CLOSE);
        item.append(truncate_chars(p.summary.as_str(), 240).as_str());
        item.append(SPAN);
        item.append(opt_or_unknown(&p.start_date));
        item.append(RANGE_SEP);
        item.append(opt_or_unknown(&p.end_date));
        let ghost before = items@;
        items.push(item);
        proof {
            crate::text::lemma_views_push(before, item);
        }
        i = i + 1;
    }
    items
}

fn line_items(xs: &Vec<GrowthLine>) -> (r: Vec<String>)
    ensures
        views(r@) == Seq::new(xs@.len(), |i: int| line_text(xs@[i])),
{
    let mut items: Vec<String> = Vec::new();
    let mut i: usize = 0;
    while i < xs.len()
        invariant
            0 <= i <= xs.len(),
            views(items@) =~= Seq::new(i as nat, |k: int| line_text(xs@[k])),
        decreases xs.len() - i,
    {
        let l = &xs[i];
        let mut item = copy_string(&l.dimension);
        item.append(FULL_COLON);
        item.append(truncate_chars(records_json_text(&l.records).as_str(), 480).as_str());
        let ghost before = items@;
        items.push(item);
        proof {
            crate::text::lemma_views_push(before, item);
        }
        i = i + 1;
    }
    items
}

fn push_part(parts: &mut Vec<String>, part: String)
    ensures
        views(final(parts)@) == views(old(parts)@).push(part@),
{
    let ghost before = parts@;
    parts.push(part);
    proof {
        crate::text::lemma_views_push(before, part);
    }
}

/// The prompt that asks for the chapter of `range` from `sources`; empty when
/// the counts show no record.
#[verifier::spinoff_prover]
#[verifier::rlimit(40)]
pub fn build_life_chapter_prompt(range: &LifeChapterRange, sources: &LifeChapterSources) -> (r:
    String)
    ensures
        r@ == chapter_prompt(*range, *sources),
{
    if !sources.has_material() {
        return String::new();
    }
    let mut parts: Vec<String> = Vec::new();
    let mut head = to_owned(PROMPT_HEAD_A);
    head.append(range.label().as_str());
    head.append(PROMPT_HEAD_B);
    push_part(&mut parts, head);
    push_part(&mut parts, to_owned(CHAPTER_STYLE));
    push_part(&mut parts, to_owned(LIFE_CHAPTER_GROUNDING_RULES));
    push_part(&mut parts, counts_text(&sources.counts));
    if sources.notes.len() > 0 {
        let mut sec = to_owned(NOTES_HEAD);
        sec.append(notes_text(&sources.notes).as_str());
        push_part(&mut parts, sec);
    }
    if sources.events.len() > 0 {
        push_part(&mut parts, numbered_section(EVENTS_LABEL, &event_items(&sources.events)));
    }
    if sources.turns.len() > 0 {
        push_part(&mut parts, numbered_section(TURNS_LABEL, &turn_items(&sources.turns)));
    }
    if sources.observations.len() > 0 {
        push_part(
            &mut parts,
            numbered_section(OBSERVATIONS_LABEL, &observation_items(&sources.observations)),
        );
    }
    if sources.topics.len() > 0 {
        push_part(&mut parts, numbered_section(TOPICS_LABEL, &topic_items(&sources.topics)));
    }
    if sources.projects.len() > 0 {
        push_part(&mut parts, numbered_section(PROJECTS_LABEL, &project_items(&sources.projects)));
    }
    if sources.growth_lines.len() > 0 {
        push_part(&mut parts, numbered_section(LINES_LABEL, &line_items(&sources.growth_lines)));
    }
    push_part(&mut parts, to_owned(PROMPT_FINAL));
    assert(views(parts@) =~= chapter_prompt_parts(*range, *sources));
    join_strings(&parts, PART_SEP)
}


// ─── The stored form of a chapter ─────────────────────────────────────────

/// A chapter as stored: a front matter with the span, then the trimmed text.
pub open spec fn with_metadata(r: LifeChapterRange, content: Seq<char>) -> Seq<char> {
    FRONT_START@ + date_str(r.start_date) + FRONT_END@ + date_str(r.end_date) + FRONT_CLOSE@ + trim(
        content,
    )
}

/// What follows `key` on the first line that starts with it, trimmed.
pub open spec fn first_field(ls: Seq<Seq<char>>, key: Seq<char>) -> Option<Seq<char>>
    decreases ls.len(),
{
    if ls.len() == 0 {
        None
    } else if starts_with(ls[0], key) {
        Some(trim(ls[0].skip(key.len() as int)))
    } else {
        first_field(ls.drop_first(), key)
    }
}

/// The start and end dates written in a stored chapter, as texts.
pub open spec fn chapter_range_fields(content: Seq<char>) -> Option<(Seq<char>, Seq<char>)> {
    match (first_field(lines(content), START_KEY@), first_field(lines(content), END_KEY@)) {
        (Some(a), Some(b)) => Some((a, b)),
        _ => None,
    }
}

/// A stored chapter without its front matter: when the text (leading white
/// space aside) opens with a fence and `start_date: `, what follows the first
/// closing fence, without leading white space; otherwise the text unchanged.
pub open spec fn stripped_metadata(content: Seq<char>) -> Seq<char> {
    let t = trim_start(content);
    if !starts_with(t, FENCE_LF@) && !starts_with(t, FENCE_CRLF@) {
        content
    } else {
        let after = if starts_with(t, FENCE_CRLF@) {
            t.skip(FENCE_CRLF@.len() as int)
        } else {
            t.skip(FENCE_LF@.len() as int)
        };
        if !starts_with(after, START_KEY@) {
            content
        } else {
            match split_once(after, CLOSING_LF@) {
                Some((_, rest)) => trim_start(rest),
                None => match split_once(after, CLOSING_CRLF@) {
                    Some((_, rest)) => trim_start(rest),
                    None => content,
                },
            }
        }
    }
}

/// The chapter text headed by `# title`: a heading line of the text is
/// replaced, and a text without one gets it.
pub open spec fn normalized_heading(title: Seq<char>, content: Seq<char>) -> Seq<char> {
    let t = trim(content);
    if starts_with(t, HEADING@) {
        match split_once(t.skip(2), LINE_SEP@) {
            Some((_, body)) => HEADING@ + title + PART_SEP@ + trim_start(body),
            None => HEADING@ + title,
        }
    } else {
        HEADING@ + title + PART_SEP@ + t
    }
}

/// The chapter text to store: the span in a front matter, then the text.
pub fn with_range_metadata(range: &LifeChapterRange, content: &str) -> (r: String)
    ensures
        r@ == with_metadata(*range, content@),
{
    let mut r = to_owned(FRONT_START);
    r.append(date_to_string(range.start_date).as_str());
    r.append(FRONT_END);
    r.append(date_to_string(range.end_date).as_str());
    r.append(FRONT_CLOSE);
    r.append(trim_str(content));
    r
}

fn find_field(ls: &Vec<String>, key: &str) -> (r: Option<String>)
    ensures
        match (r, first_field(views(ls@), key@)) {
            (Some(a), Some(b)) => a@ == b,
            (None, None) => true,
            _ => false,
        },
{
    let ghost v = views(ls@);
    let mut i: usize = 0;
    assert(v.skip(0) =~= v);
    while i < ls.len()
        invariant
            0 <= i <= ls.len(),
            v == views(ls@),
            first_field(v, key@) == first_field(v.skip(i as int), key@),
        decreases ls.len() - i,
    {
        let line = ls[i].as_str();
        proof {
            assert(v.skip(i as int)[0] == line@);
            assert(v.skip(i as int).drop_first() =~= v.skip(i + 1));
        }
        if str_starts_with(line, key) {
            let rest = skip_chars(line, key.unicode_len());
            return Some(to_owned(trim_str(rest)));
        }
        i = i + 1;
    }
    None
}

/// The start and end dates written in the front matter of a stored chapter.
pub fn parse_chapter_range_from_content(content: &str) -> (r: Option<(String, String)>)
    ensures
        match (r, chapter_range_fields(content@)) {
            (Some((a, b)), Some((x, y))) => a@ == x && b@ == y,
            (None, None) => true,
            _ => false,
        },
{
    let ls = lines_of(content);
    let start = match find_field(&ls, START_KEY) {
        Some(v) => v,
        None => return None,
    };
    let end = match find_field(&ls, END_KEY) {
        Some(v) => v,
        None => return None,
    };
    Some((start, end))
}

/// A stored chapter's text without its front matter.
pub fn strip_range_metadata(content: &str) -> (r: String)
    ensures
        r@ == stripped_metadata(content@),
{
    let t = trim_start_str(content);
    let crlf = str_starts_with(t, FENCE_CRLF);
    if !str_starts_with(t, FENCE_LF) && !crlf {
        return to_owned(content);
    }
    let after = if crlf {
        skip_chars(t, FENCE_CRLF.unicode_len())
    } else {
        skip_chars(t, FENCE_LF.unicode_len())
    };
    if !str_starts_with(after, START_KEY) {
        return to_owned(content);
    }
    match split_once_str(after, CLOSING_LF) {
        Some((_, rest)) => to_owned(trim_start_str(rest)),
        None => match split_once_str(after, CLOSING_CRLF) {
            Some((_, rest)) => to_owned(trim_start_str(rest)),
            None => to_owned(content),
        },
    }
}

/// The chapter text headed by `# title`, whatever heading it had.
pub fn normalize_chapter_heading(title: &str, content: &str) -> (r: String)
    ensures
        r@ == normalized_heading(title@, content@),
{
    let t = trim_str(content);
    let mut r = to_owned(HEADING);
    r.append(title);
    if str_starts_with(t, HEADING) {
        proof {
            reveal_strlit("# ");
        }
        let after = skip_chars(t, 2);
        match split_once_str(after, LINE_SEP) {
            Some((_, body)) => {
                r.append(PART_SEP);
                r.append(trim_start_str(body));
            },
            None => {},
        }
    } else {
        r.append(PART_SEP);
        r.append(t);
    }
    r
}

/// The chapter text from the model's output, headed by the chosen title.
pub fn finalize_chapter_markdown(title: &str, output: &str) -> (r: String)
    ensures
        r@ == normalized_heading(title@, trim(output@)),
{
    normalize_chapter_heading(title, trim_str(output))
}

/// The messages that ask the model for a chapter: the grounding rules, then
/// the prompt.
pub fn life_chapter_messages(prompt: String) -> (r: Vec<ChatMessage>)
    ensures
        r.len() == 2,
        r@[0].role@ == ROLE_SYSTEM@,
        r@[0].content@ == LIFE_CHAPTER_GROUNDING_RULES@,
        r@[1].role@ == ROLE_USER@,
        r@[1].content@ == prompt@,
{
    let mut r: Vec<ChatMessage> = Vec::new();
    r.push(ChatMessage { role: to_owned(ROLE_SYSTEM), content: to_owned(LIFE_CHAPTER_GROUNDING_RULES) });
    r.push(ChatMessage { role: to_owned(ROLE_USER), content: prompt });
    r
}

/// The title of a new chapter: the one asked for when it is not blank, the
/// generated one otherwise.
pub fn choose_chapter_title(
    requested: Option<String>,
    range: &LifeChapterRange,
    sources: &LifeChapterSources,
) -> (r: String)
    ensures
        r@ == match requested {
            Some(t) => if trim(t@).len() > 0 {
                t@
            } else {
                chapter_title(*range, *sources)
            },
            None => chapter_title(*range, *sources),
        },
{
    match requested {
        Some(t) => if !is_blank(t.as_str()) {
            t
        } else {
            generate_chapter_title(range, sources)
        },
        None => generate_chapter_title(range, sources),
    }
}


// ─── Chapters among the stored notes ──────────────────────────────────────

/// A note that a chapter over `r` is written from: any note but a chapter,
/// whose day (see `note_day`) lies in the span.
pub open spec fn note_in_span(n: NoteRecord, r: LifeChapterRange) -> bool {
    &&& n.category@ != LIFE_CHAPTER_CATEGORY@
    &&& match note_day(n) {
        Some(d) => r.spec_contains(d),
        None => false,
    }
}

pub open spec fn span_note_pred(r: LifeChapterRange) -> spec_fn(NoteRecord) -> bool {
    |n: NoteRecord| note_in_span(n, r)
}

pub open spec fn is_source_of(src: LifeChapterNoteSource, n: NoteRecord) -> bool {
    &&& src.title@ == n.title@
    &&& src.content@ == n.content@
    &&& src.category@ == n.category@
}

/// The notes, in store order, that a chapter over `range` is written from.
pub fn collect_notes_for_range(notes: &Vec<NoteRecord>, range: &LifeChapterRange) -> (r: Vec<
    LifeChapterNoteSource,
>)
    ensures
        r@.len() == notes@.filter(span_note_pred(*range)).len(),
        forall|k: int|
            0 <= k < r@.len() ==> is_source_of(
                #[trigger] r@[k],
                notes@.filter(span_note_pred(*range))[k],
            ),
{
    let ghost p = span_note_pred(*range);
    let mut out: Vec<LifeChapterNoteSource> = Vec::new();
    let mut i: usize = 0;
    assert(notes@.take(0).filter(p) =~= Seq::<NoteRecord>::empty()) by {
        reveal(Seq::filter);
    }
    while i < notes.len()
        invariant
            0 <= i <= notes.len(),
            p == span_note_pred(*range),
            out@.len() == notes@.take(i as int).filter(p).len(),
            forall|k: int|
                0 <= k < out@.len() ==> is_source_of(
                    #[trigger] out@[k],
                    notes@.take(i as int).filter(p)[k],
                ),
        decreases notes.len() - i,
    {
        let n = &notes[i];
        proof {
            lemma_filter_take_step(notes@, p, i as int);
        }
        let in_span = !str_eq(n.category.as_str(), LIFE_CHAPTER_CATEGORY) && match note_date(n) {
            Some(d) => range.contains_date(d),
            None => false,
        };
        if in_span {
            out.push(
                LifeChapterNoteSource {
                    title: copy_string(&n.title),
                    content: copy_string(&n.content),
                    category: copy_string(&n.category),
                },
            );
        }
        i = i + 1;
    }
    assert(notes@.take(i as int) =~= notes@);
    out
}

/// The note to create for a new chapter.
pub fn life_chapter_save_request(title: &str, content: &str) -> (r: SaveNoteRequest)
    ensures
        r.title@ == title@,
        r.content@ == content@,
        r.category@ == LIFE_CHAPTER_CATEGORY@,
{
    SaveNoteRequest {
        title: to_owned(title),
        content: to_owned(content),
        category: to_owned(LIFE_CHAPTER_CATEGORY),
    }
}

/// The chapter of `range` as saved in note `saved`, its front matter hidden.
pub fn saved_life_chapter_result(
    range: &LifeChapterRange,
    saved: &NoteRecord,
    source_counts: LifeChapterSourceCounts,
) -> (r: LifeChapterGenerateResult)
    ensures
        r.note_id@ == saved.id@,
        r.title@ == saved.title@,
        r.start_date@ == date_str(range.start_date),
        r.end_date@ == date_str(range.end_date),
        r.content@ == stripped_metadata(saved.content@),
        r.source_counts == source_counts,
{
    LifeChapterGenerateResult {
        note_id: copy_string(&saved.id),
        title: copy_string(&saved.title),
        start_date: date_to_string(range.start_date),
        end_date: date_to_string(range.end_date),
        content: strip_range_metadata(saved.content.as_str()),
        source_counts,
    }
}

pub open spec fn is_chapter_note(n: NoteRecord) -> bool {
    n.category@ == LIFE_CHAPTER_CATEGORY@
}

/// `s` with `x` placed before the first note updated earlier than `x`.
pub open spec fn insert_by_update(s: Seq<NoteRecord>, x: NoteRecord) -> Seq<NoteRecord>
    decreases s.len(),
{
    if s.len() == 0 {
        seq![x]
    } else if seq_lt(s[0].updated_at@, x.updated_at@) {
        seq![x] + s
    } else {
        seq![s[0]] + insert_by_update(s.drop_first(), x)
    }
}

/// `s` ordered by update time, latest first, notes updated at the same time
/// in their order in `s` (a stable sort).
pub open spec fn newest_first(s: Seq<NoteRecord>) -> Seq<NoteRecord>
    decreases s.len(),
{
    if s.len() == 0 {
        s
    } else {
        insert_by_update(newest_first(s.drop_last()), s.last())
    }
}

pub open spec fn chapter_note_pred() -> spec_fn(NoteRecord) -> bool {
    |n: NoteRecord| is_chapter_note(n)
}

/// The chapter notes of the store, latest update first.
pub open spec fn listed_chapters(notes: Seq<NoteRecord>) -> Seq<NoteRecord> {
    newest_first(notes.filter(chapter_note_pred()))
}

/// `e` is the listed entry of chapter note `n`: the span read from its front
/// matter (empty texts when it has none) and its text without the front matter.
pub open spec fn is_chapter_entry(e: LifeChapterEntry, n: NoteRecord) -> bool {
    &&& e.note_id@ == n.id@
    &&& e.title@ == n.title@
    &&& match chapter_range_fields(n.content@) {
        Some((a, b)) => e.start_date@ == a && e.end_date@ == b,
        None => e.start_date@ == Seq::<char>::empty() && e.end_date@ == Seq::<char>::empty(),
    }
    &&& e.content@ == stripped_metadata(n.content@)
    &&& e.source_counts.spec_total() == 0
    &&& e.created_at@ == n.created_at@
    &&& e.updated_at@ == n.updated_at@
}

proof fn lemma_insert_at(s: Seq<NoteRecord>, x: NoteRecord, p: int)
    requires
        0 <= p <= s.len(),
        forall|k: int| 0 <= k < p ==> !seq_lt(#[trigger] s[k].updated_at@, x.updated_at@),
        p < s.len() ==> seq_lt(s[p].updated_at@, x.updated_at@),
    ensures
        insert_by_update(s, x) == s.take(p).push(x) + s.skip(p),
    decreases p,
{
    if p == 0 {
        if s.len() == 0 {
            assert(s.take(0).push(x) + s.skip(0) =~= seq![x]);
        } else {
            assert(s.take(0).push(x) + s.skip(0) =~= seq![x] + s);
        }
    } else {
        let t = s.drop_first();
        assert forall|k: int| 0 <= k < p - 1 implies !seq_lt(#[trigger] t[k].updated_at@, x.updated_at@) by {
            assert(t[k] == s[k + 1]);
        }
        if p < s.len() {
            assert(t[p - 1] == s[p]);
        }
        lemma_insert_at(t, x, p - 1);
        assert(!seq_lt(s[0].updated_at@, x.updated_at@));
        assert(seq![s[0]] + (t.take(p - 1).push(x) + t.skip(p - 1)) =~= s.take(p).push(x) + s.skip(p));
    }
}

fn chapter_entry(note: &NoteRecord) -> (r: LifeChapterEntry)
    ensures
        is_chapter_entry(r, *note),
{
    let (start_date, end_date) = match parse_chapter_range_from_content(note.content.as_str()) {
        Some((a, b)) => (a, b),
        None => (String::new(), String::new()),
    };
    LifeChapterEntry {
        note_id: copy_string(&note.id),
        title: copy_string(&note.title),
        start_date,
        end_date,
        content: strip_range_metadata(note.content.as_str()),
        source_counts: LifeChapterSourceCounts::default(),
        created_at: copy_string(&note.created_at),
        updated_at: copy_string(&note.updated_at),
    }
}

/// The stored chapters, latest update first, each with its span read from its
/// front matter and its text without it.
pub fn list_life_chapters(notes: &Vec<NoteRecord>) -> (r: Vec<LifeChapterEntry>)
    ensures
        r@.len() == listed_chapters(notes@).len(),
        forall|k: int| 0 <= k < r@.len() ==> is_chapter_entry(#[trigger] r@[k], listed_chapters(notes@)[k]),
        forall|i: int, j: int|
            0 <= i < j < r@.len() ==> !seq_lt(r@[i].updated_at@, r@[j].updated_at@),
{
    let ghost p = chapter_note_pred();
    let mut out: Vec<LifeChapterEntry> = Vec::new();
    let ghost mut sorted: Seq<NoteRecord> = Seq::empty();
    let mut i: usize = 0;
    assert(notes@.take(0).filter(p) =~= Seq::<NoteRecord>::empty()) by {
        reveal(Seq::filter);
    }
    while i < notes.len()
        invariant
            0 <= i <= notes.len(),
            p == chapter_note_pred(),
            sorted == newest_first(notes@.take(i as int).filter(p)),
            out@.len() == sorted.len(),
            forall|k: int| 0 <= k < out@.len() ==> is_chapter_entry(#[trigger] out@[k], sorted[k]),
        decreases notes.len() - i,
    {
        let n = &notes[i];
        proof {
            lemma_filter_take_step(notes@, p, i as int);
        }
        if str_eq(n.category.as_str(), LIFE_CHAPTER_CATEGORY) {
            let e = chapter_entry(n);
            let mut pos: usize = 0;
            while pos < out.len() && !str_lt(out[pos].updated_at.as_str(), e.updated_at.as_str())
                invariant
                    0 <= pos <= out@.len(),
                    out@.len() == sorted.len(),
                    e.updated_at@ == n.updated_at@,
                    forall|k: int| 0 <= k < out@.len() ==> is_chapter_entry(#[trigger] out@[k], sorted[k]),
                    forall|k: int| 0 <= k < pos ==> !seq_lt(#[trigger] sorted[k].updated_at@, n.updated_at@),
                decreases out@.len() - pos,
            {
                proof {
                    assert(is_chapter_entry(out@[pos as int], sorted[pos as int]));
                }
                pos = pos + 1;
            }
            proof {
                if pos < out@.len() {
                    assert(is_chapter_entry(out@[pos as int], sorted[pos as int]));
                }
                lemma_insert_at(sorted, *n, pos as int);
                assert(notes@.take(i + 1).filter(p).last() == *n);
                assert(notes@.take(i + 1).filter(p).drop_last() == notes@.take(i as int).filter(p));
            }
            let ghost old_out = out@;
            out.insert(pos, e);
            proof {
                let new_sorted = sorted.take(pos as int).push(*n) + sorted.skip(pos as int);
                assert forall|k: int| 0 <= k < out@.len() implies is_chapter_entry(#[trigger] out@[k], new_sorted[k]) by {
                    if k < pos {
                        assert(out@[k] == old_out[k]);
                    } else if k > pos {
                        assert(out@[k] == old_out[k - 1]);
                    }
                }
                sorted = new_sorted;
            }
        }
        i = i + 1;
    }
    proof {
        assert(notes@.take(i as int) =~= notes@);
        lemma_listed_chapters_newest_first(notes@);
        assert forall|a: int, b: int| 0 <= a < b < out@.len() implies !seq_lt(
            out@[a].updated_at@,
            out@[b].updated_at@,
        ) by {
            assert(is_chapter_entry(out@[a], sorted[a]));
            assert(is_chapter_entry(out@[b], sorted[b]));
        }
    }
    out
}

/// An edit of a chapter: the note to write over it, and its span as written
/// in its front matter.
#[derive(Debug, Clone, PartialEq, Eq)]
pub struct LifeChapterEdit {
    pub request: SaveNoteRequest,
    pub start_date: String,
    pub end_date: String,
}

pub open spec fn chapter_message(note_id: Seq<char>, suffix: Seq<char>) -> Seq<char> {
    CHAPTER_PREFIX@ + note_id + suffix
}

/// What editing chapter `note_id` (stored as `existing`) to `title` and
/// `content` writes: the title (the old one when the new one is blank), the
/// stored text with its span, and the span's two dates as written; or why it
/// cannot: the note is no chapter, its span is missing, or its span is no
/// longer a valid span.
pub open spec fn edit_outcome(
    note_id: Seq<char>,
    existing: NoteRecord,
    title: Seq<char>,
    content: Seq<char>,
) -> Result<(Seq<char>, Seq<char>, Seq<char>, Seq<char>), ErrorSpec> {
    if !is_chapter_note(existing) {
        Err(error_spec(CHAPTER_NOT_FOUND@, chapter_message(note_id, NOT_FOUND_SUFFIX@)))
    } else {
        match chapter_range_fields(existing.content@) {
            None => Err(error_spec(METADATA_MISSING@, chapter_message(note_id, MISSING_SUFFIX@))),
            Some((a, b)) => match range_outcome(a, b) {
                Err(e) => Err(e),
                Ok(r) => {
                    let t = if trim(title).len() == 0 {
                        existing.title@
                    } else {
                        trim(title)
                    };
                    Ok((t, with_metadata(r, normalized_heading(t, content)), a, b))
                },
            },
        }
    }
}

fn chapter_error(code: &str, note_id: &str, suffix: &str) -> (e: AppError)
    ensures
        e@ == error_spec(code@, chapter_message(note_id@, suffix@)),
{
    let mut msg = to_owned(CHAPTER_PREFIX);
    msg.append(note_id);
    msg.append(suffix);
    AppError::new(code, msg)
}

/// Edits chapter `note_id`, stored as `existing`: a new title (kept when
/// blank) and text, headed by the title, under the same span.
pub fn update_life_chapter(note_id: &str, existing: &NoteRecord, title: String, content: String) -> (r:
    Result<LifeChapterEdit, AppError>)
    ensures
        match (r, edit_outcome(note_id@, *existing, title@, content@)) {
            (Ok(e), Ok((t, c, a, b))) => {
                &&& e.request.title@ == t
                &&& e.request.content@ == c
                &&& e.request.category@ == LIFE_CHAPTER_CATEGORY@
                &&& e.start_date@ == a
                &&& e.end_date@ == b
            },
            (Err(e), Err(s)) => e@ == s,
            _ => false,
        },
{
    if !str_eq(existing.category.as_str(), LIFE_CHAPTER_CATEGORY) {
        return Err(chapter_error(CHAPTER_NOT_FOUND, note_id, NOT_FOUND_SUFFIX));
    }
    let (start_date, end_date) = match parse_chapter_range_from_content(existing.content.as_str()) {
        Some(pair) => pair,
        None => return Err(chapter_error(METADATA_MISSING, note_id, MISSING_SUFFIX)),
    };
    let range = match LifeChapterRange::new(start_date.as_str(), end_date.as_str()) {
        Ok(r) => r,
        Err(e) => return Err(e),
    };
    let trimmed = trim_str(title.as_str());
    let title = if trimmed.unicode_len() == 0 {
        copy_string(&existing.title)
    } else {
        to_owned(trimmed)
    };
    let normalized = normalize_chapter_heading(title.as_str(), content.as_str());
    let stored = with_range_metadata(&range, normalized.as_str());
    Ok(
        LifeChapterEdit {
            request: SaveNoteRequest {
                title,
                content: stored,
                category: to_owned(LIFE_CHAPTER_CATEGORY),
            },
            start_date,
            end_date,
        },
    )
}

/// The result of an edit, from the note as the store saved it.
pub fn life_chapter_update_result(edit: &LifeChapterEdit, saved: &NoteRecord) -> (r:
    LifeChapterUpdateResult)
    ensures
        r.note_id@ == saved.id@,
        r.title@ == saved.title@,
        r.start_date@ == edit.start_date@,
        r.end_date@ == edit.end_date@,
        r.content@ == stripped_metadata(saved.content@),
        r.updated_at@ == saved.updated_at@,
{
    LifeChapterUpdateResult {
        note_id: copy_string(&saved.id),
        title: copy_string(&saved.title),
        start_date: copy_string(&edit.start_date),
        end_date: copy_string(&edit.end_date),
        content: strip_range_metadata(saved.content.as_str()),
        updated_at: copy_string(&saved.updated_at),
    }
}


// ─── Gathering ────────────────────────────────────────────────────────────

pub open spec fn observation_in_range(o: Observation, r: LifeChapterRange) -> bool {
    match chrono_date(o.date@) {
        Some(d) => r.spec_contains(d),
        None => false,
    }
}

pub open spec fn range_observation_pred(r: LifeChapterRange) -> spec_fn(Observation) -> bool {
    |o: Observation| observation_in_range(o, r)
}

/// Keeps the observations dated in the span.
fn retain_range_observations(observations: &mut Vec<Observation>, range: &LifeChapterRange)
    ensures
        final(observations)@ == old(observations)@.filter(range_observation_pred(*range)),
{
    let ghost orig = observations@;
    let ghost p = range_observation_pred(*range);
    let ghost mut j: int = 0;
    let mut i: usize = 0;
    assert(orig.take(0).filter(p) =~= Seq::<Observation>::empty()) by {
        reveal(Seq::filter);
    }
    assert(orig.take(0).filter(p) + orig.skip(0) =~= orig);
    while i < observations.len()
        invariant
            0 <= j <= orig.len(),
            p == range_observation_pred(*range),
            observations@ == orig.take(j).filter(p) + orig.skip(j),
            i == orig.take(j).filter(p).len(),
        decreases observations.len() - i,
    {
        proof {
            if j == orig.len() {
                assert(orig.skip(j).len() == 0);
            }
            lemma_retain_step(orig, observations@, p, i as int, j);
        }
        let keep = match parse_date_chrono(observations[i].date.as_str()) {
            Some(d) => range.contains_date(d),
            None => false,
        };
        if keep {
            i = i + 1;
        } else {
            observations.remove(i);
        }
        proof {
            j = j + 1;
        }
    }
    proof {
        lemma_retain_done(orig, observations@, p, j);
    }
}

/// The sources of a chapter over `range` from what the database returned for
/// the span (events and turns), the user's observations, topics, projects and
/// growth lines, and the stored notes: observations dated in the span, notes
/// of the span, and what `filter_to_range` keeps; with their counts.
pub fn gather_life_chapter_sources(
    events: Vec<Event>,
    turns: Vec<ConversationTurn>,
    observations: Vec<Observation>,
    topics: Vec<Topic>,
    projects: Vec<Project>,
    growth_lines: Vec<GrowthLine>,
    notes: &Vec<NoteRecord>,
    range: &LifeChapterRange,
) -> (r: LifeChapterSources)
    ensures
        r.events == events,
        r.turns == turns,
        r.observations@ == observations@.filter(range_observation_pred(*range)),
        r.topics@ == topics@.filter(topic_pred(*range)),
        r.projects@ == projects@.filter(project_pred(*range)),
        lines_filtered(r.growth_lines@, growth_lines@, *range),
        r.notes@.len() == notes@.filter(span_note_pred(*range)).len(),
        forall|k: int|
            0 <= k < r.notes@.len() ==> is_source_of(
                #[trigger] r.notes@[k],
                notes@.filter(span_note_pred(*range))[k],
            ),
        r.counts == counts_of(r),
{
    let mut observations = observations;
    retain_range_observations(&mut observations, range);
    let span_notes = collect_notes_for_range(notes, range);
    let mut sources = LifeChapterSources {
        events,
        turns,
        observations,
        topics,
        projects,
        growth_lines,
        notes: span_notes,
        counts: LifeChapterSourceCounts::default(),
    };
    sources.filter_to_range(range);
    sources
}


// ─── Laws of the stored form ──────────────────────────────────────────────

proof fn lemma_date_str_plain(d: Date)
    ensures
        date_str(d).len() > 0,
        forall|k: int| 0 <= k < date_str(d).len() ==> #[trigger] date_str(d)[k] != '\n',
        !is_ws(date_str(d)[0]),
        date_str(d).last() != '\r',
        trim(date_str(d)) == date_str(d),
{
    lemma_date_str_chars(d);
    let t = date_str(d);
    assert(is_digit(t[0]) || t[0] == '-' || t[0] == '+');
    assert(is_digit(t.last()));
    lemma_trim_no_ws_ends(t);
}

/// The span read back from a stored chapter is the span it was stored with.
pub proof fn lemma_stored_range_reads_back(r: LifeChapterRange, content: Seq<char>)
    ensures
        chapter_range_fields(with_metadata(r, content)) == Some(
            (date_str(r.start_date), date_str(r.end_date)),
        ),
{
    reveal_strlit("---\nstart_date: ");
    reveal_strlit("\nend_date: ");
    reveal_strlit("\n---\n\n");
    reveal_strlit("start_date: ");
    reveal_strlit("end_date: ");
    let d1 = date_str(r.start_date);
    let d2 = date_str(r.end_date);
    lemma_date_str_plain(r.start_date);
    lemma_date_str_plain(r.end_date);
    let a0 = seq!['-', '-', '-'];
    let a1 = START_KEY@ + d1;
    let a2 = END_KEY@ + d2;
    let rest = seq!['-', '-', '-', '\n', '\n'] + trim(content);
    let w = with_metadata(r, content);
    assert(w =~= a0 + seq!['\n'] + (a1 + seq!['\n'] + (a2 + seq!['\n'] + rest)));
    assert forall|k: int| 0 <= k < a1.len() implies a1[k] != '\n' by {
        if k >= 12 {
            assert(a1[k] == d1[k - 12]);
        }
    }
    assert forall|k: int| 0 <= k < a2.len() implies a2[k] != '\n' by {
        if k >= 10 {
            assert(a2[k] == d2[k - 10]);
        }
    }
    lemma_split_char_after(a2, rest, '\n');
    lemma_split_char_after(a1, a2 + seq!['\n'] + rest, '\n');
    lemma_split_char_after(a0, a1 + seq!['\n'] + (a2 + seq!['\n'] + rest), '\n');
    lemma_split_char_nonempty(rest, '\n');
    let pieces = split_char(w, '\n');
    assert(pieces =~= seq![a0, a1, a2] + split_char(rest, '\n'));
    let ls = lines(w);
    assert(ls.len() >= 3);
    assert(ls[0] == drop_cr(a0));
    assert(ls[1] == drop_cr(a1));
    assert(ls[2] == drop_cr(a2));
    assert(drop_cr(a0) == a0);
    assert(a1.last() == d1.last());
    assert(a2.last() == d2.last());
    assert(ls[0] == a0);
    assert(ls[1] == a1);
    assert(ls[2] == a2);
    assert(!starts_with(a0, START_KEY@));
    assert(a1.take(12) =~= START_KEY@);
    assert(a1.skip(12) =~= d1);
    assert(first_field(ls, START_KEY@) == first_field(ls.drop_first(), START_KEY@));
    assert(ls.drop_first()[0] == a1);
    assert(first_field(ls, START_KEY@) == Some(d1));
    assert(!starts_with(a0, END_KEY@));
    assert(!starts_with(a1, END_KEY@)) by {
        assert(a1.take(10)[0] == 's');
    }
    assert(a2.take(10) =~= END_KEY@);
    assert(a2.skip(10) =~= d2);
    let l1 = ls.drop_first();
    assert(l1[0] == a1);
    assert(l1.drop_first()[0] == a2);
    assert(first_field(ls, END_KEY@) == first_field(l1, END_KEY@));
    assert(first_field(l1, END_KEY@) == first_field(l1.drop_first(), END_KEY@));
    assert(first_field(ls, END_KEY@) == Some(d2));
}


/// A stored chapter's text, its front matter hidden, is the text it was
/// stored with, trimmed.
#[verifier::spinoff_prover]
#[verifier::rlimit(40)]
pub proof fn lemma_stored_text_reads_back(r: LifeChapterRange, content: Seq<char>)
    ensures
        stripped_metadata(with_metadata(r, content)) == trim(content),
{
    reveal_strlit("---\nstart_date: ");
    reveal_strlit("\nend_date: ");
    reveal_strlit("\n---\n\n");
    reveal_strlit("start_date: ");
    reveal_strlit("---\n");
    reveal_strlit("---\r\n");
    reveal_strlit("\n---\n");
    let d1 = date_str(r.start_date);
    let d2 = date_str(r.end_date);
    lemma_date_str_plain(r.start_date);
    lemma_date_str_plain(r.end_date);
    let t = trim(content);
    let w = with_metadata(r, content);
    let x = START_KEY@ + d1 + FRONT_END@ + d2;
    let after = x + CLOSING_LF@ + seq!['\n'] + t;
    assert(w =~= FENCE_LF@ + after);
    assert(trim_start(w) == w);
    assert(starts_with(w, FENCE_LF@)) by {
        assert(w.take(4) =~= FENCE_LF@);
    }
    assert(!starts_with(w, FENCE_CRLF@)) by {
        assert(w.take(5)[3] == '\n');
    }
    assert(w.skip(4) =~= after);
    assert(starts_with(after, START_KEY@)) by {
        assert(after.take(12) =~= START_KEY@);
    }
    let k = x.len() as int;
    let p = CLOSING_LF@;
    assert(occurs_at(after, p, k)) by {
        assert(after.subrange(k, k + 5) =~= p);
    }
    let j0 = 12 + d1.len();
    assert forall|j: int| 0 <= j < k implies !occurs_at(after, p, j) by {
        assert(after[j] == x[j]);
        if j < 12 {
            assert(x[j] == START_KEY@[j]);
        } else if j < j0 {
            assert(x[j] == d1[j - 12]);
        } else if j == j0 {
            assert(x[j + 1] == 'e');
            assert(after.subrange(j, j + 5)[1] == after[j + 1]);
        } else {
            assert(x[j] == (FRONT_END@ + d2)[j - j0]);
            if j < j0 + 11 {
                assert(x[j] == FRONT_END@[j - j0]);
            } else {
                assert(x[j] == d2[j - j0 - 11]);
            }
        }
        if occurs_at(after, p, j) {
            assert(after.subrange(j, j + 5)[0] == after[j]);
        }
    }
    lemma_find_from_first(after, p, 0, k);
    assert(after.skip(k + 5) =~= seq!['\n'] + t);
    assert((seq!['\n'] + t).drop_first() =~= t);
    lemma_trim_start_of_trim(content);
}


/// Editing a chapter keeps its span: the span read back from the stored text
/// is the span the chapter had, and the text shown is the new text under the
/// chosen title.
pub proof fn lemma_edit_keeps_span(
    note_id: Seq<char>,
    existing: NoteRecord,
    title: Seq<char>,
    content: Seq<char>,
)
    ensures
        edit_outcome(note_id, existing, title, content) matches Ok((t, c, a, b)) ==> {
            &&& range_outcome(a, b) matches Ok(r)
            &&& chapter_range_fields(c) == Some((date_str(r.start_date), date_str(r.end_date)))
            &&& stripped_metadata(c) == trim(normalized_heading(t, content))
        },
{
    if let Ok((t, c, a, b)) = edit_outcome(note_id, existing, title, content) {
        if let Ok(r) = range_outcome(a, b) {
            lemma_stored_range_reads_back(r, normalized_heading(t, content));
            lemma_stored_text_reads_back(r, normalized_heading(t, content));
        }
    }
}


// ─── The order of listed chapters ─────────────────────────────────────────

pub open spec fn updates_descending(s: Seq<NoteRecord>) -> bool {
    forall|i: int, j: int|
        0 <= i < j < s.len() ==> !seq_lt(
            #[trigger] s[i].updated_at@,
            #[trigger] s[j].updated_at@,
        )
}

/// When `b < c` and not `b < e`, not `c < e` either.
proof fn lemma_not_lt_after(b: Seq<char>, c: Seq<char>, e: Seq<char>)
    requires
        seq_lt(b, c),
        !seq_lt(b, e),
    ensures
        !seq_lt(c, e),
{
    lemma_seq_lt_trans(b, c, e);
}

proof fn lemma_insert_by_update_bound(s: Seq<NoteRecord>, x: NoteRecord, b: Seq<char>)
    requires
        forall|j: int| 0 <= j < s.len() ==> !seq_lt(b, #[trigger] s[j].updated_at@),
        !seq_lt(b, x.updated_at@),
    ensures
        forall|j: int|
            0 <= j < insert_by_update(s, x).len() ==> !seq_lt(
                b,
                #[trigger] insert_by_update(s, x)[j].updated_at@,
            ),
        insert_by_update(s, x).len() == s.len() + 1,
    decreases s.len(),
{
    if s.len() > 0 && !seq_lt(s[0].updated_at@, x.updated_at@) {
        let t = s.drop_first();
        assert forall|j: int| 0 <= j < t.len() implies !seq_lt(b, #[trigger] t[j].updated_at@) by {
            assert(t[j] == s[j + 1]);
        }
        lemma_insert_by_update_bound(t, x, b);
        let r = insert_by_update(s, x);
        assert forall|j: int| 0 <= j < r.len() implies !seq_lt(b, #[trigger] r[j].updated_at@) by {
            if j > 0 {
                assert(r[j] == insert_by_update(t, x)[j - 1]);
            }
        }
    } else if s.len() > 0 {
        let r = insert_by_update(s, x);
        assert forall|j: int| 0 <= j < r.len() implies !seq_lt(b, #[trigger] r[j].updated_at@) by {
            if j > 0 {
                assert(r[j] == s[j - 1]);
            }
        }
    }
}

proof fn lemma_insert_by_update_sorted(s: Seq<NoteRecord>, x: NoteRecord)
    requires
        updates_descending(s),
    ensures
        updates_descending(insert_by_update(s, x)),
        insert_by_update(s, x).len() == s.len() + 1,
    decreases s.len(),
{
    if s.len() == 0 {
    } else if seq_lt(s[0].updated_at@, x.updated_at@) {
        let r = insert_by_update(s, x);
        assert forall|i: int, j: int| 0 <= i < j < r.len() implies !seq_lt(
            #[trigger] r[i].updated_at@,
            #[trigger] r[j].updated_at@,
        ) by {
            if i == 0 {
                assert(r[j] == s[j - 1]);
                if j - 1 > 0 {
                    assert(!seq_lt(s[0].updated_at@, s[j - 1].updated_at@));
                    lemma_not_lt_after(s[0].updated_at@, x.updated_at@, s[j - 1].updated_at@);
                } else {
                    lemma_seq_lt_asym(s[0].updated_at@, x.updated_at@);
                }
            } else {
                assert(r[i] == s[i - 1]);
                assert(r[j] == s[j - 1]);
            }
        }
    } else {
        let t = s.drop_first();
        assert forall|i: int, j: int| 0 <= i < j < t.len() implies !seq_lt(
            #[trigger] t[i].updated_at@,
            #[trigger] t[j].updated_at@,
        ) by {
            assert(t[i] == s[i + 1]);
            assert(t[j] == s[j + 1]);
        }
        lemma_insert_by_update_sorted(t, x);
        assert forall|j: int| 0 <= j < t.len() implies !seq_lt(s[0].updated_at@, #[trigger] t[j].updated_at@) by {
            assert(t[j] == s[j + 1]);
        }
        lemma_insert_by_update_bound(t, x, s[0].updated_at@);
        let r = insert_by_update(s, x);
        let q = insert_by_update(t, x);
        assert forall|i: int, j: int| 0 <= i < j < r.len() implies !seq_lt(
            #[trigger] r[i].updated_at@,
            #[trigger] r[j].updated_at@,
        ) by {
            assert(r[j] == q[j - 1]);
            if i > 0 {
                assert(r[i] == q[i - 1]);
            }
        }
    }
}

proof fn lemma_newest_first_sorted(s: Seq<NoteRecord>)
    ensures
        updates_descending(newest_first(s)),
        newest_first(s).len() == s.len(),
    decreases s.len(),
{
    if s.len() > 0 {
        lemma_newest_first_sorted(s.drop_last());
        lemma_insert_by_update_sorted(newest_first(s.drop_last()), s.last());
    }
}

/// Listed chapters come latest update first.
pub proof fn lemma_listed_chapters_newest_first(notes: Seq<NoteRecord>)
    ensures
        updates_descending(listed_chapters(notes)),
{
    lemma_newest_first_sorted(notes.filter(chapter_note_pred()));
}

proof fn lemma_insert_by_update_multiset(s: Seq<NoteRecord>, x: NoteRecord)
    ensures
        insert_by_update(s, x).to_multiset() =~= s.to_multiset().insert(x),
    decreases s.len(),
{
    broadcast use vstd::multiset::group_multiset_axioms;
    broadcast use vstd::seq_lib::group_to_multiset_ensures;

    let e = Seq::<NoteRecord>::empty();
    assert(e.to_multiset().len() == 0);
    assert(e.to_multiset() =~= vstd::multiset::Multiset::<NoteRecord>::empty());
    assert(e.push(x) =~= seq![x]);
    assert(seq![x].to_multiset() =~= vstd::multiset::Multiset::<NoteRecord>::empty().insert(x));
    if s.len() == 0 {
        assert(s =~= e);
    } else if seq_lt(s[0].updated_at@, x.updated_at@) {
        vstd::seq_lib::lemma_multiset_commutative(seq![x], s);
        assert(seq![x].to_multiset().add(s.to_multiset()) =~= s.to_multiset().insert(x));
    } else {
        let rest = s.drop_first();
        lemma_insert_by_update_multiset(rest, x);
        assert(e.push(s[0]) =~= seq![s[0]]);
        assert(seq![s[0]].to_multiset() =~= vstd::multiset::Multiset::<NoteRecord>::empty().insert(s[0]));
        vstd::seq_lib::lemma_multiset_commutative(seq![s[0]], insert_by_update(rest, x));
        vstd::seq_lib::lemma_multiset_commutative(seq![s[0]], rest);
        assert(s =~= seq![s[0]] + rest);
        assert(seq![s[0]].to_multiset().add(rest.to_multiset().insert(x)) =~= seq![s[0]].to_multiset().add(
            rest.to_multiset(),
        ).insert(x));
    }
}

proof fn lemma_newest_first_multiset(s: Seq<NoteRecord>)
    ensures
        newest_first(s).to_multiset() =~= s.to_multiset(),
    decreases s.len(),
{
    if s.len() > 0 {
        lemma_newest_first_multiset(s.drop_last());
        lemma_insert_by_update_multiset(newest_first(s.drop_last()), s.last());
        vstd::seq_lib::to_multiset_build(s.drop_last(), s.last());
        assert(s.drop_last().push(s.last()) =~= s);
    }
}

/// The listed chapters are the chapter notes of the store, each once: the
/// listing reorders them and leaves none out.
pub proof fn lemma_listed_chapters_are_the_chapter_notes(notes: Seq<NoteRecord>)
    ensures
        listed_chapters(notes).to_multiset() == notes.filter(chapter_note_pred()).to_multiset(),
{
    lemma_newest_first_multiset(notes.filter(chapter_note_pred()));
}

} // verus!
