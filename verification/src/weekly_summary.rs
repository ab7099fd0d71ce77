//! Weekly growth summaries: one note per ISO week, written from that week's
//! records and titled `week-YYYY-Www`.
use vstd::prelude::*;
use crate::dates::{
    add_days, add_days_to, as_date, chrono_date, date_le, date_str, date_to_string,
    iso_week_monday_chrono, parse_date_chrono, spec_chrono_iso_week_monday, Date,
};
use crate::error::{error_spec, AppError, ErrorSpec};
use crate::life_chapter::{
    event_items, event_text, lemma_filter_take_step, lemma_retain_done, lemma_retain_step, numbered, numbered_block, observation_items,
    observation_text, turn_items, turn_text,
};
use crate::notes::{note_date, note_day, NoteRecord, SaveNoteRequest, DIARY_NOTE_CATEGORY, WEEKLY_SUMMARY_CATEGORY};
use crate::text::{
    contains_seq, copy_string, ends_with, i64_to_string, lemma_join_contains, lemma_join_ends,
    lemma_section_contains, int_str, join, join_strings, nat_str, parse_i32, parse_i32_spec,
    parse_u32, parse_u32_spec, skip_chars, split_once, split_once_str, starts_with, str_eq,
    str_starts_with, to_owned, trim, trim_str, truncate_chars, truncated, u64_to_padded,
    u64_to_string, views, zero_pad,
};
use crate::types::{
    ChatMessage, ConversationTurn, Event, Observation, WeeklySourceCounts, WeeklySummaryEntry,
    WeeklySummaryGenerateResult,
};

verus! {

pub const MAX_WEEKLY_EVENTS: usize = 100;

pub const MAX_WEEKLY_TURNS: usize = 200;

pub const WEEKLY_TEMPERATURE_HUNDREDTHS: u32 = 20;

pub const WEEKLY_MAX_TOKENS: u32 = 2000;

pub const INVALID_ISO_WEEK: &'static str = "invalidIsoWeek";

pub const INVALID_WEEK_PREFIX: &'static str = "Invalid ISO week identity: ";

pub const WEEK_TITLE_PREFIX: &'static str = "week-";

pub const WEEK_MARK: &'static str = "-W";

pub const RANGE_SEP: &'static str = " ~ ";

pub const HEADING: &'static str = "# ";

pub const PART_SEP: &'static str = "\n\n";

pub const LINE_SEP: &'static str = "\n";

pub const SPARSE_BODY: &'static str = "本周可用记录较少，暂时只能生成一份很短的成长总结；为避免编造细节，这里只保留已被记录支持的信息。";

pub const WEEKLY_GROUNDING_RULES: &'static str = "扎根规则：\n- 只使用本 ISO 周内提供的记录。\n- 全文必须使用中文输出。\n- 不要编造事件、原因、对话、决定、结果、时间线、地点或关系状态。\n- 如果来源材料稀疏，就写短一些，并明确说明本周记录有限。\n- 可以使用定性观察，但不要出现数字人格权重或 Ti/Te/Fi/Fe/Si/Se/Ni/Ne 时间线。\n- 不确定的地方要直接说明，不要用看似合理的故事补全空白。";

pub const WEEKLY_STYLE: &'static str = "写作风格要求（优先级很高）：\n- 使用 Markdown，标题以本周范围或 week 标识开头。\n- 语气要像用户自己在周末回看这一周，不要像 AI 资料汇总。\n- 不要写成工作报告、复盘模板、事实核查或来源审计。\n- 正文里不要反复出现“根据记录”“材料显示”“来源显示”“对话里”“笔记里”“事件记忆里”。\n- 可以做温和整理和谨慎连接，但每个具体事实都必须能被下面的记录支持。\n- 如果材料很少，宁可短一点；不要为了显得完整而补充细节。\n- 只输出周总结成品，不输出分析过程、证据判断或写作说明。";

pub const PROMPT_HEAD_A: &'static str = "你是一个克制、准确、自然的成长日记整理助手。请根据以下记录，为 ISO 周 ";

pub const PROMPT_HEAD_B: &'static str = "（";

pub const PROMPT_HEAD_C: &'static str = "）生成一份中文周成长总结。";

pub const PROMPT_FINAL: &'static str = "请直接输出中文 Markdown 周总结正文。宁可短而真实，也不要写得丰富但缺乏依据。";

pub const COUNT_DIARY: &'static str = "来源数量：日记=";

pub const COUNT_EVENTS: &'static str = "，事件记忆=";

pub const COUNT_TURNS: &'static str = "，对话摘要=";

pub const COUNT_NOTES: &'static str = "，笔记=";

pub const COUNT_OBSERVATIONS: &'static str = "，定性观察=";

pub const NOTES_HEAD: &'static str = "笔记与日记：\n";

pub const EVENTS_HEAD: &'static str = "事件记忆：\n";

pub const TURNS_HEAD: &'static str = "对话摘要：\n";

pub const OBSERVATIONS_HEAD: &'static str = "定性观察：\n";

pub const ITEM_DOT: &'static str = ". ";

pub const BRACKET_OPEN: &'static str = "[";

pub const BRACKET_CLOSE_SPACE: &'static str = "] ";

pub const ROLE_SYSTEM: &'static str = "system";

pub const ROLE_USER: &'static str = "user";

// ─── The week ─────────────────────────────────────────────────────────────

/// An ISO week and its days, Monday to Sunday.
#[derive(Debug, Clone, Copy, PartialEq, Eq, Structural)]
pub struct WeeklySummaryIdentity {
    pub year: i32,
    pub week: u32,
    pub start_date: Date,
    pub end_date: Date,
}

/// `YYYY-Www`, the week with two digits at least.
pub open spec fn week_key(year: i32, week: u32) -> Seq<char> {
    int_str(year as int) + WEEK_MARK@ + zero_pad(week as nat, 2)
}

pub open spec fn invalid_week_error(year: i32, week: u32) -> ErrorSpec {
    error_spec(INVALID_ISO_WEEK@, INVALID_WEEK_PREFIX@ + week_key(year, week))
}

/// The week `week` of ISO year `year`: from its Monday, as chrono finds it,
/// to the Sunday six days later. Chrono knows no week of the first and last
/// years that an `i32` holds (they lie outside the years it can represent).
pub open spec fn week_outcome(year: i32, week: u32) -> Result<WeeklySummaryIdentity, ErrorSpec> {
    if year == i32::MIN || year == i32::MAX {
        Err(invalid_week_error(year, week))
    } else {
        match spec_chrono_iso_week_monday(year, week) {
            None => Err(invalid_week_error(year, week)),
            Some(t) => Ok(
                WeeklySummaryIdentity {
                    year,
                    week,
                    start_date: as_date(t),
                    end_date: add_days(as_date(t), 6),
                },
            ),
        }
    }
}

/// `week-YYYY-Www`.
pub open spec fn week_title(year: i32, week: u32) -> Seq<char> {
    WEEK_TITLE_PREFIX@ + week_key(year, week)
}

pub open spec fn week_range_label(w: WeeklySummaryIdentity) -> Seq<char> {
    date_str(w.start_date) + RANGE_SEP@ + date_str(w.end_date)
}

fn week_key_text(year: i32, week: u32) -> (r: String)
    ensures
        r@ == week_key(year, week),
{
    let mut r = i64_to_string(year as i64);
    r.append(WEEK_MARK);
    r.append(u64_to_padded(week as u64, 2).as_str());
    r
}

impl WeeklySummaryIdentity {
    pub open spec fn wf(self) -> bool {
        &&& self.start_date.valid()
        &&& self.end_date.valid()
        &&& self.end_date == add_days(self.start_date, 6)
    }

    pub open spec fn spec_contains(self, d: Date) -> bool {
        self.start_date.le(d) && d.le(self.end_date)
    }

    /// ISO week `week` of ISO year `year`; an error when there is no such week.
    pub fn new(year: i32, week: u32) -> (r: Result<Self, AppError>)
        ensures
            match (r, week_outcome(year, week)) {
                (Ok(x), Ok(y)) => x == y && x.wf(),
                (Err(e), Err(s)) => e@ == s,
                _ => false,
            },
            (week == 0 || week > 53) ==> r is Err,
    {
        if year == i32::MIN || year == i32::MAX {
            let mut msg = to_owned(INVALID_WEEK_PREFIX);
            msg.append(week_key_text(year, week).as_str());
            return Err(AppError::new(INVALID_ISO_WEEK, msg));
        }
        match iso_week_monday_chrono(year, week) {
            None => {
                let mut msg = to_owned(INVALID_WEEK_PREFIX);
                msg.append(week_key_text(year, week).as_str());
                Err(AppError::new(INVALID_ISO_WEEK, msg))
            },
            Some(monday) => {
                let sunday = add_days_to(monday, 6);
                Ok(WeeklySummaryIdentity { year, week, start_date: monday, end_date: sunday })
            },
        }
    }

    /// The title of the week's note: `week-YYYY-Www`.
    pub fn note_title(&self) -> (r: String)
        ensures
            r@ == week_title(self.year, self.week),
    {
        let mut r = to_owned(WEEK_TITLE_PREFIX);
        r.append(week_key_text(self.year, self.week).as_str());
        r
    }

    /// The week's days as `start ~ end`.
    pub fn week_display_range(&self) -> (r: String)
        ensures
            r@ == week_range_label(*self),
    {
        let mut r = date_to_string(self.start_date);
        r.append(RANGE_SEP);
        r.append(date_to_string(self.end_date).as_str());
        r
    }

    /// Whether `date` is a day of the week.
    pub fn contains_date(&self, date: Date) -> (r: bool)
        ensures
            r == self.spec_contains(date),
    {
        date_le(self.start_date, date) && date_le(date, self.end_date)
    }
}

// ─── Sources ──────────────────────────────────────────────────────────────

/// A note that a weekly summary is written from.
#[derive(Debug, Clone, PartialEq, Eq)]
pub struct WeeklyNoteSource {
    pub title: String,
    pub content: String,
    pub category: String,
}

/// The records a weekly summary is written from, and how many there are.
#[derive(Debug, Clone, PartialEq, Eq)]
pub struct WeeklySummarySources {
    pub events: Vec<Event>,
    pub turns: Vec<ConversationTurn>,
    pub observations: Vec<Observation>,
    pub topics: Vec<String>,
    pub projects: Vec<String>,
    pub growth_lines: Vec<String>,
    pub notes: Vec<WeeklyNoteSource>,
    pub counts: WeeklySourceCounts,
}

impl Default for WeeklySummarySources {
    fn default() -> (r: WeeklySummarySources)
        ensures
            r.events@.len() == 0,
            r.turns@.len() == 0,
            r.observations@.len() == 0,
            r.topics@.len() == 0,
            r.projects@.len() == 0,
            r.growth_lines@.len() == 0,
            r.notes@.len() == 0,
            r.counts.spec_total() == 0,
    {
        WeeklySummarySources {
            events: Vec::new(),
            turns: Vec::new(),
            observations: Vec::new(),
            topics: Vec::new(),
            projects: Vec::new(),
            growth_lines: Vec::new(),
            notes: Vec::new(),
            counts: WeeklySourceCounts::default(),
        }
    }
}

/// How many of `notes` are diaries.
pub open spec fn diary_count(notes: Seq<WeeklyNoteSource>) -> nat
    decreases notes.len(),
{
    if notes.len() == 0 {
        0
    } else {
        diary_count(notes.drop_last()) + if notes.last().category@ == DIARY_NOTE_CATEGORY@ {
            1nat
        } else {
            0nat
        }
    }
}

proof fn lemma_diary_count_bound(notes: Seq<WeeklyNoteSource>)
    ensures
        diary_count(notes) <= notes.len(),
    decreases notes.len(),
{
    if notes.len() > 0 {
        lemma_diary_count_bound(notes.drop_last());
    }
}

/// `s` holds the given records and counts them: diaries among the notes, the
/// other notes, events, turns and observations.
pub open spec fn counted_sources(
    s: WeeklySummarySources,
    events: Seq<Event>,
    turns: Seq<ConversationTurn>,
    observations: Seq<Observation>,
    topics: Seq<String>,
    projects: Seq<String>,
    growth_lines: Seq<String>,
    notes: Seq<WeeklyNoteSource>,
) -> bool {
    &&& s.events@ == events
    &&& s.turns@ == turns
    &&& s.observations@ == observations
    &&& s.topics@ == topics
    &&& s.projects@ == projects
    &&& s.growth_lines@ == growth_lines
    &&& s.notes@ == notes
    &&& s.counts.diary_count == diary_count(notes)
    &&& s.counts.note_count == notes.len() - diary_count(notes)
    &&& s.counts.event_count == events.len()
    &&& s.counts.turn_count == turns.len()
    &&& s.counts.observation_count == observations.len()
}

/// Whether anything can be written about the week.
pub open spec fn has_weekly_material(s: WeeklySummarySources) -> bool {
    s.counts.spec_total() > 0 || s.topics@.len() > 0 || s.projects@.len() > 0 || s.growth_lines@.len()
        > 0
}

impl WeeklySummarySources {
    /// The sources made of these records, with their counts.
    pub fn from_parts(
        events: Vec<Event>,
        turns: Vec<ConversationTurn>,
        observations: Vec<Observation>,
        topics: Vec<String>,
        projects: Vec<String>,
        growth_lines: Vec<String>,
        notes: Vec<WeeklyNoteSource>,
    ) -> (r: Self)
        ensures
            counted_sources(
                r,
                events@,
                turns@,
                observations@,
                topics@,
                projects@,
                growth_lines@,
                notes@,
            ),
    {
        let mut diary: usize = 0;
        let mut i: usize = 0;
        while i < notes.len()
            invariant
                0 <= i <= notes.len(),
                diary == diary_count(notes@.take(i as int)),
                diary <= i,
            decreases notes.len() - i,
        {
            proof {
                assert(notes@.take(i + 1).drop_last() =~= notes@.take(i as int));
                assert(notes@.take(i + 1).last() == notes@[i as int]);
            }
            if str_eq(notes[i].category.as_str(), DIARY_NOTE_CATEGORY) {
                diary = diary + 1;
            }
            i = i + 1;
        }
        assert(notes@.take(i as int) =~= notes@);
        let counts = WeeklySourceCounts {
            diary_count: diary,
            event_count: events.len(),
            turn_count: turns.len(),
            note_count: notes.len() - diary,
            observation_count: observations.len(),
        };
        WeeklySummarySources {
            events,
            turns,
            observations,
            topics,
            projects,
            growth_lines,
            notes,
            counts,
        }
    }

    /// Whether the counts show a record, or there are topics, projects or
    /// growth lines.
    pub fn has_material(&self) -> (r: bool)
        ensures
            r == has_weekly_material(*self),
    {
        let c = &self.counts;
        c.diary_count > 0 || c.event_count > 0 || c.turn_count > 0 || c.note_count > 0
            || c.observation_count > 0 || self.topics.len() > 0 || self.projects.len() > 0
            || self.growth_lines.len() > 0
    }
}

/// A note that the summary of week `w` is written from: any note but a weekly
/// summary, whose day (see `note_day`) lies in the week.
pub open spec fn note_in_week(n: NoteRecord, w: WeeklySummaryIdentity) -> bool {
    &&& n.category@ != WEEKLY_SUMMARY_CATEGORY@
    &&& match note_day(n) {
        Some(d) => w.spec_contains(d),
        None => false,
    }
}

pub open spec fn week_note_pred(w: WeeklySummaryIdentity) -> spec_fn(NoteRecord) -> bool {
    |n: NoteRecord| note_in_week(n, w)
}

pub open spec fn is_week_source_of(src: WeeklyNoteSource, n: NoteRecord) -> bool {
    &&& src.title@ == n.title@
    &&& src.content@ == n.content@
    &&& src.category@ == n.category@
}

/// The notes, in store order, that the summary of `identity` is written from.
pub fn collect_notes_for_week(notes: &Vec<NoteRecord>, identity: &WeeklySummaryIdentity) -> (r: Vec<
    WeeklyNoteSource,
>)
    ensures
        r@.len() == notes@.filter(week_note_pred(*identity)).len(),
        forall|k: int|
            0 <= k < r@.len() ==> is_week_source_of(
                #[trigger] r@[k],
                notes@.filter(week_note_pred(*identity))[k],
            ),
{
    let ghost p = week_note_pred(*identity);
    let mut out: Vec<WeeklyNoteSource> = Vec::new();
    let mut i: usize = 0;
    assert(notes@.take(0).filter(p) =~= Seq::<NoteRecord>::empty()) by {
        reveal(Seq::filter);
    }
    while i < notes.len()
        invariant
            0 <= i <= notes.len(),
            p == week_note_pred(*identity),
            out@.len() == notes@.take(i as int).filter(p).len(),
            forall|k: int|
                0 <= k < out@.len() ==> is_week_source_of(
                    #[trigger] out@[k],
                    notes@.take(i as int).filter(p)[k],
                ),
        decreases notes.len() - i,
    {
        let n = &notes[i];
        proof {
            lemma_filter_take_step(notes@, p, i as int);
        }
        let in_week = !str_eq(n.category.as_str(), WEEKLY_SUMMARY_CATEGORY) && match note_date(n) {
            Some(d) => identity.contains_date(d),
            None => false,
        };
        if in_week {
            out.push(
                WeeklyNoteSource {
                    title: copy_string(&n.title),
                    content: copy_string(&n.content),
                    category: copy_string(&n.category),
                },
            );
        }
        i = i + 1;
    }
    assert(notes@.take(i as int) =~= notes@);
    out
}


pub open spec fn observation_in_week(o: Observation, w: WeeklySummaryIdentity) -> bool {
    match chrono_date(o.date@) {
        Some(d) => w.spec_contains(d),
        None => false,
    }
}

pub open spec fn week_observation_pred(w: WeeklySummaryIdentity) -> spec_fn(Observation) -> bool {
    |o: Observation| observation_in_week(o, w)
}

/// Keeps the observations dated in the week.
fn retain_week_observations(observations: &mut Vec<Observation>, identity: &WeeklySummaryIdentity)
    ensures
        final(observations)@ == old(observations)@.filter(week_observation_pred(*identity)),
{
    let ghost orig = observations@;
    let ghost p = week_observation_pred(*identity);
    let ghost mut j: int = 0;
    let mut i: usize = 0;
    assert(orig.take(0).filter(p) =~= Seq::<Observation>::empty()) by {
        reveal(Seq::filter);
    }
    assert(orig.take(0).filter(p) + orig.skip(0) =~= orig);
    while i < observations.len()
        invariant
            0 <= j <= orig.len(),
            p == week_observation_pred(*identity),
            observations@ == orig.take(j).filter(p) + orig.skip(j),
            i == orig.take(j).filter(p).len(),
        decreases observations.len() - i,
    {
        proof {
            if j == orig.len() {
                assert(orig.skip(j).len() == 0);
            }
            lemma_retain_step(orig, observations@, p, i as int, j);
        }
        let keep = match parse_date_chrono(observations[i].date.as_str()) {
            Some(d) => identity.contains_date(d),
            None => false,
        };
        if keep {
            i = i + 1;
        } else {
            observations.remove(i);
        }
        proof {
            j = j + 1;
        }
    }
    proof {
        lemma_retain_done(orig, observations@, p, j);
    }
}

/// The sources of the summary of `identity` from the week's events and turns
/// (as the database returned them), the observations (those dated in the
/// week are kept) and the stored notes (those of the week are taken).
pub fn gather_weekly_sources(
    events: Vec<Event>,
    turns: Vec<ConversationTurn>,
    observations: Vec<Observation>,
    notes: &Vec<NoteRecord>,
    identity: &WeeklySummaryIdentity,
) -> (r: WeeklySummarySources)
    ensures
        r.events@ == events@,
        r.turns@ == turns@,
        r.observations@ == observations@.filter(week_observation_pred(*identity)),
        r.topics@.len() == 0,
        r.projects@.len() == 0,
        r.growth_lines@.len() == 0,
        r.notes@.len() == notes@.filter(week_note_pred(*identity)).len(),
        forall|k: int|
            0 <= k < r.notes@.len() ==> is_week_source_of(
                #[trigger] r.notes@[k],
                notes@.filter(week_note_pred(*identity))[k],
            ),
        counted_sources(
            r,
            r.events@,
            r.turns@,
            r.observations@,
            r.topics@,
            r.projects@,
            r.growth_lines@,
            r.notes@,
        ),
{
    let mut observations = observations;
    retain_week_observations(&mut observations, identity);
    let week_notes = collect_notes_for_week(notes, identity);
    WeeklySummarySources::from_parts(
        events,
        turns,
        observations,
        Vec::new(),
        Vec::new(),
        Vec::new(),
        week_notes,
    )
}

// ─── A week without material ──────────────────────────────────────────────

pub open spec fn sparse_weekly_content(w: WeeklySummaryIdentity) -> Seq<char> {
    HEADING@ + week_title(w.year, w.week) + PART_SEP@ + SPARSE_BODY@
}

/// The short summary of a week with few records, unsaved.
pub fn build_sparse_weekly_summary(identity: &WeeklySummaryIdentity, sources: &WeeklySummarySources) -> (r:
    WeeklySummaryGenerateResult)
    ensures
        r.iso_year == identity.year,
        r.iso_week == identity.week,
        r.week_display_range@ == week_range_label(*identity),
        r.note_id@ == Seq::<char>::empty(),
        r.title@ == week_title(identity.year, identity.week),
        r.content@ == sparse_weekly_content(*identity),
        r.source_counts == sources.counts,
        !r.regenerated,
{
    let title = identity.note_title();
    let mut content = to_owned(HEADING);
    content.append(title.as_str());
    content.append(PART_SEP);
    content.append(SPARSE_BODY);
    WeeklySummaryGenerateResult {
        iso_year: identity.year,
        iso_week: identity.week,
        week_display_range: identity.week_display_range(),
        note_id: String::new(),
        title,
        content,
        source_counts: sources.counts,
        regenerated: false,
    }
}

// ─── The prompt ───────────────────────────────────────────────────────────

pub open spec fn weekly_counts_line(c: WeeklySourceCounts) -> Seq<char> {
    COUNT_DIARY@ + nat_str(c.diary_count as nat) + COUNT_EVENTS@ + nat_str(c.event_count as nat)
        + COUNT_TURNS@ + nat_str(c.turn_count as nat) + COUNT_NOTES@ + nat_str(c.note_count as nat)
        + COUNT_OBSERVATIONS@ + nat_str(c.observation_count as nat)
}

pub open spec fn weekly_note_text(i: int, n: WeeklyNoteSource) -> Seq<char> {
    nat_str((i + 1) as nat) + ITEM_DOT@ + BRACKET_OPEN@ + n.category@ + BRACKET_CLOSE_SPACE@ + n.title@
        + LINE_SEP@ + truncated(n.content@, 800)
}

/// The sections of the weekly prompt: instructions with the week, style,
/// grounding rules, counts, each non-empty kind of record, and the request.
pub open spec fn weekly_prompt_parts(w: WeeklySummaryIdentity, s: WeeklySummarySources) -> Seq<Seq<char>> {
    let p0 = seq![
        PROMPT_HEAD_A@ + week_key(w.year, w.week) + PROMPT_HEAD_B@ + week_range_label(w) + PROMPT_HEAD_C@,
        WEEKLY_STYLE@,
        WEEKLY_GROUNDING_RULES@,
        weekly_counts_line(s.counts),
    ];
    let notes = s.notes@;
    let p1 = if notes.len() > 0 {
        p0.push(NOTES_HEAD@ + join(Seq::new(notes.len(), |i: int| weekly_note_text(i, notes[i])), PART_SEP@))
    } else {
        p0
    };
    let es = s.events@;
    let p2 = if es.len() > 0 {
        p1.push(EVENTS_HEAD@ + join(numbered(Seq::new(es.len(), |i: int| event_text(es[i]))), LINE_SEP@))
    } else {
        p1
    };
    let ts = s.turns@;
    let p3 = if ts.len() > 0 {
        p2.push(TURNS_HEAD@ + join(numbered(Seq::new(ts.len(), |i: int| turn_text(ts[i]))), LINE_SEP@))
    } else {
        p2
    };
    let os = s.observations@;
    let p4 = if os.len() > 0 {
        p3.push(
            OBSERVATIONS_HEAD@ + join(
                numbered(Seq::new(os.len(), |i: int| observation_text(os[i]))),
                LINE_SEP@,
            ),
        )
    } else {
        p3
    };
    p4.push(PROMPT_FINAL@)
}

/// The prompt for a week's summary, empty when there is nothing to write from.
pub open spec fn weekly_prompt(w: WeeklySummaryIdentity, s: WeeklySummarySources) -> Seq<char> {
    if has_weekly_material(s) {
        join(weekly_prompt_parts(w, s), PART_SEP@)
    } else {
        Seq::empty()
    }
}

/// A week's prompt is empty exactly when the week has no material;
/// otherwise it opens with the request that names the week and its days,
/// holds the grounding rules, and ends with the final request.
#[verifier::spinoff_prover]
#[verifier::rlimit(30)]
pub proof fn lemma_weekly_prompt_shape(w: WeeklySummaryIdentity, s: WeeklySummarySources)
    ensures
        weekly_prompt(w, s).len() == 0 <==> !has_weekly_material(s),
        has_weekly_material(s) ==> {
            &&& starts_with(
                weekly_prompt(w, s),
                PROMPT_HEAD_A@ + week_key(w.year, w.week) + PROMPT_HEAD_B@ + week_range_label(w)
                    + PROMPT_HEAD_C@,
            )
            &&& contains_seq(weekly_prompt(w, s), WEEKLY_GROUNDING_RULES@)
            &&& ends_with(weekly_prompt(w, s), PROMPT_FINAL@)
        },
{
    if has_weekly_material(s) {
        let parts = weekly_prompt_parts(w, s);
        reveal_strlit("你是一个克制、准确、自然的成长日记整理助手。请根据以下记录，为 ISO 周 ");
        assert(parts[2] == WEEKLY_GROUNDING_RULES@);
        assert(parts.last() == PROMPT_FINAL@);
        lemma_join_ends(parts, PART_SEP@);
        lemma_join_contains(parts, PART_SEP@, 2);
        assert(PROMPT_HEAD_A@.len() > 0);
    }
}

/// A week with material shows every record it was gathered from: each note
/// under the notes heading as `n. [category] title`, a line break and its
/// content (800 characters at most), each event as `n. content (time)`, each
/// conversation as `n. summary (time)`, and each observation as
/// `n. [date] content`, each kind under its heading.
#[verifier::spinoff_prover]
#[verifier::rlimit(40)]
pub proof fn lemma_weekly_prompt_shows_every_record(w: WeeklySummaryIdentity, s: WeeklySummarySources)
    requires
        has_weekly_material(s),
    ensures
        s.notes@.len() > 0 ==> contains_seq(weekly_prompt(w, s), NOTES_HEAD@),
        forall|k: int|
            0 <= k < s.notes@.len() ==> contains_seq(
                weekly_prompt(w, s),
                nat_str((k + 1) as nat) + ITEM_DOT@ + BRACKET_OPEN@ + (#[trigger] s.notes@[k]).category@
                    + BRACKET_CLOSE_SPACE@ + s.notes@[k].title@ + LINE_SEP@ + truncated(
                    s.notes@[k].content@,
                    800,
                ),
            ),
        s.events@.len() > 0 ==> contains_seq(weekly_prompt(w, s), EVENTS_HEAD@),
        forall|k: int|
            0 <= k < s.events@.len() ==> contains_seq(
                weekly_prompt(w, s),
                nat_str((k + 1) as nat) + ITEM_DOT@ + (#[trigger] s.events@[k]).content@
                    + crate::life_chapter::PAREN_OPEN@ + s.events@[k].created_at@
                    + crate::life_chapter::PAREN_CLOSE@,
            ),
        s.turns@.len() > 0 ==> contains_seq(weekly_prompt(w, s), TURNS_HEAD@),
        forall|k: int|
            0 <= k < s.turns@.len() ==> contains_seq(
                weekly_prompt(w, s),
                nat_str((k + 1) as nat) + ITEM_DOT@ + (#[trigger] s.turns@[k]).summary@
                    + crate::life_chapter::PAREN_OPEN@ + s.turns@[k].created_at@
                    + crate::life_chapter::PAREN_CLOSE@,
            ),
        s.observations@.len() > 0 ==> contains_seq(weekly_prompt(w, s), OBSERVATIONS_HEAD@),
        forall|k: int|
            0 <= k < s.observations@.len() ==> contains_seq(
                weekly_prompt(w, s),
                nat_str((k + 1) as nat) + ITEM_DOT@ + BRACKET_OPEN@ + (#[trigger] s.observations@[k]).date@
                    + BRACKET_CLOSE_SPACE@ + s.observations@[k].content@,
            ),
{
    reveal_strlit(". ");
    reveal_strlit("[");
    reveal_strlit("] ");
    assert(ITEM_DOT@ == crate::life_chapter::ITEM_DOT@);
    assert(BRACKET_OPEN@ == crate::life_chapter::BRACKET_OPEN@);
    assert(BRACKET_CLOSE_SPACE@ == crate::life_chapter::BRACKET_CLOSE_SPACE@);
    let parts = weekly_prompt_parts(w, s);
    let notes = s.notes@;
    let es = s.events@;
    let ts = s.turns@;
    let os = s.observations@;
    let jn: int = 4;
    let je: int = 4 + if notes.len() > 0 { 1int } else { 0int };
    let jt: int = je + if es.len() > 0 { 1int } else { 0int };
    let jo: int = jt + if ts.len() > 0 { 1int } else { 0int };
    if notes.len() > 0 {
        let items = Seq::new(notes.len(), |i: int| weekly_note_text(i, notes[i]));
        assert(parts[jn] == NOTES_HEAD@ + join(items, PART_SEP@));
        lemma_section_contains(parts, PART_SEP@, jn, NOTES_HEAD@, items, PART_SEP@);
        assert forall|k: int| 0 <= k < notes.len() implies contains_seq(
            weekly_prompt(w, s),
            nat_str((k + 1) as nat) + ITEM_DOT@ + BRACKET_OPEN@ + (#[trigger] s.notes@[k]).category@
                + BRACKET_CLOSE_SPACE@ + s.notes@[k].title@ + LINE_SEP@ + truncated(s.notes@[k].content@, 800),
        ) by {
            assert(items[k] == weekly_note_text(k, notes[k]));
        }
    }
    if es.len() > 0 {
        let items = numbered(Seq::new(es.len(), |i: int| event_text(es[i])));
        assert(parts[je] == EVENTS_HEAD@ + join(items, LINE_SEP@));
        lemma_section_contains(parts, PART_SEP@, je, EVENTS_HEAD@, items, LINE_SEP@);
        assert forall|k: int| 0 <= k < es.len() implies contains_seq(
            weekly_prompt(w, s),
            nat_str((k + 1) as nat) + ITEM_DOT@ + (#[trigger] s.events@[k]).content@
                + crate::life_chapter::PAREN_OPEN@ + s.events@[k].created_at@ + crate::life_chapter::PAREN_CLOSE@,
        ) by {
            assert(items[k] =~= nat_str((k + 1) as nat) + ITEM_DOT@ + (s.events@[k].content@
                + crate::life_chapter::PAREN_OPEN@ + s.events@[k].created_at@
                + crate::life_chapter::PAREN_CLOSE@));
            assert(items[k] =~= nat_str((k + 1) as nat) + ITEM_DOT@ + s.events@[k].content@
                + crate::life_chapter::PAREN_OPEN@ + s.events@[k].created_at@
                + crate::life_chapter::PAREN_CLOSE@);
        }
    }
    if ts.len() > 0 {
        let items = numbered(Seq::new(ts.len(), |i: int| turn_text(ts[i])));
        assert(parts[jt] == TURNS_HEAD@ + join(items, LINE_SEP@));
        lemma_section_contains(parts, PART_SEP@, jt, TURNS_HEAD@, items, LINE_SEP@);
        assert forall|k: int| 0 <= k < ts.len() implies contains_seq(
            weekly_prompt(w, s),
            nat_str((k + 1) as nat) + ITEM_DOT@ + (#[trigger] s.turns@[k]).summary@
                + crate::life_chapter::PAREN_OPEN@ + s.turns@[k].created_at@ + crate::life_chapter::PAREN_CLOSE@,
        ) by {
            assert(items[k] =~= nat_str((k + 1) as nat) + ITEM_DOT@ + s.turns@[k].summary@
                + crate::life_chapter::PAREN_OPEN@ + s.turns@[k].created_at@
                + crate::life_chapter::PAREN_CLOSE@);
        }
    }
    if os.len() > 0 {
        let items = numbered(Seq::new(os.len(), |i: int| observation_text(os[i])));
        assert(parts[jo] == OBSERVATIONS_HEAD@ + join(items, LINE_SEP@));
        lemma_section_contains(parts, PART_SEP@, jo, OBSERVATIONS_HEAD@, items, LINE_SEP@);
        assert forall|k: int| 0 <= k < os.len() implies contains_seq(
            weekly_prompt(w, s),
            nat_str((k + 1) as nat) + ITEM_DOT@ + BRACKET_OPEN@ + (#[trigger] s.observations@[k]).date@
                + BRACKET_CLOSE_SPACE@ + s.observations@[k].content@,
        ) by {
            assert(items[k] =~= nat_str((k + 1) as nat) + ITEM_DOT@ + BRACKET_OPEN@ + s.observations@[k].date@
                + BRACKET_CLOSE_SPACE@ + s.observations@[k].content@);
        }
    }
}

fn weekly_counts_text(c: &WeeklySourceCounts) -> (r: String)
    ensures
        r@ == weekly_counts_line(*c),
{
    let mut r = to_owned(COUNT_DIARY);
    r.append(u64_to_string(c.diary_count as u64).as_str());
    r.append(COUNT_EVENTS);
    r.append(u64_to_string(c.event_count as u64).as_str());
    r.append(COUNT_TURNS);
    r.append(u64_to_string(c.turn_count as u64).as_str());
    r.append(COUNT_NOTES);
    r.append(u64_to_string(c.note_count as u64).as_str());
    r.append(COUNT_OBSERVATIONS);
    r.append(u64_to_string(c.observation_count as u64).as_str());
    r
}

fn weekly_notes_text(notes: &Vec<WeeklyNoteSource>) -> (r: String)
    ensures
        r@ == join(Seq::new(notes@.len(), |i: int| weekly_note_text(i, notes@[i])), PART_SEP@),
{
    let mut items: Vec<String> = Vec::new();
    let mut i: usize = 0;
    while i < notes.len()
        invariant
            0 <= i <= notes.len(),
            views(items@) =~= Seq::new(i as nat, |k: int| weekly_note_text(k, notes@[k])),
        decreases notes.len() - i,
    {
        let n = &notes[i];
        let mut item = u64_to_string((i as u64) + 1);
        item.append(ITEM_DOT);
        item.append(BRACKET_OPEN);
        item.append(n.category.as_str());
        item.append(BRACKET_CLOSE_SPACE);
        item.append(n.title.as_str());
        item.append(LINE_SEP);
        item.append(truncate_chars(n.content.as_str(), 800).as_str());
        let ghost before = items@;
        items.push(item);
        proof {
            crate::text::lemma_views_push(before, item);
        }
        i = i + 1;
    }
    join_strings(&items, PART_SEP)
}

fn push_part(parts: &mut Vec<String>, part: String)
    ensures
        views(final(parts)@) == views(old(parts)@).push(part@),
{
    let ghost before = parts@;
    parts.push(part);
    proof {
        crate::text::lemma_views_push(before, part);
    }
}

/// The prompt that asks for the summary of `identity` from `sources`; empty
/// when there is nothing to write from.
#[verifier::spinoff_prover]
#[verifier::rlimit(40)]
pub fn build_weekly_summary_prompt(identity: &WeeklySummaryIdentity, sources: &WeeklySummarySources) -> (r:
    String)
    ensures
        r@ == weekly_prompt(*identity, *sources),
{
    if !sources.has_material() {
        return String::new();
    }
    let mut parts: Vec<String> = Vec::new();
    let mut head = to_owned(PROMPT_HEAD_A);
    head.append(week_key_text(identity.year, identity.week).as_str());
    head.append(PROMPT_HEAD_B);
    head.append(identity.week_display_range().as_str());
    head.append(PROMPT_HEAD_C);
    push_part(&mut parts, head);
    push_part(&mut parts, to_owned(WEEKLY_STYLE));
    push_part(&mut parts, to_owned(WEEKLY_GROUNDING_RULES));
    push_part(&mut parts, weekly_counts_text(&sources.counts));
    if sources.notes.len() > 0 {
        let mut sec = to_owned(NOTES_HEAD);
        sec.append(weekly_notes_text(&sources.notes).as_str());
        push_part(&mut parts, sec);
    }
    if sources.events.len() > 0 {
        push_part(&mut parts, numbered_block(EVENTS_HEAD, &event_items(&sources.events)));
    }
    if sources.turns.len() > 0 {
        push_part(&mut parts, numbered_block(TURNS_HEAD, &turn_items(&sources.turns)));
    }
    if sources.observations.len() > 0 {
        push_part(
            &mut parts,
            numbered_block(OBSERVATIONS_HEAD, &observation_items(&sources.observations)),
        );
    }
    push_part(&mut parts, to_owned(PROMPT_FINAL));
    assert(views(parts@) =~= weekly_prompt_parts(*identity, *sources));
    join_strings(&parts, PART_SEP)
}

/// The messages that ask the model for a weekly summary.
pub fn weekly_summary_messages(prompt: String) -> (r: Vec<ChatMessage>)
    ensures
        r.len() == 2,
        r@[0].role@ == ROLE_SYSTEM@,
        r@[0].content@ == WEEKLY_GROUNDING_RULES@,
        r@[1].role@ == ROLE_USER@,
        r@[1].content@ == prompt@,
{
    let mut r: Vec<ChatMessage> = Vec::new();
    r.push(ChatMessage { role: to_owned(ROLE_SYSTEM), content: to_owned(WEEKLY_GROUNDING_RULES) });
    r.push(ChatMessage { role: to_owned(ROLE_USER), content: prompt });
    r
}

/// The summary text from the model's output: trimmed, and headed by the
/// week's title when it has no heading of its own.
pub open spec fn finalized_weekly(w: WeeklySummaryIdentity, output: Seq<char>) -> Seq<char> {
    let t = trim(output);
    if starts_with(t, HEADING@) {
        t
    } else {
        HEADING@ + week_title(w.year, w.week) + PART_SEP@ + t
    }
}

pub fn finalize_weekly_markdown(identity: &WeeklySummaryIdentity, output: &str) -> (r: String)
    ensures
        r@ == finalized_weekly(*identity, output@),
{
    let t = trim_str(output);
    if str_starts_with(t, HEADING) {
        to_owned(t)
    } else {
        let mut r = to_owned(HEADING);
        r.append(identity.note_title().as_str());
        r.append(PART_SEP);
        r.append(t);
        r
    }
}

// ─── Saving ───────────────────────────────────────────────────────────────

pub open spec fn is_weekly_note(n: NoteRecord) -> bool {
    n.category@ == WEEKLY_SUMMARY_CATEGORY@
}

/// The first weekly summary note titled `title`, in store order.
pub open spec fn first_week_note(notes: Seq<NoteRecord>, title: Seq<char>) -> Option<NoteRecord>
    decreases notes.len(),
{
    if notes.len() == 0 {
        None
    } else if is_weekly_note(notes[0]) && notes[0].title@ == title {
        Some(notes[0])
    } else {
        first_week_note(notes.drop_first(), title)
    }
}

/// How a week's summary is saved: written over the week's note when there is
/// one, created otherwise.
#[derive(Debug, Clone, PartialEq, Eq)]
pub struct WeeklySavePlan {
    pub existing_note_id: Option<String>,
    pub request: SaveNoteRequest,
}

fn find_week_note_id(notes: &Vec<NoteRecord>, title: &str) -> (r: Option<String>)
    ensures
        match (r, first_week_note(notes@, title@)) {
            (Some(id), Some(n)) => id@ == n.id@,
            (None, None) => true,
            _ => false,
        },
{
    let mut i: usize = 0;
    assert(notes@.skip(0) =~= notes@);
    while i < notes.len()
        invariant
            0 <= i <= notes.len(),
            first_week_note(notes@, title@) == first_week_note(notes@.skip(i as int), title@),
        decreases notes.len() - i,
    {
        let n = &notes[i];
        proof {
            assert(notes@.skip(i as int)[0] == notes@[i as int]);
            assert(notes@.skip(i as int).drop_first() =~= notes@.skip(i + 1));
        }
        if str_eq(n.category.as_str(), WEEKLY_SUMMARY_CATEGORY) && str_eq(n.title.as_str(), title) {
            return Some(copy_string(&n.id));
        }
        i = i + 1;
    }
    None
}

/// How to save `content` as the summary of `identity`, given the stored notes.
pub fn weekly_summary_save_plan(notes: &Vec<NoteRecord>, identity: &WeeklySummaryIdentity, content: &str) -> (r:
    WeeklySavePlan)
    ensures
        r.request.title@ == week_title(identity.year, identity.week),
        r.request.content@ == content@,
        r.request.category@ == WEEKLY_SUMMARY_CATEGORY@,
        match (r.existing_note_id, first_week_note(notes@, week_title(identity.year, identity.week))) {
            (Some(id), Some(n)) => id@ == n.id@,
            (None, None) => true,
            _ => false,
        },
{
    let title = identity.note_title();
    let existing = find_week_note_id(notes, title.as_str());
    WeeklySavePlan {
        existing_note_id: existing,
        request: SaveNoteRequest {
            title,
            content: to_owned(content),
            category: to_owned(WEEKLY_SUMMARY_CATEGORY),
        },
    }
}

/// The saved summary of `identity`, from the note as the store saved it.
pub fn saved_weekly_summary_result(
    identity: &WeeklySummaryIdentity,
    saved: &NoteRecord,
    source_counts: WeeklySourceCounts,
    regenerated: bool,
) -> (r: WeeklySummaryGenerateResult)
    ensures
        r.iso_year == identity.year,
        r.iso_week == identity.week,
        r.week_display_range@ == week_range_label(*identity),
        r.note_id@ == saved.id@,
        r.title@ == week_title(identity.year, identity.week),
        r.content@ == saved.content@,
        r.source_counts == source_counts,
        r.regenerated == regenerated,
{
    WeeklySummaryGenerateResult {
        iso_year: identity.year,
        iso_week: identity.week,
        week_display_range: identity.week_display_range(),
        note_id: copy_string(&saved.id),
        title: identity.note_title(),
        content: copy_string(&saved.content),
        source_counts,
        regenerated,
    }
}


// ─── Listing ──────────────────────────────────────────────────────────────

/// The ISO year and week that a title `week-YYYY-Www` names.
pub open spec fn parse_week_title_spec(title: Seq<char>) -> Option<(i32, u32)> {
    if !starts_with(title, WEEK_TITLE_PREFIX@) {
        None
    } else {
        match split_once(title.skip(WEEK_TITLE_PREFIX@.len() as int), WEEK_MARK@) {
            None => None,
            Some((y, w)) => match (parse_i32_spec(y), parse_u32_spec(w)) {
                (Some(a), Some(b)) => Some((a, b)),
                _ => None,
            },
        }
    }
}

/// Reads the ISO year and week from a weekly note's title.
pub fn parse_week_title(title: &str) -> (r: Option<(i32, u32)>)
    ensures
        r == parse_week_title_spec(title@),
{
    if !str_starts_with(title, WEEK_TITLE_PREFIX) {
        return None;
    }
    let rest = skip_chars(title, WEEK_TITLE_PREFIX.unicode_len());
    match split_once_str(rest, WEEK_MARK) {
        None => None,
        Some((y, w)) => match (parse_i32(y), parse_u32(w)) {
            (Some(a), Some(b)) => Some((a, b)),
            _ => None,
        },
    }
}

/// A weekly note whose title names a week.
pub open spec fn listable_week_note(n: NoteRecord) -> bool {
    is_weekly_note(n) && parse_week_title_spec(n.title@) is Some
}

pub open spec fn listable_pred() -> spec_fn(NoteRecord) -> bool {
    |n: NoteRecord| listable_week_note(n)
}

/// The week a listable note names.
pub open spec fn note_week(n: NoteRecord) -> (i32, u32) {
    match parse_week_title_spec(n.title@) {
        Some(k) => k,
        None => (0, 0),
    }
}

/// Whether week `a` comes before week `b`.
pub open spec fn week_before(a: (i32, u32), b: (i32, u32)) -> bool {
    a.0 < b.0 || (a.0 == b.0 && a.1 < b.1)
}

/// `s` with `x` placed before the first note of an earlier week than `x`'s.
pub open spec fn insert_by_week(s: Seq<NoteRecord>, x: NoteRecord) -> Seq<NoteRecord>
    decreases s.len(),
{
    if s.len() == 0 {
        seq![x]
    } else if week_before(note_week(s[0]), note_week(x)) {
        seq![x] + s
    } else {
        seq![s[0]] + insert_by_week(s.drop_first(), x)
    }
}

/// `s` ordered by week, latest first, notes of the same week in their order
/// in `s` (a stable sort).
pub open spec fn latest_week_first(s: Seq<NoteRecord>) -> Seq<NoteRecord>
    decreases s.len(),
{
    if s.len() == 0 {
        s
    } else {
        insert_by_week(latest_week_first(s.drop_last()), s.last())
    }
}

/// The listable weekly notes, latest week first.
pub open spec fn listed_weeks(notes: Seq<NoteRecord>) -> Seq<NoteRecord> {
    latest_week_first(notes.filter(listable_pred()))
}

/// The error of the first of `s` (in order) whose title names no ISO week.
pub open spec fn first_week_error(s: Seq<NoteRecord>) -> Option<ErrorSpec>
    decreases s.len(),
{
    if s.len() == 0 {
        None
    } else {
        match first_week_error(s.drop_last()) {
            Some(e) => Some(e),
            None => match week_outcome(note_week(s.last()).0, note_week(s.last()).1) {
                Err(e) => Some(e),
                Ok(_) => None,
            },
        }
    }
}

/// `e` is the listed entry of weekly note `n`.
pub open spec fn is_week_entry(e: WeeklySummaryEntry, n: NoteRecord) -> bool {
    let (y, w) = note_week(n);
    &&& e.iso_year == y
    &&& e.iso_week == w
    &&& match week_outcome(y, w) {
        Ok(id) => e.week_display_range@ == week_range_label(id),
        Err(_) => false,
    }
    &&& e.note_id@ == n.id@
    &&& e.title@ == n.title@
    &&& e.content@ == n.content@
    &&& e.source_counts.spec_total() == 0
    &&& e.created_at@ == n.created_at@
    &&& e.updated_at@ == n.updated_at@
}

pub open spec fn weeks_descending(s: Seq<NoteRecord>) -> bool {
    forall|i: int, j: int|
        0 <= i < j < s.len() ==> !week_before(#[trigger] note_week(s[i]), #[trigger] note_week(s[j]))
}

proof fn lemma_first_week_error_prefix(a: Seq<NoteRecord>, b: Seq<NoteRecord>)
    requires
        first_week_error(a) is Some,
    ensures
        first_week_error(a + b) == first_week_error(a),
    decreases b.len(),
{
    if b.len() == 0 {
        assert(a + b =~= a);
    } else {
        lemma_first_week_error_prefix(a, b.drop_last());
        assert((a + b).drop_last() =~= a + b.drop_last());
    }
}

proof fn lemma_insert_by_week_at(s: Seq<NoteRecord>, x: NoteRecord, p: int)
    requires
        0 <= p <= s.len(),
        forall|k: int| 0 <= k < p ==> !week_before(#[trigger] note_week(s[k]), note_week(x)),
        p < s.len() ==> week_before(note_week(s[p]), note_week(x)),
    ensures
        insert_by_week(s, x) == s.take(p).push(x) + s.skip(p),
    decreases p,
{
    if p == 0 {
        if s.len() == 0 {
            assert(s.take(0).push(x) + s.skip(0) =~= seq![x]);
        } else {
            assert(s.take(0).push(x) + s.skip(0) =~= seq![x] + s);
        }
    } else {
        let t = s.drop_first();
        assert forall|k: int| 0 <= k < p - 1 implies !week_before(#[trigger] note_week(t[k]), note_week(x)) by {
            assert(t[k] == s[k + 1]);
        }
        if p < s.len() {
            assert(t[p - 1] == s[p]);
        }
        lemma_insert_by_week_at(t, x, p - 1);
        assert(!week_before(note_week(s[0]), note_week(x)));
        assert(seq![s[0]] + (t.take(p - 1).push(x) + t.skip(p - 1)) =~= s.take(p).push(x) + s.skip(p));
    }
}

proof fn lemma_insert_by_week_bound(s: Seq<NoteRecord>, x: NoteRecord, b: (i32, u32))
    requires
        forall|j: int| 0 <= j < s.len() ==> !week_before(b, #[trigger] note_week(s[j])),
        !week_before(b, note_week(x)),
    ensures
        forall|j: int|
            0 <= j < insert_by_week(s, x).len() ==> !week_before(b, #[trigger] note_week(insert_by_week(s, x)[j])),
        insert_by_week(s, x).len() == s.len() + 1,
    decreases s.len(),
{
    if s.len() > 0 && !week_before(note_week(s[0]), note_week(x)) {
        let t = s.drop_first();
        assert forall|j: int| 0 <= j < t.len() implies !week_before(b, #[trigger] note_week(t[j])) by {
            assert(t[j] == s[j + 1]);
        }
        lemma_insert_by_week_bound(t, x, b);
        let r = insert_by_week(s, x);
        assert forall|j: int| 0 <= j < r.len() implies !week_before(b, #[trigger] note_week(r[j])) by {
            if j > 0 {
                assert(r[j] == insert_by_week(t, x)[j - 1]);
            }
        }
    } else if s.len() > 0 {
        let r = insert_by_week(s, x);
        assert forall|j: int| 0 <= j < r.len() implies !week_before(b, #[trigger] note_week(r[j])) by {
            if j > 0 {
                assert(r[j] == s[j - 1]);
            }
        }
    }
}

proof fn lemma_insert_by_week_sorted(s: Seq<NoteRecord>, x: NoteRecord)
    requires
        weeks_descending(s),
    ensures
        weeks_descending(insert_by_week(s, x)),
        insert_by_week(s, x).len() == s.len() + 1,
    decreases s.len(),
{
    if s.len() == 0 {
    } else if week_before(note_week(s[0]), note_week(x)) {
        let r = insert_by_week(s, x);
        assert forall|i: int, j: int| 0 <= i < j < r.len() implies !week_before(
            #[trigger] note_week(r[i]),
            #[trigger] note_week(r[j]),
        ) by {
            if i == 0 {
                assert(r[j] == s[j - 1]);
                if j - 1 > 0 {
                    assert(!week_before(note_week(s[0]), note_week(s[j - 1])));
                }
            } else {
                assert(r[i] == s[i - 1]);
                assert(r[j] == s[j - 1]);
            }
        }
    } else {
        let t = s.drop_first();
        assert forall|i: int, j: int| 0 <= i < j < t.len() implies !week_before(
            #[trigger] note_week(t[i]),
            #[trigger] note_week(t[j]),
        ) by {
            assert(t[i] == s[i + 1]);
            assert(t[j] == s[j + 1]);
        }
        lemma_insert_by_week_sorted(t, x);
        assert forall|j: int| 0 <= j < t.len() implies !week_before(note_week(s[0]), #[trigger] note_week(t[j])) by {
            assert(t[j] == s[j + 1]);
        }
        lemma_insert_by_week_bound(t, x, note_week(s[0]));
        let r = insert_by_week(s, x);
        let q = insert_by_week(t, x);
        assert forall|i: int, j: int| 0 <= i < j < r.len() implies !week_before(
            #[trigger] note_week(r[i]),
            #[trigger] note_week(r[j]),
        ) by {
            assert(r[j] == q[j - 1]);
            if i > 0 {
                assert(r[i] == q[i - 1]);
            }
        }
    }
}

proof fn lemma_latest_week_first_sorted(s: Seq<NoteRecord>)
    ensures
        weeks_descending(latest_week_first(s)),
        latest_week_first(s).len() == s.len(),
    decreases s.len(),
{
    if s.len() > 0 {
        lemma_latest_week_first_sorted(s.drop_last());
        lemma_insert_by_week_sorted(latest_week_first(s.drop_last()), s.last());
    }
}

/// Listed weekly summaries come latest week first.
pub proof fn lemma_listed_weeks_descending(notes: Seq<NoteRecord>)
    ensures
        weeks_descending(listed_weeks(notes)),
{
    lemma_latest_week_first_sorted(notes.filter(listable_pred()));
}

fn week_entry(note: &NoteRecord, year: i32, week: u32, identity: &WeeklySummaryIdentity) -> (r:
    WeeklySummaryEntry)
    ensures
        r.iso_year == year,
        r.iso_week == week,
        r.week_display_range@ == week_range_label(*identity),
        r.note_id@ == note.id@,
        r.title@ == note.title@,
        r.content@ == note.content@,
        r.source_counts.spec_total() == 0,
        r.created_at@ == note.created_at@,
        r.updated_at@ == note.updated_at@,
{
    WeeklySummaryEntry {
        iso_year: year,
        iso_week: week,
        week_display_range: identity.week_display_range(),
        note_id: copy_string(&note.id),
        title: copy_string(&note.title),
        content: copy_string(&note.content),
        source_counts: WeeklySourceCounts::default(),
        created_at: copy_string(&note.created_at),
        updated_at: copy_string(&note.updated_at),
    }
}

/// The stored weekly summaries whose titles name a week, latest week first;
/// an error when such a title names no ISO week (the first, in store order).
pub fn list_weekly_summaries(notes: &Vec<NoteRecord>) -> (r: Result<Vec<WeeklySummaryEntry>, AppError>)
    ensures
        match r {
            Err(e) => first_week_error(notes@.filter(listable_pred())) == Some(e@),
            Ok(v) => {
                &&& first_week_error(notes@.filter(listable_pred())) is None
                &&& v@.len() == listed_weeks(notes@).len()
                &&& forall|k: int| 0 <= k < v@.len() ==> is_week_entry(#[trigger] v@[k], listed_weeks(notes@)[k])
                &&& forall|i: int, j: int|
                    0 <= i < j < v@.len() ==> !week_before(
                        (v@[i].iso_year, v@[i].iso_week),
                        (v@[j].iso_year, v@[j].iso_week),
                    )
            },
        },
{
    let ghost p = listable_pred();
    let mut out: Vec<WeeklySummaryEntry> = Vec::new();
    let ghost mut sorted: Seq<NoteRecord> = Seq::empty();
    let mut i: usize = 0;
    assert(notes@.take(0).filter(p) =~= Seq::<NoteRecord>::empty()) by {
        reveal(Seq::filter);
    }
    while i < notes.len()
        invariant
            0 <= i <= notes.len(),
            p == listable_pred(),
            first_week_error(notes@.take(i as int).filter(p)) is None,
            sorted == latest_week_first(notes@.take(i as int).filter(p)),
            out@.len() == sorted.len(),
            forall|k: int| 0 <= k < out@.len() ==> is_week_entry(#[trigger] out@[k], sorted[k]),
        decreases notes.len() - i,
    {
        let n = &notes[i];
        proof {
            lemma_filter_take_step(notes@, p, i as int);
        }
        if str_eq(n.category.as_str(), WEEKLY_SUMMARY_CATEGORY) {
            match parse_week_title(n.title.as_str()) {
                None => {},
                Some((year, week)) => {
                    let ghost pre = notes@.take(i + 1).filter(p);
                    proof {
                        assert(pre.last() == *n);
                        assert(pre.drop_last() == notes@.take(i as int).filter(p));
                    }
                    let identity = match WeeklySummaryIdentity::new(year, week) {
                        Ok(id) => id,
                        Err(e) => {
                            proof {
                                assert(notes@ =~= notes@.take(i + 1) + notes@.skip(i + 1));
                                Seq::filter_distributes_over_add(
                                    notes@.take(i + 1),
                                    notes@.skip(i + 1),
                                    p,
                                );
                                lemma_first_week_error_prefix(pre, notes@.skip(i + 1).filter(p));
                            }
                            return Err(e);
                        },
                    };
                    let e = week_entry(n, year, week, &identity);
                    let mut pos: usize = 0;
                    while pos < out.len() && !(out[pos].iso_year < year || (out[pos].iso_year == year
                        && out[pos].iso_week < week))
                        invariant
                            0 <= pos <= out@.len(),
                            out@.len() == sorted.len(),
                            note_week(*n) == (year, week),
                            forall|k: int| 0 <= k < out@.len() ==> is_week_entry(#[trigger] out@[k], sorted[k]),
                            forall|k: int| 0 <= k < pos ==> !week_before(#[trigger] note_week(sorted[k]), (year, week)),
                        decreases out@.len() - pos,
                    {
                        proof {
                            assert(is_week_entry(out@[pos as int], sorted[pos as int]));
                        }
                        pos = pos + 1;
                    }
                    proof {
                        if pos < out@.len() {
                            assert(is_week_entry(out@[pos as int], sorted[pos as int]));
                        }
                        lemma_insert_by_week_at(sorted, *n, pos as int);
                    }
                    let ghost old_out = out@;
                    out.insert(pos, e);
                    proof {
                        let new_sorted = sorted.take(pos as int).push(*n) + sorted.skip(pos as int);
                        assert forall|k: int| 0 <= k < out@.len() implies is_week_entry(#[trigger] out@[k], new_sorted[k]) by {
                            if k < pos {
                                assert(out@[k] == old_out[k]);
                            } else if k > pos {
                                assert(out@[k] == old_out[k - 1]);
                            }
                        }
                        sorted = new_sorted;
                    }
                },
            }
        }
        i = i + 1;
    }
    proof {
        assert(notes@.take(i as int) =~= notes@);
        lemma_listed_weeks_descending(notes@);
        assert forall|i: int, j: int| 0 <= i < j < out@.len() implies !week_before(
            (out@[i].iso_year, out@[i].iso_week),
            (out@[j].iso_year, out@[j].iso_week),
        ) by {
            assert(is_week_entry(out@[i], sorted[i]));
            assert(is_week_entry(out@[j], sorted[j]));
        }
    }
    Ok(out)
}

/// Saving a week's summary where none is stored creates a note that the next
/// save for the same week writes over.
pub proof fn lemma_regeneration_targets_created_note(
    notes: Seq<NoteRecord>,
    identity: WeeklySummaryIdentity,
    created: NoteRecord,
)
    requires
        first_week_note(notes, week_title(identity.year, identity.week)) is None,
        created.title@ == week_title(identity.year, identity.week),
        created.category@ == WEEKLY_SUMMARY_CATEGORY@,
    ensures
        first_week_note(notes.push(created), week_title(identity.year, identity.week)) == Some(created),
    decreases notes.len(),
{
    if notes.len() > 0 {
        lemma_regeneration_targets_created_note(notes.drop_first(), identity, created);
        assert(notes.push(created).drop_first() =~= notes.drop_first().push(created));
    }
}

/// Writing over a week's note keeps it the note that the week's saves target.
pub proof fn lemma_regeneration_targets_updated_note(
    notes: Seq<NoteRecord>,
    identity: WeeklySummaryIdentity,
    k: int,
    updated: NoteRecord,
)
    requires
        0 <= k < notes.len(),
        first_week_note(notes, week_title(identity.year, identity.week)) == Some(notes[k]),
        updated.id == notes[k].id,
        updated.title@ == week_title(identity.year, identity.week),
        updated.category@ == WEEKLY_SUMMARY_CATEGORY@,
    ensures
        first_week_note(notes.update(k, updated), week_title(identity.year, identity.week)) matches Some(n)
            && n.id == notes[k].id,
    decreases notes.len(),
{
    let t = week_title(identity.year, identity.week);
    if is_weekly_note(notes[0]) && notes[0].title@ == t {
        if k > 0 {
            assert(notes.update(k, updated)[0] == notes[0]);
        }
    } else {
        lemma_first_week_note_matches(notes, t);
        assert(k > 0);
        assert(notes.update(k, updated).drop_first() =~= notes.drop_first().update(k - 1, updated));
        lemma_regeneration_targets_updated_note(notes.drop_first(), identity, k - 1, updated);
    }
}

proof fn lemma_first_week_note_matches(notes: Seq<NoteRecord>, title: Seq<char>)
    ensures
        first_week_note(notes, title) matches Some(n) ==> is_weekly_note(n) && n.title@ == title,
    decreases notes.len(),
{
    if notes.len() > 0 {
        lemma_first_week_note_matches(notes.drop_first(), title);
    }
}

proof fn lemma_insert_by_week_multiset(s: Seq<NoteRecord>, x: NoteRecord)
    ensures
        insert_by_week(s, x).to_multiset() =~= s.to_multiset().insert(x),
    decreases s.len(),
{
    broadcast use vstd::multiset::group_multiset_axioms;
    broadcast use vstd::seq_lib::group_to_multiset_ensures;

    let e = Seq::<NoteRecord>::empty();
    assert(e.to_multiset().len() == 0);
    assert(e.to_multiset() =~= vstd::multiset::Multiset::<NoteRecord>::empty());
    assert(e.push(x) =~= seq![x]);
    assert(seq![x].to_multiset() =~= vstd::multiset::Multiset::<NoteRecord>::empty().insert(x));
    if s.len() == 0 {
        assert(s =~= e);
    } else if week_before(note_week(s[0]), note_week(x)) {
        vstd::seq_lib::lemma_multiset_commutative(seq![x], s);
        assert(seq![x].to_multiset().add(s.to_multiset()) =~= s.to_multiset().insert(x));
    } else {
        let rest = s.drop_first();
        lemma_insert_by_week_multiset(rest, x);
        assert(e.push(s[0]) =~= seq![s[0]]);
        assert(seq![s[0]].to_multiset() =~= vstd::multiset::Multiset::<NoteRecord>::empty().insert(s[0]));
        vstd::seq_lib::lemma_multiset_commutative(seq![s[0]], insert_by_week(rest, x));
        vstd::seq_lib::lemma_multiset_commutative(seq![s[0]], rest);
        assert(s =~= seq![s[0]] + rest);
        assert(seq![s[0]].to_multiset().add(rest.to_multiset().insert(x)) =~= seq![s[0]].to_multiset().add(
            rest.to_multiset(),
        ).insert(x));
    }
}

proof fn lemma_latest_week_first_multiset(s: Seq<NoteRecord>)
    ensures
        latest_week_first(s).to_multiset() =~= s.to_multiset(),
    decreases s.len(),
{
    if s.len() > 0 {
        lemma_latest_week_first_multiset(s.drop_last());
        lemma_insert_by_week_multiset(latest_week_first(s.drop_last()), s.last());
        vstd::seq_lib::to_multiset_build(s.drop_last(), s.last());
        assert(s.drop_last().push(s.last()) =~= s);
    }
}

/// The listing has one entry per listable weekly note (a weekly summary
/// whose title names a week): it reorders them and leaves none out.
pub proof fn lemma_listed_weeks_are_the_listable_notes(notes: Seq<NoteRecord>)
    ensures
        listed_weeks(notes).to_multiset() == notes.filter(listable_pred()).to_multiset(),
        listed_weeks(notes).len() == notes.filter(listable_pred()).len(),
{
    lemma_latest_week_first_multiset(notes.filter(listable_pred()));
    lemma_latest_week_first_sorted(notes.filter(listable_pred()));
}

} // verus!
