//! Diary generation: date validation, the prompt that asks the model for a
//! diary, the empty-day diary, and finding diary notes among the stored notes.
use vstd::prelude::*;
use crate::dates::{is_valid_ymd, ymd_day, ymd_month, ymd_shaped, ymd_year};
use crate::error::{error_spec, AppError, ErrorSpec};
use crate::memory::clone_message;
use crate::notes::{NoteRecord, SaveNoteRequest};
use crate::text::{
    all_ws, contains_seq, copy_string, ends_with, is_blank, is_digit, join, lemma_join_contains, lemma_join_ends, join_strings, lemma_join_split, lemma_split_char_after,
    lemma_digits_value_bound, lemma_split_char_no_sep, nat_str, ten_pow, padded_number, parse_padded, seq_lt, split_by_char, split_char, starts_with, str_eq, str_lt, str_starts_with,
    take_chars, trim, trim_str, u64_to_padded, u64_to_string, i64_to_string, int_str,
    usize_to_string, views, zero_pad,
};
use crate::life_chapter::lemma_filter_take_step;
use crate::types::{str_len, ChatMessage, ConversationTurn, DiaryEntry, Event};

verus! {

/// Maximum number of events and turns read as source data for one diary.
pub const MAX_SOURCE_EVENTS: usize = 100;
pub const MAX_SOURCE_TURNS: usize = 200;
/// The sampling temperature of diary generation, in hundredths (0.2).
pub const DIARY_TEMPERATURE_HUNDREDTHS: u32 = 20;
/// The most tokens the model may write for one diary.
pub const DIARY_MAX_TOKENS: u32 = 2000;
/// Notes longer than this many characters are cut in the prompt.
pub const MAX_NOTE_PREVIEW_CHARS: usize = 800;
/// How many diary entries are listed when the caller gives no limit.
pub const DEFAULT_DIARY_LIST_LIMIT: usize = 30;

pub const DIARY_CATEGORY: &'static str = "diary";

pub const DIARY_ANTI_HALLUCINATION_RULES: &'static str = r#"ANTI-HALLUCINATION RULES (highest priority):
- Write only facts that are explicitly present in same-day chat summaries or same-day user notes.
- Events, core memory, and related past memories are context only; they must not create new facts for today.
- Do not infer a concrete event from an emotion, topic, or memory.
- Do not invent causes, timelines, actions, dialogue, locations, decisions, outcomes, or relationship status.
- If a sentence cannot be traced to the supplied same-day chat or note material, omit it.
- If the same-day material is sparse, write a sparse diary. Do not compensate by adding plausible details.
- It is acceptable to say that the day has too little material to write much."#;

pub const DIARY_HEAD_A: &'static str = "你是一个克制、准确的日记整理助手。请根据以下用户今天的事件、对话摘要和随手笔记，生成一篇中文日记。\n\n硬性要求：\n- 日记使用 Markdown 格式。\n- 以 `# ";
pub const DIARY_HEAD_B: &'static str = "` 开头。\n- 必须以“今天的对话摘要”和“今天的笔记”为主要依据；事件和过往记忆只作为辅助上下文。\n- 可以做轻微整理和谨慎延伸，但不得编造未出现的人物、地点、情节、动作、对白或具体心理活动。\n- 不要写成小说、故事或散文，不要添加戏剧化场景。\n- 如果材料没有明确说发生了什么，只能写「记录里没有展开」「似乎」「可能」，不要补全细节。\n- 如果数据不多，写短一些即可，不要凑字数；优先准确，其次才是文采。\n- 控制在 600-1200 字左右。\n\n--- 日记内容 ---\n\n# ";
pub const DIARY_HEAD_C: &'static str = "\n\n今天你...";
pub const DIARY_STYLE: &'static str = "写作风格要求（优先级最高）：\n- 日记要自然像本人写下来的日记，不要像 AI 资料整理。\n- 不要写成资料汇总、复盘报告或事实核查。\n- 不要在正文里写“笔记里”。\n- 不要在正文里写“对话里”。\n- 不要在正文里写“重要事件里”。\n- 不要在正文里写“记忆里”。\n- 不要在正文里写“记录显示”“根据材料”。\n- 不要把矛盾分析过程写出来；如果事件、笔记、记忆之间不一致，静默采用今天的笔记和对话，忽略不可靠的信息。\n- 可以把过往记忆化成一句自然的背景感受，例如“之前一直悬着的那件事终于落地了”，但不要标日期、不要解释来源。\n- 语气可以有一点松动、生活感和自嘲；允许短句，允许情绪上的停顿。\n- 正文只输出日记成品，不输出分析、清单、证据判断或写作说明。";
pub const BACKGROUND_SECTION: &'static str = "--- 用户背景 ---\n\n";
pub const EVENTS_SECTION: &'static str = "--- 今天的重要事件 ---\n\n";
pub const TURNS_SECTION: &'static str = "--- 今天的对话摘要 ---\n\n";
pub const NOTES_SECTION: &'static str = "--- 今天的笔记 ---\n\n";
pub const FINAL_A: &'static str = "请根据以上信息，生成 # ";
pub const FINAL_B: &'static str = " 的日记正文：";
pub const PART_SEP: &'static str = "\n\n";
pub const LINE_SEP: &'static str = "\n";
pub const HEADING: &'static str = "# ";
pub const EMPTY_DAY_TAIL: &'static str = "\n\n今天还没有足够的记录生成日记。\n";
pub const ITEM_DOT: &'static str = ". ";
pub const NO_SUMMARY: &'static str = "(无摘要)";
pub const EMOTIONS_OPEN: &'static str = " [情绪: ";
pub const EMOTIONS_SEP: &'static str = ", ";
pub const EMOTIONS_CLOSE: &'static str = "]";
pub const IMPORTANCE_OPEN: &'static str = " (重要性: ";
pub const IMPORTANCE_CLOSE: &'static str = ")";
pub const POINT: &'static str = ".";
pub const NOTE_HEADING: &'static str = "### ";
pub const TRUNCATED_MARK: &'static str = "…（以下内容过长，已截断）";
pub const ROLE_SYSTEM: &'static str = "system";
pub const ROLE_USER: &'static str = "user";

pub const INVALID_DATE: &'static str = "invalidDate";
pub const FORMAT_OPEN: &'static str = "Invalid date format: '";
pub const FORMAT_CLOSE: &'static str = "'. Expected YYYY-MM-DD";
pub const YEAR_INVALID: &'static str = "Invalid year in date: '";
pub const MONTH_INVALID: &'static str = "Invalid month in date: '";
pub const DAY_INVALID: &'static str = "Invalid day in date: '";
pub const YEAR_RANGE: &'static str = "Year out of range 2020-2099: '";
pub const MONTH_RANGE: &'static str = "Month out of range 1-12: '";
pub const DAY_RANGE: &'static str = "Day out of range 1-31: '";
pub const DAY31_A: &'static str = "Day 31 not valid for month ";
pub const COLON_QUOTE: &'static str = ": '";
pub const DAY_FEB_A: &'static str = "Day ";
pub const DAY_FEB_B: &'static str = " not valid for February ";
pub const QUOTE: &'static str = "'";

// ─── Date validation ──────────────────────────────────────────────────────

pub open spec fn quoted_date_error(prefix: Seq<char>, date: Seq<char>) -> ErrorSpec {
    error_spec(INVALID_DATE@, prefix + date + QUOTE@)
}

pub open spec fn format_error(date: Seq<char>) -> ErrorSpec {
    error_spec(INVALID_DATE@, FORMAT_OPEN@ + date + FORMAT_CLOSE@)
}

/// The checks on the numbers of a date, in the order they are made.
pub open spec fn date_range_result(y: i32, m: u32, d: u32, date: Seq<char>) -> Result<(), ErrorSpec> {
    if !(2020 <= y <= 2099) {
        Err(quoted_date_error(YEAR_RANGE@, date))
    } else if !(1 <= m <= 12) {
        Err(quoted_date_error(MONTH_RANGE@, date))
    } else if !(1 <= d <= 31) {
        Err(quoted_date_error(DAY_RANGE@, date))
    } else if (m == 4 || m == 6 || m == 9 || m == 11) && d > 30 {
        Err(error_spec(INVALID_DATE@, DAY31_A@ + nat_str(m as nat) + COLON_QUOTE@ + date + QUOTE@))
    } else if m == 2 && d > (if crate::dates::is_leap_year(y as int) { 29int } else { 28int }) {
        Err(
            error_spec(
                INVALID_DATE@,
                DAY_FEB_A@ + nat_str(d as nat) + DAY_FEB_B@ + int_str(y as int) + COLON_QUOTE@ + date
                    + QUOTE@,
            ),
        )
    } else {
        Ok(())
    }
}

/// Validation of a `YYYY-MM-DD` date: ten bytes, three parts between `-`,
/// the year written with four digits and the month and the day with two
/// (leading zeros included, no sign), a year in 2020..=2099, and a day that
/// exists in its month.
pub open spec fn validate_date_spec(date: Seq<char>) -> Result<(), ErrorSpec> {
    if str_len(date) != 10 {
        Err(format_error(date))
    } else {
        let parts = split_char(date, '-');
        if parts.len() != 3 {
            Err(format_error(date))
        } else {
            match padded_number(parts[0], 4) {
                None => Err(quoted_date_error(YEAR_INVALID@, date)),
                Some(y) => match padded_number(parts[1], 2) {
                    None => Err(quoted_date_error(MONTH_INVALID@, date)),
                    Some(m) => match padded_number(parts[2], 2) {
                        None => Err(quoted_date_error(DAY_INVALID@, date)),
                        Some(d) => date_range_result(y as i32, m as u32, d as u32, date),
                    },
                },
            }
        }
    }
}

fn quoted_error(prefix: &str, date: &str) -> (e: AppError)
    ensures
        e@ == quoted_date_error(prefix@, date@),
{
    let mut msg = String::from_str(prefix);
    msg.append(date);
    msg.append(QUOTE);
    AppError::new(INVALID_DATE, msg)
}

fn format_err(date: &str) -> (e: AppError)
    ensures
        e@ == format_error(date@),
{
    let mut msg = String::from_str(FORMAT_OPEN);
    msg.append(date);
    msg.append(FORMAT_CLOSE);
    AppError::new(INVALID_DATE, msg)
}

fn check_date_ranges(y: i32, m: u32, d: u32, date: &str) -> (r: Result<(), AppError>)
    ensures
        match (r, date_range_result(y, m, d, date@)) {
            (Ok(_), Ok(_)) => true,
            (Err(e), Err(s)) => e@ == s,
            _ => false,
        },
{
    if !(2020 <= y && y <= 2099) {
        return Err(quoted_error(YEAR_RANGE, date));
    }
    if !(1 <= m && m <= 12) {
        return Err(quoted_error(MONTH_RANGE, date));
    }
    if !(1 <= d && d <= 31) {
        return Err(quoted_error(DAY_RANGE, date));
    }
    if (m == 4 || m == 6 || m == 9 || m == 11) && d > 30 {
        let mut msg = String::from_str(DAY31_A);
        msg.append(u64_to_string(m as u64).as_str());
        msg.append(COLON_QUOTE);
        msg.append(date);
        msg.append(QUOTE);
        return Err(AppError::new(INVALID_DATE, msg));
    }
    if m == 2 {
        let is_leap = (y % 4 == 0 && y % 100 != 0) || (y % 400 == 0);
        let max_day: u32 = if is_leap {
            29
        } else {
            28
        };
        if d > max_day {
            let mut msg = String::from_str(DAY_FEB_A);
            msg.append(u64_to_string(d as u64).as_str());
            msg.append(DAY_FEB_B);
            msg.append(i64_to_string(y as i64).as_str());
            msg.append(COLON_QUOTE);
            msg.append(date);
            msg.append(QUOTE);
            return Err(AppError::new(INVALID_DATE, msg));
        }
    }
    Ok(())
}

/// Checks that `date` is a `YYYY-MM-DD` date in 2020..=2099 that exists.
pub fn validate_date(date: &str) -> (r: Result<(), AppError>)
    ensures
        match (r, validate_date_spec(date@)) {
            (Ok(_), Ok(_)) => true,
            (Err(e), Err(s)) => e@ == s,
            _ => false,
        },
{
    if date.len() != 10 {
        return Err(format_err(date));
    }
    let parts = split_by_char(date, '-');
    if parts.len() != 3 {
        return Err(format_err(date));
    }
    proof {
        assert(views(parts@)[0] == parts@[0]@);
        assert(views(parts@)[1] == parts@[1]@);
        assert(views(parts@)[2] == parts@[2]@);
    }
    let y = match parse_padded(parts[0].as_str(), 4) {
        Some(y) => y as i32,
        None => {
            return Err(quoted_error(YEAR_INVALID, date));
        },
    };
    let m = match parse_padded(parts[1].as_str(), 2) {
        Some(m) => m,
        None => {
            return Err(quoted_error(MONTH_INVALID, date));
        },
    };
    let d = match parse_padded(parts[2].as_str(), 2) {
        Some(d) => d,
        None => {
            return Err(quoted_error(DAY_INVALID, date));
        },
    };
    check_date_ranges(y, m, d, date)
}

/// Validation accepts exactly the dates written `YYYY-MM-DD` (zero-padded, no
/// sign) that name a day of the calendar in 2020..=2099, and every error it
/// gives has the code `invalidDate`.
pub proof fn lemma_validate_date_accepts_exactly(date: Seq<char>)
    ensures
        validate_date_spec(date) is Ok <==> {
            &&& str_len(date) == 10
            &&& ymd_shaped(date)
            &&& 2020 <= ymd_year(date) <= 2099
            &&& is_valid_ymd(ymd_year(date) as int, ymd_month(date) as int, ymd_day(date) as int)
        },
        validate_date_spec(date) matches Err(e) ==> e.code == INVALID_DATE@,
{
    let parts = split_char(date, '-');
    if ymd_shaped(date) {
        let a = date.take(4);
        let b = date.subrange(5, 7);
        let c = date.subrange(8, 10);
        assert(date =~= a + seq!['-'] + (b + seq!['-'] + c));
        assert forall|k: int| 0 <= k < a.len() implies a[k] != '-' by {
            assert(is_digit(a[k]));
        }
        assert forall|k: int| 0 <= k < b.len() implies b[k] != '-' by {
            assert(is_digit(b[k]));
        }
        assert forall|k: int| 0 <= k < c.len() implies c[k] != '-' by {
            assert(is_digit(c[k]));
        }
        lemma_split_char_after(a, b + seq!['-'] + c, '-');
        lemma_split_char_after(b, c, '-');
        lemma_split_char_no_sep(c, '-');
        assert(parts =~= seq![a, b, c]);
    }
    if parts.len() == 3 && padded_number(parts[0], 4) is Some && padded_number(parts[1], 2) is Some
        && padded_number(parts[2], 2) is Some {
        lemma_join_split(date, '-');
        let sep = seq!['-'];
        let pd = parts.drop_last();
        assert(pd.drop_last() =~= seq![parts[0]]);
        assert(join(pd.drop_last(), sep) == parts[0]);
        assert(pd.last() == parts[1]);
        assert(join(pd, sep) == join(pd.drop_last(), sep) + sep + pd.last());
        assert(join(pd, sep) == parts[0] + sep + parts[1]);
        assert(join(parts, sep) == join(pd, sep) + sep + parts.last());
        assert(date == parts[0] + sep + parts[1] + sep + parts[2]);
        assert(date.take(4) =~= parts[0]);
        assert(date.subrange(5, 7) =~= parts[1]);
        assert(date.subrange(8, 10) =~= parts[2]);
        assert(ymd_shaped(date));
    }
    if ymd_shaped(date) {
        reveal_with_fuel(ten_pow, 5);
        lemma_digits_value_bound(date.take(4));
        lemma_digits_value_bound(date.subrange(5, 7));
        lemma_digits_value_bound(date.subrange(8, 10));
    }
}

// ─── Prompt ───────────────────────────────────────────────────────────────

/// The hundredths `h` written with two decimals (`{:.2}` of `h / 100`).
pub open spec fn hundredths_str(h: nat) -> Seq<char> {
    nat_str(h / 100) + POINT@ + zero_pad(h % 100, 2)
}

pub open spec fn diary_emotions(emotions: Seq<String>) -> Seq<char> {
    if emotions.len() == 0 {
        Seq::empty()
    } else {
        EMOTIONS_OPEN@ + join(views(emotions), EMOTIONS_SEP@) + EMOTIONS_CLOSE@
    }
}

pub open spec fn event_item(i: int, e: Event) -> Seq<char> {
    nat_str((i + 1) as nat) + ITEM_DOT@ + e.content@ + diary_emotions(e.emotions@) + IMPORTANCE_OPEN@
        + hundredths_str(e.importance_hundredths as nat) + IMPORTANCE_CLOSE@
}

pub open spec fn event_items(es: Seq<Event>) -> Seq<Seq<char>> {
    Seq::new(es.len(), |i: int| event_item(i, es[i]))
}

pub open spec fn turn_item(i: int, t: ConversationTurn) -> Seq<char> {
    nat_str((i + 1) as nat) + ITEM_DOT@ + if t.summary@.len() == 0 {
        NO_SUMMARY@
    } else {
        t.summary@
    }
}

pub open spec fn turn_items(ts: Seq<ConversationTurn>) -> Seq<Seq<char>> {
    Seq::new(ts.len(), |i: int| turn_item(i, ts[i]))
}

pub open spec fn note_preview(content: Seq<char>) -> Seq<char> {
    if content.len() > MAX_NOTE_PREVIEW_CHARS {
        content.take(MAX_NOTE_PREVIEW_CHARS as int) + TRUNCATED_MARK@
    } else {
        content
    }
}

pub open spec fn note_item(i: int, n: (String, String)) -> Seq<char> {
    NOTE_HEADING@ + nat_str((i + 1) as nat) + ITEM_DOT@ + n.0@ + PART_SEP@ + note_preview(n.1@)
}

pub open spec fn note_items(ns: Seq<(String, String)>) -> Seq<Seq<char>> {
    Seq::new(ns.len(), |i: int| note_item(i, ns[i]))
}

fn format_hundredths(h: u32) -> (r: String)
    ensures
        r@ == hundredths_str(h as nat),
{
    let mut r = u64_to_string((h / 100) as u64);
    r.append(POINT);
    r.append(u64_to_padded((h % 100) as u64, 2).as_str());
    r
}

fn format_event_item(i: usize, e: &Event) -> (r: String)
    requires
        i < usize::MAX,
    ensures
        r@ == event_item(i as int, *e),
{
    let mut r = usize_to_string(i + 1);
    r.append(ITEM_DOT);
    r.append(e.content.as_str());
    if e.emotions.len() > 0 {
        r.append(EMOTIONS_OPEN);
        r.append(join_strings(&e.emotions, EMOTIONS_SEP).as_str());
        r.append(EMOTIONS_CLOSE);
    }
    r.append(IMPORTANCE_OPEN);
    r.append(format_hundredths(e.importance_hundredths).as_str());
    r.append(IMPORTANCE_CLOSE);
    r
}

/// The day's events as a numbered list for the prompt.
pub fn format_events_for_prompt(events: &Vec<Event>) -> (r: String)
    ensures
        r@ == join(event_items(events@), LINE_SEP@),
{
    let mut items: Vec<String> = Vec::new();
    let mut i: usize = 0;
    while i < events.len()
        invariant
            0 <= i <= events.len(),
            views(items@) =~= Seq::new(i as nat, |k: int| event_item(k, events@[k])),
        decreases events.len() - i,
    {
        let item = format_event_item(i, &events[i]);
        let ghost before = items@;
        items.push(item);
        proof {
            crate::text::lemma_views_push(before, item);
        }
        i = i + 1;
    }
    join_strings(&items, LINE_SEP)
}

fn format_turn_item(i: usize, t: &ConversationTurn) -> (r: String)
    requires
        i < usize::MAX,
    ensures
        r@ == turn_item(i as int, *t),
{
    let mut r = usize_to_string(i + 1);
    r.append(ITEM_DOT);
    if t.summary.as_str().unicode_len() == 0 {
        r.append(NO_SUMMARY);
    } else {
        r.append(t.summary.as_str());
    }
    r
}

/// The day's conversation summaries as a numbered list for the prompt.
pub fn format_turns_for_prompt(turns: &Vec<ConversationTurn>) -> (r: String)
    ensures
        r@ == join(turn_items(turns@), LINE_SEP@),
{
    let mut items: Vec<String> = Vec::new();
    let mut i: usize = 0;
    while i < turns.len()
        invariant
            0 <= i <= turns.len(),
            views(items@) =~= Seq::new(i as nat, |k: int| turn_item(k, turns@[k])),
        decreases turns.len() - i,
    {
        let item = format_turn_item(i, &turns[i]);
        let ghost before = items@;
        items.push(item);
        proof {
            crate::text::lemma_views_push(before, item);
        }
        i = i + 1;
    }
    join_strings(&items, LINE_SEP)
}

fn format_note_item(i: usize, n: &(String, String)) -> (r: String)
    requires
        i < usize::MAX,
    ensures
        r@ == note_item(i as int, *n),
{
    let mut r = String::from_str(NOTE_HEADING);
    r.append(usize_to_string(i + 1).as_str());
    r.append(ITEM_DOT);
    r.append(n.0.as_str());
    r.append(PART_SEP);
    let content = n.1.as_str();
    if content.unicode_len() > MAX_NOTE_PREVIEW_CHARS {
        r.append(take_chars(content, MAX_NOTE_PREVIEW_CHARS).as_str());
        r.append(TRUNCATED_MARK);
    } else {
        r.append(content);
    }
    r
}

/// The day's notes `(title, content)` for the prompt, each under a numbered
/// heading, a content longer than 800 characters cut with a mark.
pub fn format_notes_for_prompt(notes: &Vec<(String, String)>) -> (r: String)
    ensures
        r@ == join(note_items(notes@), PART_SEP@),
{
    let mut items: Vec<String> = Vec::new();
    let mut i: usize = 0;
    while i < notes.len()
        invariant
            0 <= i <= notes.len(),
            views(items@) =~= Seq::new(i as nat, |k: int| note_item(k, notes@[k])),
        decreases notes.len() - i,
    {
        let item = format_note_item(i, &notes[i]);
        let ghost before = items@;
        items.push(item);
        proof {
            crate::text::lemma_views_push(before, item);
        }
        i = i + 1;
    }
    join_strings(&items, PART_SEP)
}

/// The sections of the diary prompt, in order: instructions, style, rules,
/// then each non-empty source section, then the final request.
pub open spec fn diary_prompt_parts(
    date: Seq<char>,
    events: Seq<char>,
    turns: Seq<char>,
    notes: Seq<char>,
    core_memory: Seq<char>,
    related: Option<Seq<char>>,
) -> Seq<Seq<char>> {
    let p = seq![
        DIARY_HEAD_A@ + date + DIARY_HEAD_B@ + date + DIARY_HEAD_C@,
        DIARY_STYLE@,
        DIARY_ANTI_HALLUCINATION_RULES@,
    ];
    let p = if core_memory.len() > 0 {
        p.push(BACKGROUND_SECTION@ + core_memory)
    } else {
        p
    };
    let p = if events.len() > 0 {
        p.push(EVENTS_SECTION@ + events)
    } else {
        p
    };
    let p = if turns.len() > 0 {
        p.push(TURNS_SECTION@ + turns)
    } else {
        p
    };
    let p = if notes.len() > 0 {
        p.push(NOTES_SECTION@ + notes)
    } else {
        p
    };
    let p = match related {
        Some(r) => if r.len() > 0 {
            p.push(r)
        } else {
            p
        },
        None => p,
    };
    p.push(FINAL_A@ + date + FINAL_B@)
}

pub open spec fn diary_prompt_spec(
    date: Seq<char>,
    events: Seq<char>,
    turns: Seq<char>,
    notes: Seq<char>,
    core_memory: Seq<char>,
    has_data: bool,
    related: Option<Seq<char>>,
) -> Seq<char> {
    if !has_data {
        Seq::empty()
    } else {
        join(diary_prompt_parts(date, events, turns, notes, core_memory, related), PART_SEP@)
    }
}

pub open spec fn count_if(b: bool) -> int {
    if b {
        1
    } else {
        0
    }
}

/// Without data the diary prompt is empty. With data it opens with the
/// instructions for `date`, holds the grounding rules, holds the section of
/// each source text that is not empty (and only those: one part per such
/// text), and its last line asks for the diary of `date`.
#[verifier::spinoff_prover]
#[verifier::rlimit(30)]
pub proof fn lemma_diary_prompt_shape(
    date: Seq<char>,
    events: Seq<char>,
    turns: Seq<char>,
    notes: Seq<char>,
    core_memory: Seq<char>,
    has_data: bool,
    related: Option<Seq<char>>,
)
    ensures
        !has_data ==> diary_prompt_spec(date, events, turns, notes, core_memory, has_data, related).len()
            == 0,
        has_data ==> {
            let p = diary_prompt_spec(date, events, turns, notes, core_memory, has_data, related);
            let parts = diary_prompt_parts(date, events, turns, notes, core_memory, related);
            &&& starts_with(p, DIARY_HEAD_A@ + date + DIARY_HEAD_B@ + date + DIARY_HEAD_C@)
            &&& contains_seq(p, DIARY_ANTI_HALLUCINATION_RULES@)
            &&& ends_with(p, FINAL_A@ + date + FINAL_B@)
            &&& (core_memory.len() > 0 ==> contains_seq(p, BACKGROUND_SECTION@ + core_memory))
            &&& (events.len() > 0 ==> contains_seq(p, EVENTS_SECTION@ + events))
            &&& (turns.len() > 0 ==> contains_seq(p, TURNS_SECTION@ + turns))
            &&& (notes.len() > 0 ==> contains_seq(p, NOTES_SECTION@ + notes))
            &&& (related matches Some(r) ==> (r.len() > 0 ==> contains_seq(p, r)))
            &&& parts.len() == 4 + count_if(core_memory.len() > 0) + count_if(events.len() > 0)
                + count_if(turns.len() > 0) + count_if(notes.len() > 0) + count_if(
                related matches Some(r) && r.len() > 0,
            )
        },
{
    if has_data {
        let parts = diary_prompt_parts(date, events, turns, notes, core_memory, related);
        let i1: int = 3 + count_if(core_memory.len() > 0);
        let i2: int = i1 + count_if(events.len() > 0);
        let i3: int = i2 + count_if(turns.len() > 0);
        let i4: int = i3 + count_if(notes.len() > 0);
        lemma_join_ends(parts, PART_SEP@);
        lemma_join_contains(parts, PART_SEP@, 2);
        if core_memory.len() > 0 {
            assert(parts[3] == BACKGROUND_SECTION@ + core_memory);
            lemma_join_contains(parts, PART_SEP@, 3);
        }
        if events.len() > 0 {
            assert(parts[i1] == EVENTS_SECTION@ + events);
            lemma_join_contains(parts, PART_SEP@, i1);
        }
        if turns.len() > 0 {
            assert(parts[i2] == TURNS_SECTION@ + turns);
            lemma_join_contains(parts, PART_SEP@, i2);
        }
        if notes.len() > 0 {
            assert(parts[i3] == NOTES_SECTION@ + notes);
            lemma_join_contains(parts, PART_SEP@, i3);
        }
        if let Some(r) = related {
            if r.len() > 0 {
                assert(parts[i4] == r);
                lemma_join_contains(parts, PART_SEP@, i4);
            }
        }
    }
}

fn push_section(parts: &mut Vec<String>, head: &str, body: &str)
    ensures
        views(final(parts)@) == if body@.len() > 0 {
            views(old(parts)@).push(head@ + body@)
        } else {
            views(old(parts)@)
        },
{
    if body.unicode_len() > 0 {
        let mut s = String::from_str(head);
        s.append(body);
        let ghost before = parts@;
        parts.push(s);
        proof {
            crate::text::lemma_views_push(before, s);
        }
    }
}

/// The prompt that asks the model for the diary of `date`; empty when there is no data.
pub fn build_diary_prompt(
    date: &str,
    events: &str,
    turns: &str,
    notes: &str,
    core_memory: &str,
    has_data: bool,
    related_memories: Option<&str>,
) -> (r: String)
    ensures
        r@ == diary_prompt_spec(
            date@,
            events@,
            turns@,
            notes@,
            core_memory@,
            has_data,
            match related_memories {
                Some(s) => Some(s@),
                None => None,
            },
        ),
{
    if !has_data {
        return String::new();
    }
    let mut head = String::from_str(DIARY_HEAD_A);
    head.append(date);
    head.append(DIARY_HEAD_B);
    head.append(date);
    head.append(DIARY_HEAD_C);
    let mut parts: Vec<String> = Vec::new();
    parts.push(head);
    parts.push(String::from_str(DIARY_STYLE));
    parts.push(String::from_str(DIARY_ANTI_HALLUCINATION_RULES));
    assert(views(parts@) =~= seq![
        DIARY_HEAD_A@ + date@ + DIARY_HEAD_B@ + date@ + DIARY_HEAD_C@,
        DIARY_STYLE@,
        DIARY_ANTI_HALLUCINATION_RULES@,
    ]);
    push_section(&mut parts, BACKGROUND_SECTION, core_memory);
    push_section(&mut parts, EVENTS_SECTION, events);
    push_section(&mut parts, TURNS_SECTION, turns);
    push_section(&mut parts, NOTES_SECTION, notes);
    match related_memories {
        Some(related) => {
            push_section(&mut parts, "", related);
            proof {
                reveal_strlit("");
                assert(""@ + related@ =~= related@);
            }
        },
        None => {},
    }
    let mut last = String::from_str(FINAL_A);
    last.append(date);
    last.append(FINAL_B);
    let ghost before = parts@;
    parts.push(last);
    proof {
        crate::text::lemma_views_push(before, last);
    }
    join_strings(&parts, PART_SEP)
}

/// The two messages of the diary call: the grounding rules as the system
/// message, and the prompt as the user message.
pub fn diary_messages(prompt: String) -> (r: Vec<ChatMessage>)
    ensures
        r.len() == 2,
        r@[0].role@ == ROLE_SYSTEM@,
        r@[0].content@ == DIARY_ANTI_HALLUCINATION_RULES@,
        r@[1].role@ == ROLE_USER@,
        r@[1].content@ == prompt@,
{
    let mut r: Vec<ChatMessage> = Vec::new();
    r.push(
        ChatMessage {
            role: String::from_str(ROLE_SYSTEM),
            content: String::from_str(DIARY_ANTI_HALLUCINATION_RULES),
        },
    );
    r.push(ChatMessage { role: String::from_str(ROLE_USER), content: prompt });
    r
}

// ─── Empty days and the model's output ────────────────────────────────────

pub open spec fn empty_day_diary_spec(date: Seq<char>) -> Seq<char> {
    HEADING@ + date + EMPTY_DAY_TAIL@
}

/// The diary of a day without enough records.
pub fn empty_day_diary(date: &str) -> (r: String)
    ensures
        r@ == empty_day_diary_spec(date@),
{
    let mut r = String::from_str(HEADING);
    r.append(date);
    r.append(EMPTY_DAY_TAIL);
    r
}

/// Whether any same-day conversation summary or note has non-blank text;
/// derived events and long-term memory alone do not make a diary.
pub open spec fn has_direct_sources_spec(turns: Seq<ConversationTurn>, notes: Seq<(String, String)>) -> bool {
    (exists|i: int| 0 <= i < turns.len() && !all_ws(#[trigger] turns[i].summary@)) || (exists|i: int|
        0 <= i < notes.len() && !all_ws(#[trigger] notes[i].1@))
}

pub fn has_direct_diary_sources(turns: &Vec<ConversationTurn>, notes: &Vec<(String, String)>) -> (r:
    bool)
    ensures
        r == has_direct_sources_spec(turns@, notes@),
{
    let mut i: usize = 0;
    while i < turns.len()
        invariant
            0 <= i <= turns.len(),
            forall|k: int| 0 <= k < i ==> all_ws(#[trigger] turns@[k].summary@),
        decreases turns.len() - i,
    {
        if !is_blank(turns[i].summary.as_str()) {
            return true;
        }
        i = i + 1;
    }
    let mut j: usize = 0;
    while j < notes.len()
        invariant
            0 <= j <= notes.len(),
            forall|k: int| 0 <= k < turns.len() ==> all_ws(#[trigger] turns@[k].summary@),
            forall|k: int| 0 <= k < j ==> all_ws(#[trigger] notes@[k].1@),
        decreases notes.len() - j,
    {
        if !is_blank(notes[j].1.as_str()) {
            return true;
        }
        j = j + 1;
    }
    false
}

/// The diary text from the model's output: the output trimmed, with the
/// `# <date>` heading put in front when the output does not start with it.
pub open spec fn finalize_diary_spec(date: Seq<char>, output: Seq<char>) -> Seq<char> {
    let t = trim(output);
    if starts_with(t, HEADING@ + date) {
        t
    } else {
        HEADING@ + date + PART_SEP@ + t
    }
}

pub fn finalize_diary_content(date: &str, llm_output: &str) -> (r: String)
    ensures
        r@ == finalize_diary_spec(date@, llm_output@),
{
    let t = trim_str(llm_output);
    let mut heading = String::from_str(HEADING);
    heading.append(date);
    if str_starts_with(t, heading.as_str()) {
        String::from_str(t)
    } else {
        let mut r = heading;
        r.append(PART_SEP);
        r.append(t);
        r
    }
}

// ─── Diary notes ──────────────────────────────────────────────────────────

pub open spec fn is_diary_note(n: NoteRecord) -> bool {
    n.category@ == DIARY_CATEGORY@
}

/// The first diary note titled `date`, in store order.
pub open spec fn first_diary_for(notes: Seq<NoteRecord>, date: Seq<char>) -> Option<NoteRecord>
    decreases notes.len(),
{
    if notes.len() == 0 {
        None
    } else if is_diary_note(notes[0]) && notes[0].title@ == date {
        Some(notes[0])
    } else {
        first_diary_for(notes.drop_first(), date)
    }
}

/// The diary notes, in store order.
pub open spec fn diary_notes(notes: Seq<NoteRecord>) -> Seq<NoteRecord>
    decreases notes.len(),
{
    if notes.len() == 0 {
        Seq::empty()
    } else if is_diary_note(notes.last()) {
        diary_notes(notes.drop_last()).push(notes.last())
    } else {
        diary_notes(notes.drop_last())
    }
}

/// `e` is the diary entry of note `n` for `date`.
pub open spec fn is_entry_of(e: DiaryEntry, date: Seq<char>, n: NoteRecord, content: Seq<char>) -> bool {
    &&& e.date@ == date
    &&& e.note_id@ == n.id@
    &&& e.title@ == n.title@
    &&& e.content@ == content
    &&& e.created_at@ == n.created_at@
    &&& e.updated_at@ == n.updated_at@
}

/// The entry of a stored diary note, its date being `date`.
pub fn diary_entry_from_note(date: &str, note: &NoteRecord) -> (r: DiaryEntry)
    ensures
        is_entry_of(r, date@, *note, note.content@),
{
    DiaryEntry {
        date: String::from_str(date),
        note_id: copy_string(&note.id),
        title: copy_string(&note.title),
        content: copy_string(&note.content),
        created_at: copy_string(&note.created_at),
        updated_at: copy_string(&note.updated_at),
    }
}

/// The diary entry for `date` among the stored notes, if there is one.
pub fn find_existing_diary(notes: &Vec<NoteRecord>, date: &str) -> (r: Option<DiaryEntry>)
    ensures
        match (r, first_diary_for(notes@, date@)) {
            (Some(e), Some(n)) => is_entry_of(e, date@, n, n.content@),
            (None, None) => true,
            _ => false,
        },
{
    let mut i: usize = 0;
    assert(notes@.skip(0) =~= notes@);
    while i < notes.len()
        invariant
            0 <= i <= notes.len(),
            first_diary_for(notes@, date@) == first_diary_for(notes@.skip(i as int), date@),
        decreases notes.len() - i,
    {
        let n = &notes[i];
        proof {
            assert(notes@.skip(i as int)[0] == notes@[i as int]);
            assert(notes@.skip(i as int).drop_first() =~= notes@.skip(i + 1));
        }
        if str_eq(n.category.as_str(), DIARY_CATEGORY) && str_eq(n.title.as_str(), date) {
            return Some(diary_entry_from_note(date, n));
        }
        i = i + 1;
    }
    assert(notes@.skip(i as int).len() == 0);
    None
}

/// How many diary entries a listing with `limit` returns when there are
/// `available`: all of them, up to `limit`.
pub open spec fn listed_count(available: nat, limit: nat) -> nat {
    if available < limit {
        available
    } else {
        limit
    }
}

pub proof fn lemma_diary_notes_prefix(s: Seq<NoteRecord>, i: int)
    requires
        0 <= i <= s.len(),
    ensures
        diary_notes(s.take(i)).len() <= diary_notes(s).len(),
        diary_notes(s.take(i)) == diary_notes(s).take(diary_notes(s.take(i)).len() as int),
    decreases s.len() - i,
{
    if i == s.len() {
        assert(s.take(i) =~= s);
        assert(diary_notes(s).take(diary_notes(s).len() as int) =~= diary_notes(s));
    } else {
        lemma_diary_notes_prefix(s.drop_last(), i);
        assert(s.drop_last().take(i) =~= s.take(i));
        let d = diary_notes(s.drop_last());
        let t = diary_notes(s.take(i));
        if is_diary_note(s.last()) {
            assert(d.push(s.last()).take(t.len() as int) =~= d.take(t.len() as int));
        }
    }
}

/// The diary entries in store order, without their contents, at most `limit`
/// of them.
pub fn list_diary_entries(notes: &Vec<NoteRecord>, limit: usize) -> (r: Vec<DiaryEntry>)
    ensures
        r.len() == listed_count(diary_notes(notes@).len(), limit as nat),
        forall|k: int|
            0 <= k < r.len() ==> is_entry_of(
                #[trigger] r@[k],
                diary_notes(notes@)[k].title@,
                diary_notes(notes@)[k],
                Seq::empty(),
            ),
{
    let cap: usize = limit;
    let mut entries: Vec<DiaryEntry> = Vec::new();
    let mut i: usize = 0;
    while i < notes.len() && entries.len() < cap
        invariant
            0 <= i <= notes.len(),
            entries.len() == diary_notes(notes@.take(i as int)).len(),
            entries.len() <= cap,
            forall|k: int|
                0 <= k < entries.len() ==> is_entry_of(
                    #[trigger] entries@[k],
                    diary_notes(notes@.take(i as int))[k].title@,
                    diary_notes(notes@.take(i as int))[k],
                    Seq::empty(),
                ),
        decreases notes.len() - i,
    {
        let n = &notes[i];
        proof {
            assert(notes@.take(i + 1).drop_last() =~= notes@.take(i as int));
            assert(notes@.take(i + 1).last() == notes@[i as int]);
        }
        if str_eq(n.category.as_str(), DIARY_CATEGORY) {
            let e = DiaryEntry {
                date: copy_string(&n.title),
                note_id: copy_string(&n.id),
                title: copy_string(&n.title),
                content: String::new(),
                created_at: copy_string(&n.created_at),
                updated_at: copy_string(&n.updated_at),
            };
            entries.push(e);
        }
        i = i + 1;
    }
    proof {
        lemma_diary_notes_prefix(notes@, i as int);
        let t = diary_notes(notes@.take(i as int));
        let all = diary_notes(notes@);
        if i == notes.len() {
            assert(notes@.take(i as int) =~= notes@);
        }
        assert forall|k: int| 0 <= k < entries.len() implies #[trigger] all[k] == t[k] by {
            assert(all.take(t.len() as int)[k] == all[k]);
        }
    }
    entries
}

/// The diary entry of one date. The user id names the owner of the notes; the
/// store holds one user's notes, so it selects nothing.
pub fn get_diary(_user_id: &str, date: &str, notes: &Vec<NoteRecord>) -> (r: Result<
    Option<DiaryEntry>,
    AppError,
>)
    ensures
        match (r, validate_date_spec(date@)) {
            (Err(e), Err(s)) => e@ == s,
            (Ok(found), Ok(_)) => match (found, first_diary_for(notes@, date@)) {
                (Some(e), Some(n)) => is_entry_of(e, date@, n, n.content@),
                (None, None) => true,
                _ => false,
            },
            _ => false,
        },
{
    match validate_date(date) {
        Err(e) => Err(e),
        Ok(_) => Ok(find_existing_diary(notes, date)),
    }
}

/// The listed diary entries, 30 at most when no limit is given.
pub fn get_diary_list(_user_id: &str, limit: Option<usize>, notes: &Vec<NoteRecord>) -> (r: Vec<
    DiaryEntry,
>)
    ensures
        r.len() == listed_count(
            diary_notes(notes@).len(),
            match limit {
                Some(l) => l as nat,
                None => DEFAULT_DIARY_LIST_LIMIT as nat,
            },
        ),
        forall|k: int|
            0 <= k < r.len() ==> is_entry_of(
                #[trigger] r@[k],
                diary_notes(notes@)[k].title@,
                diary_notes(notes@)[k],
                Seq::empty(),
            ),
{
    let l = match limit {
        Some(l) => l,
        None => DEFAULT_DIARY_LIST_LIMIT,
    };
    list_diary_entries(notes, l)
}

/// The note to save for the diary of `date`: titled with the date, in the
/// diary category. It is written over `existing_note_id` when a diary for the
/// date exists, and created otherwise.
pub fn diary_save_request(date: &str, content: &str) -> (r: SaveNoteRequest)
    ensures
        r.title@ == date@,
        r.content@ == content@,
        r.category@ == DIARY_CATEGORY@,
{
    SaveNoteRequest {
        title: String::from_str(date),
        content: String::from_str(content),
        category: String::from_str(DIARY_CATEGORY),
    }
}


/// A note written on the day whose UTC bounds are `start` and `end` (RFC 3339
/// timestamps): any note but a diary note, created within the bounds.
pub open spec fn written_on_day(n: NoteRecord, start: Seq<char>, end: Seq<char>) -> bool {
    &&& n.category@ != DIARY_CATEGORY@
    &&& !seq_lt(n.created_at@, start)
    &&& !seq_lt(end, n.created_at@)
}

pub open spec fn day_note_pred(start: Seq<char>, end: Seq<char>) -> spec_fn(NoteRecord) -> bool {
    |n: NoteRecord| written_on_day(n, start, end)
}

/// The notes, in store order, that the diary of a day is written from, as
/// `(title, content)`: every note but diary notes, created between `utc_start`
/// and `utc_end` inclusive (timestamps compared as text).
pub fn notes_for_day(notes: &Vec<NoteRecord>, utc_start: &str, utc_end: &str) -> (r: Vec<(String, String)>)
    ensures
        r@.len() == notes@.filter(day_note_pred(utc_start@, utc_end@)).len(),
        forall|k: int|
            0 <= k < r@.len() ==> (#[trigger] r@[k]).0@ == notes@.filter(
                day_note_pred(utc_start@, utc_end@),
            )[k].title@ && r@[k].1@ == notes@.filter(day_note_pred(utc_start@, utc_end@))[k].content@,
{
    let ghost p = day_note_pred(utc_start@, utc_end@);
    let mut out: Vec<(String, String)> = Vec::new();
    let mut i: usize = 0;
    assert(notes@.take(0).filter(p) =~= Seq::<NoteRecord>::empty()) by {
        reveal(Seq::filter);
    }
    while i < notes.len()
        invariant
            0 <= i <= notes.len(),
            p == day_note_pred(utc_start@, utc_end@),
            out@.len() == notes@.take(i as int).filter(p).len(),
            forall|k: int|
                0 <= k < out@.len() ==> (#[trigger] out@[k]).0@ == notes@.take(i as int).filter(p)[k].title@
                    && out@[k].1@ == notes@.take(i as int).filter(p)[k].content@,
        decreases notes.len() - i,
    {
        let n = &notes[i];
        proof {
            lemma_filter_take_step(notes@, p, i as int);
        }
        let on_day = !str_eq(n.category.as_str(), DIARY_CATEGORY) && !str_lt(n.created_at.as_str(), utc_start)
            && !str_lt(utc_end, n.created_at.as_str());
        if on_day {
            out.push((copy_string(&n.title), copy_string(&n.content)));
        }
        i = i + 1;
    }
    assert(notes@.take(i as int) =~= notes@);
    out
}

/// A diary saved for a date where none was stored is the one found for that
/// date afterwards, so regenerating it writes over the same note.
pub proof fn lemma_saved_diary_is_found(notes: Seq<NoteRecord>, date: Seq<char>, created: NoteRecord)
    requires
        first_diary_for(notes, date) is None,
        created.title@ == date,
        created.category@ == DIARY_CATEGORY@,
    ensures
        first_diary_for(notes.push(created), date) == Some(created),
    decreases notes.len(),
{
    if notes.len() > 0 {
        lemma_saved_diary_is_found(notes.drop_first(), date, created);
        assert(notes.push(created).drop_first() =~= notes.drop_first().push(created));
    }
}

} // verus!
