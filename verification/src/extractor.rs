//! What the library asks the model about a conversation or a quick note, and
//! how it reads and checks the answer's fields.
use vstd::prelude::*;
use crate::text::{
    find_from, find_str_from, join, join_strings, matches_at, occurs_at, prefix, replace_all,
    replace_str, skip_chars, starts_with, str_eq, str_starts_with, take_chars, to_owned, trim,
    trim_str, views,
};

verus! {

pub const EMOTION_EXTRACTION_PROMPT: &'static str = "分析以下对话，提取情绪和事件信息。\n\n用户消息：{user_message}\nAI 回复：{ai_reply}\n\n请以 JSON 格式输出（不要输出其他内容）：\n{{\n  \"emotions\": [\"从 {valid_emotions} 中选择，可多个\"],\n  \"event_type\": \"conflict/milestone/emotion/decision 或 null\",\n  \"importance\": 0.0到1.0之间的浮点数,\n  \"summary\": \"一句话摘要\",\n  \"topics\": [\"从对话中识别的主题标签，如'职业选择'、'和父亲的关系'、'考研'、'健身'等，最多3个，日常闲聊为空数组\"]\n}}\n\n评分标准：\n- importance 0.0~0.3：日常闲聊\n- importance 0.3~0.6：有情绪但非重大事件\n- importance 0.6~0.8：明确的事件或强烈情绪\n- importance 0.8~1.0：人生重大变化或情绪崩溃\n\n主题识别规则：\n- 只提取对话中明确涉及的主题，不要推测\n- 主题应该是用户生活中持续出现的关注点或经历\n- 如果用户换了工作，主题可以是\"职业变化\"或具体公司名\n";

pub const USER_MESSAGE_SLOT: &'static str = "{user_message}";

pub const AI_REPLY_SLOT: &'static str = "{ai_reply}";

pub const VALID_EMOTIONS_SLOT: &'static str = "{valid_emotions}";

pub const EMOTION_SEP: &'static str = "/";

pub const FENCE: &'static str = "```";

pub const NEWLINE: &'static str = "\n";

pub const PARAGRAPH_SEP: &'static str = "\n\n";

/// How many characters of a quick note stand for its event when the model
/// gives no summary.
pub const QUICK_SUMMARY_CHARS: usize = 160;

pub const EXTRACTION_TEMPERATURE_HUNDREDTHS: u32 = 10;

pub const EXTRACTION_MAX_TOKENS: u32 = 256;

// ─── Emotions and event types ─────────────────────────────────────────────

/// The emotions the model may name, in the order the prompt lists them.
pub open spec fn valid_emotions() -> Seq<Seq<char>> {
    seq![
        "joy"@,
        "sadness"@,
        "anger"@,
        "anxiety"@,
        "fear"@,
        "surprise"@,
        "disgust"@,
        "calm"@,
        "overwhelm"@,
        "hope"@,
    ]
}

pub open spec fn is_valid_emotion(e: Seq<char>) -> bool {
    valid_emotions().contains(e)
}

/// The event types the model may name.
pub open spec fn is_valid_event_type(t: Seq<char>) -> bool {
    t == "conflict"@ || t == "milestone"@ || t == "emotion"@ || t == "decision"@
}

/// The list of valid emotions that the prompt shows, joined by `/`.
pub fn valid_emotions_list() -> (r: String)
    ensures
        r@ == join(valid_emotions(), EMOTION_SEP@),
{
    let mut v: Vec<String> = Vec::new();
    v.push(to_owned("joy"));
    v.push(to_owned("sadness"));
    v.push(to_owned("anger"));
    v.push(to_owned("anxiety"));
    v.push(to_owned("fear"));
    v.push(to_owned("surprise"));
    v.push(to_owned("disgust"));
    v.push(to_owned("calm"));
    v.push(to_owned("overwhelm"));
    v.push(to_owned("hope"));
    assert(views(v@) =~= valid_emotions());
    join_strings(&v, EMOTION_SEP)
}

/// Whether `e` is one of the valid emotions.
pub fn is_valid_emotion_name(e: &str) -> (r: bool)
    ensures
        r == is_valid_emotion(e@),
{
    let r = str_eq(e, "joy") || str_eq(e, "sadness") || str_eq(e, "anger") || str_eq(e, "anxiety")
        || str_eq(e, "fear") || str_eq(e, "surprise") || str_eq(e, "disgust") || str_eq(e, "calm")
        || str_eq(e, "overwhelm") || str_eq(e, "hope");
    proof {
        let v = valid_emotions();
        if r {
            if e@ == "joy"@ { assert(v[0] == e@); }
            if e@ == "sadness"@ { assert(v[1] == e@); }
            if e@ == "anger"@ { assert(v[2] == e@); }
            if e@ == "anxiety"@ { assert(v[3] == e@); }
            if e@ == "fear"@ { assert(v[4] == e@); }
            if e@ == "surprise"@ { assert(v[5] == e@); }
            if e@ == "disgust"@ { assert(v[6] == e@); }
            if e@ == "calm"@ { assert(v[7] == e@); }
            if e@ == "overwhelm"@ { assert(v[8] == e@); }
            if e@ == "hope"@ { assert(v[9] == e@); }
        } else {
            assert forall|k: int| 0 <= k < v.len() implies v[k] != e@ by {}
        }
    }
    r
}

pub open spec fn emotion_pred() -> spec_fn(Seq<char>) -> bool {
    |e: Seq<char>| is_valid_emotion(e)
}

/// The emotions of `raw` that are valid, in order.
pub fn filter_valid_emotions(raw: &Vec<String>) -> (r: Vec<String>)
    ensures
        views(r@) == views(raw@).filter(emotion_pred()),
{
    let ghost p = emotion_pred();
    let mut out: Vec<String> = Vec::new();
    let mut i: usize = 0;
    assert(views(raw@).take(0).filter(p) =~= Seq::<Seq<char>>::empty()) by {
        reveal(Seq::filter);
    }
    while i < raw.len()
        invariant
            0 <= i <= raw.len(),
            p == emotion_pred(),
            views(out@) == views(raw@).take(i as int).filter(p),
        decreases raw.len() - i,
    {
        proof {
            crate::life_chapter::lemma_filter_take_step(views(raw@), p, i as int);
        }
        if is_valid_emotion_name(raw[i].as_str()) {
            let e = to_owned(raw[i].as_str());
            let ghost before = out@;
            out.push(e);
            proof {
                crate::text::lemma_views_push(before, e);
            }
        }
        i = i + 1;
    }
    assert(views(raw@).take(i as int) =~= views(raw@));
    out
}

/// What `str::to_lowercase` makes of `s`.
pub uninterp spec fn spec_to_lowercase(s: Seq<char>) -> Seq<char>;

/// Calls `str::to_lowercase`. Claimed: the result is the named function of
/// `s`; nothing is claimed of what it is.
#[verifier::external_body]
fn to_lowercase(s: &str) -> (r: String)
    ensures
        r@ == spec_to_lowercase(s@),
{
    s.to_lowercase()
}

fn is_valid_event_type_name(t: &str) -> (r: bool)
    ensures
        r == is_valid_event_type(t@),
{
    str_eq(t, "conflict") || str_eq(t, "milestone") || str_eq(t, "emotion") || str_eq(t, "decision")
}

/// The event type the model named, kept when its lower-case form is a valid
/// type (the name itself is kept as written).
pub fn accepted_event_type(raw: Option<String>) -> (r: Option<String>)
    ensures
        match raw {
            Some(t) => if is_valid_event_type(spec_to_lowercase(t@)) {
                r == Some(t)
            } else {
                r is None
            },
            None => r is None,
        },
{
    match raw {
        Some(t) => {
            let lower = to_lowercase(t.as_str());
            if is_valid_event_type_name(lower.as_str()) {
                Some(t)
            } else {
                None
            }
        },
        None => None,
    }
}

// ─── The extraction prompt ────────────────────────────────────────────────

/// The prompt with the conversation filled in, slot by slot (a slot's text
/// that itself holds a later slot is filled again).
pub open spec fn extraction_prompt(user_message: Seq<char>, ai_reply: Seq<char>) -> Seq<char> {
    replace_all(
        replace_all(
            replace_all(EMOTION_EXTRACTION_PROMPT@, USER_MESSAGE_SLOT@, user_message),
            AI_REPLY_SLOT@,
            ai_reply,
        ),
        VALID_EMOTIONS_SLOT@,
        join(valid_emotions(), EMOTION_SEP@),
    )
}

/// The prompt that asks the model for the emotions and event of an exchange.
pub fn build_emotion_extraction_prompt(user_message: &str, ai_reply: &str) -> (r: String)
    ensures
        r@ == extraction_prompt(user_message@, ai_reply@),
{
    proof {
        reveal_strlit("{user_message}");
        reveal_strlit("{ai_reply}");
        reveal_strlit("{valid_emotions}");
    }
    let a = replace_str(EMOTION_EXTRACTION_PROMPT, USER_MESSAGE_SLOT, user_message);
    let b = replace_str(a.as_str(), AI_REPLY_SLOT, ai_reply);
    let list = valid_emotions_list();
    replace_str(b.as_str(), VALID_EMOTIONS_SLOT, list.as_str())
}

// ─── Reading the answer ───────────────────────────────────────────────────

/// The last position at or before `i` where `p` occurs in `s`.
pub open spec fn find_last_from(s: Seq<char>, p: Seq<char>, i: int) -> Option<int>
    decreases i + 1,
{
    if i < 0 {
        None
    } else if occurs_at(s, p, i) {
        Some(i)
    } else {
        find_last_from(s, p, i - 1)
    }
}

/// `str::rfind`: the position of the last occurrence of `p` in `s`.
pub open spec fn rfind(s: Seq<char>, p: Seq<char>) -> Option<int> {
    find_last_from(s, p, s.len() - p.len())
}

fn rfind_str(s: &str, p: &str) -> (r: Option<usize>)
    ensures
        match r {
            Some(i) => rfind(s@, p@) == Some(i as int),
            None => rfind(s@, p@) is None,
        },
{
    let slen = s.unicode_len();
    let plen = p.unicode_len();
    if plen > slen {
        return None;
    }
    let mut i: usize = slen - plen;
    loop
        invariant
            0 <= i <= slen - plen,
            slen == s@.len(),
            plen == p@.len(),
            plen <= slen,
            rfind(s@, p@) == find_last_from(s@, p@, i as int),
        decreases i,
    {
        if matches_at(s, i, p) {
            return Some(i);
        }
        if i == 0 {
            assert(find_last_from(s@, p@, -1) is None);
            return None;
        }
        i = i - 1;
    }
}

proof fn lemma_find_last_from_some(s: Seq<char>, p: Seq<char>, i: int, k: int)
    requires
        find_last_from(s, p, i) == Some(k),
    ensures
        occurs_at(s, p, k),
    decreases i + 1,
{
    if i >= 0 && !occurs_at(s, p, i) {
        lemma_find_last_from_some(s, p, i - 1, k);
    }
}

/// `s` after its first line, or all of `s` when it is one line.
pub open spec fn after_first_line(s: Seq<char>) -> Seq<char> {
    match find_from(s, NEWLINE@, 0) {
        Some(i) => s.skip(i + 1),
        None => s,
    }
}

/// A model's answer without a Markdown code fence around it: when it opens
/// with a fence, the text after the fence's line up to the last fence (or to
/// the end), trimmed; otherwise the answer unchanged.
pub open spec fn stripped_codeblock(text: Seq<char>) -> Seq<char> {
    if starts_with(text, FENCE@) {
        let w = after_first_line(text);
        match rfind(w, FENCE@) {
            Some(e) => trim(w.take(e)),
            None => trim(w),
        }
    } else {
        text
    }
}

/// Strips a Markdown code fence from around a model's answer.
pub fn strip_codeblock(text: &str) -> (r: String)
    ensures
        r@ == stripped_codeblock(text@),
{
    if !str_starts_with(text, FENCE) {
        return to_owned(text);
    }
    let _len = text.unicode_len();
    let w = match find_str_from(text, NEWLINE, 0) {
        Some(i) => {
            proof {
                reveal_strlit("\n");
                assert(NEWLINE@.len() == 1);
                crate::text::lemma_find_from_some(text@, NEWLINE@, 0, i as int);
                assert(i + 1 <= text@.len());
            }
            skip_chars(text, i + 1)
        },
        None => text,
    };
    match rfind_str(w, FENCE) {
        Some(e) => {
            proof {
                lemma_find_last_from_some(w@, FENCE@, w@.len() - FENCE@.len(), e as int);
                assert(w@.take(e as int) =~= w@.subrange(0, e as int));
            }
            to_owned(trim_str(w.substring_char(0, e)))
        },
        None => to_owned(trim_str(w)),
    }
}

// ─── Quick notes ──────────────────────────────────────────────────────────

/// A quick note as the text to extract from: `title`, a blank line and the
/// content; the content alone when the title is blank.
pub open spec fn quick_note_text(title: Seq<char>, content: Seq<char>) -> Seq<char> {
    if trim(title).len() == 0 {
        content
    } else {
        trim(title) + PARAGRAPH_SEP@ + content
    }
}

pub fn format_quick_note_for_extraction(title: &str, content: &str) -> (r: String)
    ensures
        r@ == quick_note_text(title@, content@),
{
    let t = trim_str(title);
    if t.unicode_len() == 0 {
        to_owned(content)
    } else {
        let mut r = to_owned(t);
        r.append(PARAGRAPH_SEP);
        r.append(content);
        r
    }
}

/// The text of the event made from a quick note: the model's summary, else
/// the note's title, else its content (both trimmed), cut to 160 characters.
pub open spec fn quick_summary(summary: Seq<char>, title: Seq<char>, content: Seq<char>) -> Seq<char> {
    if trim(summary).len() > 0 {
        trim(summary)
    } else if trim(title).len() == 0 {
        prefix(trim(content), QUICK_SUMMARY_CHARS as int)
    } else {
        prefix(trim(title), QUICK_SUMMARY_CHARS as int)
    }
}

pub fn quick_event_summary(summary: &str, title: &str, content: &str) -> (r: String)
    ensures
        r@ == quick_summary(summary@, title@, content@),
{
    let s = trim_str(summary);
    if s.unicode_len() > 0 {
        return to_owned(s);
    }
    let t = trim_str(title);
    if t.unicode_len() == 0 {
        take_chars(trim_str(content), QUICK_SUMMARY_CHARS)
    } else {
        take_chars(t, QUICK_SUMMARY_CHARS)
    }
}

pub open spec fn topic_name_pred() -> spec_fn(Seq<char>) -> bool {
    |t: Seq<char>| t.len() > 0
}

/// The topic names of an extraction to link a quick note's event to: each
/// trimmed, the blank ones left out.
pub fn quick_note_topic_names(topics: &Vec<String>) -> (r: Vec<String>)
    ensures
        views(r@) == views(topics@).map_values(|t: Seq<char>| trim(t)).filter(topic_name_pred()),
{
    let ghost trimmed = views(topics@).map_values(|t: Seq<char>| trim(t));
    let ghost p = topic_name_pred();
    let mut out: Vec<String> = Vec::new();
    let mut i: usize = 0;
    assert(trimmed.take(0).filter(p) =~= Seq::<Seq<char>>::empty()) by {
        reveal(Seq::filter);
    }
    while i < topics.len()
        invariant
            0 <= i <= topics.len(),
            p == topic_name_pred(),
            trimmed == views(topics@).map_values(|t: Seq<char>| trim(t)),
            views(out@) == trimmed.take(i as int).filter(p),
        decreases topics.len() - i,
    {
        proof {
            crate::life_chapter::lemma_filter_take_step(trimmed, p, i as int);
        }
        let t = trim_str(topics[i].as_str());
        if t.unicode_len() > 0 {
            let name = to_owned(t);
            let ghost before = out@;
            out.push(name);
            proof {
                crate::text::lemma_views_push(before, name);
            }
        }
        i = i + 1;
    }
    assert(trimmed.take(i as int) =~= trimmed);
    out
}

} // verus!
