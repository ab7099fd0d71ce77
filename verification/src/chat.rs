//! Pieces of the chat engine: the system prompt, the block of retrieved
//! memories, the query text for full-text search, and the message list sent to the model.
use vstd::prelude::*;
use crate::memory::clone_message;
use crate::text::{
    contains_seq, copy_string, ends_with, is_blank, occurs_at, starts_with, join, join_strings, prefix, push_str, take_chars, views,
};
use crate::types::{ChatMessage, ConversationTurn, Event, Topic};

verus! {

pub const SYSTEM_PROMPT_TEMPLATE: &'static str = r#"你是 Growth Companion，一个自然、真诚的 AI 朋友。
你不是咨询师，也不是倾听者——你是一个对用户的生活充满好奇的朋友。

对话风格：
- 像朋友聊天一样自然，不要端着
- 对用户分享的事 genuinely 好奇，会追问细节
- 不会过度安慰，也不会过度分析
- 有自己的判断，但不强加观点
- 温暖但不矫情，直接但不冷漠

追问指引：
- 用户提到新鲜事、变化、重要决定时，自然追问细节
- 用户明显不想展开的话题，不追问
- 追问是为了更好地理解，不是为了收集信息
- 一次只追问一个方向，不要像采访

记住：你的核心价值是"见证"。用户不需要你解决问题，
但需要有人记住他们经历了什么、变化了什么。
"#;

pub const EMOJI_MILESTONE: &'static str = "🏔";
pub const EMOJI_CONFLICT: &'static str = "⚡";
pub const EMOJI_DECISION: &'static str = "🎯";
pub const EMOJI_EMOTION: &'static str = "💭";
pub const EMOJI_OTHER: &'static str = "📌";
pub const TYPE_MILESTONE: &'static str = "milestone";
pub const TYPE_CONFLICT: &'static str = "conflict";
pub const TYPE_DECISION: &'static str = "decision";
pub const TYPE_EMOTION: &'static str = "emotion";
pub const ELLIPSIS: &'static str = "…";
pub const MEMORIES_HEADER: &'static str = "--- 相关历史记忆 ---\n";
pub const EVENTS_HEADER: &'static str = "过往相关事件：\n";
pub const TURNS_HEADER: &'static str = "相关过往对话：\n";
pub const LINE_OPEN: &'static str = "- [";
pub const LINE_DATE_CLOSE: &'static str = "] ";
pub const SPACE: &'static str = " ";
pub const NEWLINE: &'static str = "\n";
pub const EMOTIONS_OPEN: &'static str = " [";
pub const EMOTIONS_SEP: &'static str = ", ";
pub const EMOTIONS_CLOSE: &'static str = "]";
pub const MEMORIES_FOOTER: &'static str = "---";
pub const PART_SEP: &'static str = "\n\n";
pub const ROLE_SYSTEM: &'static str = "system";
pub const ROLE_USER: &'static str = "user";
pub const ROLE_ASSISTANT: &'static str = "assistant";

/// The longest query, in characters, that is handed to full-text search.
pub const MAX_FTS5_QUERY_CHARS: usize = 120;
/// Summaries of past turns are cut to this many characters in the memory block.
pub const MAX_TURN_DISPLAY_CHARS: usize = 150;

/// How many characters of the user's message are searched for in past turns.
pub const RETRIEVAL_KEYWORD_CHARS: usize = 20;

/// How many past turns and recent events are retrieved for a message.
pub const RETRIEVAL_LIMIT: usize = 5;

// ─── Full-text query ──────────────────────────────────────────────────────

/// The characters that full-text search would read as query syntax.
pub open spec fn is_fts5_special(c: char) -> bool {
    c == '"' || c == '*' || c == '(' || c == ')' || c == '-' || c == '^'
}

/// `s` without its query-syntax characters.
pub open spec fn strip_fts5(s: Seq<char>) -> Seq<char>
    decreases s.len(),
{
    if s.len() == 0 {
        Seq::empty()
    } else if is_fts5_special(s.last()) {
        strip_fts5(s.drop_last())
    } else {
        strip_fts5(s.drop_last()).push(s.last())
    }
}

/// The user's text made safe for a full-text query: the syntax characters
/// `" * ( ) - ^` are dropped and at most 120 characters are kept.
pub fn escape_fts5_query(input: &str) -> (r: String)
    ensures
        r@ == prefix(strip_fts5(input@), MAX_FTS5_QUERY_CHARS as int),
{
    let n = input.unicode_len();
    let mut r = String::new();
    let mut kept: usize = 0;
    let mut i: usize = 0;
    while i < n
        invariant
            0 <= i <= n,
            n == input@.len(),
            kept == r@.len(),
            r@ == prefix(strip_fts5(input@.take(i as int)), MAX_FTS5_QUERY_CHARS as int),
        decreases n - i,
    {
        let c = input.get_char(i);
        proof {
            assert(input@.take(i + 1).drop_last() =~= input@.take(i as int));
            assert(input@.take(i + 1).last() == c);
        }
        let special = c == '"' || c == '*' || c == '(' || c == ')' || c == '-' || c == '^';
        if !special && kept < MAX_FTS5_QUERY_CHARS {
            let cs = crate::text::char_string(input, i);
            r.append(cs.as_str());
            kept = kept + 1;
            proof {
                let prev = strip_fts5(input@.take(i as int));
                assert(prev.len() < MAX_FTS5_QUERY_CHARS);
                assert(r@ =~= prev.push(c));
            }
        } else {
            proof {
                let prev = strip_fts5(input@.take(i as int));
                if !special {
                    assert(prefix(prev.push(c), MAX_FTS5_QUERY_CHARS as int) =~= prefix(
                        prev,
                        MAX_FTS5_QUERY_CHARS as int,
                    ));
                }
            }
        }
        i = i + 1;
    }
    assert(input@.take(n as int) =~= input@);
    r
}

// ─── Memory block ─────────────────────────────────────────────────────────

pub open spec fn option_view(o: Option<String>) -> Option<Seq<char>> {
    match o {
        Some(s) => Some(s@),
        None => None,
    }
}

/// The badge of an event type.
pub open spec fn event_type_emoji_spec(event_type: Option<Seq<char>>) -> Seq<char> {
    match event_type {
        Some(t) => if t == TYPE_MILESTONE@ {
            EMOJI_MILESTONE@
        } else if t == TYPE_CONFLICT@ {
            EMOJI_CONFLICT@
        } else if t == TYPE_DECISION@ {
            EMOJI_DECISION@
        } else if t == TYPE_EMOTION@ {
            EMOJI_EMOTION@
        } else {
            EMOJI_OTHER@
        },
        None => EMOJI_OTHER@,
    }
}

/// The emoji badge for an event type.
pub fn event_type_emoji(event_type: &Option<String>) -> (r: &'static str)
    ensures
        r@ == event_type_emoji_spec(option_view(*event_type)),
{
    match event_type {
        Some(t) => {
            let t = t.as_str();
            if crate::text::str_eq(t, TYPE_MILESTONE) {
                EMOJI_MILESTONE
            } else if crate::text::str_eq(t, TYPE_CONFLICT) {
                EMOJI_CONFLICT
            } else if crate::text::str_eq(t, TYPE_DECISION) {
                EMOJI_DECISION
            } else if crate::text::str_eq(t, TYPE_EMOTION) {
                EMOJI_EMOTION
            } else {
                EMOJI_OTHER
            }
        },
        None => EMOJI_OTHER,
    }
}

/// `text` cut to `max_chars` characters, with `…` added when it was cut.
pub open spec fn truncate_for_display_spec(text: Seq<char>, max_chars: int) -> Seq<char> {
    if text.len() <= max_chars {
        text
    } else {
        text.take(max_chars) + ELLIPSIS@
    }
}

pub fn truncate_for_display(text: &str, max_chars: usize) -> (r: String)
    ensures
        r@ == truncate_for_display_spec(text@, max_chars as int),
{
    if text.unicode_len() <= max_chars {
        String::from_str(text)
    } else {
        let mut r = take_chars(text, max_chars);
        r.append(ELLIPSIS);
        r
    }
}

/// ` [a, b]` for a non-empty list of emotions, nothing otherwise.
pub open spec fn emotions_suffix(emotions: Seq<String>) -> Seq<char> {
    if emotions.len() == 0 {
        Seq::empty()
    } else {
        EMOTIONS_OPEN@ + join(views(emotions), EMOTIONS_SEP@) + EMOTIONS_CLOSE@
    }
}

pub fn format_emotions_suffix(emotions: &Vec<String>) -> (r: String)
    ensures
        r@ == emotions_suffix(emotions@),
{
    if emotions.len() == 0 {
        String::new()
    } else {
        let mut r = String::from_str(EMOTIONS_OPEN);
        r.append(join_strings(emotions, EMOTIONS_SEP).as_str());
        r.append(EMOTIONS_CLOSE);
        r
    }
}

pub open spec fn event_memory_line(e: Event) -> Seq<char> {
    LINE_OPEN@ + prefix(e.created_at@, 10) + LINE_DATE_CLOSE@ + event_type_emoji_spec(
        option_view(e.event_type),
    ) + SPACE@ + e.content@ + emotions_suffix(e.emotions@) + NEWLINE@
}

pub open spec fn event_memory_lines(es: Seq<Event>) -> Seq<char>
    decreases es.len(),
{
    if es.len() == 0 {
        Seq::empty()
    } else {
        event_memory_lines(es.drop_last()) + event_memory_line(es.last())
    }
}

pub open spec fn turn_memory_line(t: ConversationTurn) -> Seq<char> {
    LINE_OPEN@ + prefix(t.created_at@, 10) + LINE_DATE_CLOSE@ + truncate_for_display_spec(
        t.summary@,
        MAX_TURN_DISPLAY_CHARS as int,
    ) + NEWLINE@
}

pub open spec fn turn_memory_lines(ts: Seq<ConversationTurn>) -> Seq<char>
    decreases ts.len(),
{
    if ts.len() == 0 {
        Seq::empty()
    } else {
        turn_memory_lines(ts.drop_last()) + turn_memory_line(ts.last())
    }
}

/// The block of retrieved memories: past events first, then past conversations.
pub open spec fn retrieved_memories_spec(turns: Seq<ConversationTurn>, events: Seq<Event>) -> Option<
    Seq<char>,
> {
    if turns.len() == 0 && events.len() == 0 {
        None
    } else {
        let ev = if events.len() > 0 {
            EVENTS_HEADER@ + event_memory_lines(events) + NEWLINE@
        } else {
            Seq::empty()
        };
        let tv = if turns.len() > 0 {
            TURNS_HEADER@ + turn_memory_lines(turns)
        } else {
            Seq::empty()
        };
        Some(MEMORIES_HEADER@ + ev + tv + MEMORIES_FOOTER@)
    }
}

/// Retrieval gives no block exactly when it found neither turns nor events;
/// a block opens with its header, ends with its footer, and holds the part
/// for events when there are events and the part for turns when there are turns.
pub proof fn lemma_retrieved_memories_shape(turns: Seq<ConversationTurn>, events: Seq<Event>)
    ensures
        retrieved_memories_spec(turns, events) is None <==> (turns.len() == 0 && events.len() == 0),
        retrieved_memories_spec(turns, events) matches Some(b) ==> {
            &&& starts_with(b, MEMORIES_HEADER@)
            &&& ends_with(b, MEMORIES_FOOTER@)
            &&& events.len() > 0 ==> contains_seq(b, EVENTS_HEADER@)
            &&& turns.len() > 0 ==> contains_seq(b, TURNS_HEADER@)
        },
{
    if let Some(b) = retrieved_memories_spec(turns, events) {
        let h = MEMORIES_HEADER@;
        let ev = if events.len() > 0 {
            EVENTS_HEADER@ + event_memory_lines(events) + NEWLINE@
        } else {
            Seq::empty()
        };
        let tv = if turns.len() > 0 {
            TURNS_HEADER@ + turn_memory_lines(turns)
        } else {
            Seq::empty()
        };
        assert(b == h + ev + tv + MEMORIES_FOOTER@);
        assert(b.take(h.len() as int) =~= h);
        assert(b.skip(b.len() - MEMORIES_FOOTER@.len()) =~= MEMORIES_FOOTER@);
        if events.len() > 0 {
            assert(occurs_at(b, EVENTS_HEADER@, h.len() as int)) by {
                assert(b.subrange(h.len() as int, (h.len() + EVENTS_HEADER@.len()) as int) =~= EVENTS_HEADER@);
            }
        }
        if turns.len() > 0 {
            let k = (h.len() + ev.len()) as int;
            assert(occurs_at(b, TURNS_HEADER@, k)) by {
                assert(b.subrange(k, k + TURNS_HEADER@.len()) =~= TURNS_HEADER@);
            }
        }
    }
}

fn format_event_memory_line(event: &Event) -> (r: String)
    ensures
        r@ == event_memory_line(*event),
{
    let date = take_chars(event.created_at.as_str(), 10);
    let emoji = event_type_emoji(&event.event_type);
    let emotions = format_emotions_suffix(&event.emotions);
    let mut r = String::from_str(LINE_OPEN);
    r.append(date.as_str());
    r.append(LINE_DATE_CLOSE);
    r.append(emoji);
    r.append(SPACE);
    r.append(event.content.as_str());
    r.append(emotions.as_str());
    r.append(NEWLINE);
    r
}

fn format_turn_memory_line(turn: &ConversationTurn) -> (r: String)
    ensures
        r@ == turn_memory_line(*turn),
{
    let date = take_chars(turn.created_at.as_str(), 10);
    let summary = truncate_for_display(turn.summary.as_str(), MAX_TURN_DISPLAY_CHARS);
    let mut r = String::from_str(LINE_OPEN);
    r.append(date.as_str());
    r.append(LINE_DATE_CLOSE);
    r.append(summary.as_str());
    r.append(NEWLINE);
    r
}

/// The retrieved memories as a prompt block, or `None` when nothing was retrieved.
pub fn format_retrieved_memories(fts5_turns: &Vec<ConversationTurn>, related_events: &Vec<Event>) -> (r:
    Option<String>)
    ensures
        option_view(r) == retrieved_memories_spec(fts5_turns@, related_events@),
{
    if fts5_turns.len() == 0 && related_events.len() == 0 {
        return None;
    }
    let mut block = String::from_str(MEMORIES_HEADER);
    let ghost start = block@;
    if related_events.len() > 0 {
        block.append(EVENTS_HEADER);
        let ghost base = block@;
        let mut i: usize = 0;
        while i < related_events.len()
            invariant
                0 <= i <= related_events.len(),
                block@ == base + event_memory_lines(related_events@.take(i as int)),
            decreases related_events.len() - i,
        {
            let line = format_event_memory_line(&related_events[i]);
            block.append(line.as_str());
            proof {
                assert(related_events@.take(i + 1).drop_last() =~= related_events@.take(i as int));
                assert(block@ =~= base + event_memory_lines(related_events@.take(i + 1)));
            }
            i = i + 1;
        }
        assert(related_events@.take(related_events.len() as int) =~= related_events@);
        block.append(NEWLINE);
    }
    let ghost mid = block@;
    if fts5_turns.len() > 0 {
        block.append(TURNS_HEADER);
        let ghost base = block@;
        let mut i: usize = 0;
        while i < fts5_turns.len()
            invariant
                0 <= i <= fts5_turns.len(),
                block@ == base + turn_memory_lines(fts5_turns@.take(i as int)),
            decreases fts5_turns.len() - i,
        {
            let line = format_turn_memory_line(&fts5_turns[i]);
            block.append(line.as_str());
            proof {
                assert(fts5_turns@.take(i + 1).drop_last() =~= fts5_turns@.take(i as int));
                assert(block@ =~= base + turn_memory_lines(fts5_turns@.take(i + 1)));
            }
            i = i + 1;
        }
        assert(fts5_turns@.take(fts5_turns.len() as int) =~= fts5_turns@);
    }
    block.append(MEMORIES_FOOTER);
    proof {
        let spec = retrieved_memories_spec(fts5_turns@, related_events@);
        assert(spec matches Some(v) && v =~= block@);
    }
    Some(block)
}

// ─── System prompt and messages ───────────────────────────────────────────

/// The system prompt: the companion's persona, then the core memory block
/// when it is not empty, then the retrieved memories when there are any.
pub open spec fn system_prompt_spec(memory_block: Seq<char>, retrieved: Option<Seq<char>>) -> Seq<char> {
    let p = seq![SYSTEM_PROMPT_TEMPLATE@];
    let p = if memory_block.len() > 0 {
        p.push(memory_block)
    } else {
        p
    };
    let p = match retrieved {
        Some(r) => if r.len() > 0 {
            p.push(r)
        } else {
            p
        },
        None => p,
    };
    join(p, PART_SEP@)
}

/// The system prompt is the persona, then, each after a blank line, the core
/// memory block when it is not empty and the retrieved memories when there
/// are any; each is there whatever the other holds.
pub proof fn lemma_system_prompt_layout(memory_block: Seq<char>, retrieved: Option<Seq<char>>)
    ensures
        ({
            let p = system_prompt_spec(memory_block, retrieved);
            let m = if memory_block.len() > 0 {
                PART_SEP@ + memory_block
            } else {
                Seq::empty()
            };
            let r = match retrieved {
                Some(x) => if x.len() > 0 {
                    PART_SEP@ + x
                } else {
                    Seq::empty()
                },
                None => Seq::empty(),
            };
            &&& p == SYSTEM_PROMPT_TEMPLATE@ + m + r
            &&& starts_with(p, SYSTEM_PROMPT_TEMPLATE@)
            &&& memory_block.len() > 0 ==> contains_seq(p, memory_block)
            &&& retrieved matches Some(x) ==> (x.len() > 0 ==> contains_seq(p, x))
        }),
{
    let t = SYSTEM_PROMPT_TEMPLATE@;
    let p0 = seq![t];
    let p1 = if memory_block.len() > 0 {
        p0.push(memory_block)
    } else {
        p0
    };
    let m = if memory_block.len() > 0 {
        PART_SEP@ + memory_block
    } else {
        Seq::empty()
    };
    crate::text::lemma_join_push(Seq::empty(), PART_SEP@, t);
    assert(Seq::<Seq<char>>::empty().push(t) =~= p0);
    crate::text::lemma_join_push(p0, PART_SEP@, memory_block);
    assert(join(p1, PART_SEP@) =~= t + m);
    if let Some(x) = retrieved {
        if x.len() > 0 {
            crate::text::lemma_join_push(p1, PART_SEP@, x);
            assert(join(p1.push(x), PART_SEP@) =~= t + m + (PART_SEP@ + x));
            crate::text::lemma_contains_middle(t + m + PART_SEP@, x, Seq::empty());
            assert(t + m + PART_SEP@ + x + Seq::<char>::empty() =~= t + m + (PART_SEP@ + x));
        } else {
            assert(t + m + Seq::<char>::empty() =~= t + m);
        }
    } else {
        assert(t + m + Seq::<char>::empty() =~= t + m);
    }
    let p = system_prompt_spec(memory_block, retrieved);
    let r = match retrieved {
        Some(x) => if x.len() > 0 {
            PART_SEP@ + x
        } else {
            Seq::empty()
        },
        None => Seq::empty(),
    };
    assert(p.take(t.len() as int) =~= t);
    if memory_block.len() > 0 {
        crate::text::lemma_contains_middle(t + PART_SEP@, memory_block, r);
        assert(t + PART_SEP@ + memory_block + r =~= t + m + r);
    }
}

/// Builds the system prompt from the formatted core memory block
/// (see `format_memory_for_prompt`) and the retrieved memories.
pub fn build_system_prompt(memory_block: &str, retrieved_memories: Option<&str>) -> (r: String)
    ensures
        r@ == system_prompt_spec(
            memory_block@,
            match retrieved_memories {
                Some(s) => Some(s@),
                None => None,
            },
        ),
{
    let mut parts: Vec<String> = Vec::new();
    parts.push(String::from_str(SYSTEM_PROMPT_TEMPLATE));
    if memory_block.unicode_len() > 0 {
        parts.push(String::from_str(memory_block));
    }
    match retrieved_memories {
        Some(retrieved) => {
            if retrieved.unicode_len() > 0 {
                parts.push(String::from_str(retrieved));
            }
        },
        None => {},
    }
    proof {
        let spec_parts = {
            let p = seq![SYSTEM_PROMPT_TEMPLATE@];
            let p = if memory_block@.len() > 0 {
                p.push(memory_block@)
            } else {
                p
            };
            match retrieved_memories {
                Some(r) => if r@.len() > 0 {
                    p.push(r@)
                } else {
                    p
                },
                None => p,
            }
        };
        assert(views(parts@) =~= spec_parts);
    }
    join_strings(&parts, PART_SEP)
}

pub open spec fn message_is(m: ChatMessage, role: Seq<char>, content: Seq<char>) -> bool {
    m.role@ == role && m.content@ == content
}

/// The messages of one model call: the system prompt, the kept history, then the user's message.
pub fn build_chat_messages(system_prompt: String, history: &Vec<ChatMessage>, user_message: &str) -> (r:
    Vec<ChatMessage>)
    ensures
        r.len() == history.len() + 2,
        message_is(r@[0], ROLE_SYSTEM@, system_prompt@),
        forall|i: int|
            0 <= i < history.len() ==> message_is(
                #[trigger] r@[i + 1],
                history@[i].role@,
                history@[i].content@,
            ),
        message_is(r@[history.len() + 1], ROLE_USER@, user_message@),
{
    let mut r: Vec<ChatMessage> = Vec::new();
    r.push(ChatMessage { role: String::from_str(ROLE_SYSTEM), content: system_prompt });
    let mut i: usize = 0;
    while i < history.len()
        invariant
            0 <= i <= history.len(),
            r.len() == i + 1,
            message_is(r@[0], ROLE_SYSTEM@, system_prompt@),
            forall|k: int|
                0 <= k < i ==> message_is(#[trigger] r@[k + 1], history@[k].role@, history@[k].content@),
        decreases history.len() - i,
    {
        r.push(clone_message(&history[i]));
        i = i + 1;
    }
    r.push(ChatMessage { role: String::from_str(ROLE_USER), content: String::from_str(user_message) });
    r
}

/// The history after one exchange: the previous messages, the user's message, and the reply.
pub fn append_exchange(history: &Vec<ChatMessage>, user_message: &str, ai_reply: &str) -> (r: Vec<
    ChatMessage,
>)
    ensures
        r.len() == history.len() + 2,
        forall|i: int|
            0 <= i < history.len() ==> message_is(
                #[trigger] r@[i],
                history@[i].role@,
                history@[i].content@,
            ),
        message_is(r@[history.len() as int], ROLE_USER@, user_message@),
        message_is(r@[history.len() + 1], ROLE_ASSISTANT@, ai_reply@),
{
    let mut r: Vec<ChatMessage> = Vec::new();
    let mut i: usize = 0;
    while i < history.len()
        invariant
            0 <= i <= history.len(),
            r.len() == i,
            forall|k: int|
                0 <= k < i ==> message_is(#[trigger] r@[k], history@[k].role@, history@[k].content@),
        decreases history.len() - i,
    {
        r.push(clone_message(&history[i]));
        i = i + 1;
    }
    r.push(ChatMessage { role: String::from_str(ROLE_USER), content: String::from_str(user_message) });
    r.push(ChatMessage { role: String::from_str(ROLE_ASSISTANT), content: String::from_str(ai_reply) });
    r
}


/// The text searched for in past conversations: the first twenty characters
/// of the user's message.
pub fn retrieval_keyword(user_message: &str) -> (r: String)
    ensures
        r@ == prefix(user_message@, RETRIEVAL_KEYWORD_CHARS as int),
{
    take_chars(user_message, RETRIEVAL_KEYWORD_CHARS)
}

// ─── Topics named by an exchange ─────────────────────────────────────────

/// What remembering an event under a topic name does to the topics: a known
/// topic is mentioned once more; an unknown name becomes a new topic,
/// mentioned once. Either way the event is then linked to the topic.
#[derive(Debug, Clone, PartialEq, Eq)]
pub enum TopicLinkAction {
    /// Set the known topic's mention count to `mention_count` and link to it.
    Touch { topic_id: String, mention_count: u32 },
    /// Store `topic` and link to it.
    Create { topic: Topic },
}

/// The step for topic name `name`, given the stored topic of that name (if
/// any) and the id to give a new topic.
pub fn topic_link_action(existing: Option<&Topic>, name: &str, new_id: String) -> (r: TopicLinkAction)
    requires
        existing matches Some(t) ==> t.mention_count < u32::MAX,
    ensures
        match existing {
            Some(t) => r matches TopicLinkAction::Touch { topic_id, mention_count } && topic_id@ == t.id@
                && mention_count == t.mention_count + 1,
            None => r matches TopicLinkAction::Create { topic } && topic.id@ == new_id@
                && topic.name@ == name@ && topic.description@.len() == 0 && topic.first_mentioned is None
                && topic.last_mentioned is None && topic.mention_count == 1,
        },
{
    match existing {
        Some(t) => TopicLinkAction::Touch { topic_id: copy_string(&t.id), mention_count: t.mention_count + 1 },
        None => TopicLinkAction::Create {
            topic: Topic {
                id: new_id,
                name: String::from_str(name),
                description: String::new(),
                first_mentioned: None,
                last_mentioned: None,
                mention_count: 1,
            },
        },
    }
}

} // verus!
