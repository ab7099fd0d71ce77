//! The diary's view of past memories: the keywords a day's material offers
//! for finding related memories, and how related memories are shown to the
//! model.
use vstd::prelude::*;
use crate::life_chapter::{first_n, lemma_filter_take_step};
use crate::text::{copy_string, join, prefix, seq_lt, str_eq, str_lt, take_chars, to_owned, views};
use crate::types::{str_len, ConversationTurn, Event};

verus! {

/// How many related memories are returned when the caller gives no cap.
pub const DEFAULT_MAX_RESULTS: usize = 5;

/// How many characters of a text make a keyword anchor.
pub const ANCHOR_CHARS: usize = 15;

/// Anchors that agree on this many first characters count as one.
pub const ANCHOR_KEY_CHARS: usize = 4;

/// How many anchors are searched for at most.
pub const MAX_ANCHORS: usize = 8;

pub const MEMORIES_HEADER: &'static str = "--- 可能相关的过往记忆 ---\n";

pub const MEMORIES_INSTRUCTION: &'static str = "这些记忆可能与今天有关。只有当联系自然、能被材料支持时才写进日记；不要硬凑因果。\n\n";

pub const MEMORIES_FOOTER: &'static str = "---\n";

pub const LINE_OPEN: &'static str = "- [";

pub const LINE_DATE_CLOSE: &'static str = "] ";

pub const REASON_OPEN: &'static str = " (";

pub const REASON_CLOSE: &'static str = ")\n";

/// What a search for memories related to one diary day starts from.
pub struct DiaryMemoryQuery<'a> {
    pub user_id: &'a str,
    /// The diary's date, `YYYY-MM-DD` in local time.
    pub diary_date: &'a str,
    /// The day's events already gathered for the diary.
    pub day_events: &'a [Event],
    /// The day's conversation turns already gathered for the diary.
    pub day_turns: &'a [ConversationTurn],
    /// The day's notes, `(title, content)`.
    pub day_notes: &'a [(String, String)],
    /// How many related memories to return at most (0 for the default).
    pub max_results: usize,
}

/// A past memory shown beside a day's material. Its relevance score is kept
/// by the caller that ranks memories.
#[derive(Debug, Clone, PartialEq, Eq)]
pub struct RelatedDiaryMemory {
    /// The event the memory came from, when it came from one.
    pub event_id: Option<String>,
    /// The memory's date, `YYYY-MM-DD`.
    pub date: String,
    pub content: String,
    /// Why the memory was chosen, such as `topic: career`.
    pub reason: String,
}

/// The number of memories to return for a cap of `max_results`.
pub fn result_cap(max_results: usize) -> (r: usize)
    ensures
        r == if max_results == 0 {
            DEFAULT_MAX_RESULTS
        } else {
            max_results
        },
{
    if max_results == 0 {
        DEFAULT_MAX_RESULTS
    } else {
        max_results
    }
}

/// The date part of a timestamp: its first ten characters.
pub fn extract_date(timestamp: &str) -> (r: String)
    ensures
        r@ == prefix(timestamp@, 10),
{
    take_chars(timestamp, 10)
}

// ─── Showing related memories ─────────────────────────────────────────────

pub open spec fn memory_line(m: RelatedDiaryMemory) -> Seq<char> {
    LINE_OPEN@ + m.date@ + LINE_DATE_CLOSE@ + m.content@ + REASON_OPEN@ + m.reason@ + REASON_CLOSE@
}

pub open spec fn memory_lines(ms: Seq<RelatedDiaryMemory>) -> Seq<char>
    decreases ms.len(),
{
    if ms.len() == 0 {
        Seq::empty()
    } else {
        memory_lines(ms.drop_last()) + memory_line(ms.last())
    }
}

/// The prompt section that shows related memories; none when there are none.
pub open spec fn related_memories_section(ms: Seq<RelatedDiaryMemory>) -> Option<Seq<char>> {
    if ms.len() == 0 {
        None
    } else {
        Some(MEMORIES_HEADER@ + MEMORIES_INSTRUCTION@ + memory_lines(ms) + MEMORIES_FOOTER@)
    }
}

pub fn format_related_memories_for_prompt(memories: &[RelatedDiaryMemory]) -> (r: Option<String>)
    ensures
        match (r, related_memories_section(memories@)) {
            (Some(a), Some(b)) => a@ == b,
            (None, None) => true,
            _ => false,
        },
{
    if memories.len() == 0 {
        return None;
    }
    let mut block = to_owned(MEMORIES_HEADER);
    block.append(MEMORIES_INSTRUCTION);
    let mut i: usize = 0;
    assert(memories@.take(0) =~= Seq::<RelatedDiaryMemory>::empty());
    while i < memories.len()
        invariant
            0 <= i <= memories@.len(),
            block@ == MEMORIES_HEADER@ + MEMORIES_INSTRUCTION@ + memory_lines(memories@.take(i as int)),
        decreases memories@.len() - i,
    {
        let m = &memories[i];
        block.append(LINE_OPEN);
        block.append(m.date.as_str());
        block.append(LINE_DATE_CLOSE);
        block.append(m.content.as_str());
        block.append(REASON_OPEN);
        block.append(m.reason.as_str());
        block.append(REASON_CLOSE);
        proof {
            assert(memories@.take(i + 1).drop_last() =~= memories@.take(i as int));
            assert(memories@.take(i + 1).last() == memories@[i as int]);
        }
        i = i + 1;
    }
    assert(memories@.take(i as int) =~= memories@);
    block.append(MEMORIES_FOOTER);
    Some(block)
}

// ─── Keyword anchors ──────────────────────────────────────────────────────

/// An anchor worth searching for: at least two bytes long.
pub open spec fn anchor_pred() -> spec_fn(Seq<char>) -> bool {
    |a: Seq<char>| str_len(a) >= 2
}

/// The anchors that texts offer: the first fifteen characters of each, kept
/// when at least two bytes long.
pub open spec fn anchors_of(texts: Seq<Seq<char>>) -> Seq<Seq<char>> {
    texts.map_values(|t: Seq<char>| prefix(t, ANCHOR_CHARS as int)).filter(anchor_pred())
}

/// `s` with `x` placed after the texts that do not come after it.
pub open spec fn insert_sorted(s: Seq<Seq<char>>, x: Seq<char>) -> Seq<Seq<char>>
    decreases s.len(),
{
    if s.len() == 0 {
        seq![x]
    } else if seq_lt(x, s[0]) {
        seq![x] + s
    } else {
        seq![s[0]] + insert_sorted(s.drop_first(), x)
    }
}

/// `s` in ascending order (`slice::sort` of strings).
pub open spec fn sorted_texts(s: Seq<Seq<char>>) -> Seq<Seq<char>>
    decreases s.len(),
{
    if s.len() == 0 {
        s
    } else {
        insert_sorted(sorted_texts(s.drop_last()), s.last())
    }
}

/// `s` without each text whose first four characters are those of the text
/// kept before it (`dedup_by` on that key).
pub open spec fn dedup_by_key4(s: Seq<Seq<char>>) -> Seq<Seq<char>>
    decreases s.len(),
{
    if s.len() == 0 {
        s
    } else {
        let d = dedup_by_key4(s.drop_last());
        if d.len() > 0 && prefix(d.last(), ANCHOR_KEY_CHARS as int) == prefix(
            s.last(),
            ANCHOR_KEY_CHARS as int,
        ) {
            d
        } else {
            d.push(s.last())
        }
    }
}

/// The anchors of a day: from its events' contents, its turns' summaries and
/// its notes' titles, sorted, one per four-character key, eight at most.
pub open spec fn keyword_anchors(
    events: Seq<Event>,
    turns: Seq<ConversationTurn>,
    notes: Seq<(String, String)>,
) -> Seq<Seq<char>> {
    let raw = anchors_of(events.map_values(|e: Event| e.content@)) + anchors_of(
        turns.map_values(|t: ConversationTurn| t.summary@),
    ) + anchors_of(notes.map_values(|n: (String, String)| n.0@));
    first_n(dedup_by_key4(sorted_texts(raw)), MAX_ANCHORS as int)
}

fn push_anchors(out: &mut Vec<String>, texts: &Vec<String>)
    ensures
        views(final(out)@) == views(old(out)@) + anchors_of(views(texts@)),
{
    let ghost start = views(out@);
    let ghost cut = views(texts@).map_values(|t: Seq<char>| prefix(t, ANCHOR_CHARS as int));
    let ghost p = anchor_pred();
    let mut i: usize = 0;
    assert(cut.take(0).filter(p) =~= Seq::<Seq<char>>::empty()) by {
        reveal(Seq::filter);
    }
    assert(start + Seq::<Seq<char>>::empty() =~= start);
    while i < texts.len()
        invariant
            0 <= i <= texts.len(),
            p == anchor_pred(),
            cut == views(texts@).map_values(|t: Seq<char>| prefix(t, ANCHOR_CHARS as int)),
            views(out@) == start + cut.take(i as int).filter(p),
        decreases texts.len() - i,
    {
        proof {
            lemma_filter_take_step(cut, p, i as int);
        }
        let a = take_chars(texts[i].as_str(), ANCHOR_CHARS);
        proof {
            assert(cut[i as int] == a@);
        }
        if a.as_str().len() >= 2 {
            let ghost before = out@;
            out.push(a);
            proof {
                crate::text::lemma_views_push(before, a);
                assert(start + cut.take(i as int).filter(p).push(a@) =~= (start + cut.take(
                    i as int,
                ).filter(p)).push(a@));
            }
        }
        i = i + 1;
    }
    assert(cut.take(i as int) =~= cut);
}

proof fn lemma_insert_sorted_at(s: Seq<Seq<char>>, x: Seq<char>, p: int)
    requires
        0 <= p <= s.len(),
        forall|k: int| 0 <= k < p ==> !seq_lt(x, #[trigger] s[k]),
        p < s.len() ==> seq_lt(x, s[p]),
    ensures
        insert_sorted(s, x) == s.take(p).push(x) + s.skip(p),
    decreases p,
{
    if p == 0 {
        if s.len() == 0 {
            assert(s.take(0).push(x) + s.skip(0) =~= seq![x]);
        } else {
            assert(s.take(0).push(x) + s.skip(0) =~= seq![x] + s);
        }
    } else {
        let t = s.drop_first();
        assert forall|k: int| 0 <= k < p - 1 implies !seq_lt(x, #[trigger] t[k]) by {
            assert(t[k] == s[k + 1]);
        }
        if p < s.len() {
            assert(t[p - 1] == s[p]);
        }
        lemma_insert_sorted_at(t, x, p - 1);
        assert(!seq_lt(x, s[0]));
        assert(seq![s[0]] + (t.take(p - 1).push(x) + t.skip(p - 1)) =~= s.take(p).push(x) + s.skip(p));
    }
}

fn sort_texts(v: &Vec<String>) -> (r: Vec<String>)
    ensures
        views(r@) == sorted_texts(views(v@)),
{
    let mut out: Vec<String> = Vec::new();
    let mut i: usize = 0;
    while i < v.len()
        invariant
            0 <= i <= v.len(),
            views(out@) == sorted_texts(views(v@).take(i as int)),
        decreases v.len() - i,
    {
        let x = v[i].as_str();
        let mut pos: usize = 0;
        while pos < out.len() && !str_lt(x, out[pos].as_str())
            invariant
                0 <= pos <= out@.len(),
                forall|k: int| 0 <= k < pos ==> !seq_lt(x@, #[trigger] views(out@)[k]),
            decreases out@.len() - pos,
        {
            pos = pos + 1;
        }
        proof {
            lemma_insert_sorted_at(views(out@), x@, pos as int);
            assert(views(v@).take(i + 1).drop_last() =~= views(v@).take(i as int));
            assert(views(v@).take(i + 1).last() == x@);
        }
        let ghost before = out@;
        let s = to_owned(x);
        out.insert(pos, s);
        proof {
            assert(views(out@) =~= views(before).take(pos as int).push(x@) + views(before).skip(pos as int));
        }
        i = i + 1;
    }
    assert(views(v@).take(i as int) =~= views(v@));
    out
}

fn dedup_anchors(v: &Vec<String>) -> (r: Vec<String>)
    ensures
        views(r@) == dedup_by_key4(views(v@)),
{
    let mut out: Vec<String> = Vec::new();
    let mut i: usize = 0;
    while i < v.len()
        invariant
            0 <= i <= v.len(),
            views(out@) == dedup_by_key4(views(v@).take(i as int)),
        decreases v.len() - i,
    {
        proof {
            assert(views(v@).take(i + 1).drop_last() =~= views(v@).take(i as int));
            assert(views(v@).take(i + 1).last() == v@[i as int]@);
        }
        let key = take_chars(v[i].as_str(), ANCHOR_KEY_CHARS);
        let same = if out.len() > 0 {
            let last_key = take_chars(out[out.len() - 1].as_str(), ANCHOR_KEY_CHARS);
            str_eq(last_key.as_str(), key.as_str())
        } else {
            false
        };
        if !same {
            let a = copy_string(&v[i]);
            let ghost before = out@;
            out.push(a);
            proof {
                crate::text::lemma_views_push(before, a);
            }
        }
        i = i + 1;
    }
    assert(views(v@).take(i as int) =~= views(v@));
    out
}

/// The keyword anchors that a day's material offers for finding related
/// memories.
pub fn extract_keyword_anchors(query: &DiaryMemoryQuery) -> (r: Vec<String>)
    ensures
        views(r@) == keyword_anchors(query.day_events@, query.day_turns@, query.day_notes@),
{
    let mut texts: Vec<String> = Vec::new();
    let mut i: usize = 0;
    while i < query.day_events.len()
        invariant
            0 <= i <= query.day_events@.len(),
            views(texts@) =~= Seq::new(i as nat, |k: int| query.day_events@[k].content@),
        decreases query.day_events@.len() - i,
    {
        let t = copy_string(&query.day_events[i].content);
        let ghost before = texts@;
        texts.push(t);
        proof {
            crate::text::lemma_views_push(before, t);
        }
        i = i + 1;
    }
    let mut raw: Vec<String> = Vec::new();
    assert(views(texts@) =~= query.day_events@.map_values(|e: Event| e.content@));
    push_anchors(&mut raw, &texts);
    let mut texts: Vec<String> = Vec::new();
    let mut i: usize = 0;
    while i < query.day_turns.len()
        invariant
            0 <= i <= query.day_turns@.len(),
            views(texts@) =~= Seq::new(i as nat, |k: int| query.day_turns@[k].summary@),
        decreases query.day_turns@.len() - i,
    {
        let t = copy_string(&query.day_turns[i].summary);
        let ghost before = texts@;
        texts.push(t);
        proof {
            crate::text::lemma_views_push(before, t);
        }
        i = i + 1;
    }
    assert(views(texts@) =~= query.day_turns@.map_values(|t: ConversationTurn| t.summary@));
    push_anchors(&mut raw, &texts);
    let mut texts: Vec<String> = Vec::new();
    let mut i: usize = 0;
    while i < query.day_notes.len()
        invariant
            0 <= i <= query.day_notes@.len(),
            views(texts@) =~= Seq::new(i as nat, |k: int| query.day_notes@[k].0@),
        decreases query.day_notes@.len() - i,
    {
        let t = copy_string(&query.day_notes[i].0);
        let ghost before = texts@;
        texts.push(t);
        proof {
            crate::text::lemma_views_push(before, t);
        }
        i = i + 1;
    }
    assert(views(texts@) =~= query.day_notes@.map_values(|n: (String, String)| n.0@));
    push_anchors(&mut raw, &texts);
    let sorted = sort_texts(&raw);
    let mut anchors = dedup_anchors(&sorted);
    let ghost all = anchors@;
    anchors.truncate(MAX_ANCHORS);
    proof {
        if MAX_ANCHORS <= all.len() {
            assert(views(anchors@) =~= first_n(views(all), MAX_ANCHORS as int));
        } else {
            assert(views(anchors@) =~= views(all));
        }
    }
    anchors
}

// ─── Gathering related memories ───────────────────────────────────────────

/// The reason shown for a memory found through a topic, before the topic's name.
pub const TOPIC_REASON_PREFIX: &'static str = "topic: ";

/// The reason shown for a past event found through a keyword.
pub const KEYWORD_EVENT_REASON: &'static str = "keyword match";

/// The reason shown for a past conversation found through a keyword.
pub const KEYWORD_TURN_REASON: &'static str = "keyword conversation";

/// The reason shown for a recent important event, the fallback.
pub const RECENT_REASON: &'static str = "recent important";

/// A related memory and where it came from: `layer` is 1 for an event found
/// through a topic, 2 for an event found through a keyword, 3 for a
/// conversation found through a keyword, 4 for a recent important event, and
/// `index` is its position in that layer's records.
#[derive(Debug, Clone, PartialEq, Eq)]
pub struct RelatedCandidate {
    pub memory: RelatedDiaryMemory,
    pub layer: usize,
    pub index: usize,
}

/// The positions `i < n` of `ids` whose id is in neither `before` nor
/// `ids[..i]`: each id once, where it first occurs.
pub open spec fn fresh_indices(ids: Seq<Seq<char>>, before: Seq<Seq<char>>, n: int) -> Seq<int>
    decreases n,
{
    if n <= 0 {
        Seq::empty()
    } else {
        let p = fresh_indices(ids, before, n - 1);
        if before.contains(ids[n - 1]) || ids.take(n - 1).contains(ids[n - 1]) {
            p
        } else {
            p.push(n - 1)
        }
    }
}

pub open spec fn topic_hit_ids(hits: Seq<(Event, String)>) -> Seq<Seq<char>> {
    Seq::new(hits.len(), |i: int| hits[i].0.id@)
}

pub open spec fn event_ids(events: Seq<Event>) -> Seq<Seq<char>> {
    Seq::new(events.len(), |i: int| events[i].id@)
}

/// The layers and positions of the gathered memories, in order: the events
/// found through topics (each event once); then, while fewer than `max`, the
/// events found through keywords that were not found already; then, while
/// still fewer than `max`, the conversations found through keywords; and the
/// recent important events only when nothing else was found.
pub open spec fn related_picks(
    hits: Seq<(Event, String)>,
    keyword_events: Seq<Event>,
    keyword_turns: Seq<ConversationTurn>,
    recent: Seq<Event>,
    max: int,
) -> Seq<(int, int)> {
    let a = fresh_indices(topic_hit_ids(hits), Seq::empty(), hits.len() as int).map_values(
        |i: int| (1int, i),
    );
    let b = fresh_indices(event_ids(keyword_events), topic_hit_ids(hits), keyword_events.len() as int)
        .map_values(|i: int| (2int, i));
    let c = Seq::new(keyword_turns.len(), |i: int| (3int, i));
    let d = Seq::new(recent.len(), |i: int| (4int, i));
    let ab = if a.len() < max {
        a + b
    } else {
        a
    };
    let abc = if ab.len() < max {
        ab + c
    } else {
        ab
    };
    if abc.len() == 0 {
        d
    } else {
        abc
    }
}

/// `m` shows event `e` with `reason`.
pub open spec fn shows_event(m: RelatedDiaryMemory, e: Event, reason: Seq<char>) -> bool {
    &&& m.event_id matches Some(id) && id@ == e.id@
    &&& m.date@ == prefix(e.created_at@, 10)
    &&& m.content@ == e.content@
    &&& m.reason@ == reason
}

/// `m` shows conversation `t`.
pub open spec fn shows_turn(m: RelatedDiaryMemory, t: ConversationTurn) -> bool {
    &&& m.event_id is None
    &&& m.date@ == prefix(t.created_at@, 10)
    &&& m.content@ == t.summary@
    &&& m.reason@ == KEYWORD_TURN_REASON@
}

/// `c` is the memory that pick `p` names.
pub open spec fn is_pick(
    c: RelatedCandidate,
    p: (int, int),
    hits: Seq<(Event, String)>,
    keyword_events: Seq<Event>,
    keyword_turns: Seq<ConversationTurn>,
    recent: Seq<Event>,
) -> bool {
    &&& c.layer == p.0
    &&& c.index == p.1
    &&& if p.0 == 1 {
        shows_event(c.memory, hits[p.1].0, TOPIC_REASON_PREFIX@ + hits[p.1].1@)
    } else if p.0 == 2 {
        shows_event(c.memory, keyword_events[p.1], KEYWORD_EVENT_REASON@)
    } else if p.0 == 3 {
        shows_turn(c.memory, keyword_turns[p.1])
    } else {
        shows_event(c.memory, recent[p.1], RECENT_REASON@)
    }
}

/// Whether `id` is among `ids`.
fn id_among(ids: &Vec<String>, id: &str) -> (r: bool)
    ensures
        r == views(ids@).contains(id@),
{
    let mut i: usize = 0;
    while i < ids.len()
        invariant
            0 <= i <= ids.len(),
            forall|j: int| 0 <= j < i ==> ids@[j]@ != id@,
        decreases ids.len() - i,
    {
        if str_eq(ids[i].as_str(), id) {
            proof {
                assert(views(ids@)[i as int] == id@);
            }
            return true;
        }
        i = i + 1;
    }
    proof {
        if views(ids@).contains(id@) {
            let j = choose|j: int| 0 <= j < views(ids@).len() && views(ids@)[j] == id@;
            assert(ids@[j]@ == id@);
        }
    }
    false
}

/// The positions of `fresh_indices(ids, before, ids.len())`.
fn fresh_positions(ids: &Vec<String>, before: &Vec<String>) -> (r: Vec<usize>)
    ensures
        r@.map_values(|i: usize| i as int) == fresh_indices(views(ids@), views(before@), ids.len() as int),
{
    let ghost v = views(ids@);
    let ghost b = views(before@);
    let mut seen: Vec<String> = Vec::new();
    let mut j: usize = 0;
    while j < before.len()
        invariant
            0 <= j <= before.len(),
            views(seen@) == b.take(j as int),
            b == views(before@),
        decreases before.len() - j,
    {
        let t = copy_string(&before[j]);
        let ghost prev = seen@;
        seen.push(t);
        proof {
            crate::text::lemma_views_push(prev, t);
            assert(b.take(j + 1) =~= b.take(j as int).push(b[j as int]));
        }
        j = j + 1;
    }
    assert(b.take(before.len() as int) =~= b);
    let mut out: Vec<usize> = Vec::new();
    let mut i: usize = 0;
    while i < ids.len()
        invariant
            0 <= i <= ids.len(),
            v == views(ids@),
            b == views(before@),
            views(seen@) == b + v.take(i as int),
            out@.map_values(|k: usize| k as int) == fresh_indices(v, b, i as int),
        decreases ids.len() - i,
    {
        let id = &ids[i];
        let found = id_among(&seen, id.as_str());
        proof {
            assert(v[i as int] == id@);
            if (b + v.take(i as int)).contains(id@) {
                let k = choose|k: int| 0 <= k < (b + v.take(i as int)).len() && (b + v.take(i as int))[k] == id@;
                if k < b.len() {
                    assert(b[k] == id@);
                } else {
                    assert(v.take(i as int)[k - b.len()] == id@);
                }
            }
            if b.contains(id@) {
                let k = choose|k: int| 0 <= k < b.len() && b[k] == id@;
                assert((b + v.take(i as int))[k] == id@);
            }
            if v.take(i as int).contains(id@) {
                let k = choose|k: int| 0 <= k < v.take(i as int).len() && v.take(i as int)[k] == id@;
                assert((b + v.take(i as int))[b.len() + k] == id@);
            }
        }
        let ghost prev_out = out@;
        if !found {
            out.push(i);
            proof {
                assert(out@.map_values(|k: usize| k as int) =~= prev_out.map_values(|k: usize| k as int).push(
                    i as int,
                ));
            }
        }
        let t = copy_string(id);
        let ghost prev = seen@;
        seen.push(t);
        proof {
            crate::text::lemma_views_push(prev, t);
            assert(b + v.take(i + 1) =~= (b + v.take(i as int)).push(v[i as int]));
        }
        i = i + 1;
    }
    proof {
        assert(v.len() == ids.len());
    }
    out
}

/// Every position that `fresh_indices` keeps is below `n`, and they rise.
pub proof fn lemma_fresh_indices_bounds(ids: Seq<Seq<char>>, before: Seq<Seq<char>>, n: int)
    ensures
        forall|k: int|
            0 <= k < fresh_indices(ids, before, n).len() ==> 0 <= #[trigger] fresh_indices(
                ids,
                before,
                n,
            )[k] < n,
    decreases n,
{
    if n > 0 {
        lemma_fresh_indices_bounds(ids, before, n - 1);
        let p = fresh_indices(ids, before, n - 1);
        assert(fresh_indices(ids, before, n) == if before.contains(ids[n - 1]) || ids.take(n - 1).contains(
            ids[n - 1],
        ) {
            p
        } else {
            p.push(n - 1)
        });
        assert forall|k: int|
            0 <= k < fresh_indices(ids, before, n).len() implies 0 <= #[trigger] fresh_indices(
                ids,
                before,
                n,
            )[k] < n by {
            if k < p.len() {
                assert(fresh_indices(ids, before, n)[k] == p[k]);
            }
        }
    }
}

fn hit_ids(hits: &Vec<(Event, String)>) -> (r: Vec<String>)
    ensures
        views(r@) == topic_hit_ids(hits@),
{
    let mut r: Vec<String> = Vec::new();
    let mut i: usize = 0;
    while i < hits.len()
        invariant
            0 <= i <= hits.len(),
            views(r@) =~= topic_hit_ids(hits@).take(i as int),
        decreases hits.len() - i,
    {
        let t = copy_string(&hits[i].0.id);
        let ghost prev = r@;
        r.push(t);
        proof {
            crate::text::lemma_views_push(prev, t);
        }
        i = i + 1;
    }
    r
}

fn ids_of_events(events: &Vec<Event>) -> (r: Vec<String>)
    ensures
        views(r@) == event_ids(events@),
{
    let mut r: Vec<String> = Vec::new();
    let mut i: usize = 0;
    while i < events.len()
        invariant
            0 <= i <= events.len(),
            views(r@) =~= event_ids(events@).take(i as int),
        decreases events.len() - i,
    {
        let t = copy_string(&events[i].id);
        let ghost prev = r@;
        r.push(t);
        proof {
            crate::text::lemma_views_push(prev, t);
        }
        i = i + 1;
    }
    r
}

fn event_candidate(e: &Event, reason: String, layer: usize, index: usize) -> (c: RelatedCandidate)
    ensures
        shows_event(c.memory, *e, reason@),
        c.layer == layer,
        c.index == index,
{
    RelatedCandidate {
        memory: RelatedDiaryMemory {
            event_id: Some(copy_string(&e.id)),
            date: extract_date(e.created_at.as_str()),
            content: copy_string(&e.content),
            reason,
        },
        layer,
        index,
    }
}

fn turn_candidate(t: &ConversationTurn, index: usize) -> (c: RelatedCandidate)
    ensures
        shows_turn(c.memory, *t),
        c.layer == 3,
        c.index == index,
{
    RelatedCandidate {
        memory: RelatedDiaryMemory {
            event_id: None,
            date: extract_date(t.created_at.as_str()),
            content: copy_string(&t.summary),
            reason: to_owned(KEYWORD_TURN_REASON),
        },
        layer: 3,
        index,
    }
}

/// The past memories related to a day, before they are ranked: the events
/// found through the day's topics (`hits`, each with its topic's name), the
/// events and conversations found through its keywords, and the recent
/// important events, gathered as `related_picks` says (at most `max` is the
/// aim that decides whether the later layers are read). Each event comes
/// once; the records given are those from before the diary's day.
pub fn gather_related_candidates(
    hits: &Vec<(Event, String)>,
    keyword_events: &Vec<Event>,
    keyword_turns: &Vec<ConversationTurn>,
    recent: &Vec<Event>,
    max: usize,
) -> (r: Vec<RelatedCandidate>)
    ensures
        r@.len() == related_picks(hits@, keyword_events@, keyword_turns@, recent@, max as int).len(),
        forall|k: int|
            0 <= k < r@.len() ==> is_pick(
                #[trigger] r@[k],
                related_picks(hits@, keyword_events@, keyword_turns@, recent@, max as int)[k],
                hits@,
                keyword_events@,
                keyword_turns@,
                recent@,
            ),
{
    let hid = hit_ids(hits);
    let none: Vec<String> = Vec::new();
    let f1 = fresh_positions(&hid, &none);
    let eid = ids_of_events(keyword_events);
    let f2 = fresh_positions(&eid, &hid);
    let ghost fi1 = fresh_indices(topic_hit_ids(hits@), Seq::empty(), hits@.len() as int);
    let ghost fi2 = fresh_indices(event_ids(keyword_events@), topic_hit_ids(hits@), keyword_events@.len() as int);
    proof {
        assert(views(none@) =~= Seq::<Seq<char>>::empty());
        assert(views(eid@).len() == eid@.len());
        assert(views(hid@).len() == hid@.len());
        assert(eid@.len() == keyword_events@.len());
        assert(hid@.len() == hits@.len());
        lemma_fresh_indices_bounds(topic_hit_ids(hits@), Seq::empty(), hits@.len() as int);
        lemma_fresh_indices_bounds(event_ids(keyword_events@), topic_hit_ids(hits@), keyword_events@.len() as int);
        assert(f1@.len() == fi1.len());
        assert(f2@.len() == fi2.len());
    }
    let ghost a = fi1.map_values(|i: int| (1int, i));
    let ghost b = fi2.map_values(|i: int| (2int, i));
    let ghost c = Seq::new(keyword_turns@.len(), |i: int| (3int, i));
    let ghost d = Seq::new(recent@.len(), |i: int| (4int, i));
    let mut out: Vec<RelatedCandidate> = Vec::new();

    let mut k: usize = 0;
    while k < f1.len()
        invariant
            0 <= k <= f1.len(),
            f1@.map_values(|i: usize| i as int) == fi1,
            forall|m: int| 0 <= m < fi1.len() ==> 0 <= #[trigger] fi1[m] < hits@.len(),
            a == fi1.map_values(|i: int| (1int, i)),
            out@.len() == k,
            forall|j: int|
                0 <= j < out@.len() ==> is_pick(
                    #[trigger] out@[j],
                    a[j],
                    hits@,
                    keyword_events@,
                    keyword_turns@,
                    recent@,
                ),
        decreases f1.len() - k,
    {
        let i = f1[k];
        proof {
            assert(fi1[k as int] == i as int);
        }
        let mut reason = to_owned(TOPIC_REASON_PREFIX);
        reason.append(hits[i].1.as_str());
        out.push(event_candidate(&hits[i].0, reason, 1, i));
        k = k + 1;
    }
    let ghost ab = if a.len() < max {
        a + b
    } else {
        a
    };
    if out.len() < max {
        let mut k: usize = 0;
        while k < f2.len()
            invariant
                0 <= k <= f2.len(),
                f2@.map_values(|i: usize| i as int) == fi2,
                forall|m: int| 0 <= m < fi2.len() ==> 0 <= #[trigger] fi2[m] < keyword_events@.len(),
                b == fi2.map_values(|i: int| (2int, i)),
                out@.len() == a.len() + k,
                forall|j: int|
                    0 <= j < out@.len() ==> is_pick(
                        #[trigger] out@[j],
                        (a + b)[j],
                        hits@,
                        keyword_events@,
                        keyword_turns@,
                        recent@,
                    ),
            decreases f2.len() - k,
        {
            let i = f2[k];
            proof {
                assert(fi2[k as int] == i as int);
                assert((a + b)[a.len() + k] == b[k as int]);
            }
            let reason = to_owned(KEYWORD_EVENT_REASON);
            out.push(event_candidate(&keyword_events[i], reason, 2, i));
            k = k + 1;
        }
    }
    assert(out@.len() == ab.len());
    let ghost abc = if ab.len() < max {
        ab + c
    } else {
        ab
    };
    if out.len() < max {
        let mut k: usize = 0;
        while k < keyword_turns.len()
            invariant
                0 <= k <= keyword_turns.len(),
                c == Seq::new(keyword_turns@.len(), |i: int| (3int, i)),
                out@.len() == ab.len() + k,
                forall|j: int|
                    0 <= j < out@.len() ==> is_pick(
                        #[trigger] out@[j],
                        (ab + c)[j],
                        hits@,
                        keyword_events@,
                        keyword_turns@,
                        recent@,
                    ),
            decreases keyword_turns.len() - k,
        {
            proof {
                assert((ab + c)[ab.len() + k] == c[k as int]);
            }
            out.push(turn_candidate(&keyword_turns[k], k));
            k = k + 1;
        }
    }
    assert(out@.len() == abc.len());
    if out.len() == 0 {
        let mut k: usize = 0;
        while k < recent.len()
            invariant
                0 <= k <= recent.len(),
                d == Seq::new(recent@.len(), |i: int| (4int, i)),
                out@.len() == k,
                forall|j: int|
                    0 <= j < out@.len() ==> is_pick(
                        #[trigger] out@[j],
                        d[j],
                        hits@,
                        keyword_events@,
                        keyword_turns@,
                        recent@,
                    ),
            decreases recent.len() - k,
        {
            let reason = to_owned(RECENT_REASON);
            out.push(event_candidate(&recent[k], reason, 4, k));
            k = k + 1;
        }
    }
    out
}

} // verus!
