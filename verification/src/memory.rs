//! The core memory of a user: validation of user ids, the prompt block that
//! shows the memory to the model, edits of the memory, and the chat history window.
use vstd::prelude::*;
use crate::error::{error_spec, AppError, ErrorSpec};
use crate::text::{
    contains_seq, copy_string, ends_with, i64_to_string, starts_with, int_str, join, join_strings, lemma_join_ends, nat_str,
    replace_all,
    replace_str, str_contains, str_eq, trim, trim_str, u64_to_string, usize_to_string, views,
};
use crate::types::{str_len, ChatMessage, CoreMemory, MemoryPatch};

verus! {

pub const RULE: &'static str = "================================================";
pub const NEWLINE: &'static str = "\n";
pub const BLOCK_SEP: &'static str = "\n\n";
pub const PROFILE_TITLE: &'static str = "USER PROFILE (用户画像)";
pub const NOTES_TITLE: &'static str = "COMPANION NOTES (AI 笔记)";
pub const PCT_OPEN: &'static str = " [";
pub const PCT_MID: &'static str = "% — ";
pub const SLASH: &'static str = "/";
pub const CHARS_CLOSE: &'static str = " chars]\n";
pub const INVALID_USER_ID: &'static str = "invalidUserId";
pub const INVALID_USER_ID_MESSAGE: &'static str =
    "user_id may only contain ASCII letters, numbers, underscores, and hyphens";
pub const MEMORY_CODE: &'static str = "memory";
pub const NOT_FOUND_OPEN: &'static str = "old_text '";
pub const NOT_FOUND_CLOSE: &'static str = "' not found in content";
pub const UNKNOWN_ACTION: &'static str = "Unknown action: ";
pub const EXCEEDS_LIMIT: &'static str = "Content exceeds limit: ";
pub const CHARS_SUFFIX: &'static str = " chars";
pub const ACTION_ADD: &'static str = "add";
pub const ACTION_REPLACE: &'static str = "replace";
pub const ACTION_REMOVE: &'static str = "remove";
pub const TARGET_PROFILE: &'static str = "profile";
pub const EMPTY: &'static str = "";

// ─── User ids ─────────────────────────────────────────────────────────────

pub open spec fn is_user_id_char(c: char) -> bool {
    ('0' <= c && c <= '9') || ('a' <= c && c <= 'z') || ('A' <= c && c <= 'Z') || c == '_' || c
        == '-'
}

/// A user id is non-empty and made of ASCII letters, digits, `_` and `-`, so
/// that it can name a directory of its own.
pub open spec fn valid_user_id(s: Seq<char>) -> bool {
    s.len() > 0 && forall|i: int| 0 <= i < s.len() ==> is_user_id_char(#[trigger] s[i])
}

pub fn validate_user_id(user_id: &str) -> (r: Result<(), AppError>)
    ensures
        r is Ok <==> valid_user_id(user_id@),
        r matches Err(e) ==> e@ == error_spec(INVALID_USER_ID@, INVALID_USER_ID_MESSAGE@),
{
    let n = user_id.unicode_len();
    let mut ok = n > 0;
    let mut i: usize = 0;
    while i < n
        invariant
            0 <= i <= n,
            n == user_id@.len(),
            ok == (n > 0 && forall|k: int| 0 <= k < i ==> is_user_id_char(#[trigger] user_id@[k])),
        decreases n - i,
    {
        let c = user_id.get_char(i);
        let good = ('0' <= c && c <= '9') || ('a' <= c && c <= 'z') || ('A' <= c && c <= 'Z') || c
            == '_' || c == '-';
        proof {
            if !good {
                assert(!is_user_id_char(user_id@[i as int]));
            }
        }
        ok = ok && good;
        i = i + 1;
    }
    if ok {
        Ok(())
    } else {
        Err(AppError::new(INVALID_USER_ID, String::from_str(INVALID_USER_ID_MESSAGE)))
    }
}

// ─── Prompt block ─────────────────────────────────────────────────────────

/// One framed block of the core memory as the model sees it.
pub open spec fn memory_block(
    title: Seq<char>,
    pct: int,
    usage: nat,
    max: nat,
    content: Seq<char>,
) -> Seq<char> {
    RULE@ + NEWLINE@ + title + PCT_OPEN@ + int_str(pct) + PCT_MID@ + nat_str(usage) + SLASH@
        + nat_str(max) + CHARS_CLOSE@ + content + NEWLINE@ + RULE@
}

/// The blocks of a memory: the profile block if the profile is not empty, then
/// the notes block if the notes are not empty.
pub open spec fn memory_blocks(m: CoreMemory, profile_pct: int, notes_pct: int) -> Seq<Seq<char>> {
    let p = if m.profile_content@.len() > 0 {
        seq![
            memory_block(
                PROFILE_TITLE@,
                profile_pct,
                str_len(m.profile_content@) as nat,
                m.profile_max_chars as nat,
                m.profile_content@,
            ),
        ]
    } else {
        Seq::empty()
    };
    if m.notes_content@.len() > 0 {
        p.push(
            memory_block(
                NOTES_TITLE@,
                notes_pct,
                str_len(m.notes_content@) as nat,
                m.notes_max_chars as nat,
                m.notes_content@,
            ),
        )
    } else {
        p
    }
}

fn build_memory_block(title: &str, pct: i32, usage: usize, max: u32, content: &str) -> (r: String)
    ensures
        r@ == memory_block(title@, pct as int, usage as nat, max as nat, content@),
{
    let mut r = String::from_str(RULE);
    r.append(NEWLINE);
    r.append(title);
    r.append(PCT_OPEN);
    r.append(i64_to_string(pct as i64).as_str());
    r.append(PCT_MID);
    r.append(usize_to_string(usage).as_str());
    r.append(SLASH);
    r.append(u64_to_string(max as u64).as_str());
    r.append(CHARS_CLOSE);
    r.append(content);
    r.append(NEWLINE);
    r.append(RULE);
    r
}

/// The core memory as it is shown to the model. `profile_pct` and `notes_pct`
/// are the fill levels of the two blocks in whole percent.
pub fn format_memory_for_prompt(memory: &CoreMemory, profile_pct: i32, notes_pct: i32) -> (r:
    String)
    ensures
        r@ == join(memory_blocks(*memory, profile_pct as int, notes_pct as int), BLOCK_SEP@),
{
    let mut blocks: Vec<String> = Vec::new();
    if memory.profile_content.as_str().unicode_len() > 0 {
        let b = build_memory_block(
            PROFILE_TITLE,
            profile_pct,
            memory.profile_usage(),
            memory.profile_max_chars,
            memory.profile_content.as_str(),
        );
        blocks.push(b);
    }
    if memory.notes_content.as_str().unicode_len() > 0 {
        let b = build_memory_block(
            NOTES_TITLE,
            notes_pct,
            memory.notes_usage(),
            memory.notes_max_chars,
            memory.notes_content.as_str(),
        );
        blocks.push(b);
    }
    assert(views(blocks@) =~= memory_blocks(*memory, profile_pct as int, notes_pct as int));
    join_strings(&blocks, BLOCK_SEP)
}

// ─── Patches ──────────────────────────────────────────────────────────────

pub open spec fn old_text_of(patch: MemoryPatch) -> Seq<char> {
    match patch.old_text {
        Some(t) => t@,
        None => Seq::empty(),
    }
}

pub open spec fn not_found_error(old: Seq<char>) -> ErrorSpec {
    error_spec(MEMORY_CODE@, NOT_FOUND_OPEN@ + old + NOT_FOUND_CLOSE@)
}

/// The new content of a block after `patch`, before its capacity is checked.
pub open spec fn patched_content(current: Seq<char>, patch: MemoryPatch) -> Result<
    Seq<char>,
    ErrorSpec,
> {
    let old = old_text_of(patch);
    if patch.action@ == ACTION_ADD@ {
        if current.len() == 0 {
            Ok(patch.content@)
        } else {
            Ok(trim(current) + NEWLINE@ + patch.content@)
        }
    } else if patch.action@ == ACTION_REPLACE@ {
        if old.len() == 0 || !contains_seq(current, old) {
            Err(not_found_error(old))
        } else {
            Ok(replace_all(current, old, patch.content@))
        }
    } else if patch.action@ == ACTION_REMOVE@ {
        if old.len() == 0 || !contains_seq(current, old) {
            Err(not_found_error(old))
        } else {
            Ok(trim(replace_all(current, old, Seq::empty())))
        }
    } else {
        Err(error_spec(MEMORY_CODE@, UNKNOWN_ACTION@ + patch.action@))
    }
}

pub open spec fn targets_profile(patch: MemoryPatch) -> bool {
    patch.target@ == TARGET_PROFILE@
}

/// The block that `patch` edits, its capacity, and the result of the edit:
/// the new content of that block, or the error that refuses the patch.
pub open spec fn patch_outcome(m: CoreMemory, patch: MemoryPatch) -> Result<Seq<char>, ErrorSpec> {
    let current = if targets_profile(patch) {
        m.profile_content@
    } else {
        m.notes_content@
    };
    let max = if targets_profile(patch) {
        m.profile_max_chars
    } else {
        m.notes_max_chars
    };
    match patched_content(current, patch) {
        Ok(c) => if str_len(c) > max as usize {
            Err(
                error_spec(
                    MEMORY_CODE@,
                    EXCEEDS_LIMIT@ + nat_str(str_len(c) as nat) + SLASH@ + nat_str(max as nat)
                        + CHARS_SUFFIX@,
                ),
            )
        } else {
            Ok(c)
        },
        Err(e) => Err(e),
    }
}

fn not_found(old: &str) -> (e: AppError)
    ensures
        e@ == not_found_error(old@),
{
    let mut msg = String::from_str(NOT_FOUND_OPEN);
    msg.append(old);
    msg.append(NOT_FOUND_CLOSE);
    AppError::new(MEMORY_CODE, msg)
}

fn compute_patched(current: &str, patch: &MemoryPatch) -> (r: Result<String, AppError>)
    ensures
        match (r, patched_content(current@, *patch)) {
            (Ok(c), Ok(s)) => c@ == s,
            (Err(e), Err(s)) => e@ == s,
            _ => false,
        },
{
    let old: &str = match &patch.old_text {
        Some(t) => t.as_str(),
        None => EMPTY,
    };
    proof {
        reveal_strlit("");
        assert(EMPTY@ =~= Seq::<char>::empty());
        assert(old@ == old_text_of(*patch));
    }
    let action = patch.action.as_str();
    if str_eq(action, ACTION_ADD) {
        if current.unicode_len() == 0 {
            Ok(String::from_str(patch.content.as_str()))
        } else {
            let mut c = String::from_str(trim_str(current));
            c.append(NEWLINE);
            c.append(patch.content.as_str());
            Ok(c)
        }
    } else if str_eq(action, ACTION_REPLACE) {
        if old.unicode_len() == 0 || !str_contains(current, old) {
            Err(not_found(old))
        } else {
            Ok(replace_str(current, old, patch.content.as_str()))
        }
    } else if str_eq(action, ACTION_REMOVE) {
        if old.unicode_len() == 0 || !str_contains(current, old) {
            Err(not_found(old))
        } else {
            let removed = replace_str(current, old, EMPTY);
            Ok(String::from_str(trim_str(removed.as_str())))
        }
    } else {
        let mut msg = String::from_str(UNKNOWN_ACTION);
        msg.append(action);
        Err(AppError::new(MEMORY_CODE, msg))
    }
}

/// Applies `patch` to `memory`. The edited block is the profile when the
/// patch targets `profile` and the notes otherwise; the other block is kept.
/// A patch is refused when its action is unknown, when `replace`/`remove`
/// names an `old_text` that is empty or absent, or when the new content
/// would exceed the block's capacity in bytes.
pub fn patch_core_memory(memory: CoreMemory, patch: &MemoryPatch) -> (r: Result<CoreMemory, AppError>)
    ensures
        match (r, patch_outcome(memory, *patch)) {
            (Ok(m), Ok(c)) => {
                &&& m.profile_max_chars == memory.profile_max_chars
                &&& m.notes_max_chars == memory.notes_max_chars
                &&& if targets_profile(*patch) {
                    m.profile_content@ == c && m.notes_content@ == memory.notes_content@
                } else {
                    m.notes_content@ == c && m.profile_content@ == memory.profile_content@
                }
            },
            (Err(e), Err(s)) => e@ == s,
            _ => false,
        },
{
    let is_profile = str_eq(patch.target.as_str(), TARGET_PROFILE);
    let max = if is_profile {
        memory.profile_max_chars
    } else {
        memory.notes_max_chars
    };
    let new_content = if is_profile {
        compute_patched(memory.profile_content.as_str(), patch)
    } else {
        compute_patched(memory.notes_content.as_str(), patch)
    };
    match new_content {
        Err(e) => Err(e),
        Ok(c) => {
            let len = c.as_str().len();
            if len > max as usize {
                let mut msg = String::from_str(EXCEEDS_LIMIT);
                msg.append(usize_to_string(len).as_str());
                msg.append(SLASH);
                msg.append(u64_to_string(max as u64).as_str());
                msg.append(CHARS_SUFFIX);
                Err(AppError::new(MEMORY_CODE, msg))
            } else {
                let mut m = memory;
                if is_profile {
                    m.profile_content = c;
                } else {
                    m.notes_content = c;
                }
                Ok(m)
            }
        },
    }
}

// ─── Chat history ─────────────────────────────────────────────────────────

/// The last `2 * max_turns` messages of `messages` (all of them when there are fewer).
pub open spec fn history_window(messages: Seq<ChatMessage>, max_turns: nat) -> Seq<ChatMessage> {
    let keep = 2 * max_turns;
    if messages.len() > keep {
        messages.skip(messages.len() - keep)
    } else {
        messages
    }
}

pub fn clone_message(m: &ChatMessage) -> (r: ChatMessage)
    ensures
        r.role@ == m.role@,
        r.content@ == m.content@,
{
    ChatMessage { role: copy_string(&m.role), content: copy_string(&m.content) }
}

pub open spec fn same_messages(a: Seq<ChatMessage>, b: Seq<ChatMessage>) -> bool {
    a.len() == b.len() && forall|i: int|
        0 <= i < a.len() ==> (#[trigger] a[i]).role@ == b[i].role@ && a[i].content@ == b[i].content@
}

/// The part of a chat history that is kept and loaded: the last `max_turns`
/// exchanges of two messages each.
pub fn trim_history(messages: &Vec<ChatMessage>, max_turns: u32) -> (r: Vec<ChatMessage>)
    ensures
        same_messages(r@, history_window(messages@, max_turns as nat)),
{
    let keep: u64 = 2 * (max_turns as u64);
    let n = messages.len();
    let start: usize = if (n as u64) > keep {
        n - (keep as usize)
    } else {
        0
    };
    let mut r: Vec<ChatMessage> = Vec::new();
    let mut i: usize = start;
    while i < n
        invariant
            start <= i <= n,
            n == messages.len(),
            r.len() == i - start,
            forall|k: int|
                0 <= k < r.len() ==> (#[trigger] r@[k]).role@ == messages@[start + k].role@
                    && r@[k].content@ == messages@[start + k].content@,
        decreases n - i,
    {
        r.push(clone_message(&messages[i]));
        i = i + 1;
    }
    proof {
        let w = history_window(messages@, max_turns as nat);
        assert(w.len() == n - start);
        assert forall|k: int| 0 <= k < r.len() implies (#[trigger] r@[k]).role@ == w[k].role@
            && r@[k].content@ == w[k].content@ by {
            assert(w[k] == messages@[start + k]);
        }
    }
    r
}


// ─── Laws ─────────────────────────────────────────────────────────────────

/// An accepted patch leaves the edited block within its capacity.
pub proof fn lemma_patch_within_capacity(m: CoreMemory, patch: MemoryPatch)
    ensures
        patch_outcome(m, patch) matches Ok(c) ==> str_len(c) <= (if targets_profile(patch) {
            m.profile_max_chars
        } else {
            m.notes_max_chars
        }) as usize,
{
}

/// An `add` patch keeps what the block held: an empty block becomes the added
/// text, and a non-empty one becomes its old text (trimmed), a newline, then
/// the added text. An `add` is refused only when that result would not fit.
pub proof fn lemma_patch_add_appends(m: CoreMemory, patch: MemoryPatch)
    requires
        patch.action@ == ACTION_ADD@,
    ensures
        ({
            let cur = if targets_profile(patch) {
                m.profile_content@
            } else {
                m.notes_content@
            };
            let max = if targets_profile(patch) {
                m.profile_max_chars
            } else {
                m.notes_max_chars
            };
            let added = if cur.len() == 0 {
                patch.content@
            } else {
                trim(cur) + seq!['\n'] + patch.content@
            };
            &&& patch_outcome(m, patch) matches Ok(c) ==> {
                &&& c == added
                &&& cur.len() > 0 ==> starts_with(c, trim(cur)) && ends_with(c, patch.content@)
            }
            &&& patch_outcome(m, patch) is Err <==> str_len(added) > max as usize
        }),
{
    reveal_strlit("\n");
    assert(NEWLINE@ =~= seq!['\n']);
    let cur = if targets_profile(patch) {
        m.profile_content@
    } else {
        m.notes_content@
    };
    if cur.len() > 0 {
        let c = trim(cur) + seq!['\n'] + patch.content@;
        assert(c.take(trim(cur).len() as int) =~= trim(cur));
        assert(c.skip(c.len() - patch.content@.len()) =~= patch.content@);
    }
}

/// A `replace` or `remove` patch is refused, with the not-found error, when
/// its old text is empty or does not occur in the block; a `remove` that is
/// accepted leaves a block without leading or trailing white space.
pub proof fn lemma_patch_needs_old_text(m: CoreMemory, patch: MemoryPatch)
    requires
        patch.action@ == ACTION_REPLACE@ || patch.action@ == ACTION_REMOVE@,
    ensures
        ({
            let cur = if targets_profile(patch) {
                m.profile_content@
            } else {
                m.notes_content@
            };
            let old = match patch.old_text {
                Some(t) => t@,
                None => Seq::<char>::empty(),
            };
            &&& (old.len() == 0 || !contains_seq(cur, old)) ==> patch_outcome(m, patch) == Err::<
                Seq<char>,
                ErrorSpec,
            >(error_spec(MEMORY_CODE@, NOT_FOUND_OPEN@ + old + NOT_FOUND_CLOSE@))
            &&& patch.action@ == ACTION_REMOVE@ ==> (patch_outcome(m, patch) matches Ok(c) ==> trim(c) == c)
        }),
{
    reveal_strlit("add");
    reveal_strlit("replace");
    reveal_strlit("remove");
    let cur = if targets_profile(patch) {
        m.profile_content@
    } else {
        m.notes_content@
    };
    let old = old_text_of(patch);
    assert(ACTION_ADD@ != ACTION_REPLACE@) by {
        assert(ACTION_ADD@.len() != ACTION_REPLACE@.len());
    }
    assert(ACTION_ADD@ != ACTION_REMOVE@) by {
        assert(ACTION_ADD@[0] != ACTION_REMOVE@[0]);
    }
    assert(ACTION_REPLACE@ != ACTION_REMOVE@) by {
        assert(ACTION_REPLACE@.len() != ACTION_REMOVE@.len());
    }
    if patch.action@ == ACTION_REMOVE@ && old.len() > 0 && contains_seq(cur, old) {
        let c = trim(replace_all(cur, old, Seq::empty()));
        crate::text::lemma_trim_idempotent(replace_all(cur, old, Seq::empty()));
        crate::text::lemma_trim_idempotent(c);
    }
}

/// The kept history is the end of the history: its last `2 * max_turns`
/// messages, or all of them.
pub proof fn lemma_history_window_is_suffix(messages: Seq<ChatMessage>, max_turns: nat)
    ensures
        history_window(messages, max_turns).len() == if messages.len() > 2 * max_turns {
            2 * max_turns
        } else {
            messages.len()
        },
        forall|k: int|
            0 <= k < history_window(messages, max_turns).len() ==> #[trigger] history_window(
                messages,
                max_turns,
            )[k] == messages[messages.len() - history_window(messages, max_turns).len() + k],
{
}

/// The memory shown to the model is empty exactly when both the profile and
/// the notes are empty, whatever the percentages shown.
pub proof fn lemma_memory_prompt_empty(m: CoreMemory, profile_pct: int, notes_pct: int)
    ensures
        join(memory_blocks(m, profile_pct, notes_pct), BLOCK_SEP@).len() == 0 <==> (
        m.profile_content@.len() == 0 && m.notes_content@.len() == 0),
{
    let b = memory_blocks(m, profile_pct, notes_pct);
    if b.len() > 0 {
        lemma_join_ends(b, BLOCK_SEP@);
        assert(b[0].len() > 0);
    }
}

/// Loading a saved history with the same number of turns gives the saved
/// history back: trimming twice is trimming once.
pub proof fn lemma_history_window_idempotent(messages: Seq<ChatMessage>, max_turns: nat)
    ensures
        history_window(history_window(messages, max_turns), max_turns) == history_window(
            messages,
            max_turns,
        ),
{
}

} // verus!
