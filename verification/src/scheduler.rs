//! The heartbeat's decisions: which users get a proactive message and why,
//! and the queue of messages waiting for each user.
use vstd::prelude::*;
use vstd::hash_map::StringHashMap;
use crate::text::{to_owned, trim, trim_str};
use crate::types::PendingMessage;

verus! {

pub const REASON_LONG_IDLE: &'static str = "long_idle";

pub const REASON_IDLE: &'static str = "idle";

pub const PROACTIVE_TEMPERATURE_HUNDREDTHS: u32 = 80;

pub const PROACTIVE_MAX_TOKENS: u32 = 200;

/// The message waiting for each user, at most one per user.
pub struct PendingMessages {
    pub messages: StringHashMap<PendingMessage>,
}

impl Default for PendingMessages {
    fn default() -> (r: PendingMessages)
        ensures
            r.messages@ == Map::<Seq<char>, PendingMessage>::empty(),
    {
        PendingMessages { messages: StringHashMap::new() }
    }
}

fn copy_pending(m: &PendingMessage) -> (r: PendingMessage)
    ensures
        r == *m,
{
    PendingMessage {
        message: m.message.clone(),
        reason: m.reason.clone(),
        created_at: m.created_at.clone(),
    }
}

impl PendingMessages {
    /// Queues `message` for `user_id`, in place of one already waiting.
    pub fn insert(&mut self, user_id: String, message: PendingMessage)
        ensures
            final(self).messages@ == old(self).messages@.insert(user_id@, message),
    {
        self.messages.insert(user_id, message);
    }

    /// Whether a message waits for `user_id`.
    pub fn has_pending(&self, user_id: &str) -> (r: bool)
        ensures
            r == self.messages@.contains_key(user_id@),
    {
        self.messages.contains_key(user_id)
    }
}

/// Takes the message waiting for `user_id`, if any: it is handed out once.
pub fn get_pending_message(state: &mut PendingMessages, user_id: &str) -> (r: Option<PendingMessage>)
    ensures
        match r {
            Some(m) => old(state).messages@.contains_key(user_id@) && m == old(state).messages@[user_id@],
            None => !old(state).messages@.contains_key(user_id@),
        },
        final(state).messages@ == old(state).messages@.remove(user_id@),
{
    let found = match state.messages.get(user_id) {
        Some(m) => Some(copy_pending(m)),
        None => None,
    };
    state.messages.remove(user_id);
    found
}

/// A message queued for a user is the one taken next, and once taken none
/// waits.
pub proof fn lemma_pending_taken_once(
    m: Map<Seq<char>, PendingMessage>,
    user_id: Seq<char>,
    message: PendingMessage,
)
    ensures
        m.insert(user_id, message).contains_key(user_id),
        m.insert(user_id, message)[user_id] == message,
        !m.insert(user_id, message).remove(user_id).contains_key(user_id),
        !m.remove(user_id).contains_key(user_id),
{
}

// ─── Heartbeat decisions ──────────────────────────────────────────────────

/// Why a user gets a proactive message, if they do: not when proactive
/// messages are off or one already waits; otherwise when idle for longer than
/// the maximum (`long_idle`) or than the minimum (`idle`). Idle time is in
/// whole seconds and compared with the limits in minutes exactly.
pub open spec fn proactive_reason_spec(
    enabled: bool,
    has_pending: bool,
    idle_seconds: int,
    min_idle_minutes: int,
    max_idle_minutes: int,
) -> Option<Seq<char>> {
    if !enabled || has_pending {
        None
    } else if idle_seconds > 60 * max_idle_minutes {
        Some(REASON_LONG_IDLE@)
    } else if idle_seconds > 60 * min_idle_minutes {
        Some(REASON_IDLE@)
    } else {
        None
    }
}

pub fn proactive_reason(
    enabled: bool,
    has_pending: bool,
    idle_seconds: i64,
    min_idle_minutes: u64,
    max_idle_minutes: u64,
) -> (r: Option<&'static str>)
    ensures
        match (r, proactive_reason_spec(
            enabled,
            has_pending,
            idle_seconds as int,
            min_idle_minutes as int,
            max_idle_minutes as int,
        )) {
            (Some(a), Some(b)) => a@ == b,
            (None, None) => true,
            _ => false,
        },
{
    if !enabled || has_pending {
        return None;
    }
    let idle = idle_seconds as i128;
    if idle > 60 * (max_idle_minutes as i128) {
        Some(REASON_LONG_IDLE)
    } else if idle > 60 * (min_idle_minutes as i128) {
        Some(REASON_IDLE)
    } else {
        None
    }
}

/// The model's proactive message, trimmed; none when it is blank.
pub fn proactive_message(output: &str) -> (r: Option<String>)
    ensures
        match r {
            Some(m) => trim(output@).len() > 0 && m@ == trim(output@),
            None => trim(output@).len() == 0,
        },
{
    let t = trim_str(output);
    if t.unicode_len() == 0 {
        None
    } else {
        Some(to_owned(t))
    }
}

} // verus!
