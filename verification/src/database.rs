//! Where each user's database lives, and what of a conversation turn goes
//! into the full-text index.
use vstd::prelude::*;
use crate::config::{join_path, main_separator, path_join, platform_separator};
use crate::error::AppError;
use crate::memory::{valid_user_id, validate_user_id, INVALID_USER_ID, INVALID_USER_ID_MESSAGE};
use crate::text::{prefix, take_chars, to_owned};

verus! {

pub const DB_FILE: &'static str = "events.db";

/// How many characters of a user message the index holds.
pub const FTS_USER_MESSAGE_CHARS: usize = 500;

/// How many characters of a user message stand for a turn without summary.
pub const FTS_SUMMARY_CHARS: usize = 200;

/// The databases of all users, one directory per user under `base_dir`.
#[derive(Debug, Clone, PartialEq, Eq)]
pub struct DbState {
    pub base_dir: String,
}

impl DbState {
    pub fn new(base_dir: String) -> (r: DbState)
        ensures
            r.base_dir == base_dir,
    {
        DbState { base_dir }
    }

    /// The directory of `user_id`'s database, joined with the separator of the
    /// platform; an error for a user id that is not ASCII letters, digits, `_`
    /// and `-` (so it names no other directory).
    pub fn user_db_dir(&self, user_id: &str) -> (r: Result<String, AppError>)
        ensures
            match r {
                Ok(d) => valid_user_id(user_id@) && exists|sep: char|
                    platform_separator(sep) && d@ == join_path(self.base_dir@, user_id@, sep),
                Err(e) => !valid_user_id(user_id@) && e.code@ == INVALID_USER_ID@
                    && e.message@ == INVALID_USER_ID_MESSAGE@,
            },
    {
        match validate_user_id(user_id) {
            Err(e) => Err(e),
            Ok(()) => {
                let sep = main_separator();
                Ok(path_join(self.base_dir.as_str(), user_id, sep))
            },
        }
    }

    /// The file of `user_id`'s database.
    pub fn user_db_path(&self, user_id: &str) -> (r: Result<String, AppError>)
        ensures
            match r {
                Ok(p) => valid_user_id(user_id@) && exists|sep: char|
                    platform_separator(sep) && p@ == join_path(
                        join_path(self.base_dir@, user_id@, sep),
                        DB_FILE@,
                        sep,
                    ),
                Err(e) => !valid_user_id(user_id@) && e.code@ == INVALID_USER_ID@
                    && e.message@ == INVALID_USER_ID_MESSAGE@,
            },
    {
        match validate_user_id(user_id) {
            Err(e) => Err(e),
            Ok(()) => {
                let sep = main_separator();
                let dir = path_join(self.base_dir.as_str(), user_id, sep);
                Ok(path_join(dir.as_str(), DB_FILE, sep))
            },
        }
    }
}

/// What the full-text index holds of a turn: its summary (the start of the
/// user's message when the summary is empty) and the start of the message.
pub fn turn_search_entry(user_msg: &str, summary: &str) -> (r: (String, String))
    ensures
        r.0@ == if summary@.len() == 0 {
            prefix(user_msg@, FTS_SUMMARY_CHARS as int)
        } else {
            summary@
        },
        r.1@ == prefix(user_msg@, FTS_USER_MESSAGE_CHARS as int),
{
    let s = if summary.unicode_len() == 0 {
        take_chars(user_msg, FTS_SUMMARY_CHARS)
    } else {
        to_owned(summary)
    };
    (s, take_chars(user_msg, FTS_USER_MESSAGE_CHARS))
}

} // verus!
