//! The defaults of the AI settings that are whole values, and where the
//! settings are stored.
use vstd::prelude::*;
use crate::text::to_owned;

verus! {

pub const AI_CONFIG_FILE: &'static str = "ai_config.json";

pub const DEFAULT_LLM_BASE_URL: &'static str = "https://api.openai.com/v1";

pub const DEFAULT_LLM_MODEL: &'static str = "gpt-4o-mini";

/// Whether `c` separates the parts of a path on a platform whose own
/// separator is `sep` (`/` separates everywhere).
pub open spec fn is_separator(c: char, sep: char) -> bool {
    c == '/' || c == sep
}

/// The separators that platforms use for paths: `/`, or `\\` on Windows.
pub open spec fn platform_separator(c: char) -> bool {
    c == '/' || c == '\\'
}

/// Whether `base` is a bare drive prefix such as `C:` (an ASCII letter and a
/// colon), which Windows paths take as a prefix and not a directory.
pub open spec fn bare_drive(base: Seq<char>) -> bool {
    &&& base.len() == 2
    &&& (('a' <= base[0] && base[0] <= 'z') || ('A' <= base[0] && base[0] <= 'Z'))
    &&& base[1] == ':'
}

/// `name` under the directory `base` (`Path::join` for a relative `name`):
/// joined with the platform's separator `sep` unless `base` is empty, already
/// ends with a separator, or (on Windows, where `sep` is `\\`) is a bare drive
/// prefix, which `C:name` names a path under.
pub open spec fn join_path(base: Seq<char>, name: Seq<char>, sep: char) -> Seq<char> {
    if base.len() == 0 || is_separator(base.last(), sep) || (sep == '\\' && bare_drive(base)) {
        base + name
    } else {
        base + seq![sep] + name
    }
}

/// Reads `std::path::MAIN_SEPARATOR`, the separator of paths on the platform
/// the program was built for. Claimed: it is `/` or `\\` (std documents `\\`
/// on Windows and `/` elsewhere).
#[verifier::external_body]
pub(crate) fn main_separator() -> (c: char)
    ensures
        platform_separator(c),
{
    std::path::MAIN_SEPARATOR
}

/// `name` under the directory `base`, on a platform whose separator is `sep`.
pub fn path_join(base: &str, name: &str, sep: char) -> (r: String)
    requires
        platform_separator(sep),
    ensures
        r@ == join_path(base@, name@, sep),
{
    let n = base.unicode_len();
    let mut r = to_owned(base);
    let drive = sep == '\\' && n == 2 && base.get_char(1) == ':' && {
        let c = base.get_char(0);
        ('a' <= c && c <= 'z') || ('A' <= c && c <= 'Z')
    };
    if n > 0 && base.get_char(n - 1) != '/' && base.get_char(n - 1) != sep && !drive {
        proof {
            reveal_strlit("/");
            reveal_strlit("\\");
        }
        if sep == '/' {
            r.append("/");
        } else {
            r.append("\\");
        }
    }
    r.append(name);
    r
}

/// Where the AI settings are stored under the app's data directory, joined
/// with the separator of the platform the program runs on.
pub fn ai_config_path(base_dir: &str) -> (r: String)
    ensures
        exists|sep: char| platform_separator(sep) && r@ == join_path(base_dir@, AI_CONFIG_FILE@, sep),
{
    let sep = main_separator();
    path_join(base_dir, AI_CONFIG_FILE, sep)
}

pub fn default_llm_base_url() -> (r: String)
    ensures
        r@ == DEFAULT_LLM_BASE_URL@,
{
    to_owned(DEFAULT_LLM_BASE_URL)
}

pub fn default_llm_model() -> (r: String)
    ensures
        r@ == DEFAULT_LLM_MODEL@,
{
    to_owned(DEFAULT_LLM_MODEL)
}

pub fn default_llm_cheap_model() -> (r: String)
    ensures
        r@ == DEFAULT_LLM_MODEL@,
{
    to_owned(DEFAULT_LLM_MODEL)
}

pub fn default_max_history_turns() -> (r: u32)
    ensures
        r == 20,
{
    20
}

pub fn default_heartbeat_interval_minutes() -> (r: u64)
    ensures
        r == 30,
{
    30
}

pub fn default_heartbeat_min_idle_minutes() -> (r: u64)
    ensures
        r == 120,
{
    120
}

pub fn default_heartbeat_max_idle_minutes() -> (r: u64)
    ensures
        r == 1440,
{
    1440
}

pub fn default_heartbeat_proactive_enabled() -> (r: bool)
    ensures
        r,
{
    true
}

} // verus!
