//! Calendar dates: the date type of the library, its text form, comparisons,
//! and the calls into `chrono` that parse dates and locate ISO weeks.
use vstd::prelude::*;
use chrono::Datelike;
use crate::text::{
    all_digits, byte_prefix, byte_prefix_str, digits_value, is_digit, lemma_zero_pad_digits, nat_str,
    u64_to_padded, zero_pad,
};

verus! {

/// A day of the proleptic Gregorian calendar.
#[derive(Debug, Clone, Copy, PartialEq, Eq, Structural)]
pub struct Date {
    pub year: i32,
    pub month: u32,
    pub day: u32,
}

pub open spec fn is_leap_year(y: int) -> bool {
    (y % 4 == 0 && y % 100 != 0) || y % 400 == 0
}

pub open spec fn days_in_month(y: int, m: int) -> int {
    if m == 2 {
        if is_leap_year(y) {
            29
        } else {
            28
        }
    } else if m == 4 || m == 6 || m == 9 || m == 11 {
        30
    } else {
        31
    }
}

/// Whether `(y, m, d)` names a day of the calendar.
pub open spec fn is_valid_ymd(y: int, m: int, d: int) -> bool {
    1 <= m <= 12 && 1 <= d <= days_in_month(y, m)
}

impl Date {
    pub open spec fn valid(self) -> bool {
        is_valid_ymd(self.year as int, self.month as int, self.day as int)
    }

    /// Chronological order, which is the order of `(year, month, day)`.
    pub open spec fn le(self, other: Date) -> bool {
        self.year < other.year || (self.year == other.year && (self.month < other.month || (
        self.month == other.month && self.day <= other.day)))
    }
}

/// Whether `a` is on or before `b`.
pub fn date_le(a: Date, b: Date) -> (r: bool)
    ensures
        r == a.le(b),
{
    a.year < b.year || (a.year == b.year && (a.month < b.month || (a.month == b.month && a.day
        <= b.day)))
}

// ─── Text form ────────────────────────────────────────────────────────────

/// The text form of a date, as `chrono::NaiveDate` displays it: `YYYY-MM-DD`,
/// the year with four digits when it is in `0..=9999` and otherwise with its
/// sign and at least four digits.
pub open spec fn date_str(d: Date) -> Seq<char> {
    let y = d.year as int;
    let year = if 0 <= y <= 9999 {
        zero_pad(y as nat, 4)
    } else if y < 0 {
        seq!['-'] + zero_pad((-y) as nat, 4)
    } else {
        seq!['+'] + zero_pad(y as nat, 4)
    };
    year + seq!['-'] + zero_pad(d.month as nat, 2) + seq!['-'] + zero_pad(d.day as nat, 2)
}

pub fn date_to_string(d: Date) -> (r: String)
    ensures
        r@ == date_str(d),
{
    proof {
        reveal_strlit("-");
        reveal_strlit("+");
    }
    let mut r = String::new();
    if 0 <= d.year && d.year <= 9999 {
        r.append(u64_to_padded(d.year as u64, 4).as_str());
    } else if d.year < 0 {
        r.append("-");
        let abs: u64 = if d.year == i32::MIN {
            2147483648u64
        } else {
            (-d.year) as u64
        };
        r.append(u64_to_padded(abs, 4).as_str());
    } else {
        r.append("+");
        r.append(u64_to_padded(d.year as u64, 4).as_str());
    }
    r.append("-");
    r.append(u64_to_padded(d.month as u64, 2).as_str());
    r.append("-");
    r.append(u64_to_padded(d.day as u64, 2).as_str());
    r
}

// ─── Arithmetic ───────────────────────────────────────────────────────────

/// The day after `d`.
pub open spec fn next_day(d: Date) -> Date {
    if (d.day as int) < days_in_month(d.year as int, d.month as int) {
        Date { year: d.year, month: d.month, day: (d.day + 1) as u32 }
    } else if d.month < 12 {
        Date { year: d.year, month: (d.month + 1) as u32, day: 1 }
    } else {
        Date { year: (d.year + 1) as i32, month: 1, day: 1 }
    }
}

/// The day `n` days after `d`.
pub open spec fn add_days(d: Date, n: nat) -> Date
    decreases n,
{
    if n == 0 {
        d
    } else {
        next_day(add_days(d, (n - 1) as nat))
    }
}

/// The day after `d`, for a valid date before the last year that `i32` holds.
#[verifier::spinoff_prover]
pub fn next_date(d: Date) -> (r: Date)
    requires
        d.valid(),
        d.year < i32::MAX,
    ensures
        r == next_day(d),
        r.valid(),
{
    let dim: u32 = if d.month == 2 {
        if (d.year % 4 == 0 && d.year % 100 != 0) || d.year % 400 == 0 {
            29
        } else {
            28
        }
    } else if d.month == 4 || d.month == 6 || d.month == 9 || d.month == 11 {
        30
    } else {
        31
    };
    assert(dim == days_in_month(d.year as int, d.month as int));
    if d.day < dim {
        Date { year: d.year, month: d.month, day: d.day + 1 }
    } else if d.month < 12 {
        Date { year: d.year, month: d.month + 1, day: 1 }
    } else {
        Date { year: d.year + 1, month: 1, day: 1 }
    }
}

/// The day `n` days after `d`, for at most a week ahead.
pub fn add_days_to(d: Date, n: u32) -> (r: Date)
    requires
        d.valid(),
        n <= 6,
        d.year < i32::MAX - 6,
    ensures
        r == add_days(d, n as nat),
        r.valid(),
{
    let mut r = d;
    let mut k: u32 = 0;
    while k < n
        invariant
            0 <= k <= n,
            n <= 6,
            d.year < i32::MAX - 6,
            r == add_days(d, k as nat),
            r.valid(),
            d.year <= r.year <= d.year + k,
        decreases n - k,
    {
        r = next_date(r);
        k = k + 1;
    }
    r
}

// ─── Calls into chrono ────────────────────────────────────────────────────

/// What `chrono::NaiveDate::parse_from_str(s, "%Y-%m-%d")` yields for `s`, as `(year, month, day)`.
pub uninterp spec fn spec_chrono_parse_ymd(s: Seq<char>) -> Option<(i32, u32, u32)>;

/// What `chrono::NaiveDate::from_isoywd_opt(year, week, Weekday::Mon)` yields, as `(year, month, day)`.
pub uninterp spec fn spec_chrono_iso_week_monday(year: i32, week: u32) -> Option<(i32, u32, u32)>;

/// The years a `chrono::NaiveDate` can hold (its `MIN_YEAR..=MAX_YEAR`).
pub open spec fn in_chrono_range(d: Date) -> bool {
    -262143 <= d.year <= 262142
}

/// Whether `s` is written `YYYY-MM-DD`: four digits, `-`, two digits, `-`,
/// two digits.
pub open spec fn ymd_shaped(s: Seq<char>) -> bool {
    &&& s.len() == 10
    &&& all_digits(s.take(4))
    &&& s[4] == '-'
    &&& all_digits(s.subrange(5, 7))
    &&& s[7] == '-'
    &&& all_digits(s.subrange(8, 10))
}

/// The year, month and day that a `YYYY-MM-DD` text writes.
pub open spec fn ymd_year(s: Seq<char>) -> nat {
    digits_value(s.take(4))
}

pub open spec fn ymd_month(s: Seq<char>) -> nat {
    digits_value(s.subrange(5, 7))
}

pub open spec fn ymd_day(s: Seq<char>) -> nat {
    digits_value(s.subrange(8, 10))
}

pub open spec fn as_date(t: (i32, u32, u32)) -> Date {
    Date { year: t.0, month: t.1, day: t.2 }
}

/// Calls `chrono::NaiveDate::parse_from_str(s, "%Y-%m-%d")`. Claimed: the result
/// is the named function of `s`, and a parsed date is a day of the calendar
/// whose year lies in chrono's range (chrono builds a `NaiveDate` only for
/// valid dates of those years); and a text written exactly `YYYY-MM-DD` that
/// names a day of the calendar parses to that day (chrono reads up to four
/// digits for `%Y` and two for `%m` and `%d`, and `-` literally). Not claimed:
/// which other strings parse (chrono accepts signs, wider years and
/// unpadded numbers).
#[verifier::external_body]
pub fn parse_date_chrono(s: &str) -> (r: Option<Date>)
    ensures
        match r {
            Some(d) => spec_chrono_parse_ymd(s@) == Some((d.year, d.month, d.day)) && d.valid()
                && in_chrono_range(d),
            None => spec_chrono_parse_ymd(s@) is None,
        },
        ymd_shaped(s@) && is_valid_ymd(ymd_year(s@) as int, ymd_month(s@) as int, ymd_day(s@) as int)
            ==> r == Some(
            Date { year: ymd_year(s@) as i32, month: ymd_month(s@) as u32, day: ymd_day(s@) as u32 },
        ),
{
    match chrono::NaiveDate::parse_from_str(s, "%Y-%m-%d") {
        Ok(d) => Some(Date { year: d.year(), month: d.month(), day: d.day() }),
        Err(_) => None,
    }
}

/// Calls `chrono::NaiveDate::from_isoywd_opt(year, week, Weekday::Mon)`, the Monday
/// of ISO week `week` of ISO year `year`. Claimed: the result is the named
/// function of its arguments; there is no week 0 and no week after 53 (chrono
/// returns `None` when `week == 0 || week > nweeks`, and a year has 52 or 53
/// weeks); a result is a day of the calendar in chrono's range of years.
#[verifier::external_body]
pub fn iso_week_monday_chrono(year: i32, week: u32) -> (r: Option<Date>)
    requires
        i32::MIN < year < i32::MAX,
    ensures
        match r {
            Some(d) => spec_chrono_iso_week_monday(year, week) == Some((d.year, d.month, d.day))
                && d.valid() && in_chrono_range(d),
            None => spec_chrono_iso_week_monday(year, week) is None,
        },
        (week == 0 || week > 53) ==> r is None,
{
    match chrono::NaiveDate::from_isoywd_opt(year, week, chrono::Weekday::Mon) {
        Some(d) => Some(Date { year: d.year(), month: d.month(), day: d.day() }),
        None => None,
    }
}


/// The date that `chrono` reads from `s` in the form `%Y-%m-%d`, if any.
pub open spec fn chrono_date(s: Seq<char>) -> Option<Date> {
    match spec_chrono_parse_ymd(s) {
        Some(t) => Some(as_date(t)),
        None => None,
    }
}

/// The date that the first ten bytes of `s` spell, if they are whole
/// characters and a date.
pub open spec fn date_prefix(s: Seq<char>) -> Option<Date> {
    match byte_prefix(s, 10) {
        Some(p) => chrono_date(p),
        None => None,
    }
}

/// Reads a date from the first ten bytes of `value` (a timestamp or a date).
pub fn parse_date_prefix(value: &str) -> (r: Option<Date>)
    ensures
        r == date_prefix(value@),
        r matches Some(d) ==> d.valid(),
{
    match byte_prefix_str(value, 10) {
        Some(p) => parse_date_chrono(p),
        None => None,
    }
}


/// A date's text is made of digits, `-` and `+` only, and ends with a digit.
pub proof fn lemma_date_str_chars(d: Date)
    ensures
        date_str(d).len() > 0,
        forall|k: int|
            0 <= k < date_str(d).len() ==> is_digit(#[trigger] date_str(d)[k]) || date_str(d)[k] == '-'
                || date_str(d)[k] == '+',
        is_digit(date_str(d).last()),
{
    let y = d.year as int;
    lemma_zero_pad_digits(d.month as nat, 2);
    lemma_zero_pad_digits(d.day as nat, 2);
    let year = if 0 <= y <= 9999 {
        zero_pad(y as nat, 4)
    } else if y < 0 {
        seq!['-'] + zero_pad((-y) as nat, 4)
    } else {
        seq!['+'] + zero_pad(y as nat, 4)
    };
    if 0 <= y <= 9999 {
        lemma_zero_pad_digits(y as nat, 4);
    } else if y < 0 {
        lemma_zero_pad_digits((-y) as nat, 4);
    } else {
        lemma_zero_pad_digits(y as nat, 4);
    }
    let m = zero_pad(d.month as nat, 2);
    let dd = zero_pad(d.day as nat, 2);
    let s = year + seq!['-'] + m + seq!['-'] + dd;
    assert(date_str(d) == s);
    assert forall|k: int| 0 <= k < s.len() implies is_digit(#[trigger] s[k]) || s[k] == '-' || s[k]
        == '+' by {
        if k < year.len() {
            assert(s[k] == year[k]);
            if !(0 <= y <= 9999) && k > 0 {
                assert(year[k] == (if y < 0 { zero_pad((-y) as nat, 4) } else { zero_pad(y as nat, 4) })[k - 1]);
            }
        } else if k == year.len() {
        } else if k < year.len() + 1 + m.len() {
            assert(s[k] == m[k - year.len() - 1]);
        } else if k == year.len() + 1 + m.len() {
        } else {
            assert(s[k] == dd[k - year.len() - 2 - m.len()]);
        }
    }
    assert(s.last() == dd.last());
}

} // verus!
