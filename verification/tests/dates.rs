use growth_companion::dates::{
    add_days_to, date_le, date_to_string, iso_week_monday_chrono, next_date, parse_date_chrono,
    parse_date_prefix, Date,
};
use growth_companion::text::{byte_prefix_str, char_utf8_width, truncate_chars};

#[test]
fn chrono_reads_dates() {
    assert_eq!(parse_date_chrono("2024-02-29"), Some(Date { year: 2024, month: 2, day: 29 }));
    assert_eq!(parse_date_chrono("2025-02-29"), None);
    assert_eq!(parse_date_chrono("hello"), None);
    assert_eq!(parse_date_chrono("0007-03-09"), Some(Date { year: 7, month: 3, day: 9 }));
    assert_eq!(parse_date_chrono("2026-06-01"), Some(Date { year: 2026, month: 6, day: 1 }));
    assert_eq!(parse_date_prefix("2026-06-15T08:00:00Z"), Some(Date { year: 2026, month: 6, day: 15 }));
    assert_eq!(parse_date_prefix("2026-06"), None);
    assert_eq!(parse_date_prefix("2026-06-1é"), None);
}

#[test]
fn iso_week_mondays() {
    assert_eq!(iso_week_monday_chrono(2026, 23), Some(Date { year: 2026, month: 6, day: 1 }));
    assert_eq!(iso_week_monday_chrono(2026, 0), None);
}

#[test]
fn date_text_and_order() {
    assert_eq!(date_to_string(Date { year: 7, month: 3, day: 9 }), "0007-03-09");
    assert_eq!(date_to_string(Date { year: -44, month: 3, day: 15 }), "-0044-03-15");
    assert_eq!(date_to_string(Date { year: 12345, month: 1, day: 1 }), "+12345-01-01");
    let a = Date { year: 2026, month: 1, day: 31 };
    let b = Date { year: 2026, month: 2, day: 1 };
    assert!(date_le(a, b) && !date_le(b, a));
    assert_eq!(next_date(a), b);
    assert_eq!(add_days_to(Date { year: 2024, month: 2, day: 27 }, 3), Date { year: 2024, month: 3, day: 1 });
    assert_eq!(next_date(Date { year: 2026, month: 12, day: 31 }), Date { year: 2027, month: 1, day: 1 });
}

#[test]
fn byte_prefixes_follow_char_boundaries() {
    assert_eq!(byte_prefix_str("héllo", 3), Some("hé"));
    assert_eq!(byte_prefix_str("héllo", 2), None);
    assert_eq!(byte_prefix_str("ab", 5), None);
    assert_eq!(char_utf8_width('a'), 1);
    assert_eq!(char_utf8_width('é'), 2);
    assert_eq!(char_utf8_width('汉'), 3);
    assert_eq!(char_utf8_width('😀'), 4);
    assert_eq!(truncate_chars("abcdef", 4), "abcd...");
    assert_eq!(truncate_chars("abc", 4), "abc");
}
