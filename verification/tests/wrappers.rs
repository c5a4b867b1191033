use arca::json::{parse_json, Json};
use arca::text::{
    align_left, align_right, ascii_lower_string, contains, dec_string, digit_char, int_string,
    parse_i64, starts_with, str_lt, trim, white_char,
};
use arca::time::{
    ast_clock, days_in_month, display_ast, display_date, display_iso_date, display_short_date,
    parse_utc, parse_ymd, utc_clock, MAX_INSTANT, MIN_INSTANT,
};
use chrono::{Datelike, TimeZone, Timelike, Utc};
use chrono_tz::America::Puerto_Rico;

#[test]
fn white_space_and_digits_are_those_of_the_language() {
    for n in 0..=0x10_ffffu32 {
        if let Some(c) = char::from_u32(n) {
            assert_eq!(white_char(c), c.is_whitespace(), "{n:x}");
            assert_eq!(digit_char(c), c.is_ascii_digit(), "{n:x}");
        }
    }
}

#[test]
fn texts_behave_like_those_of_the_language() {
    let samples = ["", " ", "a", "ab", "abc", "  a b  ", "\u{a0}x\u{2003}", "ünï", "zz", "Z"];
    for a in samples {
        assert_eq!(trim(a), a.trim());
        assert_eq!(ascii_lower_string(a), a.to_ascii_lowercase());
        for b in samples {
            assert_eq!(contains(a, b), a.contains(b), "{a:?} {b:?}");
            assert_eq!(starts_with(a, b), a.starts_with(b));
            assert_eq!(str_lt(a, b), a < b);
        }
    }
    assert_eq!(align_right("ab", 4), format!("{:>4}", "ab"));
    assert_eq!(align_left("ab", 4), format!("{:<4}", "ab"));
    assert_eq!(align_right("abcde", 4), "abcde");
}

#[test]
fn numbers_are_written_and_read() {
    for n in [0, 1, 9, 10, 99, 100, u64::MAX] {
        assert_eq!(dec_string(n), n.to_string());
    }
    for n in [0, -1, i64::MIN, i64::MAX] {
        assert_eq!(int_string(n), n.to_string());
    }
    for s in ["", "-", "+", "0", "+7", "-12", "9223372036854775807", "9223372036854775808", "1x"] {
        assert_eq!(parse_i64(s), s.parse::<i64>().ok(), "{s}");
    }
}

#[test]
fn documents_are_read() {
    let v = parse_json(r#"{"a":1,"b":[true,null,"x"],"c":1.5,"d":18446744073709551615}"#).unwrap();
    assert_eq!(v.get_i64("a"), Some(1));
    assert_eq!(v.get("a").unwrap().as_number().as_deref(), Some("1"));
    assert_eq!(v.get("c").unwrap().as_number().as_deref(), Some("1.5"));
    assert_eq!(v.get_i64("c"), None);
    assert_eq!(v.get_u64("d"), Some(u64::MAX));
    assert_eq!(v.get_i64("d"), None);
    let b = v.get_array("b").unwrap();
    assert_eq!(b[0].as_bool(), Some(true));
    assert!(matches!(b[1], Json::Null));
    assert_eq!(b[2].as_str(), Some("x"));
    assert_eq!(v.as_object().unwrap().len(), 4);
    assert!(v.get("z").is_none());
    assert!(!v.flag("a"));
    let e = parse_json("{").unwrap_err();
    assert!(e.contains("EOF"), "got: {e}");
}

#[test]
fn ast_format() {
    // 12:00 UTC is 08:00 in Puerto Rico.
    let out = display_ast(1_779_796_800);
    assert!(out.contains("08:00"), "got {out}");
    assert!(out.contains("AST"), "got {out}");
}

#[test]
fn dates_are_shown() {
    // 2026-05-28 20:26:40 UTC, a Thursday.
    assert_eq!(display_date(1_780_000_000), "Thu May 28, 2026");
    assert_eq!(display_short_date(1_780_000_000), "May 28");
    assert_eq!(display_iso_date(1_780_000_000), "2026-05-28");
    assert!(display_iso_date(i64::MAX).contains(&i64::MAX.to_string()));
    assert_eq!(parse_ymd(" 2026-05-28 "), Some(1_779_926_400));
    assert_eq!(parse_ymd("2026-13-01"), None);
    assert_eq!(parse_utc(5), Some(5));
    assert_eq!(parse_utc(MAX_INSTANT), Some(MAX_INSTANT));
    assert_eq!(parse_utc(MAX_INSTANT + 1), None);
    assert_eq!(parse_utc(MIN_INSTANT), Some(MIN_INSTANT));
    assert_eq!(parse_utc(MIN_INSTANT - 1), None);
}

#[test]
fn iso_dates_read_back() {
    for ts in [0, 1_780_000_000, -1, -62_167_219_200, 253_402_300_800, MIN_INSTANT, MAX_INSTANT] {
        let day = ts - i64::rem_euclid(ts, 86_400);
        assert_eq!(parse_ymd(&display_iso_date(ts)), Some(day), "{}", display_iso_date(ts));
    }
    assert_eq!(display_iso_date(-62_167_219_200), "0000-01-01");
    assert_eq!(display_iso_date(-62_167_219_201), "-0001-12-31");
    assert_eq!(display_iso_date(253_402_300_800), "+10000-01-01");
    assert_eq!(display_ast(1_780_000_000), "May 28, 2026 16:26 AST");
}

#[test]
fn clocks_agree_with_the_calendar() {
    let mut ts: i64 = -3_000_000_000;
    while ts < 8_000_000_000 {
        let c = utc_clock(ts).unwrap();
        let d = Utc.timestamp_opt(ts, 0).unwrap();
        assert_eq!((c.year, c.month, c.day), (d.year(), d.month(), d.day()));
        assert_eq!((c.hour, c.minute), (d.hour(), d.minute()));
        assert_eq!(c.weekday, d.weekday().num_days_from_monday());
        // The model of the calendar: days since 1970 and the weekday of a day.
        let days = ts.div_euclid(86_400);
        assert_eq!(c.weekday as i64, (days + 3).rem_euclid(7));
        let local = ast_clock(ts).unwrap();
        let e = Puerto_Rico.timestamp_opt(ts, 0).unwrap();
        assert_eq!((local.year, local.month, local.day), (e.year(), e.month(), e.day()));
        if ts >= arca::time::SETTLED_OFFSET {
            let shifted = utc_clock(ts - 14_400).unwrap();
            assert_eq!((local.day, local.hour, local.minute), (shifted.day, shifted.hour, shifted.minute));
        }
        ts += 12_345_678;
    }
}

#[test]
fn months_have_their_lengths() {
    let expected = [31, 28, 31, 30, 31, 30, 31, 31, 30, 31, 30, 31];
    for m in 1..=12u32 {
        assert_eq!(days_in_month(2026, m), expected[m as usize - 1]);
    }
    assert_eq!(days_in_month(2024, 2), 29);
    assert_eq!(days_in_month(1900, 2), 28);
    assert_eq!(days_in_month(2000, 2), 29);
    assert_eq!(days_in_month(-4, 2), 29);
}
