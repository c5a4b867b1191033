use arca::calendar::{
    build_vcalendar, build_vcalendar_at, count_upcoming, escape_text, events_from_recurring,
    ical_date, ical_utc_stamp, upcoming_events, weekly_filename, CalEvent,
};
use arca::db::{PlannedExpense, SubscriptionRecord};
use arca::ids::AccountId;
use arca::money::Cents;
use arca::recurring::{Cadence, Series};
use arca::rpc::LabeledSeries;

#[test]
fn escape_text_handles_specials() {
    assert_eq!(escape_text("a; b, c\\d"), "a\\; b\\, c\\\\d");
    assert_eq!(escape_text("line1\nline2\r"), "line1\\nline2");
}

#[test]
fn vcalendar_envelope_and_event_present() {
    let e = CalEvent {
        uid: "x@arca".into(),
        start_secs: 1_780_000_000,
        summary: "Rent due — $1,500.00".into(),
        description: Some("Apt; building A".into()),
    };
    let s = build_vcalendar(&vec![e]);
    assert!(s.starts_with("BEGIN:VCALENDAR\r\n"));
    assert!(s.ends_with("END:VCALENDAR\r\n"));
    assert!(s.contains("UID:x@arca\r\n"));
    assert!(s.contains("SUMMARY:Rent due — $1\\,500.00\r\n"));
    assert!(s.contains("DESCRIPTION:Apt\\; building A\r\n"));
    assert!(s.contains("DTSTART;VALUE=DATE:"));
    assert!(s.contains("METHOD:PUBLISH"));
}

#[test]
fn empty_events_still_valid_envelope() {
    let s = build_vcalendar(&Vec::new());
    assert!(s.contains("BEGIN:VCALENDAR"));
    assert!(s.contains("END:VCALENDAR"));
    assert!(!s.contains("BEGIN:VEVENT"));
}

fn series(payee: &str, label: Option<&str>, predicted_next: i64) -> LabeledSeries {
    LabeledSeries {
        series: Series {
            payee: payee.into(),
            display: payee.into(),
            cadence: Cadence::Monthly,
            count: 4,
            first_seen: 0,
            last_seen: predicted_next - 30 * 86_400,
            last_amount: Cents(-1599),
            min_amount: Cents(-1599),
            max_amount: Cents(-1599),
            avg_amount: Cents(-1599),
            predicted_next,
        },
        label: label.map(str::to_string),
        display_name: None,
        confirmed_at: label.map(|_| 1),
    }
}

#[test]
fn recurring_events_only_labeled_and_in_window() {
    let since = 1_780_000_000;
    let until = since + 30 * 86_400;
    let s = vec![
        series("netflix", Some("sub"), since + 5 * 86_400), // labeled, in window
        series("peacock", None, since + 6 * 86_400),        // unlabeled
        series("gym", Some("bill"), until + 86_400),        // past the window
        series("loan", Some("debt"), since - 86_400),       // before the window
    ];
    let events = events_from_recurring(&s, since, until);
    assert_eq!(events.len(), 1);
    assert!(events[0].summary.contains("netflix"));
    assert!(events[0].summary.contains("(sub)"));
    assert!(events[0].summary.contains("est"));
    assert_eq!(events[0].uid, "recurring-netflix@arca");
}

fn rent() -> PlannedExpense {
    PlannedExpense {
        id: 1,
        due_at: 1_780_000_000,
        amount_cents: Cents(-150_000),
        description: "Rent".to_string(),
        account_id: Some(AccountId(1)),
        business_id: None,
        status: "planned".to_string(),
    }
}

fn usage() -> SubscriptionRecord {
    SubscriptionRecord {
        id: 1,
        name: "Anthropic".to_string(),
        provider_kind: "usage_based".to_string(),
        amount_cents: None,
        cadence: None,
        next_charge_at: Some(1_780_500_000),
        account_id: None,
        business_id: None,
        active: true,
    }
}

#[test]
fn upcoming_picks_subscriptions_and_planned() {
    let planned = vec![rent()];
    let subs = vec![usage()];
    let none: Vec<LabeledSeries> = Vec::new();
    let events = upcoming_events(&planned, &subs, &none, 1_779_000_000, 30);
    // Both fall in the window.
    assert_eq!(events.len(), 2);
    let uids: Vec<&str> = events.iter().map(|e| e.uid.as_str()).collect();
    assert!(uids.iter().any(|u| u.starts_with("planned-")));
    assert!(uids.iter().any(|u| u.starts_with("sub-")));
    assert_eq!(count_upcoming(&planned, &subs, &none, 1_779_000_000, 30), 2);
}

#[test]
fn upcoming_events_come_in_order() {
    let planned = vec![rent()];
    let subs = vec![usage()];
    let rec = vec![series("gym", Some("bill"), 1_779_500_000)];
    let events = upcoming_events(&planned, &subs, &rec, 1_779_000_000, 30);
    assert_eq!(events.len(), 3);
    assert!(events[0].start_secs <= events[1].start_secs);
    assert!(events[1].start_secs <= events[2].start_secs);
    assert_eq!(events[0].uid, "recurring-gym@arca");
}

#[test]
fn dates_and_stamps() {
    // 2026-05-28 20:26:40 UTC.
    assert_eq!(ical_date(1_780_000_000), "20260528");
    assert_eq!(ical_utc_stamp(1_780_000_000), "20260528T202640Z");
    assert_eq!(weekly_filename(1_780_000_000), "arca-20260528.ics");
    let s = build_vcalendar_at(&Vec::new(), 1_780_000_000);
    assert!(s.starts_with("BEGIN:VCALENDAR\r\n"));
}

#[test]
fn escaped_text_is_one_line() {
    for raw in ["plain", "two\nlines", "; , \\", "\r\n\r\n", "ünï; çode"] {
        let e = escape_text(raw);
        assert!(!e.contains('\n'));
        assert!(!e.contains('\r'));
    }
}

#[test]
fn calendar_breaks_its_lines_with_crlf() {
    let event = CalEvent {
        uid: "planned-1@arca".to_string(),
        start_secs: 1_780_000_000,
        summary: "two\nlines\r\nor three".to_string(),
        description: Some("more\n".to_string()),
    };
    let s = build_vcalendar_at(&vec![event], 1_780_000_000);
    assert_eq!(s.matches('\n').count(), s.matches("\r\n").count());
    assert_eq!(s.matches('\r').count(), s.matches("\r\n").count());
    assert!(s.contains("SUMMARY:two\\nlines\\nor three\r\n"));
    assert!(s.contains("DTSTART;VALUE=DATE:20260528\r\n"));
}
