use arca::db::{
    rename_subscription, set_subscription_active, upsert_subscription, SubscriptionRecord,
};
use arca::debt::{bump, project_next, recurring_obligations, scope_bounds, scope_bounds_at};
use arca::ledger::list_active_subscriptions;
use arca::money::Cents;
use arca::rpc::{DebtScheduled, Scope};
use arca::time::{add_months, now_secs, MAX_INSTANT, MIN_INSTANT};
use chrono::{TimeZone, Utc};

fn record(name: &str, kind: &str, cents: i64, next: i64) -> SubscriptionRecord {
    SubscriptionRecord {
        id: 1,
        name: name.to_string(),
        provider_kind: kind.to_string(),
        amount_cents: Some(Cents(cents)),
        cadence: Some("monthly".to_string()),
        next_charge_at: Some(next),
        account_id: None,
        business_id: None,
        active: true,
    }
}

fn obligations(rows: &Vec<SubscriptionRecord>) -> Vec<DebtScheduled> {
    recurring_obligations(rows).unwrap()
}

#[test]
fn project_next_advances_monthly_to_future() {
    let now = 1_800_000_000; // fixed reference
    let start = now - 90 * 86_400;
    let due = project_next(start, Some("monthly"), now).unwrap();
    assert!(due >= now, "projected {due} must be >= now {now}");
    assert!(due - now < 32 * 86_400, "should be within one month of now");
}

#[test]
fn project_next_keeps_future_date_and_rejects_unknown() {
    let now = 1_800_000_000;
    let future = now + 10 * 86_400;
    assert_eq!(project_next(future, Some("monthly"), now), Some(future));
    assert_eq!(project_next(now - 86_400, Some("whenever"), now), None);
    assert_eq!(project_next(now - 86_400, None, now), None);
}

#[test]
fn unknown_cadence_gives_no_date() {
    let now = 1_800_000_000;
    assert_eq!(project_next(now + 86_400, Some("whenever"), now), None);
    assert_eq!(project_next(now + 86_400, None, now), None);
    let later = now_secs() + 30 * 86_400;
    let mut rows: Vec<SubscriptionRecord> = Vec::new();
    let mut odd = record("Odd", "recurring", -5_00, later);
    odd.cadence = Some("whenever".to_string());
    upsert_subscription(&mut rows, &odd);
    upsert_subscription(&mut rows, &record("Rent", "recurring", -2_000_00, later));
    let out = obligations(&rows);
    assert_eq!(out.len(), 1);
    assert_eq!(out[0].description, "Rent");
    assert_eq!(out[0].due_at, later);
}

#[test]
fn charge_on_the_first_stays_on_the_first() {
    let jan = Utc.with_ymd_and_hms(2026, 1, 1, 0, 0, 0).unwrap().timestamp();
    let mid = Utc.with_ymd_and_hms(2026, 5, 17, 9, 30, 0).unwrap().timestamp();
    let jun = Utc.with_ymd_and_hms(2026, 6, 1, 0, 0, 0).unwrap().timestamp();
    let jul = Utc.with_ymd_and_hms(2026, 7, 1, 0, 0, 0).unwrap().timestamp();
    assert_eq!(project_next(jan, Some("monthly"), mid), Some(jun));
    assert_eq!(project_next(jan, Some("quarterly"), mid), Some(jul));
}

#[test]
fn active_subscriptions_are_listed_by_name() {
    let mut rows: Vec<SubscriptionRecord> = Vec::new();
    upsert_subscription(&mut rows, &record("Water", "recurring", -30_00, 100));
    upsert_subscription(&mut rows, &record("Gym", "recurring", -20_00, 900));
    upsert_subscription(&mut rows, &record("Phone", "recurring", -40_00, 500));
    assert_eq!(set_subscription_active(&mut rows, "Phone", false), 1);
    let listed: Vec<String> =
        list_active_subscriptions(&rows).into_iter().map(|s| s.name).collect();
    assert_eq!(listed, vec!["Gym".to_string(), "Water".to_string()]);
}

#[test]
fn projecting_again_changes_nothing() {
    let now = 1_800_000_000;
    for cadence in ["weekly", "biweekly", "monthly", "quarterly", "yearly"] {
        let once = project_next(now - 400 * 86_400, Some(cadence), now).unwrap();
        assert_eq!(project_next(once, Some(cadence), now), Some(once));
    }
}

#[test]
fn steps_of_each_cadence() {
    // 2026-01-31 00:00 UTC: a month later the day is clamped to the end of February.
    let jan = Utc.with_ymd_and_hms(2026, 1, 31, 0, 0, 0).unwrap().timestamp();
    let feb = Utc.with_ymd_and_hms(2026, 2, 28, 0, 0, 0).unwrap().timestamp();
    assert_eq!(bump(jan, "weekly"), Some(jan + 7 * 86_400));
    assert_eq!(bump(jan, "biweekly"), Some(jan + 14 * 86_400));
    assert_eq!(bump(jan, "monthly"), Some(feb));
    let year = Utc.with_ymd_and_hms(2027, 1, 31, 0, 0, 0).unwrap().timestamp();
    assert_eq!(bump(jan, "yearly"), Some(year));
    assert_eq!(bump(jan, "fortnightly"), None);
    // The time of day stays, and so does the day where the month has it.
    let eve = Utc.with_ymd_and_hms(2024, 1, 30, 23, 59, 58).unwrap().timestamp();
    let leap = Utc.with_ymd_and_hms(2024, 2, 29, 23, 59, 58).unwrap().timestamp();
    assert_eq!(add_months(eve, 1), Some(leap));
    let march = Utc.with_ymd_and_hms(2024, 3, 30, 23, 59, 58).unwrap().timestamp();
    assert_eq!(add_months(eve, 2), Some(march));
    assert_eq!(add_months(eve, 0), Some(eve));
    assert_eq!(add_months(MAX_INSTANT, 1), None);
    assert_eq!(add_months(MAX_INSTANT + 1, 0), None);
    assert_eq!(add_months(eve, u32::MAX), None);
    assert_eq!(add_months(MIN_INSTANT, 0), Some(MIN_INSTANT));
}

#[test]
fn recurring_obligations_projects_active_recurring_only() {
    let now = now_secs();
    let mut rows: Vec<SubscriptionRecord> = Vec::new();
    // A monthly rent with a date in the past is projected forward.
    upsert_subscription(&mut rows, &record("Rent", "recurring", -2_000_00, now - 100 * 86_400));
    // A usage-based row is no fixed obligation.
    upsert_subscription(&mut rows, &record("OpenAI", "usage_based", -50_00, now - 5 * 86_400));
    let out = obligations(&rows);
    assert_eq!(out.len(), 1, "only the recurring obligation, not usage_based");
    assert_eq!(out[0].description, "Rent");
    assert_eq!(out[0].amount, Cents(-2_000_00));
    assert!(out[0].due_at >= now, "rent projected to a future date");
}

#[test]
fn update_subscription_renames_and_deactivates() {
    let now = now_secs();
    let mut rows: Vec<SubscriptionRecord> = Vec::new();
    upsert_subscription(&mut rows, &record("Rent", "recurring", -2_000_00, now + 5 * 86_400));
    assert_eq!(rename_subscription(&mut rows, "Rent", "Apartment"), 1);
    let out = obligations(&rows);
    assert_eq!(out.len(), 1);
    assert_eq!(out[0].description, "Apartment");
    // Renaming a name that no longer exists changes nothing.
    assert_eq!(rename_subscription(&mut rows, "Rent", "X"), 0);
    assert_eq!(set_subscription_active(&mut rows, "Apartment", false), 1);
    assert!(obligations(&rows).is_empty());
    assert_eq!(set_subscription_active(&mut rows, "Apartment", true), 1);
    assert_eq!(obligations(&rows).len(), 1);
}

#[test]
fn scope_bounds_month_ends_at_next_calendar_month() {
    // Non-leap February: exactly 28 days.
    let feb = Utc.with_ymd_and_hms(2026, 2, 14, 9, 0, 0).unwrap();
    let (since, until) = scope_bounds_at(feb.timestamp(), Scope::Month);
    assert_eq!(since, Utc.with_ymd_and_hms(2026, 2, 1, 0, 0, 0).unwrap().timestamp());
    assert_eq!(until, Utc.with_ymd_and_hms(2026, 3, 1, 0, 0, 0).unwrap().timestamp());
    assert_eq!((until - since) / 86_400, 28, "Feb 2026 is 28 days, not 31");

    // Leap February: 29 days.
    let leap = Utc.with_ymd_and_hms(2024, 2, 14, 9, 0, 0).unwrap();
    let (s2, u2) = scope_bounds_at(leap.timestamp(), Scope::Month);
    assert_eq!((u2 - s2) / 86_400, 29, "Feb 2024 is 29 days");

    // December rolls to next January.
    let dec = Utc.with_ymd_and_hms(2026, 12, 9, 0, 0, 0).unwrap();
    let (_s3, u3) = scope_bounds_at(dec.timestamp(), Scope::Month);
    assert_eq!(u3, Utc.with_ymd_and_hms(2027, 1, 1, 0, 0, 0).unwrap().timestamp());
}

#[test]
fn scope_bounds_year_ends_at_next_january() {
    let y = Utc.with_ymd_and_hms(2026, 7, 1, 0, 0, 0).unwrap();
    let (since, until) = scope_bounds_at(y.timestamp(), Scope::Year);
    assert_eq!(since, Utc.with_ymd_and_hms(2026, 1, 1, 0, 0, 0).unwrap().timestamp());
    assert_eq!(until, Utc.with_ymd_and_hms(2027, 1, 1, 0, 0, 0).unwrap().timestamp());
    assert_eq!((until - since) / 86_400, 365, "2026 is 365 days");

    let leap = Utc.with_ymd_and_hms(2024, 7, 1, 0, 0, 0).unwrap();
    let (s2, u2) = scope_bounds_at(leap.timestamp(), Scope::Year);
    assert_eq!((u2 - s2) / 86_400, 366, "2024 is 366 days");
}

#[test]
fn the_present_lies_in_its_window() {
    let now = now_secs();
    let (since, until) = scope_bounds(Scope::Month).unwrap();
    assert!(since <= now && now < until);
}
