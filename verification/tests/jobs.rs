use arca::config::{weekday_from_str, CalendarCfg, ReportsCfg};
use arca::db::{Business, PlannedExpense, SubscriptionRecord, Transaction};
use arca::digest;
use arca::handler::Tables;
use arca::ids::{AccountId, BusinessId, TransactionId};
use arca::money::Cents;
use arca::report::{render_markdown, Books, DriftShare, MonthWindow};
use arca::reports::{self, ReportRun};
use arca::store::{last_job_run, pending_migrations, record_job_run, JobRun};
use arca::time::Weekday;
use chrono::{TimeZone, Utc};

fn utc(y: i32, m: u32, d: u32, h: u32) -> i64 {
    Utc.with_ymd_and_hms(y, m, d, h, 0, 0).single().unwrap().timestamp()
}

fn reports_cfg() -> ReportsCfg {
    ReportsCfg {
        reports_dir: "/tmp".to_string(),
        check_interval_secs: 3600,
        min_day_of_month: 1,
        hour_at_or_after: 6,
    }
}

#[test]
fn not_due_before_min_day() {
    // 17:00 UTC is 13:00 in Puerto Rico, on the second.
    let mut c = reports_cfg();
    c.min_day_of_month = 3;
    assert!(!reports::is_due(&c, utc(2026, 5, 2, 17), None));
}

#[test]
fn not_due_before_hour() {
    // 04:00 UTC is midnight.
    assert!(!reports::is_due(&reports_cfg(), utc(2026, 5, 1, 4), None));
}

#[test]
fn due_on_first_at_or_after_hour() {
    assert!(reports::is_due(&reports_cfg(), utc(2026, 5, 1, 12), None));
}

#[test]
fn not_due_if_last_run_this_month() {
    let last_run = utc(2026, 5, 2, 12);
    assert!(!reports::is_due(&reports_cfg(), utc(2026, 5, 3, 12), Some(last_run)));
}

#[test]
fn due_if_last_run_previous_month() {
    let last_run = utc(2026, 4, 15, 12);
    assert!(reports::is_due(&reports_cfg(), utc(2026, 5, 1, 12), Some(last_run)));
}

#[test]
fn the_month_turns_in_puerto_rico() {
    // 03:00 UTC of the first is still the last day of April there.
    let last_run = utc(2026, 4, 30, 12);
    assert!(!reports::is_due(&reports_cfg(), utc(2026, 5, 1, 3), Some(last_run)));
}

#[test]
fn report_is_named_after_its_month() {
    let w = MonthWindow { label_year: 2026, label_month: 4, since: 0, until: 1 };
    assert_eq!(reports::report_filename(&w), "2026-04.md");
    assert_eq!(reports::JOB_NAME, "report.monthly");
}

fn digest_cfg() -> CalendarCfg {
    CalendarCfg {
        ics_dir: "/tmp".to_string(),
        check_interval_secs: 3600,
        day_of_week: Weekday::Mon,
        hour_at_or_after: 7,
        lookahead_days: 30,
        send_when_empty: false,
    }
}

#[test]
fn not_due_wrong_weekday() {
    // 2026-05-22 is a Friday.
    assert!(!digest::is_due(&digest_cfg(), utc(2026, 5, 22, 13), None));
}

#[test]
fn due_on_monday_after_hour() {
    // 2026-05-25 is a Monday; 12:00 UTC is 08:00.
    assert!(digest::is_due(&digest_cfg(), utc(2026, 5, 25, 12), None));
}

#[test]
fn not_due_if_already_run_this_week() {
    let last = utc(2026, 5, 25, 11);
    assert!(!digest::is_due(&digest_cfg(), utc(2026, 5, 25, 12), Some(last)));
}

#[test]
fn empty_with_send_when_empty_false_records_job() {
    let run = digest::maybe_run(
        &digest_cfg(),
        utc(2026, 5, 25, 12),
        None,
        &Vec::new(),
        &Vec::new(),
        &Vec::new(),
    );
    assert!(matches!(run, digest::DigestRun::Empty));
    let mut jobs: Vec<JobRun> = Vec::new();
    record_job_run(&mut jobs, digest::JOB_NAME, utc(2026, 5, 25, 12), "empty");
    assert!(last_job_run(&jobs, digest::JOB_NAME).is_some());
}

fn rent() -> PlannedExpense {
    PlannedExpense {
        id: 1,
        due_at: 1_780_000_000,
        amount_cents: Cents(-150_000),
        description: "Rent".to_string(),
        account_id: Some(AccountId(1)),
        business_id: None,
        status: "planned".to_string(),
    }
}

#[test]
fn non_empty_writes_ics() {
    let run = digest::maybe_run(
        &digest_cfg(),
        utc(2026, 5, 25, 12),
        None,
        &vec![rent()],
        &Vec::new(),
        &Vec::new(),
    );
    match run {
        digest::DigestRun::Write { filename, ics } => {
            assert_eq!(filename, "arca-20260525.ics");
            assert!(ics.contains("Rent"));
        }
        _ => panic!("no .ics file written"),
    }
}

#[test]
fn digest_that_is_not_due_does_nothing() {
    let run = digest::maybe_run(
        &digest_cfg(),
        utc(2026, 5, 22, 13),
        None,
        &vec![rent()],
        &Vec::new(),
        &Vec::new(),
    );
    assert!(matches!(run, digest::DigestRun::NotDue));
    let text = digest::preview(&vec![rent()], &Vec::new(), &Vec::new(), 1_779_000_000, 30);
    assert!(text.contains("Rent"));
}

#[test]
fn week_begins_on_the_configured_day() {
    // Friday back to Monday, and Sunday back to Saturday.
    assert_eq!(digest::start_of_week((2026, 5, 22), Weekday::Mon), Some((2026, 5, 18)));
    assert_eq!(digest::start_of_week((2026, 3, 1), Weekday::Sat), Some((2026, 2, 28)));
    assert_eq!(digest::start_of_week((2026, 5, 25), Weekday::Mon), Some((2026, 5, 25)));
    // Over the end of a year, and of a leap February.
    assert_eq!(digest::start_of_week((2026, 1, 1), Weekday::Wed), Some((2025, 12, 31)));
    assert_eq!(digest::start_of_week((2024, 3, 1), Weekday::Thu), Some((2024, 2, 29)));
    // No day before the first of the calendar, which is a Thursday; none that is no day.
    assert_eq!(digest::start_of_week((-262143, 1, 1), Weekday::Fri), None);
    assert_eq!(digest::start_of_week((2026, 2, 30), Weekday::Mon), None);
}

#[test]
fn weekdays_by_name() {
    assert_eq!(weekday_from_str("mon"), Some(Weekday::Mon));
    assert_eq!(weekday_from_str("noday"), None);
}

#[test]
fn runs_are_remembered_by_name() {
    let mut jobs: Vec<JobRun> = Vec::new();
    assert_eq!(last_job_run(&jobs, "a"), None);
    record_job_run(&mut jobs, "a", 0, "fresh");
    // A row at zero has not run.
    assert_eq!(last_job_run(&jobs, "a"), None);
    record_job_run(&mut jobs, "a", 10, "ok");
    record_job_run(&mut jobs, "b", 20, "ok");
    record_job_run(&mut jobs, "a", 30, "ok");
    assert_eq!(last_job_run(&jobs, "a"), Some(30));
    assert_eq!(last_job_run(&jobs, "b"), Some(20));
    assert_eq!(jobs.len(), 2);
}

#[test]
fn migrations_apply_idempotently() {
    let names = vec!["0001_init", "0002_tags", "0003_jobs"];
    assert_eq!(pending_migrations(&names, &Vec::new()), names);
    let applied: Vec<String> = names.iter().map(|n| n.to_string()).collect();
    assert!(pending_migrations(&names, &applied).is_empty());
    assert_eq!(
        pending_migrations(&names, &vec!["0002_tags".to_string()]),
        vec!["0001_init", "0003_jobs"]
    );
}

fn no_books() -> Books {
    Books {
        accounts: Vec::new(),
        snapshots: Vec::new(),
        transactions: Vec::new(),
        businesses: Vec::new(),
        subscriptions: Vec::new(),
        labels: Vec::new(),
    }
}

#[test]
fn maybe_run_writes_file_and_records_job() {
    let as_of = utc(2026, 5, 1, 12);
    let mut jobs: Vec<JobRun> = Vec::new();
    let last = last_job_run(&jobs, reports::JOB_NAME);
    match reports::maybe_run(&reports_cfg(), as_of, last, &no_books()) {
        Some(ReportRun::Write { filename, report }) => {
            assert_eq!(filename, "2026-04.md");
            let shares: Vec<DriftShare> = report
                .pp_drift
                .iter()
                .map(|_| DriftShare { actual_pct: "0.00".into(), drift_pp: "-33.33".into() })
                .collect();
            let body = render_markdown(&report, &shares);
            assert!(body.contains("# arca monthly report — 2026-04"));
        }
        other => panic!("no report: {other:?}"),
    }
    record_job_run(&mut jobs, reports::JOB_NAME, as_of, "ok");
    let last = last_job_run(&jobs, reports::JOB_NAME);
    assert!(last.is_some(), "scheduled_jobs row should be written");
    // Once a month: an hour later nothing is due.
    let again = reports::maybe_run(&reports_cfg(), as_of + 3_600, last, &no_books());
    assert!(matches!(again, Some(ReportRun::NotDue)));
}

#[test]
fn report_whose_sum_overflows_is_not_written() {
    let mut books = no_books();
    books.businesses.push(Business {
        id: BusinessId(1),
        tag: "main".into(),
        display_name: "Main".into(),
        active: true,
    });
    for n in 0..2 {
        books.transactions.push(Transaction {
            id: Some(TransactionId(n)),
            account_id: AccountId(1),
            posted_at: utc(2026, 4, 10, 12),
            amount_cents: Cents(i64::MAX),
            currency: "USD".into(),
            description: None,
            category: None,
            tag: None,
            business_id: Some(BusinessId(1)),
            external_id: None,
            source: "manual".into(),
        });
    }
    let run = reports::maybe_run(&reports_cfg(), utc(2026, 5, 1, 12), None, &books);
    assert!(matches!(run, Some(ReportRun::Failed(_))), "{run:?}");
}

fn tables() -> Tables {
    Tables {
        accounts: Vec::new(),
        snapshots: Vec::new(),
        transactions: Vec::new(),
        businesses: Vec::new(),
        providers: Vec::new(),
        subscriptions: Vec::new(),
        planned: Vec::new(),
        rules: Vec::new(),
        history: Vec::new(),
        labels: Vec::new(),
    }
}

fn renewal(name: &str, active: bool) -> SubscriptionRecord {
    SubscriptionRecord {
        id: 1,
        name: name.into(),
        provider_kind: "recurring".into(),
        amount_cents: Some(Cents(-999)),
        cadence: Some("monthly".into()),
        next_charge_at: Some(1_780_000_000),
        account_id: None,
        business_id: None,
        active,
    }
}

#[test]
fn weekly_digest_reads_the_tables() {
    let monday = utc(2026, 5, 25, 12);
    let mut t = tables();
    assert!(matches!(
        digest::weekly_run(&digest_cfg(), monday, None, &t),
        Some(digest::DigestRun::Empty)
    ));
    // What is paid, out of the window or switched off does not count.
    let mut paid = rent();
    paid.status = "paid".into();
    let mut far = rent();
    far.due_at = monday + 31 * 86_400;
    t.planned = vec![paid, far];
    t.subscriptions = vec![renewal("Dropped", false)];
    assert!(matches!(
        digest::weekly_run(&digest_cfg(), monday, None, &t),
        Some(digest::DigestRun::Empty)
    ));
    t.planned.push(rent());
    t.subscriptions.push(renewal("Hosting", true));
    match digest::weekly_run(&digest_cfg(), monday, None, &t) {
        Some(digest::DigestRun::Write { filename, ics }) => {
            assert_eq!(filename, "arca-20260525.ics");
            assert_eq!(ics.matches("BEGIN:VEVENT").count(), 2);
            assert!(ics.contains("Rent"));
            assert!(ics.contains("Hosting"));
            assert!(!ics.contains("Dropped"));
        }
        other => panic!("no calendar: {other:?}"),
    }
    let mut wide = digest_cfg();
    wide.lookahead_days = i64::MAX;
    assert!(digest::weekly_run(&wide, monday, None, &t).is_none());
}
