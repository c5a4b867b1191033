use arca::db::{
    upsert_account, upsert_transaction, Account, BalanceSnapshot, Transaction,
};
use arca::ids::{AccountId, TransactionId};
use arca::money::Cents;
use arca::report::{
    ast_date, build_monthly_report, monthly_report, render_markdown, Books, DriftShare, MonthWindow,
};
use arca::time::now_secs;
use chrono::{TimeZone, Utc};

fn acct(name: &str, kind: &str, ac: Option<&str>, tier: Option<&str>) -> Account {
    Account {
        id: None,
        name: name.into(),
        kind: kind.into(),
        asset_class: ac.map(str::to_string),
        tier: tier.map(str::to_string),
        currency: "USD".into(),
        provider_id: None,
        business_id: None,
        external_id: None,
        active: true,
    }
}

fn books() -> Books {
    Books {
        accounts: Vec::new(),
        snapshots: Vec::new(),
        transactions: Vec::new(),
        businesses: Vec::new(),
        subscriptions: Vec::new(),
        labels: Vec::new(),
    }
}

fn add(b: &mut Books, a: &Account) -> AccountId {
    let fresh = AccountId(b.accounts.len() as i64 + 1);
    upsert_account(&mut b.accounts, a, fresh).unwrap()
}

fn post(b: &mut Books, aid: AccountId, posted_at: i64, amt: i64, cat: &str, ext: &str) {
    let t = Transaction {
        id: None,
        account_id: aid,
        posted_at,
        amount_cents: Cents(amt),
        currency: "USD".into(),
        description: None,
        category: Some(cat.into()),
        tag: None,
        business_id: None,
        external_id: Some(ext.into()),
        source: "manual".into(),
    };
    let fresh = TransactionId(b.transactions.len() as i64 + 1);
    upsert_transaction(&mut b.transactions, &b.accounts, &t, fresh).unwrap();
}

fn window() -> MonthWindow {
    MonthWindow { label_year: 2026, label_month: 4, since: 1_775_000_000, until: 1_777_000_000 }
}

#[test]
fn prior_month_window_january_wraps() {
    let as_of = Utc.with_ymd_and_hms(2026, 1, 5, 12, 0, 0).single().unwrap().timestamp();
    let w = MonthWindow::prior_month_ast(as_of);
    assert_eq!(w.label(), "2025-12");
    assert!(w.since < w.until);
    // From midnight to midnight in Puerto Rico.
    assert_eq!(w.since, Utc.with_ymd_and_hms(2025, 12, 1, 4, 0, 0).unwrap().timestamp());
    assert_eq!(w.until, Utc.with_ymd_and_hms(2026, 1, 1, 4, 0, 0).unwrap().timestamp());
}

#[test]
fn no_window_outside_the_calendar() {
    assert!(MonthWindow::prior_month(i64::MAX).is_none());
    assert!(MonthWindow::prior_month(1_780_000_000).is_some());
}

#[test]
fn report_with_no_prior_snapshot_reports_none() {
    let r = build_monthly_report(&books(), window()).unwrap();
    assert!(r.net_worth_prior.is_none());
    assert_eq!(r.net_worth_now, Cents::zero());
}

#[test]
fn debt_paydown_counts_negative_debt_tx() {
    let mut b = books();
    let card = add(&mut b, &acct("CC", "debt", None, None));
    // $200 paid back, then $50 drawn anew.
    post(&mut b, card, 1_775_500_000, -200_00, "rent", "a");
    post(&mut b, card, 1_775_600_000, 50_00, "rent", "b");
    let r = build_monthly_report(&b, window()).unwrap();
    assert_eq!(r.debt_paydown, Cents(150_00));
}

#[test]
fn render_markdown_contains_section_headers() {
    let mut b = books();
    let e = add(&mut b, &acct("E", "brokerage", Some("equity"), Some("t2")));
    let now = now_secs();
    b.snapshots.push(BalanceSnapshot {
        id: 1,
        account_id: e,
        taken_at: now,
        amount_cents: Cents(10_000_00),
    });
    let w = MonthWindow::prior_month_ast(now);
    let report = monthly_report(&b, w).unwrap().unwrap();
    let shares: Vec<DriftShare> = report
        .pp_drift
        .iter()
        .map(|_| DriftShare { actual_pct: "1.0".to_string(), drift_pp: "-2.0".to_string() })
        .collect();
    let md = render_markdown(&report, &shares);
    assert!(md.contains("# arca monthly report"));
    assert!(md.contains("## Net worth"));
    assert!(md.contains("## Cash flow by business"));
    assert!(md.contains("## Permanent portfolio drift"));
    assert!(md.contains("## Tier 1 backbone"));
    assert!(md.contains("## Debt paydown"));
    assert!(md.contains("## Top expense categories"));
    assert!(md.contains("## API & subscriptions"));
}

#[test]
fn top_expenses_ordered_by_magnitude_desc() {
    let mut b = books();
    let a = add(&mut b, &acct("Checking", "asset", Some("cash"), None));
    let w = window();
    for (i, (cat, amt)) in [("rent", -1_500_00), ("food", -250_00), ("gas", -80_00)]
        .iter()
        .enumerate()
    {
        post(&mut b, a, w.since + (i as i64) * 100, *amt, cat, &format!("e{i}"));
    }
    let r = build_monthly_report(&b, w).unwrap();
    let cats: Vec<&str> = r.top_expenses.iter().map(|c| c.category.as_str()).collect();
    assert_eq!(cats, vec!["rent", "food", "gas"]);
    assert!(r.top_expenses.iter().all(|c| c.amount < Cents(0)));
}

#[test]
fn no_report_where_detection_overflows() {
    let mut b = books();
    let a = add(&mut b, &acct("Checking", "asset", None, None));
    for i in 0..3 {
        post(&mut b, a, i * 30 * 86_400, i64::MIN, "rent", &format!("x{i}"));
        b.transactions[i as usize].description = Some("Rent".to_string());
    }
    assert!(monthly_report(&b, window()).is_none());
}

#[test]
fn a_sum_of_the_report_that_overflows_is_an_error() {
    let mut b = books();
    let a = add(&mut b, &acct("Checking", "asset", None, None));
    let w = window();
    post(&mut b, a, w.since, i64::MIN, "rent", "x");
    post(&mut b, a, w.since, i64::MIN, "rent", "y");
    assert!(build_monthly_report(&b, w).is_err());
}

#[test]
fn dates_of_the_report_are_local() {
    // 02:00 UTC is the evening before in Puerto Rico.
    let ts = Utc.with_ymd_and_hms(2026, 5, 2, 2, 0, 0).unwrap().timestamp();
    assert!(ast_date(ts).contains("01"), "got {}", ast_date(ts));
}
