use arca::alerts::{
    cadence_max_age, find_stale, latest_alert_fire, payload_shape, reminder_should_fire,
    reminder_target_secs, render_pp_band_breach, render_provider_stale, rule_i64_field, rule_kind,
    summarize_alert, validate_rule_json, within_dedup_window, AlertFire, AlertReading,
    BalanceLowHit, BandwidthHighHit, BreachReading, PayloadShape, ReminderHit, StaleProvider,
    DEFAULT_STALE_MAX_AGE_SECS,
};
use arca::config::AlertsCfg;
use arca::db::{
    set_alert_rule, upsert_account, upsert_alert_rule_by_name, upsert_provider, Account, AlertRule,
    BalanceSnapshot, ProviderRow,
};
use arca::handler::Tables;
use arca::ids::{AccountId, ProviderId};
use arca::ledger::latest_balances;
use arca::money::Cents;
use arca::pp::{allocation, drift};
use arca::report::DriftShare;
use arca::scheduler::{fold_poll, PollOutcome};
use arca::store::record_poll;
use arca::time::{ast_clock, Clock};
use arca::watch::tick;
use chrono::TimeZone;
use chrono_tz::America::Puerto_Rico;

const NOW: i64 = 1_900_000_000;

fn prow(
    kind: &str,
    cadence: &str,
    last_poll_at: Option<i64>,
    last_status: Option<&str>,
) -> ProviderRow {
    ProviderRow {
        id: ProviderId(0),
        kind: kind.into(),
        label: kind.into(),
        config_json: "{}".into(),
        secret_ref: None,
        poll_cadence: cadence.into(),
        last_poll_at,
        last_status: last_status.map(str::to_string),
    }
}

#[test]
fn stale_flags_error_status_any_cadence() {
    let rows = [prow("plaid", "daily", Some(NOW - 10), Some("error"))];
    let stale = find_stale(&rows, NOW, DEFAULT_STALE_MAX_AGE_SECS);
    assert_eq!(stale.len(), 1);
    assert!(stale[0].reason.contains("last_status=error"));
}

#[test]
fn stale_flags_aged_daily_poller() {
    // Polled five days ago; the grace of a daily poller is two days.
    let rows = [prow("mercury", "daily", Some(NOW - 5 * 86_400), Some("ok"))];
    let stale = find_stale(&rows, NOW, DEFAULT_STALE_MAX_AGE_SECS);
    assert_eq!(stale.len(), 1);
    assert!(stale[0].reason.contains("no poll in 5d"));
}

#[test]
fn stale_ignores_fresh_poller() {
    let rows = [prow("mercury", "daily", Some(NOW - 3_600), Some("ok"))];
    assert!(find_stale(&rows, NOW, DEFAULT_STALE_MAX_AGE_SECS).is_empty());
}

#[test]
fn stale_ignores_manual_cadence() {
    let rows = [prow("manual", "manual", Some(NOW - 99 * 86_400), Some("ok"))];
    assert!(find_stale(&rows, NOW, DEFAULT_STALE_MAX_AGE_SECS).is_empty());
}

#[test]
fn stale_ignores_never_polled_without_error() {
    let rows = [prow("stripe", "daily", None, None)];
    assert!(find_stale(&rows, NOW, DEFAULT_STALE_MAX_AGE_SECS).is_empty());
}

#[test]
fn stale_flags_never_polled_with_error() {
    let rows = [prow("stripe", "daily", None, Some("error"))];
    assert_eq!(find_stale(&rows, NOW, DEFAULT_STALE_MAX_AGE_SECS).len(), 1);
}

#[test]
fn weekly_grace_wider_than_daily() {
    // Five days silent: stale for a daily poller, fine for a weekly one.
    let daily = [prow("a", "daily", Some(NOW - 5 * 86_400), Some("ok"))];
    let weekly = [prow("b", "weekly", Some(NOW - 5 * 86_400), Some("ok"))];
    assert_eq!(find_stale(&daily, NOW, DEFAULT_STALE_MAX_AGE_SECS).len(), 1);
    assert!(find_stale(&weekly, NOW, DEFAULT_STALE_MAX_AGE_SECS).is_empty());
}

#[test]
fn grace_of_each_cadence() {
    assert_eq!(cadence_max_age("manual", 5), None);
    assert_eq!(cadence_max_age("something", 5), Some(5));
}

#[test]
fn stale_report_names_the_providers() {
    let rows = [prow("plaid", "daily", None, Some("error"))];
    let stale = find_stale(&rows, NOW, DEFAULT_STALE_MAX_AGE_SECS);
    let body = render_provider_stale(&stale);
    assert!(body.contains("plaid"), "got: {body}");
    assert!(body.contains("last_status=error"), "got: {body}");
}

#[test]
fn validate_rule_json_accepts_known_kinds() {
    assert_eq!(
        validate_rule_json(r#"{"kind":"provider.stale"}"#).unwrap(),
        "provider.stale"
    );
    assert_eq!(
        validate_rule_json(r#"{"kind":"pp.band_breach"}"#).unwrap(),
        "pp.band_breach"
    );
}

#[test]
fn validate_rule_json_rejects_garbage_and_unknown() {
    assert!(validate_rule_json("not json").is_err());
    assert!(validate_rule_json(r#"{"nope":1}"#).is_err());
    let e = validate_rule_json(r#"{"kind":"totally.bogus"}"#).unwrap_err();
    assert!(e.contains("unknown alert kind"), "got: {e}");
}

#[test]
fn summarize_provider_stale_lists_labels() {
    let reading = AlertReading::Stale(vec![StaleProvider {
        kind: "plaid".into(),
        label: "plaid".into(),
        last_status: Some("error".into()),
        last_poll_at: None,
        reason: "last_status=error".into(),
    }]);
    let s = summarize_alert(Some("provider.stale"), "[]", &reading);
    assert!(s.contains("1 provider(s) stale"), "got: {s}");
    assert!(s.contains("plaid"));
}

#[test]
fn summarize_unknown_kind_truncates_payload() {
    let s = summarize_alert(None, "  {\"x\":1}  ", &AlertReading::Unreadable);
    assert_eq!(s, "{\"x\":1}");
}

#[test]
fn summarize_breach_names_the_sleeves() {
    let reading = AlertReading::Breach(vec![
        BreachReading { asset_class: "equity".into(), band_breach: true, whole_pct: "60".into() },
        BreachReading { asset_class: "cash".into(), band_breach: false, whole_pct: "30".into() },
    ]);
    let s = summarize_alert(Some("pp.band_breach"), "[]", &reading);
    assert!(s.contains("equity"), "got: {s}");
    assert!(!s.contains("cash"), "got: {s}");
}

#[test]
fn payloads_are_told_apart_by_kind() {
    assert!(matches!(payload_shape(Some("provider.stale")), PayloadShape::Stale));
    assert!(matches!(payload_shape(Some("pp.band_breach")), PayloadShape::Breach));
    assert!(matches!(payload_shape(Some("balance.low")), PayloadShape::BalanceLow));
    assert!(matches!(payload_shape(Some("bandwidth.high")), PayloadShape::BandwidthHigh));
    assert!(matches!(payload_shape(Some("reminder")), PayloadShape::Reminder));
    assert!(matches!(payload_shape(Some("else")), PayloadShape::Other));
    assert!(matches!(payload_shape(None), PayloadShape::Other));
}

#[test]
fn validate_balance_low_requires_account_and_min() {
    assert!(validate_rule_json(r#"{"kind":"balance.low","min_cents":100}"#).is_err());
    assert!(validate_rule_json(r#"{"kind":"balance.low","account":"x"}"#).is_err());
    assert_eq!(
        validate_rule_json(r#"{"kind":"balance.low","account":"x","min_cents":100}"#).unwrap(),
        "balance.low"
    );
}

#[test]
fn summarize_balance_low_formats_money() {
    let reading = AlertReading::BalanceLow(BalanceLowHit {
        account: "First Bank Checking".into(),
        balance_cents: 12_345,
        min_cents: 50_000,
    });
    let s = summarize_alert(Some("balance.low"), "{}", &reading);
    assert!(s.contains("First Bank Checking"), "got: {s}");
    assert!(s.contains("$123.45"), "got: {s}");
    assert!(s.contains("$500.00"), "got: {s}");
}

/// An engine's world: rules, accounts, readings and firings.
struct World {
    accounts: Vec<Account>,
    snapshots: Vec<BalanceSnapshot>,
    providers: Vec<ProviderRow>,
    rules: Vec<AlertRule>,
    history: Vec<AlertFire>,
    now: i64,
}

impl World {
    fn new() -> World {
        World {
            accounts: Vec::new(),
            snapshots: Vec::new(),
            providers: Vec::new(),
            rules: Vec::new(),
            history: Vec::new(),
            now: NOW,
        }
    }

    fn account(&mut self, a: &Account) -> AccountId {
        let fresh = AccountId(self.accounts.len() as i64 + 1);
        upsert_account(&mut self.accounts, a, fresh).unwrap()
    }

    fn snapshot(&mut self, account_id: AccountId, cents: i64) {
        let id = self.snapshots.len() as i64 + 1;
        self.snapshots.push(BalanceSnapshot {
            id,
            account_id,
            taken_at: self.now,
            amount_cents: Cents(cents),
        });
    }

    fn tables(&self) -> Tables {
        Tables {
            accounts: self.accounts.iter().cloned().collect(),
            snapshots: self.snapshots.clone(),
            transactions: Vec::new(),
            businesses: Vec::new(),
            providers: self.providers.iter().cloned().collect(),
            subscriptions: Vec::new(),
            planned: Vec::new(),
            rules: self.rules.iter().cloned().collect(),
            history: Vec::new(),
            labels: Vec::new(),
        }
    }

    fn evaluate(&mut self) {
        let window = AlertsCfg::default().dedup_window_secs;
        assert!(tick(self.tables(), self.now, &mut self.history, window));
    }
}

fn checking(name: &str) -> Account {
    Account {
        id: None,
        name: name.into(),
        kind: "asset".into(),
        asset_class: Some("cash".into()),
        tier: None,
        currency: "USD".into(),
        provider_id: None,
        business_id: None,
        external_id: None,
        active: true,
    }
}

#[test]
fn balance_low_fires_below_threshold_only() {
    let mut w = World::new();
    let aid = w.account(&checking("Checking"));
    let rule_id = set_alert_rule(
        &mut w.rules,
        "checking.low",
        r#"{"kind":"balance.low","account":"Checking","min_cents":50000}"#,
        "xmpp",
        true,
        1,
    );
    // Above the threshold nothing fires.
    w.snapshot(aid, 600_00);
    w.evaluate();
    assert!(latest_alert_fire(&w.history, rule_id).is_none());
    // Below it fires.
    w.snapshot(aid, 100_00);
    w.evaluate();
    assert!(latest_alert_fire(&w.history, rule_id).is_some());
}

#[test]
fn validate_bandwidth_high_requires_account_and_max() {
    assert!(validate_rule_json(r#"{"kind":"bandwidth.high","max_gb":1600}"#).is_err());
    assert!(validate_rule_json(r#"{"kind":"bandwidth.high","account":"x"}"#).is_err());
    assert_eq!(
        validate_rule_json(r#"{"kind":"bandwidth.high","account":"x","max_gb":1600}"#).unwrap(),
        "bandwidth.high"
    );
}

#[test]
fn summarize_bandwidth_high_formats_gb() {
    let reading = AlertReading::BandwidthHigh(BandwidthHighHit {
        account: "Vultr — web1 (egress GB)".into(),
        used_gb: 1700,
        max_gb: 1600,
    });
    let s = summarize_alert(Some("bandwidth.high"), "{}", &reading);
    assert!(s.contains("Vultr — web1"), "got: {s}");
    assert!(s.contains("1700 GB"), "got: {s}");
    assert!(s.contains("max 1600 GB"), "got: {s}");
}

#[test]
fn bandwidth_high_fires_above_threshold_only() {
    let mut w = World::new();
    let aid = w.account(&checking("Vultr egress"));
    let rule_id = set_alert_rule(
        &mut w.rules,
        "web1.bandwidth",
        r#"{"kind":"bandwidth.high","account":"Vultr egress","max_gb":1600}"#,
        "xmpp",
        true,
        1,
    );
    w.snapshot(aid, 1200);
    w.evaluate();
    assert!(latest_alert_fire(&w.history, rule_id).is_none());
    w.snapshot(aid, 1700);
    w.evaluate();
    assert!(latest_alert_fire(&w.history, rule_id).is_some());
}

#[test]
fn engine_seeds_and_fires_provider_stale() {
    let mut w = World::new();
    let pid = upsert_provider(&mut w.providers, &prow("plaid", "daily", None, None), ProviderId(1));
    record_poll(&mut w.providers, pid, "error", NOW);
    let rule_id = upsert_alert_rule_by_name(
        &mut w.rules,
        "provider.stale",
        r#"{"kind":"provider.stale"}"#,
        "xmpp",
        1,
    );
    w.evaluate();
    assert!(
        latest_alert_fire(&w.history, rule_id).is_some(),
        "provider.stale should fire on an errored poller"
    );
}

fn t2(name: &str, ac: &str) -> Account {
    Account {
        id: None,
        name: name.into(),
        kind: "brokerage".into(),
        asset_class: Some(ac.into()),
        tier: Some("t2".into()),
        currency: "USD".into(),
        provider_id: None,
        business_id: None,
        external_id: None,
        active: true,
    }
}

fn skewed() -> World {
    let mut w = World::new();
    let e = w.account(&t2("E", "equity"));
    let b = w.account(&t2("B", "long_treasuries"));
    let c = w.account(&t2("C", "cash"));
    w.snapshot(e, 60_000_00);
    w.snapshot(b, 30_000_00);
    w.snapshot(c, 10_000_00);
    w
}

#[test]
fn render_includes_breach_row_and_bands() {
    let w = skewed();
    let alloc = allocation(&latest_balances(&w.snapshots), &w.accounts);
    let rows = drift(&alloc);
    let shares: Vec<DriftShare> = rows
        .iter()
        .map(|_| DriftShare { actual_pct: "0.0".to_string(), drift_pp: "0.0".to_string() })
        .collect();
    let body = render_pp_band_breach(&alloc, &rows, &shares);
    assert!(body.contains("BREACH"), "body missing BREACH marker: {body}");
    assert!(body.contains("Bands: lower=22%  upper=44%"));
    assert!(body.contains("equity"));
    assert!(body.contains("cash"));
}

#[test]
fn engine_skips_when_no_breach() {
    let mut w = World::new();
    for (n, ac) in [("E", "equity"), ("B", "long_treasuries"), ("C", "cash")] {
        let id = w.account(&t2(n, ac));
        w.snapshot(id, 10_000_00);
    }
    let rule_id = upsert_alert_rule_by_name(
        &mut w.rules,
        "pp.band_breach",
        r#"{"kind":"pp.band_breach"}"#,
        "xmpp",
        1,
    );
    w.evaluate();
    assert!(latest_alert_fire(&w.history, rule_id).is_none());
}

#[test]
fn engine_records_history_on_breach() {
    let mut w = skewed();
    let rule_id = upsert_alert_rule_by_name(
        &mut w.rules,
        "pp.band_breach",
        r#"{"kind":"pp.band_breach"}"#,
        "xmpp",
        1,
    );
    w.evaluate();
    assert!(latest_alert_fire(&w.history, rule_id).is_some());
}

#[test]
fn engine_respects_dedup_window() {
    let mut w = skewed();
    upsert_alert_rule_by_name(
        &mut w.rules,
        "pp.band_breach",
        r#"{"kind":"pp.band_breach"}"#,
        "xmpp",
        1,
    );
    w.evaluate();
    w.evaluate();
    // Twice within the window: one firing.
    assert_eq!(w.history.len(), 1, "dedup window should suppress second fire");
    // After the window it fires again.
    w.now = NOW + AlertsCfg::default().dedup_window_secs + 1;
    w.evaluate();
    assert_eq!(w.history.len(), 2);
}

#[test]
fn dedup_window_edges() {
    assert!(!within_dedup_window(None, 100, 10));
    assert!(within_dedup_window(Some(95), 100, 10));
    assert!(!within_dedup_window(Some(0), 100, 10));
}

fn at(y: i32, m: u32, d: u32, h: u32, mi: u32) -> i64 {
    Puerto_Rico
        .with_ymd_and_hms(y, m, d, h, mi, 0)
        .unwrap()
        .timestamp()
}

fn clock(y: i32, m: u32, d: u32, h: u32) -> Clock {
    ast_clock(at(y, m, d, h, 0)).unwrap()
}

#[test]
fn reminder_target_is_clamped_month_instant() {
    // A day that exists: that day at the given time, in the month of now.
    assert_eq!(
        reminder_target_secs(clock(2026, 5, 3, 8), 15, 15, 0).unwrap(),
        at(2026, 5, 15, 15, 0)
    );
    // Day 31 of April is the 30th.
    assert_eq!(
        reminder_target_secs(clock(2026, 4, 10, 0), 31, 9, 0).unwrap(),
        at(2026, 4, 30, 9, 0)
    );
    // February, plain and leap.
    assert_eq!(
        reminder_target_secs(clock(2026, 2, 5, 0), 30, 9, 0).unwrap(),
        at(2026, 2, 28, 9, 0)
    );
    assert_eq!(
        reminder_target_secs(clock(2024, 2, 5, 0), 31, 9, 0).unwrap(),
        at(2024, 2, 29, 9, 0)
    );
}

#[test]
fn reminder_fires_once_per_month_with_catch_up() {
    let target = at(2026, 5, 1, 10, 30);
    // Not reached yet.
    assert!(!reminder_should_fire(target - 60, target, None));
    // Reached, not fired this month.
    assert!(reminder_should_fire(target, target, None));
    // The first evaluation comes the next day and still fires.
    assert!(reminder_should_fire(target + 30 * 3600, target, None));
    // Fired at or after the target: not again this month.
    assert!(!reminder_should_fire(target + 5 * 3600, target, Some(target)));
    assert!(!reminder_should_fire(target + 30 * 3600, target, Some(target + 60)));
    // A firing of last month does not block this month.
    let last_month = at(2026, 4, 1, 10, 30);
    assert!(reminder_should_fire(target, target, Some(last_month)));
}

#[test]
fn validate_reminder_requires_fields() {
    assert!(validate_rule_json(r#"{"kind":"reminder","hour_ast":15,"message":"x"}"#).is_err());
    assert!(validate_rule_json(r#"{"kind":"reminder","day_of_month":15,"message":"x"}"#).is_err());
    assert!(validate_rule_json(r#"{"kind":"reminder","day_of_month":15,"hour_ast":15}"#).is_err());
    assert!(validate_rule_json(
        r#"{"kind":"reminder","day_of_month":0,"hour_ast":15,"message":"x"}"#
    )
    .is_err());
    assert!(validate_rule_json(
        r#"{"kind":"reminder","day_of_month":15,"hour_ast":24,"message":"x"}"#
    )
    .is_err());
    assert!(validate_rule_json(
        r#"{"kind":"reminder","day_of_month":15,"hour_ast":15,"message":"   "}"#
    )
    .is_err());
    assert_eq!(
        validate_rule_json(
            r#"{"kind":"reminder","day_of_month":15,"hour_ast":15,"minute_ast":0,"message":"Pay the bills"}"#
        )
        .unwrap(),
        "reminder"
    );
}

#[test]
fn summarize_reminder_shows_message() {
    let reading = AlertReading::Reminder(ReminderHit {
        message: "Pay rent".into(),
        day_of_month: 1,
        hour_ast: 10,
        minute_ast: 30,
    });
    let s = summarize_alert(Some("reminder"), "{}", &reading);
    assert!(s.contains("Pay rent"), "got: {s}");
}

#[test]
fn fields_of_a_rule() {
    assert_eq!(rule_kind(r#"{"kind":"reminder"}"#).as_deref(), Some("reminder"));
    assert_eq!(rule_kind("nonsense"), None);
    assert_eq!(rule_i64_field(r#"{"kind":"x","max_age_secs":600}"#, "max_age_secs"), Some(600));
    assert_eq!(rule_i64_field(r#"{"kind":"x","max_age_secs":"a"}"#, "max_age_secs"), None);
}

#[test]
fn tick_on_rules_that_are_off_or_unreadable_is_silent() {
    let mut w = skewed();
    upsert_alert_rule_by_name(&mut w.rules, "a", r#"{"kind":"pp.band_breach"}"#, "xmpp", 1);
    upsert_alert_rule_by_name(&mut w.rules, "b", "no json", "xmpp", 2);
    upsert_alert_rule_by_name(&mut w.rules, "c", r#"{"kind":"weather"}"#, "xmpp", 3);
    w.rules[0].active = false;
    w.evaluate();
    assert!(w.history.is_empty());
    w.rules[0].active = true;
    w.evaluate();
    assert_eq!(w.history.len(), 1);
    assert_eq!(w.history[0].rule_id, 1);
}

#[test]
fn tick_needs_times_in_range() {
    let mut w = World::new();
    w.providers.push(prow("plaid", "daily", Some(i64::MIN), None));
    let window = AlertsCfg::default().dedup_window_secs;
    assert!(!tick(w.tables(), NOW, &mut w.history, window));
    let w = World::new();
    assert!(!tick(w.tables(), i64::MAX, &mut Vec::new(), window));
}

#[test]
fn a_failed_poll_makes_a_provider_stale() {
    let ok = PollOutcome::Done(1, None);
    let bad = PollOutcome::Failed("401 Unauthorized".to_string());
    for (balances, transactions, reason) in [
        (&bad, &ok, "last_status=err:balance:401 Unauthorized"),
        (&ok, &bad, "last_status=err:tx:401 Unauthorized"),
        (&bad, &bad, "last_status=err:balance:401 Unauthorized"),
    ] {
        let (status, _) = fold_poll("mercury", "main", balances, transactions);
        let mut rows = vec![prow("mercury", "daily", None, None)];
        record_poll(&mut rows, ProviderId(0), &status, NOW);
        let stale = find_stale(&rows, NOW, DEFAULT_STALE_MAX_AGE_SECS);
        assert_eq!(stale.len(), 1);
        assert_eq!(stale[0].reason, reason);
        // One that the operator drives is never stale.
        rows[0].poll_cadence = "manual".to_string();
        assert!(find_stale(&rows, NOW, DEFAULT_STALE_MAX_AGE_SECS).is_empty());
    }
    let (status, _) = fold_poll("mercury", "main", &ok, &ok);
    let mut rows = vec![prow("mercury", "daily", None, None)];
    record_poll(&mut rows, ProviderId(0), &status, NOW);
    assert!(find_stale(&rows, NOW, DEFAULT_STALE_MAX_AGE_SECS).is_empty());
    // Any other word is no failure.
    let rows = [prow("mercury", "daily", Some(NOW), Some("errand"))];
    assert!(find_stale(&rows, NOW, DEFAULT_STALE_MAX_AGE_SECS).is_empty());
}
