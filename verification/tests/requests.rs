use arca::alerts::AlertReading;
use arca::db::{Account, AlertHistoryRow, BalanceSnapshot, Business, SubscriptionRecord};
use arca::debt::scope_bounds_at;
use arca::handler::{answerable, handle, months_back_bounds, serve, Desk, Tables};
use arca::ids::{AccountId, BusinessId, ProviderId};
use arca::money::Cents;
use arca::provider::{Cursor, RefreshReport};
use arca::registry::{known_kind, known_kinds, seed_manual};
use arca::rpc::{Request, Response, Scope};
use arca::scheduler::{
    choose_providers, current_last_poll, fold_poll, is_poll_due, parse_cadence, refresh_reply,
    should_poll, PollOutcome,
};

const NOW: i64 = 1_780_000_000;

fn empty() -> Tables {
    Tables {
        accounts: Vec::new(),
        snapshots: Vec::new(),
        transactions: Vec::new(),
        businesses: Vec::new(),
        providers: Vec::new(),
        subscriptions: Vec::new(),
        planned: Vec::new(),
        rules: Vec::new(),
        history: Vec::new(),
        labels: Vec::new(),
    }
}

fn desk(fresh: i64) -> Desk {
    Desk { now: NOW, uptime_secs: 42, version: "1.2.3".to_string(), fresh }
}

fn ask(t: &mut Tables, req: Request) -> Response {
    let fresh = 100 + t.accounts.len() as i64 + t.transactions.len() as i64;
    serve(t, req, &desk(fresh), &Vec::new()).unwrap()
}

fn account(t: &mut Tables, name: &str, kind: &str) {
    let r = ask(
        t,
        Request::ManualUpsertAccount {
            name: name.to_string(),
            account_kind: kind.to_string(),
            asset_class: None,
            tier: None,
            currency: None,
            business_tag: None,
        },
    );
    assert!(matches!(r, Response::Ack), "{r:?}");
}

fn snapshot(t: &mut Tables, name: &str, amount: &str) -> Response {
    ask(
        t,
        Request::ManualSnapshot { account_name: name.to_string(), amount: amount.to_string() },
    )
}

fn error_text(r: Response) -> String {
    error_of(r, "core")
}

fn error_of(r: Response, code: &str) -> String {
    match r {
        Response::Error(e) => {
            assert_eq!(e.code, code);
            e.msg
        }
        other => panic!("expected an error, got {other:?}"),
    }
}

#[test]
fn money_counts_assets_less_debts() {
    let mut t = empty();
    account(&mut t, "Checking", "asset");
    account(&mut t, "Card", "debt");
    account(&mut t, "Anthropic", "subscription");
    assert!(matches!(snapshot(&mut t, "Checking", "$100.00"), Response::Ack));
    assert!(matches!(snapshot(&mut t, "Card", "30"), Response::Ack));
    assert!(matches!(snapshot(&mut t, "Anthropic", "5"), Response::Ack));
    match ask(&mut t, Request::SnapshotMoney) {
        Response::Money(m) => {
            assert_eq!(m.net_worth, Cents(70_00));
            assert_eq!(m.asof_secs, NOW);
            let line = m.accounts.iter().find(|l| l.name == "Checking").unwrap();
            assert_eq!(line.balance, Cents(100_00));
            assert!(!line.excluded_from_nw);
        }
        other => panic!("{other:?}"),
    }
}

#[test]
fn refusals_change_nothing() {
    let mut t = empty();
    account(&mut t, "Checking", "asset");
    assert_eq!(
        error_text(snapshot(&mut t, "Nowhere", "1")),
        "not found: account name=Nowhere"
    );
    assert_eq!(
        error_text(snapshot(&mut t, "Checking", "much")),
        "invalid money string: much"
    );
    assert!(t.snapshots.is_empty());
    assert_eq!(t.accounts.len(), 1);
}

#[test]
fn reads_leave_the_tables_alone() {
    let mut t = empty();
    account(&mut t, "Checking", "asset");
    for req in [
        Request::Health,
        Request::SnapshotMoney,
        Request::SnapshotPp,
        Request::SnapshotDebt { scope: Scope::Month },
        Request::SnapshotCharts { months: None },
        Request::SnapshotCategories { scope: None, limit: None },
        Request::RecurringList { since: None, min_occurrences: None, include_ignored: None },
    ] {
        ask(&mut t, req);
        assert_eq!(t.accounts.len(), 1);
        assert!(t.transactions.is_empty());
    }
}

#[test]
fn health_tells_version_and_uptime() {
    match ask(&mut empty(), Request::Health) {
        Response::Health(h) => {
            assert_eq!(h.version, "1.2.3");
            assert_eq!(h.uptime_secs, 42);
            assert!(h.providers.is_empty());
        }
        other => panic!("{other:?}"),
    }
}

#[test]
fn business_view_is_over_its_window() {
    let mut t = empty();
    t.businesses.push(Business {
        id: BusinessId(3),
        tag: "acme".to_string(),
        display_name: "Acme LLC".to_string(),
        active: true,
    });
    account(&mut t, "Checking", "asset");
    for (at, amount) in [(NOW, "100"), (NOW, "-40"), (0, "999")] {
        let r = ask(
            &mut t,
            Request::ManualInsertTransaction {
                account_name: "Checking".to_string(),
                posted_at: at,
                amount: amount.to_string(),
                description: None,
                tag: None,
                business_tag: Some("acme".to_string()),
                external_id: None,
            },
        );
        assert!(matches!(r, Response::Ack), "{r:?}");
    }
    match ask(
        &mut t,
        Request::SnapshotBusiness { tag: "acme".to_string(), scope: Some(Scope::Month) },
    ) {
        Response::Business(b) => {
            assert_eq!(b.display_name, "Acme LLC");
            assert_eq!((b.income, b.expenses, b.net), (Cents(100_00), Cents(-40_00), Cents(60_00)));
        }
        other => panic!("{other:?}"),
    }
    assert_eq!(
        error_text(ask(
            &mut t,
            Request::SnapshotBusiness { tag: "ghost".to_string(), scope: None }
        )),
        "not found: business tag=ghost"
    );
    match ask(&mut t, Request::TxList { since: Some(1), tag: None, limit: Some(10) }) {
        Response::TxList(p) => {
            assert_eq!(p.rows.len(), 2);
            assert_eq!(p.rows[0].account, "Checking");
        }
        other => panic!("{other:?}"),
    }
}

#[test]
fn alert_rules_are_checked_before_they_are_stored() {
    let mut t = empty();
    let upsert = |rule: &str| Request::AlertUpsert {
        name: "r".to_string(),
        rule_json: rule.to_string(),
        channel: None,
        active: None,
    };
    error_of(ask(&mut t, upsert("{\"kind\":\"bogus\"}")), "invalid");
    assert!(t.rules.is_empty());
    assert!(matches!(ask(&mut t, upsert("{\"kind\":\"provider.stale\"}")), Response::Ack));
    assert_eq!(t.rules.len(), 1);
}

#[test]
fn pending_alerts_need_their_readings() {
    let mut t = empty();
    t.history.push(AlertHistoryRow {
        id: 1,
        rule_name: "r".to_string(),
        rule_json: "{\"kind\":\"reminder\"}".to_string(),
        fired_at: NOW,
        payload_json: "pay".to_string(),
        delivered: false,
    });
    let req = Request::AlertPending { limit: None, include_delivered: None };
    assert!(!answerable(&t, &req, &desk(1), &Vec::new()));
    assert!(serve(&mut t, req, &desk(1), &Vec::new()).is_none());
    let req = Request::AlertPending { limit: None, include_delivered: None };
    match serve(&mut t, req, &desk(1), &vec![AlertReading::Unreadable]) {
        Some(Response::Alerts(p)) => {
            assert_eq!(p.rows.len(), 1);
            assert_eq!(p.rows[0].rule_kind.as_deref(), Some("reminder"));
            assert_eq!(p.rows[0].summary, "reminder");
        }
        other => panic!("{other:?}"),
    }
}

#[test]
fn refreshing_is_not_answered_from_the_tables() {
    let mut t = empty();
    assert!(serve(&mut t, Request::ProviderRefresh { kind_filter: None }, &desk(1), &Vec::new())
        .is_none());
}

#[test]
fn providers_of_unknown_kinds_are_refused() {
    let mut t = empty();
    let upsert = |kind: &str| Request::ManualUpsertProvider {
        provider_kind: kind.to_string(),
        label: "main".to_string(),
        config_json: None,
        secret_ref: None,
        poll_cadence: None,
    };
    assert!(error_of(ask(&mut t, upsert("abacus")), "invalid").contains("abacus"));
    assert!(matches!(ask(&mut t, upsert("plaid")), Response::Ack));
    assert_eq!(t.providers.len(), 1);
}

#[test]
fn subscriptions_can_be_renamed_and_switched_off() {
    let mut t = empty();
    t.subscriptions.push(SubscriptionRecord {
        id: 1,
        name: "Rent".to_string(),
        provider_kind: "recurring".to_string(),
        amount_cents: Some(Cents(-1)),
        cadence: Some("monthly".to_string()),
        next_charge_at: Some(NOW),
        account_id: None,
        business_id: None,
        active: true,
    });
    let r = handle(
        &mut t,
        Request::ManualUpdateSubscription {
            name: "Rent".to_string(),
            new_name: Some("Flat".to_string()),
            active: Some(false),
        },
        &desk(1),
        &Vec::new(),
    );
    assert!(matches!(r, Response::Ack), "{r:?}");
    assert_eq!(t.subscriptions[0].name, "Flat");
    assert!(!t.subscriptions[0].active);
    assert_eq!(t.subscriptions[0].amount_cents, Some(Cents(-1)));
    assert_eq!(t.subscriptions[0].cadence.as_deref(), Some("monthly"));
    assert_eq!(t.subscriptions[0].next_charge_at, Some(NOW));
}

fn debt_of(t: &mut Tables) -> (Cents, Vec<String>) {
    match ask(t, Request::SnapshotDebt { scope: Scope::Month }) {
        Response::Debt(d) => {
            (d.total_open, d.fixed.into_iter().map(|f| f.description).collect())
        }
        other => panic!("{other:?}"),
    }
}

fn worth_of(t: &mut Tables) -> Cents {
    match ask(t, Request::SnapshotMoney) {
        Response::Money(m) => m.net_worth,
        other => panic!("{other:?}"),
    }
}

#[test]
fn declared_obligations_are_no_debt() {
    let mut t = empty();
    account(&mut t, "Checking", "asset");
    account(&mut t, "Card", "debt");
    snapshot(&mut t, "Checking", "100");
    snapshot(&mut t, "Card", "30");
    assert_eq!(worth_of(&mut t), Cents(70_00));
    assert_eq!(debt_of(&mut t), (Cents(30_00), Vec::new()));
    let r = ask(
        &mut t,
        Request::ManualUpsertSubscription {
            name: "Rent".to_string(),
            amount: "-2000".to_string(),
            cadence: "monthly".to_string(),
            next_charge_at: NOW + 86_400,
            business_tag: None,
            active: None,
        },
    );
    assert!(matches!(r, Response::Ack), "{r:?}");
    assert_eq!(worth_of(&mut t), Cents(70_00));
    assert_eq!(debt_of(&mut t), (Cents(30_00), vec!["Rent".to_string()]));
    let r = ask(
        &mut t,
        Request::ManualUpdateSubscription {
            name: "Rent".to_string(),
            new_name: None,
            active: Some(false),
        },
    );
    assert!(matches!(r, Response::Ack), "{r:?}");
    assert_eq!(debt_of(&mut t), (Cents(30_00), Vec::new()));
}

#[test]
fn charts_walk_the_months() {
    let mut t = empty();
    t.accounts.push(Account {
        id: Some(AccountId(1)),
        name: "A".to_string(),
        kind: "asset".to_string(),
        asset_class: None,
        tier: None,
        currency: "USD".to_string(),
        provider_id: None,
        business_id: None,
        external_id: None,
        active: true,
    });
    t.snapshots.push(BalanceSnapshot {
        id: 1,
        account_id: AccountId(1),
        taken_at: NOW,
        amount_cents: Cents(7),
    });
    match ask(&mut t, Request::SnapshotCharts { months: Some(2) }) {
        Response::Charts(c) => {
            assert_eq!(c.net_worth.len(), 1);
            assert_eq!(c.net_worth[0].amount, Cents(7));
        }
        other => panic!("{other:?}"),
    }
    // From the first of the month before last, 2026-04-01, until now.
    assert_eq!(months_back_bounds(2, NOW), (1_775_001_600, NOW));
}

// --- scheduler and registry ---

#[test]
fn cadences_have_their_intervals() {
    assert_eq!(parse_cadence("daily"), Some(86_400));
    assert_eq!(parse_cadence("manual"), None);
    assert!(is_poll_due(None, 100, 10));
    assert!(is_poll_due(Some(90), 100, 10));
    assert!(!is_poll_due(Some(91), 100, 10));
}

#[test]
fn a_provider_is_polled_when_it_is_due() {
    let mut t = empty();
    let id = seed_manual(&mut t.providers, ProviderId(1));
    assert_eq!(current_last_poll(&t.providers, id), None);
    // The manual one never is.
    let manual = t.providers[0].clone();
    assert!(!should_poll(&manual, &t.providers, NOW));
    let mut daily = manual.clone();
    daily.poll_cadence = "daily".to_string();
    assert!(should_poll(&daily, &t.providers, NOW));
}

#[test]
fn the_status_of_a_poll_names_what_failed() {
    let ok = PollOutcome::Done(2, None);
    let bad = PollOutcome::Failed("boom".to_string());
    let (status, report) = fold_poll("plaid", "x", &ok, &PollOutcome::Done(3, None));
    assert_eq!(status, "ok");
    assert_eq!(report.rows_written, 5);
    let (status, _) = fold_poll("plaid", "x", &bad, &ok);
    assert!(status.starts_with("err:balance:"), "got {status}");
    let (status, _) = fold_poll("plaid", "x", &ok, &bad);
    assert!(status.starts_with("err:tx:"), "got {status}");
}

#[test]
fn a_refresh_covers_the_kinds_asked_for() {
    let kinds = vec!["plaid".to_string(), "manual".to_string(), "plaid".to_string()];
    assert_eq!(choose_providers(&kinds, &Some("plaid".to_string())), vec![0, 2]);
    assert_eq!(choose_providers(&kinds, &None), vec![0, 1, 2]);
    let report = RefreshReport {
        provider_kind: "plaid".to_string(),
        rows_written: 4,
        cursor: Cursor(None),
        message: None,
    };
    match refresh_reply(&None, &vec![report]) {
        Response::RefreshReport(r) => assert_eq!(r.rows_written, 4),
        other => panic!("{other:?}"),
    }
    assert!(matches!(
        refresh_reply(&Some("plaid".to_string()), &Vec::new()),
        Response::Error(_)
    ));
}

#[test]
fn kinds_of_provider() {
    assert!(known_kind("vultr_cost"));
    assert!(!known_kind("xai"));
    assert!(known_kinds().starts_with("manual, plaid, "));
}

#[test]
fn business_view_ends_before_the_next_month() {
    let (since, until) = scope_bounds_at(NOW, Scope::Month);
    for (at, counted) in [(since, true), (until - 1, true), (until, false)] {
        let mut t = empty();
        t.businesses.push(Business {
            id: BusinessId(3),
            tag: "acme".to_string(),
            display_name: "Acme LLC".to_string(),
            active: true,
        });
        account(&mut t, "Checking", "asset");
        ask(
            &mut t,
            Request::ManualInsertTransaction {
                account_name: "Checking".to_string(),
                posted_at: at,
                amount: "5".to_string(),
                description: None,
                tag: None,
                business_tag: Some("acme".to_string()),
                external_id: None,
            },
        );
        let expected = if counted { Cents(5_00) } else { Cents(0) };
        match ask(
            &mut t,
            Request::SnapshotBusiness { tag: "acme".to_string(), scope: Some(Scope::Month) },
        ) {
            Response::Business(b) => assert_eq!((b.income, b.net), (expected, expected)),
            other => panic!("{other:?}"),
        }
    }
}

#[test]
fn seeding_keeps_the_manual_provider_as_it_is() {
    let mut t = empty();
    let id = seed_manual(&mut t.providers, ProviderId(4));
    assert_eq!(id, ProviderId(4));
    t.providers[0].config_json = "{\"note\":1}".to_string();
    t.providers[0].poll_cadence = "weekly".to_string();
    assert_eq!(seed_manual(&mut t.providers, ProviderId(9)), ProviderId(4));
    assert_eq!(t.providers.len(), 1);
    assert_eq!(t.providers[0].config_json, "{\"note\":1}");
    assert_eq!(t.providers[0].poll_cadence, "weekly");
}
