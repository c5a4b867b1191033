use arca::alerts::{insert_alert_history, latest_alert_fire, AlertFire, Firing, ReminderHit};
use arca::db::{
    business_by_tag, delete_transaction_by_external, find_account_by_external, list_active_accounts,
    recurring_labels, set_alert_rule, upsert_account, upsert_business, upsert_provider,
    upsert_recurring_label, upsert_transaction, Account, AlertHistoryRow, AlertRule, BalanceSnapshot,
    Business, ProviderRow, RecurringLabel, StoredLabel, Transaction,
};
use arca::error::CoreError;
use arca::feed::{apply_page, number_ids};
use arca::ids::{AccountId, BusinessId, ProviderId, TransactionId};
use arca::ledger::{
    business_income_expenses, business_pnl, can_chart, cash_flow_monthly, current_net_worth,
    expenses_by_category, insert_snapshot, latest_balances, list_active_alert_rules,
    list_recent_alerts, list_transactions, networth_series, prior_net_worth, sum_amounts,
    total_by_tag,
};
use arca::money::Cents;
use arca::store::{
    insert_price_snapshot, latest_price, record_poll, update_provider_config, PriceSnapshot,
};

fn new_acct(name: &str, kind: &str, ac: Option<&str>) -> Account {
    Account {
        id: None,
        name: name.into(),
        kind: kind.into(),
        asset_class: ac.map(str::to_string),
        tier: None,
        currency: "USD".into(),
        provider_id: None,
        business_id: None,
        external_id: None,
        active: true,
    }
}

fn add(rows: &mut Vec<Account>, a: &Account) -> AccountId {
    let fresh = AccountId(rows.len() as i64 + 1);
    upsert_account(rows, a, fresh).unwrap()
}

fn tx(account_id: AccountId, posted_at: i64, cents: i64, ext: &str) -> Transaction {
    Transaction {
        id: None,
        account_id,
        posted_at,
        amount_cents: Cents(cents),
        currency: "USD".into(),
        description: None,
        category: None,
        tag: None,
        business_id: None,
        external_id: Some(ext.into()),
        source: "manual".into(),
    }
}

/// The table of accounts with one of the given id.
fn accounts_with(id: AccountId) -> Vec<Account> {
    let mut a = new_acct("Checking", "asset", None);
    a.id = Some(id);
    vec![a]
}

fn store(rows: &mut Vec<Transaction>, t: &Transaction) -> TransactionId {
    let fresh = TransactionId(rows.len() as i64 + 1);
    upsert_transaction(rows, &accounts_with(t.account_id), t, fresh).unwrap().unwrap()
}

fn label(key: &str, label: Option<&str>, name: Option<&str>, active: bool, at: i64) -> StoredLabel {
    StoredLabel {
        row: RecurringLabel {
            match_key: key.to_string(),
            label: label.map(str::to_string),
            display_name: name.map(str::to_string),
            business_id: None,
            confirmed_at: at,
        },
        active,
    }
}

#[test]
fn recurring_label_upsert_and_active_filter() {
    let mut rows: Vec<StoredLabel> = Vec::new();
    upsert_recurring_label(&mut rows, &label("netflix", Some("sub"), Some("Netflix"), true, 1000));
    let read = recurring_labels(&rows);
    assert_eq!(read.len(), 1);
    assert_eq!(read[0].match_key, "netflix");
    assert_eq!(read[0].label.as_deref(), Some("sub"));
    assert_eq!(read[0].display_name.as_deref(), Some("Netflix"));
    assert_eq!(read[0].confirmed_at, 1000);

    // Confirming again updates in place; what is left out stays.
    upsert_recurring_label(&mut rows, &label("netflix", Some("bill"), None, true, 2000));
    let read = recurring_labels(&rows);
    assert_eq!(read.len(), 1, "upsert keyed on match_key, not a 2nd row");
    assert_eq!(read[0].label.as_deref(), Some("bill"));
    assert_eq!(read[0].display_name.as_deref(), Some("Netflix"));
    assert_eq!(read[0].confirmed_at, 2000);

    // A dismissed label stays stored but does not count.
    upsert_recurring_label(&mut rows, &label("netflix", Some("bill"), None, false, 3000));
    assert!(recurring_labels(&rows).is_empty());
}

#[test]
fn account_round_trip() {
    let mut rows: Vec<Account> = Vec::new();
    let id = add(&mut rows, &new_acct("First Bank", "asset", Some("cash")));
    let list = list_active_accounts(&rows);
    assert_eq!(list.len(), 1);
    assert_eq!(list[0].id, Some(id));
    assert_eq!(list[0].name, "First Bank");
}

#[test]
fn prop_upsert_account_idempotent_and_updates_in_place() {
    for name in ["a", "Z-9_", "forty_characters_forty_characters_forty_c"] {
        for kind_a in ["checking", "brokerage", "asset", "credit"] {
            for kind_b in ["checking", "brokerage", "asset", "credit"] {
                let mut rows: Vec<Account> = Vec::new();
                let id1 = add(&mut rows, &new_acct(name, kind_a, None));
                let id2 = add(&mut rows, &new_acct(name, kind_a, None));
                let id3 = add(&mut rows, &new_acct(name, kind_b, None));
                assert_eq!(id1, id2);
                assert_eq!(id1, id3);
                let found: Vec<Account> = list_active_accounts(&rows)
                    .into_iter()
                    .filter(|a| a.name == name)
                    .collect();
                assert_eq!(found.len(), 1);
                assert_eq!(found[0].kind.as_str(), kind_b);
            }
        }
    }
}

#[test]
fn accounts_are_found_by_their_external_id() {
    let mut rows: Vec<Account> = Vec::new();
    let mut a = new_acct("Checking", "asset", None);
    a.provider_id = Some(ProviderId(3));
    a.external_id = Some("x1".to_string());
    let id = add(&mut rows, &a);
    let found = find_account_by_external(&rows, ProviderId(3), "x1").unwrap();
    assert_eq!(found.id, Some(id));
    assert!(find_account_by_external(&rows, ProviderId(4), "x1").is_none());
    assert!(find_account_by_external(&rows, ProviderId(3), "x2").is_none());
}

#[test]
fn tx_dedup_on_external_id() {
    let mut accounts: Vec<Account> = Vec::new();
    let aid = add(&mut accounts, &new_acct("Mercury", "business", None));
    let mut t = tx(aid, 1_000, 50_00, "ext-1");
    t.description = Some("inv #1".into());
    t.tag = Some("income".into());
    let mut rows: Vec<Transaction> = Vec::new();
    let id1 = store(&mut rows, &t);
    let id2 = store(&mut rows, &t);
    assert_eq!(id1, id2, "same external_id should update, not duplicate");
    assert_eq!(rows.len(), 1);
}

#[test]
fn delete_transaction_by_external_id_is_idempotent() {
    let mut rows: Vec<Transaction> = Vec::new();
    let mut t = tx(AccountId(1), 1_000, -15_99, "plaid-tx-1");
    t.description = Some("pending charge".into());
    t.source = "plaid".into();
    store(&mut rows, &t);
    assert_eq!(delete_transaction_by_external(&mut rows, "plaid-tx-1"), 1);
    assert_eq!(delete_transaction_by_external(&mut rows, "plaid-tx-1"), 0);
    assert_eq!(delete_transaction_by_external(&mut rows, "never-stored"), 0);
    assert_eq!(rows.len(), 0);
}

#[test]
fn pnl_by_business() {
    let main = BusinessId(1);
    let mut rows: Vec<Transaction> = Vec::new();
    for (amt, ext) in [(100_00, "a"), (-30_00, "b"), (50_00, "c")] {
        let mut t = tx(AccountId(1), 1_000, amt, ext);
        t.business_id = Some(main);
        store(&mut rows, &t);
    }
    let pnl = business_pnl(&rows, main, 0, i64::MAX).unwrap();
    assert_eq!(pnl, Cents(120_00));
    let (income, expenses) = business_income_expenses(&rows, main, 0, i64::MAX).unwrap();
    assert_eq!((income, expenses), (Cents(150_00), Cents(-30_00)));
}

#[test]
fn upsert_business_inserts_then_coalesce_merges() {
    let mut rows: Vec<Business> = Vec::new();
    // The name is the tag where none is given, and the business is active.
    let id = upsert_business(&mut rows, "acme", None, None, BusinessId(7));
    let b = business_by_tag(&rows, "acme").unwrap();
    assert_eq!(b.id, id);
    assert_eq!(b.display_name, "acme");
    assert!(b.active);

    // Only the name changes.
    upsert_business(&mut rows, "acme", Some("Acme LLC"), None, BusinessId(8));
    let b = business_by_tag(&rows, "acme").unwrap();
    assert_eq!(b.id, id, "upsert on tag, not a new row");
    assert_eq!(b.display_name, "Acme LLC");
    assert!(b.active);

    // Only the activity changes.
    upsert_business(&mut rows, "acme", None, Some(false), BusinessId(9));
    let b = business_by_tag(&rows, "acme").unwrap();
    assert_eq!(b.display_name, "Acme LLC");
    assert!(!b.active);
}

#[test]
fn unknown_business_is_not_found() {
    match business_by_tag(&Vec::new(), "ghost") {
        Err(CoreError::NotFound(s)) => assert_eq!(s, "business tag=ghost"),
        _ => panic!("expected an error"),
    }
}

fn snap(id: i64, account_id: AccountId, taken_at: i64, cents: i64) -> BalanceSnapshot {
    BalanceSnapshot { id, account_id, taken_at, amount_cents: Cents(cents) }
}

#[test]
fn snapshot_latest() {
    let aid = AccountId(1);
    // Two readings of one instant: the later row counts.
    let snaps = vec![snap(1, aid, 100, 10_000_00), snap(2, aid, 100, 11_000_00)];
    let bal = latest_balances(&snaps);
    assert_eq!(bal.len(), 1);
    assert_eq!(bal[0], (aid, Cents(11_000_00)));
}

#[test]
fn set_alert_rule_inserts_then_updates() {
    let mut rows: Vec<AlertRule> = Vec::new();
    let id1 = set_alert_rule(&mut rows, "r", r#"{"kind":"provider.stale"}"#, "xmpp", true, 1);
    let id2 = set_alert_rule(
        &mut rows,
        "r",
        r#"{"kind":"provider.stale","max_age_secs":600}"#,
        "xmpp",
        false,
        2,
    );
    assert_eq!(id1, id2);
    assert!(list_active_alert_rules(&rows).iter().all(|r| r.name != "r"));
}

fn fired(id: i64, at: i64, delivered: bool) -> AlertHistoryRow {
    AlertHistoryRow {
        id,
        rule_name: "r".to_string(),
        rule_json: r#"{"kind":"provider.stale"}"#.to_string(),
        fired_at: at,
        payload_json: "[]".to_string(),
        delivered,
    }
}

#[test]
fn list_recent_alerts_filters_delivered() {
    let rows = vec![fired(1, 10, false), fired(2, 10, true)];
    let pending = list_recent_alerts(&rows, 50, false);
    assert_eq!(pending.len(), 1);
    assert!(!pending[0].delivered);
    assert_eq!(pending[0].rule_name, "r");
    assert_eq!(list_recent_alerts(&rows, 50, true).len(), 2);
}

#[test]
fn recent_alerts_come_newest_first() {
    let rows = vec![fired(1, 10, false), fired(2, 30, false), fired(3, 20, false)];
    let ids: Vec<i64> = list_recent_alerts(&rows, 2, false).iter().map(|r| r.id).collect();
    assert_eq!(ids, vec![2, 3]);
}

#[test]
fn networth_series_walks_snapshots() {
    let mut accounts: Vec<Account> = Vec::new();
    let cash = add(&mut accounts, &new_acct("Cash", "asset", None));
    let card = add(&mut accounts, &new_acct("Card", "debt", None));
    let sub = add(&mut accounts, &new_acct("Anthropic", "subscription", None));
    let snaps = vec![
        snap(1, cash, 1000, 100_00),
        snap(2, card, 1000, 30_00),
        snap(3, sub, 1000, 999_00),
        snap(4, cash, 2000, 150_00),
    ];
    assert!(can_chart(&accounts, &snaps));
    let series = networth_series(&accounts, &snaps, None);
    assert_eq!(series, vec![(1000, Cents(70_00)), (2000, Cents(120_00))]);
    // The start trims what comes out; earlier readings still count.
    let trimmed = networth_series(&accounts, &snaps, Some(1500));
    assert_eq!(trimmed, vec![(2000, Cents(120_00))]);
    assert_eq!(current_net_worth(&accounts, &latest_balances(&snaps)), Cents(120_00));
    assert_eq!(prior_net_worth(&accounts, &snaps, 1500), Some(Cents(70_00)));
    assert_eq!(prior_net_worth(&accounts, &snaps, 500), None);
}

#[test]
fn a_series_outside_the_integers_is_told() {
    let mut accounts: Vec<Account> = Vec::new();
    let a = add(&mut accounts, &new_acct("A", "asset", None));
    let b = add(&mut accounts, &new_acct("B", "asset", None));
    let snaps = vec![snap(1, a, 1, i64::MAX), snap(2, b, 2, 1)];
    assert!(!can_chart(&accounts, &snaps));
}

#[test]
fn cash_flow_monthly_buckets_by_month() {
    let jan = 1_768_435_200; // 2026-01-15 UTC
    let feb = 1_770_681_600; // 2026-02-10 UTC
    let mut rows: Vec<Transaction> = Vec::new();
    for (amt, at, ext) in [(500_00, jan, "a"), (-200_00, jan, "b"), (-150_00, feb, "c")] {
        store(&mut rows, &tx(AccountId(1), at, amt, ext));
    }
    let flow = cash_flow_monthly(&rows, 0, i64::MAX).unwrap();
    assert_eq!(
        flow,
        vec![
            ("2026-01".to_string(), Cents(500_00), Cents(-200_00)),
            ("2026-02".to_string(), Cents(0), Cents(-150_00)),
        ]
    );
}

#[test]
fn a_sum_that_overflows_is_an_error() {
    assert_eq!(sum_amounts(&vec![1, 2, 3]).unwrap(), Cents(6));
    match sum_amounts(&vec![i64::MAX, 1]) {
        Err(CoreError::Sql(s)) => assert_eq!(s, "integer overflow"),
        _ => panic!("expected an error"),
    }
    match sum_amounts(&vec![i64::MAX, 1]) {
        Err(e) => assert_eq!(e.to_string(), "sqlite: integer overflow"),
        _ => panic!("expected an error"),
    }
}

#[test]
fn totals_by_tag_and_category() {
    let mut rows: Vec<Transaction> = Vec::new();
    for (cents, tag, cat, ext) in [
        (100_00, "income", "sales", "a"),
        (-40_00, "expense", "rent", "b"),
        (-60_00, "expense", "food", "c"),
        (-10_00, "expense", "rent", "d"),
    ] {
        let mut t = tx(AccountId(1), 500, cents, ext);
        t.tag = Some(tag.to_string());
        t.category = Some(cat.to_string());
        store(&mut rows, &t);
    }
    assert_eq!(total_by_tag(&rows, "expense", 0, 1_000).unwrap(), Cents(-110_00));
    assert_eq!(total_by_tag(&rows, "expense", 501, 1_000).unwrap(), Cents(0));
    let spend = expenses_by_category(&rows, 0, 1_000, 10).unwrap();
    assert_eq!(
        spend,
        vec![("food".to_string(), Cents(-60_00)), ("rent".to_string(), Cents(-50_00))]
    );
}

#[test]
fn transactions_are_listed_newest_first() {
    let mut rows: Vec<Transaction> = Vec::new();
    for (at, ext) in [(10, "a"), (30, "b"), (20, "c")] {
        store(&mut rows, &tx(AccountId(1), at, 1, ext));
    }
    let listed: Vec<i64> =
        list_transactions(&rows, Some(15), None, 10).iter().map(|t| t.posted_at).collect();
    assert_eq!(listed, vec![30, 20]);
    assert_eq!(list_transactions(&rows, None, None, 1).len(), 1);
}

#[test]
fn a_page_applied_again_changes_nothing() {
    let mut rows: Vec<Transaction> = Vec::new();
    store(&mut rows, &tx(AccountId(1), 5, -1, "old"));
    store(&mut rows, &tx(AccountId(1), 6, -2, "kept"));
    // One is new, one is changed, one comes and goes within the page.
    let page = vec![
        tx(AccountId(1), 7, -3, "new"),
        tx(AccountId(1), 6, -22, "kept"),
        tx(AccountId(1), 8, -4, "gone"),
    ];
    let removed = vec!["old".to_string(), "gone".to_string()];
    let ids = number_ids(10, page.len());
    let accounts = accounts_with(AccountId(1));
    assert_eq!(apply_page(&mut rows, &accounts, &page, &ids, &removed).unwrap(), 2);
    let once: Vec<(Option<TransactionId>, i64)> =
        rows.iter().map(|t| (t.id, t.amount_cents.0)).collect();
    assert_eq!(once, vec![(Some(TransactionId(2)), -22), (Some(TransactionId(10)), -3)]);
    let ids = number_ids(20, page.len());
    apply_page(&mut rows, &accounts, &page, &ids, &removed).unwrap();
    let twice: Vec<(Option<TransactionId>, i64)> =
        rows.iter().map(|t| (t.id, t.amount_cents.0)).collect();
    assert_eq!(once, twice);
}

#[test]
fn the_latest_price_is_the_newest_record() {
    let price = |id: i64, c: &str, at: i64, cents: i64| PriceSnapshot {
        id,
        commodity: c.to_string(),
        taken_at: at,
        price_cents: Cents(cents),
    };
    let rows = vec![
        price(1, "XAU", 10, 100),
        price(2, "XAU", 20, 200),
        price(3, "XAU", 20, 300),
        price(4, "XMR", 99, 7),
    ];
    assert_eq!(latest_price(&rows, "XAU"), Some(Cents(300)));
    assert_eq!(latest_price(&rows, "XAG"), None);
}

#[test]
fn what_is_recorded_last_is_read_back() {
    let (a, b) = (AccountId(1), AccountId(2));
    let mut snaps: Vec<BalanceSnapshot> = vec![snap(1, a, 10, 100), snap(2, b, 20, 7)];
    insert_snapshot(&mut snaps, &accounts_with(a), a, Cents(55), 20, 3).unwrap();
    assert_eq!(latest_balances(&snaps), vec![(a, Cents(55)), (b, Cents(7))]);

    let mut prices: Vec<PriceSnapshot> = Vec::new();
    insert_price_snapshot(&mut prices, "XAU", Cents(1), 10, 1);
    insert_price_snapshot(&mut prices, "XMR", Cents(9), 10, 2);
    insert_price_snapshot(&mut prices, "XAU", Cents(2), 10, 3);
    assert_eq!(latest_price(&prices, "XAU"), Some(Cents(2)));
    assert_eq!(latest_price(&prices, "XMR"), Some(Cents(9)));

    let hit = |n: u32| {
        Firing::Reminder(ReminderHit {
            message: "pay".to_string(),
            day_of_month: n,
            hour_ast: 9,
            minute_ast: 0,
        })
    };
    let mut history: Vec<AlertFire> = Vec::new();
    insert_alert_history(&mut history, 4, hit(1), 100);
    insert_alert_history(&mut history, 5, hit(2), 200);
    insert_alert_history(&mut history, 4, hit(3), 300);
    assert_eq!(latest_alert_fire(&history, 4), Some(300));
    assert_eq!(latest_alert_fire(&history, 5), Some(200));
    assert_eq!(latest_alert_fire(&history, 6), None);
}

#[test]
fn polls_and_settings_are_marked_on_their_row() {
    let mut rows: Vec<ProviderRow> = Vec::new();
    let a = upsert_provider(&mut rows, &ProviderRow::registry_stub("plaid", "A"), ProviderId(1));
    let b = upsert_provider(&mut rows, &ProviderRow::registry_stub("plaid", "B"), ProviderId(2));
    record_poll(&mut rows, b, "ok", 77);
    update_provider_config(&mut rows, a, "{\"x\":1}");
    assert_eq!(rows[0].last_poll_at, None);
    assert_eq!(rows[0].config_json, "{\"x\":1}");
    assert_eq!(rows[1].last_poll_at, Some(77));
    assert_eq!(rows[1].last_status.as_deref(), Some("ok"));
    // Writing a provider again keeps its row and its poll.
    let again = upsert_provider(&mut rows, &ProviderRow::registry_stub("plaid", "B"), ProviderId(9));
    assert_eq!(again, b);
    assert_eq!(rows.len(), 2);
    assert_eq!(rows[1].last_poll_at, Some(77));
}

#[test]
fn a_total_counts_the_end_of_its_window() {
    let main = BusinessId(1);
    let mut rows: Vec<Transaction> = Vec::new();
    let mut t = tx(AccountId(1), 100, 500, "a");
    t.tag = Some("income".to_string());
    t.business_id = Some(main);
    store(&mut rows, &t);
    assert_eq!(total_by_tag(&rows, "income", 0, 100).unwrap(), Cents(500));
    assert_eq!(total_by_tag(&rows, "income", 0, 99).unwrap(), Cents(0));
    assert_eq!(business_pnl(&rows, main, 0, 100).unwrap(), Cents(500));
    assert_eq!(business_pnl(&rows, main, 0, 99).unwrap(), Cents(0));
    // Income and expenses are counted up to the end, without it.
    let (income, _) = business_income_expenses(&rows, main, 0, 100).unwrap();
    assert_eq!(income, Cents(0));
}

#[test]
fn cash_flow_needs_dates() {
    // The last second of 9999 has a month; the next one has none.
    let mut rows: Vec<Transaction> = Vec::new();
    store(&mut rows, &tx(AccountId(1), 253_402_300_799, 7, "a"));
    assert_eq!(
        cash_flow_monthly(&rows, 0, i64::MAX).unwrap(),
        vec![("9999-12".to_string(), Cents(7), Cents(0))]
    );
    store(&mut rows, &tx(AccountId(1), 253_402_300_800, 7, "b"));
    match cash_flow_monthly(&rows, 0, i64::MAX) {
        Err(CoreError::Sql(s)) => assert_eq!(s, "Invalid column type Null at index: 0, name: ym"),
        _ => panic!("expected an error"),
    }
    // Outside the window it does not matter.
    assert_eq!(cash_flow_monthly(&rows, 0, 253_402_300_800).unwrap().len(), 1);
}

fn is_foreign_key_error(e: CoreError) -> bool {
    matches!(&e, CoreError::Sql(s) if s == "FOREIGN KEY constraint failed")
}

#[test]
fn fk_enforced() {
    let mut rows: Vec<Transaction> = Vec::new();
    let mut t = tx(AccountId(999), 0, 100, "x");
    t.external_id = None;
    let res = upsert_transaction(&mut rows, &Vec::new(), &t, TransactionId(1));
    assert!(res.is_err(), "FK violation expected");
    assert!(is_foreign_key_error(res.unwrap_err()));
    assert!(rows.is_empty());
    // An account without that id does not help.
    let others = accounts_with(AccountId(1));
    assert!(upsert_transaction(&mut rows, &others, &t, TransactionId(1)).is_err());
    let theirs = accounts_with(AccountId(999));
    assert_eq!(
        upsert_transaction(&mut rows, &theirs, &t, TransactionId(1)).unwrap(),
        Some(TransactionId(1))
    );

    let mut snaps: Vec<BalanceSnapshot> = Vec::new();
    let r = insert_snapshot(&mut snaps, &others, AccountId(999), Cents(1), 10, 1);
    assert!(is_foreign_key_error(r.unwrap_err()));
    assert!(snaps.is_empty());
}

#[test]
fn a_page_stops_at_the_first_refusal() {
    let mut rows: Vec<Transaction> = Vec::new();
    let accounts = accounts_with(AccountId(1));
    let page = vec![
        tx(AccountId(1), 1, -1, "a"),
        tx(AccountId(2), 2, -2, "b"),
        tx(AccountId(1), 3, -3, "c"),
    ];
    let ids = number_ids(1, page.len());
    let removed = vec!["a".to_string()];
    let r = apply_page(&mut rows, &accounts, &page, &ids, &removed);
    assert!(is_foreign_key_error(r.unwrap_err()));
    // What came before it stays, and nothing is taken back.
    assert_eq!(rows.len(), 1);
    assert_eq!(rows[0].external_id.as_deref(), Some("a"));
}
