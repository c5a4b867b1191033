use arca::db::{list_active_accounts, Account, BalanceSnapshot, ProviderRow, Transaction};
use arca::error::CoreError;
use arca::feed::{apply_page, number_ids};
use arca::ids::{AccountId, BusinessId, ProviderId, TransactionId};
use arca::json::{parse_json, Json};
use arca::ledger::latest_balances;
use arca::money::Cents;
use arca::providers::manual::ManualProvider;
use arca::providers::{
    add_up, can_add_up, mercury, plaid, record_balance, secret_of, spot, stripe, usage, vultr,
    vultr_cost,
};

fn json(s: &str) -> Json {
    parse_json(s).unwrap()
}

/// Dollars written as a number, in cents.
fn cents(dollars: &str) -> Cents {
    let d: f64 = dollars.parse().unwrap();
    Cents((d * 100.0).round() as i64)
}

fn row(kind: &str, label: &str, secret_ref: Option<&str>) -> ProviderRow {
    ProviderRow {
        id: ProviderId(1),
        kind: kind.into(),
        label: label.into(),
        config_json: "{}".into(),
        secret_ref: secret_ref.map(str::to_string),
        poll_cadence: "manual".into(),
        last_poll_at: None,
        last_status: None,
    }
}

fn names(v: &[&str]) -> Vec<String> {
    v.iter().map(|s| s.to_string()).collect()
}

// --- plaid ---

#[test]
fn normalize_pfc_humanizes_enum() {
    assert_eq!(plaid::normalize_pfc("FOOD_AND_DRINK"), "Food and drink");
    assert_eq!(plaid::normalize_pfc("TRANSPORTATION"), "Transportation");
    assert_eq!(plaid::normalize_pfc("RENT_AND_UTILITIES"), "Rent and utilities");
    assert_eq!(plaid::normalize_pfc(""), "");
}

#[test]
fn normalize_pfc_beyond_ascii() {
    assert_eq!(plaid::normalize_pfc("  ÉCOLE_PRIMAIRE "), "École primaire");
    assert_eq!(plaid::normalize_pfc("_x"), " x");
}

#[test]
fn category_prefers_pfc_over_legacy_array() {
    let tx = json(
        r#"{"personal_finance_category":{"primary":"GENERAL_MERCHANDISE"},
            "category":["Shops","Supermarkets"]}"#,
    );
    assert_eq!(plaid::category(&tx).as_deref(), Some("General merchandise"));
}

#[test]
fn category_falls_back_to_legacy_array_when_pfc_absent() {
    let tx = json(r#"{"category":["Travel","Airlines"]}"#);
    assert_eq!(plaid::category(&tx).as_deref(), Some("Travel"));
    assert_eq!(plaid::category(&json(r#"{"category":[]}"#)), None);
    assert_eq!(plaid::category(&json("{}")), None);
}

fn picked(kind: &str, balances: &str) -> Option<f64> {
    plaid::pick_balance(Some(kind), Some(&json(balances))).map(|s| s.parse().unwrap())
}

#[test]
fn depository_prefers_available_over_current() {
    assert_eq!(picked("depository", r#"{"available":900.00,"current":1000.00}"#), Some(900.00));
}

#[test]
fn depository_falls_back_to_current_when_available_null() {
    assert_eq!(picked("depository", r#"{"available":null,"current":1000.00}"#), Some(1000.00));
}

#[test]
fn credit_uses_current_ignoring_available() {
    assert_eq!(picked("credit", r#"{"available":4750.00,"current":250.00}"#), Some(250.00));
}

#[test]
fn missing_balance_yields_none() {
    assert_eq!(picked("depository", "{}"), None);
    assert_eq!(picked("credit", "{}"), None);
    assert!(plaid::pick_balance(Some("credit"), None).is_none());
}

#[test]
fn plaid_sync_roundtrip() {
    let pid = ProviderId(1);
    let reply = json(
        r#"{"accounts":[{"account_id":"plaid_acct_1","name":"Plaid Checking","type":"depository",
            "subtype":"checking","balances":{"current":1234.56,"iso_currency_code":"USD"}}]}"#,
    );
    let mut accounts: Vec<Account> = Vec::new();
    let mut snapshots: Vec<BalanceSnapshot> = Vec::new();
    for a in plaid::reply_accounts(&reply).unwrap() {
        let b = plaid::read_account(a, pid).unwrap();
        record_balance(
            &mut accounts,
            &mut snapshots,
            &b.account,
            cents(&b.balance),
            100,
            AccountId(1),
            1,
        );
    }
    let list = list_active_accounts(&accounts);
    assert_eq!(list.len(), 1);
    assert_eq!(list[0].name, "Plaid Checking");
    assert_eq!(list[0].external_id.as_deref(), Some("plaid_acct_1"));
    assert_eq!(list[0].kind, "asset");
    assert_eq!(list[0].asset_class.as_deref(), Some("cash"));
    assert_eq!(latest_balances(&snapshots)[0].1.as_i64(), 123_456);

    let page = json(
        r#"{"added":[{"transaction_id":"plaid_txn_1","account_id":"plaid_acct_1","amount":12.34,
            "date":"2026-05-20","merchant_name":"Coffee Shop","name":"COFFEE",
            "category":["Food and Drink"],"iso_currency_code":"USD"}],
            "modified":[],"removed":[{"transaction_id":"gone"},{}],
            "next_cursor":"cur-1","has_more":false}"#,
    );
    let mut list: Vec<Transaction> = Vec::new();
    for tx in plaid::page_changes(&page) {
        let head = plaid::read_head(tx, &accounts, pid).unwrap();
        let c = cents(&head.amount);
        list.push(plaid::read_transaction(tx, &head, c).unwrap());
    }
    let removed = plaid::page_removals(&page);
    assert_eq!(removed, vec!["gone".to_string()]);
    let mut rows: Vec<Transaction> = Vec::new();
    let ids = number_ids(1, list.len());
    let deleted = apply_page(&mut rows, &accounts, &list, &ids, &removed).unwrap();
    let feed = plaid::Feed::start(None).advance(&page, list.len() as u32, deleted);
    assert!(feed.done);
    assert_eq!(feed.cursor.as_deref(), Some("cur-1"));
    let report = plaid::feed_report(feed.total, feed.cursor, feed.deleted);
    assert_eq!(report.rows_written, 1);
    assert_eq!(report.message, None);
    assert_eq!(rows.len(), 1);
    assert_eq!(rows[0].amount_cents.as_i64(), -1234);
    assert_eq!(rows[0].external_id.as_deref(), Some("plaid_txn_1"));
    assert_eq!(rows[0].description.as_deref(), Some("Coffee Shop"));
    assert_eq!(rows[0].category.as_deref(), Some("Food and Drink"));
    // Midnight of 2026-05-20 in UTC.
    assert_eq!(rows[0].posted_at, 1_779_235_200);
}

#[test]
fn plaid_refuses_what_is_missing() {
    let pid = ProviderId(1);
    let text = |e: CoreError| e.to_string();
    assert_eq!(
        text(plaid::reply_accounts(&json("{}")).unwrap_err()),
        "rpc protocol: plaid: no accounts in balance response"
    );
    assert_eq!(
        text(plaid::read_account(&json(r#"{"account_id":"x"}"#), pid).unwrap_err()),
        "rpc protocol: plaid account x: missing/non-numeric balance"
    );
    let mut a = Account {
        id: Some(AccountId(5)),
        name: "A".into(),
        kind: "asset".into(),
        asset_class: None,
        tier: None,
        currency: "USD".into(),
        provider_id: Some(pid),
        business_id: Some(BusinessId(2)),
        external_id: Some("x".into()),
        active: true,
    };
    let accounts = vec![a.clone()];
    let head = |s: &str| plaid::read_head(&json(s), &accounts, pid);
    assert_eq!(
        text(head("{}").unwrap_err()),
        "rpc protocol: plaid txn missing account_id"
    );
    assert_eq!(
        text(head(r#"{"account_id":"y"}"#).unwrap_err()),
        "not found: plaid account y — run refresh_balances first"
    );
    assert_eq!(
        text(head(r#"{"account_id":"x"}"#).unwrap_err()),
        "rpc protocol: plaid txn missing transaction_id"
    );
    assert_eq!(
        text(head(r#"{"account_id":"x","transaction_id":"t","amount":"1"}"#).unwrap_err()),
        "rpc protocol: plaid txn t: missing/non-numeric amount"
    );
    let ok = head(r#"{"account_id":"x","transaction_id":"t","amount":1}"#).unwrap();
    assert_eq!(ok.account_id, AccountId(5));
    assert_eq!(ok.business_id, Some(BusinessId(2)));
    assert_eq!(
        text(plaid::read_transaction(&json("{}"), &ok, Cents(100)).unwrap_err()),
        "rpc protocol: plaid txn t: missing date"
    );
    let bad = plaid::read_transaction(&json(r#"{"date":"soon"}"#), &ok, Cents(100)).unwrap_err();
    assert!(text(bad).starts_with("rpc protocol: plaid txn t: bad date soon: "));
    // Money that goes out is positive in the feed and negative in the ledger.
    let day = json(r#"{"date":"2026-05-20"}"#);
    assert_eq!(plaid::read_transaction(&day, &ok, Cents(100)).unwrap().amount_cents, Cents(-100));
    assert_eq!(plaid::read_transaction(&day, &ok, Cents(-75)).unwrap().amount_cents, Cents(75));
    a.active = false;
}

#[test]
fn plaid_is_built_of_its_secrets() {
    let all = names(&["plaid_client_id", "plaid_sandbox_secret", "tok"]);
    let r = row("plaid", "navy_fed", Some("tok"));
    let p = plaid::plaid_parts(&r, "sandbox", &all).unwrap();
    assert_eq!(p.base_url, "https://sandbox.plaid.com");
    assert_eq!((p.client_id, p.secret, p.access_token), (0, 1, 2));
    assert_eq!(
        plaid::plaid_parts(&r, "moon", &all).unwrap_err(),
        "unknown plaid_env: moon"
    );
    assert_eq!(
        plaid::plaid_parts(&r, "production", &all).unwrap_err(),
        "missing secret: plaid_production_secret"
    );
    assert_eq!(
        plaid::plaid_parts(&row("plaid", "x", None), "sandbox", &all).unwrap_err(),
        "plaid provider x has no secret_ref"
    );
    assert_eq!(plaid::default_env(), "sandbox");
    assert_eq!(plaid::with_cursor("sandbox", "c").sync_cursor.as_deref(), Some("c"));
}

#[test]
fn plaid_reports_what_it_took_back() {
    let r = plaid::feed_report(3, Some("c".to_string()), 2);
    assert_eq!(r.message.as_deref(), Some("removed 2 stale transaction(s)"));
    let page = json(r#"{"has_more":true}"#);
    let f = plaid::Feed::start(Some("c".to_string())).advance(&page, 0, 0);
    assert!(!f.done);
    assert_eq!(f.cursor, None);
}

#[test]
fn plaid_types_map_to_kinds() {
    assert_eq!(plaid::plaid_kind(Some("loan")), "debt");
    assert_eq!(plaid::plaid_kind(Some("brokerage")), "brokerage");
    assert_eq!(plaid::plaid_kind(None), "asset");
    assert_eq!(plaid::plaid_asset_class(Some("depository"), Some("cd")), Some("cash"));
    assert_eq!(plaid::plaid_asset_class(Some("investment"), None), Some("stocks"));
    assert_eq!(plaid::plaid_asset_class(Some("depository"), Some("paypal")), None);
}

// --- mercury ---

#[test]
fn mercury_roundtrip() {
    let pid = ProviderId(1);
    let reply = json(
        r#"{"accounts":[{"id":"merc_acct_1","name":"Mercury Checking","currency":"USD",
            "currentBalance":5000.00}]}"#,
    );
    let mut accounts: Vec<Account> = Vec::new();
    let mut snapshots: Vec<BalanceSnapshot> = Vec::new();
    for a in mercury::reply_accounts(&reply).unwrap() {
        let b = mercury::read_account(a, pid, Some(BusinessId(1)));
        let c = cents(&b.balance);
        record_balance(&mut accounts, &mut snapshots, &b.account, c, 1, AccountId(1), 1);
    }
    assert_eq!(latest_balances(&snapshots)[0].1, Cents(500_000));
    let requests = mercury::feed_requests(&list_active_accounts(&accounts), pid);
    assert_eq!(requests.len(), 1);
    assert_eq!(requests[0].path, "/account/merc_acct_1/transactions?limit=500");
    let t = json(
        r#"{"id":"merc_txn_1","amount":-100.00,"postedAt":"2026-05-20T12:00:00Z",
            "counterpartyName":"AWS","kind":"card_charge"}"#,
    );
    let c = cents(&mercury::amount_of(&t));
    let tx = mercury::read_transaction(&t, requests[0].account_id, Some(BusinessId(1)), c);
    assert_eq!(tx.amount_cents.as_i64(), -10_000);
    assert_eq!(tx.tag.as_deref(), Some("business"));
    assert_eq!(tx.posted_at, 1_779_278_400);
    assert_eq!(tx.description.as_deref(), Some("AWS"));
    assert_eq!(tx.category.as_deref(), Some("card_charge"));
}

#[test]
fn mercury_defaults() {
    assert!(mercury::reply_accounts(&json("{}")).is_err());
    let b = mercury::read_account(&json("{}"), ProviderId(1), None);
    assert_eq!(b.balance, "0");
    assert_eq!(b.account.name, "mercury");
    assert_eq!(b.account.external_id.as_deref(), Some(""));
    // A null in front hides what stands behind it.
    let t = json(r#"{"postedAt":null,"createdAt":"2026-05-20T12:00:00Z"}"#);
    let tx = mercury::read_transaction(&t, AccountId(1), None, Cents(5));
    assert_eq!(tx.posted_at, 0);
    assert_eq!(tx.tag.as_deref(), Some("income"));
}

// --- stripe ---

#[test]
fn stripe_roundtrip() {
    let pid = ProviderId(1);
    let reply = json(
        r#"{"available":[{"amount":250000,"currency":"usd"}],
            "pending":[{"amount":50000,"currency":"usd"}]}"#,
    );
    assert!(can_add_up(&stripe::read_balance(&reply).0));
    let (account, total) =
        stripe::total_balance(&reply, "main", pid, Some(BusinessId(1))).unwrap();
    assert_eq!(total.as_i64(), 300_000);
    assert_eq!(account.name, "Stripe — main");
    assert_eq!(account.currency, "USD");
    let mut accounts: Vec<Account> = Vec::new();
    let mut snapshots: Vec<BalanceSnapshot> = Vec::new();
    record_balance(&mut accounts, &mut snapshots, &account, total, 1, AccountId(9), 1);
    let id = stripe::local_account(&accounts, pid).unwrap();
    assert_eq!(id, AccountId(9));
    let page = json(
        r#"{"data":[{"id":"txn_1","amount":10000,"created":1716000000,"type":"charge",
            "description":"customer payment","currency":"usd"}]}"#,
    );
    let (rows, feed) = stripe::Feed::start().advance(&page, id, Some(BusinessId(1)));
    assert!(feed.done);
    assert_eq!(feed.total, 1);
    assert_eq!(rows[0].tag.as_deref(), Some("income"));
    assert_eq!(rows[0].amount_cents.as_i64(), 10_000);
    assert_eq!(rows[0].currency, "USD");
    assert_eq!(rows[0].posted_at, 1_716_000_000);
}

#[test]
fn stripe_pages_follow_the_last_transaction() {
    let page = json(r#"{"data":[{"id":"a"},{"id":"b"}],"has_more":true}"#);
    let (_, feed) = stripe::Feed::start().advance(&page, AccountId(1), None);
    assert!(!feed.done);
    assert_eq!(feed.starting_after.as_deref(), Some("b"));
    assert_eq!(
        stripe::page_path(&feed.starting_after),
        "/v1/balance_transactions?limit=100&starting_after=b"
    );
    assert_eq!(stripe::page_path(&None), "/v1/balance_transactions?limit=100");
    // The limit ends the feed, and so does an empty page.
    assert_eq!(stripe::next_page(&page, stripe::MAX_PAGES), None);
    assert_eq!(stripe::next_page(&json(r#"{"data":[],"has_more":true}"#), 1), None);
    assert!(stripe::local_account(&Vec::new(), ProviderId(1)).is_err());
}

#[test]
fn stripe_tags() {
    for (kind, tag) in [("payment", "income"), ("refund", "business"), ("adjustment", "adjustment")] {
        let t = json(&format!(r#"{{"id":"x","type":"{kind}"}}"#));
        let r = stripe::read_transaction(&t, AccountId(1), None);
        assert_eq!(r.tag.as_deref(), Some(tag));
        assert_eq!(r.category.as_deref(), Some(kind));
    }
    assert_eq!(stripe::read_transaction(&json("{}"), AccountId(1), None).tag, None);
}

#[test]
fn amounts_are_added_up_within_the_integers() {
    assert!(can_add_up(&vec![1, 2, 3]));
    assert_eq!(add_up(&vec![1, 2, 3]), 6);
    assert!(!can_add_up(&vec![i64::MAX, 1, -1]));
}

// --- vultr ---

#[test]
fn sums_only_current_month_outgoing() {
    let bw = json(
        r#"{"bandwidth":{
            "2026-04-30":{"incoming_bytes":999,"outgoing_bytes":5000000000},
            "2026-05-01":{"incoming_bytes":10,"outgoing_bytes":2000000000},
            "2026-05-02":{"incoming_bytes":20,"outgoing_bytes":3000000000}}}"#,
    );
    assert!(vultr::egress_fits(&bw, "2026-05"));
    assert_eq!(vultr::mtd_outgoing_bytes(&bw, "2026-05").unwrap(), 5_000_000_000);
    assert_eq!(
        vultr::mtd_outgoing_bytes(&bw, "2026-05").unwrap() / vultr::BYTES_PER_GB,
        5
    );
    assert_eq!(vultr::gigabytes(5_000_000_000), 5);
}

#[test]
fn missing_bandwidth_object_errors() {
    assert!(vultr::mtd_outgoing_bytes(&json("{}"), "2026-05").is_err());
}

#[test]
fn non_numeric_outgoing_bytes_errors_in_window_only() {
    let bad = json(r#"{"bandwidth":{"2026-05-01":{"outgoing_bytes":"lots"}}}"#);
    let e = vultr::mtd_outgoing_bytes(&bad, "2026-05").unwrap_err();
    assert_eq!(
        e.to_string(),
        "rpc protocol: vultr: 2026-05-01 missing/non-numeric outgoing_bytes"
    );
    let off_month = json(r#"{"bandwidth":{"2026-04-01":{"outgoing_bytes":"x"}}}"#);
    assert_eq!(vultr::mtd_outgoing_bytes(&off_month, "2026-05").unwrap(), 0);
}

#[test]
fn egress_is_reported_against_the_quota() {
    let r = vultr::egress_report(318, 1000);
    assert_eq!(r.message.as_deref(), Some("MTD egress: 318/1000 GB (31%)"));
    let r = vultr::egress_report(318, 0);
    assert_eq!(r.message.as_deref(), Some("MTD egress: 318 GB (quota unknown)"));
    assert_eq!(vultr::read_quota(&json(r#"{"instance":{"allowed_bandwidth":1000}}"#)), 1000);
    assert_eq!(vultr::read_quota(&json("{}")), 0);
    assert_eq!(vultr::month_prefix(1_780_000_000), "2026-05");
    assert_eq!(vultr::egress_account("web1", ProviderId(1)).name, "Vultr — web1 (egress GB)");
    assert_eq!(vultr::no_feed().rows_written, 0);
    assert_eq!(vultr::gigabytes(-2_500_000_000), -2);
    assert_eq!(vultr::gigabytes(i64::MIN), i64::MIN / vultr::BYTES_PER_GB);
}

#[test]
fn vultr_needs_an_instance_and_a_key() {
    let r = row("vultr", "web", Some("k"));
    assert_eq!(
        vultr::vultr_secret(&r, "  ", &names(&["k"])).unwrap_err(),
        "vultr provider web config_json missing instance_id"
    );
    assert_eq!(vultr::vultr_secret(&r, "i-1", &names(&["k"])).unwrap(), 0);
    assert_eq!(
        vultr::vultr_secret(&r, "i-1", &names(&[])).unwrap_err(),
        "missing secret: k"
    );
    assert_eq!(
        secret_of("mercury", &row("mercury", "m", None), &names(&[])).unwrap_err(),
        "mercury provider m has no secret_ref"
    );
}

// --- vultr_cost ---

fn inst(plan: &str, label: &str) -> vultr_cost::Instance {
    vultr_cost::Instance { plan: plan.to_string(), label: label.to_string() }
}

fn catalog() -> Vec<vultr_cost::Plan> {
    [("vc2-1c-1gb", 600), ("vc2-2c-4gb", 2000), ("vhf-1c-2gb", 1200)]
        .iter()
        .map(|(id, c)| vultr_cost::Plan { id: id.to_string(), monthly_cost: Ok(*c) })
        .collect()
}

#[test]
fn sums_run_rate_across_fleet() {
    let fleet = vec![
        inst("vc2-1c-1gb", "saas"),
        inst("vc2-2c-4gb", "trader"),
        inst("vc2-1c-1gb", "hermes"),
    ];
    assert!(vultr_cost::can_total(&fleet, &catalog()));
    let (cents, count) = vultr_cost::monthly_cost_cents(&fleet, &catalog()).unwrap();
    // 6 + 20 + 6 = $32.00
    assert_eq!(cents, 3_200);
    assert_eq!(count, 3);
}

#[test]
fn unknown_plan_errors_not_undercounts() {
    let e = vultr_cost::monthly_cost_cents(&vec![inst("ghost-plan", "x")], &catalog()).unwrap_err();
    assert_eq!(
        e.to_string(),
        "rpc protocol: vultr: instance x on unknown plan ghost-plan"
    );
    let e = vultr_cost::monthly_cost_cents(&vec![inst("ghost-plan", "")], &catalog()).unwrap_err();
    assert!(e.to_string().contains("<unlabeled>"));
}

#[test]
fn a_refused_price_fails_the_fleet() {
    let plans = vec![vultr_cost::Plan {
        id: "p".to_string(),
        monthly_cost: Err("vultr: implausible monthly_cost -1".to_string()),
    }];
    let e = vultr_cost::monthly_cost_cents(&vec![inst("p", "x")], &plans).unwrap_err();
    assert_eq!(e.to_string(), "rpc protocol: vultr: implausible monthly_cost -1");
    let huge = vec![vultr_cost::Plan { id: "p".to_string(), monthly_cost: Ok(i64::MAX) }];
    assert!(!vultr_cost::can_total(&vec![inst("p", "x"), inst("p", "y")], &huge));
}

#[test]
fn empty_fleet_is_zero() {
    assert_eq!(
        vultr_cost::monthly_cost_cents(&Vec::new(), &catalog()).unwrap(),
        (0, 0)
    );
}

#[test]
fn missing_arrays_error() {
    assert!(vultr_cost::fleet_of(&json("{}")).is_err());
    assert!(vultr_cost::catalog_of(&json("{}")).is_err());
    assert!(vultr_cost::fleet_of(&json(r#"{"instances":[]}"#)).is_ok());
    assert!(vultr_cost::catalog_of(&json(r#"{"plans":[]}"#)).is_ok());
}

#[test]
fn fleet_cost_is_reported() {
    assert_eq!(
        vultr_cost::cost_report(1, "6.00").message.as_deref(),
        Some("1 instance · $6.00/mo run-rate")
    );
    assert_eq!(
        vultr_cost::cost_report(3, "32.00").message.as_deref(),
        Some("3 instances · $32.00/mo run-rate")
    );
    assert_eq!(vultr_cost::account_name(&None), "Vultr VPS hosting");
    assert_eq!(vultr_cost::account_name(&Some("  ".to_string())), "Vultr VPS hosting");
    assert_eq!(vultr_cost::account_name(&Some(" Mine ".to_string())), "Mine");
    assert_eq!(
        vultr_cost::cost_account("Mine".to_string(), ProviderId(1)).external_id.as_deref(),
        Some("monthly_cost")
    );
    assert_eq!(vultr_cost::no_feed().provider_kind, "vultr_cost");
}

// --- usage ---

#[test]
fn openrouter_credits_snapshot() {
    let reply = json(r#"{"data":{"total_credits":100.0,"total_usage":23.45}}"#);
    assert_eq!(cents(&usage::read_usage(&reply).unwrap()), Cents(2345));
    assert_eq!(usage::openrouter_account("main", ProviderId(1)).name, "OpenRouter — main");
    assert_eq!(
        usage::read_usage(&json("{}")).unwrap_err().to_string(),
        "rpc protocol: openrouter: no data field"
    );
    assert_eq!(
        usage::read_usage(&json(r#"{"data":{}}"#)).unwrap_err().to_string(),
        "rpc protocol: openrouter: missing/non-numeric total_usage"
    );
    assert_eq!(
        usage::openrouter_report("23.45").message.as_deref(),
        Some("cumulative usage $23.45")
    );
    assert_eq!(usage::openrouter_no_feed().rows_written, 0);
}

#[test]
fn scrapecreators_credits_snapshot() {
    assert_eq!(usage::read_credits(&json(r#"{"creditCount":12345}"#)).unwrap(), 12_345);
    assert_eq!(usage::read_credits(&json(r#"{"credits":7}"#)).unwrap(), 7);
    assert!(usage::read_credits(&json("{}")).is_err());
    assert_eq!(usage::credits_account("main", ProviderId(1)).currency, "CREDITS");
    assert_eq!(
        usage::credits_report(12_345).message.as_deref(),
        Some("12345 credits remaining")
    );
    assert_eq!(usage::credits_no_feed().rows_written, 0);
}

#[test]
fn postmark_mtd_messages() {
    let reply = json(
        r#"{"Servers":[{"Name":"primary","ApiTokens":["srv-tok-1"]},
            {"Name":"secondary","ApiTokens":["srv-tok-2"]},{"Name":"bare"}]}"#,
    );
    let servers = usage::reply_servers(&reply).unwrap();
    let tokens: Vec<Option<String>> = servers.iter().map(usage::server_token).collect();
    assert_eq!(
        tokens,
        vec![Some("srv-tok-1".to_string()), Some("srv-tok-2".to_string()), None]
    );
    assert_eq!(usage::server_name(&servers[0]), "primary");
    let answers = vec![Some(json(r#"{"Sent":120}"#)), Some(json(r#"{"Sent":80}"#))];
    let (sent, failed) = usage::tally(&answers);
    assert_eq!(add_up(&sent), 200);
    assert_eq!(failed, 0);
    assert_eq!(usage::postmark_account("main", ProviderId(1)).currency, "MESSAGES");
    assert_eq!(
        usage::postmark_report(200, 0).message.as_deref(),
        Some("MTD sent: 200 messages")
    );
    let (sent, failed) = usage::tally(&vec![None, Some(json(r#"{"Sent":5}"#)), Some(json("{}"))]);
    assert_eq!((add_up(&sent), failed), (5, 1));
    assert_eq!(
        usage::postmark_report(5, 1).message.as_deref(),
        Some("MTD sent: 5 messages (1 server(s) errored — count understated)")
    );
    assert!(usage::reply_servers(&json("{}")).is_err());
    assert_eq!(
        usage::stats_path(1_780_000_000),
        "/stats/outbound?fromdate=2026-05-01&todate=2026-05-28"
    );
    assert_eq!(usage::postmark_no_feed().rows_written, 0);
}

#[test]
fn openai_usage_mtd_cost_snapshot() {
    let page = json(
        r#"{"data":[{"object":"bucket","start_time":1777000000,"end_time":1777086400,"results":[
            {"amount":{"value":0.06,"currency":"usd"}},
            {"amount":{"value":1.94,"currency":"usd"}},
            {"object":"no amount"}]},{}],"has_more":false,"next_page":null}"#,
    );
    let amounts = usage::page_amounts(&page).unwrap();
    let total: f64 = amounts.iter().map(|s| s.parse::<f64>().unwrap()).sum();
    assert_eq!((total * 100.0).round() as i64, 200);
    assert_eq!(usage::next_page(&page, 1), None);
    let more = json(r#"{"has_more":true,"next_page":"p2"}"#);
    assert_eq!(usage::next_page(&more, 1).as_deref(), Some("p2"));
    assert_eq!(usage::next_page(&more, usage::MAX_PAGES), None);
    assert_eq!(usage::page_amounts(&json("{}")).unwrap().len(), 0);
    let bad = json(r#"{"data":[{"results":[{"amount":{"value":"x"}}]}]}"#);
    assert_eq!(
        usage::page_amounts(&bad).unwrap_err(),
        "openai cost bucket has non-numeric amount.value"
    );
    // 2026-05-01 00:00 UTC.
    assert_eq!(usage::month_start_unix(1_780_000_000), 1_777_593_600);
    assert_eq!(usage::openai_account("main", ProviderId(1)).name, "OpenAI API — main");
    assert_eq!(usage::openai_report("2.00").message.as_deref(), Some("MTD cost $2.00"));
    assert_eq!(usage::openai_no_feed().rows_written, 0);
}

// --- spot ---

#[test]
fn gold_spot_snapshot() {
    let reply = json(r#"{"name":"Gold","price":2348.71,"symbol":"XAU"}"#);
    assert_eq!(cents(&spot::gold_price(&reply).unwrap()), Cents(234_871));
    assert!(spot::gold_price(&json(r#"{"price":"x"}"#)).is_err());
    assert_eq!(
        spot::gold_report("2348.71").message.as_deref(),
        Some("XAU/USD $2348.71/oz")
    );
    assert_eq!(spot::gold_no_feed().rows_written, 0);
}

#[test]
fn xmr_spot_values_holding() {
    let reply = json(
        r#"{"error":[],"result":{"XXMRZUSD":{"a":["200.10","1","1.000"],
            "b":["199.90","2","2.000"],"c":["200.00","0.5"]}}}"#,
    );
    let price: f64 = spot::read_price(&reply).unwrap().parse().unwrap();
    assert_eq!((3.5 * price * 100.0).round() as i64, 70_000);
    let a = spot::xmr_account(spot::default_account_name(), ProviderId(1));
    assert_eq!(a.name, "xmr_wallet");
    assert_eq!(a.asset_class.as_deref(), Some("xmr"));
    assert_eq!(a.tier.as_deref(), Some("t1"));
    assert_eq!(a.currency, "USD");
    assert_eq!(
        spot::xmr_report("3.5", "200.00", "700.00").message.as_deref(),
        Some("3.5 XMR × $200.00 = $700.00")
    );
    assert_eq!(spot::xmr_no_feed().rows_written, 0);
}

#[test]
fn tickers_that_say_nothing() {
    let fault = |s: &str| spot::read_price(&json(s)).unwrap_err();
    assert_eq!(fault(r#"{"error":["EQuery:Unknown"]}"#), spot::TickerFault::Exchange);
    assert_eq!(fault(r#"{"error":[]}"#), spot::TickerFault::NoResult);
    assert_eq!(fault(r#"{"result":{}}"#), spot::TickerFault::EmptyResult);
    assert_eq!(fault(r#"{"result":{"X":{"c":[]}}}"#), spot::TickerFault::NoPrice);
    assert_eq!(
        spot::TickerFault::EmptyResult.text(),
        "xmr_spot: empty `result` object"
    );
}

// --- manual ---

#[test]
fn manual_provider_has_no_source() {
    let p = ManualProvider::new();
    assert_eq!(p.kind(), "manual");
    assert_eq!(p.label(), "manual");
    let r = p.refresh();
    assert_eq!(r.rows_written, 0);
    assert_eq!(r.message.as_deref(), Some("manual provider: no remote source"));
    assert_eq!(ManualProvider::default().label, "manual");
    assert_eq!(number_ids(3, 2), vec![TransactionId(3), TransactionId(4)]);
}

// --- whole refreshes ---

#[test]
fn egress_is_read_from_both_replies() {
    let instance = json(r#"{"instance":{"allowed_bandwidth":1000}}"#);
    let bandwidth = json(
        r#"{"bandwidth":{"2026-04-30":{"outgoing_bytes":9000000000},
            "2026-05-01":{"outgoing_bytes":2500000000},
            "2026-05-02":{"outgoing_bytes":248000000000}}}"#,
    );
    // 2026-05-28.
    let now = 1_780_000_000;
    let r = vultr::read_egress(&instance, &bandwidth, "web", ProviderId(4), now).unwrap().unwrap();
    assert_eq!(r.balance, Cents(250));
    assert_eq!(r.account.name, "Vultr — web (egress GB)");
    assert_eq!(r.report.message.as_deref(), Some("MTD egress: 250/1000 GB (25%)"));
    let e = vultr::read_egress(&instance, &json("{}"), "web", ProviderId(4), now).unwrap();
    assert!(e.is_err());
    assert!(vultr::read_egress(&instance, &bandwidth, "web", ProviderId(4), i64::MAX).is_none());
}

#[test]
fn credits_are_stored_and_reported() {
    let reply = json(r#"{"creditCount":12345}"#);
    let r = usage::read_credit_balance(&reply, "main", ProviderId(2)).unwrap();
    assert_eq!(r.balance, Cents(12_345));
    assert_eq!(r.account.currency, "CREDITS");
    assert_eq!(r.report.message.as_deref(), Some("12345 credits remaining"));
    assert!(usage::read_credit_balance(&json("{}"), "main", ProviderId(2)).is_err());
}

#[test]
fn servers_that_fail_are_counted() {
    let answers = vec![Some(json(r#"{"Sent":40}"#)), None, Some(json(r#"{"Sent":2}"#))];
    let r = usage::read_outbound(&answers, "mail", ProviderId(3)).unwrap();
    assert_eq!(r.balance, Cents(42));
    assert_eq!(r.account.external_id.as_deref(), Some("mtd_sent"));
    assert_eq!(
        r.report.message.as_deref(),
        Some("MTD sent: 42 messages (1 server(s) errored — count understated)")
    );
    let huge = json(r#"{"Sent":9223372036854775807}"#);
    let answers = vec![Some(huge), Some(json(r#"{"Sent":1}"#))];
    assert!(usage::read_outbound(&answers, "mail", ProviderId(3)).is_none());
}

#[test]
fn mercury_page_keeps_its_order() {
    let page = json(
        r#"{"transactions":[{"id":"a","amount":12.5,"createdAt":"2026-05-01T00:00:00Z"},
            {"id":"b","amount":-3}]}"#,
    );
    let amounts = mercury::page_amounts(&page);
    let list: Vec<Cents> = amounts.iter().map(|a| cents(a)).collect();
    let rows = mercury::read_page(&page, AccountId(7), None, &list);
    assert_eq!(rows.len(), 2);
    assert_eq!(rows[0].external_id.as_deref(), Some("a"));
    assert_eq!(rows[0].amount_cents, Cents(1250));
    assert_eq!(rows[0].posted_at, 1_777_593_600);
    assert_eq!(rows[0].tag.as_deref(), Some("income"));
    assert_eq!(rows[1].amount_cents, Cents(-300));
    assert_eq!(rows[1].tag.as_deref(), Some("business"));
    assert!(mercury::page_amounts(&json("{}")).is_empty());
    assert!(mercury::read_page(&json("{}"), AccountId(7), None, &Vec::new()).is_empty());
}

#[test]
fn stripe_total_that_overflows_is_refused() {
    let reply = json(
        r#"{"available":[{"amount":9223372036854775807,"currency":"usd"}],
            "pending":[{"amount":1,"currency":"usd"}]}"#,
    );
    assert!(stripe::total_balance(&reply, "main", ProviderId(1), None).is_none());
}

#[test]
fn stripe_feed_is_read_to_its_end() {
    let pages = [
        json(r#"{"data":[{"id":"a"},{"id":"b"}],"has_more":true}"#),
        json(r#"{"data":[{"id":"c"}],"has_more":true}"#),
        json(r#"{"data":[{"id":"d"}],"has_more":false}"#),
    ];
    let mut feed = stripe::Feed::start();
    let mut asked: Vec<Option<String>> = Vec::new();
    for page in &pages {
        assert!(!feed.done);
        asked.push(feed.starting_after.clone());
        feed = feed.advance(page, AccountId(1), None).1;
    }
    assert!(feed.done);
    assert_eq!((feed.pages, feed.total), (3, 4));
    assert_eq!(asked, vec![None, Some("b".to_string()), Some("c".to_string())]);

    // A feed that always says that there is more ends at the limit.
    let mut feed = stripe::Feed::start();
    while !feed.done {
        feed = feed.advance(&pages[1], AccountId(1), None).1;
    }
    assert_eq!((feed.pages, feed.total), (200, 200));

    // An empty page ends it too.
    let none = json(r#"{"data":[],"has_more":true}"#);
    assert!(stripe::Feed::start().advance(&none, AccountId(1), None).1.done);
}

#[test]
fn plaid_feed_is_read_to_its_end() {
    let first = json(r#"{"next_cursor":"c1","has_more":true}"#);
    let last = json(r#"{"next_cursor":"c2","has_more":false}"#);
    let a = plaid::Feed::start(Some("c0".to_string()));
    let b = a.advance(&first, 3, 1);
    assert!(!b.done);
    assert_eq!(b.cursor.as_deref(), Some("c1"));
    let c = b.advance(&last, 2, 4);
    assert!(c.done);
    assert_eq!((c.total, c.deleted, c.cursor.as_deref()), (5, 5, Some("c2")));
}

#[test]
fn openai_costs_are_read_to_their_end() {
    let pages = [
        json(r#"{"has_more":true,"next_page":"p2"}"#),
        json(r#"{"has_more":true,"next_page":"p3"}"#),
        json(r#"{"has_more":true}"#),
    ];
    let mut asked: Vec<Option<String>> = vec![None];
    for (i, page) in pages.iter().enumerate() {
        asked.push(usage::next_page(page, i + 1));
    }
    assert_eq!(asked, vec![None, Some("p2".to_string()), Some("p3".to_string()), None]);
}
