use arca::db::{list_active_accounts, recurring_labels};
use arca::demo::{category_for, demo_prices, seed, HISTORY_MONTHS};
use arca::handler::Tables;
use arca::ledger::{list_recent_alerts, networth_series};
use arca::money::Cents;
use arca::recurring::{labeled_series, MIN_OCCURRENCES};
use arca::time::now_secs;

fn empty() -> Tables {
    Tables {
        accounts: Vec::new(),
        snapshots: Vec::new(),
        transactions: Vec::new(),
        businesses: Vec::new(),
        providers: Vec::new(),
        subscriptions: Vec::new(),
        planned: Vec::new(),
        rules: Vec::new(),
        history: Vec::new(),
        labels: Vec::new(),
    }
}

#[test]
fn seed_populates_a_coherent_demo_db() {
    let mut t = empty();
    seed(&mut t, now_secs(), 1);

    // Accounts of every tier.
    let accts = list_active_accounts(&t.accounts);
    assert!(accts.iter().any(|a| a.tier.as_deref() == Some("t1")));
    assert!(accts.iter().any(|a| a.tier.as_deref() == Some("t2")));
    assert!(accts.iter().any(|a| a.tier.as_deref() == Some("t3")));

    // The trend rises toward today.
    let series = networth_series(&t.accounts, &t.snapshots, None);
    assert!(series.len() >= 2, "expected a multi-point trend");
    assert!(
        series.last().unwrap().1.as_i64() > series.first().unwrap().1.as_i64(),
        "net worth should rise toward the present"
    );
    assert!(series.last().unwrap().1.as_i64() > 0);

    // The monthly bills are detected.
    let detected =
        labeled_series(&t.transactions, &recurring_labels(&t.labels), MIN_OCCURRENCES);
    assert!(
        detected.len() >= 4,
        "expected several detected bills, got {}",
        detected.len()
    );
    assert!(detected.iter().any(|s| s.series.payee == "netflix"));

    // The alert queue has pending firings.
    let pending = list_recent_alerts(&t.history, 50, false);
    assert!(pending.len() >= 2, "expected pending demo alerts");
}

#[test]
fn seeding_again_adds_no_rows_of_a_name() {
    let mut t = empty();
    let now = now_secs();
    seed(&mut t, now, 1);
    let counts = (t.accounts.len(), t.transactions.len(), t.subscriptions.len(), t.rules.len());
    assert_eq!(counts, (16, 58, 4, 4));
    assert_eq!(t.snapshots.len(), 16 + 15 * HISTORY_MONTHS as usize);
    seed(&mut t, now, 500);
    let again = (t.accounts.len(), t.transactions.len(), t.subscriptions.len(), t.rules.len());
    assert_eq!(counts, again);
}

#[test]
fn demo_payees_have_categories() {
    assert_eq!(category_for("RENT"), "housing");
    assert_eq!(category_for("STRIPE PAYOUT ACME"), "revenue");
    assert_eq!(category_for("ANYTHING"), "other");
    assert_eq!(demo_prices()[0].1, Cents(2_650_00));
}
