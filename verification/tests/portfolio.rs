use arca::db::{upsert_account, Account};
use arca::ids::AccountId;
use arca::money::Cents;
use arca::pp::{
    allocation, any_band_breach, backbone, drift, Allocation, DriftRow, T2_LOWER_BAND_PCT,
    T2_UPPER_BAND_PCT,
};

fn acct(name: &str, kind: &str, ac: Option<&str>, tier: Option<&str>) -> Account {
    Account {
        id: None,
        name: name.into(),
        kind: kind.into(),
        asset_class: ac.map(str::to_string),
        tier: tier.map(str::to_string),
        currency: "USD".into(),
        provider_id: None,
        business_id: None,
        external_id: None,
        active: true,
    }
}

struct Books {
    accounts: Vec<Account>,
    balances: Vec<(AccountId, Cents)>,
}

impl Books {
    fn new() -> Books {
        Books { accounts: Vec::new(), balances: Vec::new() }
    }

    fn add(&mut self, a: &Account, cents: i64) {
        let fresh = AccountId(self.accounts.len() as i64 + 1);
        let id = upsert_account(&mut self.accounts, a, fresh).unwrap();
        self.balances.push((id, Cents(cents)));
    }

    fn allocation(&self) -> Allocation {
        allocation(&self.balances, &self.accounts)
    }
}

fn pct(r: &DriftRow) -> f64 {
    if r.total_cents.0 == 0 {
        return 0.0;
    }
    r.actual_cents.0 as f64 / r.total_cents.0 as f64 * 100.0
}

#[test]
fn even_t2_split_no_breach() {
    let mut b = Books::new();
    for (n, ac) in [("E", "equity"), ("B", "long_treasuries"), ("C", "cash")] {
        b.add(&acct(n, "brokerage", Some(ac), Some("t2")), 10_000_00);
    }
    let alloc = b.allocation();
    assert_eq!(alloc.total, Cents(30_000_00));
    let rows = drift(&alloc);
    for r in &rows {
        assert!((pct(r) - 100.0 / 3.0).abs() < 0.01, "got {r:?}");
        assert!(!r.band_breach);
    }
    assert!(!any_band_breach(&rows));
}

#[test]
fn t1_rows_ignored_by_drift() {
    let mut b = Books::new();
    b.add(&acct("Gold", "asset", Some("gold"), Some("t1")), 50_000_00);
    assert_eq!(b.allocation().total, Cents(0));
    let bb = backbone(&b.balances, &b.accounts);
    assert_eq!(bb.gold, Cents(50_000_00));
    assert_eq!(bb.total, Cents(50_000_00));
}

#[test]
fn legacy_asset_classes_map_into_t2() {
    let mut b = Books::new();
    b.add(&acct("VTI", "brokerage", Some("stocks"), Some("t2")), 33_333_33);
    b.add(&acct("TLT", "brokerage", Some("bonds"), Some("t2")), 33_333_33);
    let alloc = b.allocation();
    assert_eq!(alloc.equity, Cents(33_333_33));
    assert_eq!(alloc.long_treasuries, Cents(33_333_33));
}

#[test]
fn skewed_t2_breaches_lower_band() {
    let mut b = Books::new();
    b.add(&acct("E", "brokerage", Some("equity"), Some("t2")), 60_000_00);
    b.add(&acct("B", "brokerage", Some("long_treasuries"), Some("t2")), 30_000_00);
    b.add(&acct("C", "asset", Some("cash"), Some("t2")), 10_000_00);
    let rows = drift(&b.allocation());
    let by = |name: &str| rows.iter().find(|r| r.asset_class == name).unwrap();
    let eq = by("equity");
    let bn = by("long_treasuries");
    let ca = by("cash");
    assert!((pct(eq) - 60.0).abs() < 0.01);
    assert!((pct(bn) - 30.0).abs() < 0.01);
    assert!((pct(ca) - 10.0).abs() < 0.01);
    assert!(eq.band_breach, "60% > 44% upper band");
    assert!(!bn.band_breach, "30% in-band");
    assert!(ca.band_breach, "10% < 22% lower band");
    assert!(any_band_breach(&rows));
}

#[test]
fn empty_alloc_no_breach() {
    let rows = drift(&Books::new().allocation());
    assert!(!any_band_breach(&rows));
    for r in &rows {
        assert!(pct(r).abs() < f64::EPSILON);
        assert!(!r.band_breach, "no breach when total=0");
    }
}

#[test]
fn t2_gold_etf_and_other_sleeves_aggregate_into_total() {
    let mut b = Books::new();
    b.add(&acct("GLD", "brokerage", Some("gold_etf"), Some("t2")), 5_000_00);
    b.add(&acct("WEIRD", "brokerage", Some("crypto_fund"), Some("t2")), 1_000_00);
    let alloc = b.allocation();
    assert_eq!(alloc.gold_etf, Cents(5_000_00));
    assert_eq!(alloc.other, Cents(1_000_00));
    assert_eq!(alloc.total, Cents(6_000_00));
    let rows = drift(&alloc);
    for r in rows
        .iter()
        .filter(|r| r.asset_class == "gold_etf" || r.asset_class == "other")
    {
        assert!(!r.band_breach, "{} never breaches", r.asset_class);
    }
}

#[test]
fn backbone_aggregates_every_t1_class() {
    let mut b = Books::new();
    for (n, ac, amt) in [
        ("G", "gold", 10_000_00),
        ("S", "silver", 2_000_00),
        ("X", "xmr", 3_000_00),
        ("L", "land", 50_000_00),
        ("H", "sfr", 80_000_00),
        ("Z", "collectible", 1_000_00), // unknown
    ] {
        b.add(&acct(n, "asset", Some(ac), Some("t1")), amt);
    }
    let t = backbone(&b.balances, &b.accounts);
    assert_eq!(t.gold, Cents(10_000_00));
    assert_eq!(t.silver, Cents(2_000_00));
    assert_eq!(t.xmr, Cents(3_000_00));
    assert_eq!(t.land, Cents(50_000_00));
    assert_eq!(t.sfr, Cents(80_000_00));
    assert_eq!(t.other, Cents(1_000_00));
    assert_eq!(t.total, Cents(146_000_00));
}

fn allocations() -> Vec<Allocation> {
    let mut out = Vec::new();
    let mut x: i64 = 12345;
    let mut next = || {
        x = x.wrapping_mul(6_364_136_223_846_793_005).wrapping_add(1_442_695_040_888_963_407);
        x % 100_000_000_001
    };
    for i in 0..400 {
        let pick = |v: i64| if i % 7 == 0 { 0 } else { v };
        let equity = Cents(next());
        let long_treasuries = Cents(next());
        let cash = Cents(next());
        let gold_etf = Cents(pick(next()));
        let other = Cents(pick(next()));
        let total = equity + long_treasuries + cash + gold_etf + other;
        out.push(Allocation { equity, long_treasuries, cash, gold_etf, other, total });
    }
    // Exactly at the bands, and an empty tier.
    for (e, l, c) in [(22, 34, 44), (44, 34, 22), (0, 0, 0), (21, 35, 44), (22, 33, 45)] {
        out.push(Allocation {
            equity: Cents(e),
            long_treasuries: Cents(l),
            cash: Cents(c),
            gold_etf: Cents(0),
            other: Cents(0),
            total: Cents(e + l + c),
        });
    }
    out
}

#[test]
fn prop_band_breach_matches_reference() {
    for a in allocations() {
        let total = a.total.0;
        let expected = total > 0
            && [a.equity, a.long_treasuries, a.cash].iter().any(|c| {
                let pct = c.0 as f64 / total as f64 * 100.0;
                !(T2_LOWER_BAND_PCT as f64..=T2_UPPER_BAND_PCT as f64).contains(&pct)
            });
        assert_eq!(any_band_breach(&drift(&a)), expected, "{a:?}");
    }
}

#[test]
fn prop_drift_table_shape() {
    for a in allocations() {
        let rows = drift(&a);
        assert!(rows.len() >= 3);
        assert_eq!(&rows[0].asset_class, "equity");
        assert_eq!(&rows[1].asset_class, "long_treasuries");
        assert_eq!(&rows[2].asset_class, "cash");
        let has_gold = rows.iter().any(|r| r.asset_class == "gold_etf");
        let has_other = rows.iter().any(|r| r.asset_class == "other");
        assert_eq!(has_gold, a.gold_etf.0 != 0);
        assert_eq!(has_other, a.other.0 != 0);
        for r in &rows {
            if r.asset_class == "gold_etf" || r.asset_class == "other" {
                assert!(!r.band_breach);
            }
        }
    }
}
