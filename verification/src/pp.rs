//! Three-tier capital structure.
//!
//! Tier 1 (`t1`) is the hold-forever backbone: reported, never rebalanced. Tier 2
//! (`t2`) is split over three sleeves with a target of a third each; a sleeve below
//! 22% or above 44% of the tier's total calls for a rebalance. Accounts in another
//! tier, or not in US dollars, take part in neither.

use crate::db::Account;
use crate::ids::AccountId;
use crate::money::Cents;
use crate::text::{opt_is, str_eq};
use vstd::prelude::*;

verus! {

use crate::money::clamp;
use crate::order::kept;
use crate::text::opt_text;

/// Lower rebalance band, in percent of the tier's total.
pub const T2_LOWER_BAND_PCT: i64 = 22;

/// Upper rebalance band, in percent of the tier's total.
pub const T2_UPPER_BAND_PCT: i64 = 44;

/// Latest-balance allocation of tier 2.
#[derive(Clone, Copy, Debug, PartialEq, Eq, Structural)]
pub struct Allocation {
    pub equity: Cents,
    pub long_treasuries: Cents,
    pub cash: Cents,
    /// Liquidity sleeve inside the tier; reported, without a target.
    pub gold_etf: Cents,
    /// Tier-2 accounts of an unknown asset class, so that none vanishes.
    pub other: Cents,
    pub total: Cents,
}

/// One row of the drift table.
#[derive(Debug)]
pub struct DriftRow {
    pub asset_class: String,
    pub actual_cents: Cents,
    /// The tier's total, of which the row's share is taken.
    pub total_cents: Cents,
    /// Whether the row has a target and rebalance bands.
    pub targeted: bool,
    /// Whether a targeted row's share lies outside the bands.
    pub band_breach: bool,
}

impl Clone for DriftRow {
    fn clone(&self) -> (r: DriftRow)
        ensures
            r == *self,
    {
        DriftRow {
            asset_class: self.asset_class.clone(),
            actual_cents: self.actual_cents,
            total_cents: self.total_cents,
            targeted: self.targeted,
            band_breach: self.band_breach,
        }
    }
}

/// Tier-1 backbone summary. Info-only.
#[derive(Clone, Copy, Debug, PartialEq, Eq, Structural)]
pub struct Backbone {
    pub gold: Cents,
    pub silver: Cents,
    pub xmr: Cents,
    pub land: Cents,
    pub sfr: Cents,
    pub other: Cents,
    pub total: Cents,
}

impl core::default::Default for Allocation {
    fn default() -> (r: Allocation)
        ensures
            r == (Allocation {
                equity: Cents(0),
                long_treasuries: Cents(0),
                cash: Cents(0),
                gold_etf: Cents(0),
                other: Cents(0),
                total: Cents(0),
            }),
    {
        Allocation {
            equity: Cents(0),
            long_treasuries: Cents(0),
            cash: Cents(0),
            gold_etf: Cents(0),
            other: Cents(0),
            total: Cents(0),
        }
    }
}

impl core::default::Default for Backbone {
    fn default() -> (r: Backbone)
        ensures
            r == (Backbone {
                gold: Cents(0),
                silver: Cents(0),
                xmr: Cents(0),
                land: Cents(0),
                sfr: Cents(0),
                other: Cents(0),
                total: Cents(0),
            }),
    {
        Backbone {
            gold: Cents(0),
            silver: Cents(0),
            xmr: Cents(0),
            land: Cents(0),
            sfr: Cents(0),
            other: Cents(0),
            total: Cents(0),
        }
    }
}

/// Where an account's balance counts.
#[derive(Clone, Copy, Debug, PartialEq, Eq, Structural)]
pub enum Sleeve {
    Equity,
    LongTreasuries,
    Cash,
    GoldEtf,
    OtherT2,
    Gold,
    Silver,
    Xmr,
    Land,
    Sfr,
    OtherT1,
    Outside,
}

/// The sleeve that an account belongs to, by tier, currency and asset class.
pub open spec fn sleeve_of(a: Account) -> Sleeve {
    let class = opt_text(a.asset_class);
    if a.currency@ != "USD"@ {
        Sleeve::Outside
    } else if opt_text(a.tier) == Some("t2"@) {
        if class == Some("equity"@) || class == Some("stocks"@) {
            Sleeve::Equity
        } else if class == Some("long_treasuries"@) || class == Some("bonds"@) {
            Sleeve::LongTreasuries
        } else if class == Some("cash"@) {
            Sleeve::Cash
        } else if class == Some("gold_etf"@) {
            Sleeve::GoldEtf
        } else {
            Sleeve::OtherT2
        }
    } else if opt_text(a.tier) == Some("t1"@) {
        if class == Some("gold"@) {
            Sleeve::Gold
        } else if class == Some("silver"@) {
            Sleeve::Silver
        } else if class == Some("xmr"@) || class == Some("monero"@) {
            Sleeve::Xmr
        } else if class == Some("land"@) {
            Sleeve::Land
        } else if class == Some("sfr"@) || class == Some("real_estate"@) {
            Sleeve::Sfr
        } else {
            Sleeve::OtherT1
        }
    } else {
        Sleeve::Outside
    }
}

/// The first account with the given id.
pub open spec fn account_by_id(accounts: Seq<Account>, id: AccountId) -> Option<Account>
    decreases accounts.len(),
{
    if accounts.len() == 0 {
        None
    } else if accounts[0].id == Some(id) {
        Some(accounts[0])
    } else {
        account_by_id(accounts.skip(1), id)
    }
}

/// The sleeve that a balance counts toward.
pub open spec fn balance_sleeve(accounts: Seq<Account>, id: AccountId) -> Sleeve {
    match account_by_id(accounts, id) {
        Some(a) => sleeve_of(a),
        None => Sleeve::Outside,
    }
}

/// The saturating sum of the balances that count toward a sleeve.
pub open spec fn sleeve_total(
    balances: Seq<(AccountId, Cents)>,
    accounts: Seq<Account>,
    s: Sleeve,
) -> Cents
    decreases balances.len(),
{
    if balances.len() == 0 {
        Cents(0)
    } else {
        let rest = sleeve_total(balances.drop_last(), accounts, s);
        let (id, bal) = balances.last();
        if balance_sleeve(accounts, id) == s {
            Cents(clamp(rest.0 + bal.0))
        } else {
            rest
        }
    }
}

pub open spec fn sat_add(a: Cents, b: Cents) -> Cents {
    Cents(clamp(a.0 + b.0))
}

fn find_sleeve(accounts: &Vec<Account>, id: AccountId) -> (r: Sleeve)
    ensures
        r == balance_sleeve(accounts@, id),
{
    let mut i: usize = 0;
    assert(accounts@.skip(0) == accounts@);
    while i < accounts.len()
        invariant
            i <= accounts.len(),
            account_by_id(accounts@, id) == account_by_id(accounts@.skip(i as int), id),
        decreases accounts.len() - i,
    {
        assert(accounts@.skip(i as int)[0] == accounts@[i as int]);
        assert(accounts@.skip(i as int).skip(1) == accounts@.skip(i + 1));
        match accounts[i].id {
            Some(x) => {
                if x.0 == id.0 {
                    return account_sleeve(&accounts[i]);
                }
            },
            None => {},
        }
        i = i + 1;
    }
    Sleeve::Outside
}

fn account_sleeve(a: &Account) -> (r: Sleeve)
    ensures
        r == sleeve_of(*a),
{
    let class: Option<&str> = match &a.asset_class {
        Some(s) => Some(s.as_str()),
        None => None,
    };
    let tier: Option<&str> = match &a.tier {
        Some(s) => Some(s.as_str()),
        None => None,
    };
    if !str_eq(a.currency.as_str(), "USD") {
        Sleeve::Outside
    } else if opt_is(tier, "t2") {
        if opt_is(class, "equity") || opt_is(class, "stocks") {
            Sleeve::Equity
        } else if opt_is(class, "long_treasuries") || opt_is(class, "bonds") {
            Sleeve::LongTreasuries
        } else if opt_is(class, "cash") {
            Sleeve::Cash
        } else if opt_is(class, "gold_etf") {
            Sleeve::GoldEtf
        } else {
            Sleeve::OtherT2
        }
    } else if opt_is(tier, "t1") {
        if opt_is(class, "gold") {
            Sleeve::Gold
        } else if opt_is(class, "silver") {
            Sleeve::Silver
        } else if opt_is(class, "xmr") || opt_is(class, "monero") {
            Sleeve::Xmr
        } else if opt_is(class, "land") {
            Sleeve::Land
        } else if opt_is(class, "sfr") || opt_is(class, "real_estate") {
            Sleeve::Sfr
        } else {
            Sleeve::OtherT1
        }
    } else {
        Sleeve::Outside
    }
}

/// What an allocation says of the balances.
pub open spec fn is_allocation(
    r: Allocation,
    balances: Seq<(AccountId, Cents)>,
    accounts: Seq<Account>,
) -> bool {
    &&& r.equity == sleeve_total(balances, accounts, Sleeve::Equity)
    &&& r.long_treasuries == sleeve_total(balances, accounts, Sleeve::LongTreasuries)
    &&& r.cash == sleeve_total(balances, accounts, Sleeve::Cash)
    &&& r.gold_etf == sleeve_total(balances, accounts, Sleeve::GoldEtf)
    &&& r.other == sleeve_total(balances, accounts, Sleeve::OtherT2)
    &&& r.total == sat_add(
        sat_add(sat_add(sat_add(r.equity, r.long_treasuries), r.cash), r.gold_etf),
        r.other,
    )
}

/// What a backbone says of the balances.
pub open spec fn is_backbone(
    r: Backbone,
    balances: Seq<(AccountId, Cents)>,
    accounts: Seq<Account>,
) -> bool {
    &&& r.gold == sleeve_total(balances, accounts, Sleeve::Gold)
    &&& r.silver == sleeve_total(balances, accounts, Sleeve::Silver)
    &&& r.xmr == sleeve_total(balances, accounts, Sleeve::Xmr)
    &&& r.land == sleeve_total(balances, accounts, Sleeve::Land)
    &&& r.sfr == sleeve_total(balances, accounts, Sleeve::Sfr)
    &&& r.other == sleeve_total(balances, accounts, Sleeve::OtherT1)
    &&& r.total == sat_add(
        sat_add(sat_add(sat_add(sat_add(r.gold, r.silver), r.xmr), r.land), r.sfr),
        r.other,
    )
}

/// The tier-2 allocation: the latest balances of the active accounts, by sleeve.
pub fn allocation(balances: &Vec<(AccountId, Cents)>, accounts: &Vec<Account>) -> (r: Allocation)
    ensures
        r.equity == sleeve_total(balances@, accounts@, Sleeve::Equity),
        r.long_treasuries == sleeve_total(balances@, accounts@, Sleeve::LongTreasuries),
        r.cash == sleeve_total(balances@, accounts@, Sleeve::Cash),
        r.gold_etf == sleeve_total(balances@, accounts@, Sleeve::GoldEtf),
        r.other == sleeve_total(balances@, accounts@, Sleeve::OtherT2),
        r.total == sat_add(
            sat_add(sat_add(sat_add(r.equity, r.long_treasuries), r.cash), r.gold_etf),
            r.other,
        ),
        is_allocation(r, balances@, accounts@),
{
    let mut equity: Cents = Cents(0);
    let mut long_treasuries: Cents = Cents(0);
    let mut cash: Cents = Cents(0);
    let mut gold_etf: Cents = Cents(0);
    let mut other: Cents = Cents(0);
    let mut i: usize = 0;
    while i < balances.len()
        invariant
            i <= balances.len(),
            equity == sleeve_total(balances@.take(i as int), accounts@, Sleeve::Equity),
            long_treasuries == sleeve_total(
                balances@.take(i as int),
                accounts@,
                Sleeve::LongTreasuries,
            ),
            cash == sleeve_total(balances@.take(i as int), accounts@, Sleeve::Cash),
            gold_etf == sleeve_total(balances@.take(i as int), accounts@, Sleeve::GoldEtf),
            other == sleeve_total(balances@.take(i as int), accounts@, Sleeve::OtherT2),
        decreases balances.len() - i,
    {
        assert(balances@.take(i + 1).drop_last() == balances@.take(i as int));
        let bal: Cents = balances[i].1;
        match find_sleeve(accounts, balances[i].0) {
            Sleeve::Equity => equity = equity + bal,
            Sleeve::LongTreasuries => long_treasuries = long_treasuries + bal,
            Sleeve::Cash => cash = cash + bal,
            Sleeve::GoldEtf => gold_etf = gold_etf + bal,
            Sleeve::OtherT2 => other = other + bal,
            _ => {},
        }
        i = i + 1;
    }
    assert(balances@.take(balances@.len() as int) == balances@);
    Allocation {
        equity,
        long_treasuries,
        cash,
        gold_etf,
        other,
        total: equity + long_treasuries + cash + gold_etf + other,
    }
}

/// The tier-1 backbone: the latest balances of the active accounts, by class.
pub fn backbone(balances: &Vec<(AccountId, Cents)>, accounts: &Vec<Account>) -> (r: Backbone)
    ensures
        r.gold == sleeve_total(balances@, accounts@, Sleeve::Gold),
        r.silver == sleeve_total(balances@, accounts@, Sleeve::Silver),
        r.xmr == sleeve_total(balances@, accounts@, Sleeve::Xmr),
        r.land == sleeve_total(balances@, accounts@, Sleeve::Land),
        r.sfr == sleeve_total(balances@, accounts@, Sleeve::Sfr),
        r.other == sleeve_total(balances@, accounts@, Sleeve::OtherT1),
        r.total == sat_add(
            sat_add(sat_add(sat_add(sat_add(r.gold, r.silver), r.xmr), r.land), r.sfr),
            r.other,
        ),
        is_backbone(r, balances@, accounts@),
{
    let mut gold: Cents = Cents(0);
    let mut silver: Cents = Cents(0);
    let mut xmr: Cents = Cents(0);
    let mut land: Cents = Cents(0);
    let mut sfr: Cents = Cents(0);
    let mut other: Cents = Cents(0);
    let mut i: usize = 0;
    while i < balances.len()
        invariant
            i <= balances.len(),
            gold == sleeve_total(balances@.take(i as int), accounts@, Sleeve::Gold),
            silver == sleeve_total(balances@.take(i as int), accounts@, Sleeve::Silver),
            xmr == sleeve_total(balances@.take(i as int), accounts@, Sleeve::Xmr),
            land == sleeve_total(balances@.take(i as int), accounts@, Sleeve::Land),
            sfr == sleeve_total(balances@.take(i as int), accounts@, Sleeve::Sfr),
            other == sleeve_total(balances@.take(i as int), accounts@, Sleeve::OtherT1),
        decreases balances.len() - i,
    {
        assert(balances@.take(i + 1).drop_last() == balances@.take(i as int));
        let bal: Cents = balances[i].1;
        match find_sleeve(accounts, balances[i].0) {
            Sleeve::Gold => gold = gold + bal,
            Sleeve::Silver => silver = silver + bal,
            Sleeve::Xmr => xmr = xmr + bal,
            Sleeve::Land => land = land + bal,
            Sleeve::Sfr => sfr = sfr + bal,
            Sleeve::OtherT1 => other = other + bal,
            _ => {},
        }
        i = i + 1;
    }
    assert(balances@.take(balances@.len() as int) == balances@);
    Backbone { gold, silver, xmr, land, sfr, other, total: gold + silver + xmr + land + sfr + other }
}

/// Whether an amount's share of a positive total lies outside the bands.
pub open spec fn outside_bands(amount: Cents, total: Cents) -> bool {
    total.0 > 0 && !(T2_LOWER_BAND_PCT * total.0 <= 100 * amount.0 && 100 * amount.0
        <= T2_UPPER_BAND_PCT * total.0)
}

fn breaches(amount: Cents, total: Cents) -> (r: bool)
    ensures
        r == outside_bands(amount, total),
{
    let share: i128 = 100 * (amount.0 as i128);
    let whole: i128 = total.0 as i128;
    let lower: i128 = 22 * whole;
    let upper: i128 = 44 * whole;
    assert(lower == T2_LOWER_BAND_PCT * total.0 && upper == T2_UPPER_BAND_PCT * total.0);
    total.0 > 0 && !(lower <= share && share <= upper)
}

/// What a drift row says of an allocation.
pub open spec fn is_row(
    row: DriftRow,
    class: Seq<char>,
    amount: Cents,
    targeted: bool,
    total: Cents,
) -> bool {
    &&& row.asset_class@ == class
    &&& row.actual_cents == amount
    &&& row.total_cents == total
    &&& row.targeted == targeted
    &&& row.band_breach == (targeted && outside_bands(amount, total))
}

/// The drift table: the three targeted sleeves, then the gold and the other row where
/// they are not zero.
pub open spec fn is_drift(rows: Seq<DriftRow>, a: Allocation) -> bool {
    let gold: int = if a.gold_etf.0 != 0 {
        1
    } else {
        0
    };
    let other: int = if a.other.0 != 0 {
        1
    } else {
        0
    };
    &&& rows.len() == 3 + gold + other
    &&& is_row(rows[0], "equity"@, a.equity, true, a.total)
    &&& is_row(rows[1], "long_treasuries"@, a.long_treasuries, true, a.total)
    &&& is_row(rows[2], "cash"@, a.cash, true, a.total)
    &&& gold == 1 ==> is_row(rows[3], "gold_etf"@, a.gold_etf, false, a.total)
    &&& other == 1 ==> is_row(rows[3 + gold], "other"@, a.other, false, a.total)
}

fn targeted_row(class: &str, amount: Cents, total: Cents) -> (r: DriftRow)
    ensures
        is_row(r, class@, amount, true, total),
{
    DriftRow {
        asset_class: class.to_owned(),
        actual_cents: amount,
        total_cents: total,
        targeted: true,
        band_breach: breaches(amount, total),
    }
}

fn plain_row(class: &str, amount: Cents, total: Cents) -> (r: DriftRow)
    ensures
        is_row(r, class@, amount, false, total),
{
    DriftRow {
        asset_class: class.to_owned(),
        actual_cents: amount,
        total_cents: total,
        targeted: false,
        band_breach: false,
    }
}

/// The drift table of an allocation.
pub fn drift(a: &Allocation) -> (r: Vec<DriftRow>)
    ensures
        is_drift(r@, *a),
{
    let mut rows: Vec<DriftRow> = Vec::new();
    rows.push(targeted_row("equity", a.equity, a.total));
    rows.push(targeted_row("long_treasuries", a.long_treasuries, a.total));
    rows.push(targeted_row("cash", a.cash, a.total));
    if a.gold_etf.0 != 0 {
        rows.push(plain_row("gold_etf", a.gold_etf, a.total));
    }
    if a.other.0 != 0 {
        rows.push(plain_row("other", a.other, a.total));
    }
    rows
}

/// Whether any row of a drift table breaches a band.
pub open spec fn has_breach(rows: Seq<DriftRow>) -> bool {
    exists|i: int| 0 <= i < rows.len() && (#[trigger] rows[i]).band_breach
}

/// Whether any row breaches a band: what the alert fires on.
pub fn any_band_breach(rows: &[DriftRow]) -> (r: bool)
    ensures
        r == has_breach(rows@),
{
    let mut i: usize = 0;
    while i < rows.len()
        invariant
            i <= rows.len(),
            forall|j: int| 0 <= j < i ==> !(#[trigger] rows@[j]).band_breach,
        decreases rows.len() - i,
    {
        if rows[i].band_breach {
            return true;
        }
        i = i + 1;
    }
    false
}

/// A drift table breaches exactly where one of the three targeted sleeves lies outside
/// the bands; a total that is not positive never breaches.
pub proof fn law_breach_is_of_targeted_sleeves(rows: Seq<DriftRow>, a: Allocation)
    requires
        is_drift(rows, a),
    ensures
        has_breach(rows) == (outside_bands(a.equity, a.total) || outside_bands(
            a.long_treasuries,
            a.total,
        ) || outside_bands(a.cash, a.total)),
        a.total.0 <= 0 ==> !has_breach(rows),
{
    assert(rows[0].band_breach == outside_bands(a.equity, a.total));
    assert(rows[1].band_breach == outside_bands(a.long_treasuries, a.total));
    assert(rows[2].band_breach == outside_bands(a.cash, a.total));
}

/// The gold and the other row appear exactly where they are not zero, and never breach.
pub proof fn law_untargeted_rows(rows: Seq<DriftRow>, a: Allocation)
    requires
        is_drift(rows, a),
    ensures
        (exists|i: int| 0 <= i < rows.len() && (#[trigger] rows[i]).asset_class@ == "gold_etf"@) == (
        a.gold_etf.0 != 0),
        (exists|i: int| 0 <= i < rows.len() && (#[trigger] rows[i]).asset_class@ == "other"@) == (
        a.other.0 != 0),
        forall|i: int|
            0 <= i < rows.len() && ((#[trigger] rows[i]).asset_class@ == "gold_etf"@
                || rows[i].asset_class@ == "other"@) ==> !rows[i].band_breach,
{
    reveal_strlit("equity");
    reveal_strlit("long_treasuries");
    reveal_strlit("cash");
    reveal_strlit("gold_etf");
    reveal_strlit("other");
    assert("equity"@.len() == 6 && "long_treasuries"@.len() == 15 && "cash"@.len() == 4);
    assert("gold_etf"@.len() == 8 && "other"@.len() == 5);
    assert(rows[0].asset_class@.len() == 6);
    assert(rows[1].asset_class@.len() == 15);
    assert(rows[2].asset_class@.len() == 4);
    if a.gold_etf.0 != 0 {
        assert(rows[3].asset_class@ == "gold_etf"@);
    }
    if a.other.0 != 0 {
        let k: int = if a.gold_etf.0 != 0 {
            4
        } else {
            3
        };
        assert(rows[k].asset_class@ == "other"@);
    }
}

/// Whether a sleeve is of tier 2.
pub open spec fn is_tier_two(s: Sleeve) -> bool {
    s is Equity || s is LongTreasuries || s is Cash || s is GoldEtf || s is OtherT2
}

/// The balances that count toward tier 2.
pub open spec fn tier_two(balances: Seq<(AccountId, Cents)>, accounts: Seq<Account>) -> Seq<
    (AccountId, Cents),
> {
    kept(balances, |b: (AccountId, Cents)| is_tier_two(balance_sleeve(accounts, b.0)))
}

/// Only tier 2 drifts: the backbone, operating capital, what has no tier and what is not in
/// US dollars move no tier-2 sleeve, and so no band.
pub proof fn law_only_tier_two_drifts(
    balances: Seq<(AccountId, Cents)>,
    accounts: Seq<Account>,
    s: Sleeve,
)
    requires
        is_tier_two(s),
    ensures
        sleeve_total(balances, accounts, s) == sleeve_total(
            tier_two(balances, accounts),
            accounts,
            s,
        ),
    decreases balances.len(),
{
    if balances.len() > 0 {
        let rest = balances.drop_last();
        law_only_tier_two_drifts(rest, accounts, s);
        let t = tier_two(balances, accounts);
        if is_tier_two(balance_sleeve(accounts, balances.last().0)) {
            assert(t.drop_last() == tier_two(rest, accounts));
            assert(t.last() == balances.last());
        }
    }
}

} // verus!
