//! Fictional finances for screenshots and recordings. All names are made up. They are
//! meant for a fresh database.

use crate::db::{
    upsert_account, upsert_alert_rule_by_name, upsert_business, upsert_subscription,
    Account, AlertHistoryRow, AlertRule, BalanceSnapshot, Business,
    SubscriptionRecord, Transaction,
};
use crate::feed::{number_ids, upsert_transactions};
use crate::handler::Tables;
use crate::ids::{AccountId, BusinessId, TransactionId};
use crate::ledger::insert_snapshot;
use crate::money::Cents;
use crate::text::{dec_string, own_opt, starts_with, str_eq};
use vstd::prelude::*;

verus! {

use crate::db::{
    account_slot, accounts_after, all_have_accounts, business_slot, businesses_written,
    has_account, is_rule, is_same_account, law_accounts_stay, rule_is, rule_slot,
    subscriptions_after,
};
use crate::feed::{ids_from, law_known_are_taken, transactions_fed};
use crate::order::{lemma_first_index, lemma_first_index_is_first};
use crate::providers::all_stored;
use crate::recurring::div_toward_zero;
use crate::text::{begins_with, dec, opt_text, opt_view};

/// The seconds of a day.
pub const DAY: i64 = 86_400;

/// The time between two charges of a series: thirty days are a month to the detector.
pub const MONTH: i64 = 2_592_000;

/// Months of history.
pub const HISTORY_MONTHS: i64 = 6;

// ---------------------------------------------------------------------------
// Accounts
// ---------------------------------------------------------------------------

/// A demo account: entered by hand, so it has neither a provider nor an external id.
pub open spec fn is_row(
    a: Account,
    name: Seq<char>,
    kind: Seq<char>,
    asset_class: Option<Seq<char>>,
    tier: Option<Seq<char>>,
    currency: Seq<char>,
    business: Option<BusinessId>,
) -> bool {
    &&& a.id is None
    &&& a.name@ == name
    &&& a.kind@ == kind
    &&& opt_text(a.asset_class) == asset_class
    &&& opt_text(a.tier) == tier
    &&& a.currency@ == currency
    &&& a.provider_id is None
    &&& a.business_id == business
    &&& a.external_id is None
    &&& a.active
}

/// An account row of the demo; it has no provider and no external id.
pub fn account(
    name: &str,
    kind: &str,
    asset_class: Option<&str>,
    tier: Option<&str>,
    currency: &str,
    business: Option<BusinessId>,
) -> (r: Account)
    ensures
        is_row(r, name@, kind@, opt_view(asset_class), opt_view(tier), currency@, business),
{
    Account {
        id: None,
        name: name.to_owned(),
        kind: kind.to_owned(),
        asset_class: own_opt(asset_class),
        tier: own_opt(tier),
        currency: currency.to_owned(),
        provider_id: None,
        business_id: business,
        external_id: None,
        active: true,
    }
}

/// The demo accounts and their balances. The tier of the drift-tracked sleeves is skewed,
/// so that equity stands above its band; the backbone and the operating capital follow,
/// then everyday banking, the cash of the businesses, the debts, and a count of gigabytes
/// that is no money.
pub open spec fn is_demo_account(
    a: Account,
    cents: int,
    i: int,
    acme: BusinessId,
    globex: BusinessId,
) -> bool {
    if i == 0 {
        is_row(a, "Brokerage — VTI"@, "brokerage"@, Some("equity"@), Some("t2"@), "USD"@, None) && cents == 52_000_00
    } else if i == 1 {
        is_row(a, "Brokerage — TLT"@, "brokerage"@, Some("long_treasuries"@), Some("t2"@), "USD"@, None) && cents == 28_000_00
    } else if i == 2 {
        is_row(a, "TreasuryDirect + SGOV"@, "asset"@, Some("cash"@), Some("t2"@), "USD"@, None) && cents == 32_000_00
    } else if i == 3 {
        is_row(a, "Gold (10 oz, vault)"@, "asset"@, Some("gold"@), Some("t1"@), "USD"@, None) && cents == 26_500_00
    } else if i == 4 {
        is_row(a, "Silver (200 oz)"@, "asset"@, Some("silver"@), Some("t1"@), "USD"@, None) && cents == 6_000_00
    } else if i == 5 {
        is_row(a, "Land parcel"@, "asset"@, Some("land"@), Some("t1"@), "USD"@, None) && cents == 85_000_00
    } else if i == 6 {
        is_row(a, "Monero (cold wallet)"@, "asset"@, Some("monero"@), Some("t1"@), "USD"@, None) && cents == 9_000_00
    } else if i == 7 {
        is_row(a, "Emergency fund (SGOV)"@, "asset"@, Some("cash"@), Some("t3"@), "USD"@, None) && cents == 42_000_00
    } else if i == 8 {
        is_row(a, "SaaS working capital"@, "asset"@, Some("cash"@), Some("t3"@), "USD"@, None) && cents == 25_000_00
    } else if i == 9 {
        is_row(a, "Checking"@, "asset"@, None, None, "USD"@, None) && cents == 11_800_00
    } else if i == 10 {
        is_row(a, "Savings"@, "asset"@, None, None, "USD"@, None) && cents == 26_500_00
    } else if i == 11 {
        is_row(a, "Acme — Mercury checking"@, "asset"@, None, None, "USD"@, Some(acme)) && cents == 19_400_00
    } else if i == 12 {
        is_row(a, "Globex — Mercury checking"@, "asset"@, None, None, "USD"@, Some(globex)) && cents == 7_250_00
    } else if i == 13 {
        is_row(a, "Visa card"@, "debt"@, None, None, "USD"@, None) && cents == 2_350_00
    } else if i == 14 {
        is_row(a, "Auto loan"@, "debt"@, None, None, "USD"@, None) && cents == 13_900_00
    } else {
        is_row(a, "Vultr — globex (egress GB)"@, "subscription"@, None, None, "GB"@, Some(globex)) && cents == 318
    }
}

/// The number of demo accounts.
pub const ACCOUNTS: usize = 16;

/// Whether some rows are the demo accounts with their balances.
pub open spec fn are_demo_accounts(
    rows: Seq<(Account, i64)>,
    acme: BusinessId,
    globex: BusinessId,
) -> bool {
    &&& rows.len() == ACCOUNTS
    &&& forall|i: int|
        0 <= i < ACCOUNTS ==> is_demo_pair(#[trigger] rows[i], i, acme, globex)
}

pub open spec fn is_demo_pair(row: (Account, i64), i: int, acme: BusinessId, globex: BusinessId) -> bool {
    is_demo_account(row.0, row.1 as int, i, acme, globex)
}

/// The demo accounts with their balances.
pub fn demo_accounts(acme: BusinessId, globex: BusinessId) -> (r: Vec<(Account, i64)>)
    ensures
        are_demo_accounts(r@, acme, globex),
{
    let mut rows: Vec<(Account, i64)> = Vec::new();
    let a0: Account = account("Brokerage — VTI", "brokerage", Some("equity"), Some("t2"), "USD", None);
    rows.push((a0, 52_000_00));
    let a1: Account = account("Brokerage — TLT", "brokerage", Some("long_treasuries"), Some("t2"), "USD", None);
    rows.push((a1, 28_000_00));
    let a2: Account = account("TreasuryDirect + SGOV", "asset", Some("cash"), Some("t2"), "USD", None);
    rows.push((a2, 32_000_00));
    let a3: Account = account("Gold (10 oz, vault)", "asset", Some("gold"), Some("t1"), "USD", None);
    rows.push((a3, 26_500_00));
    let a4: Account = account("Silver (200 oz)", "asset", Some("silver"), Some("t1"), "USD", None);
    rows.push((a4, 6_000_00));
    let a5: Account = account("Land parcel", "asset", Some("land"), Some("t1"), "USD", None);
    rows.push((a5, 85_000_00));
    let a6: Account = account("Monero (cold wallet)", "asset", Some("monero"), Some("t1"), "USD", None);
    rows.push((a6, 9_000_00));
    let a7: Account = account("Emergency fund (SGOV)", "asset", Some("cash"), Some("t3"), "USD", None);
    rows.push((a7, 42_000_00));
    let a8: Account = account("SaaS working capital", "asset", Some("cash"), Some("t3"), "USD", None);
    rows.push((a8, 25_000_00));
    let a9: Account = account("Checking", "asset", None, None, "USD", None);
    rows.push((a9, 11_800_00));
    let a10: Account = account("Savings", "asset", None, None, "USD", None);
    rows.push((a10, 26_500_00));
    let a11: Account = account("Acme — Mercury checking", "asset", None, None, "USD", Some(acme));
    rows.push((a11, 19_400_00));
    let a12: Account = account("Globex — Mercury checking", "asset", None, None, "USD", Some(globex));
    rows.push((a12, 7_250_00));
    let a13: Account = account("Visa card", "debt", None, None, "USD", None);
    rows.push((a13, 2_350_00));
    let a14: Account = account("Auto loan", "debt", None, None, "USD", None);
    rows.push((a14, 13_900_00));
    let a15: Account = account("Vultr — globex (egress GB)", "subscription", None, None, "GB", Some(globex));
    rows.push((a15, 318));
    rows
}

/// The accounts after the demo accounts are written one by one.
pub open spec fn accounts_fed(rows: Seq<Account>, list: Seq<(Account, i64)>, fresh: int) -> Seq<
    Account,
>
    decreases list.len(),
{
    if list.len() == 0 {
        rows
    } else {
        accounts_after(
            accounts_fed(rows, list.drop_last(), fresh),
            list.last().0,
            AccountId((fresh + list.len() - 1) as i64),
        )
    }
}

/// A balance that is going to be recorded: the account, the amount, and whether it is an
/// amount of dollars.
#[derive(Clone, Copy, Debug, PartialEq, Eq, Structural)]
pub struct DemoBalance {
    pub account_id: AccountId,
    pub cents: i64,
    pub dollars: bool,
}

/// The demo accounts as they are stored: those that the transactions are posted to, and all
/// balances.
#[derive(Debug)]
pub struct Seeded {
    pub checking: AccountId,
    pub acme_cash: AccountId,
    pub globex_cash: AccountId,
    pub balances: Vec<DemoBalance>,
}

/// The balance of the last of the written accounts.
pub open spec fn is_balance_of(
    b: DemoBalance,
    rows: Seq<Account>,
    list: Seq<(Account, i64)>,
    fresh: int,
) -> bool {
    let before = accounts_fed(rows, list.drop_last(), fresh);
    let after = accounts_fed(rows, list, fresh);
    let (a, cents) = list.last();
    &&& after[account_slot(before, a)].id == Some(b.account_id)
    &&& b.cents == cents
    &&& b.dollars == (a.currency@ == "USD"@)
}

/// The balances are those of the written accounts, in their order.
pub open spec fn are_balances_of(
    balances: Seq<DemoBalance>,
    rows: Seq<Account>,
    list: Seq<(Account, i64)>,
    fresh: int,
) -> bool {
    &&& balances.len() == list.len()
    &&& forall|i: int|
        0 <= i < list.len() ==> is_balance_of(#[trigger] balances[i], rows, list.take(i + 1), fresh)
}

/// Whether the accounts of some balances exist.
pub open spec fn all_known(accounts: Seq<Account>, balances: Seq<DemoBalance>) -> bool {
    forall|i: int|
        0 <= i < balances.len() ==> has_account(accounts, (#[trigger] balances[i]).account_id)
}

fn write_accounts(
    accounts: &mut Vec<Account>,
    list: &Vec<(Account, i64)>,
    fresh: i64,
) -> (r: Vec<DemoBalance>)
    requires
        all_stored(old(accounts)@),
        0 <= fresh,
        fresh + list@.len() <= i64::MAX,
    ensures
        final(accounts)@ == accounts_fed(old(accounts)@, list@, fresh as int),
        all_stored(final(accounts)@),
        are_balances_of(r@, old(accounts)@, list@, fresh as int),
        all_known(final(accounts)@, r@),
{
    let ghost before = accounts@;
    let mut balances: Vec<DemoBalance> = Vec::new();
    let mut i: usize = 0;
    assert(list@.take(0) =~= Seq::<(Account, i64)>::empty());
    while i < list.len()
        invariant
            i <= list.len(),
            0 <= fresh,
            fresh + list@.len() <= i64::MAX,
            accounts@ == accounts_fed(before, list@.take(i as int), fresh as int),
            all_stored(accounts@),
            balances@.len() == i,
            forall|j: int|
                0 <= j < i ==> is_balance_of(
                    #[trigger] balances@[j],
                    before,
                    list@.take(j + 1),
                    fresh as int,
                ),
            all_known(accounts@, balances@),
        decreases list.len() - i,
    {
        let ghost now_rows = accounts@;
        let ghost row = list@[i as int].0;
        assert(list@.take(i + 1).drop_last() =~= list@.take(i as int));
        assert(list@.take(i + 1).last() == list@[i as int]);
        proof {
            lemma_first_index_is_first(now_rows, |r: Account| is_same_account(r, row));
            law_accounts_stay(now_rows, row, AccountId((fresh + i) as i64));
        }
        let a: &Account = &list[i].0;
        let id: Option<AccountId> = upsert_account(accounts, a, AccountId(fresh + i as i64));
        let dollars: bool = str_eq(a.currency.as_str(), "USD");
        let entry: DemoBalance = DemoBalance { account_id: id.unwrap(), cents: list[i].1, dollars };
        assert(is_balance_of(entry, before, list@.take(i + 1), fresh as int));
        balances.push(entry);
        i = i + 1;
    }
    assert(list@.take(i as int) =~= list@);
    assert forall|j: int| 0 <= j < list@.len() implies is_balance_of(
        #[trigger] balances@[j],
        before,
        list@.take(j + 1),
        fresh as int,
    ) by {}
    balances
}

/// Whether the demo accounts have been written, and the balances are theirs.
pub open spec fn accounts_seeded(
    after: Seq<Account>,
    before: Seq<Account>,
    seeded: Seeded,
    list: Seq<(Account, i64)>,
    acme: BusinessId,
    globex: BusinessId,
    fresh: int,
) -> bool {
    &&& are_demo_accounts(list, acme, globex)
    &&& after == accounts_fed(before, list, fresh)
    &&& are_balances_of(seeded.balances@, before, list, fresh)
    &&& seeded.checking == seeded.balances@[9].account_id
    &&& seeded.acme_cash == seeded.balances@[11].account_id
    &&& seeded.globex_cash == seeded.balances@[12].account_id
}

/// Writes the demo accounts.
pub fn seed_accounts(
    accounts: &mut Vec<Account>,
    acme: BusinessId,
    globex: BusinessId,
    fresh: i64,
) -> (r: Seeded)
    requires
        all_stored(old(accounts)@),
        0 <= fresh <= i64::MAX - ACCOUNTS,
    ensures
        all_stored(final(accounts)@),
        exists|list: Seq<(Account, i64)>| #[trigger]
            accounts_seeded(
                final(accounts)@,
                old(accounts)@,
                r,
                list,
                acme,
                globex,
                fresh as int,
            ),
        forall|i: int| 0 <= i < r.balances@.len() ==> (#[trigger] r.balances@[i]).cents >= 0,
        r.balances@.len() == ACCOUNTS,
        all_known(final(accounts)@, r.balances@),
{
    let list: Vec<(Account, i64)> = demo_accounts(acme, globex);
    let balances: Vec<DemoBalance> = write_accounts(accounts, &list, fresh);
    let seeded: Seeded = Seeded {
        checking: balances[9].account_id,
        acme_cash: balances[11].account_id,
        globex_cash: balances[12].account_id,
        balances,
    };
    assert(accounts_seeded(
        accounts@,
        old(accounts)@,
        seeded,
        list@,
        acme,
        globex,
        fresh as int,
    ));
    assert forall|i: int| 0 <= i < seeded.balances@.len() implies (
    #[trigger] seeded.balances@[i]).cents >= 0 by {
        assert(is_demo_pair(list@[i], i, acme, globex));
        assert(is_balance_of(seeded.balances@[i], old(accounts)@, list@.take(i + 1), fresh as int));
        assert(list@.take(i + 1).last() == list@[i]);
    }
    seeded
}

// ---------------------------------------------------------------------------
// Balances
// ---------------------------------------------------------------------------

/// A balance some months ago: four percent less for each month.
pub open spec fn scaled_back(cents: int, m: int) -> int {
    let raw = cents * (100 - 4 * m);
    let capped = if raw > i64::MAX {
        i64::MAX as int
    } else if raw < i64::MIN {
        i64::MIN as int
    } else {
        raw
    };
    div_toward_zero(capped, 100)
}

/// A balance reading.
pub open spec fn reading(b: DemoBalance, taken_at: int, cents: int) -> (AccountId, i64, Cents) {
    (b.account_id, taken_at as i64, Cents(cents as i64))
}

/// The readings of today.
pub open spec fn todays(balances: Seq<DemoBalance>, now: int) -> Seq<(AccountId, i64, Cents)> {
    balances.map_values(|b: DemoBalance| reading(b, now, b.cents as int))
}

/// The readings of the months before, of one account. Only dollars have a past, for the
/// trend adds up dollars.
pub open spec fn past_of(b: DemoBalance, now: int) -> Seq<(AccountId, i64, Cents)> {
    if b.dollars {
        Seq::new(
            HISTORY_MONTHS as nat,
            |k: int| reading(b, now - (k + 1) * MONTH, scaled_back(b.cents as int, k + 1)),
        )
    } else {
        Seq::empty()
    }
}

/// The readings of the months before, account by account.
pub open spec fn past(balances: Seq<DemoBalance>, now: int) -> Seq<(AccountId, i64, Cents)>
    decreases balances.len(),
{
    if balances.len() == 0 {
        Seq::empty()
    } else {
        past(balances.drop_last(), now) + past_of(balances.last(), now)
    }
}

fn scale_back(cents: i64, m: i64) -> (r: i64)
    requires
        cents >= 0,
        1 <= m <= HISTORY_MONTHS,
    ensures
        r == scaled_back(cents as int, m as int),
{
    let pct: i64 = 100 - 4 * m;
    let limit: i64 = i64::MAX / pct;
    if cents > limit {
        assert(cents * pct > i64::MAX) by (nonlinear_arith)
            requires
                cents > limit,
                limit == i64::MAX / pct,
                76 <= pct <= 96,
        ;
        i64::MAX / 100
    } else {
        assert(0 <= cents * pct <= i64::MAX) by (nonlinear_arith)
            requires
                0 <= cents <= limit,
                limit == i64::MAX / pct,
                76 <= pct <= 96,
        ;
        cents * pct / 100
    }
}

/// The balance readings: today's, and a past that makes net worth rise evenly.
pub fn demo_readings(balances: &Vec<DemoBalance>, now: i64) -> (r: Vec<(AccountId, i64, Cents)>)
    requires
        i64::MIN + HISTORY_MONTHS * MONTH <= now,
        forall|i: int| 0 <= i < balances@.len() ==> (#[trigger] balances@[i]).cents >= 0,
    ensures
        r@ == todays(balances@, now as int) + past(balances@, now as int),
{
    let mut out: Vec<(AccountId, i64, Cents)> = Vec::new();
    let mut i: usize = 0;
    assert(balances@.take(0) =~= Seq::<DemoBalance>::empty());
    while i < balances.len()
        invariant
            i <= balances.len(),
            out@ == todays(balances@.take(i as int), now as int),
        decreases balances.len() - i,
    {
        let b: DemoBalance = balances[i];
        out.push((b.account_id, now, Cents(b.cents)));
        assert(out@ =~= todays(balances@.take(i + 1), now as int));
        i = i + 1;
    }
    assert(balances@.take(i as int) =~= balances@);
    let ghost first = out@;
    i = 0;
    assert(out@ =~= first + past(balances@.take(0), now as int));
    while i < balances.len()
        invariant
            i <= balances.len(),
            i64::MIN + HISTORY_MONTHS * MONTH <= now,
            forall|k: int| 0 <= k < balances@.len() ==> (#[trigger] balances@[k]).cents >= 0,
            out@ == first + past(balances@.take(i as int), now as int),
        decreases balances.len() - i,
    {
        let b: DemoBalance = balances[i];
        assert(balances@.take(i + 1).drop_last() =~= balances@.take(i as int));
        assert(balances@.take(i + 1).last() == b);
        let ghost before = out@;
        if b.dollars {
            let mut m: i64 = 1;
            assert(out@ =~= before + past_of(b, now as int).take(0));
            while m <= HISTORY_MONTHS
                invariant
                    1 <= m <= HISTORY_MONTHS + 1,
                    b.dollars,
                    b.cents >= 0,
                    i64::MIN + HISTORY_MONTHS * MONTH <= now,
                    out@ == before + past_of(b, now as int).take(m - 1),
                decreases HISTORY_MONTHS + 1 - m,
            {
                let ghost so_far = out@;
                let taken_at: i64 = now - m * MONTH;
                out.push((b.account_id, taken_at, Cents(scale_back(b.cents, m))));
                assert(past_of(b, now as int)[m - 1] == (
                    b.account_id,
                    taken_at,
                    Cents(scaled_back(b.cents as int, m as int) as i64),
                ));
                assert(past_of(b, now as int).take(m as int) =~= past_of(b, now as int).take(
                    m - 1,
                ).push(past_of(b, now as int)[m - 1]));
                assert(out@ =~= before + past_of(b, now as int).take(m as int));
                m = m + 1;
            }
            assert(past_of(b, now as int).take(m - 1) =~= past_of(b, now as int));
        } else {
            assert(past_of(b, now as int) =~= Seq::empty());
        }
        assert(out@ =~= first + past(balances@.take(i + 1), now as int));
        i = i + 1;
    }
    assert(balances@.take(i as int) =~= balances@);
    out
}

/// The spot prices, in cents.
pub fn demo_prices() -> (r: Vec<(String, Cents)>)
    ensures
        r@.len() == 2,
        is_price_of(r@[0], "XAU"@, 2_650_00),
        is_price_of(r@[1], "XMR"@, 162_00),
{
    let mut out: Vec<(String, Cents)> = Vec::new();
    out.push(("XAU".to_owned(), Cents(2_650_00)));
    out.push(("XMR".to_owned(), Cents(162_00)));
    out
}

pub open spec fn is_price_of(p: (String, Cents), commodity: Seq<char>, cents: i64) -> bool {
    p.0@ == commodity && p.1 == Cents(cents)
}

// ---------------------------------------------------------------------------
// Transactions
// ---------------------------------------------------------------------------

/// The spending category of a payee.
pub open spec fn category_of(payee: Seq<char>) -> Seq<char> {
    if payee == "RENT"@ {
        "housing"@
    } else if payee == "NETFLIX"@ || payee == "SPOTIFY USA"@ || payee == "ADOBE CREATIVE CLOUD"@ {
        "subscriptions"@
    } else if payee == "AWS"@ || payee == "OPENAI API"@ || payee == "GITHUB"@ {
        "software"@
    } else if payee == "WHOLE FOODS"@ {
        "groceries"@
    } else if payee == "SHELL"@ {
        "fuel"@
    } else if payee == "LOCAL CAFE"@ {
        "dining"@
    } else if payee == "DELTA AIR LINES"@ {
        "travel"@
    } else if begins_with(payee, "STRIPE PAYOUT"@) {
        "revenue"@
    } else {
        "other"@
    }
}

/// The spend category of a demo payee.
pub fn category_for(payee: &str) -> (r: &'static str)
    ensures
        r@ == category_of(payee@),
{
    if str_eq(payee, "RENT") {
        "housing"
    } else if str_eq(payee, "NETFLIX") || str_eq(payee, "SPOTIFY USA") || str_eq(
        payee,
        "ADOBE CREATIVE CLOUD",
    ) {
        "subscriptions"
    } else if str_eq(payee, "AWS") || str_eq(payee, "OPENAI API") || str_eq(payee, "GITHUB") {
        "software"
    } else if str_eq(payee, "WHOLE FOODS") {
        "groceries"
    } else if str_eq(payee, "SHELL") {
        "fuel"
    } else if str_eq(payee, "LOCAL CAFE") {
        "dining"
    } else if str_eq(payee, "DELTA AIR LINES") {
        "travel"
    } else if starts_with(payee, "STRIPE PAYOUT") {
        "revenue"
    } else {
        "other"
    }
}

/// A demo transaction.
pub open spec fn is_posting(
    t: Transaction,
    account: AccountId,
    business: Option<BusinessId>,
    payee: Seq<char>,
    cents: int,
    posted_at: int,
    external: Seq<char>,
) -> bool {
    &&& t.id is None
    &&& t.account_id == account
    &&& t.posted_at == posted_at
    &&& t.amount_cents.0 == cents
    &&& t.currency@ == "USD"@
    &&& opt_text(t.description) == Some(payee)
    &&& opt_text(t.category) == Some(category_of(payee))
    &&& opt_text(t.tag) == Some(
        if cents >= 0 {
            "income"@
        } else {
            "expense"@
        },
    )
    &&& t.business_id == business
    &&& opt_text(t.external_id) == Some(external)
    &&& t.source@ == "demo"@
}

fn posting(
    account: AccountId,
    business: Option<BusinessId>,
    payee: &str,
    cents: i64,
    posted_at: i64,
    external: String,
) -> (r: Transaction)
    ensures
        is_posting(r, account, business, payee@, cents as int, posted_at as int, external@),
{
    let tag: String = if cents >= 0 {
        "income".to_owned()
    } else {
        "expense".to_owned()
    };
    Transaction {
        id: None,
        account_id: account,
        posted_at,
        amount_cents: Cents(cents),
        currency: "USD".to_owned(),
        description: Some(payee.to_owned()),
        category: Some(category_for(payee).to_owned()),
        tag: Some(tag),
        business_id: business,
        external_id: Some(external),
        source: "demo".to_owned(),
    }
}

/// One of the transactions of a monthly series, `i` months ago.
pub open spec fn is_monthly(
    t: Transaction,
    account: AccountId,
    business: Option<BusinessId>,
    payee: Seq<char>,
    cents: int,
    now: int,
    i: int,
) -> bool {
    is_posting(
        t,
        account,
        business,
        payee,
        cents,
        now - i * MONTH,
        "demo-"@ + payee + "-"@ + dec(i as nat),
    )
}

/// A monthly series from a position on: the first is of now, and each further one is a
/// month older.
pub open spec fn series_at(
    s: Seq<Transaction>,
    start: int,
    account: AccountId,
    business: Option<BusinessId>,
    payee: Seq<char>,
    cents: int,
    now: int,
) -> bool {
    forall|j: int|
        start <= j < start + HISTORY_MONTHS ==> is_monthly(
            #[trigger] s[j],
            account,
            business,
            payee,
            cents,
            now,
            j - start,
        )
}

/// Adds a monthly series.
fn monthly(
    out: &mut Vec<Transaction>,
    account: AccountId,
    business: Option<BusinessId>,
    payee: &str,
    cents: i64,
    now: i64,
)
    requires
        i64::MIN + HISTORY_MONTHS * MONTH <= now,
    ensures
        final(out)@.len() == old(out)@.len() + HISTORY_MONTHS,
        forall|j: int| 0 <= j < old(out)@.len() ==> #[trigger] final(out)@[j] == old(out)@[j],
        series_at(
            final(out)@,
            old(out)@.len() as int,
            account,
            business,
            payee@,
            cents as int,
            now as int,
        ),
{
    let ghost before = out@;
    let mut i: i64 = 0;
    while i < HISTORY_MONTHS
        invariant
            0 <= i <= HISTORY_MONTHS,
            i64::MIN + HISTORY_MONTHS * MONTH <= now,
            out@.len() == before.len() + i,
            forall|j: int| 0 <= j < before.len() ==> #[trigger] out@[j] == before[j],
            forall|j: int|
                before.len() <= j < out@.len() ==> is_monthly(
                    #[trigger] out@[j],
                    account,
                    business,
                    payee@,
                    cents as int,
                    now as int,
                    j - before.len(),
                ),
        decreases HISTORY_MONTHS - i,
    {
        let external: String = "demo-".to_owned().concat(payee).concat("-").concat(
            dec_string(i as u64).as_str(),
        );
        out.push(posting(account, business, payee, cents, now - i * MONTH, external));
        i = i + 1;
    }
}

/// A transaction that stands alone, some days ago.
pub open spec fn is_oneoff(
    t: Transaction,
    account: AccountId,
    payee: Seq<char>,
    cents: int,
    now: int,
    days_ago: int,
) -> bool {
    is_posting(t, account, None, payee, cents, now - days_ago * DAY, "demo-oneoff-"@ + payee)
}

/// The demo transactions: four personal bills, three costs of the businesses, two incomes,
/// and a few that stand alone.
pub open spec fn are_demo_transactions(
    s: Seq<Transaction>,
    seeded: Seeded,
    acme: BusinessId,
    globex: BusinessId,
    now: int,
) -> bool {
    let (checking, a, g) = (seeded.checking, seeded.acme_cash, seeded.globex_cash);
    &&& s.len() == 58
    &&& series_at(s, 0, checking, None, "NETFLIX"@, -15_99, now)
    &&& series_at(s, 6, checking, None, "SPOTIFY USA"@, -11_99, now)
    &&& series_at(s, 12, checking, None, "ADOBE CREATIVE CLOUD"@, -54_99, now)
    &&& series_at(s, 18, checking, None, "RENT"@, -2_000_00, now)
    &&& series_at(s, 24, a, Some(acme), "AWS"@, -340_00, now)
    &&& series_at(s, 30, a, Some(acme), "OPENAI API"@, -120_00, now)
    &&& series_at(s, 36, g, Some(globex), "GITHUB"@, -21_00, now)
    &&& series_at(s, 42, a, Some(acme), "STRIPE PAYOUT ACME"@, 8_500_00, now)
    &&& series_at(s, 48, g, Some(globex), "STRIPE PAYOUT GLOBEX"@, 3_200_00, now)
    &&& is_oneoff(s[54], checking, "WHOLE FOODS"@, -86_40, now, 3)
    &&& is_oneoff(s[55], checking, "SHELL"@, -44_10, now, 12)
    &&& is_oneoff(s[56], checking, "LOCAL CAFE"@, -58_20, now, 21)
    &&& is_oneoff(s[57], checking, "DELTA AIR LINES"@, -1_240_00, now, 40)
}

fn oneoff(account: AccountId, payee: &str, cents: i64, now: i64, days_ago: i64) -> (r: Transaction)
    requires
        0 <= days_ago <= 40,
        i64::MIN + HISTORY_MONTHS * MONTH <= now,
    ensures
        is_oneoff(r, account, payee@, cents as int, now as int, days_ago as int),
{
    posting(
        account,
        None,
        payee,
        cents,
        now - days_ago * DAY,
        "demo-oneoff-".to_owned().concat(payee),
    )
}

/// The demo transactions.
pub fn demo_transactions(seeded: &Seeded, acme: BusinessId, globex: BusinessId, now: i64) -> (r: Vec<
    Transaction,
>)
    requires
        i64::MIN + HISTORY_MONTHS * MONTH <= now,
    ensures
        are_demo_transactions(r@, *seeded, acme, globex, now as int),
{
    let mut out: Vec<Transaction> = Vec::new();
    let checking: AccountId = seeded.checking;
    let acme_cash: AccountId = seeded.acme_cash;
    let globex_cash: AccountId = seeded.globex_cash;
    monthly(&mut out, checking, None, "NETFLIX", -15_99, now);
    monthly(&mut out, checking, None, "SPOTIFY USA", -11_99, now);
    monthly(&mut out, checking, None, "ADOBE CREATIVE CLOUD", -54_99, now);
    monthly(&mut out, checking, None, "RENT", -2_000_00, now);
    monthly(&mut out, acme_cash, Some(acme), "AWS", -340_00, now);
    monthly(&mut out, acme_cash, Some(acme), "OPENAI API", -120_00, now);
    monthly(&mut out, globex_cash, Some(globex), "GITHUB", -21_00, now);
    monthly(&mut out, acme_cash, Some(acme), "STRIPE PAYOUT ACME", 8_500_00, now);
    monthly(&mut out, globex_cash, Some(globex), "STRIPE PAYOUT GLOBEX", 3_200_00, now);
    out.push(oneoff(checking, "WHOLE FOODS", -86_40, now, 3));
    out.push(oneoff(checking, "SHELL", -44_10, now, 12));
    out.push(oneoff(checking, "LOCAL CAFE", -58_20, now, 21));
    out.push(oneoff(checking, "DELTA AIR LINES", -1_240_00, now, 40));
    out
}

// ---------------------------------------------------------------------------
// Subscriptions
// ---------------------------------------------------------------------------

/// A declared obligation.
pub open spec fn is_obligation(
    s: SubscriptionRecord,
    id: int,
    name: Seq<char>,
    cents: int,
    cadence: Seq<char>,
    next: int,
    business: Option<BusinessId>,
) -> bool {
    &&& s.id == id
    &&& s.name@ == name
    &&& s.provider_kind@ == "recurring"@
    &&& s.amount_cents == Some(Cents(cents as i64))
    &&& opt_text(s.cadence) == Some(cadence)
    &&& s.next_charge_at is Some && s.next_charge_at->0 == next
    &&& s.account_id is None
    &&& s.business_id == business
    &&& s.active
}

fn obligation(
    id: i64,
    name: &str,
    cents: i64,
    cadence: &str,
    next: i64,
    business: Option<BusinessId>,
) -> (r: SubscriptionRecord)
    ensures
        is_obligation(r, id as int, name@, cents as int, cadence@, next as int, business),
{
    SubscriptionRecord {
        id,
        name: name.to_owned(),
        provider_kind: "recurring".to_owned(),
        amount_cents: Some(Cents(cents)),
        cadence: Some(cadence.to_owned()),
        next_charge_at: Some(next),
        account_id: None,
        business_id: business,
        active: true,
    }
}

/// The demo obligations, next due in twelve days; the yearly one in ninety.
pub open spec fn are_demo_subscriptions(
    s: Seq<SubscriptionRecord>,
    acme: BusinessId,
    now: int,
    fresh: int,
) -> bool {
    let next = now + 12 * DAY;
    &&& s.len() == 4
    &&& is_obligation(s[0], fresh, "Rent"@, -2_000_00, "monthly"@, next, None)
    &&& is_obligation(s[1], fresh + 1, "Health insurance"@, -420_00, "monthly"@, next, None)
    &&& is_obligation(s[2], fresh + 2, "SuperGrok"@, -30_00, "monthly"@, next, None)
    &&& is_obligation(
        s[3],
        fresh + 3,
        "Domain renewal (acme.dev)"@,
        -40_00,
        "yearly"@,
        now + 90 * DAY,
        Some(acme),
    )
}

/// The demo obligations.
pub fn demo_subscriptions(acme: BusinessId, now: i64, fresh: i64) -> (r: Vec<SubscriptionRecord>)
    requires
        now <= i64::MAX - 90 * DAY,
        0 <= fresh <= i64::MAX - 3,
    ensures
        are_demo_subscriptions(r@, acme, now as int, fresh as int),
{
    let next: i64 = now + 12 * DAY;
    let mut out: Vec<SubscriptionRecord> = Vec::new();
    out.push(obligation(fresh, "Rent", -2_000_00, "monthly", next, None));
    out.push(obligation(fresh + 1, "Health insurance", -420_00, "monthly", next, None));
    out.push(obligation(fresh + 2, "SuperGrok", -30_00, "monthly", next, None));
    out.push(
        obligation(
            fresh + 3,
            "Domain renewal (acme.dev)",
            -40_00,
            "yearly",
            now + 90 * DAY,
            Some(acme),
        ),
    );
    out
}

/// The obligations after some are written one by one.
pub open spec fn subscriptions_fed(
    rows: Seq<SubscriptionRecord>,
    list: Seq<SubscriptionRecord>,
) -> Seq<SubscriptionRecord>
    decreases list.len(),
{
    if list.len() == 0 {
        rows
    } else {
        subscriptions_after(subscriptions_fed(rows, list.drop_last()), list.last())
    }
}

fn write_subscriptions(rows: &mut Vec<SubscriptionRecord>, list: &Vec<SubscriptionRecord>)
    ensures
        final(rows)@ == subscriptions_fed(old(rows)@, list@),
{
    let ghost before = rows@;
    let mut i: usize = 0;
    assert(list@.take(0) =~= Seq::<SubscriptionRecord>::empty());
    while i < list.len()
        invariant
            i <= list.len(),
            rows@ == subscriptions_fed(before, list@.take(i as int)),
        decreases list.len() - i,
    {
        assert(list@.take(i + 1).drop_last() =~= list@.take(i as int));
        assert(list@.take(i + 1).last() == list@[i as int]);
        upsert_subscription(rows, &list[i]);
        i = i + 1;
    }
    assert(list@.take(i as int) =~= list@);
}

// ---------------------------------------------------------------------------
// Alerts
// ---------------------------------------------------------------------------

/// A demo rule: its name and what it watches.
pub open spec fn is_demo_rule(p: (&'static str, &'static str), name: Seq<char>, rule: Seq<char>) -> bool {
    p.0@ == name && p.1@ == rule
}

/// The demo rules, one for each of the kinds that an operator writes.
pub open spec fn are_demo_rules(r: Seq<(&'static str, &'static str)>) -> bool {
    &&& r.len() == 4
    &&& is_demo_rule(r[0], "pp-band-breach"@, "{\"kind\":\"pp.band_breach\"}"@)
    &&& is_demo_rule(
        r[1],
        "egress-globex"@,
        "{\"kind\":\"bandwidth.high\",\"account\":\"Vultr — globex (egress GB)\",\"max_gb\":300}"@,
    )
    &&& is_demo_rule(
        r[2],
        "low-checking"@,
        "{\"kind\":\"balance.low\",\"account\":\"Checking\",\"min_cents\":1000000}"@,
    )
    &&& is_demo_rule(
        r[3],
        "rent-reminder"@,
        "{\"kind\":\"reminder\",\"day_of_month\":1,\"hour_ast\":9,\"minute_ast\":0,\"message\":\"Pay rent\"}"@,
    )
}

/// The demo rules.
pub fn demo_rules() -> (r: Vec<(&'static str, &'static str)>)
    ensures
        are_demo_rules(r@),
{
    let mut out: Vec<(&'static str, &'static str)> = Vec::new();
    out.push(("pp-band-breach", "{\"kind\":\"pp.band_breach\"}"));
    out.push(
        (
            "egress-globex",
            "{\"kind\":\"bandwidth.high\",\"account\":\"Vultr — globex (egress GB)\",\"max_gb\":300}",
        ),
    );
    out.push(
        (
            "low-checking",
            "{\"kind\":\"balance.low\",\"account\":\"Checking\",\"min_cents\":1000000}",
        ),
    );
    out.push(
        (
            "rent-reminder",
            "{\"kind\":\"reminder\",\"day_of_month\":1,\"hour_ast\":9,\"minute_ast\":0,\"message\":\"Pay rent\"}",
        ),
    );
    out
}

/// The firings that wait for delivery: the name of the rule, and what it reported.
pub open spec fn are_demo_firings(r: Seq<(&'static str, &'static str)>) -> bool {
    &&& r.len() == 2
    &&& is_demo_rule(
        r[0],
        "pp-band-breach"@,
        "{\"sleeve\":\"equity\",\"pct\":46,\"upper\":44}"@,
    )
    &&& is_demo_rule(
        r[1],
        "egress-globex"@,
        "{\"account\":\"Vultr — globex (egress GB)\",\"gb\":318,\"max_gb\":300}"@,
    )
}

/// The firings that wait for delivery.
pub fn demo_firings() -> (r: Vec<(&'static str, &'static str)>)
    ensures
        are_demo_firings(r@),
{
    let mut out: Vec<(&'static str, &'static str)> = Vec::new();
    out.push(("pp-band-breach", "{\"sleeve\":\"equity\",\"pct\":46,\"upper\":44}"));
    out.push(
        (
            "egress-globex",
            "{\"account\":\"Vultr — globex (egress GB)\",\"gb\":318,\"max_gb\":300}",
        ),
    );
    out
}

// ---------------------------------------------------------------------------
// The whole
// ---------------------------------------------------------------------------

/// The business that every database begins with is switched off, so that only the two
/// fictional ones show.
pub open spec fn business_steps(
    after: Seq<Business>,
    second: Seq<Business>,
    first: Seq<Business>,
    before: Seq<Business>,
    fresh: int,
) -> bool {
    &&& businesses_written(
        first,
        before,
        "main"@,
        None,
        Some(false),
        BusinessId(fresh as i64),
    )
    &&& businesses_written(
        second,
        first,
        "acme"@,
        Some("Acme Cloud LLC"@),
        Some(true),
        BusinessId((fresh + 1) as i64),
    )
    &&& businesses_written(
        after,
        second,
        "globex"@,
        Some("Globex Apps LLC"@),
        Some(true),
        BusinessId((fresh + 2) as i64),
    )
}

/// The fictional businesses.
#[derive(Clone, Copy, Debug)]
pub struct Businesses {
    pub acme: BusinessId,
    pub globex: BusinessId,
}

pub open spec fn businesses_seeded(
    after: Seq<Business>,
    before: Seq<Business>,
    b: Businesses,
    fresh: int,
) -> bool {
    exists|second: Seq<Business>, first: Seq<Business>| #[trigger]
        business_steps(after, second, first, before, fresh) && b.acme == second[business_slot(
            first,
            "acme"@,
        )].id && b.globex == after[business_slot(second, "globex"@)].id
}

/// Writes the businesses.
pub fn seed_businesses(rows: &mut Vec<Business>, fresh: i64) -> (r: Businesses)
    requires
        0 <= fresh <= i64::MAX - 2,
    ensures
        businesses_seeded(final(rows)@, old(rows)@, r, fresh as int),
{
    upsert_business(rows, "main", None, Some(false), BusinessId(fresh));
    let ghost first = rows@;
    let acme: BusinessId = upsert_business(
        rows,
        "acme",
        Some("Acme Cloud LLC"),
        Some(true),
        BusinessId(fresh + 1),
    );
    let ghost second = rows@;
    let globex: BusinessId = upsert_business(
        rows,
        "globex",
        Some("Globex Apps LLC"),
        Some(true),
        BusinessId(fresh + 2),
    );
    assert(business_steps(rows@, second, first, old(rows)@, fresh as int));
    Businesses { acme, globex }
}

/// The snapshots of some readings, numbered from an id on.
pub open spec fn snapshots_of(readings: Seq<(AccountId, i64, Cents)>, fresh: int) -> Seq<
    BalanceSnapshot,
> {
    Seq::new(
        readings.len(),
        |i: int|
            BalanceSnapshot {
                id: (fresh + i) as i64,
                account_id: readings[i].0,
                taken_at: readings[i].1,
                amount_cents: readings[i].2,
            },
    )
}

/// Whether the accounts of some readings exist.
spec fn all_placed(accounts: Seq<Account>, readings: Seq<(AccountId, i64, Cents)>) -> bool {
    forall|i: int| 0 <= i < readings.len() ==> has_account(accounts, (#[trigger] readings[i]).0)
}

proof fn lemma_readings_placed(accounts: Seq<Account>, balances: Seq<DemoBalance>, now: int)
    requires
        all_known(accounts, balances),
    ensures
        all_placed(accounts, todays(balances, now)),
        all_placed(accounts, past(balances, now)),
    decreases balances.len(),
{
    let t = todays(balances, now);
    assert forall|i: int| 0 <= i < t.len() implies has_account(accounts, (#[trigger] t[i]).0) by {
        assert(has_account(accounts, balances[i].account_id));
    }
    if balances.len() > 0 {
        let d = balances.drop_last();
        assert forall|i: int| 0 <= i < d.len() implies has_account(
            accounts,
            (#[trigger] d[i]).account_id,
        ) by {
            assert(d[i] == balances[i]);
        }
        lemma_readings_placed(accounts, d, now);
        assert(has_account(accounts, balances[balances.len() - 1].account_id));
        let (a, b) = (past(d, now), past_of(balances.last(), now));
        let p = past(balances, now);
        assert forall|i: int| 0 <= i < p.len() implies has_account(
            accounts,
            (#[trigger] p[i]).0,
        ) by {
            if i < a.len() {
                assert(p[i] == a[i]);
            } else {
                assert(p[i] == b[i - a.len()]);
            }
        }
    }
}

/// The demo transactions are posted to accounts of the demo.
proof fn lemma_postings_placed(
    accounts: Seq<Account>,
    s: Seq<Transaction>,
    seeded: Seeded,
    acme: BusinessId,
    globex: BusinessId,
    now: int,
)
    requires
        are_demo_transactions(s, seeded, acme, globex, now),
        has_account(accounts, seeded.checking),
        has_account(accounts, seeded.acme_cash),
        has_account(accounts, seeded.globex_cash),
    ensures
        all_have_accounts(accounts, s),
{
    assert forall|i: int| 0 <= i < s.len() implies has_account(
        accounts,
        (#[trigger] s[i]).account_id,
    ) by {
        assert(s[i].account_id == seeded.checking || s[i].account_id == seeded.acme_cash
            || s[i].account_id == seeded.globex_cash);
    }
}

fn write_snapshots(
    rows: &mut Vec<BalanceSnapshot>,
    accounts: &Vec<Account>,
    readings: &Vec<(AccountId, i64, Cents)>,
    fresh: i64,
)
    requires
        0 <= fresh,
        fresh + readings@.len() <= i64::MAX,
        all_placed(accounts@, readings@),
    ensures
        final(rows)@ == old(rows)@ + snapshots_of(readings@, fresh as int),
{
    let ghost before = rows@;
    let ghost all = snapshots_of(readings@, fresh as int);
    let mut i: usize = 0;
    assert(rows@ =~= before + all.take(0));
    while i < readings.len()
        invariant
            i <= readings.len(),
            0 <= fresh,
            fresh + readings@.len() <= i64::MAX,
            all_placed(accounts@, readings@),
            all == snapshots_of(readings@, fresh as int),
            rows@ == before + all.take(i as int),
        decreases readings.len() - i,
    {
        let (account_id, taken_at, amount) = readings[i];
        assert(has_account(accounts@, readings@[i as int].0));
        let _ = insert_snapshot(rows, accounts, account_id, amount, taken_at, fresh + i as i64);
        assert(all.take(i + 1) =~= all.take(i as int).push(all[i as int]));
        assert(rows@ =~= before + all.take(i + 1));
        i = i + 1;
    }
    assert(all.take(i as int) =~= all);
}

/// A rule is added unless one of that name is there.
pub open spec fn rule_added(
    after: Seq<AlertRule>,
    before: Seq<AlertRule>,
    name: Seq<char>,
    rule: Seq<char>,
    fresh: int,
) -> bool {
    if rule_slot(before, name) < before.len() {
        after == before
    } else {
        &&& after.len() == before.len() + 1
        &&& after.drop_last() == before
        &&& rule_is(after.last(), fresh as i64, name, rule, "xmpp"@, true)
    }
}

/// The rules after some are added one by one.
pub open spec fn rules_added(
    after: Seq<AlertRule>,
    before: Seq<AlertRule>,
    list: Seq<(&'static str, &'static str)>,
    fresh: int,
) -> bool
    decreases list.len(),
{
    if list.len() == 0 {
        after == before
    } else {
        exists|mid: Seq<AlertRule>|
            rules_added(mid, before, list.drop_last(), fresh) && #[trigger] rule_added(
                after,
                mid,
                list.last().0@,
                list.last().1@,
                fresh + list.len() - 1,
            )
    }
}

fn write_rules(rows: &mut Vec<AlertRule>, list: &Vec<(&'static str, &'static str)>, fresh: i64)
    requires
        0 <= fresh,
        fresh + list@.len() <= i64::MAX,
    ensures
        rules_added(final(rows)@, old(rows)@, list@, fresh as int),
{
    let ghost before = rows@;
    let mut i: usize = 0;
    assert(list@.take(0) =~= Seq::<(&'static str, &'static str)>::empty());
    while i < list.len()
        invariant
            i <= list.len(),
            0 <= fresh,
            fresh + list@.len() <= i64::MAX,
            rules_added(rows@, before, list@.take(i as int), fresh as int),
        decreases list.len() - i,
    {
        let ghost mid = rows@;
        assert(list@.take(i + 1).drop_last() =~= list@.take(i as int));
        assert(list@.take(i + 1).last() == list@[i as int]);
        upsert_alert_rule_by_name(rows, list[i].0, list[i].1, "xmpp", fresh + i as i64);
        assert(rule_added(
            rows@,
            mid,
            list@.take(i + 1).last().0@,
            list@.take(i + 1).last().1@,
            fresh + list@.take(i + 1).len() - 1,
        ));
        assert(rules_added(mid, before, list@.take(i + 1).drop_last(), fresh as int));
        i = i + 1;
    }
    assert(list@.take(i as int) =~= list@);
}

/// A firing that is not delivered yet, with the rule as it is stored.
pub open spec fn is_pending(
    h: AlertHistoryRow,
    rules: Seq<AlertRule>,
    firing: (&'static str, &'static str),
    now: i64,
    id: int,
) -> bool {
    let k = rule_slot(rules, firing.0@);
    &&& h.id == id
    &&& h.rule_name@ == firing.0@
    &&& k < rules.len() ==> h.rule_json@ == rules[k].rule_json@
    &&& h.fired_at == now
    &&& h.payload_json@ == firing.1@
    &&& !h.delivered
}

pub open spec fn are_pending(
    after: Seq<AlertHistoryRow>,
    before: Seq<AlertHistoryRow>,
    rules: Seq<AlertRule>,
    firings: Seq<(&'static str, &'static str)>,
    now: i64,
    fresh: int,
) -> bool {
    &&& after.len() == before.len() + firings.len()
    &&& after.take(before.len() as int) == before
    &&& forall|i: int|
        before.len() <= i < after.len() ==> is_pending(
            #[trigger] after[i],
            rules,
            firings[i - before.len()],
            now,
            fresh + i - before.len(),
        )
}

fn stored_rule(rules: &Vec<AlertRule>, name: &str) -> (r: String)
    ensures
        rule_slot(rules@, name@) < rules@.len() ==> r@ == rules@[rule_slot(
            rules@,
            name@,
        )].rule_json@,
{
    let ghost p = |r: AlertRule| is_rule(r, name@);
    let mut i: usize = 0;
    while i < rules.len()
        invariant
            i <= rules.len(),
            p == (|r: AlertRule| is_rule(r, name@)),
            forall|j: int| 0 <= j < i ==> !p(#[trigger] rules@[j]),
        decreases rules.len() - i,
    {
        if str_eq(rules[i].name.as_str(), name) {
            proof {
                lemma_first_index(rules@, p, i as int);
            }
            return rules[i].rule_json.clone();
        }
        i = i + 1;
    }
    proof {
        lemma_first_index(rules@, p, i as int);
    }
    String::new()
}

fn write_firings(
    history: &mut Vec<AlertHistoryRow>,
    rules: &Vec<AlertRule>,
    firings: &Vec<(&'static str, &'static str)>,
    now: i64,
    fresh: i64,
)
    requires
        0 <= fresh,
        fresh + firings@.len() <= i64::MAX,
    ensures
        are_pending(final(history)@, old(history)@, rules@, firings@, now, fresh as int),
{
    let ghost before = history@;
    let mut i: usize = 0;
    while i < firings.len()
        invariant
            i <= firings.len(),
            0 <= fresh,
            fresh + firings@.len() <= i64::MAX,
            history@.len() == before.len() + i,
            history@.take(before.len() as int) =~= before,
            forall|j: int|
                before.len() <= j < history@.len() ==> is_pending(
                    #[trigger] history@[j],
                    rules@,
                    firings@[j - before.len()],
                    now,
                    fresh + j - before.len(),
                ),
        decreases firings.len() - i,
    {
        let name: &'static str = firings[i].0;
        history.push(
            AlertHistoryRow {
                id: fresh + i as i64,
                rule_name: name.to_owned(),
                rule_json: stored_rule(rules, name),
                fired_at: now,
                payload_json: firings[i].1.to_owned(),
                delivered: false,
            },
        );
        i = i + 1;
    }
}

/// What the tables hold once the demo is in them.
pub open spec fn is_seeded(
    after: Tables,
    before: Tables,
    b: Businesses,
    seeded: Seeded,
    now: i64,
    fresh: int,
) -> bool {
    &&& businesses_seeded(after.businesses@, before.businesses@, b, fresh)
    &&& exists|list: Seq<(Account, i64)>| #[trigger]
        accounts_seeded(
            after.accounts@,
            before.accounts@,
            seeded,
            list,
            b.acme,
            b.globex,
            fresh,
        )
    &&& after.snapshots@ == before.snapshots@ + snapshots_of(
        todays(seeded.balances@, now as int) + past(seeded.balances@, now as int),
        fresh,
    )
    &&& exists|list: Seq<Transaction>|
        are_demo_transactions(list, seeded, b.acme, b.globex, now as int)
            && after.transactions@ == #[trigger] transactions_fed(
            before.transactions@,
            list,
            ids_from(fresh, list.len()),
        )
    &&& exists|list: Seq<SubscriptionRecord>|
        are_demo_subscriptions(list, b.acme, now as int, fresh) && after.subscriptions@
            == #[trigger] subscriptions_fed(before.subscriptions@, list)
    &&& exists|list: Seq<(&'static str, &'static str)>|
        are_demo_rules(list) && #[trigger] rules_added(
            after.rules@,
            before.rules@,
            list,
            fresh,
        )
    &&& exists|list: Seq<(&'static str, &'static str)>|
        are_demo_firings(list) && #[trigger] are_pending(
            after.history@,
            before.history@,
            after.rules@,
            list,
            now,
            fresh,
        )
    &&& after.providers@ == before.providers@
    &&& after.planned@ == before.planned@
    &&& after.labels@ == before.labels@
}

/// Writes the demo. New rows are numbered from an id on, table by table; the spot prices
/// are not among the tables.
pub fn seed(t: &mut Tables, now: i64, fresh: i64) -> (r: (Businesses, Seeded))
    requires
        all_stored(old(t).accounts@),
        i64::MIN + HISTORY_MONTHS * MONTH <= now <= i64::MAX - 90 * DAY,
        0 <= fresh <= i64::MAX - 1_000,
    ensures
        is_seeded(*final(t), *old(t), r.0, r.1, now, fresh as int),
        all_stored(final(t).accounts@),
{
    let b: Businesses = seed_businesses(&mut t.businesses, fresh);
    let seeded: Seeded = seed_accounts(&mut t.accounts, b.acme, b.globex, fresh);
    let ghost list = choose|list: Seq<(Account, i64)>| #[trigger]
        accounts_seeded(
            t.accounts@,
            old(t).accounts@,
            seeded,
            list,
            b.acme,
            b.globex,
            fresh as int,
        );
    let readings: Vec<(AccountId, i64, Cents)> = demo_readings(&seeded.balances, now);
    proof {
        lemma_past_is_short(seeded.balances@, now as int);
        lemma_readings_placed(t.accounts@, seeded.balances@, now as int);
    }
    write_snapshots(&mut t.snapshots, &t.accounts, &readings, fresh);
    let transactions: Vec<Transaction> = demo_transactions(&seeded, b.acme, b.globex, now);
    let ids: Vec<TransactionId> = number_ids(fresh, transactions.len());
    proof {
        assert(has_account(t.accounts@, seeded.balances@[9].account_id));
        assert(has_account(t.accounts@, seeded.balances@[11].account_id));
        assert(has_account(t.accounts@, seeded.balances@[12].account_id));
        lemma_postings_placed(
            t.accounts@,
            transactions@,
            seeded,
            b.acme,
            b.globex,
            now as int,
        );
        law_known_are_taken(t.accounts@, t.transactions@, transactions@, ids@);
        assert(transactions@.take(transactions@.len() as int) =~= transactions@);
        assert(ids@.take(transactions@.len() as int) =~= ids@);
    }
    let _ = upsert_transactions(&mut t.transactions, &t.accounts, &transactions, &ids);
    let subscriptions: Vec<SubscriptionRecord> = demo_subscriptions(b.acme, now, fresh);
    write_subscriptions(&mut t.subscriptions, &subscriptions);
    let rules: Vec<(&'static str, &'static str)> = demo_rules();
    write_rules(&mut t.rules, &rules, fresh);
    let firings: Vec<(&'static str, &'static str)> = demo_firings();
    write_firings(&mut t.history, &t.rules, &firings, now, fresh);
    assert(accounts_seeded(
        t.accounts@,
        old(t).accounts@,
        seeded,
        list,
        b.acme,
        b.globex,
        fresh as int,
    ));
    assert(t.transactions@ == transactions_fed(old(t).transactions@, transactions@, ids@));
    assert(t.subscriptions@ == subscriptions_fed(old(t).subscriptions@, subscriptions@));
    assert(are_demo_rules(rules@) && rules_added(t.rules@, old(t).rules@, rules@, fresh as int));
    assert(are_demo_firings(firings@) && are_pending(
        t.history@,
        old(t).history@,
        t.rules@,
        firings@,
        now,
        fresh as int,
    ));
    (b, seeded)
}

proof fn lemma_past_is_short(balances: Seq<DemoBalance>, now: int)
    ensures
        past(balances, now).len() <= HISTORY_MONTHS * balances.len(),
    decreases balances.len(),
{
    if balances.len() > 0 {
        lemma_past_is_short(balances.drop_last(), now);
    }
}

} // verus!
