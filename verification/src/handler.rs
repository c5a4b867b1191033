//! Requests and their replies, over the stored tables.
//!
//! A read request leaves the tables as they are. A write request checks what it was given
//! before it changes anything, and changes one table.

use crate::alerts::{rule_kind, summarize_alert, validate_rule_json, AlertReading};
use crate::db::{
    business_by_tag, list_active_accounts, recurring_labels, rename_subscription, set_alert_rule,
    set_subscription_active, upsert_account, upsert_business, upsert_provider,
    upsert_recurring_label, upsert_subscription, upsert_transaction, Account, AlertHistoryRow,
    AlertRule, BalanceSnapshot, Business, PlannedExpense, ProviderRow, RecurringLabel, StoredLabel,
    SubscriptionRecord, Transaction,
};
use crate::debt::{debt_view, obligations_at, scope_bounds_at, DebtView};
use crate::error::{CoreError, Result};
use crate::ids::{AccountId, BusinessId, ProviderId, TransactionId};
use crate::json::{parse_json, Json};
use crate::ledger::{
    balance_for, business_pnl, can_chart, cash_flow_monthly, current_net_worth,
    expenses_by_category, insert_snapshot, latest_balances, list_active_alert_rules,
    list_recent_alerts, list_transactions, networth_series, open_debts, scheduled_payments,
    totals_by_key,
};
use crate::money::Cents;
use crate::order::{rank_strings, stable_indices};
use crate::pp::{allocation, any_band_breach, backbone, drift, Allocation, Backbone, DriftRow};
use crate::recurring::{
    can_list, ignored_series, labeled_series, normalize_payee, SeriesLabel, MIN_OCCURRENCES,
};
use crate::rpc::{
    AccountLine, AlertRow, AlertRuleRow, AlertsPage, BusinessSnapshot, CategoriesSnapshot,
    CategorySpend, ChartsSnapshot, DebtScheduled, DebtSnapshot, HealthInfo, KindTotal,
    LabeledSeries, MoneySnapshot, MonthFlow, PpSnapshot, ProviderStatus, RecurringPage, Request,
    Response, RpcError, Scope, SubscriptionRow, TimePoint, TxListPage, TxRow,
};
use crate::text::{clone_opt, int_string, quoted, str_eq, trim};
use crate::time::{midnight_utc, utc_clock, Clock};
use vstd::prelude::*;

verus! {

use crate::db::{active_accounts, has_account, lemma_listed_exist};
use crate::ledger::{
    amounts_under, are_latest, are_totals, counts, listed_balance, net_worth, total, totals_fit,
};
use crate::order::{kept, ranks, sorted_by_keys, stable_order};
use crate::pp::sat_add;
use crate::text::{dec_int, lex_lt, opt_text};

/// The stored tables.
#[derive(Debug)]
pub struct Tables {
    pub accounts: Vec<Account>,
    pub snapshots: Vec<BalanceSnapshot>,
    pub transactions: Vec<Transaction>,
    pub businesses: Vec<Business>,
    pub providers: Vec<ProviderRow>,
    pub subscriptions: Vec<SubscriptionRecord>,
    pub planned: Vec<PlannedExpense>,
    pub rules: Vec<AlertRule>,
    pub history: Vec<AlertHistoryRow>,
    pub labels: Vec<StoredLabel>,
}

impl Tables {
    /// Every stored account has its id, and the tables are of a size that a machine holds.
    pub open spec fn well_formed(self) -> bool {
        &&& forall|i: int| 0 <= i < self.accounts@.len() ==> (#[trigger] self.accounts@[i]).id is Some
        &&& self.accounts@.len() <= u32::MAX
        &&& self.subscriptions@.len() <= i64::MAX
        &&& self.snapshots@.len() <= i64::MAX
    }
}

// ---------------------------------------------------------------------------
// Money
// ---------------------------------------------------------------------------

/// The latest balance of an account; zero where there is none.
pub open spec fn balance_of(a: Account, balances: Seq<(AccountId, Cents)>) -> Cents {
    match a.id {
        Some(id) => listed_balance(balances, id),
        None => Cents(0),
    }
}

fn latest_of(a: &Account, balances: &Vec<(AccountId, Cents)>) -> (r: Cents)
    ensures
        r == balance_of(*a, balances@),
{
    match a.id {
        Some(id) => balance_for(balances, id),
        None => Cents(0),
    }
}

pub open spec fn is_subscription(a: Account) -> bool {
    a.kind@ == "subscription"@
}

/// The line of an account. One that is not in US dollars is listed and left out of the
/// totals.
pub open spec fn is_account_line(l: AccountLine, a: Account, balances: Seq<(AccountId, Cents)>) -> bool {
    &&& l.name == a.name
    &&& l.kind == a.kind
    &&& l.balance == balance_of(a, balances)
    &&& l.currency == a.currency
    &&& l.excluded_from_nw == (a.currency@ != "USD"@)
}

/// Keys by which the largest balance comes first.
pub open spec fn falling_keys(xs: Seq<Account>, balances: Seq<(AccountId, Cents)>) -> Seq<i64> {
    xs.map_values(|a: Account| (-1 - balance_of(a, balances).0) as i64)
}

pub open spec fn kinds_of(xs: Seq<Account>) -> Seq<Seq<char>> {
    xs.map_values(|a: Account| a.kind@)
}

/// The accounts by kind, and within a kind the largest balance first.
pub open spec fn by_kind_and_balance(xs: Seq<Account>, balances: Seq<(AccountId, Cents)>) -> Seq<
    Account,
> {
    let ys = sorted_by_keys(xs, falling_keys(xs, balances));
    sorted_by_keys(ys, ranks(kinds_of(ys)))
}

/// The accounts that the accounts view lists.
pub open spec fn line_accounts(accounts: Seq<Account>, balances: Seq<(AccountId, Cents)>) -> Seq<
    Account,
> {
    by_kind_and_balance(kept(accounts, |a: Account| !is_subscription(a)), balances)
}

/// The lines of the accounts view.
pub open spec fn are_account_lines(
    out: Seq<AccountLine>,
    accounts: Seq<Account>,
    balances: Seq<(AccountId, Cents)>,
) -> bool {
    let xs = line_accounts(accounts, balances);
    &&& out.len() == xs.len()
    &&& forall|i: int| 0 <= i < out.len() ==> is_account_line(#[trigger] out[i], xs[i], balances)
}

fn order_accounts(xs: &Vec<Account>, keys: &Vec<i64>) -> (r: Vec<Account>)
    requires
        xs@.len() == keys@.len(),
    ensures
        r@ == sorted_by_keys(xs@, keys@),
{
    let order: Vec<usize> = stable_indices(keys);
    let ghost q = stable_order(keys@, keys@.len());
    let mut out: Vec<Account> = Vec::new();
    let mut k: usize = 0;
    while k < order.len()
        invariant
            k <= order.len(),
            order@.len() == xs@.len(),
            order@.map_values(|x: usize| x as int) == q,
            forall|j: int| 0 <= j < order@.len() ==> 0 <= (#[trigger] order@[j]) < xs@.len(),
            out@.len() == k,
            forall|j: int| 0 <= j < k ==> #[trigger] out@[j] == xs@[q[j]],
        decreases order.len() - k,
    {
        assert(order@.map_values(|x: usize| x as int)[k as int] == order@[k as int]);
        out.push(xs[order[k]].clone());
        k = k + 1;
    }
    assert(out@ =~= sorted_by_keys(xs@, keys@));
    out
}

fn sort_accounts(xs: &Vec<Account>, balances: &Vec<(AccountId, Cents)>) -> (r: Vec<Account>)
    requires
        xs@.len() <= i64::MAX,
    ensures
        r@ == by_kind_and_balance(xs@, balances@),
        r@.len() == xs@.len(),
{
    let mut keys: Vec<i64> = Vec::new();
    let mut i: usize = 0;
    while i < xs.len()
        invariant
            i <= xs.len(),
            keys@.len() == i,
            forall|k: int|
                0 <= k < i ==> #[trigger] keys@[k] == -1 - balance_of(xs@[k], balances@).0,
        decreases xs.len() - i,
    {
        keys.push(-1 - latest_of(&xs[i], balances).0);
        i = i + 1;
    }
    assert(keys@ =~= falling_keys(xs@, balances@));
    let ys: Vec<Account> = order_accounts(xs, &keys);
    let mut kinds: Vec<String> = Vec::new();
    let mut j: usize = 0;
    while j < ys.len()
        invariant
            j <= ys.len(),
            kinds@.len() == j,
            forall|k: int| 0 <= k < j ==> (#[trigger] kinds@[k])@ == ys@[k].kind@,
        decreases ys.len() - j,
    {
        kinds.push(ys[j].kind.clone());
        j = j + 1;
    }
    assert(kinds@.map_values(|s: String| s@) =~= kinds_of(ys@));
    let places: Vec<i64> = rank_strings(&kinds);
    order_accounts(&ys, &places)
}

fn account_lines(accounts: &Vec<Account>, balances: &Vec<(AccountId, Cents)>) -> (r: Vec<AccountLine>)
    requires
        accounts@.len() <= u32::MAX,
    ensures
        are_account_lines(r@, accounts@, balances@),
{
    let ghost p = |a: Account| !is_subscription(a);
    let mut xs: Vec<Account> = Vec::new();
    let mut i: usize = 0;
    while i < accounts.len()
        invariant
            i <= accounts.len(),
            p == (|a: Account| !is_subscription(a)),
            xs@ == kept(accounts@.take(i as int), p),
            xs@.len() <= i,
        decreases accounts.len() - i,
    {
        assert(accounts@.take(i + 1).drop_last() == accounts@.take(i as int));
        if !str_eq(accounts[i].kind.as_str(), "subscription") {
            xs.push(accounts[i].clone());
        }
        i = i + 1;
    }
    assert(accounts@.take(accounts@.len() as int) == accounts@);
    let ys: Vec<Account> = sort_accounts(&xs, balances);
    let mut out: Vec<AccountLine> = Vec::new();
    let mut k: usize = 0;
    while k < ys.len()
        invariant
            k <= ys.len(),
            out@.len() == k,
            forall|j: int| 0 <= j < k ==> is_account_line(#[trigger] out@[j], ys@[j], balances@),
        decreases ys.len() - k,
    {
        let a: &Account = &ys[k];
        out.push(
            AccountLine {
                name: a.name.clone(),
                kind: a.kind.clone(),
                balance: latest_of(a, balances),
                currency: a.currency.clone(),
                excluded_from_nw: !str_eq(a.currency.as_str(), "USD"),
            },
        );
        k = k + 1;
    }
    assert(are_account_lines(out@, accounts@, balances@));
    out
}

pub open spec fn names_of(xs: Seq<Account>) -> Seq<Seq<char>> {
    xs.map_values(|a: Account| a.name@)
}

/// The row of a subscription account: its reading in its own unit.
pub open spec fn is_subscription_row(
    s: SubscriptionRow,
    a: Account,
    balances: Seq<(AccountId, Cents)>,
) -> bool {
    &&& s.name == a.name
    &&& s.currency == a.currency
    &&& s.latest == balance_of(a, balances)
    &&& opt_text(s.source) == match a.provider_id {
        Some(p) => Some(dec_int(p.0 as int)),
        None => None,
    }
}

/// The subscription accounts by name.
pub open spec fn subscription_accounts(accounts: Seq<Account>) -> Seq<Account> {
    let xs = kept(accounts, |a: Account| is_subscription(a));
    sorted_by_keys(xs, ranks(names_of(xs)))
}

/// The rows of the subscription accounts.
pub open spec fn are_subscription_rows(
    out: Seq<SubscriptionRow>,
    accounts: Seq<Account>,
    balances: Seq<(AccountId, Cents)>,
) -> bool {
    let xs = subscription_accounts(accounts);
    &&& out.len() == xs.len()
    &&& forall|i: int|
        0 <= i < out.len() ==> is_subscription_row(#[trigger] out[i], xs[i], balances)
}

fn subscription_rows(accounts: &Vec<Account>, balances: &Vec<(AccountId, Cents)>) -> (r: Vec<
    SubscriptionRow,
>)
    requires
        accounts@.len() <= u32::MAX,
    ensures
        are_subscription_rows(r@, accounts@, balances@),
{
    let ghost p = |a: Account| is_subscription(a);
    let mut xs: Vec<Account> = Vec::new();
    let mut names: Vec<String> = Vec::new();
    let mut i: usize = 0;
    while i < accounts.len()
        invariant
            i <= accounts.len(),
            p == (|a: Account| is_subscription(a)),
            xs@ == kept(accounts@.take(i as int), p),
            xs@.len() <= i,
            names@.len() == xs@.len(),
            forall|k: int| 0 <= k < xs@.len() ==> (#[trigger] names@[k])@ == xs@[k].name@,
        decreases accounts.len() - i,
    {
        assert(accounts@.take(i + 1).drop_last() == accounts@.take(i as int));
        if str_eq(accounts[i].kind.as_str(), "subscription") {
            names.push(accounts[i].name.clone());
            xs.push(accounts[i].clone());
        }
        i = i + 1;
    }
    assert(accounts@.take(accounts@.len() as int) == accounts@);
    assert(names@.map_values(|s: String| s@) =~= names_of(xs@));
    let places: Vec<i64> = rank_strings(&names);
    let ys: Vec<Account> = order_accounts(&xs, &places);
    let mut out: Vec<SubscriptionRow> = Vec::new();
    let mut k: usize = 0;
    while k < ys.len()
        invariant
            k <= ys.len(),
            out@.len() == k,
            forall|j: int|
                0 <= j < k ==> is_subscription_row(#[trigger] out@[j], ys@[j], balances@),
        decreases ys.len() - k,
    {
        let a: &Account = &ys[k];
        out.push(
            SubscriptionRow {
                name: a.name.clone(),
                currency: a.currency.clone(),
                latest: latest_of(a, balances),
                source: match a.provider_id {
                    Some(p) => Some(int_string(p.0)),
                    None => None,
                },
            },
        );
        k = k + 1;
    }
    assert(are_subscription_rows(out@, accounts@, balances@));
    out
}

/// The total of the accounts of a kind.
pub open spec fn kind_total(
    accounts: Seq<Account>,
    balances: Seq<(AccountId, Cents)>,
    kind: Seq<char>,
) -> Cents
    decreases accounts.len(),
{
    if accounts.len() == 0 {
        Cents(0)
    } else {
        let rest = kind_total(accounts.drop_last(), balances, kind);
        if accounts.last().kind@ == kind {
            sat_add(rest, balance_of(accounts.last(), balances))
        } else {
            rest
        }
    }
}

/// How many accounts are of a kind.
pub open spec fn kind_count(accounts: Seq<Account>, kind: Seq<char>) -> nat
    decreases accounts.len(),
{
    if accounts.len() == 0 {
        0
    } else {
        kind_count(accounts.drop_last(), kind) + if accounts.last().kind@ == kind {
            1nat
        } else {
            0nat
        }
    }
}

pub open spec fn has_kind(out: Seq<KindTotal>, kind: Seq<char>) -> bool {
    exists|i: int| 0 <= i < out.len() && (#[trigger] out[i]).kind@ == kind
}

/// The totals of the kinds, in the order of their names: each kind that counts toward net
/// worth once, and no other.
pub open spec fn are_kind_totals(
    out: Seq<KindTotal>,
    accounts: Seq<Account>,
    balances: Seq<(AccountId, Cents)>,
) -> bool {
    let xs = kept(accounts, |a: Account| counts(a));
    &&& forall|i: int, j: int|
        0 <= i < j < out.len() ==> lex_lt((#[trigger] out[i]).kind@, (#[trigger] out[j]).kind@)
    &&& forall|i: int|
        0 <= i < out.len() ==> (#[trigger] out[i]).total == kind_total(xs, balances, out[i].kind@)
            && out[i].account_count == kind_count(xs, out[i].kind@) && kinds_of(xs).contains(
            out[i].kind@,
        )
    &&& forall|k: int| 0 <= k < xs.len() ==> has_kind(out, (#[trigger] xs[k]).kind@)
}

/// Nothing but zeros adds up to zero.
proof fn lemma_zero_total(keys: Seq<String>, zeros: Seq<i64>, key: Seq<char>)
    requires
        forall|i: int| 0 <= i < zeros.len() ==> #[trigger] zeros[i] == 0,
    ensures
        total(amounts_under(keys, zeros, key)) == Some(0i64),
    decreases keys.len(),
{
    if keys.len() > 0 && zeros.len() > 0 {
        let rest = amounts_under(keys.drop_last(), zeros.drop_last(), key);
        lemma_zero_total(keys.drop_last(), zeros.drop_last(), key);
        assert(rest.push(zeros.last()).drop_last() =~= rest);
    }
}

fn one_kind(accounts: &Vec<Account>, balances: &Vec<(AccountId, Cents)>, kind: &String) -> (r: (
    Cents,
    u32,
))
    requires
        accounts@.len() <= u32::MAX,
    ensures
        r.0 == kind_total(accounts@, balances@, kind@),
        r.1 == kind_count(accounts@, kind@),
{
    let mut sum: Cents = Cents(0);
    let mut n: u32 = 0;
    let mut i: usize = 0;
    while i < accounts.len()
        invariant
            i <= accounts.len(),
            accounts@.len() <= u32::MAX,
            n <= i,
            sum == kind_total(accounts@.take(i as int), balances@, kind@),
            n == kind_count(accounts@.take(i as int), kind@),
        decreases accounts.len() - i,
    {
        assert(accounts@.take(i + 1).drop_last() == accounts@.take(i as int));
        if str_eq(accounts[i].kind.as_str(), kind.as_str()) {
            sum = sum + latest_of(&accounts[i], balances);
            n = n + 1;
        }
        i = i + 1;
    }
    assert(accounts@.take(accounts@.len() as int) == accounts@);
    (sum, n)
}

fn kind_totals(accounts: &Vec<Account>, balances: &Vec<(AccountId, Cents)>) -> (r: Vec<KindTotal>)
    requires
        accounts@.len() <= u32::MAX,
    ensures
        are_kind_totals(r@, accounts@, balances@),
{
    let ghost p = |a: Account| counts(a);
    let mut xs: Vec<Account> = Vec::new();
    let mut kinds: Vec<String> = Vec::new();
    let mut zeros: Vec<i64> = Vec::new();
    let mut i: usize = 0;
    while i < accounts.len()
        invariant
            i <= accounts.len(),
            p == (|a: Account| counts(a)),
            xs@ == kept(accounts@.take(i as int), p),
            xs@.len() <= i,
            kinds@.len() == xs@.len(),
            zeros@.len() == xs@.len(),
            forall|k: int| 0 <= k < xs@.len() ==> (#[trigger] kinds@[k])@ == xs@[k].kind@,
            forall|k: int| 0 <= k < xs@.len() ==> #[trigger] zeros@[k] == 0,
        decreases accounts.len() - i,
    {
        assert(accounts@.take(i + 1).drop_last() == accounts@.take(i as int));
        let a: &Account = &accounts[i];
        if !str_eq(a.kind.as_str(), "subscription") && str_eq(a.currency.as_str(), "USD") {
            kinds.push(a.kind.clone());
            zeros.push(0);
            xs.push(a.clone());
        }
        i = i + 1;
    }
    assert(accounts@.take(accounts@.len() as int) == accounts@);
    proof {
        assert forall|k: int| 0 <= k < kinds@.len() implies total(
            amounts_under(kinds@, zeros@, (#[trigger] kinds@[k])@),
        ) is Some by {
            lemma_zero_total(kinds@, zeros@, kinds@[k]@);
        }
        assert(totals_fit(kinds@, zeros@));
    }
    let names: Vec<(String, Cents)> = match totals_by_key(&kinds, &zeros) {
        Ok(v) => v,
        Err(_) => Vec::new(),
    };
    let mut out: Vec<KindTotal> = Vec::new();
    let mut k: usize = 0;
    while k < names.len()
        invariant
            k <= names.len(),
            xs@.len() <= u32::MAX,
            out@.len() == k,
            forall|j: int|
                0 <= j < k ==> (#[trigger] out@[j]).kind@ == names@[j].0@ && out@[j].total
                    == kind_total(xs@, balances@, out@[j].kind@) && out@[j].account_count
                    == kind_count(xs@, out@[j].kind@),
        decreases names.len() - k,
    {
        let (sum, n): (Cents, u32) = one_kind(&xs, balances, &names[k].0);
        out.push(KindTotal { kind: names[k].0.clone(), total: sum, account_count: n });
        k = k + 1;
    }
    proof {
        assert(are_totals(names@, kinds@, zeros@));
        assert forall|j: int| 0 <= j < out@.len() implies kinds_of(xs@).contains(
            (#[trigger] out@[j]).kind@,
        ) by {
            let m = choose|m: int| 0 <= m < kinds@.len() && (#[trigger] kinds@[m])@ == names@[j].0@;
            assert(kinds_of(xs@)[m] == out@[j].kind@);
        }
        assert forall|m: int| 0 <= m < xs@.len() implies has_kind(out@, (#[trigger] xs@[m]).kind@) by {
            assert(crate::ledger::has_key(names@, kinds@[m]@));
            let j = choose|j: int| 0 <= j < names@.len() && (#[trigger] names@[j]).0@ == kinds@[m]@;
            assert(out@[j].kind@ == xs@[m].kind@);
        }
        assert(are_kind_totals(out@, accounts@, balances@));
    }
    out
}

/// The money view of some balances.
pub open spec fn is_money(m: MoneySnapshot, t: Tables, now: i64, balances: Seq<(AccountId, Cents)>) -> bool {
    let accounts = active_accounts(t.accounts@);
    &&& are_latest(balances, t.snapshots@)
    &&& m.net_worth == net_worth(accounts, balances)
    &&& are_kind_totals(m.by_kind@, accounts, balances)
    &&& are_account_lines(m.accounts@, accounts, balances)
    &&& are_subscription_rows(m.subscriptions@, accounts, balances)
    &&& m.asof_secs == now
}

/// The money view of the latest balances.
pub open spec fn is_money_view(m: MoneySnapshot, t: Tables, now: i64) -> bool {
    exists|balances: Seq<(AccountId, Cents)>| #[trigger] is_money(m, t, now, balances)
}

/// Net worth, by kind and by account. Subscriptions have a section of their own and count
/// toward no total; an account that is not in US dollars is listed and not summed.
pub fn money(t: &Tables, now: i64) -> (r: MoneySnapshot)
    requires
        t.well_formed(),
    ensures
        is_money_view(r, *t, now),
{
    let accounts: Vec<Account> = list_active_accounts(&t.accounts);
    let balances: Vec<(AccountId, Cents)> = latest_balances(&t.snapshots);
    proof {
        crate::order::lemma_kept(t.accounts@, |a: Account| a.active);
    }
    let r = MoneySnapshot {
        net_worth: current_net_worth(&accounts, &balances),
        by_kind: kind_totals(&accounts, &balances),
        accounts: account_lines(&accounts, &balances),
        subscriptions: subscription_rows(&accounts, &balances),
        asof_secs: now,
    };
    assert(is_money(r, *t, now, balances@));
    r
}

proof fn lemma_rank_bound(names: Seq<Seq<char>>, name: Seq<char>)
    ensures
        crate::order::rank(names, name) <= names.len(),
    decreases names.len(),
{
    if names.len() > 0 {
        lemma_rank_bound(names.drop_last(), name);
    }
}

/// The accounts view is grouped by kind, in the order of the names of the kinds, and shows
/// the largest balance of a kind first.
pub proof fn law_lines_in_order(
    xs: Seq<Account>,
    balances: Seq<(AccountId, Cents)>,
    i: int,
    j: int,
)
    requires
        xs.len() <= i64::MAX,
        0 <= i < j < xs.len(),
    ensures
        ({
            let a = by_kind_and_balance(xs, balances)[i];
            let b = by_kind_and_balance(xs, balances)[j];
            lex_lt(a.kind@, b.kind@) || (a.kind@ == b.kind@ && balance_of(a, balances).0
                >= balance_of(b, balances).0)
        }),
{
    let fall = falling_keys(xs, balances);
    let p = stable_order(fall, fall.len());
    let ys = sorted_by_keys(xs, fall);
    let names = kinds_of(ys);
    let keys = ranks(names);
    let q = stable_order(keys, keys.len());
    crate::order::law_stable_order(fall, fall.len());
    crate::order::law_stable_order(keys, keys.len());
    let a = ys[q[i]];
    let b = ys[q[j]];
    assert(crate::order::comes_before(keys, q[i], q[j]));
    assert(names[q[i]] == a.kind@ && names[q[j]] == b.kind@);
    lemma_rank_bound(names, a.kind@);
    lemma_rank_bound(names, b.kind@);
    crate::text::lemma_lex_total(a.kind@, b.kind@);
    if lex_lt(b.kind@, a.kind@) {
        crate::order::lemma_rank(names, b.kind@, a.kind@);
        assert(names.contains(b.kind@));
    } else if a.kind@ == b.kind@ {
        assert(q[i] < q[j]);
        assert(crate::order::comes_before(fall, p[q[i]], p[q[j]]));
    }
}

// ---------------------------------------------------------------------------
// Business
// ---------------------------------------------------------------------------

/// The largest number of transactions that a business view reads.
pub const BUSINESS_ROWS: i64 = 1_000_000;

/// Whether a transaction is one of a business before the end of a window.
pub open spec fn is_of(t: Transaction, id: BusinessId, until: i64) -> bool {
    t.business_id == Some(id) && t.posted_at < until
}

/// The inflows (or the outflows) of a business among some rows.
pub open spec fn flow_of(rows: Seq<Transaction>, id: BusinessId, until: i64, inflow: bool) -> Cents
    decreases rows.len(),
{
    if rows.len() == 0 {
        Cents(0)
    } else {
        let t = rows.last();
        let rest = flow_of(rows.drop_last(), id, until, inflow);
        if is_of(t, id, until) && (t.amount_cents.0 >= 0) == inflow {
            sat_add(rest, t.amount_cents)
        } else {
            rest
        }
    }
}

fn split_flow(rows: &Vec<Transaction>, id: BusinessId, until: i64) -> (r: (Cents, Cents))
    ensures
        r.0 == flow_of(rows@, id, until, true),
        r.1 == flow_of(rows@, id, until, false),
{
    let mut income: Cents = Cents(0);
    let mut expenses: Cents = Cents(0);
    let mut i: usize = 0;
    while i < rows.len()
        invariant
            i <= rows.len(),
            income == flow_of(rows@.take(i as int), id, until, true),
            expenses == flow_of(rows@.take(i as int), id, until, false),
        decreases rows.len() - i,
    {
        assert(rows@.take(i + 1).drop_last() == rows@.take(i as int));
        let t: &Transaction = &rows[i];
        let ours: bool = match t.business_id {
            Some(b) => b.0 == id.0,
            None => false,
        };
        if ours && t.posted_at < until {
            if t.amount_cents.0 >= 0 {
                income = income + t.amount_cents;
            } else {
                expenses = expenses + t.amount_cents;
            }
        }
        i = i + 1;
    }
    assert(rows@.take(rows@.len() as int) == rows@);
    (income, expenses)
}

/// The net of a business in a half-open window: a transaction at its very end belongs to the
/// next period and does not count, as it does not count as income or expense.
pub open spec fn net_of(txns: Seq<Transaction>, id: BusinessId, w: (i64, i64)) -> Option<i64> {
    total(
        crate::ledger::amounts(
            txns,
            |t: Transaction| t.business_id == Some(id) && crate::ledger::within(t.posted_at, w.0, w.1),
        ),
    )
}

/// The business view, or why there is none: no such business, or a sum that leaves 64 bits.
pub open spec fn is_business(
    r: Result<BusinessSnapshot>,
    t: Tables,
    tag: Seq<char>,
    scope: Scope,
    w: (i64, i64),
) -> bool {
    let k = crate::db::business_slot(t.businesses@, tag);
    if k == t.businesses@.len() {
        r is Err && r->Err_0 is NotFound && r->Err_0->NotFound_0@ == crate::db::no_business(tag)
    } else {
        let b = t.businesses@[k];
        let rows = crate::ledger::listed(t.transactions@, Some(w.0), None, BUSINESS_ROWS);
        match net_of(t.transactions@, b.id, w) {
            None => r is Err && r->Err_0 is Sql && r->Err_0->Sql_0@ == "integer overflow"@,
            Some(net) => r is Ok && ({
                let x = r->Ok_0;
                &&& x.tag == b.tag
                &&& x.display_name == b.display_name
                &&& x.scope == scope
                &&& x.income == flow_of(rows, b.id, w.1, true)
                &&& x.expenses == flow_of(rows, b.id, w.1, false)
                &&& x.net == Cents(net)
            }),
        }
    }
}

/// Income, expenses and net of a business in the half-open window of a scope.
pub fn business(t: &Tables, tag: &str, scope: Scope, now: i64) -> (r: Result<BusinessSnapshot>)
    requires
        crate::time::valid_instant(now),
    ensures
        is_business(r, *t, tag@, scope, crate::debt::scope_window(now, scope)),
{
    let b: &Business = match business_by_tag(&t.businesses, tag) {
        Ok(b) => b,
        Err(e) => {
            return Err(e);
        },
    };
    let (since, until): (i64, i64) = scope_bounds_at(now, scope);
    // The window of a profit and loss is closed: its last second is the one before the end.
    let last: i64 = until - 1;
    proof {
        let p = |x: Transaction| crate::ledger::of_business(x, b.id, since, last);
        let q = |x: Transaction|
            x.business_id == Some(b.id) && crate::ledger::within(x.posted_at, since, until);
        crate::order::lemma_kept_same(t.transactions@, p, q);
    }
    let net: Cents = match business_pnl(&t.transactions, b.id, since, last) {
        Ok(c) => c,
        Err(e) => {
            return Err(e);
        },
    };
    let rows: Vec<Transaction> = list_transactions(&t.transactions, Some(since), None, BUSINESS_ROWS);
    let (income, expenses): (Cents, Cents) = split_flow(&rows, b.id, until);
    Ok(
        BusinessSnapshot {
            tag: b.tag.clone(),
            display_name: b.display_name.clone(),
            scope,
            income,
            expenses,
            net,
        },
    )
}

// ---------------------------------------------------------------------------
// Portfolio and debts
// ---------------------------------------------------------------------------

/// The portfolio view of some balances.
pub open spec fn is_pp(r: PpSnapshot, t: Tables, balances: Seq<(AccountId, Cents)>) -> bool {
    let accounts = active_accounts(t.accounts@);
    let a = crate::report::tier2(balances, accounts);
    &&& are_latest(balances, t.snapshots@)
    &&& crate::pp::is_drift(r.rows@, a)
    &&& r.total == a.total
    &&& r.backbone == crate::report::tier1(balances, accounts)
    &&& r.band_breach == crate::pp::has_breach(r.rows@)
}

/// The portfolio view of the latest balances.
pub open spec fn is_pp_view(r: PpSnapshot, t: Tables) -> bool {
    exists|balances: Seq<(AccountId, Cents)>| #[trigger] is_pp(r, t, balances)
}

/// Drift of the tier-2 allocation, with the tier-1 backbone.
pub fn portfolio(t: &Tables) -> (r: PpSnapshot)
    requires
        t.well_formed(),
    ensures
        is_pp_view(r, *t),
{
    let accounts: Vec<Account> = list_active_accounts(&t.accounts);
    let balances: Vec<(AccountId, Cents)> = latest_balances(&t.snapshots);
    let alloc: Allocation = allocation(&balances, &accounts);
    let rows: Vec<DriftRow> = drift(&alloc);
    let band_breach: bool = any_band_breach(rows.as_slice());
    let bb: Backbone = backbone(&balances, &accounts);
    let r = PpSnapshot { rows, total: alloc.total, backbone: bb, band_breach };
    assert(is_pp(r, *t, balances@));
    r
}

/// The debt view of some balances.
pub open spec fn is_debts(
    r: DebtSnapshot,
    t: Tables,
    scope: Scope,
    now: i64,
    balances: Seq<(AccountId, Cents)>,
) -> bool {
    let w = crate::debt::scope_window(now, scope);
    &&& are_latest(balances, t.snapshots@)
    &&& r.scope == scope
    &&& crate::ledger::are_open_debts(r.open_balances@, active_accounts(t.accounts@), balances)
    &&& r.total_open == crate::debt::owed(r.open_balances@)
    &&& r.scheduled@ == crate::ledger::debt_payments(
        t.accounts@,
        crate::ledger::due_expenses(t.planned@, w.0, w.1),
    )
    &&& r.fixed@ == crate::debt::upcoming_obligations(
        crate::ledger::active_subscriptions(t.subscriptions@),
        now,
    )
}

/// The debt view of the latest balances.
pub open spec fn is_debt_view(r: DebtSnapshot, t: Tables, scope: Scope, now: i64) -> bool {
    exists|balances: Seq<(AccountId, Cents)>| #[trigger] is_debts(r, t, scope, now, balances)
}

/// Whether an instant is far enough from the end of the calendar to project charges.
pub open spec fn can_project(now: i64) -> bool {
    now <= crate::time::MAX_INSTANT - 1_209_600
}

/// Open debts and their payments in the window of a scope, with the declared obligations.
pub fn debts(t: &Tables, scope: Scope, now: i64) -> (r: DebtSnapshot)
    requires
        t.well_formed(),
        crate::time::valid_instant(now),
        can_project(now),
    ensures
        is_debt_view(r, *t, scope, now),
{
    let accounts: Vec<Account> = list_active_accounts(&t.accounts);
    let balances: Vec<(AccountId, Cents)> = latest_balances(&t.snapshots);
    let (since, until): (i64, i64) = scope_bounds_at(now, scope);
    let v: DebtView = debt_view(
        open_debts(&accounts, &balances),
        scheduled_payments(&t.accounts, &t.planned, since, until),
    );
    proof {
        crate::debt::lemma_records_fit(
            crate::ledger::active_subscriptions(t.subscriptions@),
            now,
        );
    }
    let fixed: Vec<DebtScheduled> = obligations_at(&t.subscriptions, now);
    let r = DebtSnapshot {
        scope,
        open_balances: v.open,
        scheduled: v.scheduled,
        fixed,
        total_open: v.total_open,
    };
    assert(is_debts(r, *t, scope, now, balances@));
    r
}

// ---------------------------------------------------------------------------
// Transactions and recurring series
// ---------------------------------------------------------------------------

pub open spec fn has_account_id(a: Account, id: AccountId) -> bool {
    a.id == Some(id)
}

/// What is shown for an account: its name, or its number where it is not active.
pub open spec fn account_label(accounts: Seq<Account>, id: AccountId) -> Seq<char> {
    let k = crate::order::first_index(accounts, |a: Account| has_account_id(a, id));
    if k < accounts.len() {
        accounts[k].name@
    } else {
        "#"@ + dec_int(id.0 as int)
    }
}

fn name_for(accounts: &Vec<Account>, id: AccountId) -> (r: String)
    ensures
        r@ == account_label(accounts@, id),
{
    let ghost p = |a: Account| has_account_id(a, id);
    let mut i: usize = 0;
    while i < accounts.len()
        invariant
            i <= accounts.len(),
            p == (|a: Account| has_account_id(a, id)),
            forall|j: int| 0 <= j < i ==> !p(#[trigger] accounts@[j]),
        decreases accounts.len() - i,
    {
        let same: bool = match accounts[i].id {
            Some(x) => x.0 == id.0,
            None => false,
        };
        if same {
            proof {
                crate::order::lemma_first_index(accounts@, p, i as int);
            }
            return accounts[i].name.clone();
        }
        i = i + 1;
    }
    proof {
        crate::order::lemma_first_index(accounts@, p, i as int);
    }
    "#".to_owned().concat(int_string(id.0).as_str())
}

/// The row of a transaction.
pub open spec fn is_tx_row(r: TxRow, t: Transaction, accounts: Seq<Account>) -> bool {
    &&& r.id == match t.id {
        Some(i) => i.0,
        None => 0,
    }
    &&& r.posted_at == t.posted_at
    &&& r.account@ == account_label(accounts, t.account_id)
    &&& r.amount == t.amount_cents
    &&& r.description == t.description
    &&& r.category == t.category
    &&& r.tag == t.tag
}

/// A page of transactions.
pub open spec fn is_tx_page(
    page: TxListPage,
    t: Tables,
    since: Option<i64>,
    tag: Option<Seq<char>>,
    limit: i64,
) -> bool {
    let rows = crate::ledger::listed(t.transactions@, since, tag, limit);
    &&& page.rows@.len() == rows.len()
    &&& forall|i: int|
        0 <= i < rows.len() ==> is_tx_row(
            #[trigger] page.rows@[i],
            rows[i],
            active_accounts(t.accounts@),
        )
}

/// The transactions from an instant on and with a tag, the newest first.
pub fn tx_list(t: &Tables, since: Option<i64>, tag: Option<&str>, limit: i64) -> (r: TxListPage)
    requires
        t.well_formed(),
    ensures
        is_tx_page(
            r,
            *t,
            since,
            match tag {
                Some(s) => Some(s@),
                None => None,
            },
            limit,
        ),
{
    let rows: Vec<Transaction> = list_transactions(&t.transactions, since, tag, limit);
    let accounts: Vec<Account> = list_active_accounts(&t.accounts);
    let mut out: Vec<TxRow> = Vec::new();
    let mut i: usize = 0;
    while i < rows.len()
        invariant
            i <= rows.len(),
            out@.len() == i,
            forall|k: int| 0 <= k < i ==> is_tx_row(#[trigger] out@[k], rows@[k], accounts@),
        decreases rows.len() - i,
    {
        let x: &Transaction = &rows[i];
        out.push(
            TxRow {
                id: match x.id {
                    Some(n) => n.0,
                    None => 0,
                },
                posted_at: x.posted_at,
                account: name_for(&accounts, x.account_id),
                amount: x.amount_cents,
                description: clone_opt(&x.description),
                category: clone_opt(&x.category),
                tag: clone_opt(&x.tag),
            },
        );
        i = i + 1;
    }
    TxListPage { rows: out }
}

/// The transactions from an instant on.
pub open spec fn rows_since(rows: Seq<Transaction>, since: Option<i64>) -> Seq<Transaction> {
    kept(rows, |t: Transaction| since is Some ==> t.posted_at >= since->0)
}

fn take_since(rows: &Vec<Transaction>, since: Option<i64>) -> (r: Vec<Transaction>)
    ensures
        r@ == rows_since(rows@, since),
{
    let ghost p = |t: Transaction| since is Some ==> t.posted_at >= since->0;
    let mut out: Vec<Transaction> = Vec::new();
    let mut i: usize = 0;
    while i < rows.len()
        invariant
            i <= rows.len(),
            p == (|t: Transaction| since is Some ==> t.posted_at >= since->0),
            out@ == kept(rows@.take(i as int), p),
        decreases rows.len() - i,
    {
        assert(rows@.take(i + 1).drop_last() == rows@.take(i as int));
        let wanted: bool = match since {
            Some(s) => rows[i].posted_at >= s,
            None => true,
        };
        if wanted {
            out.push(rows[i].clone());
        }
        i = i + 1;
    }
    assert(rows@.take(rows@.len() as int) == rows@);
    out
}

/// The recurring page: the series that are not ignored, and the ignored ones on request.
pub open spec fn is_recurring_page(
    page: RecurringPage,
    t: Tables,
    since: Option<i64>,
    min: nat,
    include_ignored: bool,
) -> bool {
    let rows = rows_since(t.transactions@, since);
    let labels = crate::db::active_labels(t.labels@);
    &&& crate::recurring::is_listing(page.series@, rows, labels, min, false)
    &&& if include_ignored {
        crate::recurring::is_listing(page.ignored@, rows, labels, min, true)
    } else {
        page.ignored@.len() == 0
    }
}

/// The detected recurring series with the operator's labels.
pub fn recurring_list(t: &Tables, since: Option<i64>, min: usize, include_ignored: bool) -> (r:
    RecurringPage)
    requires
        crate::recurring::rows_in_range(rows_since(t.transactions@, since), min as nat),
    ensures
        is_recurring_page(r, *t, since, min as nat, include_ignored),
{
    let rows: Vec<Transaction> = take_since(&t.transactions, since);
    let labels: Vec<RecurringLabel> = recurring_labels(&t.labels);
    let series: Vec<LabeledSeries> = labeled_series(&rows, &labels, min);
    let ignored: Vec<LabeledSeries> = if include_ignored {
        ignored_series(&rows, &labels, min)
    } else {
        Vec::new()
    };
    RecurringPage { series, ignored }
}

// ---------------------------------------------------------------------------
// Charts and categories
// ---------------------------------------------------------------------------

/// The month that is a number of months before a month.
pub open spec fn earlier_month(year: int, month: int, months: int) -> (int, int) {
    let n = 12 * year + month - 1 - months;
    (n / 12, n % 12 + 1)
}

/// The window of the last months up to now, the current one among them.
pub open spec fn months_back(now: i64, months: u32) -> (i64, i64) {
    let (y, m) = earlier_month(
        crate::time::utc_fields(now).0 as int,
        crate::time::utc_fields(now).1 as int,
        months - 1,
    );
    (
        match crate::time::utc_midnight(y as i32, m as u32, 1) {
            Some(s) => s,
            None => 0,
        },
        now,
    )
}

/// The window of the last months up to now: it begins on the first of a month and holds the
/// current, unfinished month.
pub fn months_back_bounds(months: u32, now: i64) -> (r: (i64, i64))
    requires
        1 <= months <= 60,
        crate::time::valid_instant(now),
    ensures
        r == months_back(now, months),
{
    let c: Clock = match utc_clock(now) {
        Some(c) => c,
        None => {
            return (0, now);
        },
    };
    let mut year: i32 = c.year;
    let mut month: i32 = c.month as i32 - (months as i32 - 1);
    while month <= 0
        invariant
            -58 <= month <= 12,
            1 <= months <= 60,
            1 <= c.month <= 12,
            -262143 <= c.year <= 262142,
            12 * year + month == 12 * c.year + c.month - (months - 1),
        decreases 12 - month,
    {
        month = month + 12;
        year = year - 1;
    }
    proof {
        let n = 12 * c.year + c.month - 1 - (months - 1);
        assert(n == 12 * year + (month - 1));
        assert(n / 12 == year && n % 12 == month - 1);
    }
    let since: i64 = match midnight_utc(year, month as u32, 1) {
        Some(s) => s,
        None => 0,
    };
    (since, now)
}

/// The points of the net-worth series.
pub open spec fn are_points(out: Seq<TimePoint>, s: Seq<(i64, int)>) -> bool {
    &&& out.len() == s.len()
    &&& forall|i: int|
        0 <= i < out.len() ==> (#[trigger] out[i]).at_secs == s[i].0 && out[i].amount.0 == s[i].1
}

/// The flow of one month.
pub open spec fn is_month_flow(f: MonthFlow, x: (String, Cents, Cents)) -> bool {
    f.label == x.0 && f.income == x.1 && f.expenses == x.2 && f.net == sat_add(x.1, x.2)
}

/// The flows of the months.
pub open spec fn are_month_flows(out: Seq<MonthFlow>, xs: Seq<(String, Cents, Cents)>) -> bool {
    &&& out.len() == xs.len()
    &&& forall|i: int| 0 <= i < out.len() ==> is_month_flow(#[trigger] out[i], xs[i])
}

/// The charts of a cash-flow query, or its error.
pub open spec fn is_charts(
    r: Result<ChartsSnapshot>,
    t: Tables,
    flows: Result<Vec<(String, Cents, Cents)>>,
    now: i64,
    months: u32,
) -> bool {
    let w = months_back(now, months);
    &&& crate::ledger::is_flow_outcome(flows, t.transactions@, w.0, w.1)
    &&& match (r, flows) {
        (Ok(c), Ok(xs)) => are_points(
            c.net_worth@,
            crate::ledger::series(t.accounts@, t.snapshots@, None),
        ) && are_month_flows(c.cash_flow@, xs@),
        (Err(a), Err(b)) => a == b,
        _ => false,
    }
}

/// The charts view, or the error of its cash-flow query.
pub open spec fn is_charts_view(r: Result<ChartsSnapshot>, t: Tables, now: i64, months: u32) -> bool {
    exists|flows: Result<Vec<(String, Cents, Cents)>>| #[trigger]
        is_charts(r, t, flows, now, months)
}

/// Net worth over time and the cash flow of the last months.
pub fn charts(t: &Tables, months: u32, now: i64) -> (r: Result<ChartsSnapshot>)
    requires
        1 <= months <= 60,
        crate::time::valid_instant(now),
        crate::ledger::series_fits(t.accounts@, t.snapshots@),
        t.well_formed(),
    ensures
        is_charts_view(r, *t, now, months),
{
    let series: Vec<(i64, Cents)> = networth_series(&t.accounts, &t.snapshots, None);
    let ghost whole = crate::ledger::series(t.accounts@, t.snapshots@, None);
    assert(series@.map_values(|p: (i64, Cents)| (p.0, p.1.0 as int)) == whole);
    let mut net_worth: Vec<TimePoint> = Vec::new();
    let mut i: usize = 0;
    while i < series.len()
        invariant
            i <= series.len(),
            series@.map_values(|p: (i64, Cents)| (p.0, p.1.0 as int)) == whole,
            net_worth@.len() == i,
            forall|k: int|
                0 <= k < i ==> (#[trigger] net_worth@[k]).at_secs == whole[k].0
                    && net_worth@[k].amount.0 == whole[k].1,
        decreases series.len() - i,
    {
        assert(series@.map_values(|p: (i64, Cents)| (p.0, p.1.0 as int))[i as int] == (
            series@[i as int].0,
            series@[i as int].1.0 as int,
        ));
        net_worth.push(TimePoint { at_secs: series[i].0, amount: series[i].1 });
        i = i + 1;
    }
    let (since, until): (i64, i64) = months_back_bounds(months, now);
    let flows: Result<Vec<(String, Cents, Cents)>> = cash_flow_monthly(
        &t.transactions,
        since,
        until,
    );
    let ghost outcome = flows;
    match flows {
        Ok(xs) => {
            let mut cash_flow: Vec<MonthFlow> = Vec::new();
            let mut k: usize = 0;
            while k < xs.len()
                invariant
                    k <= xs.len(),
                    cash_flow@.len() == k,
                    forall|j: int| 0 <= j < k ==> is_month_flow(#[trigger] cash_flow@[j], xs@[j]),
                decreases xs.len() - k,
            {
                cash_flow.push(
                    MonthFlow {
                        label: xs[k].0.clone(),
                        income: xs[k].1,
                        expenses: xs[k].2,
                        net: xs[k].1 + xs[k].2,
                    },
                );
                k = k + 1;
            }
            let r: Result<ChartsSnapshot> = Ok(ChartsSnapshot { net_worth, cash_flow });
            assert(is_charts(r, *t, outcome, now, months));
            r
        },
        Err(e) => {
            let r: Result<ChartsSnapshot> = Err(e);
            assert(is_charts(r, *t, outcome, now, months));
            r
        },
    }
}

/// The amounts of some categories.
pub open spec fn spent(xs: Seq<(String, Cents)>) -> Seq<Cents> {
    xs.map_values(|x: (String, Cents)| x.1)
}

/// The rows of some categories.
pub open spec fn are_category_rows(out: Seq<CategorySpend>, xs: Seq<(String, Cents)>) -> bool {
    &&& out.len() == xs.len()
    &&& forall|i: int|
        0 <= i < out.len() ==> (#[trigger] out[i]).category == xs[i].0 && out[i].amount == xs[i].1
}

/// The categories view of a spending query, or its error.
pub open spec fn is_categories(
    r: Result<CategoriesSnapshot>,
    t: Tables,
    spending: Result<Vec<(String, Cents)>>,
    scope: Scope,
    limit: i64,
    now: i64,
) -> bool {
    let w = crate::debt::scope_window(now, scope);
    &&& crate::ledger::is_spending_outcome(spending, t.transactions@, w.0, w.1, limit)
    &&& match (r, spending) {
        (Ok(c), Ok(xs)) => c.scope == scope && c.since == w.0 && c.until == w.1
            && are_category_rows(c.rows@, xs@) && c.total == crate::money::sum_of(spent(xs@)),
        (Err(a), Err(b)) => a == b,
        _ => false,
    }
}

/// The categories view, or the error of its spending query.
pub open spec fn is_categories_view(
    r: Result<CategoriesSnapshot>,
    t: Tables,
    scope: Scope,
    limit: i64,
    now: i64,
) -> bool {
    exists|spending: Result<Vec<(String, Cents)>>| #[trigger]
        is_categories(r, t, spending, scope, limit, now)
}

/// Spending by category in the window of a scope, the most spent first.
pub fn categories(t: &Tables, scope: Scope, limit: i64, now: i64) -> (r: Result<CategoriesSnapshot>)
    requires
        crate::time::valid_instant(now),
    ensures
        is_categories_view(r, *t, scope, limit, now),
{
    let (since, until): (i64, i64) = scope_bounds_at(now, scope);
    let spending: Result<Vec<(String, Cents)>> = expenses_by_category(
        &t.transactions,
        since,
        until,
        limit,
    );
    let ghost outcome = spending;
    match spending {
        Ok(xs) => {
            let mut rows: Vec<CategorySpend> = Vec::new();
            let mut amounts: Vec<Cents> = Vec::new();
            let mut i: usize = 0;
            while i < xs.len()
                invariant
                    i <= xs.len(),
                    rows@.len() == i,
                    amounts@.len() == i,
                    forall|k: int|
                        0 <= k < i ==> (#[trigger] rows@[k]).category == xs@[k].0 && rows@[k].amount
                            == xs@[k].1,
                    forall|k: int| 0 <= k < i ==> #[trigger] amounts@[k] == xs@[k].1,
                decreases xs.len() - i,
            {
                rows.push(CategorySpend { category: xs[i].0.clone(), amount: xs[i].1 });
                amounts.push(xs[i].1);
                i = i + 1;
            }
            assert(amounts@ =~= spent(xs@));
            let total: Cents = Cents::sum(amounts.as_slice());
            let r: Result<CategoriesSnapshot> = Ok(
                CategoriesSnapshot { scope, since, until, rows, total },
            );
            assert(is_categories(r, *t, outcome, scope, limit, now));
            r
        },
        Err(e) => {
            let r: Result<CategoriesSnapshot> = Err(e);
            assert(is_categories(r, *t, outcome, scope, limit, now));
            r
        },
    }
}

// ---------------------------------------------------------------------------
// Health and alerts
// ---------------------------------------------------------------------------

/// The status of one provider.
pub open spec fn is_status(s: ProviderStatus, p: ProviderRow) -> bool {
    s.kind == p.kind && s.label == p.label && s.last_poll_at == p.last_poll_at && s.last_status
        == p.last_status
}

/// The health view.
pub open spec fn is_health(h: HealthInfo, t: Tables, version: Seq<char>, uptime_secs: i64) -> bool {
    &&& h.version@ == version
    &&& h.uptime_secs == uptime_secs
    &&& h.providers@.len() == t.providers@.len()
    &&& forall|i: int|
        0 <= i < h.providers@.len() ==> is_status(#[trigger] h.providers@[i], t.providers@[i])
}

/// Version, uptime, and the last poll of each provider.
pub fn health(t: &Tables, version: &str, uptime_secs: i64) -> (r: HealthInfo)
    ensures
        is_health(r, *t, version@, uptime_secs),
{
    let mut providers: Vec<ProviderStatus> = Vec::new();
    let mut i: usize = 0;
    while i < t.providers.len()
        invariant
            i <= t.providers.len(),
            providers@.len() == i,
            forall|k: int| 0 <= k < i ==> is_status(#[trigger] providers@[k], t.providers@[k]),
        decreases t.providers.len() - i,
    {
        let p: &ProviderRow = &t.providers[i];
        providers.push(
            ProviderStatus {
                kind: p.kind.clone(),
                label: p.label.clone(),
                last_poll_at: p.last_poll_at,
                last_status: clone_opt(&p.last_status),
            },
        );
        i = i + 1;
    }
    HealthInfo { version: version.to_owned(), uptime_secs, providers }
}

/// The kind that a rule's text names.
pub open spec fn named_kind(rule_json: Seq<char>) -> Option<Seq<char>> {
    crate::alerts::kind_in(crate::json::document(rule_json))
}

/// The row of a firing.
pub open spec fn is_alert_row(r: AlertRow, h: AlertHistoryRow, reading: AlertReading) -> bool {
    &&& r.id == h.id
    &&& r.rule_name == h.rule_name
    &&& opt_text(r.rule_kind) == named_kind(h.rule_json@)
    &&& r.fired_at == h.fired_at
    &&& r.delivered == h.delivered
    &&& r.summary@ == crate::alerts::summary(
        crate::alerts::shape_of(named_kind(h.rule_json@)),
        h.payload_json@,
        reading,
    )
}

/// The row of an armed rule.
pub open spec fn is_rule_row(r: AlertRuleRow, rule: AlertRule) -> bool {
    &&& r.name == rule.name
    &&& opt_text(r.kind) == named_kind(rule.rule_json@)
    &&& r.channel == rule.channel
}

/// The alerts view: the recent firings with their summaries, and the armed rules.
pub open spec fn is_alerts_page(
    page: AlertsPage,
    t: Tables,
    readings: Seq<AlertReading>,
    limit: i64,
    include_delivered: bool,
) -> bool {
    let rows = crate::ledger::recent_firings(t.history@, limit, include_delivered);
    let rules = kept(t.rules@, |x: AlertRule| x.active);
    &&& page.rows@.len() == rows.len()
    &&& forall|i: int|
        0 <= i < rows.len() ==> is_alert_row(#[trigger] page.rows@[i], rows[i], readings[i])
    &&& page.rules@.len() == rules.len()
    &&& forall|i: int| 0 <= i < rules.len() ==> is_rule_row(#[trigger] page.rules@[i], rules[i])
}

/// The recent firings with their summaries, and the armed rules. The readings are those of
/// the payloads of the recent firings, in their order.
pub fn alert_pending(
    t: &Tables,
    readings: &Vec<AlertReading>,
    limit: i64,
    include_delivered: bool,
) -> (r: AlertsPage)
    requires
        readings@.len() == crate::ledger::recent_firings(
            t.history@,
            limit,
            include_delivered,
        ).len(),
    ensures
        is_alerts_page(r, *t, readings@, limit, include_delivered),
{
    let recent: Vec<AlertHistoryRow> = list_recent_alerts(&t.history, limit, include_delivered);
    let mut rows: Vec<AlertRow> = Vec::new();
    let mut i: usize = 0;
    while i < recent.len()
        invariant
            i <= recent.len(),
            recent@.len() == readings@.len(),
            rows@.len() == i,
            forall|k: int|
                0 <= k < i ==> is_alert_row(#[trigger] rows@[k], recent@[k], readings@[k]),
        decreases recent.len() - i,
    {
        let h: &AlertHistoryRow = &recent[i];
        let kind: Option<String> = rule_kind(h.rule_json.as_str());
        let summary: String = summarize_alert(
            match &kind {
                Some(k) => Some(k.as_str()),
                None => None,
            },
            h.payload_json.as_str(),
            &readings[i],
        );
        rows.push(
            AlertRow {
                id: h.id,
                rule_name: h.rule_name.clone(),
                rule_kind: kind,
                fired_at: h.fired_at,
                delivered: h.delivered,
                summary,
            },
        );
        i = i + 1;
    }
    let armed: Vec<AlertRule> = list_active_alert_rules(&t.rules);
    let mut rules: Vec<AlertRuleRow> = Vec::new();
    let mut j: usize = 0;
    while j < armed.len()
        invariant
            j <= armed.len(),
            rules@.len() == j,
            forall|k: int| 0 <= k < j ==> is_rule_row(#[trigger] rules@[k], armed@[k]),
        decreases armed.len() - j,
    {
        let x: &AlertRule = &armed[j];
        rules.push(
            AlertRuleRow {
                name: x.name.clone(),
                kind: rule_kind(x.rule_json.as_str()),
                channel: x.channel.clone(),
            },
        );
        j = j + 1;
    }
    AlertsPage { rows, rules }
}

// ---------------------------------------------------------------------------
// Writes
// ---------------------------------------------------------------------------

/// The request was refused: nothing was written.
pub open spec fn is_refusal(r: Result<Response>, code: Seq<char>, msg: Seq<char>) -> bool {
    r is Ok && r->Ok_0 is Error && r->Ok_0->Error_0.code@ == code && r->Ok_0->Error_0.msg@ == msg
}

/// The request was carried out.
pub open spec fn is_ack(r: Result<Response>) -> bool {
    r is Ok && r->Ok_0 is Ack
}

fn refuse(code: &str, msg: String) -> (r: Result<Response>)
    ensures
        is_refusal(r, code@, msg@),
{
    Ok(Response::Error(RpcError { code: code.to_owned(), msg }))
}

/// Whether a tag is given that no business has.
pub open spec fn tag_unknown(t: Tables, tag: Option<String>) -> bool {
    tag is Some && crate::db::business_slot(t.businesses@, tag->0@) == t.businesses@.len()
}

/// The complaint about a tag that no business has.
pub open spec fn is_tag_error(e: CoreError, tag: Option<String>) -> bool {
    e is NotFound && e->NotFound_0@ == crate::db::no_business(tag->0@)
}

/// The business that a tag names.
pub open spec fn business_id_of(t: Tables, tag: Option<String>) -> Option<BusinessId> {
    match tag {
        Some(x) => Some(t.businesses@[crate::db::business_slot(t.businesses@, x@)].id),
        None => None,
    }
}

fn find_business_id(t: &Tables, tag: &Option<String>) -> (r: Result<Option<BusinessId>>)
    ensures
        match r {
            Ok(id) => !tag_unknown(*t, *tag) && id == business_id_of(*t, *tag),
            Err(e) => tag_unknown(*t, *tag) && is_tag_error(e, *tag),
        },
{
    match tag {
        Some(x) => match business_by_tag(&t.businesses, x.as_str()) {
            Ok(b) => Ok(Some(b.id)),
            Err(e) => Err(e),
        },
        None => Ok(None),
    }
}

pub open spec fn is_account_named(a: Account, name: Seq<char>) -> bool {
    a.name@ == name
}

/// The active account with a name.
pub open spec fn account_named(t: Tables, name: Seq<char>) -> Option<AccountId> {
    let on = active_accounts(t.accounts@);
    let k = crate::order::first_index(on, |a: Account| is_account_named(a, name));
    if k < on.len() {
        on[k].id
    } else {
        None
    }
}

/// The complaint about a name that no active account has.
pub open spec fn is_account_error(e: CoreError, name: Seq<char>) -> bool {
    e is NotFound && e->NotFound_0@ == "account name="@ + name
}

/// The active account with a name.
pub fn account_id_by_name(t: &Tables, name: &str) -> (r: Result<AccountId>)
    requires
        t.well_formed(),
    ensures
        match r {
            Ok(id) => account_named(*t, name@) == Some(id) && has_account(t.accounts@, id),
            Err(e) => account_named(*t, name@) is None && is_account_error(e, name@),
        },
{
    let on: Vec<Account> = list_active_accounts(&t.accounts);
    let ghost p = |a: Account| is_account_named(a, name@);
    let mut i: usize = 0;
    while i < on.len() && !str_eq(on[i].name.as_str(), name)
        invariant
            i <= on.len(),
            p == (|a: Account| is_account_named(a, name@)),
            forall|j: int| 0 <= j < i ==> !p(#[trigger] on@[j]),
        decreases on.len() - i,
    {
        i = i + 1;
    }
    proof {
        crate::order::lemma_first_index(on@, p, i as int);
    }
    if i < on.len() {
        match on[i].id {
            Some(id) => {
                proof {
                    lemma_listed_exist(t.accounts@, i as int);
                }
                return Ok(id);
            },
            None => {},
        }
    }
    Err(CoreError::NotFound("account name=".to_owned().concat(name)))
}

/// The account that a manual write makes.
pub open spec fn is_manual_account(
    a: Account,
    name: String,
    kind: String,
    asset_class: Option<String>,
    tier: Option<String>,
    currency: Option<String>,
    business_id: Option<BusinessId>,
) -> bool {
    &&& a.id is None
    &&& a.name == name
    &&& a.kind == kind
    &&& a.asset_class == asset_class
    &&& a.tier == tier
    &&& a.currency@ == match currency {
        Some(c) => c@,
        None => "USD"@,
    }
    &&& a.provider_id is None
    &&& a.business_id == business_id
    &&& a.external_id is None
    &&& a.active
}

/// The reply to an account write.
pub open spec fn account_written(
    r: Result<Response>,
    before: Tables,
    after: Tables,
    name: String,
    kind: String,
    asset_class: Option<String>,
    tier: Option<String>,
    currency: Option<String>,
    business_tag: Option<String>,
    fresh: i64,
) -> bool {
    if tag_unknown(before, business_tag) {
        after == before && r is Err && is_tag_error(r->Err_0, business_tag)
    } else {
        &&& is_ack(r)
        &&& after == (Tables { accounts: after.accounts, ..before })
        &&& exists|a: Account| #[trigger]
            is_manual_account(
                a,
                name,
                kind,
                asset_class,
                tier,
                currency,
                business_id_of(before, business_tag),
            ) && after.accounts@ == crate::db::accounts_after(before.accounts@, a, AccountId(fresh))
    }
}

fn write_account(
    t: &mut Tables,
    name: String,
    account_kind: String,
    asset_class: Option<String>,
    tier: Option<String>,
    currency: Option<String>,
    business_tag: Option<String>,
    fresh: i64,
) -> (r: Result<Response>)
    ensures
        account_written(
            r,
            *old(t),
            *final(t),
            name,
            account_kind,
            asset_class,
            tier,
            currency,
            business_tag,
            fresh,
        ),
{
    let business_id: Option<BusinessId> = match find_business_id(t, &business_tag) {
        Ok(id) => id,
        Err(e) => {
            return Err(e);
        },
    };
    let ghost given = currency;
    let a = Account {
        id: None,
        name,
        kind: account_kind,
        asset_class,
        tier,
        currency: match currency {
            Some(c) => c,
            None => "USD".to_owned(),
        },
        provider_id: None,
        business_id,
        external_id: None,
        active: true,
    };
    assert(is_manual_account(
        a,
        a.name,
        a.kind,
        a.asset_class,
        a.tier,
        given,
        business_id_of(*old(t), business_tag),
    ));
    upsert_account(&mut t.accounts, &a, AccountId(fresh));
    Ok(Response::Ack)
}

/// The transaction that a manual write makes.
pub open spec fn is_manual_transaction(
    x: Transaction,
    account_id: AccountId,
    posted_at: i64,
    amount: i64,
    description: Option<String>,
    tag: Option<String>,
    business_id: Option<BusinessId>,
    external_id: Option<String>,
) -> bool {
    &&& x.id is None
    &&& x.account_id == account_id
    &&& x.posted_at == posted_at
    &&& x.amount_cents == Cents(amount)
    &&& x.currency@ == "USD"@
    &&& x.description == description
    &&& x.category is None
    &&& x.tag == tag
    &&& x.business_id == business_id
    &&& x.external_id == external_id
    &&& x.source@ == "manual"@
}

/// The amount that a text spells.
pub open spec fn amount_of(text: Seq<char>) -> Option<i64> {
    crate::money::dollars(crate::text::trimmed(text))
}

/// The complaint about a text that spells no amount.
pub open spec fn is_amount_error(e: CoreError, text: Seq<char>) -> bool {
    e is InvalidMoney && e->InvalidMoney_0@ == crate::text::trimmed(text)
}

/// The reply to a transaction write. The account is looked up first, then the business,
/// then the amount is read.
pub open spec fn transaction_written(
    r: Result<Response>,
    before: Tables,
    after: Tables,
    account_name: String,
    posted_at: i64,
    amount: String,
    description: Option<String>,
    tag: Option<String>,
    business_tag: Option<String>,
    external_id: Option<String>,
    fresh: i64,
) -> bool {
    let account = account_named(before, account_name@);
    if account is None {
        after == before && r is Err && is_account_error(r->Err_0, account_name@)
    } else if tag_unknown(before, business_tag) {
        after == before && r is Err && is_tag_error(r->Err_0, business_tag)
    } else if amount_of(amount@) is None {
        after == before && r is Err && is_amount_error(r->Err_0, amount@)
    } else {
        &&& is_ack(r)
        &&& after == (Tables { transactions: after.transactions, ..before })
        &&& exists|x: Transaction| #[trigger]
            is_manual_transaction(
                x,
                account->0,
                posted_at,
                amount_of(amount@)->0,
                description,
                tag,
                business_id_of(before, business_tag),
                external_id,
            ) && after.transactions@ == crate::db::transactions_after(
                before.transactions@,
                x,
                TransactionId(fresh),
            )
    }
}

fn write_transaction(
    t: &mut Tables,
    account_name: String,
    posted_at: i64,
    amount: String,
    description: Option<String>,
    tag: Option<String>,
    business_tag: Option<String>,
    external_id: Option<String>,
    fresh: i64,
) -> (r: Result<Response>)
    requires
        old(t).well_formed(),
    ensures
        transaction_written(
            r,
            *old(t),
            *final(t),
            account_name,
            posted_at,
            amount,
            description,
            tag,
            business_tag,
            external_id,
            fresh,
        ),
{
    let account_id: AccountId = match account_id_by_name(t, account_name.as_str()) {
        Ok(id) => id,
        Err(e) => {
            return Err(e);
        },
    };
    let business_id: Option<BusinessId> = match find_business_id(t, &business_tag) {
        Ok(id) => id,
        Err(e) => {
            return Err(e);
        },
    };
    let cents: Cents = match Cents::from_dollars_str(amount.as_str()) {
        Ok(c) => c,
        Err(e) => {
            return Err(e);
        },
    };
    let x = Transaction {
        id: None,
        account_id,
        posted_at,
        amount_cents: cents,
        currency: "USD".to_owned(),
        description,
        category: None,
        tag,
        business_id,
        external_id,
        source: "manual".to_owned(),
    };
    assert(is_manual_transaction(
        x,
        account_named(*old(t), account_name@)->0,
        posted_at,
        amount_of(amount@)->0,
        x.description,
        x.tag,
        business_id_of(*old(t), business_tag),
        x.external_id,
    ));
    match upsert_transaction(&mut t.transactions, &t.accounts, &x, TransactionId(fresh)) {
        Ok(_) => Ok(Response::Ack),
        Err(e) => Err(e),
    }
}

/// The reply to a balance write: a reading of the account, taken now.
pub open spec fn snapshot_written(
    r: Result<Response>,
    before: Tables,
    after: Tables,
    account_name: String,
    amount: String,
    now: i64,
    fresh: i64,
) -> bool {
    let account = account_named(before, account_name@);
    if account is None {
        after == before && r is Err && is_account_error(r->Err_0, account_name@)
    } else if amount_of(amount@) is None {
        after == before && r is Err && is_amount_error(r->Err_0, amount@)
    } else {
        &&& is_ack(r)
        &&& after == (Tables { snapshots: after.snapshots, ..before })
        &&& after.snapshots@ == before.snapshots@.push(
            BalanceSnapshot {
                id: fresh,
                account_id: account->0,
                taken_at: now,
                amount_cents: Cents(amount_of(amount@)->0),
            },
        )
    }
}

fn write_snapshot(t: &mut Tables, account_name: String, amount: String, now: i64, fresh: i64) -> (r:
    Result<Response>)
    requires
        old(t).well_formed(),
    ensures
        snapshot_written(r, *old(t), *final(t), account_name, amount, now, fresh),
{
    let account_id: AccountId = match account_id_by_name(t, account_name.as_str()) {
        Ok(id) => id,
        Err(e) => {
            return Err(e);
        },
    };
    let cents: Cents = match Cents::from_dollars_str(amount.as_str()) {
        Ok(c) => c,
        Err(e) => {
            return Err(e);
        },
    };
    match insert_snapshot(&mut t.snapshots, &t.accounts, account_id, cents, now, fresh) {
        Ok(_) => Ok(Response::Ack),
        Err(e) => Err(e),
    }
}

/// The text of a provider's configuration.
pub open spec fn config_of(config_json: Option<String>) -> Seq<char> {
    match config_json {
        Some(c) => c@,
        None => "{}"@,
    }
}

/// The row that a provider write makes.
pub open spec fn is_manual_provider(
    w: ProviderRow,
    kind: Seq<char>,
    label: Seq<char>,
    config: Seq<char>,
    secret_ref: Option<String>,
    poll_cadence: Option<String>,
) -> bool {
    &&& w.id == ProviderId(0)
    &&& w.kind@ == kind
    &&& w.label@ == label
    &&& w.config_json@ == config
    &&& w.secret_ref == secret_ref
    &&& w.poll_cadence@ == match poll_cadence {
        Some(c) => c@,
        None => "daily"@,
    }
    &&& w.last_poll_at is None
    &&& w.last_status is None
}

/// The reply to a provider write: of a known kind, with a JSON object as configuration.
pub open spec fn provider_written(
    r: Result<Response>,
    before: Tables,
    after: Tables,
    provider_kind: String,
    label: String,
    config_json: Option<String>,
    secret_ref: Option<String>,
    poll_cadence: Option<String>,
    fresh: i64,
) -> bool {
    if !crate::registry::is_known_kind(provider_kind@) {
        after == before && is_refusal(
            r,
            "invalid"@,
            "unknown provider kind '"@ + provider_kind@ + "'; known: "@
                + crate::registry::kind_list(),
        )
    } else {
        match crate::json::document(config_of(config_json)) {
            Err(e) => after == before && is_refusal(r, "invalid"@, "config_json parse: "@ + e),
            Ok(v) => if !(v is Object) {
                after == before && is_refusal(
                    r,
                    "invalid"@,
                    "config_json must be a JSON object"@,
                )
            } else {
                &&& is_ack(r)
                &&& after == (Tables { providers: after.providers, ..before })
                &&& exists|w: ProviderRow| #[trigger]
                    is_manual_provider(
                        w,
                        provider_kind@,
                        label@,
                        config_of(config_json),
                        secret_ref,
                        poll_cadence,
                    ) && after.providers@ == crate::db::providers_after(
                        before.providers@,
                        w,
                        ProviderId(fresh),
                    )
            },
        }
    }
}

fn write_provider(
    t: &mut Tables,
    provider_kind: String,
    label: String,
    config_json: Option<String>,
    secret_ref: Option<String>,
    poll_cadence: Option<String>,
    fresh: i64,
) -> (r: Result<Response>)
    ensures
        provider_written(
            r,
            *old(t),
            *final(t),
            provider_kind,
            label,
            config_json,
            secret_ref,
            poll_cadence,
            fresh,
        ),
{
    if !crate::registry::known_kind(provider_kind.as_str()) {
        return refuse(
            "invalid",
            "unknown provider kind '".to_owned().concat(provider_kind.as_str()).concat(
                "'; known: ",
            ).concat(crate::registry::known_kinds().as_str()),
        );
    }
    let ghost given = config_json;
    let cfg: String = match config_json {
        Some(c) => c,
        None => "{}".to_owned(),
    };
    match parse_json(cfg.as_str()) {
        Ok(v) => match v {
            Json::Object(_) => {},
            _ => {
                return refuse("invalid", "config_json must be a JSON object".to_owned());
            },
        },
        Err(e) => {
            return refuse("invalid", "config_json parse: ".to_owned().concat(e.as_str()));
        },
    }
    let ghost cadence = poll_cadence;
    let mut row: ProviderRow = ProviderRow::registry_stub(provider_kind.as_str(), label.as_str());
    row.config_json = cfg;
    row.secret_ref = secret_ref;
    row.poll_cadence = match poll_cadence {
        Some(c) => c,
        None => "daily".to_owned(),
    };
    assert(is_manual_provider(
        row,
        provider_kind@,
        label@,
        config_of(given),
        row.secret_ref,
        cadence,
    ));
    upsert_provider(&mut t.providers, &row, ProviderId(fresh));
    Ok(Response::Ack)
}

/// The reply to a business write.
pub open spec fn business_written(
    r: Result<Response>,
    before: Tables,
    after: Tables,
    tag: String,
    display_name: Option<String>,
    active: Option<bool>,
    fresh: i64,
) -> bool {
    let key = crate::text::trimmed(tag@);
    if key.len() == 0 {
        after == before && is_refusal(r, "invalid"@, "business tag must be non-empty"@)
    } else {
        &&& is_ack(r)
        &&& after == (Tables { businesses: after.businesses, ..before })
        &&& crate::db::businesses_written(
            after.businesses@,
            before.businesses@,
            key,
            opt_text(display_name),
            active,
            BusinessId(fresh),
        )
    }
}

fn write_business(
    t: &mut Tables,
    tag: String,
    display_name: Option<String>,
    active: Option<bool>,
    fresh: i64,
) -> (r: Result<Response>)
    ensures
        business_written(r, *old(t), *final(t), tag, display_name, active, fresh),
{
    let key: String = trim(tag.as_str());
    if key.as_str().unicode_len() == 0 {
        return refuse("invalid", "business tag must be non-empty".to_owned());
    }
    let name: Option<&str> = match &display_name {
        Some(n) => Some(n.as_str()),
        None => None,
    };
    upsert_business(&mut t.businesses, key.as_str(), name, active, BusinessId(fresh));
    Ok(Response::Ack)
}

/// The record that a subscription write makes.
pub open spec fn is_obligation(
    w: SubscriptionRecord,
    name: Seq<char>,
    amount: i64,
    cadence: Seq<char>,
    next_charge_at: i64,
    business_id: Option<BusinessId>,
    active: Option<bool>,
    fresh: i64,
) -> bool {
    &&& w.id == fresh
    &&& w.name@ == name
    &&& w.provider_kind@ == "recurring"@
    &&& w.amount_cents == Some(Cents(amount))
    &&& opt_text(w.cadence) == Some(cadence)
    &&& w.next_charge_at == Some(next_charge_at)
    &&& w.account_id is None
    &&& w.business_id == business_id
    &&& w.active == match active {
        Some(a) => a,
        None => true,
    }
}

/// The reply to a subscription write. An obligation is money that goes out: its amount has
/// to be negative, and is refused otherwise rather than turned round.
pub open spec fn subscription_written(
    r: Result<Response>,
    before: Tables,
    after: Tables,
    name: String,
    amount: String,
    cadence: String,
    next_charge_at: i64,
    business_tag: Option<String>,
    active: Option<bool>,
    fresh: i64,
) -> bool {
    let key = crate::text::trimmed(name@);
    let step = crate::text::trimmed(cadence@);
    if key.len() == 0 {
        after == before && is_refusal(r, "invalid"@, "subscription name must be non-empty"@)
    } else if step.len() == 0 {
        after == before && is_refusal(
            r,
            "invalid"@,
            "cadence must be non-empty (monthly|yearly|quarterly|weekly|biweekly)"@,
        )
    } else if amount_of(amount@) is None {
        after == before && r is Err && is_amount_error(r->Err_0, amount@)
    } else if amount_of(amount@)->0 >= 0 {
        after == before && is_refusal(
            r,
            "invalid"@,
            "subscription amount must be negative (an outflow); e.g. -2000"@,
        )
    } else if tag_unknown(before, business_tag) {
        after == before && r is Err && is_tag_error(r->Err_0, business_tag)
    } else {
        &&& is_ack(r)
        &&& after == (Tables { subscriptions: after.subscriptions, ..before })
        &&& exists|w: SubscriptionRecord| #[trigger]
            is_obligation(
                w,
                key,
                amount_of(amount@)->0,
                step,
                next_charge_at,
                business_id_of(before, business_tag),
                active,
                fresh,
            ) && after.subscriptions@ == crate::db::subscriptions_after(before.subscriptions@, w)
    }
}

fn write_subscription(
    t: &mut Tables,
    name: String,
    amount: String,
    cadence: String,
    next_charge_at: i64,
    business_tag: Option<String>,
    active: Option<bool>,
    fresh: i64,
) -> (r: Result<Response>)
    ensures
        subscription_written(
            r,
            *old(t),
            *final(t),
            name,
            amount,
            cadence,
            next_charge_at,
            business_tag,
            active,
            fresh,
        ),
{
    let key: String = trim(name.as_str());
    if key.as_str().unicode_len() == 0 {
        return refuse("invalid", "subscription name must be non-empty".to_owned());
    }
    let step: String = trim(cadence.as_str());
    if step.as_str().unicode_len() == 0 {
        return refuse(
            "invalid",
            "cadence must be non-empty (monthly|yearly|quarterly|weekly|biweekly)".to_owned(),
        );
    }
    let cents: Cents = match Cents::from_dollars_str(amount.as_str()) {
        Ok(c) => c,
        Err(e) => {
            return Err(e);
        },
    };
    if cents.0 >= 0 {
        return refuse(
            "invalid",
            "subscription amount must be negative (an outflow); e.g. -2000".to_owned(),
        );
    }
    let business_id: Option<BusinessId> = match find_business_id(t, &business_tag) {
        Ok(id) => id,
        Err(e) => {
            return Err(e);
        },
    };
    let ghost k = key@;
    let ghost s = step@;
    let w = SubscriptionRecord {
        id: fresh,
        name: key,
        provider_kind: "recurring".to_owned(),
        amount_cents: Some(cents),
        cadence: Some(step),
        next_charge_at: Some(next_charge_at),
        account_id: None,
        business_id,
        active: match active {
            Some(a) => a,
            None => true,
        },
    };
    assert(is_obligation(w, k, cents.0, s, next_charge_at, business_id, active, fresh));
    upsert_subscription(&mut t.subscriptions, &w);
    Ok(Response::Ack)
}

/// The records after a rename, if one is asked for.
pub open spec fn maybe_renamed(
    after: Seq<SubscriptionRecord>,
    before: Seq<SubscriptionRecord>,
    name: Seq<char>,
    new_name: Option<Seq<char>>,
) -> bool {
    match new_name {
        Some(n) => crate::db::are_renamed(after, before, name, n),
        None => after == before,
    }
}

/// The records after a change of activity, if one is asked for.
pub open spec fn maybe_switched(
    before: Seq<SubscriptionRecord>,
    name: Seq<char>,
    active: Option<bool>,
) -> Seq<SubscriptionRecord> {
    match active {
        Some(a) => crate::db::subscriptions_changed(
            before,
            name,
            |s: SubscriptionRecord| crate::db::with_active(s, a),
        ),
        None => before,
    }
}

/// How many records a subscription update changes: those renamed, and those switched under
/// their new name.
pub open spec fn records_changed(
    before: Seq<SubscriptionRecord>,
    renamed: Seq<SubscriptionRecord>,
    name: Seq<char>,
    new_name: Option<Seq<char>>,
    active: Option<bool>,
) -> nat {
    let a: nat = if new_name is Some {
        crate::db::count_named(before, name)
    } else {
        0
    };
    let effective = match new_name {
        Some(n) => n,
        None => name,
    };
    let b: nat = if active is Some {
        crate::db::count_named(renamed, effective)
    } else {
        0
    };
    a + b
}

/// The records after an update: renamed, then switched under the new name.
pub open spec fn is_subscription_update(
    r: Result<Response>,
    before: Seq<SubscriptionRecord>,
    renamed: Seq<SubscriptionRecord>,
    after: Seq<SubscriptionRecord>,
    name: Seq<char>,
    new_name: Option<Seq<char>>,
    active: Option<bool>,
) -> bool {
    let effective = match new_name {
        Some(n) => n,
        None => name,
    };
    &&& maybe_renamed(renamed, before, name, new_name)
    &&& after == maybe_switched(renamed, effective, active)
    &&& if records_changed(before, renamed, name, new_name, active) == 0 {
        is_refusal(r, "not_found"@, "no subscription named "@ + crate::text::debug_text(name))
    } else {
        is_ack(r)
    }
}

/// A new name without the white space around it.
pub open spec fn trimmed_name(new_name: Option<String>) -> Option<Seq<char>> {
    match new_name {
        Some(n) => Some(crate::text::trimmed(n@)),
        None => None,
    }
}

/// The reply to a subscription update.
pub open spec fn subscription_updated(
    r: Result<Response>,
    before: Tables,
    after: Tables,
    name: String,
    new_name: Option<String>,
    active: Option<bool>,
) -> bool {
    let key = crate::text::trimmed(name@);
    if key.len() == 0 {
        after == before && is_refusal(r, "invalid"@, "subscription name must be non-empty"@)
    } else if new_name is Some && trimmed_name(new_name)->0.len() == 0 {
        after == before && is_refusal(r, "invalid"@, "new subscription name must be non-empty"@)
    } else {
        &&& after == (Tables { subscriptions: after.subscriptions, ..before })
        &&& exists|renamed: Seq<SubscriptionRecord>| #[trigger]
            is_subscription_update(
                r,
                before.subscriptions@,
                renamed,
                after.subscriptions@,
                key,
                trimmed_name(new_name),
                active,
            )
    }
}

fn update_subscription(
    t: &mut Tables,
    name: String,
    new_name: Option<String>,
    active: Option<bool>,
) -> (r: Result<Response>)
    requires
        2 * old(t).subscriptions@.len() <= usize::MAX,
    ensures
        subscription_updated(r, *old(t), *final(t), name, new_name, active),
{
    let key: String = trim(name.as_str());
    if key.as_str().unicode_len() == 0 {
        return refuse("invalid", "subscription name must be non-empty".to_owned());
    }
    let ghost before = t.subscriptions@;
    let mut changed: usize = 0;
    let effective: String = match &new_name {
        Some(n) => {
            let nn: String = trim(n.as_str());
            if nn.as_str().unicode_len() == 0 {
                return refuse("invalid", "new subscription name must be non-empty".to_owned());
            }
            changed = rename_subscription(&mut t.subscriptions, key.as_str(), nn.as_str());
            nn
        },
        None => key.clone(),
    };
    let ghost renamed = t.subscriptions@;
    proof {
        lemma_count_bound(before, key@);
        lemma_count_bound(renamed, effective@);
    }
    match active {
        Some(a) => {
            let n: usize = set_subscription_active(&mut t.subscriptions, effective.as_str(), a);
            changed = changed + n;
        },
        None => {},
    }
    let r: Result<Response> = if changed == 0 {
        refuse(
            "not_found",
            "no subscription named ".to_owned().concat(quoted(key.as_str()).as_str()),
        )
    } else {
        Ok(Response::Ack)
    };
    assert(is_subscription_update(
        r,
        before,
        renamed,
        t.subscriptions@,
        key@,
        trimmed_name(new_name),
        active,
    ));
    r
}

proof fn lemma_count_bound(rows: Seq<SubscriptionRecord>, name: Seq<char>)
    ensures
        crate::db::count_named(rows, name) <= rows.len(),
    decreases rows.len(),
{
    if rows.len() > 0 {
        lemma_count_bound(rows.drop_last(), name);
    }
}

/// The reply to a rule write.
pub open spec fn rule_written(
    r: Result<Response>,
    before: Tables,
    after: Tables,
    name: String,
    rule_json: String,
    channel: Option<String>,
    active: Option<bool>,
    fresh: i64,
) -> bool {
    let verdict = match crate::json::document(rule_json@) {
        Ok(v) => crate::alerts::rule_verdict(v),
        Err(e) => Err("rule_json is not valid JSON: "@ + e),
    };
    match verdict {
        Err(msg) => after == before && is_refusal(r, "invalid"@, msg),
        Ok(_) => {
            &&& is_ack(r)
            &&& after == (Tables { rules: after.rules, ..before })
            &&& crate::db::rules_written(
                after.rules@,
                before.rules@,
                name@,
                rule_json@,
                match channel {
                    Some(c) => c@,
                    None => "xmpp"@,
                },
                match active {
                    Some(a) => a,
                    None => true,
                },
                fresh,
            )
        },
    }
}

fn write_rule(
    t: &mut Tables,
    name: String,
    rule_json: String,
    channel: Option<String>,
    active: Option<bool>,
    fresh: i64,
) -> (r: Result<Response>)
    ensures
        rule_written(r, *old(t), *final(t), name, rule_json, channel, active, fresh),
{
    match validate_rule_json(rule_json.as_str()) {
        Ok(_) => {},
        Err(msg) => {
            return refuse("invalid", msg);
        },
    }
    let ch: &str = match &channel {
        Some(c) => c.as_str(),
        None => "xmpp",
    };
    let on: bool = match active {
        Some(a) => a,
        None => true,
    };
    set_alert_rule(&mut t.rules, name.as_str(), rule_json.as_str(), ch, on, fresh);
    Ok(Response::Ack)
}

/// The label row that a confirmation makes.
pub open spec fn is_confirmation(
    w: StoredLabel,
    key: Seq<char>,
    label: Option<SeriesLabel>,
    display_name: Option<String>,
    business_id: Option<BusinessId>,
    active: Option<bool>,
    now: i64,
) -> bool {
    &&& w.row.match_key@ == key
    &&& opt_text(w.row.label) == match label {
        Some(l) => Some(l.word()),
        None => None,
    }
    &&& w.row.display_name == display_name
    &&& w.row.business_id == match business_id {
        Some(b) => Some(b.0),
        None => None,
    }
    &&& w.row.confirmed_at == now
    &&& w.active == match active {
        Some(a) => a,
        None => true,
    }
}

/// The label that a confirmation asks for.
pub open spec fn asked_label(label: Option<String>) -> Option<SeriesLabel> {
    match label {
        Some(l) => SeriesLabel::parsed(l@),
        None => None,
    }
}

/// The reply to a confirmation. Without a label it is a rename; with neither it is refused.
pub open spec fn label_written(
    r: Result<Response>,
    before: Tables,
    after: Tables,
    match_key: String,
    label: Option<String>,
    display_name: Option<String>,
    business_tag: Option<String>,
    active: Option<bool>,
    now: i64,
) -> bool {
    let key = crate::recurring::normalized(match_key@);
    if label is Some && asked_label(label) is None {
        after == before && is_refusal(
            r,
            "invalid"@,
            "unknown label "@ + crate::text::debug_text(label->0@)
                + "; expected sub|bill|debt|ignore"@,
        )
    } else if label is None && display_name is None {
        after == before && is_refusal(
            r,
            "invalid"@,
            "nothing to set: provide a label (sub|bill|debt|ignore) or a name"@,
        )
    } else if key.len() == 0 {
        after == before && is_refusal(r, "invalid"@, "match_key normalizes to empty"@)
    } else if tag_unknown(before, business_tag) {
        after == before && r is Err && is_tag_error(r->Err_0, business_tag)
    } else {
        &&& is_ack(r)
        &&& after == (Tables { labels: after.labels, ..before })
        &&& exists|w: StoredLabel| #[trigger]
            is_confirmation(
                w,
                key,
                asked_label(label),
                display_name,
                business_id_of(before, business_tag),
                active,
                now,
            ) && after.labels@ == crate::db::labels_after(before.labels@, w)
    }
}

fn confirm_label(
    t: &mut Tables,
    match_key: String,
    label: Option<String>,
    display_name: Option<String>,
    business_tag: Option<String>,
    active: Option<bool>,
    now: i64,
) -> (r: Result<Response>)
    ensures
        label_written(
            r,
            *old(t),
            *final(t),
            match_key,
            label,
            display_name,
            business_tag,
            active,
            now,
        ),
{
    let asked: Option<SeriesLabel> = match &label {
        Some(l) => match SeriesLabel::parse(l.as_str()) {
            Some(s) => Some(s),
            None => {
                return refuse(
                    "invalid",
                    "unknown label ".to_owned().concat(quoted(l.as_str()).as_str()).concat(
                        "; expected sub|bill|debt|ignore",
                    ),
                );
            },
        },
        None => None,
    };
    if asked.is_none() && display_name.is_none() {
        return refuse(
            "invalid",
            "nothing to set: provide a label (sub|bill|debt|ignore) or a name".to_owned(),
        );
    }
    let key: String = normalize_payee(match_key.as_str());
    if key.as_str().unicode_len() == 0 {
        return refuse("invalid", "match_key normalizes to empty".to_owned());
    }
    let business_id: Option<BusinessId> = match find_business_id(t, &business_tag) {
        Ok(id) => id,
        Err(e) => {
            return Err(e);
        },
    };
    let ghost k = key@;
    let w = StoredLabel {
        row: RecurringLabel {
            match_key: key,
            label: match asked {
                Some(l) => Some(l.as_str().to_owned()),
                None => None,
            },
            display_name,
            business_id: match business_id {
                Some(b) => Some(b.0),
                None => None,
            },
            confirmed_at: now,
        },
        active: match active {
            Some(a) => a,
            None => true,
        },
    };
    assert(is_confirmation(w, k, asked, w.row.display_name, business_id, active, now));
    upsert_recurring_label(&mut t.labels, &w);
    Ok(Response::Ack)
}

// ---------------------------------------------------------------------------
// Dispatch
// ---------------------------------------------------------------------------

/// What a request is answered with beside the tables.
#[derive(Debug)]
pub struct Desk {
    pub now: i64,
    pub uptime_secs: i64,
    pub version: String,
    /// The id that a new row takes.
    pub fresh: i64,
}

/// How many occurrences a recurring list asks for.
pub open spec fn min_asked(min_occurrences: Option<usize>) -> usize {
    match min_occurrences {
        Some(m) => m,
        None => MIN_OCCURRENCES,
    }
}

/// How many months a charts request covers: one to sixty, twelve unless asked.
pub open spec fn months_asked(months: Option<u32>) -> u32 {
    match months {
        Some(m) => if m < 1 {
            1
        } else if m > 60 {
            60
        } else {
            m
        },
        None => 12,
    }
}

pub open spec fn limit_asked(limit: Option<i64>, default_limit: i64) -> i64 {
    match limit {
        Some(l) => l,
        None => default_limit,
    }
}

pub open spec fn flag_asked(flag: Option<bool>) -> bool {
    flag == Some(true)
}

/// What a request needs in order to be answered: a clock within the calendar, sums and gaps
/// that fit in 64 bits, and one reading for each firing to be shown. Refreshing providers
/// is not answered from the tables.
pub open spec fn can_answer(t: Tables, req: Request, desk: Desk, readings: Seq<AlertReading>) -> bool {
    &&& t.well_formed()
    &&& crate::time::valid_instant(desk.now)
    &&& can_project(desk.now)
    &&& match req {
        Request::RecurringList { since, min_occurrences, include_ignored } =>
            crate::recurring::rows_in_range(
            rows_since(t.transactions@, since),
            min_asked(min_occurrences) as nat,
        ),
        Request::SnapshotCharts { months } => crate::ledger::series_fits(
            t.accounts@,
            t.snapshots@,
        ),
        Request::AlertPending { limit, include_delivered } => readings.len()
            == crate::ledger::recent_firings(
            t.history@,
            limit_asked(limit, 50),
            flag_asked(include_delivered),
        ).len(),
        Request::ManualUpdateSubscription { name, new_name, active } => 2
            * t.subscriptions@.len() <= usize::MAX,
        Request::ProviderRefresh { kind_filter } => false,
        _ => true,
    }
}

pub open spec fn scope_asked(scope: Option<Scope>, default_scope: Scope) -> Scope {
    match scope {
        Some(s) => s,
        None => default_scope,
    }
}

/// The business view as a reply, or its error.
pub open spec fn is_business_answer(
    r: Result<Response>,
    t: Tables,
    tag: Seq<char>,
    scope: Scope,
    now: i64,
) -> bool {
    let w = crate::debt::scope_window(now, scope);
    match r {
        Ok(x) => x is Business && is_business(Ok(x->Business_0), t, tag, scope, w),
        Err(e) => is_business(Err(e), t, tag, scope, w),
    }
}

/// The charts view as a reply, or its error.
pub open spec fn is_charts_answer(r: Result<Response>, t: Tables, now: i64, months: u32) -> bool {
    match r {
        Ok(x) => x is Charts && is_charts_view(Ok(x->Charts_0), t, now, months),
        Err(e) => is_charts_view(Err(e), t, now, months),
    }
}

/// The categories view as a reply, or its error.
pub open spec fn is_categories_answer(
    r: Result<Response>,
    t: Tables,
    scope: Scope,
    limit: i64,
    now: i64,
) -> bool {
    match r {
        Ok(x) => x is Categories && is_categories_view(Ok(x->Categories_0), t, scope, limit, now),
        Err(e) => is_categories_view(Err(e), t, scope, limit, now),
    }
}

fn scope_or(scope: &Option<Scope>, default_scope: Scope) -> (r: Scope)
    ensures
        r == scope_asked(*scope, default_scope),
{
    match scope {
        Some(s) => *s,
        None => default_scope,
    }
}

fn limit_or(limit: &Option<i64>, default_limit: i64) -> (r: i64)
    ensures
        r == limit_asked(*limit, default_limit),
{
    match limit {
        Some(l) => *l,
        None => default_limit,
    }
}

fn flag_or_not(flag: &Option<bool>) -> (r: bool)
    ensures
        r == flag_asked(*flag),
{
    match flag {
        Some(b) => *b,
        None => false,
    }
}

fn months_or_year(months: &Option<u32>) -> (r: u32)
    ensures
        r == months_asked(*months),
        1 <= r <= 60,
{
    match months {
        Some(m) => if *m < 1 {
            1
        } else if *m > 60 {
            60
        } else {
            *m
        },
        None => 12,
    }
}

/// The answer to a read request.
pub open spec fn is_answer(
    r: Result<Response>,
    t: Tables,
    req: Request,
    desk: Desk,
    readings: Seq<AlertReading>,
) -> bool {
    match req {
        Request::Health => r is Ok && r->Ok_0 is Health && is_health(
            r->Ok_0->Health_0,
            t,
            desk.version@,
            desk.uptime_secs,
        ),
        Request::SnapshotMoney => r is Ok && r->Ok_0 is Money && is_money_view(
            r->Ok_0->Money_0,
            t,
            desk.now,
        ),
        Request::SnapshotBusiness { tag, scope } => is_business_answer(
            r,
            t,
            tag@,
            scope_asked(scope, Scope::Ytd),
            desk.now,
        ),
        Request::SnapshotPp => r is Ok && r->Ok_0 is Pp && is_pp_view(r->Ok_0->Pp_0, t),
        Request::SnapshotDebt { scope } => r is Ok && r->Ok_0 is Debt && is_debt_view(
            r->Ok_0->Debt_0,
            t,
            scope,
            desk.now,
        ),
        Request::TxList { since, tag, limit } => r is Ok && r->Ok_0 is TxList && is_tx_page(
            r->Ok_0->TxList_0,
            t,
            since,
            opt_text(tag),
            limit_asked(limit, 100),
        ),
        Request::RecurringList { since, min_occurrences, include_ignored } => r is Ok && r->Ok_0
            is Recurring && is_recurring_page(
            r->Ok_0->Recurring_0,
            t,
            since,
            min_asked(min_occurrences) as nat,
            flag_asked(include_ignored),
        ),
        Request::SnapshotCharts { months } => is_charts_answer(
            r,
            t,
            desk.now,
            months_asked(months),
        ),
        Request::SnapshotCategories { scope, limit } => is_categories_answer(
            r,
            t,
            scope_asked(scope, Scope::Month),
            limit_asked(limit, 20),
            desk.now,
        ),
        Request::AlertPending { limit, include_delivered } => r is Ok && r->Ok_0 is Alerts
            && is_alerts_page(
            r->Ok_0->Alerts_0,
            t,
            readings,
            limit_asked(limit, 50),
            flag_asked(include_delivered),
        ),
        _ => false,
    }
}

/// The reply to a write request, and the tables after it.
pub open spec fn is_written(
    r: Result<Response>,
    before: Tables,
    after: Tables,
    req: Request,
    desk: Desk,
) -> bool {
    match req {
        Request::ManualUpsertAccount {
            name,
            account_kind,
            asset_class,
            tier,
            currency,
            business_tag,
        } => account_written(
            r,
            before,
            after,
            name,
            account_kind,
            asset_class,
            tier,
            currency,
            business_tag,
            desk.fresh,
        ),
        Request::ManualInsertTransaction {
            account_name,
            posted_at,
            amount,
            description,
            tag,
            business_tag,
            external_id,
        } => transaction_written(
            r,
            before,
            after,
            account_name,
            posted_at,
            amount,
            description,
            tag,
            business_tag,
            external_id,
            desk.fresh,
        ),
        Request::ManualSnapshot { account_name, amount } => snapshot_written(
            r,
            before,
            after,
            account_name,
            amount,
            desk.now,
            desk.fresh,
        ),
        Request::ManualUpsertProvider {
            provider_kind,
            label,
            config_json,
            secret_ref,
            poll_cadence,
        } => provider_written(
            r,
            before,
            after,
            provider_kind,
            label,
            config_json,
            secret_ref,
            poll_cadence,
            desk.fresh,
        ),
        Request::ManualUpsertBusiness { tag, display_name, active } => business_written(
            r,
            before,
            after,
            tag,
            display_name,
            active,
            desk.fresh,
        ),
        Request::ManualUpsertSubscription {
            name,
            amount,
            cadence,
            next_charge_at,
            business_tag,
            active,
        } => subscription_written(
            r,
            before,
            after,
            name,
            amount,
            cadence,
            next_charge_at,
            business_tag,
            active,
            desk.fresh,
        ),
        Request::ManualUpdateSubscription { name, new_name, active } => subscription_updated(
            r,
            before,
            after,
            name,
            new_name,
            active,
        ),
        Request::AlertUpsert { name, rule_json, channel, active } => rule_written(
            r,
            before,
            after,
            name,
            rule_json,
            channel,
            active,
            desk.fresh,
        ),
        Request::RecurringConfirm { match_key, label, display_name, business_tag, active } =>
            label_written(
            r,
            before,
            after,
            match_key,
            label,
            display_name,
            business_tag,
            active,
            desk.now,
        ),
        _ => false,
    }
}

/// The reply to a request, and the tables after it: a read request leaves them as they are.
pub open spec fn is_reply(
    r: Result<Response>,
    before: Tables,
    after: Tables,
    req: Request,
    desk: Desk,
    readings: Seq<AlertReading>,
) -> bool {
    if req.writes() {
        is_written(r, before, after, req, desk)
    } else {
        after == before && is_answer(r, before, req, desk, readings)
    }
}

fn answer(t: &Tables, req: &Request, desk: &Desk, readings: &Vec<AlertReading>) -> (r: Result<
    Response,
>)
    requires
        can_answer(*t, *req, *desk, readings@),
        !req.writes(),
    ensures
        is_answer(r, *t, *req, *desk, readings@),
{
    match req {
        Request::Health => Ok(
            Response::Health(health(t, desk.version.as_str(), desk.uptime_secs)),
        ),
        Request::SnapshotMoney => Ok(Response::Money(money(t, desk.now))),
        Request::SnapshotBusiness { tag, scope } => match business(
            t,
            tag.as_str(),
            scope_or(scope, Scope::Ytd),
            desk.now,
        ) {
            Ok(b) => Ok(Response::Business(b)),
            Err(e) => Err(e),
        },
        Request::SnapshotPp => Ok(Response::Pp(portfolio(t))),
        Request::SnapshotDebt { scope } => Ok(Response::Debt(debts(t, *scope, desk.now))),
        Request::TxList { since, tag, limit } => {
            let word: Option<&str> = match tag {
                Some(x) => Some(x.as_str()),
                None => None,
            };
            Ok(Response::TxList(tx_list(t, *since, word, limit_or(limit, 100))))
        },
        Request::RecurringList { since, min_occurrences, include_ignored } => {
            let min: usize = match min_occurrences {
                Some(m) => *m,
                None => MIN_OCCURRENCES,
            };
            Ok(Response::Recurring(recurring_list(t, *since, min, flag_or_not(include_ignored))))
        },
        Request::SnapshotCharts { months } => match charts(t, months_or_year(months), desk.now) {
            Ok(c) => Ok(Response::Charts(c)),
            Err(e) => Err(e),
        },
        Request::SnapshotCategories { scope, limit } => match categories(
            t,
            scope_or(scope, Scope::Month),
            limit_or(limit, 20),
            desk.now,
        ) {
            Ok(c) => Ok(Response::Categories(c)),
            Err(e) => Err(e),
        },
        Request::AlertPending { limit, include_delivered } => Ok(
            Response::Alerts(
                alert_pending(t, readings, limit_or(limit, 50), flag_or_not(include_delivered)),
            ),
        ),
        _ => Ok(Response::Ack),
    }
}

/// Answers a request from the tables and carries out what it writes.
pub fn try_handle(t: &mut Tables, req: Request, desk: &Desk, readings: &Vec<AlertReading>) -> (r:
    Result<Response>)
    requires
        can_answer(*old(t), req, *desk, readings@),
    ensures
        is_reply(r, *old(t), *final(t), req, *desk, readings@),
{
    if !req.is_write() {
        return answer(t, &req, desk, readings);
    }
    match req {
        Request::ManualUpsertAccount {
            name,
            account_kind,
            asset_class,
            tier,
            currency,
            business_tag,
        } => write_account(
            t,
            name,
            account_kind,
            asset_class,
            tier,
            currency,
            business_tag,
            desk.fresh,
        ),
        Request::ManualInsertTransaction {
            account_name,
            posted_at,
            amount,
            description,
            tag,
            business_tag,
            external_id,
        } => write_transaction(
            t,
            account_name,
            posted_at,
            amount,
            description,
            tag,
            business_tag,
            external_id,
            desk.fresh,
        ),
        Request::ManualSnapshot { account_name, amount } => write_snapshot(
            t,
            account_name,
            amount,
            desk.now,
            desk.fresh,
        ),
        Request::ManualUpsertProvider {
            provider_kind,
            label,
            config_json,
            secret_ref,
            poll_cadence,
        } => write_provider(
            t,
            provider_kind,
            label,
            config_json,
            secret_ref,
            poll_cadence,
            desk.fresh,
        ),
        Request::ManualUpsertBusiness { tag, display_name, active } => write_business(
            t,
            tag,
            display_name,
            active,
            desk.fresh,
        ),
        Request::ManualUpsertSubscription {
            name,
            amount,
            cadence,
            next_charge_at,
            business_tag,
            active,
        } => write_subscription(
            t,
            name,
            amount,
            cadence,
            next_charge_at,
            business_tag,
            active,
            desk.fresh,
        ),
        Request::ManualUpdateSubscription { name, new_name, active } => update_subscription(
            t,
            name,
            new_name,
            active,
        ),
        Request::AlertUpsert { name, rule_json, channel, active } => write_rule(
            t,
            name,
            rule_json,
            channel,
            active,
            desk.fresh,
        ),
        Request::RecurringConfirm { match_key, label, display_name, business_tag, active } =>
            confirm_label(t, match_key, label, display_name, business_tag, active, desk.now),
        _ => Ok(Response::Ack),
    }
}

/// The reply that a client sees: an error of the library goes under the code `core`.
pub open spec fn is_final_reply(resp: Response, r: Result<Response>) -> bool {
    match r {
        Ok(x) => resp == x,
        Err(e) => resp is Error && resp->Error_0.code@ == "core"@ && resp->Error_0.msg@ == e.text(),
    }
}

/// Answers a request from the tables and carries out what it writes; an error becomes a
/// reply of its own.
pub fn handle(t: &mut Tables, req: Request, desk: &Desk, readings: &Vec<AlertReading>) -> (resp:
    Response)
    requires
        can_answer(*old(t), req, *desk, readings@),
    ensures
        exists|r: Result<Response>| #[trigger]
            is_reply(r, *old(t), *final(t), req, *desk, readings@) && is_final_reply(resp, r),
{
    let r: Result<Response> = try_handle(t, req, desk, readings);
    assert(is_reply(r, *old(t), *t, req, *desk, readings@));
    match r {
        Ok(x) => x,
        Err(e) => Response::Error(RpcError { code: "core".to_owned(), msg: e.to_string() }),
    }
}

/// Whether every stored account has its id, and the tables are of a size that a machine
/// holds.
fn check_tables(t: &Tables) -> (r: bool)
    ensures
        r == t.well_formed(),
{
    let mut i: usize = 0;
    while i < t.accounts.len()
        invariant
            i <= t.accounts.len(),
            forall|k: int| 0 <= k < i ==> (#[trigger] t.accounts@[k]).id is Some,
        decreases t.accounts.len() - i,
    {
        if t.accounts[i].id.is_none() {
            assert(!(t.accounts@[i as int].id is Some));
            return false;
        }
        i = i + 1;
    }
    t.accounts.len() as u64 <= u32::MAX as u64 && t.subscriptions.len() as u64 <= i64::MAX as u64
        && t.snapshots.len() as u64 <= i64::MAX as u64
}

/// Whether a request can be answered from the tables.
pub fn answerable(t: &Tables, req: &Request, desk: &Desk, readings: &Vec<AlertReading>) -> (r: bool)
    ensures
        r == can_answer(*t, *req, *desk, readings@),
{
    if !check_tables(t) {
        return false;
    }
    if crate::time::parse_utc(desk.now).is_none() || desk.now > crate::time::MAX_INSTANT
        - 1_209_600 {
        return false;
    }
    match req {
        Request::RecurringList { since, min_occurrences, include_ignored: _ } => {
            let min: usize = match min_occurrences {
                Some(m) => *m,
                None => MIN_OCCURRENCES,
            };
            can_list(&take_since(&t.transactions, *since), min)
        },
        Request::SnapshotCharts { months: _ } => can_chart(&t.accounts, &t.snapshots),
        Request::AlertPending { limit, include_delivered } => {
            let delivered_too: bool = match include_delivered {
                Some(b) => *b,
                None => false,
            };
            readings.len() == list_recent_alerts(&t.history, limit_or(limit, 50), delivered_too).len()
        },
        Request::ManualUpdateSubscription { name: _, new_name: _, active: _ } =>
            t.subscriptions.len() <= usize::MAX / 2,
        Request::ProviderRefresh { kind_filter: _ } => false,
        _ => true,
    }
}

/// Answers a request, unless it is one that cannot be answered from the tables; then they
/// stay as they are.
pub fn serve(t: &mut Tables, req: Request, desk: &Desk, readings: &Vec<AlertReading>) -> (resp: Option<
    Response,
>)
    ensures
        resp is Some == can_answer(*old(t), req, *desk, readings@),
        resp is None ==> *final(t) == *old(t),
        resp is Some ==> exists|r: Result<Response>| #[trigger]
            is_reply(r, *old(t), *final(t), req, *desk, readings@) && is_final_reply(resp->0, r),
{
    if answerable(t, &req, desk, readings) {
        Some(handle(t, req, desk, readings))
    } else {
        None
    }
}

/// The tables hold the same rows.
pub open spec fn same_rows(a: Tables, b: Tables) -> bool {
    &&& a.accounts@ == b.accounts@
    &&& a.snapshots@ == b.snapshots@
    &&& a.transactions@ == b.transactions@
    &&& a.businesses@ == b.businesses@
    &&& a.providers@ == b.providers@
    &&& a.subscriptions@ == b.subscriptions@
    &&& a.planned@ == b.planned@
    &&& a.rules@ == b.rules@
    &&& a.history@ == b.history@
    &&& a.labels@ == b.labels@
}

/// A read request changes nothing.
pub proof fn law_reads_change_nothing(
    r: Result<Response>,
    before: Tables,
    after: Tables,
    req: Request,
    desk: Desk,
    readings: Seq<AlertReading>,
)
    requires
        is_reply(r, before, after, req, desk, readings),
        !req.writes(),
    ensures
        after == before,
{
}

proof fn lemma_none_named(rows: Seq<SubscriptionRecord>, name: Seq<char>)
    requires
        crate::db::count_named(rows, name) == 0,
    ensures
        forall|i: int| 0 <= i < rows.len() ==> !crate::db::is_named(#[trigger] rows[i], name),
    decreases rows.len(),
{
    if rows.len() > 0 {
        lemma_none_named(rows.drop_last(), name);
        assert forall|i: int| 0 <= i < rows.len() implies !crate::db::is_named(
            #[trigger] rows[i],
            name,
        ) by {
            if i < rows.len() - 1 {
                assert(rows.drop_last()[i] == rows[i]);
            }
        }
    }
}

/// A request that is refused, or that fails, changes nothing: no write is half done.
pub proof fn law_refusal_changes_nothing(
    r: Result<Response>,
    before: Tables,
    after: Tables,
    req: Request,
    desk: Desk,
    readings: Seq<AlertReading>,
)
    requires
        is_reply(r, before, after, req, desk, readings),
        r is Err || r->Ok_0 is Error,
    ensures
        same_rows(before, after),
{
    match req {
        Request::ManualUpdateSubscription { name, new_name, active } => {
            let key = crate::text::trimmed(name@);
            let fresh_name = trimmed_name(new_name);
            if key.len() > 0 && !(new_name is Some && fresh_name->0.len() == 0) {
                let renamed = choose|renamed: Seq<SubscriptionRecord>| #[trigger]
                    is_subscription_update(
                        r,
                        before.subscriptions@,
                        renamed,
                        after.subscriptions@,
                        key,
                        fresh_name,
                        active,
                    );
                if fresh_name is Some {
                    lemma_none_named(before.subscriptions@, key);
                    assert(renamed =~= before.subscriptions@);
                }
                if active is Some {
                    let effective = match fresh_name {
                        Some(n) => n,
                        None => key,
                    };
                    lemma_none_named(renamed, effective);
                    assert(after.subscriptions@ =~= renamed);
                }
            }
        },
        _ => {},
    }
}

/// Declared obligations are no debt: whatever the subscription records are, net worth and
/// everything else of the money view stay as they are, and of the debt view only the
/// obligations themselves change.
pub proof fn law_obligations_are_not_debt(
    before: Tables,
    after: Tables,
    m: MoneySnapshot,
    d: DebtSnapshot,
    fixed: Vec<DebtScheduled>,
    scope: Scope,
    now: i64,
)
    requires
        after == (Tables { subscriptions: after.subscriptions, ..before }),
        fixed@ == crate::debt::upcoming_obligations(
            crate::ledger::active_subscriptions(after.subscriptions@),
            now,
        ),
    ensures
        is_money_view(m, before, now) == is_money_view(m, after, now),
        is_debt_view(d, before, scope, now) ==> is_debt_view(
            DebtSnapshot { fixed, ..d },
            after,
            scope,
            now,
        ),
{
    if is_money_view(m, before, now) {
        let b = choose|b: Seq<(AccountId, Cents)>| #[trigger] is_money(m, before, now, b);
        assert(is_money(m, after, now, b));
    }
    if is_money_view(m, after, now) {
        let b = choose|b: Seq<(AccountId, Cents)>| #[trigger] is_money(m, after, now, b);
        assert(is_money(m, before, now, b));
    }
    if is_debt_view(d, before, scope, now) {
        let b = choose|b: Seq<(AccountId, Cents)>| #[trigger] is_debts(d, before, scope, now, b);
        assert(is_debts(DebtSnapshot { fixed, ..d }, after, scope, now, b));
    }
}

/// A subscription update leaves the amount, the cadence and the next charge of every record
/// as they are; one that deactivates leaves no active record of the name, so that nothing of
/// it stays on the schedule.
pub proof fn law_update_keeps_terms(
    r: Result<Response>,
    before: Tables,
    after: Tables,
    name: String,
    new_name: Option<String>,
    active: Option<bool>,
    now: i64,
)
    requires
        subscription_updated(r, before, after, name, new_name, active),
    ensures
        after.subscriptions@.len() == before.subscriptions@.len(),
        forall|i: int|
            #![trigger after.subscriptions@[i]]
            0 <= i < before.subscriptions@.len() ==> {
                let a = after.subscriptions@[i];
                let b = before.subscriptions@[i];
                a == (SubscriptionRecord { name: a.name, active: a.active, ..b })
            },
        r is Ok && r->Ok_0 is Ack && active == Some(false) ==> {
            let key = match trimmed_name(new_name) {
                Some(n) => n,
                None => crate::text::trimmed(name@),
            };
            let due = crate::debt::upcoming_obligations(
                crate::ledger::active_subscriptions(after.subscriptions@),
                now,
            );
            forall|i: int| 0 <= i < due.len() ==> (#[trigger] due[i]).description@ != key
        },
{
    let key = crate::text::trimmed(name@);
    let fresh_name = trimmed_name(new_name);
    if key.len() > 0 && !(new_name is Some && fresh_name->0.len() == 0) {
        let renamed = choose|renamed: Seq<SubscriptionRecord>| #[trigger]
            is_subscription_update(
                r,
                before.subscriptions@,
                renamed,
                after.subscriptions@,
                key,
                fresh_name,
                active,
            );
        let effective = match fresh_name {
            Some(n) => n,
            None => key,
        };
        assert(renamed.len() == before.subscriptions@.len());
        assert forall|i: int|
            #![trigger after.subscriptions@[i]]
            0 <= i < before.subscriptions@.len() implies {
            let a = after.subscriptions@[i];
            let b = before.subscriptions@[i];
            a == (SubscriptionRecord { name: a.name, active: a.active, ..b })
        } by {
            let _ = renamed[i];
        }
        if active == Some(false) {
            crate::debt::law_inactive_is_off_schedule(after.subscriptions@, now, effective);
        }
    }
}

} // verus!
