//! Monthly report: what it holds, how it is built from the books, and its Markdown.
//!
//! The report covers the calendar month before a given instant, as it passes in Puerto
//! Rico. A past balance is the latest one up to the start of the month, so that a missing
//! reading shows as missing and is never taken from the wrong side.

use crate::db::{
    list_active_accounts, Account, BalanceSnapshot, Business, RecurringLabel, SubscriptionRecord,
    Transaction,
};
use crate::error::Result;
use crate::ids::AccountId;
use crate::ledger::{
    business_income_expenses, current_net_worth, debt_paydown, expenses_by_category,
    latest_balances, list_active_subscriptions, prior_net_worth,
};
use crate::money::Cents;
use crate::order::{rank_strings, stable_indices};
use crate::pp::{allocation, backbone, drift, Allocation, Backbone, DriftRow};
use crate::recurring::{can_list, labeled_series, MIN_OCCURRENCES};
use crate::rpc::LabeledSeries;
use crate::text::{clone_opt, dec2_string, int_string};
use crate::time::{ast_clock, format_ast, instant_ast, year_string, Clock};
use vstd::prelude::*;

verus! {

use crate::db::active_accounts;
use crate::ledger::{
    active_subscriptions, amounts, are_expenses, are_latest, flows_in, is_spending, month_label,
    net_worth, past_net_worth, paydowns, taken_by, total, totals_fit,
};
use crate::money::{clamp, shown};
use crate::order::{kept, ranks, sorted_by_keys, stable_order};
use crate::pp::{is_drift, sat_add, sleeve_total, Sleeve};
use crate::recurring::{is_listing, rows_in_range};
use crate::time::{
    ast_fields, ast_instant, ast_text, day_number, lemma_month_start, lemma_year_of, month_before,
    month_length, reads, shown_or_invalid, valid_instant,
};

// ---------------------------------------------------------------------------
// The month
// ---------------------------------------------------------------------------

/// A half-open window of unix seconds and the month it covers.
#[derive(Clone, Copy, Debug, PartialEq, Eq, Structural)]
pub struct MonthWindow {
    pub label_year: i32,
    pub label_month: u32,
    pub since: i64,
    pub until: i64,
}

/// The window of the month before a clock reading, if its bounds are instants.
pub open spec fn window_before(year: i32, month: u32) -> Option<MonthWindow> {
    let (y, m) = month_before(year as int, month as int);
    let since = ast_instant(y as i32, m as u32, 1, 0, 0);
    let until = ast_instant(year, month, 1, 0, 0);
    if year == i32::MIN && month == 1 {
        None
    } else if since is Some && until is Some {
        Some(
            MonthWindow {
                label_year: y as i32,
                label_month: m as u32,
                since: since->0,
                until: until->0,
            },
        )
    } else {
        None
    }
}

/// The window of the month before an instant, as it passes in Puerto Rico.
pub open spec fn prior_window(as_of: i64) -> Option<MonthWindow> {
    if valid_instant(as_of) {
        window_before(ast_fields(as_of).0, ast_fields(as_of).1)
    } else {
        None
    }
}

/// Whether a window is the whole month that ended last before an instant.
pub open spec fn is_last_whole_month(w: MonthWindow, as_of: i64) -> bool {
    &&& w.since < w.until <= as_of
    &&& w.until - w.since == 86_400 * month_length(w.label_year as int, w.label_month as int)
    &&& as_of < w.until + 31 * 86_400
}

impl MonthWindow {
    /// The month before an instant, where the calendar holds it. From 1970 to 9999 it
    /// always does, and the window is the last whole month.
    pub fn prior_month(as_of: i64) -> (r: Option<MonthWindow>)
        ensures
            r == prior_window(as_of),
            0 <= as_of <= 253_402_300_799 ==> r is Some && is_last_whole_month(r->0, as_of),
    {
        let c: Clock = match ast_clock(as_of) {
            Some(c) => c,
            None => {
                return None;
            },
        };
        if c.year == i32::MIN && c.month == 1 {
            return None;
        }
        let (y, m): (i32, u32) = if c.month == 1 {
            (c.year - 1, 12u32)
        } else {
            (c.year, c.month - 1)
        };
        let since: Option<i64> = instant_ast(y, m, 1, 0, 0);
        let until: Option<i64> = instant_ast(c.year, c.month, 1, 0, 0);
        proof {
            if 0 <= as_of <= 253_402_300_799 {
                let f = ast_fields(as_of);
                assert(reads(f, as_of - 14_400));
                lemma_year_of(f.0 as int, f.1 as int, f.2 as int);
                lemma_month_start(f.0 as int, f.1 as int);
                assert(day_number(f.0 as int, f.1 as int, f.2 as int) == day_number(
                    f.0 as int,
                    f.1 as int,
                    1,
                ) + f.2 - 1);
            }
        }
        match (since, until) {
            (Some(since), Some(until)) => Some(
                MonthWindow { label_year: y, label_month: m, since, until },
            ),
            _ => None,
        }
    }

    /// The month before an instant. Its bounds are midnight in Puerto Rico.
    pub fn prior_month_ast(as_of: i64) -> (r: MonthWindow)
        requires
            prior_window(as_of) is Some,
        ensures
            prior_window(as_of) == Some(r),
            0 <= as_of <= 253_402_300_799 ==> is_last_whole_month(r, as_of),
    {
        match MonthWindow::prior_month(as_of) {
            Some(w) => w,
            None => MonthWindow { label_year: 0, label_month: 0, since: 0, until: 0 },
        }
    }

    /// The `YYYY-MM` label.
    pub fn label(&self) -> (r: String)
        ensures
            r@ == month_label(self.label_year as int, self.label_month as int),
    {
        year_string(self.label_year).concat("-").concat(
            dec2_string(self.label_month as u64).as_str(),
        )
    }
}

// ---------------------------------------------------------------------------
// The report
// ---------------------------------------------------------------------------

/// The tables that the report is read off.
#[derive(Debug)]
pub struct Books {
    pub accounts: Vec<Account>,
    pub snapshots: Vec<BalanceSnapshot>,
    pub transactions: Vec<Transaction>,
    pub businesses: Vec<Business>,
    pub subscriptions: Vec<SubscriptionRecord>,
    pub labels: Vec<RecurringLabel>,
}

/// What the report on a month shows.
#[derive(Debug)]
pub struct MonthlyReport {
    pub label: String,
    pub since: i64,
    pub until: i64,
    /// The latest balances at report time; debts subtract.
    pub net_worth_now: Cents,
    /// The same from the latest balance of each account up to `since`; nothing where no
    /// account has one.
    pub net_worth_prior: Option<Cents>,
    pub businesses: Vec<BusinessFlow>,
    pub pp_allocation: Allocation,
    pub pp_drift: Vec<DriftRow>,
    pub backbone: Backbone,
    pub debt_paydown: Cents,
    pub top_expenses: Vec<CategorySpend>,
    pub api_usage: Vec<ApiUsageRow>,
    /// The series that the operator confirmed, the soonest due first.
    pub recurring: Vec<RecurringReportRow>,
}

/// Income and expenses of a business within a window.
#[derive(Debug)]
pub struct BusinessFlow {
    pub tag: String,
    pub display_name: String,
    pub income: Cents,
    pub expenses: Cents,
    pub net: Cents,
}

/// What was spent in a category; never positive.
#[derive(Debug)]
pub struct CategorySpend {
    pub category: String,
    /// Never positive: these are expenses.
    pub amount: Cents,
}

/// An active subscription with its latest amount.
#[derive(Debug)]
pub struct ApiUsageRow {
    pub name: String,
    pub provider_kind: String,
    pub amount: Option<Cents>,
    pub cadence: Option<String>,
}

/// A confirmed recurring series. The amounts are observed history, not a claim about the
/// next charge.
#[derive(Debug)]
pub struct RecurringReportRow {
    pub name: String,
    /// `sub`, `bill` or `debt`.
    pub label: String,
    pub cadence: String,
    pub last_amount: Cents,
    pub avg_amount: Cents,
    pub predicted_next: i64,
}

/// The row of a labelled series. The operator's name for it comes first.
pub open spec fn is_recurring_row(row: RecurringReportRow, x: LabeledSeries) -> bool {
    &&& row.name == match x.display_name {
        Some(n) => n,
        None => x.series.display,
    }
    &&& x.label == Some(row.label)
    &&& row.cadence@ == x.series.cadence.name()
    &&& row.last_amount == x.series.last_amount
    &&& row.avg_amount == x.series.avg_amount
    &&& row.predicted_next == x.series.predicted_next
}

pub open spec fn next_dates(xs: Seq<LabeledSeries>) -> Seq<i64> {
    xs.map_values(|x: LabeledSeries| x.series.predicted_next)
}

/// The confirmed series, the soonest due first.
pub open spec fn confirmed(xs: Seq<LabeledSeries>) -> Seq<LabeledSeries> {
    let found = kept(xs, |x: LabeledSeries| x.label is Some);
    sorted_by_keys(found, next_dates(found))
}

/// The rows of the confirmed series.
pub open spec fn are_recurring_rows(rows: Seq<RecurringReportRow>, xs: Seq<LabeledSeries>) -> bool {
    &&& rows.len() == confirmed(xs).len()
    &&& forall|i: int|
        0 <= i < rows.len() ==> is_recurring_row(#[trigger] rows[i], confirmed(xs)[i])
}

fn recurring_row(x: &LabeledSeries, label: &String) -> (r: RecurringReportRow)
    requires
        x.label == Some(*label),
    ensures
        is_recurring_row(r, *x),
{
    RecurringReportRow {
        name: match &x.display_name {
            Some(n) => n.clone(),
            None => x.series.display.clone(),
        },
        label: label.clone(),
        cadence: x.series.cadence.as_str().to_owned(),
        last_amount: x.series.last_amount,
        avg_amount: x.series.avg_amount,
        predicted_next: x.series.predicted_next,
    }
}

/// The confirmed series, the soonest due first. A series without a label is left out: the
/// report shows what the operator has confirmed.
pub fn recurring_rows(series: &Vec<LabeledSeries>) -> (r: Vec<RecurringReportRow>)
    ensures
        are_recurring_rows(r@, series@),
{
    let ghost p = |x: LabeledSeries| x.label is Some;
    let mut at: Vec<usize> = Vec::new();
    let mut keys: Vec<i64> = Vec::new();
    let ghost mut found: Seq<LabeledSeries> = Seq::empty();
    let mut i: usize = 0;
    while i < series.len()
        invariant
            i <= series.len(),
            p == (|x: LabeledSeries| x.label is Some),
            found == kept(series@.take(i as int), p),
            at@.len() == found.len(),
            keys@.len() == found.len(),
            forall|k: int|
                0 <= k < found.len() ==> (#[trigger] at@[k]) < series@.len() && series@[at@[k] as int]
                    == found[k],
            forall|k: int|
                0 <= k < found.len() ==> #[trigger] keys@[k] == found[k].series.predicted_next,
            forall|k: int| 0 <= k < found.len() ==> (#[trigger] found[k]).label is Some,
        decreases series.len() - i,
    {
        assert(series@.take(i + 1).drop_last() == series@.take(i as int));
        if series[i].label.is_some() {
            at.push(i);
            keys.push(series[i].series.predicted_next);
            proof {
                found = found.push(series@[i as int]);
            }
        }
        i = i + 1;
    }
    assert(series@.take(series@.len() as int) == series@);
    assert(keys@ =~= next_dates(found));
    let order: Vec<usize> = stable_indices(&keys);
    let ghost q = stable_order(keys@, keys@.len());
    let mut out: Vec<RecurringReportRow> = Vec::new();
    let mut k: usize = 0;
    while k < order.len()
        invariant
            k <= order.len(),
            order@.len() == found.len(),
            at@.len() == found.len(),
            forall|j: int|
                0 <= j < found.len() ==> (#[trigger] at@[j]) < series@.len() && series@[at@[j] as int]
                    == found[j],
            forall|j: int| 0 <= j < found.len() ==> (#[trigger] found[j]).label is Some,
            order@.map_values(|x: usize| x as int) == q,
            forall|j: int| 0 <= j < order@.len() ==> 0 <= (#[trigger] order@[j]) < found.len(),
            out@.len() == k,
            forall|j: int| 0 <= j < k ==> is_recurring_row(#[trigger] out@[j], found[q[j]]),
        decreases order.len() - k,
    {
        assert(order@.map_values(|x: usize| x as int)[k as int] == order@[k as int]);
        let x: &LabeledSeries = &series[at[order[k]]];
        assert(*x == found[q[k as int]]);
        match &x.label {
            Some(label) => {
                out.push(recurring_row(x, label));
            },
            None => {},
        }
        k = k + 1;
    }
    assert(confirmed(series@) =~= sorted_by_keys(found, keys@));
    assert(are_recurring_rows(out@, series@));
    out
}

pub open spec fn tags_of(rows: Seq<Business>) -> Seq<Seq<char>> {
    rows.map_values(|b: Business| b.tag@)
}

/// The active businesses by tag.
pub open spec fn active_businesses(rows: Seq<Business>) -> Seq<Business> {
    let on = kept(rows, |b: Business| b.active);
    sorted_by_keys(on, ranks(tags_of(on)))
}

/// The income of a business in a window.
pub open spec fn income_of(b: Business, txns: Seq<Transaction>, since: i64, until: i64) -> Option<
    i64,
> {
    total(
        amounts(
            txns,
            |t: Transaction| flows_in(t, b.id, since, until, true),
        ),
    )
}

/// The expenses of a business in a window.
pub open spec fn expenses_of(b: Business, txns: Seq<Transaction>, since: i64, until: i64) -> Option<
    i64,
> {
    total(
        amounts(
            txns,
            |t: Transaction| flows_in(t, b.id, since, until, false),
        ),
    )
}

/// The flow of one business.
pub open spec fn is_flow(
    f: BusinessFlow,
    b: Business,
    txns: Seq<Transaction>,
    since: i64,
    until: i64,
) -> bool {
    &&& f.tag == b.tag
    &&& f.display_name == b.display_name
    &&& income_of(b, txns, since, until) == Some(f.income.0)
    &&& expenses_of(b, txns, since, until) == Some(f.expenses.0)
    &&& f.net == sat_add(f.income, f.expenses)
}

/// Whether the sums of a business stay within 64 bits.
pub open spec fn flow_fits(b: Business, txns: Seq<Transaction>, since: i64, until: i64) -> bool {
    income_of(b, txns, since, until) is Some && expenses_of(b, txns, since, until) is Some
}

/// The flows of the active businesses, by tag.
pub open spec fn are_business_flows(
    flows: Seq<BusinessFlow>,
    bs: Seq<Business>,
    txns: Seq<Transaction>,
    since: i64,
    until: i64,
) -> bool {
    &&& flows.len() == active_businesses(bs).len()
    &&& forall|i: int|
        0 <= i < flows.len() ==> is_flow(
            #[trigger] flows[i],
            active_businesses(bs)[i],
            txns,
            since,
            until,
        )
}

/// Whether the sums of every active business stay within 64 bits.
pub open spec fn flows_fit(bs: Seq<Business>, txns: Seq<Transaction>, since: i64, until: i64) -> bool {
    forall|i: int|
        0 <= i < active_businesses(bs).len() ==> flow_fits(
            #[trigger] active_businesses(bs)[i],
            txns,
            since,
            until,
        )
}

/// The active businesses by tag.
pub fn list_active_businesses(rows: &Vec<Business>) -> (r: Vec<Business>)
    requires
        rows@.len() <= i64::MAX,
    ensures
        r@ == active_businesses(rows@),
{
    let ghost p = |b: Business| b.active;
    let mut on: Vec<Business> = Vec::new();
    let mut tags: Vec<String> = Vec::new();
    let mut i: usize = 0;
    while i < rows.len()
        invariant
            i <= rows.len(),
            p == (|b: Business| b.active),
            on@ == kept(rows@.take(i as int), p),
            on@.len() <= i,
            tags@.len() == on@.len(),
            forall|k: int| 0 <= k < on@.len() ==> (#[trigger] tags@[k])@ == on@[k].tag@,
        decreases rows.len() - i,
    {
        assert(rows@.take(i + 1).drop_last() == rows@.take(i as int));
        if rows[i].active {
            tags.push(rows[i].tag.clone());
            on.push(rows[i].clone());
        }
        i = i + 1;
    }
    assert(rows@.take(rows@.len() as int) == rows@);
    assert(tags@.map_values(|s: String| s@) =~= tags_of(on@));
    let keys: Vec<i64> = rank_strings(&tags);
    let order: Vec<usize> = stable_indices(&keys);
    let ghost q = stable_order(keys@, keys@.len());
    let mut out: Vec<Business> = Vec::new();
    let mut k: usize = 0;
    while k < order.len()
        invariant
            k <= order.len(),
            order@.len() == on@.len(),
            order@.map_values(|x: usize| x as int) == q,
            forall|j: int| 0 <= j < order@.len() ==> 0 <= (#[trigger] order@[j]) < on@.len(),
            out@.len() == k,
            forall|j: int| 0 <= j < k ==> #[trigger] out@[j] == on@[q[j]],
        decreases order.len() - k,
    {
        assert(order@.map_values(|x: usize| x as int)[k as int] == order@[k as int]);
        out.push(on[order[k]].clone());
        k = k + 1;
    }
    assert(out@ =~= active_businesses(rows@));
    out
}

/// Income, expenses and net of each active business in a window, by tag.
pub fn business_flows(bs: &Vec<Business>, txns: &Vec<Transaction>, since: i64, until: i64) -> (r:
    Result<Vec<BusinessFlow>>)
    requires
        bs@.len() <= i64::MAX,
    ensures
        r is Ok == flows_fit(bs@, txns@, since, until),
        r is Ok ==> are_business_flows(r->Ok_0@, bs@, txns@, since, until),
        r is Err ==> r->Err_0 is Sql && r->Err_0->Sql_0@ == "integer overflow"@,
{
    let on: Vec<Business> = list_active_businesses(bs);
    let mut out: Vec<BusinessFlow> = Vec::new();
    let mut i: usize = 0;
    while i < on.len()
        invariant
            i <= on.len(),
            on@ == active_businesses(bs@),
            out@.len() == i,
            forall|k: int|
                0 <= k < i ==> is_flow(#[trigger] out@[k], on@[k], txns@, since, until),
            forall|k: int| 0 <= k < i ==> flow_fits(#[trigger] on@[k], txns@, since, until),
        decreases on.len() - i,
    {
        let b: &Business = &on[i];
        match business_income_expenses(txns, b.id, since, until) {
            Ok(x) => {
                assert(flow_fits(on@[i as int], txns@, since, until));
                out.push(
                    BusinessFlow {
                        tag: b.tag.clone(),
                        display_name: b.display_name.clone(),
                        income: x.0,
                        expenses: x.1,
                        net: x.0 + x.1,
                    },
                );
                assert(is_flow(out@.last(), on@[i as int], txns@, since, until));
            },
            Err(e) => {
                assert(!flow_fits(active_businesses(bs@)[i as int], txns@, since, until));
                return Err(e);
            },
        }
        i = i + 1;
    }
    Ok(out)
}

/// The row of a subscription.
pub open spec fn is_usage_row(row: ApiUsageRow, s: SubscriptionRecord) -> bool {
    &&& row.name == s.name
    &&& row.provider_kind == s.provider_kind
    &&& row.amount == s.amount_cents
    &&& row.cadence == s.cadence
}

/// The rows of the active subscriptions, by name.
pub open spec fn are_usage_rows(rows: Seq<ApiUsageRow>, subs: Seq<SubscriptionRecord>) -> bool {
    &&& rows.len() == active_subscriptions(subs).len()
    &&& forall|i: int|
        0 <= i < rows.len() ==> is_usage_row(#[trigger] rows[i], active_subscriptions(subs)[i])
}

/// The active subscriptions with their latest amounts, by name.
pub fn api_usage_rows(subs: &Vec<SubscriptionRecord>) -> (r: Vec<ApiUsageRow>)
    requires
        subs@.len() <= i64::MAX,
    ensures
        are_usage_rows(r@, subs@),
{
    let on: Vec<SubscriptionRecord> = list_active_subscriptions(subs);
    let mut out: Vec<ApiUsageRow> = Vec::new();
    let mut i: usize = 0;
    while i < on.len()
        invariant
            i <= on.len(),
            out@.len() == i,
            forall|k: int| 0 <= k < i ==> is_usage_row(#[trigger] out@[k], on@[k]),
        decreases on.len() - i,
    {
        let s: &SubscriptionRecord = &on[i];
        out.push(
            ApiUsageRow {
                name: s.name.clone(),
                provider_kind: s.provider_kind.clone(),
                amount: s.amount_cents,
                cadence: clone_opt(&s.cadence),
            },
        );
        i = i + 1;
    }
    out
}

/// The tier-2 allocation of some balances.
pub open spec fn tier2(balances: Seq<(AccountId, Cents)>, accounts: Seq<Account>) -> Allocation {
    let equity = sleeve_total(balances, accounts, Sleeve::Equity);
    let long_treasuries = sleeve_total(balances, accounts, Sleeve::LongTreasuries);
    let cash = sleeve_total(balances, accounts, Sleeve::Cash);
    let gold_etf = sleeve_total(balances, accounts, Sleeve::GoldEtf);
    let other = sleeve_total(balances, accounts, Sleeve::OtherT2);
    Allocation {
        equity,
        long_treasuries,
        cash,
        gold_etf,
        other,
        total: sat_add(sat_add(sat_add(sat_add(equity, long_treasuries), cash), gold_etf), other),
    }
}

/// The tier-1 backbone of some balances.
pub open spec fn tier1(balances: Seq<(AccountId, Cents)>, accounts: Seq<Account>) -> Backbone {
    let gold = sleeve_total(balances, accounts, Sleeve::Gold);
    let silver = sleeve_total(balances, accounts, Sleeve::Silver);
    let xmr = sleeve_total(balances, accounts, Sleeve::Xmr);
    let land = sleeve_total(balances, accounts, Sleeve::Land);
    let sfr = sleeve_total(balances, accounts, Sleeve::Sfr);
    let other = sleeve_total(balances, accounts, Sleeve::OtherT1);
    Backbone {
        gold,
        silver,
        xmr,
        land,
        sfr,
        other,
        total: sat_add(sat_add(sat_add(sat_add(sat_add(gold, silver), xmr), land), sfr), other),
    }
}

/// What the report reads off the latest balances.
pub open spec fn reads_balances(r: MonthlyReport, b: Books, balances: Seq<(AccountId, Cents)>) -> bool {
    let accounts = active_accounts(b.accounts@);
    &&& are_latest(balances, b.snapshots@)
    &&& r.net_worth_now == net_worth(accounts, balances)
    &&& r.pp_allocation == tier2(balances, accounts)
    &&& r.backbone == tier1(balances, accounts)
}

/// The number of expense categories in the report.
pub const TOP_EXPENSES: i64 = 10;

/// Categories and amounts as pairs.
pub open spec fn pairs_of(rows: Seq<CategorySpend>) -> Seq<(String, Cents)> {
    rows.map_values(|c: CategorySpend| (c.category, c.amount))
}

/// The categories with the most spending.
pub open spec fn are_top_expenses(
    rows: Seq<CategorySpend>,
    txns: Seq<Transaction>,
    since: i64,
    until: i64,
) -> bool {
    exists|keys: Seq<String>, values: Seq<i64>| #[trigger]
        are_expenses(keys, values, txns, since, until) && totals_fit(keys, values) && is_spending(
            pairs_of(rows),
            keys,
            values,
            TOP_EXPENSES,
        )
}

/// Whether the sum of every expense category stays within 64 bits.
pub open spec fn categories_fit(txns: Seq<Transaction>, since: i64, until: i64) -> bool {
    exists|keys: Seq<String>, values: Seq<i64>| #[trigger]
        are_expenses(keys, values, txns, since, until) && totals_fit(keys, values)
}

/// Whether the sum of some expense category leaves 64 bits.
pub open spec fn categories_overflow(txns: Seq<Transaction>, since: i64, until: i64) -> bool {
    exists|keys: Seq<String>, values: Seq<i64>| #[trigger]
        are_expenses(keys, values, txns, since, until) && !totals_fit(keys, values)
}

/// What was paid down on debts, where the sum stays within 64 bits.
pub open spec fn paid_down(b: Books, since: i64, until: i64) -> Option<i64> {
    match paydowns(b.accounts@, b.transactions@, since, until) {
        Some(v) => total(v),
        None => None,
    }
}

/// The report of a month.
pub open spec fn is_monthly_report(r: MonthlyReport, b: Books, w: MonthWindow) -> bool {
    &&& r.label@ == month_label(w.label_year as int, w.label_month as int)
    &&& r.since == w.since
    &&& r.until == w.until
    &&& exists|balances: Seq<(AccountId, Cents)>| #[trigger] reads_balances(r, b, balances)
    &&& r.net_worth_prior == past_net_worth(b.accounts@, taken_by(b.snapshots@, w.since))
    &&& are_business_flows(r.businesses@, b.businesses@, b.transactions@, w.since, w.until)
    &&& is_drift(r.pp_drift@, r.pp_allocation)
    &&& paid_down(b, w.since, w.until) == Some(r.debt_paydown.0)
    &&& are_top_expenses(r.top_expenses@, b.transactions@, w.since, w.until)
    &&& are_usage_rows(r.api_usage@, b.subscriptions@)
    &&& exists|xs: Seq<LabeledSeries>| #[trigger]
        is_listing(xs, b.transactions@, b.labels@, MIN_OCCURRENCES as nat, false)
            && are_recurring_rows(r.recurring@, xs)
}

fn spending_rows(pairs: &Vec<(String, Cents)>) -> (r: Vec<CategorySpend>)
    ensures
        pairs_of(r@) == pairs@,
{
    let mut out: Vec<CategorySpend> = Vec::new();
    let mut i: usize = 0;
    while i < pairs.len()
        invariant
            i <= pairs.len(),
            out@.len() == i,
            forall|k: int|
                0 <= k < i ==> (#[trigger] out@[k]).category == pairs@[k].0 && out@[k].amount
                    == pairs@[k].1,
        decreases pairs.len() - i,
    {
        out.push(CategorySpend { category: pairs[i].0.clone(), amount: pairs[i].1 });
        i = i + 1;
    }
    assert(pairs_of(out@) =~= pairs@);
    out
}

/// Whether the report of the books can be built: the lists are of a size that a machine
/// holds, and the arithmetic on every payee's history stays within 64 bits.
pub open spec fn can_report(b: Books) -> bool {
    &&& b.accounts@.len() <= i64::MAX
    &&& b.businesses@.len() <= i64::MAX
    &&& b.subscriptions@.len() <= i64::MAX
    &&& rows_in_range(b.transactions@, MIN_OCCURRENCES as nat)
}

/// The report of a month, unless the books leave the range that it is computed in.
pub fn monthly_report(b: &Books, w: MonthWindow) -> (r: Option<Result<MonthlyReport>>)
    ensures
        r is Some == can_report(*b),
        r is Some ==> is_report_outcome(r->0, *b, w),
{
    if b.accounts.len() as u64 <= i64::MAX as u64 && b.businesses.len() as u64 <= i64::MAX as u64
        && b.subscriptions.len() as u64 <= i64::MAX as u64 && can_list(
        &b.transactions,
        MIN_OCCURRENCES,
    ) {
        Some(build_monthly_report(b, w))
    } else {
        None
    }
}

/// What building a report comes to: the report, or an overflow of one of its sums.
pub open spec fn is_report_outcome(r: Result<MonthlyReport>, b: Books, w: MonthWindow) -> bool {
    match r {
        Ok(x) => is_monthly_report(x, b, w) && flows_fit(
            b.businesses@,
            b.transactions@,
            w.since,
            w.until,
        ) && paid_down(b, w.since, w.until) is Some && categories_fit(
            b.transactions@,
            w.since,
            w.until,
        ),
        Err(e) => e is Sql && e->Sql_0@ == "integer overflow"@ && (!flows_fit(
            b.businesses@,
            b.transactions@,
            w.since,
            w.until,
        ) || paid_down(b, w.since, w.until) is None || categories_overflow(
            b.transactions@,
            w.since,
            w.until,
        )),
    }
}

/// The report of a month. It fails only where a sum leaves 64 bits.
pub fn build_monthly_report(b: &Books, w: MonthWindow) -> (r: Result<MonthlyReport>)
    requires
        can_report(*b),
    ensures
        is_report_outcome(r, *b, w),
{
    let accounts: Vec<Account> = list_active_accounts(&b.accounts);
    let balances: Vec<(AccountId, Cents)> = latest_balances(&b.snapshots);
    let net_worth_now: Cents = current_net_worth(&accounts, &balances);
    let net_worth_prior: Option<Cents> = prior_net_worth(&b.accounts, &b.snapshots, w.since);
    let businesses: Vec<BusinessFlow> = match business_flows(
        &b.businesses,
        &b.transactions,
        w.since,
        w.until,
    ) {
        Ok(x) => x,
        Err(e) => {
            return Err(e);
        },
    };
    let alloc: Allocation = allocation(&balances, &accounts);
    let drift_rows: Vec<DriftRow> = drift(&alloc);
    let bb: Backbone = backbone(&balances, &accounts);
    let paid: Cents = match debt_paydown(&b.accounts, &b.transactions, w.since, w.until) {
        Ok(x) => x,
        Err(e) => {
            return Err(e);
        },
    };
    let top: Vec<(String, Cents)> = match expenses_by_category(
        &b.transactions,
        w.since,
        w.until,
        TOP_EXPENSES,
    ) {
        Ok(x) => x,
        Err(e) => {
            assert(categories_overflow(b.transactions@, w.since, w.until));
            return Err(e);
        },
    };
    let top_expenses: Vec<CategorySpend> = spending_rows(&top);
    assert(are_top_expenses(top_expenses@, b.transactions@, w.since, w.until));
    let api_usage: Vec<ApiUsageRow> = api_usage_rows(&b.subscriptions);
    let series: Vec<LabeledSeries> = labeled_series(&b.transactions, &b.labels, MIN_OCCURRENCES);
    let recurring: Vec<RecurringReportRow> = recurring_rows(&series);
    let report = MonthlyReport {
        label: w.label(),
        since: w.since,
        until: w.until,
        net_worth_now,
        net_worth_prior,
        businesses,
        pp_allocation: alloc,
        pp_drift: drift_rows,
        backbone: bb,
        debt_paydown: paid,
        top_expenses,
        api_usage,
        recurring,
    };
    assert(reads_balances(report, *b, balances@));
    assert(is_listing(series@, b.transactions@, b.labels@, MIN_OCCURRENCES as nat, false));
    Ok(report)
}

// ---------------------------------------------------------------------------
// Markdown
// ---------------------------------------------------------------------------

/// Text followed by one more line.
pub open spec fn line(out: Seq<char>, s: Seq<char>) -> Seq<char> {
    out + s + "\n"@
}

fn push_line(out: &mut String, s: &str)
    ensures
        final(out)@ == line(old(out)@, s@),
{
    out.append(s);
    out.append("\n");
}

/// A date in Puerto Rico.
pub open spec fn date_in_ast(ts: i64) -> Seq<char> {
    shown_or_invalid(ts, ast_text(ts, "%Y-%m-%d"@))
}

/// A date in Puerto Rico.
pub fn ast_date(ts_secs: i64) -> (r: String)
    ensures
        r@ == date_in_ast(ts_secs),
{
    match format_ast(ts_secs, "%Y-%m-%d") {
        Some(s) => s,
        None => "invalid_ts(".to_owned().concat(int_string(ts_secs).as_str()).concat(")"),
    }
}

/// Text followed by the title and the net worth.
pub open spec fn with_net_worth(out: Seq<char>, r: MonthlyReport) -> Seq<char> {
    let a = line(out, "# arca monthly report — "@ + r.label@);
    let b = line(a, ""@);
    let c = line(
        b,
        "Window: "@ + date_in_ast(r.since) + " → "@ + date_in_ast(r.until)
            + " (AST midnight boundaries)."@,
    );
    let d = line(c, ""@);
    let e = line(line(d, "## Net worth"@), ""@);
    let f = line(line(e, "| | amount |"@), "|---|---:|"@);
    let g = line(f, "| Now | "@ + shown(r.net_worth_now.0 as int) + " |"@);
    let h = match r.net_worth_prior {
        Some(p) => line(
            line(g, "| Start of "@ + r.label@ + " | "@ + shown(p.0 as int) + " |"@),
            "| Delta | "@ + shown(clamp(r.net_worth_now.0 - p.0) as int) + " |"@,
        ),
        None => line(g, "| Start of "@ + r.label@ + " | _no snapshot before window start_ |"@),
    };
    line(h, ""@)
}

fn push_net_worth(out: &mut String, r: &MonthlyReport)
    ensures
        final(out)@ == with_net_worth(old(out)@, *r),
{
    push_line(out, "# arca monthly report — ".to_owned().concat(r.label.as_str()).as_str());
    push_line(out, "");
    push_line(
        out,
        "Window: ".to_owned().concat(ast_date(r.since).as_str()).concat(" → ").concat(
            ast_date(r.until).as_str(),
        ).concat(" (AST midnight boundaries).").as_str(),
    );
    push_line(out, "");
    push_line(out, "## Net worth");
    push_line(out, "");
    push_line(out, "| | amount |");
    push_line(out, "|---|---:|");
    push_line(
        out,
        "| Now | ".to_owned().concat(r.net_worth_now.to_string().as_str()).concat(" |").as_str(),
    );
    match r.net_worth_prior {
        Some(p) => {
            push_line(
                out,
                "| Start of ".to_owned().concat(r.label.as_str()).concat(" | ").concat(
                    p.to_string().as_str(),
                ).concat(" |").as_str(),
            );
            let delta: Cents = r.net_worth_now - p;
            push_line(
                out,
                "| Delta | ".to_owned().concat(delta.to_string().as_str()).concat(" |").as_str(),
            );
        },
        None => {
            push_line(
                out,
                "| Start of ".to_owned().concat(r.label.as_str()).concat(
                    " | _no snapshot before window start_ |",
                ).as_str(),
            );
        },
    }
    push_line(out, "");
}

/// The table row of a business.
pub open spec fn business_line(b: BusinessFlow) -> Seq<char> {
    "| "@ + b.display_name@ + " ("@ + b.tag@ + ") | "@ + shown(b.income.0 as int) + " | "@ + shown(
        b.expenses.0 as int,
    ) + " | "@ + shown(b.net.0 as int) + " |"@
}

/// Text followed by the rows of the businesses.
pub open spec fn with_business_lines(out: Seq<char>, bs: Seq<BusinessFlow>) -> Seq<char>
    decreases bs.len(),
{
    if bs.len() == 0 {
        out
    } else {
        line(with_business_lines(out, bs.drop_last()), business_line(bs.last()))
    }
}

/// Text followed by the cash flow of the businesses.
pub open spec fn with_businesses(out: Seq<char>, bs: Seq<BusinessFlow>) -> Seq<char> {
    let a = line(line(out, "## Cash flow by business"@), ""@);
    let b = if bs.len() == 0 {
        line(a, "_No businesses configured._"@)
    } else {
        with_business_lines(
            line(line(a, "| Business | Income | Expenses | Net |"@), "|---|---:|---:|---:|"@),
            bs,
        )
    };
    line(b, ""@)
}

fn push_businesses(out: &mut String, bs: &Vec<BusinessFlow>)
    ensures
        final(out)@ == with_businesses(old(out)@, bs@),
{
    push_line(out, "## Cash flow by business");
    push_line(out, "");
    if bs.len() == 0 {
        push_line(out, "_No businesses configured._");
    } else {
        push_line(out, "| Business | Income | Expenses | Net |");
        push_line(out, "|---|---:|---:|---:|");
        let ghost head = out@;
        let mut i: usize = 0;
        while i < bs.len()
            invariant
                i <= bs.len(),
                out@ == with_business_lines(head, bs@.take(i as int)),
            decreases bs.len() - i,
        {
            assert(bs@.take(i + 1).drop_last() == bs@.take(i as int));
            let b: &BusinessFlow = &bs[i];
            push_line(
                out,
                "| ".to_owned().concat(b.display_name.as_str()).concat(" (").concat(
                    b.tag.as_str(),
                ).concat(") | ").concat(b.income.to_string().as_str()).concat(" | ").concat(
                    b.expenses.to_string().as_str(),
                ).concat(" | ").concat(b.net.to_string().as_str()).concat(" |").as_str(),
            );
            i = i + 1;
        }
        assert(bs@.take(bs@.len() as int) == bs@);
    }
    push_line(out, "");
}

/// What is shown of a drift row's share of the total, in percent: the share to two
/// decimals, and its signed distance from the target.
#[derive(Debug)]
pub struct DriftShare {
    pub actual_pct: String,
    pub drift_pp: String,
}

/// The table row of a sleeve.
pub open spec fn drift_line(row: DriftRow, share: DriftShare) -> Seq<char> {
    let target = if row.targeted {
        "33.33"@
    } else {
        "0.00"@
    };
    let band = if row.targeted {
        "22–44%"@
    } else {
        "—"@
    };
    let status = if row.band_breach {
        "**BREACH**"@
    } else if row.targeted {
        "ok"@
    } else {
        "—"@
    };
    "| "@ + row.asset_class@ + " | "@ + shown(row.actual_cents.0 as int) + " | "@ + share.actual_pct@
        + "% | "@ + target + "% | "@ + share.drift_pp@ + " | "@ + band + " | "@ + status + " |"@
}

fn push_drift_line(out: &mut String, row: &DriftRow, share: &DriftShare)
    ensures
        final(out)@ == line(old(out)@, drift_line(*row, *share)),
{
    let target: &str = if row.targeted {
        "33.33"
    } else {
        "0.00"
    };
    let band: &str = if row.targeted {
        "22–44%"
    } else {
        "—"
    };
    let status: &str = if row.band_breach {
        "**BREACH**"
    } else if row.targeted {
        "ok"
    } else {
        "—"
    };
    push_line(
        out,
        "| ".to_owned().concat(row.asset_class.as_str()).concat(" | ").concat(
            row.actual_cents.to_string().as_str(),
        ).concat(" | ").concat(share.actual_pct.as_str()).concat("% | ").concat(target).concat(
            "% | ",
        ).concat(share.drift_pp.as_str()).concat(" | ").concat(band).concat(" | ").concat(
            status,
        ).concat(" |").as_str(),
    );
}

/// Text followed by the first `n` rows of the sleeves.
pub open spec fn with_drift_lines(
    out: Seq<char>,
    rows: Seq<DriftRow>,
    shares: Seq<DriftShare>,
    n: nat,
) -> Seq<char>
    decreases n,
{
    if n == 0 {
        out
    } else {
        line(
            with_drift_lines(out, rows, shares, (n - 1) as nat),
            drift_line(rows[n - 1], shares[n - 1]),
        )
    }
}

/// The heading of the drift table.
pub open spec fn drift_title() -> Seq<char> {
    "## Permanent portfolio drift (33×3, 22/44 bands)"@
}

/// Text followed by the total of tier 2.
pub open spec fn drift_head(out: Seq<char>, a: Allocation) -> Seq<char> {
    let b = line(line(out, "## Investment performance (Tier 2)"@), ""@);
    line(line(b, "T2 total: **"@ + shown(a.total.0 as int) + "**"@), ""@)
}

/// Text followed by tier 2: its total and the drift table.
pub open spec fn with_drift(
    out: Seq<char>,
    a: Allocation,
    rows: Seq<DriftRow>,
    shares: Seq<DriftShare>,
) -> Seq<char> {
    let d = line(line(drift_head(out, a), drift_title()), ""@);
    let e = if rows.len() == 0 || a.total.0 == 0 {
        line(d, "_No Tier-2 balances recorded._"@)
    } else {
        with_drift_lines(
            line(
                line(d, "| Sleeve | Actual | % | Target % | Drift pp | Band | Status |"@),
                "|---|---:|---:|---:|---:|---:|:--|"@,
            ),
            rows,
            shares,
            rows.len(),
        )
    };
    line(e, ""@)
}

fn push_drift(out: &mut String, a: &Allocation, rows: &Vec<DriftRow>, shares: &Vec<DriftShare>)
    requires
        shares@.len() == rows@.len(),
    ensures
        final(out)@ == with_drift(old(out)@, *a, rows@, shares@),
{
    push_line(out, "## Investment performance (Tier 2)");
    push_line(out, "");
    push_line(
        out,
        "T2 total: **".to_owned().concat(a.total.to_string().as_str()).concat("**").as_str(),
    );
    push_line(out, "");
    push_line(out, "## Permanent portfolio drift (33×3, 22/44 bands)");
    push_line(out, "");
    if rows.len() == 0 || a.total.0 == 0 {
        push_line(out, "_No Tier-2 balances recorded._");
    } else {
        push_line(out, "| Sleeve | Actual | % | Target % | Drift pp | Band | Status |");
        push_line(out, "|---|---:|---:|---:|---:|---:|:--|");
        let ghost head = out@;
        let mut i: usize = 0;
        while i < rows.len()
            invariant
                i <= rows.len(),
                shares@.len() == rows@.len(),
                out@ == with_drift_lines(head, rows@, shares@, i as nat),
            decreases rows.len() - i,
        {
            push_drift_line(out, &rows[i], &shares[i]);
            i = i + 1;
        }
    }
    push_line(out, "");
}

/// A row of two cells.
pub open spec fn pair_line(name: Seq<char>, amount: Cents) -> Seq<char> {
    "| "@ + name + " | "@ + shown(amount.0 as int) + " |"@
}

fn push_pair(out: &mut String, name: &str, amount: Cents)
    ensures
        final(out)@ == line(old(out)@, pair_line(name@, amount)),
{
    push_line(
        out,
        "| ".to_owned().concat(name).concat(" | ").concat(amount.to_string().as_str()).concat(
            " |",
        ).as_str(),
    );
}

/// Text followed by the backbone; the row of other assets only where there are any.
pub open spec fn with_backbone(out: Seq<char>, b: Backbone) -> Seq<char> {
    let c = line(line(out, "## Tier 1 backbone (hold-forever, info only)"@), ""@);
    let d = line(line(c, "| Asset | Latest |"@), "|---|---:|"@);
    let e = line(line(d, pair_line("Gold"@, b.gold)), pair_line("Silver"@, b.silver));
    let f = line(line(e, pair_line("XMR"@, b.xmr)), pair_line("Land"@, b.land));
    let g = line(f, pair_line("SFR"@, b.sfr));
    let h = if b.other.0 != 0 {
        line(g, pair_line("Other"@, b.other))
    } else {
        g
    };
    line(line(h, "| **Total** | **"@ + shown(b.total.0 as int) + "** |"@), ""@)
}

fn push_backbone(out: &mut String, b: &Backbone)
    ensures
        final(out)@ == with_backbone(old(out)@, *b),
{
    push_line(out, "## Tier 1 backbone (hold-forever, info only)");
    push_line(out, "");
    push_line(out, "| Asset | Latest |");
    push_line(out, "|---|---:|");
    push_pair(out, "Gold", b.gold);
    push_pair(out, "Silver", b.silver);
    push_pair(out, "XMR", b.xmr);
    push_pair(out, "Land", b.land);
    push_pair(out, "SFR", b.sfr);
    if b.other.0 != 0 {
        push_pair(out, "Other", b.other);
    }
    push_line(
        out,
        "| **Total** | **".to_owned().concat(b.total.to_string().as_str()).concat("** |").as_str(),
    );
    push_line(out, "");
}

/// Text followed by the debt paydown.
pub open spec fn with_paydown(out: Seq<char>, label: Seq<char>, paid: Cents) -> Seq<char> {
    let a = line(line(out, "## Debt paydown"@), ""@);
    line(
        line(
            a,
            "Principal reduced in "@ + label + ": **"@ + shown(paid.0 as int)
                + "** (positive = paid down)."@,
        ),
        ""@,
    )
}

fn push_paydown(out: &mut String, label: &str, paid: Cents)
    ensures
        final(out)@ == with_paydown(old(out)@, label@, paid),
{
    push_line(out, "## Debt paydown");
    push_line(out, "");
    push_line(
        out,
        "Principal reduced in ".to_owned().concat(label).concat(": **").concat(
            paid.to_string().as_str(),
        ).concat("** (positive = paid down).").as_str(),
    );
    push_line(out, "");
}

/// The table row of a category.
pub open spec fn expense_line(x: CategorySpend) -> Seq<char> {
    pair_line(x.category@, x.amount)
}

/// Text followed by the rows of the categories.
pub open spec fn with_expense_lines(out: Seq<char>, xs: Seq<CategorySpend>) -> Seq<char>
    decreases xs.len(),
{
    if xs.len() == 0 {
        out
    } else {
        line(with_expense_lines(out, xs.drop_last()), expense_line(xs.last()))
    }
}

/// Text followed by the top expense categories.
pub open spec fn with_expenses(out: Seq<char>, xs: Seq<CategorySpend>) -> Seq<char> {
    let a = line(line(out, "## Top expense categories"@), ""@);
    if xs.len() == 0 {
        line(a, "_No expense rows in window._"@)
    } else {
        with_expense_lines(
            line(line(a, "| Category | Spend |"@), "|---|---:|"@),
            xs,
        )
    }
}

fn push_expenses(out: &mut String, xs: &Vec<CategorySpend>)
    ensures
        final(out)@ == with_expenses(old(out)@, xs@),
{
    push_line(out, "## Top expense categories");
    push_line(out, "");
    if xs.len() == 0 {
        push_line(out, "_No expense rows in window._");
    } else {
        push_line(out, "| Category | Spend |");
        push_line(out, "|---|---:|");
        let ghost head = out@;
        let mut i: usize = 0;
        while i < xs.len()
            invariant
                i <= xs.len(),
                out@ == with_expense_lines(head, xs@.take(i as int)),
            decreases xs.len() - i,
        {
            assert(xs@.take(i + 1).drop_last() == xs@.take(i as int));
            let x: &CategorySpend = &xs[i];
            push_pair(out, x.category.as_str(), x.amount);
            i = i + 1;
        }
        assert(xs@.take(xs@.len() as int) == xs@);
    }
}

/// The table row of a subscription.
pub open spec fn usage_line(x: ApiUsageRow) -> Seq<char> {
    let amount = match x.amount {
        Some(c) => shown(c.0 as int),
        None => "—"@,
    };
    let cadence = match x.cadence {
        Some(c) => c@,
        None => "—"@,
    };
    "| "@ + x.name@ + " | "@ + x.provider_kind@ + " | "@ + amount + " | "@ + cadence + " |"@
}

/// Text followed by the rows of the subscriptions.
pub open spec fn with_usage_lines(out: Seq<char>, xs: Seq<ApiUsageRow>) -> Seq<char>
    decreases xs.len(),
{
    if xs.len() == 0 {
        out
    } else {
        line(with_usage_lines(out, xs.drop_last()), usage_line(xs.last()))
    }
}

/// Text followed by the active subscriptions.
pub open spec fn with_usage(out: Seq<char>, xs: Seq<ApiUsageRow>) -> Seq<char> {
    let a = line(line(out, "## API & subscriptions"@), ""@);
    if xs.len() == 0 {
        line(a, "_None active._"@)
    } else {
        with_usage_lines(
            line(line(a, "| Name | Kind | Latest | Cadence |"@), "|---|---|---:|---|"@),
            xs,
        )
    }
}

fn push_usage(out: &mut String, xs: &Vec<ApiUsageRow>)
    ensures
        final(out)@ == with_usage(old(out)@, xs@),
{
    push_line(out, "## API & subscriptions");
    push_line(out, "");
    if xs.len() == 0 {
        push_line(out, "_None active._");
    } else {
        push_line(out, "| Name | Kind | Latest | Cadence |");
        push_line(out, "|---|---|---:|---|");
        let ghost head = out@;
        let mut i: usize = 0;
        while i < xs.len()
            invariant
                i <= xs.len(),
                out@ == with_usage_lines(head, xs@.take(i as int)),
            decreases xs.len() - i,
        {
            assert(xs@.take(i + 1).drop_last() == xs@.take(i as int));
            let x: &ApiUsageRow = &xs[i];
            let amount: String = match x.amount {
                Some(c) => c.to_string(),
                None => "—".to_owned(),
            };
            let cadence: String = match &x.cadence {
                Some(c) => c.clone(),
                None => "—".to_owned(),
            };
            push_line(
                out,
                "| ".to_owned().concat(x.name.as_str()).concat(" | ").concat(
                    x.provider_kind.as_str(),
                ).concat(" | ").concat(amount.as_str()).concat(" | ").concat(
                    cadence.as_str(),
                ).concat(" |").as_str(),
            );
            i = i + 1;
        }
        assert(xs@.take(xs@.len() as int) == xs@);
    }
}

/// The table row of a recurring series.
pub open spec fn recurring_line(x: RecurringReportRow) -> Seq<char> {
    "| "@ + x.name@ + " | "@ + x.label@ + " | "@ + x.cadence@ + " | "@ + shown(x.last_amount.0 as int)
        + " | "@ + shown(x.avg_amount.0 as int) + " | "@ + date_in_ast(x.predicted_next) + " |"@
}

/// Text followed by the rows of the recurring series.
pub open spec fn with_recurring_lines(out: Seq<char>, xs: Seq<RecurringReportRow>) -> Seq<char>
    decreases xs.len(),
{
    if xs.len() == 0 {
        out
    } else {
        line(with_recurring_lines(out, xs.drop_last()), recurring_line(xs.last()))
    }
}

/// Text followed by the confirmed recurring series.
pub open spec fn with_recurring(out: Seq<char>, xs: Seq<RecurringReportRow>) -> Seq<char> {
    let a = line(line(out, "## Recurring (confirmed)"@), ""@);
    if xs.len() == 0 {
        line(a, "_No confirmed recurring series._"@)
    } else {
        with_recurring_lines(
            line(line(line(line(a, "_Amounts are observed history; next charge is an estimate._"@), ""@), "| Name | Label | Cadence | Last | Avg | Next (est) |"@), "|---|---|---|---:|---:|---|"@),
            xs,
        )
    }
}

fn push_recurring(out: &mut String, xs: &Vec<RecurringReportRow>)
    ensures
        final(out)@ == with_recurring(old(out)@, xs@),
{
    push_line(out, "## Recurring (confirmed)");
    push_line(out, "");
    if xs.len() == 0 {
        push_line(out, "_No confirmed recurring series._");
    } else {
        push_line(out, "_Amounts are observed history; next charge is an estimate._");
        push_line(out, "");
        push_line(out, "| Name | Label | Cadence | Last | Avg | Next (est) |");
        push_line(out, "|---|---|---|---:|---:|---|");
        let ghost head = out@;
        let mut i: usize = 0;
        while i < xs.len()
            invariant
                i <= xs.len(),
                out@ == with_recurring_lines(head, xs@.take(i as int)),
            decreases xs.len() - i,
        {
            assert(xs@.take(i + 1).drop_last() == xs@.take(i as int));
            let x: &RecurringReportRow = &xs[i];
            push_line(
                out,
                "| ".to_owned().concat(x.name.as_str()).concat(" | ").concat(
                    x.label.as_str(),
                ).concat(" | ").concat(x.cadence.as_str()).concat(" | ").concat(
                    x.last_amount.to_string().as_str(),
                ).concat(" | ").concat(x.avg_amount.to_string().as_str()).concat(" | ").concat(
                    ast_date(x.predicted_next).as_str(),
                ).concat(" |").as_str(),
            );
            i = i + 1;
        }
        assert(xs@.take(xs@.len() as int) == xs@);
    }
}

/// The report as Markdown.
pub open spec fn markdown(r: MonthlyReport, shares: Seq<DriftShare>) -> Seq<char> {
    let a = with_net_worth(Seq::<char>::empty(), r);
    let b = with_businesses(a, r.businesses@);
    let c = with_drift(b, r.pp_allocation, r.pp_drift@, shares);
    let d = with_backbone(c, r.backbone);
    let e = with_paydown(d, r.label@, r.debt_paydown);
    let f = line(with_expenses(e, r.top_expenses@), ""@);
    let g = line(with_usage(f, r.api_usage@), ""@);
    with_recurring(g, r.recurring@)
}

/// The report as Markdown. The shares are those of the drift rows, in their order.
pub fn render_markdown(r: &MonthlyReport, shares: &Vec<DriftShare>) -> (out: String)
    requires
        shares@.len() == r.pp_drift@.len(),
    ensures
        out@ == markdown(*r, shares@),
{
    let mut out: String = String::new();
    push_net_worth(&mut out, r);
    push_businesses(&mut out, &r.businesses);
    push_drift(&mut out, &r.pp_allocation, &r.pp_drift, shares);
    push_backbone(&mut out, &r.backbone);
    push_paydown(&mut out, r.label.as_str(), r.debt_paydown);
    push_expenses(&mut out, &r.top_expenses);
    push_line(&mut out, "");
    push_usage(&mut out, &r.api_usage);
    push_line(&mut out, "");
    push_recurring(&mut out, &r.recurring);
    out
}

/// Whether a text has a line, from its start or further on.
pub open spec fn has_line(text: Seq<char>, l: Seq<char>) -> bool {
    exists|head: Seq<char>| (#[trigger] line(head, l)).is_prefix_of(text)
}

proof fn lemma_line_keeps(a: Seq<char>, b: Seq<char>, l: Seq<char>)
    requires
        a.is_prefix_of(b),
    ensures
        a.is_prefix_of(line(b, l)),
{
    assert(a =~= line(b, l).subrange(0, a.len() as int));
}

proof fn lemma_rows_keep(
    a: Seq<char>,
    b: Seq<char>,
    r: MonthlyReport,
    shares: Seq<DriftShare>,
    n: nat,
)
    requires
        a.is_prefix_of(b),
    ensures
        n <= r.businesses@.len() ==> a.is_prefix_of(
            with_business_lines(b, r.businesses@.take(n as int)),
        ),
        a.is_prefix_of(with_drift_lines(b, r.pp_drift@, shares, n)),
        n <= r.top_expenses@.len() ==> a.is_prefix_of(
            with_expense_lines(b, r.top_expenses@.take(n as int)),
        ),
        n <= r.api_usage@.len() ==> a.is_prefix_of(
            with_usage_lines(b, r.api_usage@.take(n as int)),
        ),
        n <= r.recurring@.len() ==> a.is_prefix_of(
            with_recurring_lines(b, r.recurring@.take(n as int)),
        ),
    decreases n,
{
    if n > 0 {
        let m = (n - 1) as nat;
        lemma_rows_keep(a, b, r, shares, m);
        if n <= r.businesses@.len() {
            let xs = r.businesses@.take(n as int);
            assert(xs.drop_last() == r.businesses@.take(m as int));
            lemma_line_keeps(a, with_business_lines(b, xs.drop_last()), business_line(xs.last()));
        }
        lemma_line_keeps(
            a,
            with_drift_lines(b, r.pp_drift@, shares, m),
            drift_line(r.pp_drift@[n - 1], shares[n - 1]),
        );
        if n <= r.top_expenses@.len() {
            let xs = r.top_expenses@.take(n as int);
            assert(xs.drop_last() == r.top_expenses@.take(m as int));
            lemma_line_keeps(a, with_expense_lines(b, xs.drop_last()), expense_line(xs.last()));
        }
        if n <= r.api_usage@.len() {
            let xs = r.api_usage@.take(n as int);
            assert(xs.drop_last() == r.api_usage@.take(m as int));
            lemma_line_keeps(a, with_usage_lines(b, xs.drop_last()), usage_line(xs.last()));
        }
        if n <= r.recurring@.len() {
            let xs = r.recurring@.take(n as int);
            assert(xs.drop_last() == r.recurring@.take(m as int));
            lemma_line_keeps(a, with_recurring_lines(b, xs.drop_last()), recurring_line(xs.last()));
        }
    }
}

proof fn lemma_lines_keep()
    ensures
        forall|a: Seq<char>, b: Seq<char>, l: Seq<char>|
            a.is_prefix_of(b) ==> #[trigger] a.is_prefix_of(line(b, l)),
{
    assert forall|a: Seq<char>, b: Seq<char>, l: Seq<char>|
        a.is_prefix_of(b) implies #[trigger] a.is_prefix_of(line(b, l)) by {
        lemma_line_keeps(a, b, l);
    }
}

/// What stands up to the heading of a section stays.
proof fn lemma_section_keeps(
    a: Seq<char>,
    out: Seq<char>,
    r: MonthlyReport,
    shares: Seq<DriftShare>,
)
    ensures
        a.is_prefix_of(line(out, "## Cash flow by business"@)) ==> a.is_prefix_of(
            with_businesses(out, r.businesses@),
        ),
        a.is_prefix_of(line(drift_head(out, r.pp_allocation), drift_title())) ==> a.is_prefix_of(
            with_drift(out, r.pp_allocation, r.pp_drift@, shares),
        ),
        a.is_prefix_of(line(out, "## Tier 1 backbone (hold-forever, info only)"@))
            ==> a.is_prefix_of(with_backbone(out, r.backbone)),
        a.is_prefix_of(line(out, "## Debt paydown"@)) ==> a.is_prefix_of(
            with_paydown(out, r.label@, r.debt_paydown),
        ),
        a.is_prefix_of(line(out, "## Top expense categories"@)) ==> a.is_prefix_of(
            with_expenses(out, r.top_expenses@),
        ),
        a.is_prefix_of(line(out, "## API & subscriptions"@)) ==> a.is_prefix_of(
            with_usage(out, r.api_usage@),
        ),
        a.is_prefix_of(line(out, "## Recurring (confirmed)"@)) ==> a.is_prefix_of(
            with_recurring(out, r.recurring@),
        ),
{
    lemma_lines_keep();
    assert forall|b: Seq<char>| a.is_prefix_of(b) implies a.is_prefix_of(
        #[trigger] with_business_lines(b, r.businesses@),
    ) by {
        lemma_rows_keep(a, b, r, shares, r.businesses@.len());
        assert(r.businesses@.take(r.businesses@.len() as int) == r.businesses@);
    }
    assert forall|b: Seq<char>| a.is_prefix_of(b) implies a.is_prefix_of(
        #[trigger] with_drift_lines(b, r.pp_drift@, shares, r.pp_drift@.len()),
    ) by {
        lemma_rows_keep(a, b, r, shares, r.pp_drift@.len());
    }
    assert forall|b: Seq<char>| a.is_prefix_of(b) implies a.is_prefix_of(
        #[trigger] with_expense_lines(b, r.top_expenses@),
    ) by {
        lemma_rows_keep(a, b, r, shares, r.top_expenses@.len());
        assert(r.top_expenses@.take(r.top_expenses@.len() as int) == r.top_expenses@);
    }
    assert forall|b: Seq<char>| a.is_prefix_of(b) implies a.is_prefix_of(
        #[trigger] with_usage_lines(b, r.api_usage@),
    ) by {
        lemma_rows_keep(a, b, r, shares, r.api_usage@.len());
        assert(r.api_usage@.take(r.api_usage@.len() as int) == r.api_usage@);
    }
    assert forall|b: Seq<char>| a.is_prefix_of(b) implies a.is_prefix_of(
        #[trigger] with_recurring_lines(b, r.recurring@),
    ) by {
        lemma_rows_keep(a, b, r, shares, r.recurring@.len());
        assert(r.recurring@.take(r.recurring@.len() as int) == r.recurring@);
    }
}

/// The report up to a section: the cash flow of the businesses is the first after the net
/// worth.
spec fn report_before(r: MonthlyReport, shares: Seq<DriftShare>, section: nat) -> Seq<char>
    decreases section,
{
    if section == 0 {
        with_net_worth(Seq::<char>::empty(), r)
    } else {
        let out = report_before(r, shares, (section - 1) as nat);
        if section == 1 {
            with_businesses(out, r.businesses@)
        } else if section == 2 {
            with_drift(out, r.pp_allocation, r.pp_drift@, shares)
        } else if section == 3 {
            with_backbone(out, r.backbone)
        } else if section == 4 {
            with_paydown(out, r.label@, r.debt_paydown)
        } else if section == 5 {
            line(with_expenses(out, r.top_expenses@), ""@)
        } else if section == 6 {
            line(with_usage(out, r.api_usage@), ""@)
        } else {
            with_recurring(out, r.recurring@)
        }
    }
}

/// The report up to the heading of a section, and with it.
spec fn headed(r: MonthlyReport, shares: Seq<DriftShare>, section: nat) -> Seq<char> {
    let out = report_before(r, shares, section);
    if section == 0 {
        line(out, "## Cash flow by business"@)
    } else if section == 1 {
        line(drift_head(out, r.pp_allocation), drift_title())
    } else if section == 2 {
        line(out, "## Tier 1 backbone (hold-forever, info only)"@)
    } else if section == 3 {
        line(out, "## Debt paydown"@)
    } else if section == 4 {
        line(out, "## Top expense categories"@)
    } else if section == 5 {
        line(out, "## API & subscriptions"@)
    } else {
        line(out, "## Recurring (confirmed)"@)
    }
}

/// What stands up to the heading of a section is in the whole report.
proof fn lemma_headed_stays(
    x: Seq<char>,
    r: MonthlyReport,
    shares: Seq<DriftShare>,
    section: nat,
)
    requires
        section <= 6,
        x.is_prefix_of(headed(r, shares, section)),
    ensures
        x.is_prefix_of(report_before(r, shares, 7)),
    decreases 7 - section,
{
    let out = report_before(r, shares, section);
    let next = report_before(r, shares, section + 1);
    lemma_section_keeps(x, out, r, shares);
    if section == 4 {
        lemma_line_keeps(x, with_expenses(out, r.top_expenses@), ""@);
    } else if section == 5 {
        lemma_line_keeps(x, with_usage(out, r.api_usage@), ""@);
    }
    assert(x.is_prefix_of(next));
    if section < 6 {
        assert(x.is_prefix_of(headed(r, shares, section + 1))) by {
            lemma_lines_keep();
        }
        lemma_headed_stays(x, r, shares, section + 1);
    }
}

proof fn lemma_whole_report(r: MonthlyReport, shares: Seq<DriftShare>)
    ensures
        report_before(r, shares, 7) == markdown(r, shares),
{
    reveal_with_fuel(report_before, 8);
}

proof fn lemma_has_line(
    head: Seq<char>,
    l: Seq<char>,
    r: MonthlyReport,
    shares: Seq<DriftShare>,
    section: nat,
)
    requires
        section <= 6,
        line(head, l).is_prefix_of(headed(r, shares, section)),
    ensures
        has_line(markdown(r, shares), l),
{
    lemma_headed_stays(line(head, l), r, shares, section);
    lemma_whole_report(r, shares);
}

proof fn lemma_title_stands(r: MonthlyReport, shares: Seq<DriftShare>)
    ensures
        has_line(markdown(r, shares), "# arca monthly report — "@ + r.label@),
        has_line(markdown(r, shares), "## Net worth"@),
{
    let none = Seq::<char>::empty();
    let l = "# arca monthly report — "@ + r.label@;
    let title = line(none, l);
    let top = line(
        line(
            line(title, ""@),
            "Window: "@ + date_in_ast(r.since) + " → "@ + date_in_ast(r.until)
                + " (AST midnight boundaries)."@,
        ),
        ""@,
    );
    let worth = line(top, "## Net worth"@);
    assert(title.is_prefix_of(headed(r, shares, 0)) && worth.is_prefix_of(headed(r, shares, 0)))
        by {
        lemma_lines_keep();
    }
    lemma_has_line(none, l, r, shares, 0);
    lemma_has_line(top, "## Net worth"@, r, shares, 0);
}

proof fn lemma_heading_stands(
    head: Seq<char>,
    l: Seq<char>,
    r: MonthlyReport,
    shares: Seq<DriftShare>,
    section: nat,
)
    requires
        section <= 6,
        line(head, l) == headed(r, shares, section),
    ensures
        has_line(markdown(r, shares), l),
{
    assert(line(head, l) =~= line(head, l).subrange(0, line(head, l).len() as int));
    lemma_has_line(head, l, r, shares, section);
}

proof fn lemma_performance_stands(r: MonthlyReport, shares: Seq<DriftShare>)
    ensures
        has_line(markdown(r, shares), "## Investment performance (Tier 2)"@),
{
    let b = report_before(r, shares, 1);
    let x = line(b, "## Investment performance (Tier 2)"@);
    assert(x.is_prefix_of(headed(r, shares, 1))) by {
        lemma_lines_keep();
    }
    lemma_has_line(b, "## Investment performance (Tier 2)"@, r, shares, 1);
}

/// Every report has all its sections.
pub proof fn law_every_section_stands(r: MonthlyReport, shares: Seq<DriftShare>)
    ensures
        has_line(markdown(r, shares), "# arca monthly report — "@ + r.label@),
        has_line(markdown(r, shares), "## Net worth"@),
        has_line(markdown(r, shares), "## Cash flow by business"@),
        has_line(markdown(r, shares), "## Investment performance (Tier 2)"@),
        has_line(markdown(r, shares), drift_title()),
        has_line(markdown(r, shares), "## Tier 1 backbone (hold-forever, info only)"@),
        has_line(markdown(r, shares), "## Debt paydown"@),
        has_line(markdown(r, shares), "## Top expense categories"@),
        has_line(markdown(r, shares), "## API & subscriptions"@),
        has_line(markdown(r, shares), "## Recurring (confirmed)"@),
{
    lemma_title_stands(r, shares);
    lemma_performance_stands(r, shares);
    let at = |section: nat| report_before(r, shares, section);
    lemma_heading_stands(at(0), "## Cash flow by business"@, r, shares, 0);
    lemma_heading_stands(drift_head(at(1), r.pp_allocation), drift_title(), r, shares, 1);
    lemma_heading_stands(
        at(2),
        "## Tier 1 backbone (hold-forever, info only)"@,
        r,
        shares,
        2,
    );
    lemma_heading_stands(at(3), "## Debt paydown"@, r, shares, 3);
    lemma_heading_stands(at(4), "## Top expense categories"@, r, shares, 4);
    lemma_heading_stands(at(5), "## API & subscriptions"@, r, shares, 5);
    lemma_heading_stands(at(6), "## Recurring (confirmed)"@, r, shares, 6);
}

} // verus!
