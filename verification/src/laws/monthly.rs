//! Laws of the monthly report: the month that it covers, and what it holds.

use vstd::prelude::*;

verus! {

use crate::db::{active_accounts, Account, Business, SubscriptionRecord, Transaction};
use crate::ids::AccountId;
use crate::laws::balances::{adds, given, law_latest_balances, law_net_worth_adds_up, owes};
use crate::laws::flows::{has_category, law_spending_of_columns, spent, spent_on};
use crate::laws::lists::{law_active_subscriptions, law_sorting_by_name};
use crate::laws::tiers::ids_differ;
use crate::laws::transactions::law_income_and_expenses;
use crate::ledger::{
    active_subscriptions, are_expenses, are_latest, is_spending, past_net_worth, taken_by,
};
use crate::money::Cents;
use crate::order::{
    how_many, kept, law_sorting_keeps_items, lemma_kept, lemma_kept_from, lemma_kept_is_filter,
    lemma_same_items, lemma_sum_same, size_of, sum_over,
};
use crate::pp::is_drift;
use crate::recurring::is_listing;
use crate::report::{
    active_businesses, are_business_flows, are_recurring_rows, are_top_expenses, are_usage_rows,
    confirmed, is_flow, is_monthly_report, is_recurring_row, is_usage_row, next_dates, pairs_of,
    prior_window, reads_balances, tags_of, tier1, tier2, ApiUsageRow, Books, BusinessFlow,
    CategorySpend, MonthWindow, MonthlyReport, RecurringReportRow, TOP_EXPENSES,
};
use crate::rpc::LabeledSeries;
use crate::text::{dec2, lex_lt};
use crate::time::{ast_fields, ast_instant, year_text};

// ---------------------------------------------------------------------------
// The month
// ---------------------------------------------------------------------------

/// The number of a month, counted over the years.
pub open spec fn month_index(year: int, month: int) -> int {
    12 * year + month
}

/// The window is that of the month just before the one that the instant lies in: it begins with
/// the first day of its own month and ends where the month of the instant begins.
pub proof fn law_prior_month(as_of: i64, w: MonthWindow)
    requires
        prior_window(as_of) == Some(w),
        1 <= ast_fields(as_of).1 <= 12,
    ensures
        1 <= w.label_month <= 12,
        month_index(w.label_year as int, w.label_month as int) + 1 == month_index(
            ast_fields(as_of).0 as int,
            ast_fields(as_of).1 as int,
        ),
        ast_instant(w.label_year, w.label_month, 1, 0, 0) == Some(w.since),
        ast_instant(ast_fields(as_of).0, ast_fields(as_of).1, 1, 0, 0) == Some(w.until),
{
}

/// The windows of one month and the next abut, and within a month the window stays the same.
pub proof fn law_months_abut(as_of: i64, later: i64, w: MonthWindow, v: MonthWindow)
    requires
        prior_window(as_of) == Some(w),
        prior_window(later) == Some(v),
        1 <= ast_fields(as_of).1 <= 12,
        1 <= ast_fields(later).1 <= 12,
    ensures
        month_index(v.label_year as int, v.label_month as int) == month_index(
            w.label_year as int,
            w.label_month as int,
        ) + 1 ==> v.since == w.until,
        month_index(v.label_year as int, v.label_month as int) == month_index(
            w.label_year as int,
            w.label_month as int,
        ) ==> v == w,
{
    law_prior_month(as_of, w);
    law_prior_month(later, v);
}

// ---------------------------------------------------------------------------
// Businesses
// ---------------------------------------------------------------------------

/// Whether a flow tells what a business took in and paid in a window, and what remains.
pub open spec fn tells_of_business(
    f: BusinessFlow,
    b: Business,
    txns: Seq<Transaction>,
    since: i64,
    until: i64,
) -> bool {
    &&& f.tag@ == b.tag@
    &&& f.display_name@ == b.display_name@
    &&& f.income.0 == sum_over(
        txns,
        |t: Transaction|
            if t.business_id == Some(b.id) && since <= t.posted_at < until && t.amount_cents.0 > 0 {
                t.amount_cents.0 as int
            } else {
                0
            },
    )
    &&& f.expenses.0 == sum_over(
        txns,
        |t: Transaction|
            if t.business_id == Some(b.id) && since <= t.posted_at < until && t.amount_cents.0 < 0 {
                t.amount_cents.0 as int
            } else {
                0
            },
    )
    &&& f.net.0 == f.income.0 + f.expenses.0
    &&& f.net.0 == sum_over(
        txns,
        |t: Transaction|
            if t.business_id == Some(b.id) && since <= t.posted_at < until {
                t.amount_cents.0 as int
            } else {
                0
            },
    )
}

/// Whether a flow tells of a business that is switched on.
pub open spec fn of_active_business(
    f: BusinessFlow,
    bs: Seq<Business>,
    txns: Seq<Transaction>,
    since: i64,
    until: i64,
) -> bool {
    exists|k: int|
        0 <= k < bs.len() && (#[trigger] bs[k]).active && tells_of_business(
            f,
            bs[k],
            txns,
            since,
            until,
        )
}

/// Whether some flow tells of a business.
pub open spec fn has_flow(
    flows: Seq<BusinessFlow>,
    b: Business,
    txns: Seq<Transaction>,
    since: i64,
    until: i64,
) -> bool {
    exists|i: int|
        0 <= i < flows.len() && tells_of_business(#[trigger] flows[i], b, txns, since, until)
}

proof fn lemma_flow_tells(
    f: BusinessFlow,
    b: Business,
    txns: Seq<Transaction>,
    since: i64,
    until: i64,
)
    requires
        is_flow(f, b, txns, since, until),
    ensures
        tells_of_business(f, b, txns, since, until),
{
    law_income_and_expenses(Ok(f.income), Ok(f.expenses), txns, b.id, since, until);
    let x = |t: Transaction|
        t.business_id == Some(b.id) && since <= t.posted_at < until && t.amount_cents.0 > 0;
    let y = |t: Transaction|
        t.business_id == Some(b.id) && since <= t.posted_at < until && t.amount_cents.0 < 0;
    lemma_sum_same(
        txns,
        |t: Transaction|
            if x(t) {
                t.amount_cents.0 as int
            } else {
                0
            },
        |t: Transaction|
            if t.business_id == Some(b.id) && since <= t.posted_at < until && t.amount_cents.0 > 0 {
                t.amount_cents.0 as int
            } else {
                0
            },
    );
    lemma_sum_same(
        txns,
        |t: Transaction|
            if y(t) {
                t.amount_cents.0 as int
            } else {
                0
            },
        |t: Transaction|
            if t.business_id == Some(b.id) && since <= t.posted_at < until && t.amount_cents.0 < 0 {
                t.amount_cents.0 as int
            } else {
                0
            },
    );
}

/// There is a flow for each business that is switched on and for no other, by tag; it tells what
/// the business took in and paid in the window, and what remains is all that moved.
pub proof fn law_business_flows(
    flows: Seq<BusinessFlow>,
    bs: Seq<Business>,
    txns: Seq<Transaction>,
    since: i64,
    until: i64,
)
    requires
        are_business_flows(flows, bs, txns, since, until),
        bs.len() <= i64::MAX,
    ensures
        flows.len() == how_many(bs, |b: Business| b.active),
        forall|i: int|
            0 <= i < flows.len() ==> of_active_business(#[trigger] flows[i], bs, txns, since, until),
        forall|k: int|
            0 <= k < bs.len() && (#[trigger] bs[k]).active ==> has_flow(
                flows,
                bs[k],
                txns,
                since,
                until,
            ),
        forall|i: int, j: int|
            0 <= i < j < flows.len() ==> !lex_lt((#[trigger] flows[j]).tag@, (#[trigger] flows[i]).tag@),
{
    let p = |b: Business| b.active;
    let on = kept(bs, p);
    let out = active_businesses(bs);
    lemma_kept_is_filter(bs, p);
    lemma_kept(bs, p);
    lemma_kept_from(bs, p);
    let tag = |b: Business| b.tag@;
    assert(tags_of(on) =~= on.map_values(tag));
    law_sorting_by_name(on, tag);
    lemma_same_items(out, on);
    assert forall|i: int| 0 <= i < flows.len() implies of_active_business(
        #[trigger] flows[i],
        bs,
        txns,
        since,
        until,
    ) by {
        assert(out.contains(out[i]));
        let a = choose|a: int| 0 <= a < on.len() && on[a] == out[i];
        assert(p(on[a]) && bs.contains(on[a]));
        let k = choose|k: int| 0 <= k < bs.len() && bs[k] == out[i];
        assert(is_flow(flows[i], out[i], txns, since, until));
        lemma_flow_tells(flows[i], bs[k], txns, since, until);
        assert(bs[k].active);
    }
    assert forall|k: int| 0 <= k < bs.len() && (#[trigger] bs[k]).active implies has_flow(
        flows,
        bs[k],
        txns,
        since,
        until,
    ) by {
        assert(p(bs[k]));
        assert(out.contains(bs[k]));
        let i = choose|i: int| 0 <= i < out.len() && out[i] == bs[k];
        assert(is_flow(flows[i], out[i], txns, since, until));
        lemma_flow_tells(flows[i], bs[k], txns, since, until);
    }
    assert forall|i: int, j: int| 0 <= i < j < flows.len() implies !lex_lt(
        (#[trigger] flows[j]).tag@,
        (#[trigger] flows[i]).tag@,
    ) by {
        assert(!lex_lt(tag(out[j]), tag(out[i])));
        assert(is_flow(flows[i], out[i], txns, since, until));
        assert(is_flow(flows[j], out[j], txns, since, until));
    }
}

// ---------------------------------------------------------------------------
// Subscriptions and series
// ---------------------------------------------------------------------------

/// Whether a row tells of a subscription.
pub open spec fn tells_of_usage(row: ApiUsageRow, s: SubscriptionRecord) -> bool {
    &&& row.name@ == s.name@
    &&& row.provider_kind@ == s.provider_kind@
    &&& row.amount == s.amount_cents
    &&& row.cadence == s.cadence
}

/// Whether a row tells of a subscription that is switched on.
pub open spec fn of_active_usage(row: ApiUsageRow, subs: Seq<SubscriptionRecord>) -> bool {
    exists|k: int|
        0 <= k < subs.len() && (#[trigger] subs[k]).active && tells_of_usage(row, subs[k])
}

/// There is a row for each subscription that is switched on and for no other, by name.
pub proof fn law_usage_rows(rows: Seq<ApiUsageRow>, subs: Seq<SubscriptionRecord>)
    requires
        are_usage_rows(rows, subs),
        subs.len() <= i64::MAX,
    ensures
        rows.len() == how_many(subs, |s: SubscriptionRecord| s.active),
        forall|i: int| 0 <= i < rows.len() ==> of_active_usage(#[trigger] rows[i], subs),
        forall|k: int|
            0 <= k < subs.len() && (#[trigger] subs[k]).active ==> exists|i: int|
                0 <= i < rows.len() && tells_of_usage(#[trigger] rows[i], subs[k]),
        forall|i: int, j: int|
            0 <= i < j < rows.len() ==> !lex_lt((#[trigger] rows[j]).name@, (#[trigger] rows[i]).name@),
{
    let out = active_subscriptions(subs);
    law_active_subscriptions(out, subs);
    let on = subs.filter(|s: SubscriptionRecord| s.active);
    lemma_same_items(out, on);
    assert forall|i: int| 0 <= i < rows.len() implies of_active_usage(#[trigger] rows[i], subs) by {
        assert(is_usage_row(rows[i], out[i]));
        assert(subs.contains(out[i]) && out[i].active);
        let k = choose|k: int| 0 <= k < subs.len() && subs[k] == out[i];
        assert(subs[k].active && tells_of_usage(rows[i], subs[k]));
    }
    assert forall|k: int| 0 <= k < subs.len() && (#[trigger] subs[k]).active implies exists|i: int|
        0 <= i < rows.len() && tells_of_usage(#[trigger] rows[i], subs[k]) by {
        assert(out.contains(subs[k]));
        let i = choose|i: int| 0 <= i < out.len() && out[i] == subs[k];
        assert(is_usage_row(rows[i], out[i]));
        assert(tells_of_usage(rows[i], subs[k]));
    }
    assert forall|i: int, j: int| 0 <= i < j < rows.len() implies !lex_lt(
        (#[trigger] rows[j]).name@,
        (#[trigger] rows[i]).name@,
    ) by {
        assert(is_usage_row(rows[i], out[i]) && is_usage_row(rows[j], out[j]));
        assert(!lex_lt(out[j].name@, out[i].name@));
    }
}

/// Whether a row tells of a series that the operator has labelled: under their own name for it
/// where they gave one, and else as its charges are described.
pub open spec fn tells_of_series(row: RecurringReportRow, x: LabeledSeries) -> bool {
    &&& x.label is Some && row.label@ == x.label->0@
    &&& match x.display_name {
        Some(n) => row.name@ == n@,
        None => row.name@ == x.series.display@,
    }
    &&& row.last_amount == x.series.last_amount
    &&& row.avg_amount == x.series.avg_amount
    &&& row.predicted_next == x.series.predicted_next
}

/// There is a row for each series that carries a label and for no other, the soonest due first.
pub proof fn law_recurring_rows(rows: Seq<RecurringReportRow>, xs: Seq<LabeledSeries>)
    requires
        are_recurring_rows(rows, xs),
    ensures
        rows.len() == how_many(xs, |x: LabeledSeries| x.label is Some),
        forall|i: int|
            0 <= i < rows.len() ==> exists|k: int|
                0 <= k < xs.len() && tells_of_series(#[trigger] rows[i], #[trigger] xs[k]),
        forall|k: int|
            0 <= k < xs.len() && (#[trigger] xs[k]).label is Some ==> exists|i: int|
                0 <= i < rows.len() && tells_of_series(#[trigger] rows[i], xs[k]),
        forall|i: int, j: int|
            0 <= i < j < rows.len() ==> (#[trigger] rows[i]).predicted_next <= (
            #[trigger] rows[j]).predicted_next,
{
    let p = |x: LabeledSeries| x.label is Some;
    let on = kept(xs, p);
    let out = confirmed(xs);
    lemma_kept_is_filter(xs, p);
    lemma_kept(xs, p);
    lemma_kept_from(xs, p);
    let due = |x: LabeledSeries| x.series.predicted_next;
    assert(next_dates(on) =~= on.map_values(due));
    law_sorting_keeps_items(on, due);
    lemma_same_items(out, on);
    assert forall|i: int| 0 <= i < rows.len() implies exists|k: int|
        0 <= k < xs.len() && tells_of_series(#[trigger] rows[i], #[trigger] xs[k]) by {
        assert(is_recurring_row(rows[i], out[i]));
        assert(out.contains(out[i]));
        let a = choose|a: int| 0 <= a < on.len() && on[a] == out[i];
        assert(xs.contains(on[a]));
        let k = choose|k: int| 0 <= k < xs.len() && xs[k] == out[i];
        assert(tells_of_series(rows[i], xs[k]));
    }
    assert forall|k: int| 0 <= k < xs.len() && (#[trigger] xs[k]).label is Some implies exists|i: int|
        0 <= i < rows.len() && tells_of_series(#[trigger] rows[i], xs[k]) by {
        assert(p(xs[k]));
        assert(out.contains(xs[k]));
        let i = choose|i: int| 0 <= i < out.len() && out[i] == xs[k];
        assert(is_recurring_row(rows[i], out[i]));
        assert(tells_of_series(rows[i], xs[k]));
    }
    assert forall|i: int, j: int| 0 <= i < j < rows.len() implies (#[trigger] rows[i]).predicted_next
        <= (#[trigger] rows[j]).predicted_next by {
        assert(is_recurring_row(rows[i], out[i]) && is_recurring_row(rows[j], out[j]));
        assert(due(out[i]) <= due(out[j]));
    }
}

// ---------------------------------------------------------------------------
// The report
// ---------------------------------------------------------------------------

/// The categories of a report are at most ten, each once and with exactly what was spent under
/// it, the most first; one that is left out had no more spent than any that is listed.
pub proof fn law_top_expenses(
    rows: Seq<CategorySpend>,
    txns: Seq<Transaction>,
    since: i64,
    until: i64,
)
    requires
        are_top_expenses(rows, txns, since, until),
    ensures
        rows.len() <= 10,
        forall|i: int|
            0 <= i < rows.len() ==> (#[trigger] rows[i]).amount.0 == spent(
                txns,
                rows[i].category@,
                since,
                until,
            ),
        forall|i: int, j: int|
            0 <= i < j < rows.len() ==> (#[trigger] rows[i]).category@ != (
            #[trigger] rows[j]).category@ && rows[i].amount.0 <= rows[j].amount.0,
        forall|k: int, name: Seq<char>|
            0 <= k < txns.len() && #[trigger] spent_on(txns[k], name, since, until) ==> has_category(
                pairs_of(rows),
                name,
            ) || (rows.len() == 10 && forall|i: int|
                0 <= i < rows.len() ==> (#[trigger] rows[i]).amount.0 <= spent(
                    txns,
                    name,
                    since,
                    until,
                )),
{
    let out = pairs_of(rows);
    let (keys, values) = choose|keys: Seq<String>, values: Seq<i64>| #[trigger]
        are_expenses(keys, values, txns, since, until) && is_spending(
            out,
            keys,
            values,
            TOP_EXPENSES,
        );
    assert(are_expenses(keys, values, txns, since, until));
    law_spending_of_columns(out, keys, values, txns, since, until, TOP_EXPENSES);
    assert forall|i: int| 0 <= i < rows.len() implies #[trigger] out[i] == (
        rows[i].category,
        rows[i].amount,
    ) by {}
    assert forall|i: int| 0 <= i < rows.len() implies (#[trigger] rows[i]).amount.0 == spent(
        txns,
        rows[i].category@,
        since,
        until,
    ) by {
        assert(out[i].1.0 == spent(txns, out[i].0@, since, until));
    }
    assert forall|i: int, j: int| 0 <= i < j < rows.len() implies (#[trigger] rows[i]).category@ != (
    #[trigger] rows[j]).category@ && rows[i].amount.0 <= rows[j].amount.0 by {
        assert(out[i].0@ != out[j].0@ && out[i].1.0 <= out[j].1.0);
    }
    assert forall|k: int, name: Seq<char>|
        0 <= k < txns.len() && #[trigger] spent_on(txns[k], name, since, until) implies has_category(
        out,
        name,
    ) || (rows.len() == 10 && forall|i: int|
        0 <= i < rows.len() ==> (#[trigger] rows[i]).amount.0 <= spent(txns, name, since, until)) by {
        if !has_category(out, name) {
            assert forall|i: int| 0 <= i < rows.len() implies (#[trigger] rows[i]).amount.0 <= spent(
                txns,
                name,
                since,
                until,
            ) by {
                assert(out[i].1.0 <= spent(txns, name, since, until));
            }
        }
    }
}

/// The report on a month covers exactly its window. Its net worth is the sum of what the
/// accounts that are switched on add with their latest balances, and what was paid off the debts
/// is what went into debt accounts in the window with the sign turned.
pub proof fn law_monthly_report(r: MonthlyReport, b: Books, w: MonthWindow)
    requires
        is_monthly_report(r, b, w),
        ids_differ(b.accounts@),
        sum_over(
            active_accounts(b.accounts@),
            |a: Account| size_of(latest_of(b, a)),
        ) <= i64::MAX,
    ensures
        r.since == w.since,
        r.until == w.until,
        r.net_worth_now.0 == sum_over(
            active_accounts(b.accounts@),
            |a: Account| adds(a, latest_of(b, a)),
        ),
        r.debt_paydown.0 == sum_over(
            b.transactions@,
            |t: Transaction|
                if w.since <= t.posted_at && t.posted_at < w.until && owes(
                    b.accounts@,
                    t.account_id,
                ) {
                    -t.amount_cents.0
                } else {
                    0
                },
        ),
{
    let accounts = active_accounts(b.accounts@);
    let balances = choose|balances: Seq<(AccountId, Cents)>| #[trigger] reads_balances(r, b, balances);
    law_latest_balances(balances, b.snapshots@);
    assert forall|a: Account| #[trigger] latest_of(b, a) == match a.id {
        Some(id) => given(balances, id),
        None => 0,
    } by {
        match a.id {
            Some(id) => {
                crate::laws::balances::lemma_given_is_latest(balances, b.snapshots@, id);
            },
            None => {},
        }
    }
    let f = |a: Account| size_of(latest_of(b, a));
    let g = |a: Account|
        match a.id {
            Some(id) => size_of(given(balances, id)),
            None => 0,
        };
    lemma_sum_same(accounts, f, g);
    law_net_worth_adds_up(accounts, balances);
    lemma_sum_same(
        accounts,
        |a: Account| adds(a, latest_of(b, a)),
        |a: Account|
            match a.id {
                Some(id) => adds(a, given(balances, id)),
                None => 0,
            },
    );
    crate::laws::balances::law_debt_paydown(
        Ok(r.debt_paydown),
        b.accounts@,
        b.transactions@,
        w.since,
        w.until,
    );
}

/// The parts of the report are of its own month: the earlier net worth is that at its start, the
/// businesses and the categories are those of its window, the tiers are of the accounts that are
/// switched on, and the series are those that three charges or more make. Its label is the month
/// of its window.
pub proof fn law_report_parts(r: MonthlyReport, b: Books, w: MonthWindow)
    requires
        is_monthly_report(r, b, w),
    ensures
        r.net_worth_prior == past_net_worth(b.accounts@, taken_by(b.snapshots@, r.since)),
        are_business_flows(r.businesses@, b.businesses@, b.transactions@, r.since, r.until),
        are_top_expenses(r.top_expenses@, b.transactions@, r.since, r.until),
        are_usage_rows(r.api_usage@, b.subscriptions@),
        is_drift(r.pp_drift@, r.pp_allocation),
        r.label@ == year_text(w.label_year as int) + "-"@ + dec2(w.label_month as nat),
        exists|balances: Seq<(AccountId, Cents)>|
            are_latest(balances, b.snapshots@) && r.pp_allocation == #[trigger] tier2(
                balances,
                active_accounts(b.accounts@),
            ) && r.backbone == tier1(balances, active_accounts(b.accounts@)),
        exists|xs: Seq<LabeledSeries>| #[trigger]
            is_listing(xs, b.transactions@, b.labels@, 3, false) && are_recurring_rows(
                r.recurring@,
                xs,
            ),
{
    let balances = choose|balances: Seq<(AccountId, Cents)>| #[trigger] reads_balances(r, b, balances);
    assert(r.pp_allocation == tier2(balances, active_accounts(b.accounts@)));
}

/// The amount of the latest reading of an account; zero where it has none.
pub open spec fn latest_of(b: Books, a: Account) -> int {
    match a.id {
        Some(id) => crate::laws::balances::latest_amount(b.snapshots@, id),
        None => 0,
    }
}

} // verus!
