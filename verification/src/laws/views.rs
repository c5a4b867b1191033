//! Laws of what the daemon answers: money, a business, the portfolio, debts, transactions, charts
//! and categories.

use vstd::prelude::*;

verus! {

use crate::alerts::AlertReading;
use crate::db::{active_accounts, has_tag, Account, AlertRule, Business, StoredLabel, Transaction};
use crate::handler::{
    are_month_flows, balance_of, by_kind_and_balance, falling_keys, flow_of, has_account_id,
    has_kind, is_account_line, is_alerts_page, is_business, is_categories, is_charts, is_debts,
    is_health, is_money, is_money_view, is_month_flow, is_of, is_pp, is_recurring_page,
    is_subscription, is_subscription_row, is_tx_page, is_tx_row, kind_count, kind_total, kinds_of,
    line_accounts, months_back, names_of, subscription_accounts, Tables,
};
use crate::ids::{AccountId, BusinessId};
use crate::laws::balances::{adds, given, latest_amount, lemma_given, lemma_given_is_latest};
use crate::laws::flows::spent;
use crate::laws::lists::law_sorting_by_name;
use crate::laws::monthly::month_index;
use crate::laws::obligations::law_owed_adds_up;
use crate::laws::tiers::ids_differ;
use crate::laws::transactions::{asked_for, law_listing, lemma_sum_of_kept, lemma_total_is_exact};
use crate::ledger::{amounts, counts, listed, total, within};
use crate::money::Cents;
use crate::order::{
    first_index, how_many, kept, law_sorting_keeps_items, lemma_first_index_is_first, lemma_kept,
    lemma_kept_from, lemma_kept_is_filter, lemma_kept_same, lemma_same_items, lemma_sum_bounded,
    lemma_sum_of_same_items, lemma_sum_same, size_of, sorted_by_keys, sum_over,
};
use crate::recurring::is_listing;
use crate::rpc::{
    AccountLine, AlertsPage, BusinessSnapshot, CategoriesSnapshot, ChartsSnapshot, DebtBalance,
    DebtSnapshot, HealthInfo, MoneySnapshot, MonthFlow, PpSnapshot, RecurringPage, Scope,
    SubscriptionRow, TxListPage, TxRow,
};
use crate::text::{dec_int, lex_lt};
use crate::time::{utc_fields, utc_midnight};

/// The balance of an account: the amount of its latest reading.
pub open spec fn balance_now(t: Tables, a: Account) -> int {
    match a.id {
        Some(id) => latest_amount(t.snapshots@, id),
        None => 0,
    }
}

proof fn lemma_balance_now(t: Tables, balances: Seq<(AccountId, Cents)>)
    requires
        crate::ledger::are_latest(balances, t.snapshots@),
    ensures
        forall|a: Account| (#[trigger] balance_of(a, balances)).0 == balance_now(t, a),
{
    assert forall|a: Account| (#[trigger] balance_of(a, balances)).0 == balance_now(t, a) by {
        match a.id {
            Some(id) => {
                lemma_given(balances, id);
                lemma_given_is_latest(balances, t.snapshots@, id);
            },
            None => {},
        }
    }
}

/// Whether an account counts toward net worth: it is in dollars and no subscription.
pub open spec fn counts_now(a: Account) -> bool {
    a.currency@ == "USD"@ && a.kind@ != "subscription"@
}

/// Whether the balances are small enough to add up.
pub open spec fn balances_fit(t: Tables) -> bool {
    sum_over(active_accounts(t.accounts@), |a: Account| size_of(balance_now(t, a))) <= i64::MAX
}

// ---------------------------------------------------------------------------
// Money
// ---------------------------------------------------------------------------

/// Whether a line tells of an account and its balance.
pub open spec fn tells_of_account(l: AccountLine, a: Account, t: Tables) -> bool {
    &&& l.name@ == a.name@
    &&& l.kind@ == a.kind@
    &&& l.currency@ == a.currency@
    &&& l.balance.0 == balance_now(t, a)
    &&& l.excluded_from_nw == (a.currency@ != "USD"@)
}

/// The net worth is the sum of what the accounts that are switched on add with their latest
/// balances.
pub proof fn law_money_net_worth(m: MoneySnapshot, t: Tables, now: i64)
    requires
        is_money_view(m, t, now),
        balances_fit(t),
    ensures
        m.asof_secs == now,
        m.net_worth.0 == sum_over(
            active_accounts(t.accounts@),
            |a: Account| adds(a, balance_now(t, a)),
        ),
{
    let balances = choose|balances: Seq<(AccountId, Cents)>| #[trigger] is_money(m, t, now, balances);
    let accounts = active_accounts(t.accounts@);
    assert forall|a: Account| #[trigger] balance_now(t, a) == match a.id {
        Some(id) => given(balances, id),
        None => 0,
    } by {
        match a.id {
            Some(id) => {
                lemma_given_is_latest(balances, t.snapshots@, id);
            },
            None => {},
        }
    }
    lemma_sum_same(
        accounts,
        |a: Account| size_of(balance_now(t, a)),
        |a: Account|
            match a.id {
                Some(id) => size_of(given(balances, id)),
                None => 0,
            },
    );
    crate::laws::balances::law_net_worth_adds_up(accounts, balances);
    lemma_sum_same(
        accounts,
        |a: Account| adds(a, balance_now(t, a)),
        |a: Account|
            match a.id {
                Some(id) => adds(a, given(balances, id)),
                None => 0,
            },
    );
}

/// The total of a kind adds up the balances of the accounts of that kind.
proof fn lemma_kind_total(
    accounts: Seq<Account>,
    balances: Seq<(AccountId, Cents)>,
    kind: Seq<char>,
)
    requires
        sum_over(accounts, |a: Account| size_of(balance_of(a, balances).0 as int)) <= i64::MAX,
    ensures
        kind_total(accounts, balances, kind).0 == sum_over(
            accounts,
            |a: Account|
                if a.kind@ == kind {
                    balance_of(a, balances).0 as int
                } else {
                    0
                },
        ),
        kind_count(accounts, kind) == how_many(accounts, |a: Account| a.kind@ == kind),
    decreases accounts.len(),
{
    reveal(Seq::filter);
    let g = |a: Account| size_of(balance_of(a, balances).0 as int);
    let f = |a: Account|
        if a.kind@ == kind {
            balance_of(a, balances).0 as int
        } else {
            0
        };
    lemma_sum_bounded(accounts, f, g);
    if accounts.len() > 0 {
        lemma_kind_total(accounts.drop_last(), balances, kind);
    }
}

/// Whether an account is of a kind and counts.
pub open spec fn counts_as(a: Account, kind: Seq<char>) -> bool {
    counts_now(a) && a.kind@ == kind
}

/// What the accounts of a kind that are switched on and count hold together.
pub open spec fn held_in(t: Tables, kind: Seq<char>) -> int {
    sum_over(
        active_accounts(t.accounts@),
        |a: Account|
            if counts_as(a, kind) {
                balance_now(t, a)
            } else {
                0
            },
    )
}

/// How many accounts of a kind are switched on and count.
pub open spec fn number_of(t: Tables, kind: Seq<char>) -> nat {
    how_many(active_accounts(t.accounts@), |a: Account| counts_as(a, kind))
}

/// Each kind of account that counts is listed once, with the sum of the balances of its accounts
/// that are switched on and how many they are.
pub proof fn law_money_by_kind(m: MoneySnapshot, t: Tables, now: i64)
    requires
        is_money_view(m, t, now),
        balances_fit(t),
    ensures
        forall|i: int|
            0 <= i < m.by_kind@.len() ==> (#[trigger] m.by_kind@[i]).total.0 == held_in(
                t,
                m.by_kind@[i].kind@,
            ) && m.by_kind@[i].account_count == number_of(t, m.by_kind@[i].kind@),
        forall|i: int, j: int|
            0 <= i < j < m.by_kind@.len() ==> lex_lt(
                (#[trigger] m.by_kind@[i]).kind@,
                (#[trigger] m.by_kind@[j]).kind@,
            ),
        forall|k: int|
            0 <= k < active_accounts(t.accounts@).len() && counts_now(
                #[trigger] active_accounts(t.accounts@)[k],
            ) ==> has_kind(m.by_kind@, active_accounts(t.accounts@)[k].kind@),
{
    let balances = choose|balances: Seq<(AccountId, Cents)>| #[trigger] is_money(m, t, now, balances);
    let accounts = active_accounts(t.accounts@);
    lemma_balance_now(t, balances);
    let p = |a: Account| counts(a);
    let xs = kept(accounts, p);
    let size = |a: Account| size_of(balance_of(a, balances).0 as int);
    lemma_kept_sums(accounts, p, size);
    lemma_sum_same(accounts, size, |a: Account| size_of(balance_now(t, a)));
    lemma_sum_at_most(
        accounts,
        |a: Account|
            if p(a) {
                size(a)
            } else {
                0
            },
        size,
    );
    assert forall|i: int| 0 <= i < m.by_kind@.len() implies (#[trigger] m.by_kind@[i]).total.0
        == held_in(t, m.by_kind@[i].kind@) && m.by_kind@[i].account_count == number_of(
        t,
        m.by_kind@[i].kind@,
    ) by {
        let kind = m.by_kind@[i].kind@;
        lemma_kind_total(xs, balances, kind);
        let f = |a: Account|
            if a.kind@ == kind {
                balance_of(a, balances).0 as int
            } else {
                0
            };
        lemma_kept_sums(accounts, p, f);
        lemma_sum_same(
            accounts,
            |a: Account|
                if p(a) {
                    f(a)
                } else {
                    0
                },
            |a: Account|
                if counts_as(a, kind) {
                    balance_now(t, a)
                } else {
                    0
                },
        );
        let q = |a: Account| a.kind@ == kind;
        let r = |a: Account| counts_as(a, kind);
        lemma_count_of_kept(accounts, p, q, r);
    }
    assert forall|k: int| 0 <= k < accounts.len() && counts_now(#[trigger] accounts[k]) implies has_kind(
        m.by_kind@,
        accounts[k].kind@,
    ) by {
        lemma_kept(accounts, p);
        assert(p(accounts[k]));
        assert(xs.contains(accounts[k]));
        let j = choose|j: int| 0 <= j < xs.len() && xs[j] == accounts[k];
        assert(has_kind(m.by_kind@, xs[j].kind@));
    }
}

/// The sum over what is kept, over all items.
proof fn lemma_kept_sums(s: Seq<Account>, p: spec_fn(Account) -> bool, f: spec_fn(Account) -> int)
    ensures
        sum_over(kept(s, p), f) == sum_over(
            s,
            |x: Account|
                if p(x) {
                    f(x)
                } else {
                    0
                },
        ),
    decreases s.len(),
{
    if s.len() > 0 {
        lemma_kept_sums(s.drop_last(), p, f);
        if p(s.last()) {
            assert(kept(s, p).drop_last() =~= kept(s.drop_last(), p));
        }
    }
}

proof fn lemma_sum_at_most(s: Seq<Account>, f: spec_fn(Account) -> int, g: spec_fn(Account) -> int)
    requires
        forall|a: Account| #[trigger] f(a) <= g(a),
    ensures
        sum_over(s, f) <= sum_over(s, g),
    decreases s.len(),
{
    if s.len() > 0 {
        lemma_sum_at_most(s.drop_last(), f, g);
        assert(f(s.last()) <= g(s.last()));
    }
}

proof fn lemma_count_of_kept(
    s: Seq<Account>,
    p: spec_fn(Account) -> bool,
    q: spec_fn(Account) -> bool,
    r: spec_fn(Account) -> bool,
)
    requires
        forall|a: Account| #[trigger] r(a) == (p(a) && q(a)),
    ensures
        how_many(kept(s, p), q) == how_many(s, r),
    decreases s.len(),
{
    reveal(Seq::filter);
    if s.len() > 0 {
        lemma_count_of_kept(s.drop_last(), p, q, r);
        assert(r(s.last()) == (p(s.last()) && q(s.last())));
        if p(s.last()) {
            assert(kept(s, p).drop_last() =~= kept(s.drop_last(), p));
        }
    }
}

/// Whether a line tells of one of the accounts that are no subscriptions.
pub open spec fn of_plain_account(l: AccountLine, accounts: Seq<Account>, t: Tables) -> bool {
    exists|k: int|
        0 <= k < accounts.len() && (#[trigger] accounts[k]).kind@ != "subscription"@
            && tells_of_account(l, accounts[k], t)
}

/// Whether some line tells of an account.
pub open spec fn has_line(ls: Seq<AccountLine>, a: Account, t: Tables) -> bool {
    exists|i: int| 0 <= i < ls.len() && tells_of_account(#[trigger] ls[i], a, t)
}

/// There is a line for each account that is switched on and no subscription, and for no other,
/// with its latest balance; the kinds come in order, and within a kind the largest balance first.
pub proof fn law_money_lines(m: MoneySnapshot, t: Tables, now: i64)
    requires
        is_money_view(m, t, now),
        t.accounts@.len() <= i64::MAX,
        active_accounts(t.accounts@).len() <= i64::MAX,
    ensures
        m.accounts@.len() == how_many(
            active_accounts(t.accounts@),
            |a: Account| a.kind@ != "subscription"@,
        ),
        forall|i: int|
            0 <= i < m.accounts@.len() ==> of_plain_account(
                #[trigger] m.accounts@[i],
                active_accounts(t.accounts@),
                t,
            ),
        forall|k: int|
            0 <= k < active_accounts(t.accounts@).len() && (#[trigger] active_accounts(
                t.accounts@,
            )[k]).kind@ != "subscription"@ ==> has_line(
                m.accounts@,
                active_accounts(t.accounts@)[k],
                t,
            ),
        forall|i: int, j: int|
            0 <= i < j < m.accounts@.len() ==> lex_lt(
                (#[trigger] m.accounts@[i]).kind@,
                (#[trigger] m.accounts@[j]).kind@,
            ) || (m.accounts@[i].kind@ == m.accounts@[j].kind@ && m.accounts@[i].balance.0
                >= m.accounts@[j].balance.0),
{
    let balances = choose|balances: Seq<(AccountId, Cents)>| #[trigger] is_money(m, t, now, balances);
    let accounts = active_accounts(t.accounts@);
    lemma_balance_now(t, balances);
    let p = |a: Account| !is_subscription(a);
    let q = |a: Account| a.kind@ != "subscription"@;
    assert forall|a: Account| p(a) == #[trigger] q(a) by {}
    lemma_kept_same(accounts, p, q);
    lemma_kept_is_filter(accounts, q);
    lemma_kept(accounts, q);
    lemma_kept_from(accounts, q);
    let on = kept(accounts, q);
    let xs = line_accounts(accounts, balances);
    lemma_kind_order_keeps(on, balances);
    assert(xs == by_kind_and_balance(on, balances));
    lemma_same_items(xs, on);
    assert forall|i: int| 0 <= i < m.accounts@.len() implies of_plain_account(
        #[trigger] m.accounts@[i],
        accounts,
        t,
    ) by {
        assert(is_account_line(m.accounts@[i], xs[i], balances));
        assert(xs.contains(xs[i]));
        let a = choose|a: int| 0 <= a < on.len() && on[a] == xs[i];
        assert(q(on[a]) && accounts.contains(on[a]));
        let k = choose|k: int| 0 <= k < accounts.len() && accounts[k] == xs[i];
        assert(balance_of(accounts[k], balances).0 == balance_now(t, accounts[k]));
        assert(accounts[k].kind@ != "subscription"@ && tells_of_account(
            m.accounts@[i],
            accounts[k],
            t,
        ));
    }
    assert forall|k: int|
        0 <= k < accounts.len() && (#[trigger] accounts[k]).kind@ != "subscription"@ implies has_line(
        m.accounts@,
        accounts[k],
        t,
    ) by {
        assert(q(accounts[k]));
        assert(xs.contains(accounts[k]));
        let i = choose|i: int| 0 <= i < xs.len() && xs[i] == accounts[k];
        assert(is_account_line(m.accounts@[i], xs[i], balances));
        assert(balance_of(accounts[k], balances).0 == balance_now(t, accounts[k]));
        assert(tells_of_account(m.accounts@[i], accounts[k], t));
    }
    assert forall|i: int, j: int| 0 <= i < j < m.accounts@.len() implies lex_lt(
        (#[trigger] m.accounts@[i]).kind@,
        (#[trigger] m.accounts@[j]).kind@,
    ) || (m.accounts@[i].kind@ == m.accounts@[j].kind@ && m.accounts@[i].balance.0
        >= m.accounts@[j].balance.0) by {
        assert(is_account_line(m.accounts@[i], xs[i], balances));
        assert(is_account_line(m.accounts@[j], xs[j], balances));
        crate::handler::law_lines_in_order(on, balances, i, j);
    }
}

proof fn lemma_kind_order_keeps(xs: Seq<Account>, balances: Seq<(AccountId, Cents)>)
    requires
        xs.len() <= i64::MAX,
    ensures
        by_kind_and_balance(xs, balances).to_multiset() == xs.to_multiset(),
{
    let key = |a: Account| (-1 - balance_of(a, balances).0) as i64;
    assert(falling_keys(xs, balances) =~= xs.map_values(key));
    law_sorting_keeps_items(xs, key);
    let ys = sorted_by_keys(xs, falling_keys(xs, balances));
    let kind = |a: Account| a.kind@;
    assert(kinds_of(ys) =~= ys.map_values(kind));
    law_sorting_by_name(ys, kind);
}

/// Whether a row tells of a subscription account.
pub open spec fn tells_of_subscription(r: SubscriptionRow, a: Account, t: Tables) -> bool {
    &&& a.kind@ == "subscription"@
    &&& r.name@ == a.name@
    &&& r.currency@ == a.currency@
    &&& r.latest.0 == balance_now(t, a)
    &&& match a.provider_id {
        Some(p) => r.source is Some && r.source->0@ == dec_int(p.0 as int),
        None => r.source is None,
    }
}

/// There is a row for each subscription account that is switched on, and for no other, by name.
pub proof fn law_money_subscriptions(m: MoneySnapshot, t: Tables, now: i64)
    requires
        is_money_view(m, t, now),
        active_accounts(t.accounts@).len() <= i64::MAX,
    ensures
        m.subscriptions@.len() == how_many(
            active_accounts(t.accounts@),
            |a: Account| a.kind@ == "subscription"@,
        ),
        forall|i: int|
            0 <= i < m.subscriptions@.len() ==> exists|k: int|
                0 <= k < active_accounts(t.accounts@).len() && tells_of_subscription(
                    #[trigger] m.subscriptions@[i],
                    #[trigger] active_accounts(t.accounts@)[k],
                    t,
                ),
        forall|i: int, j: int|
            0 <= i < j < m.subscriptions@.len() ==> !lex_lt(
                (#[trigger] m.subscriptions@[j]).name@,
                (#[trigger] m.subscriptions@[i]).name@,
            ),
{
    let balances = choose|balances: Seq<(AccountId, Cents)>| #[trigger] is_money(m, t, now, balances);
    let accounts = active_accounts(t.accounts@);
    lemma_balance_now(t, balances);
    let p = |a: Account| is_subscription(a);
    let q = |a: Account| a.kind@ == "subscription"@;
    assert forall|a: Account| p(a) == #[trigger] q(a) by {}
    lemma_kept_same(accounts, p, q);
    lemma_kept_is_filter(accounts, q);
    lemma_kept(accounts, q);
    lemma_kept_from(accounts, q);
    let on = kept(accounts, q);
    let xs = subscription_accounts(accounts);
    let name = |a: Account| a.name@;
    assert(names_of(on) =~= on.map_values(name));
    law_sorting_by_name(on, name);
    lemma_same_items(xs, on);
    assert forall|i: int| 0 <= i < m.subscriptions@.len() implies exists|k: int|
        0 <= k < accounts.len() && tells_of_subscription(
            #[trigger] m.subscriptions@[i],
            #[trigger] accounts[k],
            t,
        ) by {
        assert(is_subscription_row(m.subscriptions@[i], xs[i], balances));
        assert(xs.contains(xs[i]));
        let a = choose|a: int| 0 <= a < on.len() && on[a] == xs[i];
        assert(q(on[a]) && accounts.contains(on[a]));
        let k = choose|k: int| 0 <= k < accounts.len() && accounts[k] == xs[i];
        assert(balance_of(accounts[k], balances).0 == balance_now(t, accounts[k]));
        assert(tells_of_subscription(m.subscriptions@[i], accounts[k], t));
    }
    assert forall|i: int, j: int| 0 <= i < j < m.subscriptions@.len() implies !lex_lt(
        (#[trigger] m.subscriptions@[j]).name@,
        (#[trigger] m.subscriptions@[i]).name@,
    ) by {
        assert(is_subscription_row(m.subscriptions@[i], xs[i], balances));
        assert(is_subscription_row(m.subscriptions@[j], xs[j], balances));
        assert(!lex_lt(name(xs[j]), name(xs[i])));
    }
}

// ---------------------------------------------------------------------------
// A business
// ---------------------------------------------------------------------------

/// What a business moved in a window, in one direction or in all.
pub open spec fn moved(
    rows: Seq<Transaction>,
    id: BusinessId,
    w: (i64, i64),
    takes: spec_fn(int) -> bool,
) -> int {
    sum_over(
        rows,
        |t: Transaction|
            if t.business_id == Some(id) && w.0 <= t.posted_at && t.posted_at < w.1 && takes(
                t.amount_cents.0 as int,
            ) {
                t.amount_cents.0 as int
            } else {
                0
            },
    )
}

proof fn lemma_flow_of(rows: Seq<Transaction>, id: BusinessId, until: i64, inflow: bool)
    requires
        sum_over(rows, |t: Transaction| size_of(t.amount_cents.0 as int)) <= i64::MAX,
    ensures
        flow_of(rows, id, until, inflow).0 == sum_over(
            rows,
            |t: Transaction|
                if is_of(t, id, until) && (t.amount_cents.0 >= 0) == inflow {
                    t.amount_cents.0 as int
                } else {
                    0
                },
        ),
    decreases rows.len(),
{
    let g = |t: Transaction| size_of(t.amount_cents.0 as int);
    let f = |t: Transaction|
        if is_of(t, id, until) && (t.amount_cents.0 >= 0) == inflow {
            t.amount_cents.0 as int
        } else {
            0
        };
    lemma_sum_bounded(rows, f, g);
    if rows.len() > 0 {
        lemma_flow_of(rows.drop_last(), id, until, inflow);
    }
}

/// The answer on a business tells what it took in, what it paid and what remains in the window,
/// over all transactions from its start on; what it took in and what it paid make what remains.
pub proof fn law_business_view(
    x: BusinessSnapshot,
    t: Tables,
    tag: Seq<char>,
    scope: Scope,
    w: (i64, i64),
    b: Business,
)
    requires
        is_business(Ok(x), t, tag, scope, w),
        has_first(t.businesses@, tag, b),
        sum_over(t.transactions@, |t: Transaction| size_of(t.amount_cents.0 as int)) <= i64::MAX,
        t.transactions@.len() < 1_000_000,
    ensures
        x.tag@ == tag,
        x.display_name@ == b.display_name@,
        x.scope == scope,
        x.income.0 == moved(t.transactions@, b.id, w, |a: int| a > 0),
        x.expenses.0 == moved(t.transactions@, b.id, w, |a: int| a < 0),
        x.net.0 == moved(t.transactions@, b.id, w, |a: int| true),
        x.net.0 == x.income.0 + x.expenses.0,
{
    let p = |y: Business| has_tag(y, tag);
    lemma_first_index_is_first(t.businesses@, p);
    let k = crate::db::business_slot(t.businesses@, tag);
    let j = choose|j: int|
        0 <= j < t.businesses@.len() && t.businesses@[j] == b && b.tag@ == tag && (forall|i: int|
            0 <= i < j ==> (#[trigger] t.businesses@[i]).tag@ != tag);
    assert(p(t.businesses@[j]));
    if k < j {
        assert(p(t.businesses@[k]));
    } else if j < k {
        assert(!p(t.businesses@[j]));
    }
    let all = t.transactions@;
    let rows = listed(all, Some(w.0), None, crate::handler::BUSINESS_ROWS);
    law_listing(rows, all, Some(w.0), None, crate::handler::BUSINESS_ROWS);
    let none: Option<Seq<char>> = None;
    let from = |t: Transaction| asked_for(t, Some(w.0), none);
    lemma_kept_is_filter(all, from);
    lemma_kept(all, from);
    lemma_listing_short(rows, all, w.0);
    let size = |t: Transaction| size_of(t.amount_cents.0 as int);
    lemma_sum_of_same_items(rows, all.filter(from), size);
    lemma_sum_filtered(all, from, size);
    lemma_smaller(
        all,
        |t: Transaction|
            if from(t) {
                size(t)
            } else {
                0
            },
        size,
    );
    lemma_direction(rows, all, b.id, w, true, |a: int| a > 0);
    lemma_direction(rows, all, b.id, w, false, |a: int| a < 0);
    let q = |t: Transaction| t.business_id == Some(b.id) && within(t.posted_at, w.0, w.1);
    lemma_total_is_exact(amounts(all, q));
    lemma_sum_of_kept(all, q);
    lemma_sum_same(
        all,
        |t: Transaction|
            if q(t) {
                crate::laws::transactions::amount(t)
            } else {
                0
            },
        |t: Transaction|
            if t.business_id == Some(b.id) && w.0 <= t.posted_at && t.posted_at < w.1 && (|a: int|
                true)(t.amount_cents.0 as int) {
                t.amount_cents.0 as int
            } else {
                0
            },
    );
    crate::order::lemma_sum_adds(
        all,
        |t: Transaction|
            if t.business_id == Some(b.id) && w.0 <= t.posted_at && t.posted_at < w.1 && (|a: int| a
                > 0)(t.amount_cents.0 as int) {
                t.amount_cents.0 as int
            } else {
                0
            },
        |t: Transaction|
            if t.business_id == Some(b.id) && w.0 <= t.posted_at && t.posted_at < w.1 && (|a: int| a
                < 0)(t.amount_cents.0 as int) {
                t.amount_cents.0 as int
            } else {
                0
            },
        |t: Transaction|
            if t.business_id == Some(b.id) && w.0 <= t.posted_at && t.posted_at < w.1 && (|a: int|
                true)(t.amount_cents.0 as int) {
                t.amount_cents.0 as int
            } else {
                0
            },
    );
}

/// Whether a business is the first that carries a tag.
pub open spec fn has_first(bs: Seq<Business>, tag: Seq<char>, b: Business) -> bool {
    exists|j: int|
        0 <= j < bs.len() && bs[j] == b && b.tag@ == tag && (forall|i: int|
            0 <= i < j ==> (#[trigger] bs[i]).tag@ != tag)
}

proof fn lemma_listing_short(rows: Seq<Transaction>, all: Seq<Transaction>, since: i64)
    requires
        all.len() < 1_000_000,
        rows == listed(all, Some(since), None, crate::handler::BUSINESS_ROWS),
    ensures
        rows.len() < crate::handler::BUSINESS_ROWS,
{
    let p = |t: Transaction| crate::ledger::passes(t, Some(since), None);
    lemma_kept(all, p);
    let found = kept(all, p);
    let key = |t: Transaction| (-1 - t.posted_at) as i64;
    assert(crate::ledger::newest_first(found) =~= found.map_values(key));
    law_sorting_keeps_items(found, key);
}

proof fn lemma_sum_filtered(
    s: Seq<Transaction>,
    p: spec_fn(Transaction) -> bool,
    f: spec_fn(Transaction) -> int,
)
    ensures
        sum_over(s.filter(p), f) == sum_over(
            s,
            |x: Transaction|
                if p(x) {
                    f(x)
                } else {
                    0
                },
        ),
    decreases s.len(),
{
    reveal(Seq::filter);
    if s.len() > 0 {
        lemma_sum_filtered(s.drop_last(), p, f);
        if p(s.last()) {
            assert(s.filter(p).drop_last() =~= s.drop_last().filter(p));
        }
    }
}

proof fn lemma_smaller(
    s: Seq<Transaction>,
    f: spec_fn(Transaction) -> int,
    g: spec_fn(Transaction) -> int,
)
    requires
        forall|a: Transaction| #[trigger] f(a) <= g(a),
    ensures
        sum_over(s, f) <= sum_over(s, g),
    decreases s.len(),
{
    if s.len() > 0 {
        lemma_smaller(s.drop_last(), f, g);
        assert(f(s.last()) <= g(s.last()));
    }
}

proof fn lemma_direction(
    rows: Seq<Transaction>,
    all: Seq<Transaction>,
    id: BusinessId,
    w: (i64, i64),
    inflow: bool,
    takes: spec_fn(int) -> bool,
)
    requires
        rows.to_multiset() == all.filter(
            |t: Transaction| asked_for(t, Some(w.0), None),
        ).to_multiset(),
        sum_over(rows, |t: Transaction| size_of(t.amount_cents.0 as int)) <= i64::MAX,
        forall|a: int| #[trigger] takes(a) == if inflow {
            a > 0
        } else {
            a < 0
        },
    ensures
        flow_of(rows, id, w.1, inflow).0 == moved(all, id, w, takes),
{
    let none: Option<Seq<char>> = None;
    let from = |t: Transaction| asked_for(t, Some(w.0), none);
    assert(all.filter(from) =~= all.filter(|t: Transaction| asked_for(t, Some(w.0), None)));
    let f = |t: Transaction|
        if is_of(t, id, w.1) && (t.amount_cents.0 >= 0) == inflow {
            t.amount_cents.0 as int
        } else {
            0
        };
    lemma_flow_of(rows, id, w.1, inflow);
    lemma_sum_of_same_items(rows, all.filter(from), f);
    lemma_sum_filtered(all, from, f);
    let g = |t: Transaction|
        if from(t) {
            f(t)
        } else {
            0
        };
    let h = |t: Transaction|
        if t.business_id == Some(id) && w.0 <= t.posted_at && t.posted_at < w.1 && takes(
            t.amount_cents.0 as int,
        ) {
            t.amount_cents.0 as int
        } else {
            0
        };
    assert forall|i: int| 0 <= i < all.len() implies g(#[trigger] all[i]) == h(all[i]) by {
        assert(takes(all[i].amount_cents.0 as int) == if inflow {
            all[i].amount_cents.0 > 0
        } else {
            all[i].amount_cents.0 < 0
        });
    }
    lemma_sum_same(all, g, h);
}

// ---------------------------------------------------------------------------
// Portfolio and debts
// ---------------------------------------------------------------------------

/// The portfolio answer holds the tiers of the accounts that are switched on with their latest
/// balances, and says that a band is breached exactly where one of its rows does.
pub proof fn law_portfolio(r: PpSnapshot, t: Tables, balances: Seq<(AccountId, Cents)>)
    requires
        is_pp(r, t, balances),
    ensures
        crate::ledger::are_latest(balances, t.snapshots@),
        ({
            let a = crate::report::tier2(balances, active_accounts(t.accounts@));
            &&& r.total == a.total
            &&& r.rows@.len() >= 3
            &&& r.rows@[0].actual_cents == a.equity
            &&& r.rows@[1].actual_cents == a.long_treasuries
            &&& r.rows@[2].actual_cents == a.cash
        }),
        r.band_breach <==> r.rows@[0].band_breach || r.rows@[1].band_breach
            || r.rows@[2].band_breach,
{
    let a = crate::report::tier2(balances, active_accounts(t.accounts@));
    crate::laws::tiers::law_bands(r.rows@, a);
    crate::laws::tiers::law_drift_shows_every_sleeve(r.rows@, a);
}

/// The debt answer lists the debts that are switched on with their latest balances and what they
/// come to; the payments that are due in the period asked for; and the obligations that come
/// next, whatever the period.
pub proof fn law_debts(
    r: DebtSnapshot,
    t: Tables,
    scope: Scope,
    now: i64,
    balances: Seq<(AccountId, Cents)>,
)
    requires
        is_debts(r, t, scope, now, balances),
        ids_differ(t.accounts@),
        sum_over(r.open_balances@, |d: DebtBalance| size_of(d.balance.0 as int)) <= i64::MAX,
    ensures
        r.scope == scope,
        r.open_balances@.len() == how_many(
            active_accounts(t.accounts@),
            |a: Account| a.kind@ == "debt"@ && a.active,
        ),
        r.total_open.0 == sum_over(r.open_balances@, |d: DebtBalance| d.balance.0 as int),
        forall|i: int|
            0 <= i < r.scheduled@.len() ==> crate::debt::scope_window(now, scope).0 <= (
            #[trigger] r.scheduled@[i]).due_at < crate::debt::scope_window(now, scope).1,
        forall|i: int| 0 <= i < r.fixed@.len() ==> now <= (#[trigger] r.fixed@[i]).due_at,
{
    let w = crate::debt::scope_window(now, scope);
    law_owed_adds_up(r.open_balances@);
    crate::laws::balances::law_open_debts(
        r.open_balances@,
        active_accounts(t.accounts@),
        balances,
    );
    crate::laws::balances::law_scheduled_payments(
        r.scheduled@,
        t.accounts@,
        t.planned@,
        w.0,
        w.1,
    );
    crate::laws::obligations::law_upcoming_obligations(
        r.fixed@,
        crate::ledger::active_subscriptions(t.subscriptions@),
        now,
    );
}

// ---------------------------------------------------------------------------
// Transactions, charts and categories
// ---------------------------------------------------------------------------

/// Whether a row tells of a transaction.
pub open spec fn tells_of_transaction(r: TxRow, x: Transaction) -> bool {
    &&& x.id is Some ==> r.id == match x.id {
        Some(i) => i.0,
        None => 0,
    }
    &&& r.posted_at == x.posted_at
    &&& r.amount == x.amount_cents
    &&& r.description == x.description
    &&& r.category == x.category
    &&& r.tag == x.tag
}

/// A page of transactions tells of those that were asked for, the newest first, each under the
/// name of its account where that is switched on, and else under its number.
pub proof fn law_tx_page(
    page: TxListPage,
    t: Tables,
    since: Option<i64>,
    tag: Option<Seq<char>>,
    limit: i64,
    i: int,
    k: int,
)
    requires
        is_tx_page(page, t, since, tag, limit),
        0 <= i < page.rows@.len(),
        ids_differ(active_accounts(t.accounts@)),
    ensures
        tells_of_transaction(page.rows@[i], listed(t.transactions@, since, tag, limit)[i]),
        0 <= k < active_accounts(t.accounts@).len() && active_accounts(t.accounts@)[k].id == Some(
            listed(t.transactions@, since, tag, limit)[i].account_id,
        ) ==> page.rows@[i].account@ == active_accounts(t.accounts@)[k].name@,
        (forall|j: int|
            0 <= j < active_accounts(t.accounts@).len() ==> (#[trigger] active_accounts(
                t.accounts@,
            )[j]).id != Some(listed(t.transactions@, since, tag, limit)[i].account_id))
            ==> page.rows@[i].account@ == "#"@ + dec_int(
            listed(t.transactions@, since, tag, limit)[i].account_id.0 as int,
        ),
{
    let x = listed(t.transactions@, since, tag, limit)[i];
    let accounts = active_accounts(t.accounts@);
    assert(is_tx_row(page.rows@[i], x, accounts));
    let p = |a: Account| has_account_id(a, x.account_id);
    lemma_first_index_is_first(accounts, p);
    let n = first_index(accounts, p);
    if 0 <= k < accounts.len() && accounts[k].id == Some(x.account_id) {
        assert(p(accounts[k]));
        if n < k {
            assert(p(accounts[n]));
            assert(accounts[n].id != accounts[k].id);
        } else if k < n {
            assert(!p(accounts[k]));
        }
    }
    if n < accounts.len() {
        assert(p(accounts[n]));
    }
}

/// The window of a chart goes back to the first day of the month that makes it as many months as
/// were asked for, this one among them.
pub proof fn law_months_back(now: i64, months: u32, year: i32, month: u32)
    requires
        1 <= utc_fields(now).1 <= 12,
        1 <= month <= 12,
        month_index(year as int, month as int) + months - 1 == month_index(
            utc_fields(now).0 as int,
            utc_fields(now).1 as int,
        ),
        utc_midnight(year, month, 1) is Some,
    ensures
        months_back(now, months).0 == utc_midnight(year, month, 1)->0,
        months_back(now, months).1 == now,
{
    let n = 12 * utc_fields(now).0 + utc_fields(now).1 - 1 - (months - 1);
    assert(n == 12 * year + month - 1);
    assert(n / 12 == year && n % 12 == month - 1) by (nonlinear_arith)
        requires
            n == 12 * year + month - 1,
            1 <= month <= 12,
    ;
}

/// A chart of cash flow has a bar for each month of the flow, and what remains is what came in
/// and what went out together.
pub proof fn law_month_flows(out: Seq<MonthFlow>, xs: Seq<(String, Cents, Cents)>, i: int)
    requires
        are_month_flows(out, xs),
        0 <= i < out.len(),
        i64::MIN <= xs[i].1.0 + xs[i].2.0 <= i64::MAX,
    ensures
        out.len() == xs.len(),
        out[i].label@ == xs[i].0@,
        out[i].income == xs[i].1,
        out[i].expenses == xs[i].2,
        out[i].net.0 == out[i].income.0 + out[i].expenses.0,
{
    assert(is_month_flow(out[i], xs[i]));
}

/// The categories of a period come with its bounds, and their total is what its rows add up to.
pub proof fn law_categories(
    c: CategoriesSnapshot,
    t: Tables,
    xs: Vec<(String, Cents)>,
    scope: Scope,
    limit: i64,
    now: i64,
)
    requires
        is_categories(Ok(c), t, Ok(xs), scope, limit, now),
        sum_over(xs@, |x: (String, Cents)| size_of(x.1.0 as int)) <= i64::MAX,
    ensures
        c.scope == scope,
        (c.since, c.until) == crate::debt::scope_window(now, scope),
        c.rows@.len() == xs@.len(),
        forall|i: int|
            0 <= i < c.rows@.len() ==> (#[trigger] c.rows@[i]).category@ == xs@[i].0@
                && c.rows@[i].amount == xs@[i].1 && c.rows@[i].amount.0 == spent(
                t.transactions@,
                c.rows@[i].category@,
                c.since,
                c.until,
            ),
        c.total.0 == sum_over(xs@, |x: (String, Cents)| x.1.0 as int),
{
    lemma_sum_of(xs@);
    crate::laws::flows::law_spending_by_category(xs, t.transactions@, c.since, c.until, limit);
    assert forall|i: int| 0 <= i < c.rows@.len() implies (#[trigger] c.rows@[i]).category@
        == xs@[i].0@ && c.rows@[i].amount == xs@[i].1 && c.rows@[i].amount.0 == spent(
        t.transactions@,
        c.rows@[i].category@,
        c.since,
        c.until,
    ) by {
        assert(xs@[i].1.0 == spent(t.transactions@, xs@[i].0@, c.since, c.until));
    }
}

proof fn lemma_sum_of(xs: Seq<(String, Cents)>)
    requires
        sum_over(xs, |x: (String, Cents)| size_of(x.1.0 as int)) <= i64::MAX,
    ensures
        crate::money::sum_of(crate::handler::spent(xs)).0 == sum_over(
            xs,
            |x: (String, Cents)| x.1.0 as int,
        ),
    decreases xs.len(),
{
    let g = |x: (String, Cents)| size_of(x.1.0 as int);
    let f = |x: (String, Cents)| x.1.0 as int;
    lemma_sum_bounded(xs, f, g);
    if xs.len() > 0 {
        lemma_sum_of(xs.drop_last());
        assert(crate::handler::spent(xs).drop_last() =~= crate::handler::spent(xs.drop_last()));
    }
}


/// A listing of recurring series looks at the transactions from its start on, and at the labels
/// that are switched on.
pub proof fn law_recurring_page(
    page: RecurringPage,
    t: Tables,
    since: Option<i64>,
    min: nat,
    include_ignored: bool,
)
    requires
        is_recurring_page(page, t, since, min, include_ignored),
    ensures
        is_listing(
            page.series@,
            t.transactions@.filter(|x: Transaction| since is None || since->0 <= x.posted_at),
            t.labels@.filter(|l: StoredLabel| l.active).map_values(|l: StoredLabel| l.row),
            min,
            false,
        ),
        include_ignored ==> is_listing(
            page.ignored@,
            t.transactions@.filter(|x: Transaction| since is None || since->0 <= x.posted_at),
            t.labels@.filter(|l: StoredLabel| l.active).map_values(|l: StoredLabel| l.row),
            min,
            true,
        ),
        !include_ignored ==> page.ignored@.len() == 0,
{
    let p = |x: Transaction| since is Some ==> x.posted_at >= since->0;
    let q = |x: Transaction| since is None || since->0 <= x.posted_at;
    assert forall|x: Transaction| p(x) == #[trigger] q(x) by {}
    lemma_kept_same(t.transactions@, p, q);
    lemma_kept_is_filter(t.transactions@, q);
    lemma_kept_is_filter(t.labels@, |l: StoredLabel| l.active);
}

/// A page of alerts shows the firings that were asked for, each under its rule and with when it
/// fired and whether it was delivered, and the rules that are switched on.
pub proof fn law_alerts_page(
    page: AlertsPage,
    t: Tables,
    readings: Seq<AlertReading>,
    limit: i64,
    include_delivered: bool,
    i: int,
)
    requires
        is_alerts_page(page, t, readings, limit, include_delivered),
    ensures
        ({
            let rows = crate::ledger::recent_firings(t.history@, limit, include_delivered);
            &&& page.rows@.len() == rows.len()
            &&& 0 <= i < rows.len() ==> page.rows@[i].id == rows[i].id && page.rows@[i].rule_name@
                == rows[i].rule_name@ && page.rows@[i].fired_at == rows[i].fired_at
                && page.rows@[i].delivered == rows[i].delivered
        }),
        ({
            let rules = t.rules@.filter(|x: AlertRule| x.active);
            &&& page.rules@.len() == rules.len()
            &&& 0 <= i < rules.len() ==> page.rules@[i].name@ == rules[i].name@
                && page.rules@[i].channel@ == rules[i].channel@
        }),
{
    let rows = crate::ledger::recent_firings(t.history@, limit, include_delivered);
    let p = |x: AlertRule| x.active;
    lemma_kept_is_filter(t.rules@, p);
    if 0 <= i < rows.len() {
        assert(crate::handler::is_alert_row(page.rows@[i], rows[i], readings[i]));
    }
    if 0 <= i < kept(t.rules@, p).len() {
        assert(crate::handler::is_rule_row(page.rules@[i], kept(t.rules@, p)[i]));
    }
}

/// The health answer tells of every provider in its order, with when and how it was last polled.
pub proof fn law_health(h: HealthInfo, t: Tables, version: Seq<char>, uptime_secs: i64, i: int)
    requires
        is_health(h, t, version, uptime_secs),
    ensures
        h.version@ == version,
        h.uptime_secs == uptime_secs,
        h.providers@.len() == t.providers@.len(),
        0 <= i < t.providers@.len() ==> h.providers@[i].kind@ == t.providers@[i].kind@
            && h.providers@[i].label@ == t.providers@[i].label@ && h.providers@[i].last_poll_at
            == t.providers@[i].last_poll_at && h.providers@[i].last_status
            == t.providers@[i].last_status,
{
    if 0 <= i < t.providers@.len() {
        assert(crate::handler::is_status(h.providers@[i], t.providers@[i]));
    }
}

/// Charts show the whole net worth, and the cash flow of the months that were asked for.
pub proof fn law_charts(
    c: ChartsSnapshot,
    t: Tables,
    xs: Vec<(String, Cents, Cents)>,
    now: i64,
    months: u32,
    i: int,
)
    requires
        is_charts(Ok(c), t, Ok(xs), now, months),
    ensures
        crate::ledger::is_flow_outcome(
            Ok(xs),
            t.transactions@,
            months_back(now, months).0,
            now,
        ),
        are_month_flows(c.cash_flow@, xs@),
        ({
            let s = crate::ledger::series(t.accounts@, t.snapshots@, None);
            &&& c.net_worth@.len() == s.len()
            &&& 0 <= i < s.len() ==> c.net_worth@[i].at_secs == s[i].0 && c.net_worth@[i].amount.0
                == s[i].1
        }),
{
}

} // verus!
