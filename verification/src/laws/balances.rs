//! Laws of balances, net worth and debts.

use vstd::prelude::*;

verus! {

use crate::db::{Account, BalanceSnapshot, PlannedExpense, Transaction};
use crate::error::Result;
use crate::ids::AccountId;
use crate::laws::lists::open_in;
use crate::laws::tiers::ids_differ;
use crate::laws::transactions::{lemma_sum_signed, lemma_total_is_exact};
use crate::ledger::{
    are_latest, are_open_debts, balance_in, by_time, counted_then, debt_payments, due_expenses,
    ends_instant, has_id, is_balance_of, is_debt, is_open_debt, is_total, listed_balance, net_at,
    net_worth, past_net_worth, paydowns, points, series, taken_by,
};
use crate::money::Cents;
use crate::order::{
    comes_before, first_index, kept, law_sorting_keeps_items, law_stable_order, lemma_first_index,
    lemma_first_index_is_first, lemma_kept, lemma_kept_is_filter, lemma_kept_same, lemma_same_items,
    lemma_sum_bounded, size_of, stable_order, sum_over,
};
use crate::rpc::{DebtBalance, DebtScheduled};

// ---------------------------------------------------------------------------
// Latest balances
// ---------------------------------------------------------------------------

/// Whether a reading is the latest of its account: no other of the account was taken after it,
/// and of those taken at its instant it was recorded last.
pub open spec fn is_latest(snaps: Seq<BalanceSnapshot>, k: int) -> bool {
    &&& 0 <= k < snaps.len()
    &&& forall|j: int|
        0 <= j < snaps.len() && (#[trigger] snaps[j]).account_id == snaps[k].account_id ==> {
            ||| snaps[j].taken_at < snaps[k].taken_at
            ||| snaps[j].taken_at == snaps[k].taken_at && j <= k
        }
}

proof fn lemma_last_in_order(snaps: Seq<BalanceSnapshot>, id: AccountId, n: int) -> (k: int)
    requires
        0 <= n <= snaps.len(),
        balance_in(by_time(snaps).take(n), id) is Some,
    ensures
        0 <= k < n,
        by_time(snaps)[k].account_id == id,
        balance_in(by_time(snaps).take(n), id) == Some(by_time(snaps)[k].amount_cents),
        forall|j: int| k < j < n ==> (#[trigger] by_time(snaps)[j]).account_id != id,
    decreases n,
{
    let o = by_time(snaps);
    if o.take(n).last().account_id == id {
        n - 1
    } else {
        assert(o.take(n).drop_last() =~= o.take(n - 1));
        lemma_last_in_order(snaps, id, n - 1)
    }
}

proof fn lemma_absent_in_order(o: Seq<BalanceSnapshot>, id: AccountId)
    requires
        balance_in(o, id) is None,
    ensures
        forall|j: int| 0 <= j < o.len() ==> (#[trigger] o[j]).account_id != id,
    decreases o.len(),
{
    if o.len() > 0 {
        lemma_absent_in_order(o.drop_last(), id);
        assert forall|j: int| 0 <= j < o.len() implies (#[trigger] o[j]).account_id != id by {
            if j < o.len() - 1 {
                assert(o.drop_last()[j] == o[j]);
            }
        }
    }
}

/// Where the last reading in order of an account stands in the table, it is its latest.
proof fn lemma_latest_at(snaps: Seq<BalanceSnapshot>, id: AccountId) -> (k: int)
    requires
        balance_in(by_time(snaps), id) is Some,
    ensures
        is_latest(snaps, k),
        snaps[k].account_id == id,
        balance_in(by_time(snaps), id) == Some(snaps[k].amount_cents),
{
    let o = by_time(snaps);
    let keys = snaps.map_values(|s: BalanceSnapshot| s.taken_at);
    let n = snaps.len() as int;
    assert(o.take(n) =~= o);
    let q = lemma_last_in_order(snaps, id, n);
    law_stable_order(keys, keys.len());
    let p = stable_order(keys, keys.len());
    let k = p[q];
    assert(o[q] == snaps[k]);
    assert forall|j: int| 0 <= j < snaps.len() && (#[trigger] snaps[j]).account_id == id implies {
        ||| snaps[j].taken_at < snaps[k].taken_at
        ||| snaps[j].taken_at == snaps[k].taken_at && j <= k
    } by {
        assert(p.contains(j));
        let a = choose|a: int| 0 <= a < p.len() && p[a] == j;
        assert(o[a] == snaps[j]);
        if a < q {
            assert(comes_before(keys, p[a], p[q]));
        } else if a > q {
            assert(o[a].account_id != id);
        }
    }
    k
}

/// Whether an amount is that of the latest reading of an account.
pub open spec fn latest_is(snaps: Seq<BalanceSnapshot>, id: AccountId, amount: Cents) -> bool {
    exists|k: int| #[trigger]
        is_latest(snaps, k) && snaps[k].account_id == id && snaps[k].amount_cents == amount
}

/// The latest balances hold, once for each account that has a reading, the amount of its latest
/// reading, and nothing else; they come in the order of the accounts.
pub proof fn law_latest_balances(out: Seq<(AccountId, Cents)>, snaps: Seq<BalanceSnapshot>)
    requires
        are_latest(out, snaps),
    ensures
        forall|i: int| 0 <= i < out.len() ==> latest_is(snaps, (#[trigger] out[i]).0, out[i].1),
        forall|k: int|
            0 <= k < snaps.len() ==> exists|i: int|
                0 <= i < out.len() && (#[trigger] out[i]).0 == (#[trigger] snaps[k]).account_id,
        forall|i: int, j: int|
            0 <= i < j < out.len() ==> (#[trigger] out[i]).0.0 < (#[trigger] out[j]).0.0,
{
    assert forall|i: int| 0 <= i < out.len() implies latest_is(
        snaps,
        (#[trigger] out[i]).0,
        out[i].1,
    ) by {
        assert(balance_in(by_time(snaps), out[i].0) == Some(out[i].1));
        let k = lemma_latest_at(snaps, out[i].0);
        assert(is_latest(snaps, k));
    }
    assert forall|k: int| 0 <= k < snaps.len() implies exists|i: int|
        0 <= i < out.len() && (#[trigger] out[i]).0 == (#[trigger] snaps[k]).account_id by {
        let id = snaps[k].account_id;
        let at = |s: BalanceSnapshot| s.taken_at;
        law_sorting_keeps_items(snaps, at);
        assert(snaps.map_values(at) =~= snaps.map_values(|s: BalanceSnapshot| s.taken_at));
        lemma_same_items(by_time(snaps), snaps);
        assert(snaps.contains(snaps[k]));
        let a = choose|a: int| 0 <= a < by_time(snaps).len() && by_time(snaps)[a] == snaps[k];
        if balance_in(by_time(snaps), id) is None {
            lemma_absent_in_order(by_time(snaps), id);
            assert(by_time(snaps)[a].account_id != id);
        }
        assert(balance_in(by_time(snaps), id) is Some);
    }
}

/// The amount of the latest reading of an account; zero where it has none.
pub open spec fn latest_amount(snaps: Seq<BalanceSnapshot>, id: AccountId) -> int {
    if exists|amount: Cents| latest_is(snaps, id, amount) {
        (choose|amount: Cents| latest_is(snaps, id, amount)).0 as int
    } else {
        0
    }
}

/// There is one latest reading of an account, and the latest balances give its amount.
pub proof fn lemma_given_is_latest(
    out: Seq<(AccountId, Cents)>,
    snaps: Seq<BalanceSnapshot>,
    id: AccountId,
)
    requires
        are_latest(out, snaps),
    ensures
        given(out, id) == latest_amount(snaps, id),
{
    law_latest_balances(out, snaps);
    lemma_given_at(out, id);
    if exists|amount: Cents| latest_is(snaps, id, amount) {
        let amount = choose|amount: Cents| latest_is(snaps, id, amount);
        let k = choose|k: int| #[trigger]
            is_latest(snaps, k) && snaps[k].account_id == id && snaps[k].amount_cents == amount;
        let i = choose|i: int|
            0 <= i < out.len() && (#[trigger] out[i]).0 == snaps[k].account_id;
        assert(latest_is(snaps, out[i].0, out[i].1));
        let j = choose|j: int| #[trigger]
            is_latest(snaps, j) && snaps[j].account_id == id && snaps[j].amount_cents == out[i].1;
        assert(snaps[j].account_id == snaps[k].account_id);
        assert(j == k);
    } else {
        if exists|i: int| 0 <= i < out.len() && (#[trigger] out[i]).0 == id {
            let i = choose|i: int| 0 <= i < out.len() && (#[trigger] out[i]).0 == id;
            assert(latest_is(snaps, out[i].0, out[i].1));
        }
    }
}

proof fn lemma_given_at(out: Seq<(AccountId, Cents)>, id: AccountId)
    requires
        forall|i: int, j: int|
            0 <= i < j < out.len() ==> (#[trigger] out[i]).0.0 < (#[trigger] out[j]).0.0,
    ensures
        forall|i: int| 0 <= i < out.len() && (#[trigger] out[i]).0 == id ==> given(out, id) == out[i].1.0,
        (forall|i: int| 0 <= i < out.len() ==> (#[trigger] out[i]).0 != id) ==> given(out, id) == 0,
    decreases out.len(),
{
    if out.len() > 0 {
        let rest = out.skip(1);
        assert forall|i: int, j: int| 0 <= i < j < rest.len() implies (#[trigger] rest[i]).0.0 < (
        #[trigger] rest[j]).0.0 by {
            assert(out[i + 1].0.0 < out[j + 1].0.0);
        }
        lemma_given_at(rest, id);
        assert forall|i: int| 0 <= i < out.len() && (#[trigger] out[i]).0 == id implies given(out, id)
            == out[i].1.0 by {
            if i > 0 {
                assert(out[0].0.0 < out[i].0.0);
                assert(rest[i - 1] == out[i]);
            }
        }
        if forall|i: int| 0 <= i < out.len() ==> (#[trigger] out[i]).0 != id {
            assert forall|i: int| 0 <= i < rest.len() implies (#[trigger] rest[i]).0 != id by {
                assert(rest[i] == out[i + 1]);
            }
            assert(out[0].0 != id);
        }
    }
}

// ---------------------------------------------------------------------------
// Net worth
// ---------------------------------------------------------------------------

/// What an account adds to net worth with a balance: nothing where it is no money of one's own
/// or not in dollars, the balance taken off where it is a debt, and else the balance.
pub open spec fn adds(a: Account, balance: int) -> int {
    if a.currency@ != "USD"@ || a.kind@ == "subscription"@ {
        0
    } else if a.kind@ == "debt"@ {
        -balance
    } else {
        balance
    }
}

/// The balance that a list gives for an id: the first, or zero.
pub open spec fn given(balances: Seq<(AccountId, Cents)>, id: AccountId) -> int
    decreases balances.len(),
{
    if balances.len() == 0 {
        0
    } else if balances[0].0 == id {
        balances[0].1.0 as int
    } else {
        given(balances.skip(1), id)
    }
}

/// What a list of balances gives for an id.
pub proof fn lemma_given(balances: Seq<(AccountId, Cents)>, id: AccountId)
    ensures
        listed_balance(balances, id).0 == given(balances, id),
    decreases balances.len(),
{
    let p = |b: (AccountId, Cents)| is_balance_of(b, id);
    lemma_first_index_is_first(balances, p);
    let k = first_index(balances, p);
    if balances.len() > 0 {
        if balances[0].0 == id {
            if k > 0 {
                assert(!p(balances[0]));
            }
        } else {
            let rest = balances.skip(1);
            lemma_given(rest, id);
            if k == 0 {
                assert(p(balances[0]));
            }
            assert forall|j: int| 0 <= j < k - 1 implies !p(#[trigger] rest[j]) by {
                assert(rest[j] == balances[j + 1]);
            }
            if k < balances.len() {
                assert(rest[k - 1] == balances[k]);
                assert(p(rest[k - 1]));
            }
            lemma_first_index(rest, p, k - 1);
        }
    }
}

/// Net worth is the sum over the accounts of what each adds with its balance.
pub proof fn law_net_worth_adds_up(accounts: Seq<Account>, balances: Seq<(AccountId, Cents)>)
    requires
        sum_over(
            accounts,
            |a: Account|
                match a.id {
                    Some(id) => size_of(given(balances, id)),
                    None => 0,
                },
        ) <= i64::MAX,
    ensures
        net_worth(accounts, balances).0 == sum_over(
            accounts,
            |a: Account|
                match a.id {
                    Some(id) => adds(a, given(balances, id)),
                    None => 0,
                },
        ),
    decreases accounts.len(),
{
    let g = |a: Account|
        match a.id {
            Some(id) => size_of(given(balances, id)),
            None => 0,
        };
    let f = |a: Account|
        match a.id {
            Some(id) => adds(a, given(balances, id)),
            None => 0,
        };
    lemma_sum_bounded(accounts, f, g);
    if accounts.len() > 0 {
        law_net_worth_adds_up(accounts.drop_last(), balances);
        match accounts.last().id {
            Some(id) => {
                lemma_given(balances, id);
            },
            None => {},
        }
    }
}

/// Whether a reading is the latest of its account up to an instant.
pub open spec fn is_latest_by(snaps: Seq<BalanceSnapshot>, before: i64, k: int) -> bool {
    &&& 0 <= k < snaps.len()
    &&& snaps[k].taken_at <= before
    &&& forall|j: int|
        0 <= j < snaps.len() && (#[trigger] snaps[j]).account_id == snaps[k].account_id
            && snaps[j].taken_at <= before ==> {
            ||| snaps[j].taken_at < snaps[k].taken_at
            ||| snaps[j].taken_at == snaps[k].taken_at && j <= k
        }
}

/// Whether an amount is that of the latest reading of an account up to an instant.
pub open spec fn read_by(snaps: Seq<BalanceSnapshot>, before: i64, id: AccountId, amount: int) -> bool {
    exists|k: int| #[trigger]
        is_latest_by(snaps, before, k) && snaps[k].account_id == id && snaps[k].amount_cents.0
            == amount
}

/// Where the item that is kept at a place stood.
spec fn place<T>(s: Seq<T>, p: spec_fn(T) -> bool, k: int) -> int
    decreases s.len(),
{
    if s.len() == 0 {
        0
    } else if p(s.last()) && k == kept(s.drop_last(), p).len() {
        s.len() - 1
    } else {
        place(s.drop_last(), p, k)
    }
}

proof fn lemma_place<T>(s: Seq<T>, p: spec_fn(T) -> bool)
    ensures
        forall|i: int|
            0 <= i < kept(s, p).len() ==> 0 <= #[trigger] place(s, p, i) < s.len() && s[place(
                s,
                p,
                i,
            )] == kept(s, p)[i],
        forall|i: int, j: int|
            0 <= i < j < kept(s, p).len() ==> #[trigger] place(s, p, i) < #[trigger] place(s, p, j),
        forall|k: int|
            0 <= k < s.len() && p(#[trigger] s[k]) ==> exists|i: int|
                0 <= i < kept(s, p).len() && #[trigger] place(s, p, i) == k,
    decreases s.len(),
{
    if s.len() > 0 {
        let d = s.drop_last();
        lemma_place(d, p);
        let n = kept(d, p).len() as int;
        assert forall|i: int| 0 <= i < kept(s, p).len() implies 0 <= #[trigger] place(s, p, i)
            < s.len() && s[place(s, p, i)] == kept(s, p)[i] by {
            if i < n {
                assert(place(s, p, i) == place(d, p, i));
                assert(d[place(d, p, i)] == kept(d, p)[i]);
            }
        }
        assert forall|i: int, j: int| 0 <= i < j < kept(s, p).len() implies #[trigger] place(s, p, i)
            < #[trigger] place(s, p, j) by {
            assert(place(s, p, i) == place(d, p, i));
            if j < n {
                assert(place(s, p, j) == place(d, p, j));
            }
        }
        assert forall|k: int| 0 <= k < s.len() && p(#[trigger] s[k]) implies exists|i: int|
            0 <= i < kept(s, p).len() && #[trigger] place(s, p, i) == k by {
            if k < d.len() {
                assert(d[k] == s[k]);
                let i = choose|i: int| 0 <= i < kept(d, p).len() && #[trigger] place(d, p, i) == k;
                assert(place(s, p, i) == k);
            } else {
                assert(place(s, p, n) == k);
            }
        }
    }
}

/// Whether an account has a reading up to an instant.
pub open spec fn has_reading(snaps: Seq<BalanceSnapshot>, before: i64, id: AccountId) -> bool {
    exists|k: int|
        0 <= k < snaps.len() && (#[trigger] snaps[k]).account_id == id && snaps[k].taken_at
            <= before
}

proof fn lemma_taken_by(snaps: Seq<BalanceSnapshot>, before: i64, id: AccountId)
    ensures
        balance_in(taken_by(snaps, before), id) is Some <==> has_reading(snaps, before, id),
        balance_in(taken_by(snaps, before), id) is Some ==> read_by(
            snaps,
            before,
            id,
            amount_in(taken_by(snaps, before), id),
        ),
{
    let p = |s: BalanceSnapshot| s.taken_at <= before;
    let then = kept(snaps, p);
    lemma_kept(snaps, p);
    lemma_place(snaps, p);
    let o = by_time(then);
    assert(o == taken_by(snaps, before));
    if balance_in(o, id) is Some {
        let k = lemma_latest_at(then, id);
        let at = place(snaps, p, k);
        assert(snaps[at] == then[k] && p(then[k]));
        assert forall|j: int|
            0 <= j < snaps.len() && (#[trigger] snaps[j]).account_id == snaps[at].account_id
                && snaps[j].taken_at <= before implies {
            ||| snaps[j].taken_at < snaps[at].taken_at
            ||| snaps[j].taken_at == snaps[at].taken_at && j <= at
        } by {
            assert(p(snaps[j]));
            let i = choose|i: int| 0 <= i < then.len() && #[trigger] place(snaps, p, i) == j;
            assert(then[i] == snaps[j]);
            if i <= k {
                if i < k {
                    assert(place(snaps, p, i) < place(snaps, p, k));
                }
            }
        }
        assert(is_latest_by(snaps, before, at));
        assert(snaps[at].account_id == id && snaps[at].taken_at <= before);
    } else {
        lemma_absent_in_order(o, id);
        let at = |s: BalanceSnapshot| s.taken_at;
        law_sorting_keeps_items(then, at);
        assert(then.map_values(at) =~= then.map_values(|s: BalanceSnapshot| s.taken_at));
        lemma_same_items(o, then);
        if has_reading(snaps, before, id) {
            let j = choose|j: int|
                0 <= j < snaps.len() && (#[trigger] snaps[j]).account_id == id && snaps[j].taken_at
                    <= before;
            assert(p(snaps[j]));
            assert(then.contains(snaps[j]));
            assert(o.contains(snaps[j]));
            let a = choose|a: int| 0 <= a < o.len() && o[a] == snaps[j];
            assert(o[a].account_id != id);
        }
    }
}

/// The amount that ordered readings give for an account; zero where they give none.
pub open spec fn amount_in(ordered: Seq<BalanceSnapshot>, id: AccountId) -> int {
    match balance_in(ordered, id) {
        Some(c) => c.0 as int,
        None => 0,
    }
}

/// Whether an account counted toward net worth at an instant: it is active, it adds to net
/// worth, and it has a reading up to then.
pub open spec fn counted_at(a: Account, snaps: Seq<BalanceSnapshot>, before: i64) -> bool {
    &&& a.active
    &&& a.currency@ == "USD"@
    &&& a.kind@ != "subscription"@
    &&& match a.id {
        Some(id) => has_reading(snaps, before, id),
        None => false,
    }
}

/// An earlier net worth is there exactly where some account counted then, and it is the sum of
/// what the accounts that counted added with their latest reading up to then.
pub proof fn law_prior_net_worth(
    r: Option<Cents>,
    accounts: Seq<Account>,
    snaps: Seq<BalanceSnapshot>,
    before: i64,
    amounts: Seq<int>,
)
    requires
        r == past_net_worth(accounts, taken_by(snaps, before)),
        amounts.len() == accounts.len(),
        forall|i: int|
            0 <= i < accounts.len() && counted_at(#[trigger] accounts[i], snaps, before) ==> read_by(
                snaps,
                before,
                accounts[i].id->0,
                amounts[i],
            ),
        forall|i: int|
            0 <= i < accounts.len() && !counted_at(#[trigger] accounts[i], snaps, before)
                ==> amounts[i] == 0,
        sum_over(amounts, |x: int| size_of(x)) <= i64::MAX,
    ensures
        r is Some <==> exists|i: int|
            0 <= i < accounts.len() && counted_at(#[trigger] accounts[i], snaps, before),
        r is Some ==> r->0 == Cents(
            sum_over(
                Seq::new(accounts.len(), |i: int| adds(accounts[i], amounts[i])),
                |x: int| x,
            ) as i64,
        ),
{
    lemma_prior(accounts, snaps, before, amounts);
}

proof fn lemma_prior(
    accounts: Seq<Account>,
    snaps: Seq<BalanceSnapshot>,
    before: i64,
    amounts: Seq<int>,
)
    requires
        amounts.len() == accounts.len(),
        forall|i: int|
            0 <= i < accounts.len() && counted_at(#[trigger] accounts[i], snaps, before) ==> read_by(
                snaps,
                before,
                accounts[i].id->0,
                amounts[i],
            ),
        forall|i: int|
            0 <= i < accounts.len() && !counted_at(#[trigger] accounts[i], snaps, before)
                ==> amounts[i] == 0,
        sum_over(amounts, |x: int| size_of(x)) <= i64::MAX,
    ensures
        ({
            let r = past_net_worth(accounts, taken_by(snaps, before));
            let sum = sum_over(
                Seq::new(accounts.len(), |i: int| adds(accounts[i], amounts[i])),
                |x: int| x,
            );
            &&& r is Some <==> exists|i: int|
                0 <= i < accounts.len() && counted_at(#[trigger] accounts[i], snaps, before)
            &&& r is Some ==> r->0 == Cents(sum as i64)
            &&& r is None ==> sum == 0
            &&& -sum_over(amounts, |x: int| size_of(x)) <= sum <= sum_over(
                amounts,
                |x: int| size_of(x),
            )
        }),
    decreases accounts.len(),
{
    let g = |x: int| size_of(x);
    let o = taken_by(snaps, before);
    let parts = Seq::new(accounts.len(), |i: int| adds(accounts[i], amounts[i]));
    if accounts.len() > 0 {
        let n = accounts.len() - 1;
        let d = accounts.drop_last();
        let m = amounts.drop_last();
        assert forall|i: int|
            0 <= i < d.len() && counted_at(#[trigger] d[i], snaps, before) implies read_by(
            snaps,
            before,
            d[i].id->0,
            m[i],
        ) by {
            assert(d[i] == accounts[i]);
        }
        assert forall|i: int|
            0 <= i < d.len() && !counted_at(#[trigger] d[i], snaps, before) implies m[i] == 0 by {
            assert(d[i] == accounts[i]);
        }
        lemma_sum_signed(m, g);
        lemma_prior(d, snaps, before, m);
        assert(parts.drop_last() =~= Seq::new(d.len(), |i: int| adds(d[i], m[i])));
        let a = accounts[n];
        assert(accounts.last() == a);
        match a.id {
            Some(id) => {
                lemma_taken_by(snaps, before, id);
                if counted_at(a, snaps, before) {
                    assert(read_by(snaps, before, id, amounts[n]));
                    lemma_read_once(snaps, before, id, amounts[n], amount_in(o, id));
                }
            },
            None => {},
        }
        assert(counted_then(a, o) == counted_at(a, snaps, before));
        if exists|i: int| 0 <= i < d.len() && counted_at(#[trigger] d[i], snaps, before) {
            let i = choose|i: int| 0 <= i < d.len() && counted_at(#[trigger] d[i], snaps, before);
            assert(counted_at(accounts[i], snaps, before));
        }
        if exists|i: int| 0 <= i < accounts.len() && counted_at(#[trigger] accounts[i], snaps, before) {
            let i = choose|i: int|
                0 <= i < accounts.len() && counted_at(#[trigger] accounts[i], snaps, before);
            if i < n {
                assert(d[i] == accounts[i]);
            }
        }
    }
}

proof fn lemma_read_once(snaps: Seq<BalanceSnapshot>, before: i64, id: AccountId, a: int, b: int)
    requires
        read_by(snaps, before, id, a),
        read_by(snaps, before, id, b),
    ensures
        a == b,
{
    let i = choose|k: int| #[trigger]
        is_latest_by(snaps, before, k) && snaps[k].account_id == id && snaps[k].amount_cents.0 == a;
    let j = choose|k: int| #[trigger]
        is_latest_by(snaps, before, k) && snaps[k].account_id == id && snaps[k].amount_cents.0 == b;
    assert(snaps[i].account_id == snaps[j].account_id);
}

// ---------------------------------------------------------------------------
// Net worth over time
// ---------------------------------------------------------------------------

/// The first readings in order, up to the last of an instant, are those up to that instant.
proof fn lemma_prefix_reads(snaps: Seq<BalanceSnapshot>, n: int, id: AccountId)
    requires
        0 < n <= snaps.len(),
        ends_instant(by_time(snaps), n - 1),
    ensures
        ({
            let at = by_time(snaps)[n - 1].taken_at;
            let first = by_time(snaps).take(n);
            &&& balance_in(first, id) is Some <==> has_reading(snaps, at, id)
            &&& balance_in(first, id) is Some ==> read_by(snaps, at, id, amount_in(first, id))
        }),
{
    let o = by_time(snaps);
    let at = o[n - 1].taken_at;
    let first = o.take(n);
    let keys = snaps.map_values(|s: BalanceSnapshot| s.taken_at);
    law_stable_order(keys, keys.len());
    let p = stable_order(keys, keys.len());
    assert forall|a: int| 0 <= a < n implies (#[trigger] o[a]).taken_at <= at by {
        if a < n - 1 {
            assert(comes_before(keys, p[a], p[n - 1]));
        }
    }
    assert forall|a: int| n <= a < o.len() implies (#[trigger] o[a]).taken_at > at by {
        assert(comes_before(keys, p[n - 1], p[n]));
        if a > n {
            assert(comes_before(keys, p[n], p[a]));
        }
        assert(o[n].taken_at != o[n - 1].taken_at);
    }
    if balance_in(first, id) is Some {
        let q = lemma_last_in_order(snaps, id, n);
        let k = p[q];
        assert(o[q] == snaps[k]);
        assert forall|j: int|
            0 <= j < snaps.len() && (#[trigger] snaps[j]).account_id == snaps[k].account_id
                && snaps[j].taken_at <= at implies {
            ||| snaps[j].taken_at < snaps[k].taken_at
            ||| snaps[j].taken_at == snaps[k].taken_at && j <= k
        } by {
            assert(p.contains(j));
            let a = choose|a: int| 0 <= a < p.len() && p[a] == j;
            assert(o[a] == snaps[j]);
            if a < q {
                assert(comes_before(keys, p[a], p[q]));
            } else if a > q {
                assert(a < n);
                assert(o[a].account_id != id);
            }
        }
        assert(is_latest_by(snaps, at, k));
        assert(snaps[k].account_id == id);
    } else {
        lemma_absent_in_order(first, id);
        if has_reading(snaps, at, id) {
            let j = choose|j: int|
                0 <= j < snaps.len() && (#[trigger] snaps[j]).account_id == id && snaps[j].taken_at
                    <= at;
            assert(p.contains(j));
            let a = choose|a: int| 0 <= a < p.len() && p[a] == j;
            assert(o[a] == snaps[j]);
            assert(a < n);
            assert(first[a].account_id != id);
        }
    }
}

/// The amounts are those that the accounts had at an instant: for one that counted then the
/// amount of its latest reading up to then, and zero for any other.
pub open spec fn are_read(
    amounts: Seq<int>,
    accounts: Seq<Account>,
    snaps: Seq<BalanceSnapshot>,
    at: i64,
) -> bool {
    &&& amounts.len() == accounts.len()
    &&& forall|i: int|
        0 <= i < accounts.len() ==> if counted_at(#[trigger] accounts[i], snaps, at) {
            read_by(snaps, at, accounts[i].id->0, amounts[i])
        } else {
            amounts[i] == 0
        }
}

proof fn lemma_net_at(accounts: Seq<Account>, snaps: Seq<BalanceSnapshot>, n: int, amounts: Seq<int>)
    requires
        0 < n <= snaps.len(),
        ends_instant(by_time(snaps), n - 1),
        are_read(amounts, accounts, snaps, by_time(snaps)[n - 1].taken_at),
    ensures
        net_at(accounts, by_time(snaps).take(n)) == sum_over(
            Seq::new(accounts.len(), |i: int| adds(accounts[i], amounts[i])),
            |x: int| x,
        ),
    decreases accounts.len(),
{
    let at = by_time(snaps)[n - 1].taken_at;
    let first = by_time(snaps).take(n);
    let parts = Seq::new(accounts.len(), |i: int| adds(accounts[i], amounts[i]));
    if accounts.len() > 0 {
        let m = accounts.len() - 1;
        let d = accounts.drop_last();
        let rest = amounts.drop_last();
        assert forall|i: int| 0 <= i < d.len() implies if counted_at(#[trigger] d[i], snaps, at) {
            read_by(snaps, at, d[i].id->0, rest[i])
        } else {
            rest[i] == 0
        } by {
            assert(d[i] == accounts[i]);
        }
        lemma_net_at(d, snaps, n, rest);
        assert(parts.drop_last() =~= Seq::new(d.len(), |i: int| adds(d[i], rest[i])));
        let a = accounts[m];
        match a.id {
            Some(id) => {
                lemma_prefix_reads(snaps, n, id);
                if counted_at(a, snaps, at) {
                    assert(read_by(snaps, at, id, amounts[m]));
                    lemma_read_once(snaps, at, id, amounts[m], amount_in(first, id));
                }
            },
            None => {},
        }
    }
}

/// Whether the net worth of a point is the sum of what the accounts that counted at its instant
/// added with their latest reading up to then.
pub open spec fn is_point(p: (i64, int), accounts: Seq<Account>, snaps: Seq<BalanceSnapshot>) -> bool {
    forall|amounts: Seq<int>| #[trigger]
        are_read(amounts, accounts, snaps, p.0) ==> p.1 == sum_over(
            Seq::new(accounts.len(), |i: int| adds(accounts[i], amounts[i])),
            |x: int| x,
        )
}

proof fn lemma_points(accounts: Seq<Account>, snaps: Seq<BalanceSnapshot>, n: nat)
    requires
        n <= snaps.len(),
    ensures
        ({
            let ps = points(accounts, by_time(snaps), n);
            &&& forall|i: int| 0 <= i < ps.len() ==> is_point(#[trigger] ps[i], accounts, snaps)
            &&& forall|i: int, j: int|
                0 <= i < j < ps.len() ==> (#[trigger] ps[i]).0 < (#[trigger] ps[j]).0
            &&& forall|i: int|
                0 <= i < ps.len() ==> exists|k: int|
                    0 <= k < n && (#[trigger] by_time(snaps)[k]).taken_at == (#[trigger] ps[i]).0
            &&& forall|k: int|
                0 <= k < n && (n < snaps.len() ==> by_time(snaps)[k].taken_at < by_time(
                    snaps,
                )[n as int].taken_at) ==> has_point(
                    ps,
                    (#[trigger] by_time(snaps)[k]).taken_at,
                )
            &&& forall|i: int|
                0 <= i < ps.len() && n < snaps.len() ==> (#[trigger] ps[i]).0 < by_time(
                    snaps,
                )[n as int].taken_at
        }),
    decreases n,
{
    let o = by_time(snaps);
    let keys = snaps.map_values(|s: BalanceSnapshot| s.taken_at);
    law_stable_order(keys, keys.len());
    let q = stable_order(keys, keys.len());
    if n > 0 {
        let m = (n - 1) as nat;
        lemma_points(accounts, snaps, m);
        let rest = points(accounts, o, m);
        let ps = points(accounts, o, n);
        if n < snaps.len() {
            assert(comes_before(keys, q[n - 1], q[n as int]));
        }
        if ends_instant(o, n - 1) {
            let p = (o[n - 1].taken_at, net_at(accounts, o.take(n as int)));
            assert(ps == rest.push(p));
            assert forall|amounts: Seq<int>| #[trigger]
                are_read(amounts, accounts, snaps, p.0) implies p.1 == sum_over(
                Seq::new(accounts.len(), |i: int| adds(accounts[i], amounts[i])),
                |x: int| x,
            ) by {
                lemma_net_at(accounts, snaps, n as int, amounts);
            }
            assert(is_point(p, accounts, snaps));
            assert forall|k: int|
                0 <= k < n && (n < snaps.len() ==> o[k].taken_at < o[n as int].taken_at) implies has_point(
                ps,
                (#[trigger] o[k]).taken_at,
            ) by {
                if k < m {
                    assert(comes_before(keys, q[k], q[m as int]));
                }
                if o[k].taken_at < o[m as int].taken_at {
                    assert(has_point(rest, o[k].taken_at));
                    let i = choose|i: int| 0 <= i < rest.len() && (#[trigger] rest[i]).0 == o[k].taken_at;
                    assert(ps[i].0 == o[k].taken_at);
                } else {
                    assert(ps[rest.len() as int].0 == o[k].taken_at);
                }
            }
            assert forall|i: int| 0 <= i < ps.len() implies exists|k: int|
                0 <= k < n && (#[trigger] o[k]).taken_at == (#[trigger] ps[i]).0 by {
                if i < rest.len() {
                    let k = choose|k: int|
                        0 <= k < m && (#[trigger] o[k]).taken_at == rest[i].0;
                    assert(o[k].taken_at == ps[i].0);
                } else {
                    assert(o[n - 1].taken_at == ps[i].0);
                }
            }
        } else {
            assert(ps == rest);
        }
    }
}

/// Whether a series has a point at an instant.
pub open spec fn has_point(ps: Seq<(i64, int)>, at: i64) -> bool {
    exists|i: int| 0 <= i < ps.len() && (#[trigger] ps[i]).0 == at
}

/// The series has one point for each instant of a reading from its start on, the earliest
/// first, and each is the sum of what the accounts that counted then added.
pub proof fn law_net_worth_series(
    out: Seq<(i64, int)>,
    accounts: Seq<Account>,
    snaps: Seq<BalanceSnapshot>,
    since: Option<i64>,
)
    requires
        out == series(accounts, snaps, since),
    ensures
        forall|i: int| 0 <= i < out.len() ==> is_point(#[trigger] out[i], accounts, snaps),
        forall|i: int|
            0 <= i < out.len() && since is Some ==> since->0 <= (#[trigger] out[i]).0,
        forall|i: int|
            0 <= i < out.len() ==> exists|k: int|
                0 <= k < snaps.len() && (#[trigger] snaps[k]).taken_at == (#[trigger] out[i]).0,
        forall|k: int|
            0 <= k < snaps.len() && (since is Some ==> since->0 <= snaps[k].taken_at) ==> has_point(
                out,
                (#[trigger] snaps[k]).taken_at,
            ),
        forall|i: int, j: int|
            0 <= i < j < out.len() ==> (#[trigger] out[i]).0 < (#[trigger] out[j]).0,
{
    let o = by_time(snaps);
    let all = points(accounts, o, snaps.len());
    let p = |p: (i64, int)| since is Some ==> p.0 >= since->0;
    lemma_points(accounts, snaps, snaps.len());
    lemma_kept(all, p);
    lemma_place(all, p);
    assert(out == kept(all, p));
    let keys = snaps.map_values(|s: BalanceSnapshot| s.taken_at);
    law_stable_order(keys, keys.len());
    let q = stable_order(keys, keys.len());
    assert forall|i: int| 0 <= i < out.len() implies is_point(#[trigger] out[i], accounts, snaps)
        && (since is Some ==> since->0 <= out[i].0) && exists|k: int|
        0 <= k < snaps.len() && (#[trigger] snaps[k]).taken_at == out[i].0 by {
        assert(p(out[i]));
        let a = place(all, p, i);
        assert(all[a] == out[i]);
        let k = choose|k: int| 0 <= k < snaps.len() && (#[trigger] o[k]).taken_at == all[a].0;
        assert(o[k] == snaps[q[k]]);
        assert(snaps[q[k]].taken_at == out[i].0);
    }
    assert forall|i: int, j: int| 0 <= i < j < out.len() implies (#[trigger] out[i]).0 < (
    #[trigger] out[j]).0 by {
        assert(all[place(all, p, i)] == out[i] && all[place(all, p, j)] == out[j]);
        assert(place(all, p, i) < place(all, p, j));
    }
    assert forall|k: int|
        0 <= k < snaps.len() && (since is Some ==> since->0 <= snaps[k].taken_at) implies has_point(
        out,
        (#[trigger] snaps[k]).taken_at,
    ) by {
        assert(q.contains(k));
        let a = choose|a: int| 0 <= a < q.len() && q[a] == k;
        assert(o[a] == snaps[k]);
        assert(has_point(all, o[a].taken_at));
        let i = choose|i: int| 0 <= i < all.len() && (#[trigger] all[i]).0 == snaps[k].taken_at;
        assert(p(all[i]));
        assert(out.contains(all[i]));
        let j = choose|j: int| 0 <= j < out.len() && out[j] == all[i];
        assert(out[j].0 == snaps[k].taken_at);
    }
}

// ---------------------------------------------------------------------------
// Debts
// ---------------------------------------------------------------------------

/// Whether an id is that of a debt.
pub open spec fn owes(accounts: Seq<Account>, id: AccountId) -> bool {
    exists|i: int|
        0 <= i < accounts.len() && (#[trigger] accounts[i]).id == Some(id) && accounts[i].kind@
            == "debt"@
}

proof fn lemma_owes(accounts: Seq<Account>, id: AccountId)
    requires
        ids_differ(accounts),
    ensures
        is_debt(accounts, id) == owes(accounts, id),
{
    let p = |a: Account| has_id(a, id);
    lemma_first_index_is_first(accounts, p);
    let k = first_index(accounts, p);
    if owes(accounts, id) {
        let i = choose|i: int|
            0 <= i < accounts.len() && (#[trigger] accounts[i]).id == Some(id) && accounts[i].kind@
                == "debt"@;
        assert(p(accounts[i]));
        if k < i {
            assert(p(accounts[k]));
            assert(accounts[k].id != accounts[i].id);
        } else if k > i {
            assert(!p(accounts[i]));
        }
    }
    if k < accounts.len() {
        assert(p(accounts[k]));
    }
}

/// What was paid off the debts in a window is what went into debt accounts with the sign turned:
/// a payment, which is negative, pays down.
pub proof fn law_debt_paydown(
    r: Result<Cents>,
    accounts: Seq<Account>,
    rows: Seq<Transaction>,
    since: i64,
    until: i64,
)
    requires
        match paydowns(accounts, rows, since, until) {
            Some(v) => is_total(r, v),
            None => r is Err,
        },
        ids_differ(accounts),
    ensures
        r is Ok ==> r->Ok_0.0 == sum_over(
            rows,
            |t: Transaction|
                if since <= t.posted_at && t.posted_at < until && owes(accounts, t.account_id) {
                    -t.amount_cents.0
                } else {
                    0
                },
        ),
        sum_over(rows, |t: Transaction| size_of(t.amount_cents.0 as int)) <= i64::MAX ==> r is Ok,
{
    lemma_paydowns(accounts, rows, since, until);
    match paydowns(accounts, rows, since, until) {
        Some(v) => {
            lemma_total_is_exact(v);
        },
        None => {},
    }
}

proof fn lemma_paydowns(accounts: Seq<Account>, rows: Seq<Transaction>, since: i64, until: i64)
    requires
        ids_differ(accounts),
    ensures
        paydowns(accounts, rows, since, until) is Some ==> sum_over(
            paydowns(accounts, rows, since, until)->0,
            |x: i64| x as int,
        ) == sum_over(
            rows,
            |t: Transaction|
                if since <= t.posted_at && t.posted_at < until && owes(accounts, t.account_id) {
                    -t.amount_cents.0
                } else {
                    0
                },
        ),
        paydowns(accounts, rows, since, until) is Some ==> sum_over(
            paydowns(accounts, rows, since, until)->0,
            |x: i64| size_of(x as int),
        ) <= sum_over(rows, |t: Transaction| size_of(t.amount_cents.0 as int)),
        sum_over(rows, |t: Transaction| size_of(t.amount_cents.0 as int)) <= i64::MAX ==> paydowns(
            accounts,
            rows,
            since,
            until,
        ) is Some,
    decreases rows.len(),
{
    if rows.len() > 0 {
        let d = rows.drop_last();
        lemma_paydowns(accounts, d, since, until);
        lemma_owes(accounts, rows.last().account_id);
        lemma_sum_signed(d, |t: Transaction| size_of(t.amount_cents.0 as int));
        let before = paydowns(accounts, d, since, until);
        let after = paydowns(accounts, rows, since, until);
        if before is Some && after is Some && after->0.len() == before->0.len() + 1 {
            assert(after->0.drop_last() =~= before->0);
        }
    }
}

/// The open debts are the debt accounts that are switched on, one for one and in their order,
/// each with its latest balance.
pub proof fn law_open_debts(
    out: Seq<DebtBalance>,
    accounts: Seq<Account>,
    balances: Seq<(AccountId, Cents)>,
)
    requires
        are_open_debts(out, accounts, balances),
    ensures
        ({
            let debts = accounts.filter(|a: Account| a.kind@ == "debt"@ && a.active);
            &&& out.len() == debts.len()
            &&& forall|i: int|
                0 <= i < out.len() ==> (#[trigger] out[i]).account_name@ == debts[i].name@
                    && out[i].balance.0 == match debts[i].id {
                    Some(id) => given(balances, id),
                    None => 0,
                }
        }),
{
    let p = |a: Account| is_open_debt(a);
    let q = |a: Account| a.kind@ == "debt"@ && a.active;
    assert forall|a: Account| p(a) == #[trigger] q(a) by {}
    lemma_kept_same(accounts, p, q);
    lemma_kept_is_filter(accounts, q);
    let debts = accounts.filter(q);
    assert forall|i: int| 0 <= i < out.len() implies (#[trigger] out[i]).account_name@
        == debts[i].name@ && out[i].balance.0 == match debts[i].id {
        Some(id) => given(balances, id),
        None => 0,
    } by {
        match debts[i].id {
            Some(id) => {
                lemma_given(balances, id);
            },
            None => {},
        }
    }
}

/// Whether a scheduled payment is that of an expense on a debt account.
pub open spec fn is_payment(d: DebtScheduled, p: PlannedExpense, accounts: Seq<Account>) -> bool {
    &&& d.due_at == p.due_at
    &&& d.amount == p.amount_cents
    &&& d.description@ == p.description@
    &&& p.account_id is Some
    &&& owes(accounts, p.account_id->0)
}

/// Whether a payment is that of one of the expenses.
pub open spec fn pays_one(
    d: DebtScheduled,
    planned: Seq<PlannedExpense>,
    accounts: Seq<Account>,
) -> bool {
    exists|k: int| 0 <= k < planned.len() && is_payment(d, #[trigger] planned[k], accounts)
}

/// Whether one of the payments is that of an expense.
pub open spec fn is_paid(
    out: Seq<DebtScheduled>,
    p: PlannedExpense,
    accounts: Seq<Account>,
) -> bool {
    exists|i: int| 0 <= i < out.len() && is_payment(#[trigger] out[i], p, accounts)
}

/// The scheduled payments are the open expenses of the window that are on a debt account, the
/// soonest first, each with its day, its amount and its words.
pub proof fn law_scheduled_payments(
    out: Seq<DebtScheduled>,
    accounts: Seq<Account>,
    planned: Seq<PlannedExpense>,
    since: i64,
    until: i64,
)
    requires
        out == debt_payments(accounts, due_expenses(planned, since, until)),
        ids_differ(accounts),
    ensures
        forall|i: int|
            0 <= i < out.len() ==> since <= (#[trigger] out[i]).due_at < until && pays_one(
                out[i],
                planned,
                accounts,
            ),
        forall|k: int|
            0 <= k < planned.len() && open_in(#[trigger] planned[k], since, until)
                && planned[k].account_id is Some && owes(accounts, planned[k].account_id->0)
                ==> is_paid(out, planned[k], accounts),
        forall|i: int, j: int|
            0 <= i < j < out.len() ==> (#[trigger] out[i]).due_at <= (#[trigger] out[j]).due_at,
{
    let due = due_expenses(planned, since, until);
    crate::laws::lists::law_planned_due(due, planned, since, until);
    lemma_payments_are_of(accounts, due);
    lemma_payments_ascend(accounts, due);
    assert forall|i: int| 0 <= i < out.len() implies since <= (#[trigger] out[i]).due_at < until
        && pays_one(out[i], planned, accounts) by {
        let k = choose|k: int| 0 <= k < due.len() && is_payment(out[i], #[trigger] due[k], accounts);
        assert(planned.contains(due[k]) && open_in(due[k], since, until));
        let j = choose|j: int| 0 <= j < planned.len() && planned[j] == due[k];
        assert(is_payment(out[i], planned[j], accounts));
    }
    assert forall|k: int|
        0 <= k < planned.len() && open_in(#[trigger] planned[k], since, until)
            && planned[k].account_id is Some && owes(
            accounts,
            planned[k].account_id->0,
        ) implies is_paid(out, planned[k], accounts) by {
        assert(due.contains(planned[k]));
        let j = choose|j: int| 0 <= j < due.len() && due[j] == planned[k];
        lemma_debt_is_paid(accounts, due, j);
    }
}

proof fn lemma_payments_are_of(accounts: Seq<Account>, due: Seq<PlannedExpense>)
    requires
        ids_differ(accounts),
    ensures
        forall|i: int|
            0 <= i < debt_payments(accounts, due).len() ==> pays_one(
                #[trigger] debt_payments(accounts, due)[i],
                due,
                accounts,
            ),
    decreases due.len(),
{
    if due.len() > 0 {
        let n = due.len() - 1;
        let d = due.drop_last();
        lemma_payments_are_of(accounts, d);
        let before = debt_payments(accounts, d);
        let after = debt_payments(accounts, due);
        if due[n].account_id is Some {
            lemma_owes(accounts, due[n].account_id->0);
        }
        assert forall|i: int| 0 <= i < after.len() implies pays_one(
            #[trigger] after[i],
            due,
            accounts,
        ) by {
            if i < before.len() {
                assert(after[i] == before[i]);
                let k = choose|k: int|
                    0 <= k < d.len() && is_payment(before[i], #[trigger] d[k], accounts);
                assert(is_payment(after[i], due[k], accounts));
            } else {
                assert(is_payment(after[i], due[n], accounts));
            }
        }
    }
}

proof fn lemma_debt_is_paid(accounts: Seq<Account>, due: Seq<PlannedExpense>, k: int)
    requires
        ids_differ(accounts),
        0 <= k < due.len(),
        due[k].account_id is Some,
        owes(accounts, due[k].account_id->0),
    ensures
        is_paid(debt_payments(accounts, due), due[k], accounts),
    decreases due.len(),
{
    let n = due.len() - 1;
    let d = due.drop_last();
    let before = debt_payments(accounts, d);
    let after = debt_payments(accounts, due);
    if k < n {
        lemma_debt_is_paid(accounts, d, k);
        let i = choose|i: int|
            0 <= i < before.len() && is_payment(#[trigger] before[i], d[k], accounts);
        assert(is_payment(after[i], due[k], accounts));
    } else {
        lemma_owes(accounts, due[k].account_id->0);
        assert(is_payment(after[before.len() as int], due[k], accounts));
    }
}

proof fn lemma_payments_ascend(accounts: Seq<Account>, due: Seq<PlannedExpense>)
    requires
        forall|i: int, j: int|
            0 <= i < j < due.len() ==> (#[trigger] due[i]).due_at <= (#[trigger] due[j]).due_at,
    ensures
        forall|i: int, j: int|
            0 <= i < j < debt_payments(accounts, due).len() ==> (#[trigger] debt_payments(
                accounts,
                due,
            )[i]).due_at <= (#[trigger] debt_payments(accounts, due)[j]).due_at,
        forall|i: int|
            0 <= i < debt_payments(accounts, due).len() ==> (#[trigger] debt_payments(
                accounts,
                due,
            )[i]).due_at <= due.last().due_at,
    decreases due.len(),
{
    if due.len() > 0 {
        let d = due.drop_last();
        assert forall|i: int, j: int| 0 <= i < j < d.len() implies (#[trigger] d[i]).due_at <= (
        #[trigger] d[j]).due_at by {
            assert(due[i].due_at <= due[j].due_at);
        }
        lemma_payments_ascend(accounts, d);
        let before = debt_payments(accounts, d);
        assert forall|i: int| 0 <= i < before.len() implies (#[trigger] before[i]).due_at
            <= due.last().due_at by {
            assert(d.len() > 0);
            assert(due[d.len() - 1].due_at <= due[d.len() as int].due_at);
        }
    }
}

} // verus!
