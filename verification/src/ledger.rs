//! What is read off the stored rows: filtered lists, sums, latest balances, and the
//! net-worth series.

use crate::db::{
    account_exists, orphan_error, Account, AlertHistoryRow, AlertRule, BalanceSnapshot,
    PlannedExpense, SubscriptionRecord, Transaction,
};
use crate::error::{CoreError, Result};
use crate::ids::{AccountId, BusinessId};
use crate::money::Cents;
use crate::order::{rank_strings, stable_indices};
use crate::rpc::{DebtBalance, DebtScheduled};
use crate::text::{dec2_string, str_eq, str_lt};
use crate::time::{utc_clock, year_string, Clock};
use vstd::prelude::*;

verus! {

use crate::db::{has_account, is_orphan_error};
use crate::money::clamp;
use crate::order::{
    comes_before, first_index, kept, law_stable_order, lemma_first_index,
    lemma_first_index_is_first, lemma_kept, lemma_largest_is_last, ranks, sorted_by_keys,
    stable_order,
};
use crate::text::{dec2, lemma_lex_total, lemma_lex_transitive, lex_lt, opt_text};
use crate::time::{utc_fields, year_text};

// ---------------------------------------------------------------------------
// Transactions
// ---------------------------------------------------------------------------

/// Whether a transaction passes the filters of a listing.
pub open spec fn passes(t: Transaction, since: Option<i64>, tag: Option<Seq<char>>) -> bool {
    (since is Some ==> t.posted_at >= since->0) && (tag is Some ==> opt_text(t.tag) == tag)
}

/// Keys by which the newest come first.
pub open spec fn newest_first(rows: Seq<Transaction>) -> Seq<i64> {
    rows.map_values(|t: Transaction| (-1 - t.posted_at) as i64)
}

/// The first `limit` items; all of them where the limit is negative.
pub open spec fn limited<T>(s: Seq<T>, limit: i64) -> Seq<T> {
    if limit < 0 || limit >= s.len() {
        s
    } else {
        s.take(limit as int)
    }
}

/// The transactions that pass the filters, the newest first, at most `limit` of them.
pub open spec fn listed(
    rows: Seq<Transaction>,
    since: Option<i64>,
    tag: Option<Seq<char>>,
    limit: i64,
) -> Seq<Transaction> {
    let found = kept(rows, |t: Transaction| passes(t, since, tag));
    limited(sorted_by_keys(found, newest_first(found)), limit)
}

/// The transactions from `since` on and with the given tag, the newest first. A negative
/// limit is none.
pub fn list_transactions(
    rows: &Vec<Transaction>,
    since: Option<i64>,
    tag: Option<&str>,
    limit: i64,
) -> (r: Vec<Transaction>)
    ensures
        r@ == listed(
            rows@,
            since,
            match tag {
                Some(t) => Some(t@),
                None => None,
            },
            limit,
        ),
{
    let ghost tag_text = match tag {
        Some(t) => Some(t@),
        None => None,
    };
    let ghost p = |t: Transaction| passes(t, since, tag_text);
    let mut found: Vec<Transaction> = Vec::new();
    let mut keys: Vec<i64> = Vec::new();
    let mut i: usize = 0;
    while i < rows.len()
        invariant
            i <= rows.len(),
            tag_text == match tag {
                Some(t) => Some(t@),
                None => None,
            },
            p == (|t: Transaction| passes(t, since, tag_text)),
            found@ == kept(rows@.take(i as int), p),
            keys@.len() == found@.len(),
            forall|k: int| 0 <= k < keys@.len() ==> #[trigger] keys@[k] == -1 - found@[k].posted_at,
        decreases rows.len() - i,
    {
        assert(rows@.take(i + 1).drop_last() == rows@.take(i as int));
        let t: &Transaction = &rows[i];
        let recent: bool = match since {
            Some(s) => t.posted_at >= s,
            None => true,
        };
        let tagged: bool = match tag {
            Some(g) => match &t.tag {
                Some(x) => str_eq(x.as_str(), g),
                None => false,
            },
            None => true,
        };
        if recent && tagged {
            found.push(t.clone());
            keys.push(-1 - t.posted_at);
        }
        i = i + 1;
    }
    assert(rows@.take(rows@.len() as int) == rows@);
    assert(keys@ =~= newest_first(found@));
    let order: Vec<usize> = stable_indices(&keys);
    let ghost q = stable_order(keys@, keys@.len());
    let n: usize = if limit < 0 || limit as u64 >= order.len() as u64 {
        order.len()
    } else {
        limit as usize
    };
    let mut out: Vec<Transaction> = Vec::new();
    let mut k: usize = 0;
    while k < n
        invariant
            k <= n <= order.len(),
            order@.len() == found@.len(),
            order@.map_values(|x: usize| x as int) == q,
            forall|j: int| 0 <= j < order@.len() ==> 0 <= (#[trigger] order@[j]) < found@.len(),
            out@.len() == k,
            forall|j: int| 0 <= j < k ==> #[trigger] out@[j] == found@[q[j]],
        decreases n - k,
    {
        assert(order@.map_values(|x: usize| x as int)[k as int] == order@[k as int]);
        out.push(found[order[k]].clone());
        k = k + 1;
    }
    assert(out@ =~= listed(rows@, since, tag_text, limit));
    out
}

// ---------------------------------------------------------------------------
// Sums
// ---------------------------------------------------------------------------

/// The sum of the amounts, unless a partial sum leaves 64 bits.
pub open spec fn total(s: Seq<i64>) -> Option<i64>
    decreases s.len(),
{
    if s.len() == 0 {
        Some(0)
    } else {
        match total(s.drop_last()) {
            Some(x) => if i64::MIN <= x + s.last() <= i64::MAX {
                Some((x + s.last()) as i64)
            } else {
                None
            },
            None => None,
        }
    }
}

/// The outcome of a sum: the amount, or the complaint about its size.
pub open spec fn is_total(r: Result<Cents>, s: Seq<i64>) -> bool {
    match total(s) {
        Some(x) => r is Ok && r->Ok_0 == Cents(x),
        None => r is Err && r->Err_0 is Sql && r->Err_0->Sql_0@ == "integer overflow"@,
    }
}

/// Whether an instant lies in a half-open window: its end is not part of it.
pub open spec fn within(at: i64, since: i64, until: i64) -> bool {
    since <= at < until
}

/// The amounts of the transactions with a property.
pub open spec fn amounts(rows: Seq<Transaction>, p: spec_fn(Transaction) -> bool) -> Seq<i64> {
    kept(rows, p).map_values(|t: Transaction| t.amount_cents.0)
}

/// The sum of the amounts, in order.
pub fn sum_amounts(v: &Vec<i64>) -> (r: Result<Cents>)
    ensures
        is_total(r, v@),
{
    let mut acc: i64 = 0;
    let mut i: usize = 0;
    while i < v.len()
        invariant
            i <= v.len(),
            total(v@.take(i as int)) == Some(acc),
        decreases v.len() - i,
    {
        assert(v@.take(i + 1).drop_last() == v@.take(i as int));
        acc = match acc.checked_add(v[i]) {
            Some(x) => x,
            None => {
                proof {
                    lemma_total_none(v@, i + 1);
                }
                return Err(CoreError::Sql("integer overflow".to_owned()));
            },
        };
        i = i + 1;
    }
    assert(v@.take(v@.len() as int) == v@);
    Ok(Cents(acc))
}

proof fn lemma_total_none(s: Seq<i64>, k: int)
    requires
        0 <= k <= s.len(),
        total(s.take(k)) is None,
    ensures
        total(s) is None,
    decreases s.len() - k,
{
    if k == s.len() {
        assert(s.take(k) == s);
    } else {
        assert(s.take(k + 1).drop_last() == s.take(k));
        lemma_total_none(s, k + 1);
    }
}

/// Whether a transaction carries a tag and posted from `since` up to and including `until`.
pub open spec fn tagged_in(t: Transaction, tag: Seq<char>, since: i64, until: i64) -> bool {
    opt_text(t.tag) == Some(tag) && since <= t.posted_at <= until
}

/// The sum of a tag's transactions in the closed window from `since` to `until`.
pub fn total_by_tag(rows: &Vec<Transaction>, tag: &str, since: i64, until: i64) -> (r: Result<Cents>)
    ensures
        is_total(r, amounts(rows@, |t: Transaction| tagged_in(t, tag@, since, until))),
{
    let ghost p = |t: Transaction| tagged_in(t, tag@, since, until);
    let mut v: Vec<i64> = Vec::new();
    let mut i: usize = 0;
    while i < rows.len()
        invariant
            i <= rows.len(),
            p == (|t: Transaction| tagged_in(t, tag@, since, until)),
            v@ == amounts(rows@.take(i as int), p),
        decreases rows.len() - i,
    {
        assert(rows@.take(i + 1).drop_last() == rows@.take(i as int));
        let t: &Transaction = &rows[i];
        let hit: bool = match &t.tag {
            Some(x) => str_eq(x.as_str(), tag),
            None => false,
        };
        if hit && since <= t.posted_at && t.posted_at <= until {
            v.push(t.amount_cents.0);
        }
        i = i + 1;
        assert(v@ =~= amounts(rows@.take(i as int), p));
    }
    assert(rows@.take(rows@.len() as int) == rows@);
    sum_amounts(&v)
}

fn is_bound(t: &Transaction, id: BusinessId) -> (r: bool)
    ensures
        r == (t.business_id == Some(id)),
{
    match t.business_id {
        Some(b) => b.0 == id.0,
        None => false,
    }
}

/// Whether a transaction is bound to a business and posted from `since` up to and including
/// `until`.
pub open spec fn of_business(t: Transaction, id: BusinessId, since: i64, until: i64) -> bool {
    t.business_id == Some(id) && since <= t.posted_at <= until
}

/// Profit and loss of a business in the closed window from `since` to `until`.
pub fn business_pnl(rows: &Vec<Transaction>, business_id: BusinessId, since: i64, until: i64) -> (r:
    Result<Cents>)
    ensures
        is_total(r, amounts(rows@, |t: Transaction| of_business(t, business_id, since, until))),
{
    let ghost p = |t: Transaction| of_business(t, business_id, since, until);
    let mut v: Vec<i64> = Vec::new();
    let mut i: usize = 0;
    while i < rows.len()
        invariant
            i <= rows.len(),
            p == (|t: Transaction| of_business(t, business_id, since, until)),
            v@ == amounts(rows@.take(i as int), p),
        decreases rows.len() - i,
    {
        assert(rows@.take(i + 1).drop_last() == rows@.take(i as int));
        let t: &Transaction = &rows[i];
        if is_bound(t, business_id) && since <= t.posted_at && t.posted_at <= until {
            v.push(t.amount_cents.0);
        }
        i = i + 1;
        assert(v@ =~= amounts(rows@.take(i as int), p));
    }
    assert(rows@.take(rows@.len() as int) == rows@);
    sum_amounts(&v)
}

/// Whether a transaction is an inflow of a business in a half-open window (or an outflow).
pub open spec fn flows_in(
    t: Transaction,
    id: BusinessId,
    since: i64,
    until: i64,
    inflow: bool,
) -> bool {
    &&& t.business_id == Some(id)
    &&& within(t.posted_at, since, until)
    &&& if inflow {
        t.amount_cents.0 > 0
    } else {
        t.amount_cents.0 < 0
    }
}

/// The inflows of a business in a half-open window (or its outflows).
fn business_amounts(
    rows: &Vec<Transaction>,
    id: BusinessId,
    since: i64,
    until: i64,
    inflow: bool,
) -> (r: Vec<i64>)
    ensures
        r@ == amounts(rows@, |t: Transaction| flows_in(t, id, since, until, inflow)),
{
    let ghost p = |t: Transaction| flows_in(t, id, since, until, inflow);
    let mut v: Vec<i64> = Vec::new();
    let mut i: usize = 0;
    while i < rows.len()
        invariant
            i <= rows.len(),
            p == (|t: Transaction| flows_in(t, id, since, until, inflow)),
            v@ == amounts(rows@.take(i as int), p),
        decreases rows.len() - i,
    {
        assert(rows@.take(i + 1).drop_last() == rows@.take(i as int));
        let t: &Transaction = &rows[i];
        let amount: i64 = t.amount_cents.0;
        let wanted: bool = if inflow {
            amount > 0
        } else {
            amount < 0
        };
        if is_bound(t, id) && since <= t.posted_at && t.posted_at < until && wanted {
            v.push(amount);
        }
        i = i + 1;
        assert(v@ =~= amounts(rows@.take(i as int), p));
    }
    assert(rows@.take(rows@.len() as int) == rows@);
    v
}

/// Income and expenses of a business in a half-open window.
pub fn business_income_expenses(
    rows: &Vec<Transaction>,
    business_id: BusinessId,
    since: i64,
    until: i64,
) -> (r: Result<(Cents, Cents)>)
    ensures
        ({
            let income = total(
                amounts(rows@, |t: Transaction| flows_in(t, business_id, since, until, true)),
            );
            let expenses = total(
                amounts(rows@, |t: Transaction| flows_in(t, business_id, since, until, false)),
            );
            match r {
                Ok(x) => income == Some(x.0.0) && expenses == Some(x.1.0),
                Err(e) => (income is None || expenses is None) && e is Sql && e->Sql_0@
                    == "integer overflow"@,
            }
        }),
{
    let income: Cents = match sum_amounts(
        &business_amounts(rows, business_id, since, until, true),
    ) {
        Ok(c) => c,
        Err(e) => {
            return Err(e);
        },
    };
    let expenses: Cents = match sum_amounts(
        &business_amounts(rows, business_id, since, until, false),
    ) {
        Ok(c) => c,
        Err(e) => {
            return Err(e);
        },
    };
    Ok((income, expenses))
}

// ---------------------------------------------------------------------------
// Totals by key
// ---------------------------------------------------------------------------

/// The amounts that stand under a key, in order.
pub open spec fn amounts_under(keys: Seq<String>, values: Seq<i64>, key: Seq<char>) -> Seq<i64>
    decreases keys.len(),
{
    if keys.len() == 0 || values.len() == 0 {
        Seq::empty()
    } else {
        let rest = amounts_under(keys.drop_last(), values.drop_last(), key);
        if keys.last()@ == key {
            rest.push(values.last())
        } else {
            rest
        }
    }
}

/// One row for each key, in the order of the keys, with the sum under it.
pub open spec fn are_totals(out: Seq<(String, Cents)>, keys: Seq<String>, values: Seq<i64>) -> bool {
    &&& forall|i: int|
        0 <= i < out.len() ==> total(amounts_under(keys, values, (#[trigger] out[i]).0@)) == Some(
            out[i].1.0,
        ) && exists|k: int| 0 <= k < keys.len() && (#[trigger] keys[k])@ == out[i].0@
    &&& forall|i: int, j: int|
        0 <= i < j < out.len() ==> lex_lt((#[trigger] out[i]).0@, (#[trigger] out[j]).0@)
    &&& forall|k: int|
        0 <= k < keys.len() ==> has_key(out, (#[trigger] keys[k])@)
}

pub open spec fn has_key(out: Seq<(String, Cents)>, key: Seq<char>) -> bool {
    exists|i: int| 0 <= i < out.len() && (#[trigger] out[i]).0@ == key
}

/// Whether every sum under a key stays within 64 bits.
pub open spec fn totals_fit(keys: Seq<String>, values: Seq<i64>) -> bool {
    forall|k: int|
        0 <= k < keys.len() ==> total(amounts_under(keys, values, (#[trigger] keys[k])@)) is Some
}

fn sum_under(keys: &Vec<String>, values: &Vec<i64>, key: &String) -> (r: Result<Cents>)
    requires
        keys@.len() == values@.len(),
    ensures
        is_total(r, amounts_under(keys@, values@, key@)),
{
    let mut v: Vec<i64> = Vec::new();
    let mut i: usize = 0;
    while i < keys.len()
        invariant
            i <= keys.len(),
            keys@.len() == values@.len(),
            v@ == amounts_under(keys@.take(i as int), values@.take(i as int), key@),
        decreases keys.len() - i,
    {
        assert(keys@.take(i + 1).drop_last() == keys@.take(i as int));
        assert(values@.take(i + 1).drop_last() == values@.take(i as int));
        if keys[i] == *key {
            v.push(values[i]);
        }
        i = i + 1;
    }
    assert(keys@.take(keys@.len() as int) == keys@);
    assert(values@.take(values@.len() as int) == values@);
    sum_amounts(&v)
}

/// Whether the rows are the totals of the first `n` keys.
spec fn totals_so_far(out: Seq<(String, Cents)>, keys: Seq<String>, values: Seq<i64>, n: int) -> bool {
    &&& forall|i: int|
        0 <= i < out.len() ==> total(amounts_under(keys, values, (#[trigger] out[i]).0@)) == Some(
            out[i].1.0,
        ) && exists|k: int| 0 <= k < n && (#[trigger] keys[k])@ == out[i].0@
    &&& forall|i: int, j: int|
        0 <= i < j < out.len() ==> lex_lt((#[trigger] out[i]).0@, (#[trigger] out[j]).0@)
    &&& forall|k: int| 0 <= k < n ==> has_key(out, (#[trigger] keys[k])@)
}

proof fn lemma_total_added(
    before: Seq<(String, Cents)>,
    row: (String, Cents),
    pos: int,
    keys: Seq<String>,
    values: Seq<i64>,
    i: int,
)
    requires
        0 <= pos <= before.len(),
        0 <= i < keys.len(),
        totals_so_far(before, keys, values, i),
        row.0@ == keys[i]@,
        total(amounts_under(keys, values, row.0@)) == Some(row.1.0),
        forall|j: int| 0 <= j < pos ==> lex_lt((#[trigger] before[j]).0@, row.0@),
        pos < before.len() ==> lex_lt(row.0@, before[pos].0@),
    ensures
        totals_so_far(before.insert(pos, row), keys, values, i + 1),
{
    let after = before.insert(pos, row);
    assert(after[pos] == row);
    assert forall|j: int| 0 <= j < after.len() implies total(
        amounts_under(keys, values, (#[trigger] after[j]).0@),
    ) == Some(after[j].1.0) && exists|k: int|
        0 <= k < i + 1 && (#[trigger] keys[k])@ == after[j].0@ by {
        if j == pos {
            assert(keys[i]@ == after[j].0@);
        } else {
            let b = if j < pos { j } else { j - 1 };
            assert(after[j] == before[b]);
        }
    }
    assert forall|a: int, b: int| 0 <= a < b < after.len() implies lex_lt(
        (#[trigger] after[a]).0@,
        (#[trigger] after[b]).0@,
    ) by {
        if a == pos {
            assert(after[b] == before[b - 1]);
            if b - 1 > pos {
                assert(lex_lt(before[pos].0@, before[b - 1].0@));
                lemma_lex_transitive(row.0@, before[pos].0@, before[b - 1].0@);
            }
        } else if b == pos {
            assert(after[a] == before[a]);
        } else {
            let x = if a < pos { a } else { a - 1 };
            let y = if b < pos { b } else { b - 1 };
            assert(after[a] == before[x] && after[b] == before[y]);
        }
    }
    assert forall|k: int| 0 <= k < i + 1 implies has_key(after, (#[trigger] keys[k])@) by {
        if k < i {
            assert(has_key(before, keys[k]@));
            let j = choose|j: int| 0 <= j < before.len() && (#[trigger] before[j]).0@ == keys[k]@;
            assert(after[if j < pos { j } else { j + 1 }] == before[j]);
        } else {
            assert(after[pos].0@ == keys[k]@);
        }
    }
}

/// The sum under each key, in the order of the keys.
pub fn totals_by_key(keys: &Vec<String>, values: &Vec<i64>) -> (r: Result<Vec<(String, Cents)>>)
    requires
        keys@.len() == values@.len(),
    ensures
        r is Ok == totals_fit(keys@, values@),
        r is Ok ==> are_totals(r->Ok_0@, keys@, values@),
        r is Err ==> r->Err_0 is Sql && r->Err_0->Sql_0@ == "integer overflow"@,
{
    let mut out: Vec<(String, Cents)> = Vec::new();
    let mut i: usize = 0;
    while i < keys.len()
        invariant
            i <= keys.len(),
            keys@.len() == values@.len(),
            totals_so_far(out@, keys@, values@, i as int),
            forall|k: int|
                0 <= k < i ==> total(amounts_under(keys@, values@, (#[trigger] keys@[k])@)) is Some,
        decreases keys.len() - i,
    {
        let ghost before = out@;
        let mut pos: usize = 0;
        while pos < out.len() && str_lt(out[pos].0.as_str(), keys[i].as_str())
            invariant
                pos <= out.len(),
                i < keys.len(),
                out@ == before,
                forall|j: int| 0 <= j < pos ==> lex_lt((#[trigger] before[j]).0@, keys@[i as int]@),
            decreases out.len() - pos,
        {
            pos = pos + 1;
        }
        if pos < out.len() && out[pos].0 == keys[i] {
            proof {
                assert(has_key(before, keys@[i as int]@));
                assert forall|j: int| 0 <= j < before.len() implies exists|k: int|
                    0 <= k < i + 1 && (#[trigger] keys@[k])@ == (#[trigger] before[j]).0@ by {
                    let k = choose|k: int| 0 <= k < i && (#[trigger] keys@[k])@ == before[j].0@;
                    assert(keys@[k]@ == before[j].0@);
                }
            }
        } else {
            let sum: Cents = match sum_under(keys, values, &keys[i]) {
                Ok(c) => c,
                Err(e) => {
                    assert(!totals_fit(keys@, values@));
                    return Err(e);
                },
            };
            proof {
                if pos < before.len() {
                    lemma_lex_total(before[pos as int].0@, keys@[i as int]@);
                }
            }
            let key: String = keys[i].clone();
            let ghost row = (key, sum);
            out.insert(pos, (key, sum));
            proof {
                lemma_total_added(before, row, pos as int, keys@, values@, i as int);
            }
        }
        i = i + 1;
    }
    Ok(out)
}

// ---------------------------------------------------------------------------
// Spending by category, cash flow by month
// ---------------------------------------------------------------------------

/// Whether a transaction is an expense in a window.
pub open spec fn is_expense_in(t: Transaction, since: i64, until: i64) -> bool {
    t.amount_cents.0 < 0 && within(t.posted_at, since, until)
}

/// The category that a transaction counts under.
pub open spec fn category_of(t: Transaction) -> Seq<char> {
    match t.category {
        Some(c) => c@,
        None => "uncategorized"@,
    }
}

/// The expenses in a window.
pub open spec fn expenses_in(rows: Seq<Transaction>, since: i64, until: i64) -> Seq<Transaction> {
    kept(rows, |t: Transaction| is_expense_in(t, since, until))
}

/// The transactions in a window.
pub open spec fn posted_in(rows: Seq<Transaction>, since: i64, until: i64) -> Seq<Transaction> {
    kept(rows, |t: Transaction| within(t.posted_at, since, until))
}

/// The categories and amounts of the expenses in a window.
pub open spec fn are_expenses(
    keys: Seq<String>,
    values: Seq<i64>,
    rows: Seq<Transaction>,
    since: i64,
    until: i64,
) -> bool {
    let found = expenses_in(rows, since, until);
    &&& keys.len() == found.len()
    &&& values.len() == found.len()
    &&& forall|i: int|
        0 <= i < found.len() ==> is_spend_of(#[trigger] keys[i], values[i], found[i])
}

/// The category and the amount are those of a transaction.
pub open spec fn is_spend_of(key: String, value: i64, t: Transaction) -> bool {
    &&& key@ == category_of(t)
    &&& value == t.amount_cents.0
}

/// The sums of a list of totals.
pub open spec fn sums(t: Seq<(String, Cents)>) -> Seq<i64> {
    t.map_values(|x: (String, Cents)| x.1.0)
}

/// Spending by category: the most spent first, at most `limit` rows.
pub open spec fn is_spending(
    out: Seq<(String, Cents)>,
    keys: Seq<String>,
    values: Seq<i64>,
    limit: i64,
) -> bool {
    exists|t: Seq<(String, Cents)>| #[trigger]
        are_totals(t, keys, values) && out == limited(sorted_by_keys(t, sums(t)), limit)
}

fn expense_columns(rows: &Vec<Transaction>, since: i64, until: i64) -> (r: (Vec<String>, Vec<i64>))
    ensures
        are_expenses(r.0@, r.1@, rows@, since, until),
{
    let mut keys: Vec<String> = Vec::new();
    let mut values: Vec<i64> = Vec::new();
    let mut i: usize = 0;
    while i < rows.len()
        invariant
            i <= rows.len(),
            keys@.len() == expenses_in(rows@.take(i as int), since, until).len(),
            values@.len() == keys@.len(),
            forall|k: int|
                0 <= k < keys@.len() ==> is_spend_of(
                    #[trigger] keys@[k],
                    values@[k],
                    expenses_in(rows@.take(i as int), since, until)[k],
                ),
        decreases rows.len() - i,
    {
        assert(rows@.take(i + 1).drop_last() == rows@.take(i as int));
        let ghost before = expenses_in(rows@.take(i as int), since, until);
        let ghost after = expenses_in(rows@.take(i + 1), since, until);
        assert(after == if is_expense_in(rows@[i as int], since, until) {
            before.push(rows@[i as int])
        } else {
            before
        });
        let t: &Transaction = &rows[i];
        if t.amount_cents.0 < 0 && since <= t.posted_at && t.posted_at < until {
            keys.push(
                match &t.category {
                    Some(c) => c.clone(),
                    None => "uncategorized".to_owned(),
                },
            );
            values.push(t.amount_cents.0);
        }
        i = i + 1;
    }
    assert(rows@.take(rows@.len() as int) == rows@);
    assert(are_expenses(keys@, values@, rows@, since, until));
    (keys, values)
}

fn order_by_sum(t: &Vec<(String, Cents)>, limit: i64) -> (r: Vec<(String, Cents)>)
    ensures
        r@ == limited(sorted_by_keys(t@, sums(t@)), limit),
{
    let mut keys: Vec<i64> = Vec::new();
    let mut i: usize = 0;
    while i < t.len()
        invariant
            i <= t.len(),
            keys@.len() == i,
            forall|k: int| 0 <= k < i ==> #[trigger] keys@[k] == t@[k].1.0,
        decreases t.len() - i,
    {
        keys.push(t[i].1.0);
        i = i + 1;
    }
    assert(keys@ =~= sums(t@));
    let order: Vec<usize> = stable_indices(&keys);
    let ghost q = stable_order(keys@, keys@.len());
    let n: usize = if limit < 0 || limit as u64 >= order.len() as u64 {
        order.len()
    } else {
        limit as usize
    };
    let mut out: Vec<(String, Cents)> = Vec::new();
    let mut k: usize = 0;
    while k < n
        invariant
            k <= n <= order.len(),
            order@.len() == t@.len(),
            order@.map_values(|x: usize| x as int) == q,
            forall|j: int| 0 <= j < order@.len() ==> 0 <= (#[trigger] order@[j]) < t@.len(),
            out@.len() == k,
            forall|j: int| 0 <= j < k ==> #[trigger] out@[j] == t@[q[j]],
        decreases n - k,
    {
        assert(order@.map_values(|x: usize| x as int)[k as int] == order@[k as int]);
        let row: &(String, Cents) = &t[order[k]];
        out.push((row.0.clone(), row.1));
        k = k + 1;
    }
    assert(out@ =~= limited(sorted_by_keys(t@, sums(t@)), limit));
    out
}

/// The outcome of a spending query: the categories, or why there are none.
pub open spec fn is_spending_outcome(
    r: Result<Vec<(String, Cents)>>,
    rows: Seq<Transaction>,
    since: i64,
    until: i64,
    limit: i64,
) -> bool {
    exists|keys: Seq<String>, values: Seq<i64>| #[trigger]
        are_expenses(keys, values, rows, since, until) && match r {
            Ok(out) => totals_fit(keys, values) && is_spending(out@, keys, values, limit),
            Err(e) => !totals_fit(keys, values) && e is Sql && e->Sql_0@ == "integer overflow"@,
        }
}

/// Spending by category in a window, the most spent first. Rows without a category count
/// as `uncategorized`; a negative limit is none.
pub fn expenses_by_category(rows: &Vec<Transaction>, since: i64, until: i64, limit: i64) -> (r:
    Result<Vec<(String, Cents)>>)
    ensures
        is_spending_outcome(r, rows@, since, until, limit),
{
    let (keys, values) = expense_columns(rows, since, until);
    match totals_by_key(&keys, &values) {
        Ok(t) => Ok(order_by_sum(&t, limit)),
        Err(e) => Err(e),
    }
}

proof fn lemma_negative_total(s: Seq<i64>)
    requires
        forall|i: int| 0 <= i < s.len() ==> #[trigger] s[i] < 0,
        total(s) is Some,
    ensures
        total(s)->0 <= 0,
        s.len() > 0 ==> total(s)->0 < 0,
    decreases s.len(),
{
    if s.len() > 0 {
        let d = s.drop_last();
        assert forall|i: int| 0 <= i < d.len() implies #[trigger] d[i] < 0 by {
            assert(d[i] == s[i]);
        }
        assert(s[s.len() - 1] < 0);
        lemma_negative_total(d);
    }
}

proof fn lemma_negative_under(keys: Seq<String>, values: Seq<i64>, key: Seq<char>)
    requires
        keys.len() == values.len(),
        forall|i: int| 0 <= i < values.len() ==> #[trigger] values[i] < 0,
    ensures
        forall|i: int|
            0 <= i < amounts_under(keys, values, key).len() ==> #[trigger] amounts_under(
                keys,
                values,
                key,
            )[i] < 0,
        forall|k: int|
            0 <= k < keys.len() && (#[trigger] keys[k])@ == key ==> amounts_under(
                keys,
                values,
                key,
            ).len() > 0,
    decreases keys.len(),
{
    if keys.len() > 0 {
        let (ks, vs) = (keys.drop_last(), values.drop_last());
        assert forall|i: int| 0 <= i < vs.len() implies #[trigger] vs[i] < 0 by {
            assert(vs[i] == values[i]);
        }
        lemma_negative_under(ks, vs, key);
        assert(values[values.len() - 1] < 0);
        let rest = amounts_under(ks, vs, key);
        let all = amounts_under(keys, values, key);
        assert forall|i: int| 0 <= i < all.len() implies #[trigger] all[i] < 0 by {
            if i < rest.len() {
                assert(all[i] == rest[i]);
            }
        }
        assert forall|k: int| 0 <= k < keys.len() && (#[trigger] keys[k])@ == key implies all.len()
            > 0 by {
            if k < ks.len() {
                assert(ks[k] == keys[k]);
            }
        }
    }
}

/// Spending is listed as outflow: every category comes with a negative sum, and the most
/// spent comes first.
pub proof fn law_spending_is_outflow(
    out: Vec<(String, Cents)>,
    rows: Seq<Transaction>,
    since: i64,
    until: i64,
    limit: i64,
)
    requires
        is_spending_outcome(Ok(out), rows, since, until, limit),
    ensures
        forall|i: int| 0 <= i < out@.len() ==> (#[trigger] out@[i]).1.0 < 0,
        forall|i: int, j: int|
            0 <= i < j < out@.len() ==> (#[trigger] out@[i]).1.0 <= (#[trigger] out@[j]).1.0,
{
    let r: Result<Vec<(String, Cents)>> = Ok(out);
    let (keys, values) = choose|keys: Seq<String>, values: Seq<i64>| #[trigger]
        are_expenses(keys, values, rows, since, until) && match r {
            Ok(out) => totals_fit(keys, values) && is_spending(out@, keys, values, limit),
            Err(e) => !totals_fit(keys, values) && e is Sql && e->Sql_0@ == "integer overflow"@,
        };
    let t = choose|t: Seq<(String, Cents)>| #[trigger]
        are_totals(t, keys, values) && out@ == limited(sorted_by_keys(t, sums(t)), limit);
    let found = expenses_in(rows, since, until);
    lemma_kept(rows, |t: Transaction| is_expense_in(t, since, until));
    assert forall|i: int| 0 <= i < values.len() implies #[trigger] values[i] < 0 by {
        assert(is_spend_of(keys[i], values[i], found[i]));
        assert(is_expense_in(found[i], since, until));
    }
    assert forall|i: int| 0 <= i < t.len() implies (#[trigger] t[i]).1.0 < 0 by {
        lemma_negative_under(keys, values, t[i].0@);
        lemma_negative_total(amounts_under(keys, values, t[i].0@));
    }
    let ks = sums(t);
    let p = stable_order(ks, ks.len());
    law_stable_order(ks, ks.len());
    assert forall|i: int| 0 <= i < out@.len() implies (#[trigger] out@[i]).1.0 < 0 by {
        assert(out@[i] == t[p[i]]);
    }
    assert forall|i: int, j: int| 0 <= i < j < out@.len() implies (#[trigger] out@[i]).1.0 <= (
    #[trigger] out@[j]).1.0 by {
        assert(out@[i] == t[p[i]] && out@[j] == t[p[j]]);
        assert(comes_before(ks, p[i], p[j]));
    }
}

/// The `YYYY-MM` label of a month.
pub open spec fn month_label(year: int, month: int) -> Seq<char> {
    year_text(year) + "-"@ + dec2(month as nat)
}

/// The instants that SQLite dates: from the epoch of the Julian days to the end of the year
/// 9999.
pub open spec fn is_dated(ts: i64) -> bool {
    -210_866_760_000 <= ts <= 253_402_300_799
}

/// The amounts of the transactions in a window that no month holds.
pub open spec fn undated(rows: Seq<Transaction>, since: i64, until: i64) -> Seq<i64> {
    amounts(rows, |t: Transaction| within(t.posted_at, since, until) && !is_dated(t.posted_at))
}

/// The label of the UTC month that an instant falls in.
pub open spec fn month_of(ts: i64) -> Seq<char> {
    month_label(utc_fields(ts).0 as int, utc_fields(ts).1 as int)
}

/// The months and amounts of the transactions in a window.
pub open spec fn are_flows(
    keys: Seq<String>,
    values: Seq<i64>,
    rows: Seq<Transaction>,
    since: i64,
    until: i64,
) -> bool {
    let found = posted_in(rows, since, until);
    &&& keys.len() == found.len()
    &&& values.len() == found.len()
    &&& forall|i: int|
        0 <= i < found.len() ==> is_flow_of(#[trigger] keys[i], values[i], found[i])
}

/// The month and the amount are those of a transaction.
pub open spec fn is_flow_of(key: String, value: i64, t: Transaction) -> bool {
    &&& is_dated(t.posted_at)
    &&& key@ == month_of(t.posted_at)
    &&& value == t.amount_cents.0
}

/// The inflows among the amounts, the others as zero.
pub open spec fn inflows(values: Seq<i64>) -> Seq<i64> {
    values.map_values(
        |v: i64|
            if v >= 0 {
                v
            } else {
                0
            },
    )
}

/// The outflows among the amounts, the others as zero.
pub open spec fn outflows(values: Seq<i64>) -> Seq<i64> {
    values.map_values(
        |v: i64|
            if v < 0 {
                v
            } else {
                0
            },
    )
}

/// Cash flow by month, the oldest month first.
pub open spec fn is_cash_flow(
    out: Seq<(String, Cents, Cents)>,
    keys: Seq<String>,
    values: Seq<i64>,
) -> bool {
    &&& are_totals(out.map_values(|x: (String, Cents, Cents)| (x.0, x.1)), keys, inflows(values))
    &&& forall|i: int|
        0 <= i < out.len() ==> total(
            amounts_under(keys, outflows(values), (#[trigger] out[i]).0@),
        ) == Some(out[i].2.0)
}

fn month_string(c: &Clock) -> (r: String)
    ensures
        r@ == month_label(c.year as int, c.month as int),
{
    year_string(c.year).concat("-").concat(dec2_string(c.month as u64).as_str())
}

fn undated_amounts(rows: &Vec<Transaction>, since: i64, until: i64) -> (r: Vec<i64>)
    ensures
        r@ == undated(rows@, since, until),
        r@.len() == 0 ==> forall|i: int|
            0 <= i < rows@.len() && within((#[trigger] rows@[i]).posted_at, since, until)
                ==> is_dated(rows@[i].posted_at),
{
    let ghost p = |t: Transaction| within(t.posted_at, since, until) && !is_dated(t.posted_at);
    let mut v: Vec<i64> = Vec::new();
    let mut i: usize = 0;
    while i < rows.len()
        invariant
            i <= rows.len(),
            p == (|t: Transaction| within(t.posted_at, since, until) && !is_dated(t.posted_at)),
            v@ == amounts(rows@.take(i as int), p),
        decreases rows.len() - i,
    {
        assert(rows@.take(i + 1).drop_last() == rows@.take(i as int));
        let at: i64 = rows[i].posted_at;
        if since <= at && at < until && (at < -210_866_760_000 || at > 253_402_300_799) {
            v.push(rows[i].amount_cents.0);
        }
        i = i + 1;
        assert(v@ =~= amounts(rows@.take(i as int), p));
    }
    assert(rows@.take(rows@.len() as int) == rows@);
    proof {
        lemma_kept(rows@, p);
        assert forall|k: int|
            v@.len() == 0 && 0 <= k < rows@.len() && within(
                (#[trigger] rows@[k]).posted_at,
                since,
                until,
            ) implies is_dated(rows@[k].posted_at) by {
            assert(p(rows@[k]) ==> kept(rows@, p).contains(rows@[k]));
        }
    }
    v
}

/// The amounts by month.
fn flow_columns(rows: &Vec<Transaction>, since: i64, until: i64) -> (r: (Vec<String>, Vec<i64>))
    requires
        forall|i: int|
            0 <= i < rows@.len() && within((#[trigger] rows@[i]).posted_at, since, until)
                ==> is_dated(rows@[i].posted_at),
    ensures
        are_flows(r.0@, r.1@, rows@, since, until),
{
    let mut keys: Vec<String> = Vec::new();
    let mut values: Vec<i64> = Vec::new();
    let mut i: usize = 0;
    while i < rows.len()
        invariant
            i <= rows.len(),
            forall|k: int|
                0 <= k < rows@.len() && within((#[trigger] rows@[k]).posted_at, since, until)
                    ==> is_dated(rows@[k].posted_at),
            keys@.len() == posted_in(rows@.take(i as int), since, until).len(),
            values@.len() == keys@.len(),
            forall|k: int|
                0 <= k < keys@.len() ==> is_flow_of(
                    #[trigger] keys@[k],
                    values@[k],
                    posted_in(rows@.take(i as int), since, until)[k],
                ),
        decreases rows.len() - i,
    {
        assert(rows@.take(i + 1).drop_last() == rows@.take(i as int));
        let ghost before = posted_in(rows@.take(i as int), since, until);
        let ghost after = posted_in(rows@.take(i + 1), since, until);
        assert(after == if within(rows@[i as int].posted_at, since, until) {
            before.push(rows@[i as int])
        } else {
            before
        });
        let t: &Transaction = &rows[i];
        if since <= t.posted_at && t.posted_at < until {
            assert(is_dated(rows@[i as int].posted_at));
            let c: Clock = utc_clock(t.posted_at).unwrap();
            keys.push(month_string(&c));
            values.push(t.amount_cents.0);
            assert(is_flow_of(keys@.last(), values@.last(), rows@[i as int]));
        }
        i = i + 1;
    }
    assert(rows@.take(rows@.len() as int) == rows@);
    (keys, values)
}

fn split_flows(values: &Vec<i64>) -> (r: (Vec<i64>, Vec<i64>))
    ensures
        r.0@ == inflows(values@),
        r.1@ == outflows(values@),
{
    let mut a: Vec<i64> = Vec::new();
    let mut b: Vec<i64> = Vec::new();
    let mut i: usize = 0;
    while i < values.len()
        invariant
            i <= values.len(),
            a@ == inflows(values@.take(i as int)),
            b@ == outflows(values@.take(i as int)),
        decreases values.len() - i,
    {
        if values[i] >= 0 {
            a.push(values[i]);
            b.push(0);
        } else {
            a.push(0);
            b.push(values[i]);
        }
        i = i + 1;
        assert(a@ =~= inflows(values@.take(i as int)));
        assert(b@ =~= outflows(values@.take(i as int)));
    }
    assert(values@.take(values@.len() as int) == values@);
    (a, b)
}

/// What is said of a group of rows that has no month.
pub open spec fn no_month() -> Seq<char> {
    "Invalid column type Null at index: 0, name: ym"@
}

/// The outcome of a cash-flow query: the flows, or why there are none. The rows that no month
/// holds come before the others: where there are any, there are no flows, and only the size
/// of their own sums is told before that.
pub open spec fn is_flow_outcome(
    r: Result<Vec<(String, Cents, Cents)>>,
    rows: Seq<Transaction>,
    since: i64,
    until: i64,
) -> bool {
    let lost = undated(rows, since, until);
    if lost.len() > 0 {
        r is Err && r->Err_0 is Sql && r->Err_0->Sql_0@ == if total(inflows(lost)) is Some && total(
            outflows(lost),
        ) is Some {
            no_month()
        } else {
            "integer overflow"@
        }
    } else {
        exists|keys: Seq<String>, values: Seq<i64>| #[trigger]
            are_flows(keys, values, rows, since, until) && match r {
                Ok(out) => is_cash_flow(out@, keys, values),
                Err(e) => e is Sql && e->Sql_0@ == "integer overflow"@ && !(totals_fit(
                    keys,
                    inflows(values),
                ) && totals_fit(keys, outflows(values))),
            }
    }
}

/// Monthly cash flow in a window: the inflows and the outflows of each UTC month with a
/// transaction, the oldest month first.
pub fn cash_flow_monthly(rows: &Vec<Transaction>, since: i64, until: i64) -> (r: Result<
    Vec<(String, Cents, Cents)>,
>)
    ensures
        is_flow_outcome(r, rows@, since, until),
{
    let lost: Vec<i64> = undated_amounts(rows, since, until);
    if lost.len() > 0 {
        let (ins, outs) = split_flows(&lost);
        return match (sum_amounts(&ins), sum_amounts(&outs)) {
            (Ok(_), Ok(_)) => Err(
                CoreError::Sql("Invalid column type Null at index: 0, name: ym".to_owned()),
            ),
            _ => Err(CoreError::Sql("integer overflow".to_owned())),
        };
    }
    let (keys, values) = flow_columns(rows, since, until);
    let (ins, outs) = split_flows(&values);
    let t: Vec<(String, Cents)> = match totals_by_key(&keys, &ins) {
        Ok(t) => t,
        Err(e) => {
            return Err(e);
        },
    };
    let mut out: Vec<(String, Cents, Cents)> = Vec::new();
    let mut i: usize = 0;
    while i < t.len()
        invariant
            i <= t.len(),
            keys@.len() == values@.len(),
            outs@ == outflows(values@),
            undated(rows@, since, until).len() == 0,
            are_flows(keys@, values@, rows@, since, until),
            are_totals(t@, keys@, inflows(values@)),
            out@.len() == i,
            forall|k: int|
                0 <= k < i ==> (#[trigger] out@[k]).0 == t@[k].0 && out@[k].1 == t@[k].1,
            forall|k: int|
                0 <= k < out@.len() ==> total(
                    amounts_under(keys@, outs@, (#[trigger] out@[k]).0@),
                ) == Some(out@[k].2.0),
        decreases t.len() - i,
    {
        let sum: Cents = match sum_under(&keys, &outs, &t[i].0) {
            Ok(c) => c,
            Err(e) => {
                proof {
                    let k = choose|k: int|
                        0 <= k < keys@.len() && (#[trigger] keys@[k])@ == t@[i as int].0@;
                    assert(total(amounts_under(keys@, outs@, keys@[k]@)) is None);
                    assert(!totals_fit(keys@, outflows(values@)));
                }
                return Err(e);
            },
        };
        out.push((t[i].0.clone(), t[i].1, sum));
        i = i + 1;
    }
    assert(out@.map_values(|x: (String, Cents, Cents)| (x.0, x.1)) =~= t@);
    assert(is_cash_flow(out@, keys@, values@));
    Ok(out)
}

// ---------------------------------------------------------------------------
// Balances
// ---------------------------------------------------------------------------

/// The readings in the order in which they were taken; readings of one instant keep the
/// order of the rows.
pub open spec fn by_time(snaps: Seq<BalanceSnapshot>) -> Seq<BalanceSnapshot> {
    sorted_by_keys(snaps, snaps.map_values(|s: BalanceSnapshot| s.taken_at))
}

/// The last balance of an account among readings that are in order.
pub open spec fn balance_in(ordered: Seq<BalanceSnapshot>, id: AccountId) -> Option<Cents>
    decreases ordered.len(),
{
    if ordered.len() == 0 {
        None
    } else if ordered.last().account_id == id {
        Some(ordered.last().amount_cents)
    } else {
        balance_in(ordered.drop_last(), id)
    }
}

/// Records the balance of an account, which has to exist.
pub fn insert_snapshot(
    rows: &mut Vec<BalanceSnapshot>,
    accounts: &Vec<Account>,
    account_id: AccountId,
    amount: Cents,
    now: i64,
    fresh: i64,
) -> (r: Result<()>)
    ensures
        if has_account(accounts@, account_id) {
            r is Ok && final(rows)@ == old(rows)@.push(
                (BalanceSnapshot { id: fresh, account_id, taken_at: now, amount_cents: amount }),
            )
        } else {
            r is Err && is_orphan_error(r->Err_0) && final(rows)@ == old(rows)@
        },
{
    if !account_exists(accounts, account_id) {
        return Err(orphan_error());
    }
    rows.push(BalanceSnapshot { id: fresh, account_id, taken_at: now, amount_cents: amount });
    Ok(())
}

fn sort_by_time(snaps: &Vec<BalanceSnapshot>) -> (r: Vec<BalanceSnapshot>)
    ensures
        r@ == by_time(snaps@),
{
    let mut keys: Vec<i64> = Vec::new();
    let mut i: usize = 0;
    while i < snaps.len()
        invariant
            i <= snaps.len(),
            keys@.len() == i,
            forall|k: int| 0 <= k < i ==> #[trigger] keys@[k] == snaps@[k].taken_at,
        decreases snaps.len() - i,
    {
        keys.push(snaps[i].taken_at);
        i = i + 1;
    }
    assert(keys@ =~= snaps@.map_values(|s: BalanceSnapshot| s.taken_at));
    let order: Vec<usize> = stable_indices(&keys);
    let ghost q = stable_order(keys@, keys@.len());
    let mut out: Vec<BalanceSnapshot> = Vec::new();
    let mut k: usize = 0;
    while k < order.len()
        invariant
            k <= order.len(),
            order@.len() == snaps@.len(),
            order@.map_values(|x: usize| x as int) == q,
            forall|j: int| 0 <= j < order@.len() ==> 0 <= (#[trigger] order@[j]) < snaps@.len(),
            out@.len() == k,
            forall|j: int| 0 <= j < k ==> #[trigger] out@[j] == snaps@[q[j]],
        decreases order.len() - k,
    {
        assert(order@.map_values(|x: usize| x as int)[k as int] == order@[k as int]);
        out.push(snaps[order[k]]);
        k = k + 1;
    }
    assert(out@ =~= by_time(snaps@));
    out
}

fn last_balance(ordered: &Vec<BalanceSnapshot>, n: usize, id: AccountId) -> (r: Option<Cents>)
    requires
        n <= ordered@.len(),
    ensures
        r == balance_in(ordered@.take(n as int), id),
{
    let mut i: usize = n;
    while i > 0
        invariant
            i <= n <= ordered@.len(),
            balance_in(ordered@.take(n as int), id) == balance_in(ordered@.take(i as int), id),
        decreases i,
    {
        assert(ordered@.take(i as int).drop_last() == ordered@.take(i - 1));
        if ordered[i - 1].account_id.0 == id.0 {
            return Some(ordered[i - 1].amount_cents);
        }
        i = i - 1;
    }
    None
}

/// The latest balance of each account that has one, in the order of the account ids.
pub open spec fn are_latest(out: Seq<(AccountId, Cents)>, snaps: Seq<BalanceSnapshot>) -> bool {
    &&& forall|i: int|
        0 <= i < out.len() ==> balance_in(by_time(snaps), (#[trigger] out[i]).0) == Some(out[i].1)
    &&& forall|i: int, j: int|
        0 <= i < j < out.len() ==> (#[trigger] out[i]).0.0 < (#[trigger] out[j]).0.0
    &&& forall|id: AccountId| #[trigger]
        balance_in(by_time(snaps), id) is Some ==> exists|i: int|
            0 <= i < out.len() && (#[trigger] out[i]).0 == id
}

spec fn latest_so_far(
    out: Seq<(AccountId, Cents)>,
    ordered: Seq<BalanceSnapshot>,
    n: int,
) -> bool {
    &&& forall|i: int|
        0 <= i < out.len() ==> balance_in(ordered, (#[trigger] out[i]).0) == Some(out[i].1)
    &&& forall|i: int, j: int|
        0 <= i < j < out.len() ==> (#[trigger] out[i]).0.0 < (#[trigger] out[j]).0.0
    &&& forall|k: int| 0 <= k < n ==> has_balance(out, (#[trigger] ordered[k]).account_id)
}

spec fn has_balance(out: Seq<(AccountId, Cents)>, id: AccountId) -> bool {
    exists|i: int| 0 <= i < out.len() && (#[trigger] out[i]).0 == id
}

proof fn lemma_balance_member(ordered: Seq<BalanceSnapshot>, id: AccountId)
    ensures
        balance_in(ordered, id) is Some ==> exists|k: int|
            0 <= k < ordered.len() && (#[trigger] ordered[k]).account_id == id,
        forall|k: int|
            0 <= k < ordered.len() && (#[trigger] ordered[k]).account_id == id ==> balance_in(
                ordered,
                id,
            ) is Some,
    decreases ordered.len(),
{
    if ordered.len() > 0 {
        let d = ordered.drop_last();
        lemma_balance_member(d, id);
        if ordered.last().account_id == id {
            assert(ordered[ordered.len() - 1].account_id == id);
        } else if balance_in(ordered, id) is Some {
            let k = choose|k: int| 0 <= k < d.len() && (#[trigger] d[k]).account_id == id;
            assert(ordered[k].account_id == id);
        }
        assert forall|k: int| 0 <= k < ordered.len() && (#[trigger] ordered[k]).account_id
            == id implies balance_in(ordered, id) is Some by {
            if k < d.len() {
                assert(d[k].account_id == id);
            }
        }
    }
}

/// The latest balance of each account, in the order of the account ids. Of readings of one
/// instant the later row counts.
pub fn latest_balances(snaps: &Vec<BalanceSnapshot>) -> (r: Vec<(AccountId, Cents)>)
    ensures
        are_latest(r@, snaps@),
{
    let ordered: Vec<BalanceSnapshot> = sort_by_time(snaps);
    let n: usize = ordered.len();
    assert(ordered@.take(n as int) == ordered@);
    let mut out: Vec<(AccountId, Cents)> = Vec::new();
    let mut i: usize = 0;
    while i < n
        invariant
            i <= n == ordered@.len(),
            ordered@.take(n as int) == ordered@,
            latest_so_far(out@, ordered@, i as int),
        decreases n - i,
    {
        let id: AccountId = ordered[i].account_id;
        let ghost before = out@;
        let mut pos: usize = 0;
        while pos < out.len() && out[pos].0.0 < id.0
            invariant
                pos <= out.len(),
                out@ == before,
                forall|j: int| 0 <= j < pos ==> (#[trigger] before[j]).0.0 < id.0,
            decreases out.len() - pos,
        {
            pos = pos + 1;
        }
        if pos < out.len() && out[pos].0.0 == id.0 {
            assert(before[pos as int].0 == id);
            assert(has_balance(before, id));
        } else {
            let bal: Cents = match last_balance(&ordered, n, id) {
                Some(c) => c,
                None => {
                    proof {
                        lemma_balance_member(ordered@, id);
                        assert(ordered@[i as int].account_id == id);
                    }
                    Cents(0)
                },
            };
            proof {
                lemma_balance_member(ordered@, id);
                assert(ordered@[i as int].account_id == id);
            }
            out.insert(pos, (id, bal));
            proof {
                let after = out@;
                assert(after[pos as int] == (id, bal));
                assert forall|j: int| 0 <= j < after.len() implies balance_in(
                    ordered@,
                    (#[trigger] after[j]).0,
                ) == Some(after[j].1) by {
                    if j != pos {
                        let b = if j < pos { j } else { j - 1 };
                        assert(after[j] == before[b]);
                    }
                }
                assert forall|a: int, b: int| 0 <= a < b < after.len() implies (
                #[trigger] after[a]).0.0 < (#[trigger] after[b]).0.0 by {
                    let x = if a < pos { a } else { a - 1 };
                    let y = if b < pos { b } else { b - 1 };
                    if a == pos {
                        assert(after[b] == before[b - 1]);
                        if b - 1 > pos {
                            assert(before[pos as int].0.0 < before[b - 1].0.0);
                        }
                    } else if b == pos {
                        assert(after[a] == before[a]);
                    } else {
                        assert(after[a] == before[x] && after[b] == before[y]);
                    }
                }
                assert forall|k: int| 0 <= k < i + 1 implies has_balance(
                    after,
                    (#[trigger] ordered@[k]).account_id,
                ) by {
                    if k < i {
                        assert(has_balance(before, ordered@[k].account_id));
                        let j = choose|j: int|
                            0 <= j < before.len() && (#[trigger] before[j]).0
                                == ordered@[k].account_id;
                        assert(after[if j < pos { j } else { j + 1 }] == before[j]);
                    } else {
                        assert(after[pos as int].0 == ordered@[k].account_id);
                    }
                }
            }
        }
        i = i + 1;
    }
    proof {
        assert forall|id: AccountId| #[trigger] balance_in(by_time(snaps@), id) is Some implies exists|
            i: int,
        | 0 <= i < out@.len() && (#[trigger] out@[i]).0 == id by {
            lemma_balance_member(ordered@, id);
            let k = choose|k: int| 0 <= k < ordered@.len() && (#[trigger] ordered@[k]).account_id == id;
            assert(has_balance(out@, ordered@[k].account_id));
        }
    }
    out
}

// ---------------------------------------------------------------------------
// Net worth
// ---------------------------------------------------------------------------

/// Whether an account counts toward net worth: not a subscription, and in US dollars
/// (nothing is converted).
pub open spec fn counts(a: Account) -> bool {
    a.kind@ != "subscription"@ && a.currency@ == "USD"@
}

/// What a balance adds to net worth: debts subtract.
pub open spec fn worth(a: Account, balance: int) -> int {
    if !counts(a) {
        0
    } else if a.kind@ == "debt"@ {
        -balance
    } else {
        balance
    }
}

pub open spec fn is_balance_of(b: (AccountId, Cents), id: AccountId) -> bool {
    b.0 == id
}

/// The balance of an account in a list of balances; zero where there is none.
pub open spec fn listed_balance(balances: Seq<(AccountId, Cents)>, id: AccountId) -> Cents {
    let k = first_index(balances, |b: (AccountId, Cents)| is_balance_of(b, id));
    if k < balances.len() {
        balances[k].1
    } else {
        Cents(0)
    }
}

/// A balance that is recorded last is read back, and the other accounts keep theirs.
pub proof fn law_snapshot_is_read_back(
    before: Seq<(AccountId, Cents)>,
    after: Seq<(AccountId, Cents)>,
    snaps: Seq<BalanceSnapshot>,
    s: BalanceSnapshot,
    id: AccountId,
)
    requires
        are_latest(before, snaps),
        are_latest(after, snaps.push(s)),
        forall|i: int| 0 <= i < snaps.len() ==> (#[trigger] snaps[i]).taken_at <= s.taken_at,
    ensures
        listed_balance(after, s.account_id) == s.amount_cents,
        id != s.account_id ==> listed_balance(after, id) == listed_balance(before, id),
{
    let keys = snaps.map_values(|s: BalanceSnapshot| s.taken_at);
    lemma_largest_is_last(snaps, keys, s, s.taken_at);
    assert(snaps.push(s).map_values(|s: BalanceSnapshot| s.taken_at) =~= keys.push(s.taken_at));
    let now = by_time(snaps.push(s));
    assert(now == by_time(snaps).push(s));
    assert(now.drop_last() =~= by_time(snaps));
    lemma_listed_is_latest(after, snaps.push(s), s.account_id);
    if id != s.account_id {
        lemma_listed_is_latest(after, snaps.push(s), id);
        lemma_listed_is_latest(before, snaps, id);
    }
}

proof fn lemma_listed_is_latest(
    out: Seq<(AccountId, Cents)>,
    snaps: Seq<BalanceSnapshot>,
    id: AccountId,
)
    requires
        are_latest(out, snaps),
    ensures
        listed_balance(out, id) == match balance_in(by_time(snaps), id) {
            Some(c) => c,
            None => Cents(0),
        },
{
    let p = |b: (AccountId, Cents)| is_balance_of(b, id);
    let k = first_index(out, p);
    lemma_first_index_is_first(out, p);
    if k < out.len() {
        assert(p(out[k]));
        assert(out[k].0 == id);
    } else if balance_in(by_time(snaps), id) is Some {
        let i = choose|i: int| 0 <= i < out.len() && (#[trigger] out[i]).0 == id;
        assert(!p(out[i]));
    }
}

/// Net worth over the accounts, added up in their order without leaving 64 bits.
pub open spec fn net_worth(accounts: Seq<Account>, balances: Seq<(AccountId, Cents)>) -> Cents
    decreases accounts.len(),
{
    if accounts.len() == 0 {
        Cents(0)
    } else {
        let a = accounts.last();
        let rest = net_worth(accounts.drop_last(), balances);
        match a.id {
            Some(id) => Cents(
                clamp(rest.0 + worth(a, listed_balance(balances, id).0 as int)),
            ),
            None => rest,
        }
    }
}

/// How an account counts: 0 not at all, -1 as a debt, 1 as an asset.
fn weight(a: &Account) -> (r: i8)
    ensures
        r == if !counts(*a) {
            0int
        } else if a.kind@ == "debt"@ {
            -1
        } else {
            1
        },
{
    if str_eq(a.kind.as_str(), "subscription") || !str_eq(a.currency.as_str(), "USD") {
        0
    } else if str_eq(a.kind.as_str(), "debt") {
        -1
    } else {
        1
    }
}

/// The balance of an account in a list of balances; zero where there is none.
pub fn balance_for(balances: &Vec<(AccountId, Cents)>, id: AccountId) -> (r: Cents)
    ensures
        r == listed_balance(balances@, id),
{
    let ghost p = |b: (AccountId, Cents)| is_balance_of(b, id);
    let mut i: usize = 0;
    while i < balances.len()
        invariant
            i <= balances.len(),
            p == (|b: (AccountId, Cents)| is_balance_of(b, id)),
            forall|j: int| 0 <= j < i ==> !p(#[trigger] balances@[j]),
        decreases balances.len() - i,
    {
        if balances[i].0.0 == id.0 {
            proof {
                lemma_first_index(balances@, p, i as int);
            }
            return balances[i].1;
        }
        i = i + 1;
    }
    proof {
        lemma_first_index(balances@, p, i as int);
    }
    Cents(0)
}

/// Net worth now: the latest balances of the active accounts. Debts subtract;
/// subscriptions and accounts in another currency are left out.
pub fn current_net_worth(accounts: &Vec<Account>, balances: &Vec<(AccountId, Cents)>) -> (r: Cents)
    ensures
        r == net_worth(accounts@, balances@),
{
    let mut net: Cents = Cents(0);
    let mut i: usize = 0;
    while i < accounts.len()
        invariant
            i <= accounts.len(),
            net == net_worth(accounts@.take(i as int), balances@),
        decreases accounts.len() - i,
    {
        assert(accounts@.take(i + 1).drop_last() == accounts@.take(i as int));
        let a: &Account = &accounts[i];
        match a.id {
            Some(id) => {
                let bal: Cents = balance_for(balances, id);
                let w: i8 = weight(a);
                if w > 0 {
                    net = net + bal;
                } else if w < 0 {
                    net = net - bal;
                }
            },
            None => {},
        }
        i = i + 1;
    }
    assert(accounts@.take(accounts@.len() as int) == accounts@);
    net
}

/// The readings taken up to an instant, in order.
pub open spec fn taken_by(snaps: Seq<BalanceSnapshot>, before: i64) -> Seq<BalanceSnapshot> {
    by_time(kept(snaps, |s: BalanceSnapshot| s.taken_at <= before))
}

/// Whether an account has a reading that counted at a past instant.
pub open spec fn counted_then(a: Account, ordered: Seq<BalanceSnapshot>) -> bool {
    a.active && counts(a) && a.id is Some && balance_in(ordered, a.id->0) is Some
}

/// Net worth at a past instant; nothing where no account had a reading by then.
pub open spec fn past_net_worth(accounts: Seq<Account>, ordered: Seq<BalanceSnapshot>) -> Option<
    Cents,
>
    decreases accounts.len(),
{
    if accounts.len() == 0 {
        None
    } else {
        let a = accounts.last();
        let rest = past_net_worth(accounts.drop_last(), ordered);
        if counted_then(a, ordered) {
            let so_far: int = match rest {
                Some(c) => c.0 as int,
                None => 0,
            };
            let balance = balance_in(ordered, a.id->0)->0;
            Some(Cents(clamp(so_far + worth(a, balance.0 as int))))
        } else {
            rest
        }
    }
}

fn keep_taken_by(snaps: &Vec<BalanceSnapshot>, before: i64) -> (r: Vec<BalanceSnapshot>)
    ensures
        r@ == kept(snaps@, |s: BalanceSnapshot| s.taken_at <= before),
{
    let ghost p = |s: BalanceSnapshot| s.taken_at <= before;
    let mut out: Vec<BalanceSnapshot> = Vec::new();
    let mut i: usize = 0;
    while i < snaps.len()
        invariant
            i <= snaps.len(),
            p == (|s: BalanceSnapshot| s.taken_at <= before),
            out@ == kept(snaps@.take(i as int), p),
        decreases snaps.len() - i,
    {
        assert(snaps@.take(i + 1).drop_last() == snaps@.take(i as int));
        if snaps[i].taken_at <= before {
            out.push(snaps[i]);
        }
        i = i + 1;
    }
    assert(snaps@.take(snaps@.len() as int) == snaps@);
    out
}

/// Net worth at the start of a window, from the latest reading of each account up to then.
/// Where no account has one there is no answer, rather than one from the wrong side.
pub fn prior_net_worth(accounts: &Vec<Account>, snaps: &Vec<BalanceSnapshot>, before: i64) -> (r:
    Option<Cents>)
    ensures
        r == past_net_worth(accounts@, taken_by(snaps@, before)),
{
    let ordered: Vec<BalanceSnapshot> = sort_by_time(&keep_taken_by(snaps, before));
    let n: usize = ordered.len();
    assert(ordered@.take(n as int) == ordered@);
    let mut net: Option<Cents> = None;
    let mut i: usize = 0;
    while i < accounts.len()
        invariant
            i <= accounts.len(),
            n == ordered@.len(),
            ordered@.take(n as int) == ordered@,
            net == past_net_worth(accounts@.take(i as int), ordered@),
        decreases accounts.len() - i,
    {
        assert(accounts@.take(i + 1).drop_last() == accounts@.take(i as int));
        let a: &Account = &accounts[i];
        let w: i8 = weight(a);
        match a.id {
            Some(id) => match last_balance(&ordered, n, id) {
                Some(bal) => {
                    if a.active && w != 0 {
                        let so_far: Cents = match net {
                            Some(c) => c,
                            None => Cents(0),
                        };
                        net = Some(
                            if w > 0 {
                                so_far + bal
                            } else {
                                so_far - bal
                            },
                        );
                    }
                },
                None => {},
            },
            None => {},
        }
        i = i + 1;
    }
    assert(accounts@.take(accounts@.len() as int) == accounts@);
    net
}

/// Net worth over the active accounts, given the readings up to an instant.
pub open spec fn net_at(accounts: Seq<Account>, ordered: Seq<BalanceSnapshot>) -> int
    decreases accounts.len(),
{
    if accounts.len() == 0 {
        0
    } else {
        let a = accounts.last();
        net_at(accounts.drop_last(), ordered) + if a.active && a.id is Some {
            match balance_in(ordered, a.id->0) {
                Some(c) => worth(a, c.0 as int),
                None => 0,
            }
        } else {
            0
        }
    }
}

/// Whether a reading is the last one of its instant.
pub open spec fn ends_instant(ordered: Seq<BalanceSnapshot>, i: int) -> bool {
    i + 1 == ordered.len() || ordered[i + 1].taken_at != ordered[i].taken_at
}

/// Net worth at each distinct instant among the first `n` readings.
pub open spec fn points(accounts: Seq<Account>, ordered: Seq<BalanceSnapshot>, n: nat) -> Seq<
    (i64, int),
>
    decreases n,
{
    if n == 0 {
        Seq::empty()
    } else {
        let rest = points(accounts, ordered, (n - 1) as nat);
        if ends_instant(ordered, n - 1) {
            rest.push((ordered[n - 1].taken_at, net_at(accounts, ordered.take(n as int))))
        } else {
            rest
        }
    }
}

/// The points from an instant on.
pub open spec fn from_instant(ps: Seq<(i64, int)>, since: Option<i64>) -> Seq<(i64, int)> {
    kept(ps, |p: (i64, int)| since is Some ==> p.0 >= since->0)
}

/// The net-worth series: one point for each distinct instant of a reading, the oldest
/// first. The start of the series only trims what comes out.
pub open spec fn series(
    accounts: Seq<Account>,
    snaps: Seq<BalanceSnapshot>,
    since: Option<i64>,
) -> Seq<(i64, int)> {
    from_instant(points(accounts, by_time(snaps), snaps.len()), since)
}

/// Every point of the series fits in 64 bits.
pub open spec fn series_fits(accounts: Seq<Account>, snaps: Seq<BalanceSnapshot>) -> bool {
    forall|n: int|
        0 <= n <= snaps.len() ==> i64::MIN <= #[trigger] net_at(accounts, by_time(snaps).take(n))
            <= i64::MAX
}

fn net_as_of(accounts: &Vec<Account>, ordered: &Vec<BalanceSnapshot>, n: usize) -> (r: i128)
    requires
        n <= ordered@.len(),
        accounts@.len() <= i64::MAX,
    ensures
        r == net_at(accounts@, ordered@.take(n as int)),
{
    let mut net: i128 = 0;
    let mut i: usize = 0;
    while i < accounts.len()
        invariant
            i <= accounts.len() <= i64::MAX,
            n <= ordered@.len(),
            net == net_at(accounts@.take(i as int), ordered@.take(n as int)),
            -(i as int) * 0x8000_0000_0000_0000 <= net <= i * 0x8000_0000_0000_0000,
        decreases accounts.len() - i,
    {
        assert(accounts@.take(i + 1).drop_last() == accounts@.take(i as int));
        let a: &Account = &accounts[i];
        let w: i8 = weight(a);
        match a.id {
            Some(id) => match last_balance(ordered, n, id) {
                Some(bal) => {
                    if a.active && w > 0 {
                        net = net + bal.0 as i128;
                    } else if a.active && w < 0 {
                        net = net - bal.0 as i128;
                    }
                },
                None => {},
            },
            None => {},
        }
        i = i + 1;
    }
    assert(accounts@.take(accounts@.len() as int) == accounts@);
    net
}

/// Whether every point of the series fits in 64 bits.
pub fn can_chart(accounts: &Vec<Account>, snaps: &Vec<BalanceSnapshot>) -> (r: bool)
    requires
        accounts@.len() <= i64::MAX,
    ensures
        r == series_fits(accounts@, snaps@),
{
    let ordered: Vec<BalanceSnapshot> = sort_by_time(snaps);
    let n: usize = ordered.len();
    let mut i: usize = 0;
    loop
        invariant
            i <= n == ordered@.len(),
            ordered@ == by_time(snaps@),
            snaps@.len() == n,
            accounts@.len() <= i64::MAX,
            forall|k: int|
                0 <= k < i ==> i64::MIN <= #[trigger] net_at(accounts@, by_time(snaps@).take(k))
                    <= i64::MAX,
        decreases n - i,
    {
        let net: i128 = net_as_of(accounts, &ordered, i);
        if net < i64::MIN as i128 || net > i64::MAX as i128 {
            assert(!(i64::MIN <= net_at(accounts@, by_time(snaps@).take(i as int)) <= i64::MAX));
            return false;
        }
        if i == n {
            return true;
        }
        i = i + 1;
    }
}

/// The net-worth series from an instant on. Earlier readings still count toward the
/// balances of each point.
pub fn networth_series(
    accounts: &Vec<Account>,
    snaps: &Vec<BalanceSnapshot>,
    since: Option<i64>,
) -> (r: Vec<(i64, Cents)>)
    requires
        series_fits(accounts@, snaps@),
        accounts@.len() <= i64::MAX,
    ensures
        r@.map_values(|p: (i64, Cents)| (p.0, p.1.0 as int)) == series(accounts@, snaps@, since),
{
    let ordered: Vec<BalanceSnapshot> = sort_by_time(snaps);
    let n: usize = ordered.len();
    let ghost keep = |p: (i64, int)| since is Some ==> p.0 >= since->0;
    let mut out: Vec<(i64, Cents)> = Vec::new();
    let mut i: usize = 0;
    assert(out@.map_values(|p: (i64, Cents)| (p.0, p.1.0 as int)) =~= from_instant(
        points(accounts@, ordered@, 0),
        since,
    ));
    while i < n
        invariant
            i <= n == ordered@.len(),
            ordered@ == by_time(snaps@),
            snaps@.len() == n,
            series_fits(accounts@, snaps@),
            accounts@.len() <= i64::MAX,
            out@.map_values(|p: (i64, Cents)| (p.0, p.1.0 as int)) == from_instant(
                points(accounts@, ordered@, i as nat),
                since,
            ),
        decreases n - i,
    {
        let at: i64 = ordered[i].taken_at;
        let last: bool = i + 1 == n || ordered[i + 1].taken_at != at;
        if last {
            assert(i64::MIN <= net_at(accounts@, by_time(snaps@).take(i + 1)) <= i64::MAX);
            let net: i64 = net_as_of(accounts, &ordered, i + 1) as i64;
            let wanted: bool = match since {
                Some(s) => at >= s,
                None => true,
            };
            let ghost before = points(accounts@, ordered@, i as nat);
            assert(points(accounts@, ordered@, (i + 1) as nat) == before.push((at, net as int)));
            assert(before.push((at, net as int)).drop_last() == before);
            if wanted {
                out.push((at, Cents(net)));
            }
        }
        i = i + 1;
        assert(out@.map_values(|p: (i64, Cents)| (p.0, p.1.0 as int)) =~= from_instant(
            points(accounts@, ordered@, i as nat),
            since,
        ));
    }
    out
}

/// The start of the series only trims what comes out: each point that is kept is a point of
/// the whole series.
pub proof fn law_since_only_trims(
    accounts: Seq<Account>,
    snaps: Seq<BalanceSnapshot>,
    since: i64,
    i: int,
)
    requires
        0 <= i < series(accounts, snaps, None).len(),
    ensures
        series(accounts, snaps, None)[i].0 >= since ==> series(accounts, snaps, Some(since)).contains(
            series(accounts, snaps, None)[i],
        ),
        forall|j: int|
            0 <= j < series(accounts, snaps, Some(since)).len() ==> (#[trigger] series(
                accounts,
                snaps,
                Some(since),
            )[j]).0 >= since,
{
    let all = points(accounts, by_time(snaps), snaps.len());
    let none: Option<i64> = None;
    let p = |p: (i64, int)| none is Some ==> p.0 >= none->0;
    let some: Option<i64> = Some(since);
    let q = |p: (i64, int)| some is Some ==> p.0 >= some->0;
    lemma_kept(all, q);
    lemma_kept_everything(all, p);
    assert(series(accounts, snaps, None) == all);
    assert(q(all[i]) ==> kept(all, q).contains(all[i]));
}

proof fn lemma_kept_everything<T>(s: Seq<T>, p: spec_fn(T) -> bool)
    requires
        forall|x: T| #[trigger] p(x),
    ensures
        kept(s, p) == s,
    decreases s.len(),
{
    if s.len() > 0 {
        assert(p(s.last()));
        lemma_kept_everything(s.drop_last(), p);
        assert(s.drop_last().push(s.last()) =~= s);
    }
}

/// Subscriptions and accounts in another currency never move net worth; a debt moves it by
/// its negated balance, any other account by its balance.
pub proof fn law_what_counts(a: Account, balance: int)
    ensures
        a.kind@ == "subscription"@ || a.currency@ != "USD"@ ==> worth(a, balance) == 0,
        a.kind@ == "debt"@ && a.currency@ == "USD"@ ==> worth(a, balance) == -balance,
        a.kind@ != "debt"@ && a.kind@ != "subscription"@ && a.currency@ == "USD"@ ==> worth(
            a,
            balance,
        ) == balance,
{
    reveal_strlit("debt");
    reveal_strlit("subscription");
    assert("debt"@.len() != "subscription"@.len());
}

// ---------------------------------------------------------------------------
// Lists
// ---------------------------------------------------------------------------

/// Whether a planned expense is still open and due in a window.
pub open spec fn is_due_in(p: PlannedExpense, since: i64, until: i64) -> bool {
    p.status@ == "planned"@ && within(p.due_at, since, until)
}

pub open spec fn due_keys(rows: Seq<PlannedExpense>) -> Seq<i64> {
    rows.map_values(|p: PlannedExpense| p.due_at)
}

/// The planned expenses due in a window, the soonest first.
pub open spec fn due_expenses(rows: Seq<PlannedExpense>, since: i64, until: i64) -> Seq<
    PlannedExpense,
> {
    let found = kept(rows, |p: PlannedExpense| is_due_in(p, since, until));
    sorted_by_keys(found, due_keys(found))
}

/// The planned expenses that are still open and due in a window, the soonest first.
pub fn list_planned_expenses_due(rows: &Vec<PlannedExpense>, since: i64, until: i64) -> (r: Vec<
    PlannedExpense,
>)
    ensures
        r@ == due_expenses(rows@, since, until),
{
    let ghost p = |x: PlannedExpense| is_due_in(x, since, until);
    let mut found: Vec<PlannedExpense> = Vec::new();
    let mut keys: Vec<i64> = Vec::new();
    let mut i: usize = 0;
    while i < rows.len()
        invariant
            i <= rows.len(),
            p == (|x: PlannedExpense| is_due_in(x, since, until)),
            found@ == kept(rows@.take(i as int), p),
            keys@.len() == found@.len(),
            forall|k: int| 0 <= k < keys@.len() ==> #[trigger] keys@[k] == found@[k].due_at,
        decreases rows.len() - i,
    {
        assert(rows@.take(i + 1).drop_last() == rows@.take(i as int));
        let x: &PlannedExpense = &rows[i];
        if str_eq(x.status.as_str(), "planned") && since <= x.due_at && x.due_at < until {
            keys.push(x.due_at);
            found.push(x.clone());
        }
        i = i + 1;
    }
    assert(rows@.take(rows@.len() as int) == rows@);
    assert(keys@ =~= due_keys(found@));
    let order: Vec<usize> = stable_indices(&keys);
    let ghost q = stable_order(keys@, keys@.len());
    let mut out: Vec<PlannedExpense> = Vec::new();
    let mut k: usize = 0;
    while k < order.len()
        invariant
            k <= order.len(),
            order@.len() == found@.len(),
            order@.map_values(|x: usize| x as int) == q,
            forall|j: int| 0 <= j < order@.len() ==> 0 <= (#[trigger] order@[j]) < found@.len(),
            out@.len() == k,
            forall|j: int| 0 <= j < k ==> #[trigger] out@[j] == found@[q[j]],
        decreases order.len() - k,
    {
        assert(order@.map_values(|x: usize| x as int)[k as int] == order@[k as int]);
        out.push(found[order[k]].clone());
        k = k + 1;
    }
    assert(out@ =~= due_expenses(rows@, since, until));
    out
}

pub open spec fn record_names(rows: Seq<SubscriptionRecord>) -> Seq<Seq<char>> {
    rows.map_values(|s: SubscriptionRecord| s.name@)
}

/// The records by name.
pub open spec fn records_by_name(rows: Seq<SubscriptionRecord>) -> Seq<SubscriptionRecord> {
    sorted_by_keys(rows, ranks(record_names(rows)))
}

/// The active subscriptions by name.
pub open spec fn active_subscriptions(rows: Seq<SubscriptionRecord>) -> Seq<SubscriptionRecord> {
    records_by_name(kept(rows, |s: SubscriptionRecord| s.active))
}

fn sort_records_by_name(rows: &Vec<SubscriptionRecord>) -> (r: Vec<SubscriptionRecord>)
    requires
        rows@.len() <= i64::MAX,
    ensures
        r@ == records_by_name(rows@),
{
    let mut names: Vec<String> = Vec::new();
    let mut i: usize = 0;
    while i < rows.len()
        invariant
            i <= rows.len(),
            names@.len() == i,
            forall|k: int| 0 <= k < i ==> (#[trigger] names@[k])@ == rows@[k].name@,
        decreases rows.len() - i,
    {
        names.push(rows[i].name.clone());
        i = i + 1;
    }
    assert(names@.map_values(|s: String| s@) =~= record_names(rows@));
    let keys: Vec<i64> = rank_strings(&names);
    let order: Vec<usize> = stable_indices(&keys);
    let ghost q = stable_order(keys@, keys@.len());
    let mut out: Vec<SubscriptionRecord> = Vec::new();
    let mut k: usize = 0;
    while k < order.len()
        invariant
            k <= order.len(),
            order@.len() == rows@.len(),
            order@.map_values(|x: usize| x as int) == q,
            forall|j: int| 0 <= j < order@.len() ==> 0 <= (#[trigger] order@[j]) < rows@.len(),
            out@.len() == k,
            forall|j: int| 0 <= j < k ==> #[trigger] out@[j] == rows@[q[j]],
        decreases order.len() - k,
    {
        assert(order@.map_values(|x: usize| x as int)[k as int] == order@[k as int]);
        out.push(rows[order[k]].clone());
        k = k + 1;
    }
    assert(out@ =~= records_by_name(rows@));
    out
}

/// The active subscriptions by name.
pub fn list_active_subscriptions(rows: &Vec<SubscriptionRecord>) -> (r: Vec<SubscriptionRecord>)
    requires
        rows@.len() <= i64::MAX,
    ensures
        r@ == active_subscriptions(rows@),
{
    let ghost p = |s: SubscriptionRecord| s.active;
    let mut on: Vec<SubscriptionRecord> = Vec::new();
    let mut i: usize = 0;
    while i < rows.len()
        invariant
            i <= rows.len(),
            p == (|s: SubscriptionRecord| s.active),
            on@ == kept(rows@.take(i as int), p),
            on@.len() <= i,
        decreases rows.len() - i,
    {
        assert(rows@.take(i + 1).drop_last() == rows@.take(i as int));
        if rows[i].active {
            on.push(rows[i].clone());
        }
        i = i + 1;
    }
    assert(rows@.take(rows@.len() as int) == rows@);
    sort_records_by_name(&on)
}

/// The active rules, in the order of the rows.
pub fn list_active_alert_rules(rows: &Vec<AlertRule>) -> (r: Vec<AlertRule>)
    ensures
        r@ == kept(rows@, |x: AlertRule| x.active),
{
    let ghost p = |x: AlertRule| x.active;
    let mut out: Vec<AlertRule> = Vec::new();
    let mut i: usize = 0;
    while i < rows.len()
        invariant
            i <= rows.len(),
            p == (|x: AlertRule| x.active),
            out@ == kept(rows@.take(i as int), p),
        decreases rows.len() - i,
    {
        assert(rows@.take(i + 1).drop_last() == rows@.take(i as int));
        if rows[i].active {
            out.push(rows[i].clone());
        }
        i = i + 1;
    }
    assert(rows@.take(rows@.len() as int) == rows@);
    out
}

/// Keys by which the newest firing comes first, and of one instant the later row.
pub open spec fn fired_keys(rows: Seq<AlertHistoryRow>) -> Seq<i64> {
    rows.map_values(|h: AlertHistoryRow| (-1 - h.fired_at) as i64)
}

/// The firings to show, the latest row first.
pub open spec fn shown_firings(rows: Seq<AlertHistoryRow>, include_delivered: bool) -> Seq<
    AlertHistoryRow,
> {
    kept(rows, |h: AlertHistoryRow| include_delivered || !h.delivered).reverse()
}

/// The recent firings: the newest first, only those not yet delivered unless asked for.
pub open spec fn recent_firings(
    rows: Seq<AlertHistoryRow>,
    limit: i64,
    include_delivered: bool,
) -> Seq<AlertHistoryRow> {
    let found = shown_firings(rows, include_delivered);
    limited(sorted_by_keys(found, fired_keys(found)), limit)
}

/// The recent firings, the newest first. The rows come in the order of their ids; a
/// negative limit is none.
pub fn list_recent_alerts(rows: &Vec<AlertHistoryRow>, limit: i64, include_delivered: bool) -> (r:
    Vec<AlertHistoryRow>)
    ensures
        r@ == recent_firings(rows@, limit, include_delivered),
{
    let ghost p = |h: AlertHistoryRow| include_delivered || !h.delivered;
    let mut kept_rows: Vec<AlertHistoryRow> = Vec::new();
    let mut i: usize = 0;
    while i < rows.len()
        invariant
            i <= rows.len(),
            p == (|h: AlertHistoryRow| include_delivered || !h.delivered),
            kept_rows@ == kept(rows@.take(i as int), p),
        decreases rows.len() - i,
    {
        assert(rows@.take(i + 1).drop_last() == rows@.take(i as int));
        if include_delivered || !rows[i].delivered {
            kept_rows.push(rows[i].clone());
        }
        i = i + 1;
    }
    assert(rows@.take(rows@.len() as int) == rows@);
    let ghost all = kept_rows@;
    let mut found: Vec<AlertHistoryRow> = Vec::new();
    let mut keys: Vec<i64> = Vec::new();
    let mut j: usize = kept_rows.len();
    while j > 0
        invariant
            kept_rows@ == all,
            j <= all.len(),
            found@.len() == all.len() - j,
            keys@.len() == found@.len(),
            forall|k: int| 0 <= k < found@.len() ==> #[trigger] found@[k] == all[all.len() - 1 - k],
            forall|k: int| 0 <= k < keys@.len() ==> #[trigger] keys@[k] == -1 - found@[k].fired_at,
        decreases j,
    {
        j = j - 1;
        keys.push(-1 - kept_rows[j].fired_at);
        found.push(kept_rows[j].clone());
    }
    assert(found@ =~= shown_firings(rows@, include_delivered));
    assert(keys@ =~= fired_keys(found@));
    let order: Vec<usize> = stable_indices(&keys);
    let ghost q = stable_order(keys@, keys@.len());
    let n: usize = if limit < 0 || limit as u64 >= order.len() as u64 {
        order.len()
    } else {
        limit as usize
    };
    let mut out: Vec<AlertHistoryRow> = Vec::new();
    let mut k: usize = 0;
    while k < n
        invariant
            k <= n <= order.len(),
            order@.len() == found@.len(),
            order@.map_values(|x: usize| x as int) == q,
            forall|m: int| 0 <= m < order@.len() ==> 0 <= (#[trigger] order@[m]) < found@.len(),
            out@.len() == k,
            forall|m: int| 0 <= m < k ==> #[trigger] out@[m] == found@[q[m]],
        decreases n - k,
    {
        assert(order@.map_values(|x: usize| x as int)[k as int] == order@[k as int]);
        out.push(found[order[k]].clone());
        k = k + 1;
    }
    assert(out@ =~= recent_firings(rows@, limit, include_delivered));
    out
}

// ---------------------------------------------------------------------------
// Debts
// ---------------------------------------------------------------------------

pub open spec fn has_id(a: Account, id: AccountId) -> bool {
    a.id == Some(id)
}

/// Whether an account id is that of a debt.
pub open spec fn is_debt(accounts: Seq<Account>, id: AccountId) -> bool {
    let k = first_index(accounts, |a: Account| has_id(a, id));
    k < accounts.len() && accounts[k].kind@ == "debt"@
}

fn on_debt(accounts: &Vec<Account>, id: AccountId) -> (r: bool)
    ensures
        r == is_debt(accounts@, id),
{
    let ghost p = |a: Account| has_id(a, id);
    let mut i: usize = 0;
    while i < accounts.len()
        invariant
            i <= accounts.len(),
            p == (|a: Account| has_id(a, id)),
            forall|j: int| 0 <= j < i ==> !p(#[trigger] accounts@[j]),
        decreases accounts.len() - i,
    {
        let same: bool = match accounts[i].id {
            Some(x) => x.0 == id.0,
            None => false,
        };
        if same {
            proof {
                lemma_first_index(accounts@, p, i as int);
            }
            return str_eq(accounts[i].kind.as_str(), "debt");
        }
        i = i + 1;
    }
    proof {
        lemma_first_index(accounts@, p, i as int);
    }
    false
}

/// What the debt transactions of a window pay down, one by one: a payment is negative on
/// the account and positive here, a new draw the other way round. Nothing where an amount
/// cannot be negated.
pub open spec fn paydowns(
    accounts: Seq<Account>,
    rows: Seq<Transaction>,
    since: i64,
    until: i64,
) -> Option<Seq<i64>>
    decreases rows.len(),
{
    if rows.len() == 0 {
        Some(Seq::empty())
    } else {
        let rest = paydowns(accounts, rows.drop_last(), since, until);
        let t = rows.last();
        if rest is Some && within(t.posted_at, since, until) && is_debt(accounts, t.account_id) {
            if t.amount_cents.0 == i64::MIN {
                None
            } else {
                Some(rest->0.push((-(t.amount_cents.0 as int)) as i64))
            }
        } else {
            rest
        }
    }
}

proof fn lemma_paydowns_none(accounts: Seq<Account>, rows: Seq<Transaction>, since: i64, until: i64, k: int)
    requires
        0 <= k <= rows.len(),
        paydowns(accounts, rows.take(k), since, until) is None,
    ensures
        paydowns(accounts, rows, since, until) is None,
    decreases rows.len() - k,
{
    if k == rows.len() {
        assert(rows.take(k) == rows);
    } else {
        assert(rows.take(k + 1).drop_last() == rows.take(k));
        lemma_paydowns_none(accounts, rows, since, until, k + 1);
    }
}

/// By how much the debts were paid down in a window; new draws count against it.
pub fn debt_paydown(accounts: &Vec<Account>, rows: &Vec<Transaction>, since: i64, until: i64) -> (r:
    Result<Cents>)
    ensures
        match paydowns(accounts@, rows@, since, until) {
            Some(v) => is_total(r, v),
            None => r is Err && r->Err_0 is Sql && r->Err_0->Sql_0@ == "integer overflow"@,
        },
{
    let mut v: Vec<i64> = Vec::new();
    let mut i: usize = 0;
    while i < rows.len()
        invariant
            i <= rows.len(),
            paydowns(accounts@, rows@.take(i as int), since, until) == Some(v@),
        decreases rows.len() - i,
    {
        assert(rows@.take(i + 1).drop_last() == rows@.take(i as int));
        let t: &Transaction = &rows[i];
        if since <= t.posted_at && t.posted_at < until && on_debt(accounts, t.account_id) {
            if t.amount_cents.0 == i64::MIN {
                proof {
                    lemma_paydowns_none(accounts@, rows@, since, until, i + 1);
                }
                return Err(CoreError::Sql("integer overflow".to_owned()));
            }
            v.push(-t.amount_cents.0);
        }
        i = i + 1;
    }
    assert(rows@.take(rows@.len() as int) == rows@);
    sum_amounts(&v)
}

/// The balances of the debt accounts, in the order of the accounts.
pub open spec fn are_open_debts(
    out: Seq<DebtBalance>,
    accounts: Seq<Account>,
    balances: Seq<(AccountId, Cents)>,
) -> bool {
    let debts = kept(accounts, |a: Account| is_open_debt(a));
    &&& out.len() == debts.len()
    &&& forall|i: int| 0 <= i < out.len() ==> is_balance_row(#[trigger] out[i], debts[i], balances)
}

pub open spec fn is_open_debt(a: Account) -> bool {
    a.kind@ == "debt"@ && a.active
}

pub open spec fn is_balance_row(
    d: DebtBalance,
    a: Account,
    balances: Seq<(AccountId, Cents)>,
) -> bool {
    &&& d.account_name == a.name
    &&& d.balance == match a.id {
        Some(id) => listed_balance(balances, id),
        None => Cents(0),
    }
}

/// The balances of the active debt accounts; zero where there is no reading yet.
pub fn open_debts(accounts: &Vec<Account>, balances: &Vec<(AccountId, Cents)>) -> (r: Vec<
    DebtBalance,
>)
    ensures
        are_open_debts(r@, accounts@, balances@),
{
    let mut out: Vec<DebtBalance> = Vec::new();
    let mut i: usize = 0;
    while i < accounts.len()
        invariant
            i <= accounts.len(),
            are_open_debts(out@, accounts@.take(i as int), balances@),
        decreases accounts.len() - i,
    {
        assert(accounts@.take(i + 1).drop_last() == accounts@.take(i as int));
        let a: &Account = &accounts[i];
        if a.active && str_eq(a.kind.as_str(), "debt") {
            let balance: Cents = match a.id {
                Some(id) => balance_for(balances, id),
                None => Cents(0),
            };
            out.push(DebtBalance { account_name: a.name.clone(), balance });
            assert(is_balance_row(out@.last(), accounts@[i as int], balances@));
        }
        i = i + 1;
        assert(are_open_debts(out@, accounts@.take(i as int), balances@));
    }
    assert(accounts@.take(accounts@.len() as int) == accounts@);
    out
}

/// The payments on debt accounts among the planned expenses, in their order.
pub open spec fn debt_payments(accounts: Seq<Account>, due: Seq<PlannedExpense>) -> Seq<DebtScheduled>
    decreases due.len(),
{
    if due.len() == 0 {
        Seq::empty()
    } else {
        let p = due.last();
        let rest = debt_payments(accounts, due.drop_last());
        if p.account_id is Some && is_debt(accounts, p.account_id->0) {
            rest.push(
                DebtScheduled { due_at: p.due_at, amount: p.amount_cents, description: p.description },
            )
        } else {
            rest
        }
    }
}

/// The payments on debt accounts that are due in a window, the soonest first.
pub fn scheduled_payments(
    accounts: &Vec<Account>,
    planned: &Vec<PlannedExpense>,
    since: i64,
    until: i64,
) -> (r: Vec<DebtScheduled>)
    ensures
        r@ == debt_payments(accounts@, due_expenses(planned@, since, until)),
{
    let due: Vec<PlannedExpense> = list_planned_expenses_due(planned, since, until);
    let mut out: Vec<DebtScheduled> = Vec::new();
    let mut i: usize = 0;
    while i < due.len()
        invariant
            i <= due.len(),
            out@ == debt_payments(accounts@, due@.take(i as int)),
        decreases due.len() - i,
    {
        assert(due@.take(i + 1).drop_last() == due@.take(i as int));
        let p: &PlannedExpense = &due[i];
        match p.account_id {
            Some(id) => {
                if on_debt(accounts, id) {
                    out.push(
                        DebtScheduled {
                            due_at: p.due_at,
                            amount: p.amount_cents,
                            description: p.description.clone(),
                        },
                    );
                }
            },
            None => {},
        }
        i = i + 1;
    }
    assert(due@.take(due@.len() as int) == due@);
    out
}

} // verus!
