//! Laws of listing and adding up transactions.

use vstd::prelude::*;

verus! {

use crate::db::Transaction;
use crate::error::Result;
use crate::ids::BusinessId;
use crate::ledger::{
    amounts, flows_in, is_total, limited, listed, newest_first, of_business, passes, tagged_in,
    total,
};
use crate::money::Cents;
use crate::order::{
    kept, law_sorting_keeps_items, lemma_kept_is_filter, lemma_kept_same, lemma_same_items,
    lemma_sum_bounded, lemma_sum_same, size_of, sorted_by_keys, sum_over,
};

/// What a listing is asked for: from an instant on, and with a tag.
pub open spec fn asked_for(t: Transaction, since: Option<i64>, tag: Option<Seq<char>>) -> bool {
    &&& since is Some ==> since->0 <= t.posted_at
    &&& tag is Some ==> t.tag is Some && t.tag->0@ == tag->0
}

/// A listing holds transactions of the table that are from `since` on and carry exactly the
/// tag, the newest first, and no more than the limit. Without a limit, or where the limit is
/// not reached, it holds all of them, each as often as it is stored. Where the limit cuts the
/// list, what is left out is not newer than what is listed.
pub proof fn law_listing(
    out: Seq<Transaction>,
    rows: Seq<Transaction>,
    since: Option<i64>,
    tag: Option<Seq<char>>,
    limit: i64,
)
    requires
        out == listed(rows, since, tag, limit),
    ensures
        forall|i: int|
            0 <= i < out.len() ==> rows.contains(#[trigger] out[i]) && asked_for(out[i], since, tag),
        forall|i: int, j: int|
            0 <= i < j < out.len() ==> (#[trigger] out[i]).posted_at >= (
            #[trigger] out[j]).posted_at,
        limit >= 0 ==> out.len() <= limit,
        limit < 0 || out.len() < limit ==> out.to_multiset() == rows.filter(
            |t: Transaction| asked_for(t, since, tag),
        ).to_multiset(),
        limit < 0 || out.len() < limit ==> forall|i: int|
            0 <= i < rows.len() && asked_for(#[trigger] rows[i], since, tag) ==> out.contains(
                rows[i],
            ),
        forall|i: int, j: int|
            0 <= i < rows.len() && 0 <= j < out.len() && asked_for(#[trigger] rows[i], since, tag)
                && !out.contains(rows[i]) ==> rows[i].posted_at <= (#[trigger] out[j]).posted_at,
{
    let p = |t: Transaction| passes(t, since, tag);
    let q = |t: Transaction| asked_for(t, since, tag);
    assert forall|t: Transaction| p(t) == #[trigger] q(t) by {}
    lemma_kept_same(rows, p, q);
    lemma_kept_is_filter(rows, q);
    let found = kept(rows, p);
    assert(found == rows.filter(q));
    let key = |t: Transaction| (-1 - t.posted_at) as i64;
    assert(newest_first(found) =~= found.map_values(key));
    law_sorting_keeps_items(found, key);
    let all = sorted_by_keys(found, newest_first(found));
    lemma_same_items(all, found);
    assert(out == limited(all, limit));
    crate::order::lemma_kept(rows, q);
    crate::order::lemma_kept_from(rows, q);
    assert forall|i: int| 0 <= i < out.len() implies rows.contains(#[trigger] out[i]) && asked_for(
        out[i],
        since,
        tag,
    ) by {
        assert(out[i] == all[i]);
        assert(all.contains(all[i]));
        assert(found.contains(all[i]));
        let k = choose|k: int| 0 <= k < found.len() && found[k] == all[i];
        assert(q(kept(rows, q)[k]));
        assert(rows.contains(kept(rows, q)[k]));
    }
    assert forall|i: int, j: int| 0 <= i < j < out.len() implies (#[trigger] out[i]).posted_at >= (
    #[trigger] out[j]).posted_at by {
        assert(key(all[i]) <= key(all[j]));
    }
    assert forall|i: int| 0 <= i < rows.len() && asked_for(#[trigger] rows[i], since, tag) implies
        all.contains(rows[i]) by {
        assert(q(rows[i]));
        assert(kept(rows, q).contains(rows[i]));
        assert(found.contains(rows[i]));
    }
    assert forall|i: int, j: int|
        0 <= i < rows.len() && 0 <= j < out.len() && asked_for(#[trigger] rows[i], since, tag)
            && !out.contains(rows[i]) implies rows[i].posted_at <= (#[trigger] out[j]).posted_at by {
        assert(all.contains(rows[i]));
        let k = choose|k: int| 0 <= k < all.len() && all[k] == rows[i];
        if k < out.len() {
            assert(out[k] == rows[i]);
            assert(out.contains(rows[i]));
        }
        assert(key(all[j]) <= key(all[k]));
    }
}

/// Lists for two tags share nothing, and a longer limit only adds at the end.
pub proof fn law_listings_relate(
    rows: Seq<Transaction>,
    since: Option<i64>,
    a: Seq<char>,
    b: Seq<char>,
    limit: i64,
    more: i64,
)
    requires
        a != b,
        0 <= limit <= more,
    ensures
        forall|t: Transaction|
            listed(rows, since, Some(a), limit).contains(t) ==> !(#[trigger] listed(
                rows,
                since,
                Some(b),
                more,
            ).contains(t)),
        listed(rows, since, Some(a), limit).is_prefix_of(listed(rows, since, Some(a), more)),
{
    let x = listed(rows, since, Some(a), limit);
    let y = listed(rows, since, Some(b), more);
    law_listing(x, rows, since, Some(a), limit);
    law_listing(y, rows, since, Some(b), more);
    assert forall|t: Transaction| x.contains(t) implies !(#[trigger] y.contains(t)) by {
        let i = choose|i: int| 0 <= i < x.len() && x[i] == t;
        assert(asked_for(x[i], since, Some(a)));
        if y.contains(t) {
            let j = choose|j: int| 0 <= j < y.len() && y[j] == t;
            assert(asked_for(y[j], since, Some(b)));
        }
    }
    let z = listed(rows, since, Some(a), more);
    assert(x =~= z.take(x.len() as int));
}

// ---------------------------------------------------------------------------
// Sums
// ---------------------------------------------------------------------------

/// The amount of a transaction.
pub open spec fn amount(t: Transaction) -> int {
    t.amount_cents.0 as int
}

/// A sum that is given is exact, and it is given where the sizes add up to 64 bits.
pub proof fn lemma_total_is_exact(s: Seq<i64>)
    ensures
        total(s) is Some ==> total(s)->0 == sum_over(s, |x: i64| x as int),
        sum_over(s, |x: i64| size_of(x as int)) <= i64::MAX ==> total(s) is Some,
    decreases s.len(),
{
    if s.len() > 0 {
        let d = s.drop_last();
        lemma_total_is_exact(d);
        let f = |x: i64| x as int;
        let g = |x: i64| size_of(x as int);
        lemma_sum_bounded(d, f, g);
    }
}

/// The sum of the amounts that are kept, over all rows.
pub proof fn lemma_sum_of_kept(rows: Seq<Transaction>, p: spec_fn(Transaction) -> bool)
    ensures
        sum_over(amounts(rows, p), |x: i64| x as int) == sum_over(
            rows,
            |t: Transaction|
                if p(t) {
                    amount(t)
                } else {
                    0
                },
        ),
        sum_over(amounts(rows, p), |x: i64| size_of(x as int)) <= sum_over(
            rows,
            |t: Transaction| size_of(amount(t)),
        ),
    decreases rows.len(),
{
    let f = |x: i64| x as int;
    let g = |x: i64| size_of(x as int);
    if rows.len() > 0 {
        let d = rows.drop_last();
        lemma_sum_of_kept(d, p);
        if p(rows.last()) {
            let a = amounts(rows, p);
            assert(a.drop_last() =~= amounts(d, p));
        }
    }
}

/// An outcome is the exact sum of the rows with a property, and it is one where the sizes of
/// all amounts add up to 64 bits.
pub open spec fn adds_up(
    r: Result<Cents>,
    rows: Seq<Transaction>,
    p: spec_fn(Transaction) -> bool,
) -> bool {
    &&& r is Ok ==> r->Ok_0.0 == sum_over(
        rows,
        |t: Transaction|
            if p(t) {
                t.amount_cents.0 as int
            } else {
                0
            },
    )
    &&& sum_over(rows, |t: Transaction| size_of(t.amount_cents.0 as int)) <= i64::MAX ==> r is Ok
}

proof fn lemma_adds_up(
    r: Result<Cents>,
    rows: Seq<Transaction>,
    p: spec_fn(Transaction) -> bool,
    q: spec_fn(Transaction) -> bool,
)
    requires
        is_total(r, amounts(rows, p)),
        forall|t: Transaction| p(t) == #[trigger] q(t),
    ensures
        adds_up(r, rows, q),
{
    lemma_total_is_exact(amounts(rows, p));
    lemma_sum_of_kept(rows, p);
    let f = |t: Transaction|
        if p(t) {
            amount(t)
        } else {
            0
        };
    let g = |t: Transaction|
        if q(t) {
            t.amount_cents.0 as int
        } else {
            0
        };
    assert forall|i: int| 0 <= i < rows.len() implies f(#[trigger] rows[i]) == g(rows[i]) by {
        assert(p(rows[i]) == q(rows[i]));
    }
    lemma_sum_same(rows, f, g);
    lemma_sum_same(
        rows,
        |t: Transaction| size_of(amount(t)),
        |t: Transaction| size_of(t.amount_cents.0 as int),
    );
}

/// The total of a tag is the sum of the amounts of the transactions that carry exactly the tag
/// and are posted from `since` up to and with `until`.
pub proof fn law_total_by_tag(
    r: Result<Cents>,
    rows: Seq<Transaction>,
    tag: Seq<char>,
    since: i64,
    until: i64,
)
    requires
        is_total(r, amounts(rows, |t: Transaction| tagged_in(t, tag, since, until))),
    ensures
        adds_up(
            r,
            rows,
            |t: Transaction|
                t.tag is Some && t.tag->0@ == tag && since <= t.posted_at && t.posted_at <= until,
        ),
{
    let p = |t: Transaction| tagged_in(t, tag, since, until);
    let q = |t: Transaction|
        t.tag is Some && t.tag->0@ == tag && since <= t.posted_at && t.posted_at <= until;
    assert forall|t: Transaction| p(t) == #[trigger] q(t) by {}
    lemma_adds_up(r, rows, p, q);
}

/// The result of a business is the sum of the amounts of its transactions that are posted from
/// `since` up to and with `until`.
pub proof fn law_business_pnl(
    r: Result<Cents>,
    rows: Seq<Transaction>,
    id: BusinessId,
    since: i64,
    until: i64,
)
    requires
        is_total(r, amounts(rows, |t: Transaction| of_business(t, id, since, until))),
    ensures
        adds_up(
            r,
            rows,
            |t: Transaction|
                t.business_id == Some(id) && since <= t.posted_at
                    && t.posted_at <= until,
        ),
{
    let p = |t: Transaction| of_business(t, id, since, until);
    let q = |t: Transaction|
        t.business_id == Some(id) && since <= t.posted_at && t.posted_at
            <= until;
    assert forall|t: Transaction| p(t) == #[trigger] q(t) by {}
    lemma_adds_up(r, rows, p, q);
}

/// Income is the sum of what a business takes in, expenses of what it pays out, in a window
/// without its end; together they are the whole of what moved.
pub proof fn law_income_and_expenses(
    income: Result<Cents>,
    expenses: Result<Cents>,
    rows: Seq<Transaction>,
    id: BusinessId,
    since: i64,
    until: i64,
)
    requires
        is_total(income, amounts(rows, |t: Transaction| flows_in(t, id, since, until, true))),
        is_total(expenses, amounts(rows, |t: Transaction| flows_in(t, id, since, until, false))),
    ensures
        adds_up(
            income,
            rows,
            |t: Transaction|
                t.business_id == Some(id) && since <= t.posted_at < until && t.amount_cents.0 > 0,
        ),
        adds_up(
            expenses,
            rows,
            |t: Transaction|
                t.business_id == Some(id) && since <= t.posted_at < until && t.amount_cents.0 < 0,
        ),
        income is Ok ==> income->Ok_0.0 >= 0,
        expenses is Ok ==> expenses->Ok_0.0 <= 0,
        income is Ok && expenses is Ok ==> income->Ok_0.0 + expenses->Ok_0.0 == sum_over(
            rows,
            |t: Transaction|
                if t.business_id == Some(id) && since <= t.posted_at < until {
                    t.amount_cents.0 as int
                } else {
                    0
                },
        ),
{
    let a = |t: Transaction| flows_in(t, id, since, until, true);
    let b = |t: Transaction| flows_in(t, id, since, until, false);
    let x = |t: Transaction|
        t.business_id == Some(id) && since <= t.posted_at < until && t.amount_cents.0 > 0;
    let y = |t: Transaction|
        t.business_id == Some(id) && since <= t.posted_at < until && t.amount_cents.0 < 0;
    assert forall|t: Transaction| a(t) == #[trigger] x(t) by {}
    assert forall|t: Transaction| b(t) == #[trigger] y(t) by {}
    lemma_adds_up(income, rows, a, x);
    lemma_adds_up(expenses, rows, b, y);
    let f = |t: Transaction|
        if x(t) {
            t.amount_cents.0 as int
        } else {
            0
        };
    let g = |t: Transaction|
        if y(t) {
            t.amount_cents.0 as int
        } else {
            0
        };
    let h = |t: Transaction|
        if t.business_id == Some(id) && since <= t.posted_at < until {
            t.amount_cents.0 as int
        } else {
            0
        };
    crate::order::lemma_sum_adds(rows, f, g, h);
    lemma_sum_signed(rows, f);
    lemma_sum_signed(rows, |t: Transaction| -g(t));
    crate::order::lemma_sum_adds(rows, g, |t: Transaction| -g(t), |t: Transaction| 0int);
    lemma_sum_zero(rows, |t: Transaction| 0int);
}

/// What is never negative adds up to nothing negative.
pub proof fn lemma_sum_signed<T>(s: Seq<T>, f: spec_fn(T) -> int)
    requires
        forall|i: int| 0 <= i < s.len() ==> f(#[trigger] s[i]) >= 0,
    ensures
        sum_over(s, f) >= 0,
    decreases s.len(),
{
    if s.len() > 0 {
        let d = s.drop_last();
        assert forall|i: int| 0 <= i < d.len() implies f(#[trigger] d[i]) >= 0 by {
            assert(d[i] == s[i]);
        }
        assert(f(s[s.len() - 1]) >= 0);
        lemma_sum_signed(d, f);
    }
}

/// Nothing adds up to nothing.
pub proof fn lemma_sum_zero<T>(s: Seq<T>, f: spec_fn(T) -> int)
    requires
        forall|i: int| 0 <= i < s.len() ==> f(#[trigger] s[i]) == 0,
    ensures
        sum_over(s, f) == 0,
    decreases s.len(),
{
    if s.len() > 0 {
        let d = s.drop_last();
        assert forall|i: int| 0 <= i < d.len() implies f(#[trigger] d[i]) == 0 by {
            assert(d[i] == s[i]);
        }
        assert(f(s[s.len() - 1]) == 0);
        lemma_sum_zero(d, f);
    }
}

} // verus!
