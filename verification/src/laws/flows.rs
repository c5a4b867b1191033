//! Laws of spending by category and of cash flow by month.

use vstd::prelude::*;

verus! {

use crate::db::Transaction;
use crate::laws::transactions::lemma_total_is_exact;
use crate::ledger::{
    amounts_under, are_expenses, are_flows, are_totals, category_of, expenses_in, has_key, inflows,
    is_cash_flow, is_expense_in, is_flow_of, is_flow_outcome, is_spend_of, is_spending,
    is_spending_outcome, limited, month_of, outflows, posted_in, sums, total, within,
};
use crate::money::Cents;
use crate::order::{
    kept, law_sorting_keeps_items, lemma_kept, lemma_same_items, sorted_by_keys, sum_over,
};
use crate::recurring::{lemma_counted_twice, lemma_two_places};
use crate::text::{dec2, lemma_lex_irreflexive, lex_lt};
use crate::time::{utc_fields, utc_text};

/// Strict order of texts by the code points at the first place where they differ.
pub proof fn law_text_order(a: Seq<char>, b: Seq<char>)
    ensures
        lex_lt(a, b) <==> exists|k: int| #[trigger] differ_at(a, b, k),
    decreases a.len(),
{
    if b.len() == 0 {
        assert(!exists|k: int| #[trigger] differ_at(a, b, k));
    } else if a.len() == 0 {
        assert(differ_at(a, b, 0));
    } else if a[0] != b[0] {
        if a[0] < b[0] {
            assert(differ_at(a, b, 0));
        }
        assert(forall|k: int| #[trigger] differ_at(a, b, k) ==> k == 0);
    } else {
        let (x, y) = (a.skip(1), b.skip(1));
        law_text_order(x, y);
        if exists|k: int| #[trigger] differ_at(x, y, k) {
            let k = choose|k: int| #[trigger] differ_at(x, y, k);
            assert forall|i: int| 0 <= i < k + 1 implies #[trigger] a[i] == b[i] by {
                if i > 0 {
                    assert(x[i - 1] == y[i - 1]);
                }
            }
            if k < x.len() {
                assert(x[k] == a[k + 1] && y[k] == b[k + 1]);
            }
            assert(differ_at(a, b, k + 1));
        }
        if exists|k: int| #[trigger] differ_at(a, b, k) {
            let k = choose|k: int| #[trigger] differ_at(a, b, k);
            assert forall|i: int| 0 <= i < k - 1 implies #[trigger] x[i] == y[i] by {
                assert(a[i + 1] == b[i + 1]);
            }
            assert(k > 0);
            if k < a.len() {
                assert(x[k - 1] == a[k] && y[k - 1] == b[k]);
            }
            assert(differ_at(x, y, k - 1));
        }
    }
}

/// Whether two texts agree before a place, and at it the first ends or has the smaller code
/// point.
pub open spec fn differ_at(a: Seq<char>, b: Seq<char>, k: int) -> bool {
    &&& 0 <= k <= a.len()
    &&& k < b.len()
    &&& forall|i: int| 0 <= i < k ==> #[trigger] a[i] == b[i]
    &&& k == a.len() || a[k] < b[k]
}

/// The sum under a key, over the transactions that the columns were made of.
proof fn lemma_under(
    keys: Seq<String>,
    values: Seq<i64>,
    found: Seq<Transaction>,
    key: Seq<char>,
    name: spec_fn(Transaction) -> Seq<char>,
    value: spec_fn(Transaction) -> int,
)
    requires
        keys.len() == found.len(),
        values.len() == found.len(),
        forall|i: int|
            0 <= i < found.len() ==> (#[trigger] keys[i])@ == name(found[i]) && values[i] == value(
                found[i],
            ),
    ensures
        sum_over(amounts_under(keys, values, key), |x: i64| x as int) == sum_over(
            found,
            |t: Transaction|
                if name(t) == key {
                    value(t)
                } else {
                    0
                },
        ),
    decreases keys.len(),
{
    if keys.len() > 0 {
        let n = keys.len() - 1;
        let (k, v, f) = (keys.drop_last(), values.drop_last(), found.drop_last());
        assert forall|i: int| 0 <= i < f.len() implies (#[trigger] k[i])@ == name(f[i]) && v[i]
            == value(f[i]) by {
            assert(k[i] == keys[i] && v[i] == values[i] && f[i] == found[i]);
        }
        lemma_under(k, v, f, key, name, value);
        assert(keys[n]@ == name(found[n]));
        let (before, after) = (amounts_under(k, v, key), amounts_under(keys, values, key));
        if after.len() == before.len() + 1 {
            assert(after.drop_last() =~= before);
        }
    }
}

/// The sum over what is kept, over all items.
proof fn lemma_sum_over_kept<T>(s: Seq<T>, p: spec_fn(T) -> bool, f: spec_fn(T) -> int)
    ensures
        sum_over(kept(s, p), f) == sum_over(
            s,
            |x: T|
                if p(x) {
                    f(x)
                } else {
                    0
                },
        ),
    decreases s.len(),
{
    if s.len() > 0 {
        lemma_sum_over_kept(s.drop_last(), p, f);
        if p(s.last()) {
            assert(kept(s, p).drop_last() =~= kept(s.drop_last(), p));
        }
    }
}

// ---------------------------------------------------------------------------
// Spending by category
// ---------------------------------------------------------------------------

/// Whether a transaction is money spent under a category in a window; one without a category is
/// uncategorized.
pub open spec fn spent_on(t: Transaction, name: Seq<char>, since: i64, until: i64) -> bool {
    &&& t.amount_cents.0 < 0
    &&& since <= t.posted_at
    &&& t.posted_at < until
    &&& name == match t.category {
        Some(c) => c@,
        None => "uncategorized"@,
    }
}

/// What was spent under a category in a window.
pub open spec fn spent(rows: Seq<Transaction>, name: Seq<char>, since: i64, until: i64) -> int {
    sum_over(
        rows,
        |t: Transaction|
            if spent_on(t, name, since, until) {
                t.amount_cents.0 as int
            } else {
                0
            },
    )
}

/// Whether a category is listed.
pub open spec fn has_category(out: Seq<(String, Cents)>, name: Seq<char>) -> bool {
    exists|i: int| 0 <= i < out.len() && (#[trigger] out[i]).0@ == name
}

proof fn lemma_spent_under(
    keys: Seq<String>,
    values: Seq<i64>,
    rows: Seq<Transaction>,
    since: i64,
    until: i64,
    name: Seq<char>,
)
    requires
        are_expenses(keys, values, rows, since, until),
    ensures
        total(amounts_under(keys, values, name)) is Some ==> total(
            amounts_under(keys, values, name),
        )->0 == spent(rows, name, since, until),
{
    let found = expenses_in(rows, since, until);
    let p = |t: Transaction| is_expense_in(t, since, until);
    let category = |t: Transaction| category_of(t);
    let value = |t: Transaction| t.amount_cents.0 as int;
    assert forall|i: int| 0 <= i < found.len() implies (#[trigger] keys[i])@ == category(found[i])
        && values[i] == value(found[i]) by {
        assert(is_spend_of(keys[i], values[i], found[i]));
    }
    lemma_under(keys, values, found, name, category, value);
    let f = |t: Transaction|
        if category(t) == name {
            value(t)
        } else {
            0
        };
    lemma_sum_over_kept(rows, p, f);
    let g = |t: Transaction|
        if p(t) {
            f(t)
        } else {
            0
        };
    let h = |t: Transaction|
        if spent_on(t, name, since, until) {
            t.amount_cents.0 as int
        } else {
            0
        };
    crate::order::lemma_sum_same(rows, g, h);
    lemma_total_is_exact(amounts_under(keys, values, name));
}

/// Each category is listed at most once, with exactly what was spent under it in the window, the
/// most spent first, and no more of them than the limit. A category that something was spent
/// under is listed, unless as many as the limit are, and none of those had less spent.
pub proof fn law_spending_by_category(
    out: Vec<(String, Cents)>,
    rows: Seq<Transaction>,
    since: i64,
    until: i64,
    limit: i64,
)
    requires
        is_spending_outcome(Ok(out), rows, since, until, limit),
    ensures
        forall|i: int|
            0 <= i < out@.len() ==> (#[trigger] out@[i]).1.0 == spent(
                rows,
                out@[i].0@,
                since,
                until,
            ),
        forall|i: int, j: int|
            0 <= i < j < out@.len() ==> (#[trigger] out@[i]).0@ != (#[trigger] out@[j]).0@,
        forall|i: int, j: int|
            0 <= i < j < out@.len() ==> (#[trigger] out@[i]).1.0 <= (#[trigger] out@[j]).1.0,
        limit >= 0 ==> out@.len() <= limit,
        forall|k: int, name: Seq<char>|
            0 <= k < rows.len() && #[trigger] spent_on(rows[k], name, since, until)
                ==> has_category(out@, name) || (limit >= 0 && out@.len() == limit && forall|i: int|
                0 <= i < out@.len() ==> (#[trigger] out@[i]).1.0 <= spent(rows, name, since, until)),
{
    let (keys, values) = choose|keys: Seq<String>, values: Seq<i64>| #[trigger]
        are_expenses(keys, values, rows, since, until) && is_spending(out@, keys, values, limit);
    assert(are_expenses(keys, values, rows, since, until));
    law_spending_of_columns(out@, keys, values, rows, since, until, limit);
}

/// The same of the columns of categories and amounts that the expenses make.
pub proof fn law_spending_of_columns(
    out: Seq<(String, Cents)>,
    keys: Seq<String>,
    values: Seq<i64>,
    rows: Seq<Transaction>,
    since: i64,
    until: i64,
    limit: i64,
)
    requires
        are_expenses(keys, values, rows, since, until),
        is_spending(out, keys, values, limit),
    ensures
        forall|i: int|
            0 <= i < out.len() ==> (#[trigger] out[i]).1.0 == spent(
                rows,
                out[i].0@,
                since,
                until,
            ),
        forall|i: int, j: int|
            0 <= i < j < out.len() ==> (#[trigger] out[i]).0@ != (#[trigger] out[j]).0@,
        forall|i: int, j: int|
            0 <= i < j < out.len() ==> (#[trigger] out[i]).1.0 <= (#[trigger] out[j]).1.0,
        limit >= 0 ==> out.len() <= limit,
        forall|k: int, name: Seq<char>|
            0 <= k < rows.len() && #[trigger] spent_on(rows[k], name, since, until)
                ==> has_category(out, name) || (limit >= 0 && out.len() == limit && forall|i: int|
                0 <= i < out.len() ==> (#[trigger] out[i]).1.0 <= spent(rows, name, since, until)),
{
    let t = choose|t: Seq<(String, Cents)>| #[trigger]
        are_totals(t, keys, values) && out == limited(sorted_by_keys(t, sums(t)), limit);
    let all = sorted_by_keys(t, sums(t));
    let by_sum = |x: (String, Cents)| x.1.0;
    assert(sums(t) =~= t.map_values(by_sum));
    law_sorting_keeps_items(t, by_sum);
    lemma_same_items(all, t);
    lemma_names_differ(t, all, keys, values);
    assert forall|i: int| 0 <= i < all.len() implies (#[trigger] all[i]).1.0 == spent(
        rows,
        all[i].0@,
        since,
        until,
    ) by {
        assert(all.contains(all[i]));
        let j = choose|j: int| 0 <= j < t.len() && t[j] == all[i];
        assert(total(amounts_under(keys, values, t[j].0@)) == Some(t[j].1.0));
        lemma_spent_under(keys, values, rows, since, until, t[j].0@);
    }
    assert forall|i: int| 0 <= i < out.len() implies (#[trigger] out[i]) == all[i] by {}
    assert forall|k: int, name: Seq<char>|
        0 <= k < rows.len() && #[trigger] spent_on(rows[k], name, since, until) implies has_category(
        out,
        name,
    ) || (limit >= 0 && out.len() == limit && forall|i: int|
        0 <= i < out.len() ==> (#[trigger] out[i]).1.0 <= spent(rows, name, since, until)) by {
        let p = |t: Transaction| is_expense_in(t, since, until);
        let found = expenses_in(rows, since, until);
        lemma_kept(rows, p);
        assert(p(rows[k]));
        assert(found.contains(rows[k]));
        let f = choose|f: int| 0 <= f < found.len() && found[f] == rows[k];
        assert(is_spend_of(keys[f], values[f], found[f]));
        assert(has_key(t, keys[f]@));
        let j = choose|j: int| 0 <= j < t.len() && (#[trigger] t[j]).0@ == keys[f]@;
        assert(t.contains(t[j]));
        assert(all.contains(t[j]));
        let a = choose|a: int| 0 <= a < all.len() && all[a] == t[j];
        assert(all[a].0@ == name);
        if a < out.len() {
            assert(out[a].0@ == name);
        } else {
            assert forall|i: int| 0 <= i < out.len() implies (#[trigger] out[i]).1.0 <= spent(
                rows,
                name,
                since,
                until,
            ) by {
                assert(by_sum(all[i]) <= by_sum(all[a]));
            }
        }
    }
}

proof fn lemma_names_differ(
    t: Seq<(String, Cents)>,
    all: Seq<(String, Cents)>,
    keys: Seq<String>,
    values: Seq<i64>,
)
    requires
        are_totals(t, keys, values),
        all.to_multiset() == t.to_multiset(),
    ensures
        forall|i: int, j: int|
            0 <= i < j < all.len() ==> (#[trigger] all[i]).0@ != (#[trigger] all[j]).0@,
{
    lemma_same_items(all, t);
    assert forall|i: int, j: int| 0 <= i < j < all.len() implies (#[trigger] all[i]).0@ != (
    #[trigger] all[j]).0@ by {
        if all[i].0@ == all[j].0@ {
            assert(all.contains(all[i]) && all.contains(all[j]));
            let a = choose|a: int| 0 <= a < t.len() && t[a] == all[i];
            let b = choose|b: int| 0 <= b < t.len() && t[b] == all[j];
            if a < b {
                assert(lex_lt(t[a].0@, t[b].0@));
                lemma_lex_irreflexive(t[a].0@);
            } else if b < a {
                assert(lex_lt(t[b].0@, t[a].0@));
                lemma_lex_irreflexive(t[a].0@);
            } else {
                lemma_counted_twice(all, i, j);
                lemma_two_places(t, all[i]);
                let (c, d) = choose|c: int, d: int|
                    0 <= c < d < t.len() && #[trigger] t[c] == all[i] && #[trigger] t[d] == all[i];
                assert(lex_lt(t[c].0@, t[d].0@));
                lemma_lex_irreflexive(t[c].0@);
            }
        }
    }
}

// ---------------------------------------------------------------------------
// Cash flow by month
// ---------------------------------------------------------------------------

/// Whether an instant lies in the month of a label: its date is the label, a dash and the day.
pub open spec fn in_month(ts: i64, label: Seq<char>) -> bool {
    utc_text(ts, "%Y-%m-%d"@) == label + "-"@ + dec2(utc_fields(ts).2 as nat)
}

/// Whether the year of an instant has at most four digits.
pub open spec fn common_year(ts: i64) -> bool {
    0 <= utc_fields(ts).0 <= 9999
}

/// The label of an instant's month is its date without the day.
pub proof fn law_month_is_of_date(ts: i64, label: Seq<char>)
    requires
        common_year(ts),
    ensures
        in_month(ts, label) <==> label == month_of(ts),
{
    let day = "-"@ + dec2(utc_fields(ts).2 as nat);
    let date = utc_text(ts, "%Y-%m-%d"@);
    assert(date =~= month_of(ts) + day);
    assert(label + "-"@ + dec2(utc_fields(ts).2 as nat) =~= label + day);
    if label + day == month_of(ts) + day {
        assert(label.len() == month_of(ts).len());
        assert forall|i: int| 0 <= i < label.len() implies label[i] == month_of(ts)[i] by {
            assert((label + day)[i] == (month_of(ts) + day)[i]);
        }
        assert(label =~= month_of(ts));
    }
}

/// Cash flow has one row for each month with a transaction in the window, the earliest first:
/// what came in and what went out in it, apart and exactly.
pub proof fn law_cash_flow(
    out: Vec<(String, Cents, Cents)>,
    rows: Seq<Transaction>,
    since: i64,
    until: i64,
)
    requires
        is_flow_outcome(Ok(out), rows, since, until),
        forall|k: int|
            0 <= k < rows.len() && since <= (#[trigger] rows[k]).posted_at < until ==> common_year(
                rows[k].posted_at,
            ),
    ensures
        forall|i: int|
            0 <= i < out@.len() ==> (#[trigger] out@[i]).1.0 == sum_over(
                rows,
                |t: Transaction|
                    if since <= t.posted_at && t.posted_at < until && in_month(
                        t.posted_at,
                        out@[i].0@,
                    ) && t.amount_cents.0 > 0 {
                        t.amount_cents.0 as int
                    } else {
                        0
                    },
            ),
        forall|i: int|
            0 <= i < out@.len() ==> (#[trigger] out@[i]).2.0 == sum_over(
                rows,
                |t: Transaction|
                    if since <= t.posted_at && t.posted_at < until && in_month(
                        t.posted_at,
                        out@[i].0@,
                    ) && t.amount_cents.0 < 0 {
                        t.amount_cents.0 as int
                    } else {
                        0
                    },
            ),
        forall|i: int, j: int|
            0 <= i < j < out@.len() ==> lex_lt((#[trigger] out@[i]).0@, (#[trigger] out@[j]).0@),
        forall|k: int|
            0 <= k < rows.len() && since <= (#[trigger] rows[k]).posted_at < until ==> exists|
                i: int,
            |
                0 <= i < out@.len() && in_month(rows[k].posted_at, (#[trigger] out@[i]).0@),
{
    let (keys, values) = choose|keys: Seq<String>, values: Seq<i64>| #[trigger]
        are_flows(keys, values, rows, since, until) && is_cash_flow(out@, keys, values);
    assert(are_flows(keys, values, rows, since, until) && is_cash_flow(out@, keys, values));
    let found = posted_in(rows, since, until);
    let p = |t: Transaction| within(t.posted_at, since, until);
    let ins = out@.map_values(|x: (String, Cents, Cents)| (x.0, x.1));
    assert forall|i: int| 0 <= i < out@.len() implies (#[trigger] out@[i]).1.0 == sum_over(
        rows,
        |t: Transaction|
            if since <= t.posted_at && t.posted_at < until && in_month(t.posted_at, out@[i].0@)
                && t.amount_cents.0 > 0 {
                t.amount_cents.0 as int
            } else {
                0
            },
    ) by {
        assert(ins[i] == (out@[i].0, out@[i].1));
        assert(total(amounts_under(keys, inflows(values), ins[i].0@)) == Some(ins[i].1.0));
        let value = |t: Transaction|
            if t.amount_cents.0 >= 0 {
                t.amount_cents.0 as int
            } else {
                0
            };
        assert forall|f: int| 0 <= f < found.len() implies #[trigger] inflows(values)[f] == value(
            found[f],
        ) by {
            assert(is_flow_of(keys[f], values[f], found[f]));
        }
        lemma_flow_under(keys, values, inflows(values), rows, since, until, out@[i].0@, value);
        let f = |t: Transaction|
            if within(t.posted_at, since, until) && month_of(t.posted_at) == out@[i].0@ {
                value(t)
            } else {
                0
            };
        let g = |t: Transaction|
            if since <= t.posted_at && t.posted_at < until && in_month(t.posted_at, out@[i].0@)
                && t.amount_cents.0 > 0 {
                t.amount_cents.0 as int
            } else {
                0
            };
        assert forall|k: int| 0 <= k < rows.len() implies f(#[trigger] rows[k]) == g(rows[k]) by {
            if since <= rows[k].posted_at < until {
                law_month_is_of_date(rows[k].posted_at, out@[i].0@);
            }
        }
        crate::order::lemma_sum_same(rows, f, g);
    }
    assert forall|i: int| 0 <= i < out@.len() implies (#[trigger] out@[i]).2.0 == sum_over(
        rows,
        |t: Transaction|
            if since <= t.posted_at && t.posted_at < until && in_month(t.posted_at, out@[i].0@)
                && t.amount_cents.0 < 0 {
                t.amount_cents.0 as int
            } else {
                0
            },
    ) by {
        let value = |t: Transaction|
            if t.amount_cents.0 < 0 {
                t.amount_cents.0 as int
            } else {
                0
            };
        assert forall|f: int| 0 <= f < found.len() implies #[trigger] outflows(values)[f] == value(
            found[f],
        ) by {
            assert(is_flow_of(keys[f], values[f], found[f]));
        }
        lemma_flow_under(keys, values, outflows(values), rows, since, until, out@[i].0@, value);
        let f = |t: Transaction|
            if within(t.posted_at, since, until) && month_of(t.posted_at) == out@[i].0@ {
                value(t)
            } else {
                0
            };
        let g = |t: Transaction|
            if since <= t.posted_at && t.posted_at < until && in_month(t.posted_at, out@[i].0@)
                && t.amount_cents.0 < 0 {
                t.amount_cents.0 as int
            } else {
                0
            };
        assert forall|k: int| 0 <= k < rows.len() implies f(#[trigger] rows[k]) == g(rows[k]) by {
            if since <= rows[k].posted_at < until {
                law_month_is_of_date(rows[k].posted_at, out@[i].0@);
            }
        }
        crate::order::lemma_sum_same(rows, f, g);
    }
    assert forall|i: int, j: int| 0 <= i < j < out@.len() implies lex_lt(
        (#[trigger] out@[i]).0@,
        (#[trigger] out@[j]).0@,
    ) by {
        assert(lex_lt(ins[i].0@, ins[j].0@));
    }
    assert forall|k: int|
        0 <= k < rows.len() && since <= (#[trigger] rows[k]).posted_at < until implies exists|i: int|
        0 <= i < out@.len() && in_month(rows[k].posted_at, (#[trigger] out@[i]).0@) by {
        lemma_kept(rows, p);
        assert(p(rows[k]));
        assert(found.contains(rows[k]));
        let f = choose|f: int| 0 <= f < found.len() && found[f] == rows[k];
        assert(is_flow_of(keys[f], values[f], found[f]));
        assert(has_key(ins, keys[f]@));
        let j = choose|j: int| 0 <= j < ins.len() && (#[trigger] ins[j]).0@ == keys[f]@;
        law_month_is_of_date(rows[k].posted_at, out@[j].0@);
        assert(in_month(rows[k].posted_at, out@[j].0@));
    }
}

proof fn lemma_flow_under(
    keys: Seq<String>,
    values: Seq<i64>,
    parts: Seq<i64>,
    rows: Seq<Transaction>,
    since: i64,
    until: i64,
    name: Seq<char>,
    value: spec_fn(Transaction) -> int,
)
    requires
        are_flows(keys, values, rows, since, until),
        parts.len() == values.len(),
        forall|i: int|
            0 <= i < parts.len() ==> #[trigger] parts[i] == value(
                posted_in(rows, since, until)[i],
            ),
    ensures
        total(amounts_under(keys, parts, name)) is Some ==> total(
            amounts_under(keys, parts, name),
        )->0 == sum_over(
            rows,
            |t: Transaction|
                if within(t.posted_at, since, until) && month_of(t.posted_at) == name {
                    value(t)
                } else {
                    0
                },
        ),
{
    let found = posted_in(rows, since, until);
    let p = |t: Transaction| within(t.posted_at, since, until);
    let month = |t: Transaction| month_of(t.posted_at);
    assert forall|i: int| 0 <= i < found.len() implies (#[trigger] keys[i])@ == month(found[i])
        && parts[i] == value(found[i]) by {
        assert(is_flow_of(keys[i], values[i], found[i]));
    }
    lemma_under(keys, parts, found, name, month, value);
    let f = |t: Transaction|
        if month(t) == name {
            value(t)
        } else {
            0
        };
    lemma_sum_over_kept(rows, p, f);
    let g = |t: Transaction|
        if p(t) {
            f(t)
        } else {
            0
        };
    let h = |t: Transaction|
        if within(t.posted_at, since, until) && month_of(t.posted_at) == name {
            value(t)
        } else {
            0
        };
    crate::order::lemma_sum_same(rows, g, h);
    lemma_total_is_exact(amounts_under(keys, parts, name));
}

} // verus!
