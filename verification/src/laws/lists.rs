//! Laws of the lists that are read off the tables.

use vstd::prelude::*;

verus! {

use crate::db::{
    account_names, active_accounts, Account, AlertHistoryRow, AlertRule, PlannedExpense,
    SubscriptionRecord,
};
use crate::ledger::{
    active_subscriptions, due_expenses, due_keys, fired_keys, is_due_in, recent_firings,
    record_names, shown_firings,
};
use crate::order::{
    kept, law_sorting_keeps_items, lemma_kept, lemma_kept_from, lemma_kept_is_filter,
    lemma_kept_same, lemma_rank, lemma_same_items, rank, ranks, sorted_by_keys,
};
use crate::text::lex_lt;

proof fn lemma_rank_small(names: Seq<Seq<char>>, n: Seq<char>)
    ensures
        rank(names, n) <= names.len(),
    decreases names.len(),
{
    if names.len() > 0 {
        lemma_rank_small(names.drop_last(), n);
    }
}

/// Sorting by name changes nothing but the order, and no name comes before an earlier one.
pub proof fn law_sorting_by_name<T>(items: Seq<T>, name: spec_fn(T) -> Seq<char>)
    requires
        items.len() <= i64::MAX,
    ensures
        ({
            let r = sorted_by_keys(items, ranks(items.map_values(name)));
            &&& r.to_multiset() == items.to_multiset()
            &&& forall|i: int, j: int|
                0 <= i < j < r.len() ==> !lex_lt(name(#[trigger] r[j]), name(#[trigger] r[i]))
        }),
{
    let names = items.map_values(name);
    let key = |x: T| rank(names, name(x)) as i64;
    assert(ranks(names) =~= items.map_values(key));
    law_sorting_keeps_items(items, key);
    let r = sorted_by_keys(items, ranks(names));
    lemma_same_items(r, items);
    assert forall|i: int, j: int| 0 <= i < j < r.len() implies !lex_lt(
        name(#[trigger] r[j]),
        name(#[trigger] r[i]),
    ) by {
        assert(key(r[i]) <= key(r[j]));
        if lex_lt(name(r[j]), name(r[i])) {
            assert(r.contains(r[j]));
            assert(items.contains(r[j]));
            let k = choose|k: int| 0 <= k < items.len() && items[k] == r[j];
            assert(names[k] == name(r[j]));
            assert(names.contains(name(r[j])));
            lemma_rank(names, name(r[j]), name(r[i]));
            lemma_rank_small(names, name(r[i]));
            lemma_rank_small(names, name(r[j]));
        }
    }
}

/// The active subscriptions are exactly those that are switched on, by name.
pub proof fn law_active_subscriptions(out: Seq<SubscriptionRecord>, rows: Seq<SubscriptionRecord>)
    requires
        out == active_subscriptions(rows),
        rows.len() <= i64::MAX,
    ensures
        out.to_multiset() == rows.filter(|s: SubscriptionRecord| s.active).to_multiset(),
        forall|i: int| 0 <= i < out.len() ==> rows.contains(#[trigger] out[i]) && out[i].active,
        forall|i: int|
            0 <= i < rows.len() && (#[trigger] rows[i]).active ==> out.contains(rows[i]),
        forall|i: int, j: int|
            0 <= i < j < out.len() ==> !lex_lt((#[trigger] out[j]).name@, (#[trigger] out[i]).name@),
{
    let p = |s: SubscriptionRecord| s.active;
    let on = kept(rows, p);
    lemma_kept_is_filter(rows, p);
    rows.lemma_filter_len(p);
    let name = |s: SubscriptionRecord| s.name@;
    assert(record_names(on) =~= on.map_values(name));
    law_sorting_by_name(on, name);
    lemma_same_items(out, on);
    lemma_kept(rows, p);
    lemma_kept_from(rows, p);
    assert forall|i: int| 0 <= i < out.len() implies rows.contains(#[trigger] out[i])
        && out[i].active by {
        assert(out.contains(out[i]));
        assert(on.contains(out[i]));
        let k = choose|k: int| 0 <= k < on.len() && on[k] == out[i];
        assert(p(on[k]));
    }
    assert forall|i: int| 0 <= i < rows.len() && (#[trigger] rows[i]).active implies out.contains(
        rows[i],
    ) by {
        assert(p(rows[i]));
        assert(on.contains(rows[i]));
    }
    assert forall|i: int, j: int| 0 <= i < j < out.len() implies !lex_lt(
        (#[trigger] out[j]).name@,
        (#[trigger] out[i]).name@,
    ) by {
        assert(!lex_lt(name(out[j]), name(out[i])));
    }
}

/// The active accounts are exactly those that are switched on, by name.
pub proof fn law_active_accounts(out: Seq<Account>, rows: Seq<Account>)
    requires
        out == active_accounts(rows),
        rows.len() <= i64::MAX,
    ensures
        out.to_multiset() == rows.filter(|a: Account| a.active).to_multiset(),
        forall|i: int| 0 <= i < out.len() ==> rows.contains(#[trigger] out[i]) && out[i].active,
        forall|i: int|
            0 <= i < rows.len() && (#[trigger] rows[i]).active ==> out.contains(rows[i]),
        forall|i: int, j: int|
            0 <= i < j < out.len() ==> !lex_lt((#[trigger] out[j]).name@, (#[trigger] out[i]).name@),
{
    let p = |a: Account| a.active;
    let on = kept(rows, p);
    lemma_kept_is_filter(rows, p);
    rows.lemma_filter_len(p);
    let name = |a: Account| a.name@;
    assert(account_names(on) =~= on.map_values(name));
    law_sorting_by_name(on, name);
    lemma_same_items(out, on);
    lemma_kept(rows, p);
    lemma_kept_from(rows, p);
    assert forall|i: int| 0 <= i < out.len() implies rows.contains(#[trigger] out[i])
        && out[i].active by {
        assert(out.contains(out[i]));
        assert(on.contains(out[i]));
        let k = choose|k: int| 0 <= k < on.len() && on[k] == out[i];
        assert(p(on[k]));
    }
    assert forall|i: int| 0 <= i < rows.len() && (#[trigger] rows[i]).active implies out.contains(
        rows[i],
    ) by {
        assert(p(rows[i]));
        assert(on.contains(rows[i]));
    }
    assert forall|i: int, j: int| 0 <= i < j < out.len() implies !lex_lt(
        (#[trigger] out[j]).name@,
        (#[trigger] out[i]).name@,
    ) by {
        assert(!lex_lt(name(out[j]), name(out[i])));
    }
}

/// Whether an expense is still open and due in a window, without its end.
pub open spec fn open_in(p: PlannedExpense, since: i64, until: i64) -> bool {
    p.status@ == "planned"@ && since <= p.due_at && p.due_at < until
}

/// The expenses due are exactly those that are still open and due in the window, the earliest
/// first.
pub proof fn law_planned_due(
    out: Seq<PlannedExpense>,
    rows: Seq<PlannedExpense>,
    since: i64,
    until: i64,
)
    requires
        out == due_expenses(rows, since, until),
    ensures
        out.to_multiset() == rows.filter(
            |p: PlannedExpense| open_in(p, since, until),
        ).to_multiset(),
        forall|i: int|
            0 <= i < out.len() ==> rows.contains(#[trigger] out[i]) && open_in(out[i], since, until),
        forall|i: int|
            0 <= i < rows.len() && open_in(#[trigger] rows[i], since, until) ==> out.contains(
                rows[i],
            ),
        forall|i: int, j: int|
            0 <= i < j < out.len() ==> (#[trigger] out[i]).due_at <= (#[trigger] out[j]).due_at,
{
    let q = |p: PlannedExpense| is_due_in(p, since, until);
    let p = |p: PlannedExpense| open_in(p, since, until);
    assert forall|x: PlannedExpense| q(x) == #[trigger] p(x) by {}
    lemma_kept_same(rows, q, p);
    lemma_kept_is_filter(rows, p);
    let found = kept(rows, p);
    let key = |p: PlannedExpense| p.due_at;
    assert(due_keys(found) =~= found.map_values(key));
    law_sorting_keeps_items(found, key);
    lemma_same_items(out, found);
    lemma_kept(rows, p);
    lemma_kept_from(rows, p);
    assert forall|i: int| 0 <= i < out.len() implies rows.contains(#[trigger] out[i]) && open_in(
        out[i],
        since,
        until,
    ) by {
        assert(out.contains(out[i]));
        assert(found.contains(out[i]));
        let k = choose|k: int| 0 <= k < found.len() && found[k] == out[i];
        assert(p(found[k]));
    }
    assert forall|i: int| 0 <= i < rows.len() && open_in(#[trigger] rows[i], since, until) implies
        out.contains(rows[i]) by {
        assert(p(rows[i]));
        assert(found.contains(rows[i]));
    }
    assert forall|i: int, j: int| 0 <= i < j < out.len() implies (#[trigger] out[i]).due_at <= (
    #[trigger] out[j]).due_at by {
        assert(key(out[i]) <= key(out[j]));
    }
}

/// The active rules are exactly those that are switched on, in their order.
pub proof fn law_active_rules(out: Seq<AlertRule>, rows: Seq<AlertRule>)
    requires
        out == kept(rows, |x: AlertRule| x.active),
    ensures
        out == rows.filter(|x: AlertRule| x.active),
{
    lemma_kept_is_filter(rows, |x: AlertRule| x.active);
}

proof fn lemma_reversed_same<T>(s: Seq<T>)
    ensures
        s.reverse().to_multiset() == s.to_multiset(),
    decreases s.len(),
{
    if s.len() > 0 {
        let d = s.drop_last();
        lemma_reversed_same(d);
        let r = s.reverse();
        assert(r.remove(0) =~= d.reverse());
        r.to_multiset_ensures();
        d.to_multiset_ensures();
        assert(d.push(s.last()) =~= s);
        assert(r.contains(r[0]));
        assert(r.to_multiset().remove(r[0]).insert(r[0]) =~= r.to_multiset());
    } else {
        assert(s.reverse() =~= s);
    }
}

/// The recent firings are of the history, the newest first, no more than the limit, and
/// without what was delivered unless that is asked for. Where the limit is not reached, none is
/// missing; where it cuts the list, what is left out is not newer than what is listed.
pub proof fn law_recent_alerts(
    out: Seq<AlertHistoryRow>,
    rows: Seq<AlertHistoryRow>,
    limit: i64,
    include_delivered: bool,
)
    requires
        out == recent_firings(rows, limit, include_delivered),
    ensures
        forall|i: int|
            0 <= i < out.len() ==> rows.contains(#[trigger] out[i]) && (include_delivered
                || !out[i].delivered),
        forall|i: int, j: int|
            0 <= i < j < out.len() ==> (#[trigger] out[i]).fired_at >= (#[trigger] out[j]).fired_at,
        limit >= 0 ==> out.len() <= limit,
        limit < 0 || out.len() < limit ==> out.to_multiset() == rows.filter(
            |h: AlertHistoryRow| include_delivered || !h.delivered,
        ).to_multiset(),
        forall|i: int, j: int|
            0 <= i < rows.len() && 0 <= j < out.len() && (include_delivered || !(
            #[trigger] rows[i]).delivered) && !out.contains(rows[i]) ==> rows[i].fired_at <= (
            #[trigger] out[j]).fired_at,
{
    let p = |h: AlertHistoryRow| include_delivered || !h.delivered;
    let base = kept(rows, p);
    lemma_kept_is_filter(rows, p);
    let found = shown_firings(rows, include_delivered);
    assert(found == base.reverse());
    lemma_reversed_same(base);
    let key = |h: AlertHistoryRow| (-1 - h.fired_at) as i64;
    assert(fired_keys(found) =~= found.map_values(key));
    law_sorting_keeps_items(found, key);
    let all = sorted_by_keys(found, fired_keys(found));
    lemma_same_items(all, base);
    lemma_kept(rows, p);
    lemma_kept_from(rows, p);
    assert forall|i: int| 0 <= i < out.len() implies rows.contains(#[trigger] out[i]) && (
    include_delivered || !out[i].delivered) by {
        assert(out[i] == all[i]);
        assert(all.contains(all[i]));
        assert(base.contains(all[i]));
        let k = choose|k: int| 0 <= k < base.len() && base[k] == all[i];
        assert(p(base[k]));
    }
    assert forall|i: int, j: int| 0 <= i < j < out.len() implies (#[trigger] out[i]).fired_at >= (
    #[trigger] out[j]).fired_at by {
        assert(key(all[i]) <= key(all[j]));
    }
    assert forall|i: int, j: int|
        0 <= i < rows.len() && 0 <= j < out.len() && (include_delivered || !(
        #[trigger] rows[i]).delivered) && !out.contains(rows[i]) implies rows[i].fired_at <= (
    #[trigger] out[j]).fired_at by {
        assert(p(rows[i]));
        assert(base.contains(rows[i]));
        assert(all.contains(rows[i]));
        let k = choose|k: int| 0 <= k < all.len() && all[k] == rows[i];
        if k < out.len() {
            assert(out[k] == rows[i]);
        }
        assert(key(all[j]) <= key(all[k]));
    }
}

} // verus!
