//! Laws of the upcoming charges and the calendar.

use vstd::prelude::*;

verus! {

use crate::calendar::{
    charging, is_gathered, is_planned_event, is_renewal_event, is_series_event, is_upcoming,
    renewing, starts, CalEvent,
};
use crate::db::{PlannedExpense, SubscriptionRecord};
use crate::laws::lists::{law_active_subscriptions, law_planned_due, open_in};
use crate::ledger::{active_subscriptions, due_expenses};
use crate::money::shown;
use crate::order::{
    how_many, kept, law_sorting_keeps_items, lemma_count_of_same_items, lemma_kept, lemma_kept_from,
    lemma_kept_is_filter, lemma_same_items, sorted_by_keys,
};
use crate::rpc::LabeledSeries;
use crate::text::has_text;

/// Whether a subscription that is switched on is charged next in a window, without its end.
pub open spec fn renews_within(s: SubscriptionRecord, since: i64, until: i64) -> bool {
    s.active && s.next_charge_at is Some && since <= s.next_charge_at->0 && s.next_charge_at->0
        < until
}

/// Whether a series that the operator has labelled is expected in a window, without its end.
pub open spec fn expected_within(s: LabeledSeries, since: i64, until: i64) -> bool {
    s.label is Some && since <= s.series.predicted_next && s.series.predicted_next < until
}

/// Whether an event announces an open expense: on its day, with its words and its amount.
pub open spec fn announces_expense(e: CalEvent, p: PlannedExpense) -> bool {
    &&& e.start_secs == p.due_at
    &&& has_text(e.summary@, p.description@)
    &&& has_text(e.summary@, shown(p.amount_cents.0 as int))
}

/// Whether an event announces a renewal: on its day, with the name and the amount.
pub open spec fn announces_renewal(e: CalEvent, s: SubscriptionRecord) -> bool {
    &&& s.next_charge_at == Some(e.start_secs)
    &&& has_text(e.summary@, s.name@)
    &&& match s.amount_cents {
        Some(c) => has_text(e.summary@, shown(c.0 as int)),
        None => true,
    }
}

/// Whether an event announces an expected charge: on its day, with the name that the operator
/// gave it or else the words of the last charge, the label, and the mean amount.
pub open spec fn announces_charge(e: CalEvent, s: LabeledSeries) -> bool {
    &&& e.start_secs == s.series.predicted_next
    &&& s.display_name is Some ==> has_text(e.summary@, s.display_name->0@)
    &&& s.display_name is None ==> has_text(e.summary@, s.series.display@)
    &&& s.label is Some ==> has_text(e.summary@, s.label->0@)
    &&& has_text(e.summary@, shown(s.series.avg_amount.0 as int))
}

/// Whether an event announces something that falls in a window.
pub open spec fn tells_of(
    e: CalEvent,
    planned: Seq<PlannedExpense>,
    subs: Seq<SubscriptionRecord>,
    recurring: Seq<LabeledSeries>,
    since: i64,
    until: i64,
) -> bool {
    ||| exists|p: PlannedExpense| #[trigger]
        planned.contains(p) && open_in(p, since, until) && announces_expense(e, p)
    ||| exists|s: SubscriptionRecord| #[trigger]
        subs.contains(s) && renews_within(s, since, until) && announces_renewal(e, s)
    ||| exists|s: LabeledSeries| #[trigger]
        recurring.contains(s) && expected_within(s, since, until) && announces_charge(e, s)
}

proof fn lemma_part(whole: Seq<char>, a: Seq<char>, b: Seq<char>, c: Seq<char>)
    requires
        whole == a + b + c,
    ensures
        has_text(whole, b),
{
    assert(whole.subrange(a.len() as int, (a.len() + b.len()) as int) =~= b);
    assert(crate::text::stands_at(whole, b, a.len() as int));
}

proof fn lemma_planned_announced(e: CalEvent, p: PlannedExpense)
    requires
        is_planned_event(e, p),
    ensures
        announces_expense(e, p),
{
    let amount = shown(p.amount_cents.0 as int);
    assert(e.summary@ =~= "[arca] "@ + p.description@ + (" — "@ + amount));
    lemma_part(e.summary@, "[arca] "@, p.description@, " — "@ + amount);
    assert(e.summary@ =~= ("[arca] "@ + p.description@ + " — "@) + amount + Seq::<char>::empty());
    lemma_part(
        e.summary@,
        "[arca] "@ + p.description@ + " — "@,
        amount,
        Seq::<char>::empty(),
    );
}

proof fn lemma_renewal_announced(e: CalEvent, s: SubscriptionRecord)
    requires
        is_renewal_event(e, s),
    ensures
        announces_renewal(e, s),
{
    let amount = match s.amount_cents {
        Some(c) => shown(c.0 as int),
        None => "(usage-based)"@,
    };
    assert(e.summary@ =~= "[arca] "@ + s.name@ + (" renews — "@ + amount));
    lemma_part(e.summary@, "[arca] "@, s.name@, " renews — "@ + amount);
    assert(e.summary@ =~= ("[arca] "@ + s.name@ + " renews — "@) + amount + Seq::<char>::empty());
    lemma_part(
        e.summary@,
        "[arca] "@ + s.name@ + " renews — "@,
        amount,
        Seq::<char>::empty(),
    );
}

proof fn lemma_charge_announced(e: CalEvent, ls: LabeledSeries)
    requires
        is_series_event(e, ls),
        ls.label is Some,
    ensures
        announces_charge(e, ls),
{
    let name = match ls.display_name {
        Some(n) => n@,
        None => ls.series.display@,
    };
    let label = ls.label->0@;
    let avg = shown(ls.series.avg_amount.0 as int);
    let s = e.summary@;
    assert(s =~= "[arca] "@ + name + (" ("@ + label + ") ~"@ + avg + " est"@));
    lemma_part(s, "[arca] "@, name, " ("@ + label + ") ~"@ + avg + " est"@);
    assert(s =~= ("[arca] "@ + name + " ("@) + label + (") ~"@ + avg + " est"@));
    lemma_part(s, "[arca] "@ + name + " ("@, label, ") ~"@ + avg + " est"@);
    assert(s =~= ("[arca] "@ + name + " ("@ + label + ") ~"@) + avg + " est"@);
    lemma_part(s, "[arca] "@ + name + " ("@ + label + ") ~"@, avg, " est"@);
}

proof fn lemma_renewing_is_filtered(rows: Seq<SubscriptionRecord>, since: i64, until: i64)
    ensures
        renewing(rows, since, until) == rows.filter(
            |s: SubscriptionRecord|
                s.next_charge_at is Some && since <= s.next_charge_at->0 < until,
        ),
    decreases rows.len(),
{
    reveal(Seq::filter);
    if rows.len() > 0 {
        lemma_renewing_is_filtered(rows.drop_last(), since, until);
    }
}

proof fn lemma_charging_is_filtered(rows: Seq<LabeledSeries>, since: i64, until: i64)
    ensures
        charging(rows, since, until) == rows.filter(
            |s: LabeledSeries| expected_within(s, since, until),
        ),
    decreases rows.len(),
{
    reveal(Seq::filter);
    if rows.len() > 0 {
        lemma_charging_is_filtered(rows.drop_last(), since, until);
    }
}

proof fn lemma_filtered_twice<T>(s: Seq<T>, p: spec_fn(T) -> bool, q: spec_fn(T) -> bool)
    ensures
        s.filter(p).filter(q).len() == how_many(s, |x: T| p(x) && q(x)),
    decreases s.len(),
{
    reveal(Seq::filter);
    if s.len() > 0 {
        let d = s.drop_last();
        lemma_filtered_twice(d, p, q);
        if p(s.last()) {
            assert(s.filter(p).drop_last() =~= d.filter(p));
        }
    }
}

proof fn lemma_member_kept<T>(s: Seq<T>, p: spec_fn(T) -> bool)
    ensures
        forall|x: T| s.filter(p).contains(x) <==> s.contains(x) && p(x),
{
    lemma_kept_is_filter(s, p);
    lemma_kept(s, p);
    lemma_kept_from(s, p);
    assert forall|x: T| s.filter(p).contains(x) <==> s.contains(x) && p(x) by {
        if s.filter(p).contains(x) {
            let i = choose|i: int| 0 <= i < s.filter(p).len() && s.filter(p)[i] == x;
            assert(s.contains(kept(s, p)[i]) && p(kept(s, p)[i]));
        }
        if s.contains(x) && p(x) {
            let i = choose|i: int| 0 <= i < s.len() && s[i] == x;
            assert(s.filter(p).contains(s[i]));
        }
    }
}

/// Every event that is gathered for a window starts in it, the earliest first. Each announces
/// an open expense that is due in the window, a renewal of an active subscription that is
/// charged in it, or a labelled series that is expected in it. Each of those is announced, and
/// there are no other events.
pub proof fn law_upcoming_is_the_window(
    out: Seq<CalEvent>,
    planned: Seq<PlannedExpense>,
    subs: Seq<SubscriptionRecord>,
    recurring: Seq<LabeledSeries>,
    since: i64,
    until: i64,
)
    requires
        is_upcoming(out, planned, subs, recurring, since, until),
        subs.len() <= i64::MAX,
    ensures
        forall|i: int| 0 <= i < out.len() ==> since <= (#[trigger] out[i]).start_secs < until,
        forall|i: int, j: int|
            0 <= i < j < out.len() ==> (#[trigger] out[i]).start_secs <= (
            #[trigger] out[j]).start_secs,
        forall|i: int|
            0 <= i < out.len() ==> tells_of(
                #[trigger] out[i],
                planned,
                subs,
                recurring,
                since,
                until,
            ),
        forall|k: int|
            0 <= k < planned.len() && open_in(#[trigger] planned[k], since, until) ==> exists|i: int|
                0 <= i < out.len() && announces_expense(#[trigger] out[i], planned[k]),
        forall|k: int|
            0 <= k < subs.len() && renews_within(#[trigger] subs[k], since, until) ==> exists|i: int|
                0 <= i < out.len() && announces_renewal(#[trigger] out[i], subs[k]),
        forall|k: int|
            0 <= k < recurring.len() && expected_within(#[trigger] recurring[k], since, until)
                ==> exists|i: int|
                0 <= i < out.len() && announces_charge(#[trigger] out[i], recurring[k]),
        out.len() == how_many(planned, |p: PlannedExpense| open_in(p, since, until)) + how_many(
            subs,
            |s: SubscriptionRecord| renews_within(s, since, until),
        ) + how_many(recurring, |s: LabeledSeries| expected_within(s, since, until)),
{
    let due = due_expenses(planned, since, until);
    let on = active_subscriptions(subs);
    let all = choose|all: Seq<CalEvent>| #[trigger]
        is_gathered(all, due, on, recurring, since, until) && out == sorted_by_keys(
            all,
            starts(all),
        );
    let renews = renewing(on, since, until);
    let charges = charging(recurring, since, until);
    let n = due.len() as int;
    let m = n + renews.len();
    let start = |e: CalEvent| e.start_secs;
    assert(starts(all) =~= all.map_values(start));
    law_sorting_keeps_items(all, start);
    lemma_same_items(out, all);
    law_planned_due(due, planned, since, until);
    law_active_subscriptions(on, subs);
    lemma_renewing_is_filtered(on, since, until);
    lemma_charging_is_filtered(recurring, since, until);
    let falls = |s: SubscriptionRecord|
        s.next_charge_at is Some && since <= s.next_charge_at->0 < until;
    let expected = |s: LabeledSeries| expected_within(s, since, until);
    lemma_member_kept(on, falls);
    lemma_member_kept(recurring, expected);
    assert forall|k: int| 0 <= k < all.len() implies since <= (#[trigger] all[k]).start_secs < until
        && tells_of(all[k], planned, subs, recurring, since, until) by {
        if k < n {
            assert(is_planned_event(all[k], due[k]));
            lemma_planned_announced(all[k], due[k]);
            assert(planned.contains(due[k]) && open_in(due[k], since, until));
        } else if k < m {
            let s = renews[k - n];
            assert(is_renewal_event(all[k], s));
            lemma_renewal_announced(all[k], s);
            assert(renews.contains(s));
            assert(on.contains(s) && falls(s));
            let j = choose|j: int| 0 <= j < on.len() && on[j] == s;
            assert(subs.contains(on[j]) && on[j].active);
            assert(subs.contains(s) && renews_within(s, since, until));
        } else {
            let s = charges[k - m];
            assert(is_series_event(all[k], s));
            assert(charges.contains(s));
            assert(recurring.contains(s) && expected(s));
            lemma_charge_announced(all[k], s);
        }
    }
    assert forall|i: int| 0 <= i < out.len() implies since <= (#[trigger] out[i]).start_secs < until
        && tells_of(out[i], planned, subs, recurring, since, until) by {
        assert(out.contains(out[i]));
        assert(all.contains(out[i]));
        let k = choose|k: int| 0 <= k < all.len() && all[k] == out[i];
        assert(since <= all[k].start_secs < until);
    }
    assert forall|i: int, j: int| 0 <= i < j < out.len() implies (#[trigger] out[i]).start_secs <= (
    #[trigger] out[j]).start_secs by {
        assert(start(out[i]) <= start(out[j]));
    }
    assert forall|k: int|
        0 <= k < planned.len() && open_in(#[trigger] planned[k], since, until) implies exists|i: int|
        0 <= i < out.len() && announces_expense(#[trigger] out[i], planned[k]) by {
        assert(due.contains(planned[k]));
        let j = choose|j: int| 0 <= j < due.len() && due[j] == planned[k];
        assert(is_planned_event(all[j], due[j]));
        lemma_planned_announced(all[j], due[j]);
        let i = lemma_place(all, out, j);
    }
    assert forall|k: int|
        0 <= k < subs.len() && renews_within(#[trigger] subs[k], since, until) implies exists|i: int|
        0 <= i < out.len() && announces_renewal(#[trigger] out[i], subs[k]) by {
        assert(on.contains(subs[k]));
        assert(falls(subs[k]));
        assert(renews.contains(subs[k]));
        let j = choose|j: int| 0 <= j < renews.len() && renews[j] == subs[k];
        assert(is_renewal_event(all[n + j], renews[n + j - n]));
        lemma_renewal_announced(all[n + j], renews[j]);
        let i = lemma_place(all, out, n + j);
    }
    assert forall|k: int|
        0 <= k < recurring.len() && expected_within(#[trigger] recurring[k], since, until) implies exists|
        i: int,
    |
        0 <= i < out.len() && announces_charge(#[trigger] out[i], recurring[k]) by {
        assert(recurring.contains(recurring[k]));
        assert(expected(recurring[k]));
        assert(charges.contains(recurring[k]));
        let j = choose|j: int| 0 <= j < charges.len() && charges[j] == recurring[k];
        assert(is_series_event(all[m + j], charges[m + j - m]));
        lemma_charge_announced(all[m + j], charges[j]);
        let i = lemma_place(all, out, m + j);
    }
    let active = |s: SubscriptionRecord| s.active;
    lemma_count_of_same_items(on, subs.filter(active), falls);
    lemma_filtered_twice(subs, active, falls);
    crate::order::lemma_count_same(
        subs,
        |s: SubscriptionRecord| active(s) && falls(s),
        |s: SubscriptionRecord| renews_within(s, since, until),
    );
    lemma_same_items(due, planned.filter(|p: PlannedExpense| open_in(p, since, until)));
}

proof fn lemma_place(all: Seq<CalEvent>, out: Seq<CalEvent>, k: int) -> (i: int)
    requires
        0 <= k < all.len(),
        forall|x: CalEvent| out.contains(x) == all.contains(x),
    ensures
        0 <= i < out.len(),
        out[i] == all[k],
{
    assert(all.contains(all[k]));
    choose|i: int| 0 <= i < out.len() && out[i] == all[k]
}

} // verus!
