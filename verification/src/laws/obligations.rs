//! Laws of recurring obligations, of the debt total and of the periods asked for.

use vstd::prelude::*;

verus! {

use crate::db::SubscriptionRecord;
use crate::debt::{
    due_dates, is_answer, is_first_due, known_cadence, next_charge, obligations, occurrence,
    occurrence_after, owed, projected, scope_window, upcoming_obligations,
};
use crate::ledger::active_subscriptions;
use crate::order::{law_sorting_keeps_items, lemma_same_items, lemma_sum_bounded, size_of, sum_over};
use crate::rpc::{DebtBalance, DebtScheduled, Scope};
use crate::text::opt_text;
use crate::time::{plus_months, utc_fields, utc_midnight, valid_instant};

/// What is owed in all is the sum of the open balances.
pub proof fn law_owed_adds_up(open: Seq<DebtBalance>)
    requires
        sum_over(open, |d: DebtBalance| size_of(d.balance.0 as int)) <= i64::MAX,
    ensures
        owed(open).0 == sum_over(open, |d: DebtBalance| d.balance.0 as int),
    decreases open.len(),
{
    let f = |d: DebtBalance| d.balance.0 as int;
    let g = |d: DebtBalance| size_of(d.balance.0 as int);
    lemma_sum_bounded(open, f, g);
    if open.len() > 0 {
        law_owed_adds_up(open.drop_last());
    }
}

// ---------------------------------------------------------------------------
// The next charge
// ---------------------------------------------------------------------------

/// How many days and how many months a cadence steps on.
pub open spec fn is_step(cadence: Seq<char>, days: int, months: int) -> bool {
    ||| cadence == "weekly"@ && days == 7 && months == 0
    ||| cadence == "biweekly"@ && days == 14 && months == 0
    ||| cadence == "monthly"@ && days == 0 && months == 1
    ||| cadence == "quarterly"@ && days == 0 && months == 3
    ||| cadence == "yearly"@ && days == 0 && months == 12
}

/// A step of a cadence adds its days, or moves on by its months; no other cadence has a step.
pub proof fn law_step(ts: i64, cadence: Seq<char>, days: int, months: u32)
    ensures
        is_step(cadence, days, months as int) && days > 0 && ts + days * 86_400 <= i64::MAX
            ==> occurrence_after(ts, cadence) is Some && occurrence_after(ts, cadence)->0 == ts
            + days * 86_400,
        is_step(cadence, days, months as int) && months > 0 ==> occurrence_after(ts, cadence)
            == plus_months(ts, months),
        (forall|d: int, m: int| !#[trigger] is_step(cadence, d, m)) ==> occurrence_after(ts, cadence)
            is None,
        known_cadence(cadence) <==> exists|d: int, m: int| #[trigger] is_step(cadence, d, m),
{
    reveal_strlit("weekly");
    reveal_strlit("biweekly");
    reveal_strlit("monthly");
    reveal_strlit("quarterly");
    reveal_strlit("yearly");
    assert("weekly"@.len() == 6 && "biweekly"@.len() == 8 && "monthly"@.len() == 7);
    assert("quarterly"@.len() == 9 && "yearly"@.len() == 6);
    assert("weekly"@[0] == 'w' && "yearly"@[0] == 'y');
    if known_cadence(cadence) {
        assert(is_step("weekly"@, 7, 0) && is_step("biweekly"@, 14, 0));
        assert(is_step("monthly"@, 0, 1) && is_step("quarterly"@, 0, 3));
        assert(is_step("yearly"@, 0, 12));
    }
}

/// The next charge is the stored date or the first step after it that is not in the past, as
/// long as it is fewer than twelve hundred steps away.
pub proof fn law_next_charge(start: i64, cadence: Seq<char>, now: i64, due: i64, n: nat)
    requires
        is_first_due(due, n, start, cadence, now),
        known_cadence(cadence),
        valid_instant(start),
        n < 1200,
    ensures
        next_charge(start, Some(cadence), now) == Some(due),
{
    if start < now {
        lemma_projected(start, cadence, now, due, n, 0, 1200);
    } else {
        if n > 0 {
            assert(occurrence(start, cadence, 0) is Some);
        }
    }
}

proof fn lemma_projected(
    start: i64,
    cadence: Seq<char>,
    now: i64,
    due: i64,
    n: nat,
    k: nat,
    steps: nat,
)
    requires
        is_first_due(due, n, start, cadence, now),
        k <= n,
        n < k + steps,
        occurrence(start, cadence, k) is Some,
    ensures
        projected(occurrence(start, cadence, k)->0, cadence, now, steps) == Some(due),
    decreases steps,
{
    let t = occurrence(start, cadence, k)->0;
    if k == n {
        assert(t == due);
    } else {
        assert(t < now);
        assert(occurrence(start, cadence, k + 1) == occurrence_after(t, cadence));
        if k + 1 < n {
            assert(occurrence(start, cadence, k + 1) is Some);
        }
        lemma_projected(start, cadence, now, due, n, k + 1, (steps - 1) as nat);
    }
}

// ---------------------------------------------------------------------------
// Obligations
// ---------------------------------------------------------------------------

/// Whether an entry is the next charge of a recorded obligation: its amount, its name and the
/// day it comes next.
pub open spec fn is_charge_of(d: DebtScheduled, s: SubscriptionRecord, now: i64) -> bool {
    &&& s.provider_kind@ == "recurring"@
    &&& s.amount_cents == Some(d.amount)
    &&& s.next_charge_at is Some
    &&& next_charge(s.next_charge_at->0, opt_text(s.cadence), now) == Some(d.due_at)
    &&& d.description@ == s.name@
}

/// Whether an entry is the next charge of one of the records.
pub open spec fn is_charge_of_one(d: DebtScheduled, subs: Seq<SubscriptionRecord>, now: i64) -> bool {
    exists|k: int| 0 <= k < subs.len() && is_charge_of(d, #[trigger] subs[k], now)
}

/// Whether some entry is the next charge of a record.
pub open spec fn is_scheduled(ds: Seq<DebtScheduled>, s: SubscriptionRecord, now: i64) -> bool {
    exists|i: int| 0 <= i < ds.len() && is_charge_of(#[trigger] ds[i], s, now)
}

proof fn lemma_obligations(subs: Seq<SubscriptionRecord>, now: i64)
    ensures
        forall|i: int|
            0 <= i < obligations(subs, now).len() ==> is_charge_of_one(
                #[trigger] obligations(subs, now)[i],
                subs,
                now,
            ),
        forall|k: int|
            0 <= k < subs.len() && owes_next(#[trigger] subs[k], now) ==> is_scheduled(
                obligations(subs, now),
                subs[k],
                now,
            ),
    decreases subs.len(),
{
    if subs.len() > 0 {
        let n = subs.len() - 1;
        let d = subs.drop_last();
        lemma_obligations(d, now);
        let before = obligations(d, now);
        let after = obligations(subs, now);
        assert forall|i: int| 0 <= i < after.len() implies is_charge_of_one(
            #[trigger] after[i],
            subs,
            now,
        ) by {
            if i < before.len() {
                assert(after[i] == before[i]);
                let k = choose|k: int| 0 <= k < d.len() && is_charge_of(before[i], #[trigger] d[k], now);
                assert(is_charge_of(after[i], subs[k], now));
            } else {
                assert(is_charge_of(after[i], subs[n], now));
            }
        }
        assert forall|k: int| 0 <= k < subs.len() && owes_next(#[trigger] subs[k], now) implies is_scheduled(
            after,
            subs[k],
            now,
        ) by {
            if k < n {
                assert(d[k] == subs[k]);
                let i = choose|i: int|
                    0 <= i < before.len() && is_charge_of(#[trigger] before[i], d[k], now);
                assert(is_charge_of(after[i], subs[k], now));
            } else {
                assert(is_charge_of(after[before.len() as int], subs[k], now));
            }
        }
    }
}

/// Whether a record is an obligation that comes again: it is recurring and has an amount and a
/// date from which its cadence leads on.
pub open spec fn owes_next(s: SubscriptionRecord, now: i64) -> bool {
    &&& s.provider_kind@ == "recurring"@
    &&& s.amount_cents is Some
    &&& s.next_charge_at is Some
    &&& next_charge(s.next_charge_at->0, opt_text(s.cadence), now) is Some
}

/// The upcoming obligations are the next charges of the recurring records that have one, and no
/// other; the soonest comes first, and none is in the past.
pub proof fn law_upcoming_obligations(
    out: Seq<DebtScheduled>,
    subs: Seq<SubscriptionRecord>,
    now: i64,
)
    requires
        out == upcoming_obligations(subs, now),
    ensures
        forall|i: int|
            0 <= i < out.len() ==> is_charge_of_one(#[trigger] out[i], subs, now) && out[i].due_at
                >= now,
        forall|k: int|
            0 <= k < subs.len() && owes_next(#[trigger] subs[k], now) ==> is_scheduled(
                out,
                subs[k],
                now,
            ),
        forall|i: int, j: int|
            0 <= i < j < out.len() ==> (#[trigger] out[i]).due_at <= (#[trigger] out[j]).due_at,
{
    let all = obligations(subs, now);
    let due = |d: DebtScheduled| d.due_at;
    assert(due_dates(all) =~= all.map_values(due));
    law_sorting_keeps_items(all, due);
    lemma_same_items(out, all);
    lemma_obligations(subs, now);
    assert forall|i: int| 0 <= i < out.len() implies is_charge_of_one(#[trigger] out[i], subs, now)
        && out[i].due_at >= now by {
        assert(out.contains(out[i]));
        let a = choose|a: int| 0 <= a < all.len() && all[a] == out[i];
        assert(is_charge_of_one(all[a], subs, now));
        let k = choose|k: int| 0 <= k < subs.len() && is_charge_of(out[i], #[trigger] subs[k], now);
        crate::debt::law_projection_not_past(
            subs[k].next_charge_at->0,
            opt_text(subs[k].cadence),
            now,
        );
    }
    assert forall|k: int| 0 <= k < subs.len() && owes_next(#[trigger] subs[k], now) implies is_scheduled(
        out,
        subs[k],
        now,
    ) by {
        let a = choose|a: int| 0 <= a < all.len() && is_charge_of(#[trigger] all[a], subs[k], now);
        assert(all.contains(all[a]));
        assert(out.contains(all[a]));
        let i = choose|i: int| 0 <= i < out.len() && out[i] == all[a];
        assert(is_charge_of(out[i], subs[k], now));
    }
    assert forall|i: int, j: int| 0 <= i < j < out.len() implies (#[trigger] out[i]).due_at <= (
    #[trigger] out[j]).due_at by {
        assert(due(out[i]) <= due(out[j]));
    }
}

// ---------------------------------------------------------------------------
// Periods
// ---------------------------------------------------------------------------

/// A period begins at midnight of the first day of its first month and ends its number of months
/// later: one for a month, twelve for a year and for the year to date. All time is everything
/// from the epoch on.
pub proof fn law_scope(now: i64, start: i64, end: i64)
    ensures
        utc_midnight(utc_fields(now).0, utc_fields(now).1, 1) == Some(start) && plus_months(start, 1)
            == Some(end) ==> scope_window(now, Scope::Month) == (start, end),
        utc_midnight(utc_fields(now).0, 1, 1) == Some(start) && plus_months(start, 12) == Some(end)
            ==> scope_window(now, Scope::Year) == (start, end) && scope_window(now, Scope::Ytd) == (
            start,
            end,
        ),
        scope_window(now, Scope::All) == (0i64, i64::MAX),
{
}

/// What is answered is the schedule of the records that are switched on, as long as the calendar
/// reaches past it.
pub proof fn law_answered(r: Option<Vec<DebtScheduled>>, rows: Seq<SubscriptionRecord>, now: i64)
    requires
        is_answer(r, rows, now),
        rows.len() <= i64::MAX,
    ensures
        r is Some ==> exists|subs: Seq<SubscriptionRecord>| #[trigger]
            subs.to_multiset() == rows.filter(|s: SubscriptionRecord| s.active).to_multiset()
                && r->0@ == upcoming_obligations(subs, now),
{
    let subs = active_subscriptions(rows);
    crate::laws::lists::law_active_subscriptions(subs, rows);
}

} // verus!
