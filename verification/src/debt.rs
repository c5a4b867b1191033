//! Debts, their scheduled payments, and declared recurring obligations.

use crate::db::SubscriptionRecord;
use crate::ledger::list_active_subscriptions;
use crate::money::Cents;
use crate::order::stable_indices;
use crate::rpc::{DebtBalance, DebtScheduled, Scope};
use crate::text::str_eq;
use crate::time::{add_months, midnight_utc, now_secs, parse_utc, utc_clock, Clock};
use vstd::prelude::*;

verus! {

use crate::ledger::{active_subscriptions, record_names};
use crate::money::clamp;
use crate::order::{
    kept, law_stable_order, lemma_kept, lemma_kept_from, ranks, sorted_by_keys, stable_order,
};
use crate::text::opt_text;
use crate::time::{
    day_number, is_day, is_leap, later_month, lemma_day_in_year, lemma_month_start,
    lemma_year_start, month_length, plus_months, utc_fields, utc_midnight, valid_instant,
    MAX_INSTANT, MIN_INSTANT,
};

/// Open debts and their payments within a window.
#[derive(Clone, Debug)]
pub struct DebtView {
    pub open: Vec<DebtBalance>,
    pub scheduled: Vec<DebtScheduled>,
    pub total_open: Cents,
}

/// What is owed in all, added up from the first account on.
pub open spec fn owed(open: Seq<DebtBalance>) -> Cents
    decreases open.len(),
{
    if open.len() == 0 {
        Cents(0)
    } else {
        Cents(clamp(owed(open.drop_last()).0 + open.last().balance.0))
    }
}

/// The debt view of the open debt accounts and the payments that fall into a window.
pub fn debt_view(open: Vec<DebtBalance>, scheduled: Vec<DebtScheduled>) -> (r: DebtView)
    ensures
        r.open == open,
        r.scheduled == scheduled,
        r.total_open == owed(open@),
{
    let mut total: Cents = Cents(0);
    let mut i: usize = 0;
    while i < open.len()
        invariant
            i <= open.len(),
            total == owed(open@.take(i as int)),
        decreases open.len() - i,
    {
        assert(open@.take(i + 1).drop_last() == open@.take(i as int));
        total = total + open[i].balance;
        i = i + 1;
    }
    assert(open@.take(open@.len() as int) == open@);
    DebtView { open, scheduled, total_open: total }
}

/// How many steps a projection takes at most.
pub const MAX_STEPS: u32 = 1200;

/// The length of a fixed step in seconds; zero for a cadence of calendar months.
pub open spec fn fixed_step(cadence: Seq<char>) -> int {
    if cadence == "weekly"@ {
        604_800
    } else if cadence == "biweekly"@ {
        1_209_600
    } else {
        0
    }
}

/// Whether a cadence is one that can be projected.
pub open spec fn known_cadence(cadence: Seq<char>) -> bool {
    ||| cadence == "monthly"@
    ||| cadence == "quarterly"@
    ||| cadence == "yearly"@
    ||| cadence == "weekly"@
    ||| cadence == "biweekly"@
}

/// The occurrence after an occurrence. Monthly and longer cadences step by whole calendar
/// months, the shorter ones by a fixed number of days; there is none for an unknown cadence.
pub open spec fn occurrence_after(ts: i64, cadence: Seq<char>) -> Option<i64> {
    if cadence == "monthly"@ {
        plus_months(ts, 1)
    } else if cadence == "quarterly"@ {
        plus_months(ts, 3)
    } else if cadence == "yearly"@ {
        plus_months(ts, 12)
    } else if fixed_step(cadence) > 0 {
        Some((ts + fixed_step(cadence)) as i64)
    } else {
        None
    }
}

/// Whether an instant is the start of a month.
pub open spec fn is_month_start(ts: i64) -> bool {
    exists|year: i32, month: u32| #[trigger] utc_midnight(year, month, 1) == Some(ts)
}

/// The first occurrence from `ts` on that is not before `now`, within a number of steps.
pub open spec fn projected(ts: i64, cadence: Seq<char>, now: i64, steps: nat) -> Option<i64>
    decreases steps,
{
    if steps == 0 {
        None
    } else if ts >= now {
        Some(ts)
    } else {
        match occurrence_after(ts, cadence) {
            Some(t) => projected(t, cadence, now, (steps - 1) as nat),
            None => None,
        }
    }
}

/// The next charge of an obligation whose stored date is `start`; none where the cadence is
/// unknown, so that no date is guessed.
pub open spec fn next_charge(start: i64, cadence: Option<Seq<char>>, now: i64) -> Option<i64> {
    match cadence {
        Some(c) => if !known_cadence(c) {
            None
        } else if start >= now {
            Some(start)
        } else if !valid_instant(start) {
            None
        } else {
            projected(start, c, now, MAX_STEPS as nat)
        },
        None => None,
    }
}

/// No fixed step of a projection leaves the calendar.
pub open spec fn steps_fit(ts: int, step: int, now: i64, steps: nat) -> bool
    decreases steps,
{
    if steps == 0 || ts >= now || step == 0 {
        true
    } else {
        &&& MIN_INSTANT <= ts + step <= MAX_INSTANT
        &&& steps_fit(ts + step, step, now, (steps - 1) as nat)
    }
}

/// No fixed step of an obligation's projection leaves the calendar.
pub open spec fn projection_fits(start: i64, cadence: Option<Seq<char>>, now: i64) -> bool {
    start < now && valid_instant(start) && cadence is Some ==> steps_fit(
        start as int,
        fixed_step(cadence->0),
        now,
        MAX_STEPS as nat,
    )
}

/// The occurrence after an occurrence.
pub fn bump(ts: i64, cadence: &str) -> (r: Option<i64>)
    requires
        valid_instant(ts),
        fixed_step(cadence@) > 0 ==> MIN_INSTANT <= ts + fixed_step(cadence@) <= MAX_INSTANT,
    ensures
        r == occurrence_after(ts, cadence@),
        r is Some ==> valid_instant(r->0),
        r is Some && fixed_step(cadence@) > 0 ==> r->0 == ts + fixed_step(cadence@),
        r is Some && fixed_step(cadence@) == 0 && is_month_start(ts) ==> is_month_start(r->0),
{
    proof {
        reveal_strlit("monthly");
        reveal_strlit("quarterly");
        reveal_strlit("yearly");
        reveal_strlit("weekly");
        reveal_strlit("biweekly");
        assert("monthly"@[0] == 'm' && "quarterly"@[0] == 'q' && "yearly"@[0] == 'y');
        assert("weekly"@[0] == 'w' && "biweekly"@[0] == 'b');
    }
    if str_eq(cadence, "monthly") {
        add_months(ts, 1)
    } else if str_eq(cadence, "quarterly") {
        add_months(ts, 3)
    } else if str_eq(cadence, "yearly") {
        add_months(ts, 12)
    } else if str_eq(cadence, "weekly") {
        Some(ts + 7 * 86_400)
    } else if str_eq(cadence, "biweekly") {
        Some(ts + 14 * 86_400)
    } else {
        None
    }
}

fn is_known(cadence: &str) -> (r: bool)
    ensures
        r == known_cadence(cadence@),
{
    str_eq(cadence, "monthly") || str_eq(cadence, "quarterly") || str_eq(cadence, "yearly")
        || str_eq(cadence, "weekly") || str_eq(cadence, "biweekly")
}

/// Projects a recurring charge from its stored date to the next occurrence that is not in
/// the past. There is none for an unknown cadence, nor where the steps run out. A charge on
/// the first of a month stays on the first.
pub fn project_next(start: i64, cadence: Option<&str>, now: i64) -> (r: Option<i64>)
    requires
        projection_fits(
            start,
            match cadence {
                Some(c) => Some(c@),
                None => None,
            },
            now,
        ),
    ensures
        r == next_charge(
            start,
            match cadence {
                Some(c) => Some(c@),
                None => None,
            },
            now,
        ),
        r is Some ==> r->0 >= now,
        r is Some && is_month_start(start) && fixed_step(cadence->0@) == 0 ==> is_month_start(r->0),
{
    let cad: &str = match cadence {
        Some(c) => c,
        None => {
            return None;
        },
    };
    if !is_known(cad) {
        return None;
    }
    if start >= now {
        return Some(start);
    }
    let mut ts: i64 = match parse_utc(start) {
        Some(t) => t,
        None => {
            return None;
        },
    };
    let mut left: u32 = MAX_STEPS;
    while left > 0
        invariant
            start < now,
            valid_instant(start),
            cadence == Some(cad),
            known_cadence(cad@),
            valid_instant(ts),
            is_month_start(start) && fixed_step(cad@) == 0 ==> is_month_start(ts),
            left <= MAX_STEPS,
            steps_fit(ts as int, fixed_step(cad@), now, left as nat),
            projected(ts, cad@, now, left as nat) == projected(start, cad@, now, MAX_STEPS as nat),
        decreases left,
    {
        if ts >= now {
            return Some(ts);
        }
        match bump(ts, cad) {
            Some(t) => {
                ts = t;
            },
            None => {
                return None;
            },
        }
        left = left - 1;
    }
    None
}

/// A projected charge is never in the past.
pub proof fn law_projection_not_past(start: i64, cadence: Option<Seq<char>>, now: i64)
    ensures
        next_charge(start, cadence, now) is Some ==> next_charge(start, cadence, now)->0 >= now,
{
    if start < now && valid_instant(start) && cadence is Some {
        lemma_projected_not_past(start, cadence->0, now, MAX_STEPS as nat);
    }
}

proof fn lemma_projected_not_past(ts: i64, cadence: Seq<char>, now: i64, steps: nat)
    ensures
        projected(ts, cadence, now, steps) is Some ==> projected(ts, cadence, now, steps)->0 >= now,
    decreases steps,
{
    if steps > 0 && ts < now && occurrence_after(ts, cadence) is Some {
        lemma_projected_not_past(occurrence_after(ts, cadence)->0, cadence, now, (steps - 1) as nat);
    }
}

/// The occurrence that comes a number of steps after a stored date.
pub open spec fn occurrence(start: i64, cadence: Seq<char>, n: nat) -> Option<i64>
    decreases n,
{
    if n == 0 {
        Some(start)
    } else {
        match occurrence(start, cadence, (n - 1) as nat) {
            Some(t) => occurrence_after(t, cadence),
            None => None,
        }
    }
}

/// Whether an occurrence is the first one that is not in the past.
pub open spec fn is_first_due(due: i64, n: nat, start: i64, cadence: Seq<char>, now: i64) -> bool {
    &&& occurrence(start, cadence, n) == Some(due)
    &&& due >= now
    &&& forall|k: nat|
        k < n ==> (#[trigger] occurrence(start, cadence, k)) is Some && occurrence(
            start,
            cadence,
            k,
        )->0 < now
}

proof fn lemma_first_due(start: i64, cadence: Seq<char>, now: i64, done: nat, ts: i64, steps: nat)
    requires
        occurrence(start, cadence, done) == Some(ts),
        forall|k: nat|
            k < done ==> (#[trigger] occurrence(start, cadence, k)) is Some && occurrence(
                start,
                cadence,
                k,
            )->0 < now,
        projected(ts, cadence, now, steps) is Some,
    ensures
        exists|n: nat| #[trigger]
            is_first_due(projected(ts, cadence, now, steps)->0, n, start, cadence, now),
    decreases steps,
{
    if ts >= now {
        assert(is_first_due(ts, done, start, cadence, now));
    } else {
        let t = occurrence_after(ts, cadence)->0;
        assert(occurrence(start, cadence, done + 1) == Some(t));
        lemma_first_due(start, cadence, now, done + 1, t, (steps - 1) as nat);
    }
}

/// A projected charge is the first occurrence that is not in the past: all before it are.
pub proof fn law_projection_is_first(start: i64, cadence: Seq<char>, now: i64)
    requires
        next_charge(start, Some(cadence), now) is Some,
    ensures
        exists|n: nat| #[trigger]
            is_first_due(next_charge(start, Some(cadence), now)->0, n, start, cadence, now),
{
    let due = next_charge(start, Some(cadence), now)->0;
    if start >= now {
        assert(is_first_due(due, 0, start, cadence, now));
    } else {
        lemma_first_due(start, cadence, now, 0, start, MAX_STEPS as nat);
        let n = choose|n: nat| #[trigger]
            is_first_due(
                projected(start, cadence, now, MAX_STEPS as nat)->0,
                n,
                start,
                cadence,
                now,
            );
        assert(is_first_due(due, n, start, cadence, now));
    }
}

/// Without a known cadence there is no next charge: no date is guessed.
pub proof fn law_unknown_cadence_is_skipped(start: i64, cadence: Option<Seq<char>>, now: i64)
    requires
        cadence is Some ==> !known_cadence(cadence->0),
    ensures
        next_charge(start, cadence, now) is None,
{
}

/// A projected charge stays on its own: projecting it again changes nothing.
pub proof fn law_projection_is_stable(start: i64, cadence: Option<Seq<char>>, now: i64)
    requires
        next_charge(start, cadence, now) is Some,
    ensures
        next_charge(next_charge(start, cadence, now)->0, cadence, now) == next_charge(
            start,
            cadence,
            now,
        ),
{
    law_projection_not_past(start, cadence, now);
}

/// The upcoming payment of a declared obligation: only of kind `recurring`, with an amount
/// and a date, and with a cadence that can be projected.
pub open spec fn obligation(s: SubscriptionRecord, now: i64) -> Option<DebtScheduled> {
    if s.provider_kind@ != "recurring"@ {
        None
    } else {
        match (s.amount_cents, s.next_charge_at) {
            (Some(amount), Some(start)) => match next_charge(start, opt_text(s.cadence), now) {
                Some(due) => Some(
                    DebtScheduled { due_at: due, amount, description: s.name },
                ),
                None => None,
            },
            _ => None,
        }
    }
}

/// The upcoming payments of the declared obligations, in the order of the records.
pub open spec fn obligations(subs: Seq<SubscriptionRecord>, now: i64) -> Seq<DebtScheduled>
    decreases subs.len(),
{
    if subs.len() == 0 {
        Seq::empty()
    } else {
        match obligation(subs.last(), now) {
            Some(d) => obligations(subs.drop_last(), now).push(d),
            None => obligations(subs.drop_last(), now),
        }
    }
}

pub open spec fn due_dates(ds: Seq<DebtScheduled>) -> Seq<i64> {
    ds.map_values(|d: DebtScheduled| d.due_at)
}

/// The declared obligations, the soonest due first.
pub open spec fn upcoming_obligations(subs: Seq<SubscriptionRecord>, now: i64) -> Seq<
    DebtScheduled,
> {
    sorted_by_keys(obligations(subs, now), due_dates(obligations(subs, now)))
}

/// No fixed step of a record's projection leaves the calendar.
pub open spec fn record_fits(s: SubscriptionRecord, now: i64) -> bool {
    s.provider_kind@ == "recurring"@ && s.amount_cents is Some && s.next_charge_at is Some
        ==> projection_fits(s.next_charge_at->0, opt_text(s.cadence), now)
}

/// The upcoming payment of a declared obligation.
fn obligation_of(s: &SubscriptionRecord, now: i64) -> (r: Option<DebtScheduled>)
    requires
        record_fits(*s, now),
    ensures
        r == obligation(*s, now),
{
    if !str_eq(s.provider_kind.as_str(), "recurring") {
        return None;
    }
    match (s.amount_cents, s.next_charge_at) {
        (Some(amount), Some(start)) => {
            let cadence: Option<&str> = match &s.cadence {
                Some(c) => Some(c.as_str()),
                None => None,
            };
            match project_next(start, cadence, now) {
                Some(due) => Some(
                    DebtScheduled { due_at: due, amount, description: s.name.clone() },
                ),
                None => None,
            }
        },
        _ => None,
    }
}

/// The declared obligations at a given time, from the stored rows: those of the active
/// ones, the soonest due first. They are no debt and count toward no total.
pub fn obligations_at(rows: &Vec<SubscriptionRecord>, now: i64) -> (r: Vec<DebtScheduled>)
    requires
        rows@.len() <= i64::MAX,
        forall|i: int|
            0 <= i < active_subscriptions(rows@).len() ==> record_fits(
                #[trigger] active_subscriptions(rows@)[i],
                now,
            ),
    ensures
        r@ == upcoming_obligations(active_subscriptions(rows@), now),
{
    let subs: Vec<SubscriptionRecord> = list_active_subscriptions(rows);
    let mut found: Vec<DebtScheduled> = Vec::new();
    let mut keys: Vec<i64> = Vec::new();
    let mut i: usize = 0;
    assert(keys@ =~= due_dates(found@));
    while i < subs.len()
        invariant
            i <= subs.len(),
            forall|k: int| 0 <= k < subs@.len() ==> record_fits(#[trigger] subs@[k], now),
            found@ == obligations(subs@.take(i as int), now),
            keys@ == due_dates(found@),
        decreases subs.len() - i,
    {
        assert(subs@.take(i + 1).drop_last() == subs@.take(i as int));
        match obligation_of(&subs[i], now) {
            Some(d) => {
                keys.push(d.due_at);
                found.push(d);
                assert(keys@ =~= due_dates(found@));
            },
            None => {},
        }
        i = i + 1;
    }
    assert(subs@.take(subs@.len() as int) == subs@);
    let order: Vec<usize> = stable_indices(&keys);
    let ghost p = stable_order(keys@, keys@.len());
    let mut out: Vec<DebtScheduled> = Vec::new();
    let mut k: usize = 0;
    while k < order.len()
        invariant
            k <= order.len(),
            order@.len() == found@.len(),
            order@.map_values(|x: usize| x as int) == p,
            forall|j: int| 0 <= j < order@.len() ==> 0 <= (#[trigger] order@[j]) < found@.len(),
            out@.len() == k,
            forall|j: int| 0 <= j < k ==> #[trigger] out@[j] == found@[p[j]],
        decreases order.len() - k,
    {
        assert(order@.map_values(|x: usize| x as int)[k as int] == order@[k as int]);
        out.push(found[order[k]].clone());
        k = k + 1;
    }
    assert(out@ =~= upcoming_obligations(subs@, now));
    out
}

proof fn lemma_steps_fit(ts: int, step: int, now: i64, steps: nat)
    requires
        0 <= step,
        MIN_INSTANT <= ts,
        now + step <= MAX_INSTANT,
    ensures
        steps_fit(ts, step, now, steps),
    decreases steps,
{
    if steps > 0 && ts < now && step > 0 {
        lemma_steps_fit(ts + step, step, now, (steps - 1) as nat);
    }
}

/// Away from the end of the calendar every record can be projected.
pub proof fn lemma_records_fit(subs: Seq<SubscriptionRecord>, now: i64)
    requires
        now <= MAX_INSTANT - 1_209_600,
    ensures
        forall|i: int| 0 <= i < subs.len() ==> record_fits(#[trigger] subs[i], now),
{
    assert forall|i: int| 0 <= i < subs.len() implies record_fits(#[trigger] subs[i], now) by {
        let s = subs[i];
        if s.next_charge_at is Some && s.cadence is Some && valid_instant(s.next_charge_at->0) {
            lemma_steps_fit(
                s.next_charge_at->0 as int,
                fixed_step(s.cadence->0@),
                now,
                MAX_STEPS as nat,
            );
        }
    }
}

/// The obligations at a given time, unless that is too close to the end of the calendar.
pub open spec fn is_answer(
    r: Option<Vec<DebtScheduled>>,
    rows: Seq<SubscriptionRecord>,
    now: i64,
) -> bool {
    match r {
        Some(out) => now <= MAX_INSTANT - 1_209_600 && out@ == upcoming_obligations(
            active_subscriptions(rows),
            now,
        ),
        None => now > MAX_INSTANT - 1_209_600,
    }
}

/// The declared obligations as of now, from the stored rows: those of the active ones, the
/// soonest due first. Where the clock stands within two weeks of the end of the calendar,
/// or beyond it, there is no answer.
pub fn recurring_obligations(rows: &Vec<SubscriptionRecord>) -> (r: Option<Vec<DebtScheduled>>)
    requires
        rows@.len() <= i64::MAX,
    ensures
        exists|now: i64| #[trigger] is_answer(r, rows@, now),
{
    let now: i64 = now_secs();
    if now > MAX_INSTANT - 1_209_600 {
        assert(is_answer(None, rows@, now));
        return None;
    }
    proof {
        lemma_records_fit(active_subscriptions(rows@), now);
    }
    let out: Vec<DebtScheduled> = obligations_at(rows, now);
    assert(is_answer(Some(out), rows@, now));
    Some(out)
}

/// The half-open window between the start of a period and the start of the next one. A
/// missing start counts as the epoch, a missing end as the start.
pub open spec fn window(start: Option<i64>, end: Option<i64>) -> (i64, i64) {
    match (start, end) {
        (Some(s), Some(e)) => (s, e),
        (Some(s), None) => (s, s),
        (None, _) => (0, 0),
    }
}

/// The window between the start of a period and the start of the next one.
pub fn window_from(start: Option<i64>, end: Option<i64>) -> (r: (i64, i64))
    ensures
        r == window(start, end),
{
    match (start, end) {
        (Some(s), Some(e)) => (s, e),
        (Some(s), None) => (s, s),
        (None, _) => (0, 0),
    }
}

/// The window that begins on the first of a month and lasts a number of months.
pub open spec fn months_from(year: i32, month: u32, months: u32) -> (i64, i64) {
    let start = utc_midnight(year, month, 1);
    window(
        start,
        match start {
            Some(s) => plus_months(s, months),
            None => None,
        },
    )
}

/// The window of a scope at a given time.
pub open spec fn scope_window(now: i64, scope: Scope) -> (i64, i64) {
    match scope {
        Scope::Month => months_from(utc_fields(now).0, utc_fields(now).1, 1),
        Scope::Year => months_from(utc_fields(now).0, 1, 12),
        Scope::Ytd => months_from(utc_fields(now).0, 1, 12),
        Scope::All => (0, i64::MAX),
    }
}

fn calendar_window(year: i32, month: u32, months: u32) -> (r: (i64, i64))
    requires
        months > 0,
    ensures
        r == months_from(year, month, months),
        r.0 <= r.1,
        MIN_INSTANT <= r.1,
        -262143 <= year <= 262141 && 1 <= month <= 12 && months <= 12 ==> r.0 == 86_400 * day_number(
            year as int,
            month as int,
            1,
        ) && r.1 == 86_400 * day_number(
            later_month(year, month, months).0 as int,
            later_month(year, month, months).1 as int,
            1,
        ),
{
    let start: Option<i64> = midnight_utc(year, month, 1);
    let end: Option<i64> = match start {
        Some(s) => add_months(s, months),
        None => None,
    };
    proof {
        if -262143 <= year <= 262141 && 1 <= month <= 12 && months <= 12 {
            let later = later_month(year, month, months);
            assert(utc_midnight(year, month, 1) == start);
            assert(is_day(later.0 as int, later.1 as int, 1));
            lemma_instant_in_range(year as int, month as int);
            lemma_instant_in_range(later.0 as int, later.1 as int);
        }
    }
    window_from(start, end)
}

/// The start of a month in seconds fits in 64 bits.
proof fn lemma_instant_in_range(year: int, month: int)
    requires
        is_day(year, month, 1),
    ensures
        i64::MIN <= 86_400 * day_number(year, month, 1) <= i64::MAX,
{
    let p = year - 1;
    assert(4 * (p / 4) <= p < 4 * (p / 4) + 4);
    assert(100 * (p / 100) <= p < 100 * (p / 100) + 100);
    assert(400 * (p / 400) <= p < 400 * (p / 400) + 400);
}

/// Whether a window is the calendar month, or the calendar year, of an instant: it holds
/// the instant, and it is exactly as long as the month or the year.
pub open spec fn is_period(w: (i64, i64), now: i64, scope: Scope) -> bool {
    let year = utc_fields(now).0 as int;
    let month = utc_fields(now).1 as int;
    &&& w.0 <= now < w.1
    &&& w.1 - w.0 == 86_400 * match scope {
        Scope::Month => month_length(year, month) as int,
        _ => if is_leap(year) {
            366
        } else {
            365
        },
    }
}

/// The half-open window of a scope: the calendar month or year (UTC) that `now` falls in,
/// up to the exact start of the next one, so that a short month does not run over into the
/// next (in the last year of the calendar there is no next one).
pub fn scope_bounds_at(now: i64, scope: Scope) -> (r: (i64, i64))
    requires
        valid_instant(now),
    ensures
        r == scope_window(now, scope),
        r.0 <= r.1,
        MIN_INSTANT <= r.1,
        scope != Scope::All && utc_fields(now).0 < 262142 ==> is_period(r, now, scope),
{
    let clock: Clock = match utc_clock(now) {
        Some(c) => c,
        None => {
            return (0, 0);
        },
    };
    proof {
        let f = utc_fields(now);
        lemma_day_in_year(f.0 as int, f.1 as int, f.2 as int);
        if f.0 < 262142 {
            let (y, m) = if f.1 == 12 {
                (f.0 + 1, 1int)
            } else {
                (f.0 as int, f.1 + 1)
            };
            lemma_month_start(y, m);
            lemma_year_start(f.0 + 1);
        }
    }
    match scope {
        Scope::Month => calendar_window(clock.year, clock.month, 1),
        Scope::Year => calendar_window(clock.year, 1, 12),
        Scope::Ytd => calendar_window(clock.year, 1, 12),
        Scope::All => (0, i64::MAX),
    }
}

/// The half-open window of a scope, as of now. Where the clock stands outside the calendar
/// there is none.
pub fn scope_bounds(scope: Scope) -> (r: Option<(i64, i64)>)
    ensures
        exists|now: i64|
            #![trigger valid_instant(now)]
            r == if valid_instant(now) {
                Some(scope_window(now, scope))
            } else {
                None
            },
{
    let now: i64 = now_secs();
    match parse_utc(now) {
        Some(t) => Some(scope_bounds_at(t, scope)),
        None => None,
    }
}

proof fn lemma_obligation_of_record(subs: Seq<SubscriptionRecord>, now: i64, name: Seq<char>)
    requires
        forall|i: int| 0 <= i < subs.len() ==> (#[trigger] subs[i]).name@ != name,
    ensures
        forall|i: int|
            0 <= i < obligations(subs, now).len() ==> (#[trigger] obligations(
                subs,
                now,
            )[i]).description@ != name,
    decreases subs.len(),
{
    if subs.len() > 0 {
        let d = subs.drop_last();
        assert forall|i: int| 0 <= i < d.len() implies (#[trigger] d[i]).name@ != name by {
            assert(d[i] == subs[i]);
        }
        lemma_obligation_of_record(d, now, name);
        assert(subs[subs.len() - 1].name@ != name);
        assert forall|i: int| 0 <= i < obligations(subs, now).len() implies (
        #[trigger] obligations(subs, now)[i]).description@ != name by {
            if i < obligations(d, now).len() {
                assert(obligations(subs, now)[i] == obligations(d, now)[i]);
            }
        }
    }
}

/// A deactivated obligation is off the schedule: a name whose records are all inactive has no
/// upcoming payment.
pub proof fn law_inactive_is_off_schedule(
    rows: Seq<SubscriptionRecord>,
    now: i64,
    name: Seq<char>,
)
    requires
        forall|i: int| 0 <= i < rows.len() && (#[trigger] rows[i]).name@ == name ==> !rows[i].active,
    ensures
        ({
            let due = upcoming_obligations(active_subscriptions(rows), now);
            forall|i: int| 0 <= i < due.len() ==> (#[trigger] due[i]).description@ != name
        }),
{
    let p = |s: SubscriptionRecord| s.active;
    let on = kept(rows, p);
    lemma_kept(rows, p);
    lemma_kept_from(rows, p);
    assert forall|i: int| 0 <= i < on.len() implies (#[trigger] on[i]).name@ != name by {
        assert(rows.contains(on[i]));
        assert(p(on[i]));
    }
    let subs = active_subscriptions(rows);
    let ks = ranks(record_names(on));
    law_stable_order(ks, ks.len());
    assert forall|i: int| 0 <= i < subs.len() implies (#[trigger] subs[i]).name@ != name by {
        assert(subs[i] == on[stable_order(ks, ks.len())[i]]);
    }
    lemma_obligation_of_record(subs, now, name);
    let os = obligations(subs, now);
    law_stable_order(due_dates(os), os.len());
    let due = upcoming_obligations(subs, now);
    assert forall|i: int| 0 <= i < due.len() implies (#[trigger] due[i]).description@ != name by {
        assert(due[i] == os[stable_order(due_dates(os), os.len())[i]]);
    }
}

} // verus!
