//! Laws of the alerts: which providers are stale, and which rules fire.

use vstd::prelude::*;

verus! {

use crate::alerts::{
    are_stale, is_evaluated, is_fire_of, is_fire_of_rule, is_named, is_outcome, is_reading_of,
    is_stale_entry, last_in, log_after, log_of, max_age_of, named_balance, reminder_day,
    reminder_instant, rule_fires, rule_verdict, stale_reason, stale_rows, stored_rule_fires,
    AlertFire, AlertView, Firing, StaleProvider,
};
use crate::db::{Account, AlertRule, ProviderRow};
use crate::handler::Tables;
use crate::ids::AccountId;
use crate::json::Json;
use crate::money::Cents;
use crate::order::{first_index, how_many, kept, lemma_first_index_is_first, lemma_kept_is_filter};
use crate::text::{dec_int, trimmed};
use crate::time::{ast_instant, month_length, Clock};
use crate::watch::{armed, is_view_of};

// ---------------------------------------------------------------------------
// Stale providers
// ---------------------------------------------------------------------------

/// How long a provider may be silent: three hours where it is polled hourly, two days where it
/// is polled daily, nine days where it is polled weekly, and else what the rule allows. One that
/// is not polled by itself may be silent for ever.
pub open spec fn allowed_silence(cadence: Seq<char>, default_max: i64) -> Option<int> {
    if cadence == "manual"@ || cadence == "on_demand"@ {
        None
    } else if cadence == "hourly"@ {
        Some(3int * 60 * 60)
    } else if cadence == "daily"@ {
        Some(2int * 24 * 60 * 60)
    } else if cadence == "weekly"@ {
        Some(9int * 24 * 60 * 60)
    } else {
        Some(default_max as int)
    }
}

/// Whether a status tells that the last poll failed.
pub open spec fn is_failure(status: Seq<char>) -> bool {
    ||| status == "error"@
    ||| status == "stale"@
    ||| exists|e: Seq<char>| status == #[trigger] ("err:balance:"@ + e)
    ||| exists|e: Seq<char>| status == #[trigger] ("err:tx:"@ + e)
}

/// Whether a provider is stale: it is polled by itself, and its last poll failed or lies further
/// back than it may.
pub open spec fn is_stale(r: ProviderRow, now: i64, default_max: i64) -> bool {
    match allowed_silence(r.poll_cadence@, default_max) {
        Some(secs) => {
            ||| r.last_status is Some && is_failure(r.last_status->0@)
            ||| r.last_poll_at is Some && r.last_poll_at->0 + secs < now
        },
        None => false,
    }
}

proof fn lemma_begins(s: Seq<char>, head: Seq<char>)
    ensures
        crate::text::begins_with(s, head) <==> exists|e: Seq<char>| s == #[trigger] (head + e),
{
    if crate::text::begins_with(s, head) {
        assert(s =~= head + s.skip(head.len() as int));
    }
    if exists|e: Seq<char>| s == #[trigger] (head + e) {
        let e = choose|e: Seq<char>| s == #[trigger] (head + e);
        assert(s.take(head.len() as int) =~= head);
    }
}

/// A provider is stale exactly where its last poll failed or lies further back than it may.
pub proof fn law_stale(r: ProviderRow, now: i64, default_max: i64)
    ensures
        stale_reason(r, now, default_max) is Some <==> is_stale(r, now, default_max),
{
    if r.last_status is Some {
        lemma_begins(r.last_status->0@, "err:balance:"@);
        lemma_begins(r.last_status->0@, "err:tx:"@);
    }
}

/// The stale providers are listed in their order, one entry for each and none for any other, with
/// its name and its last poll.
pub proof fn law_stale_list(
    out: Seq<StaleProvider>,
    rows: Seq<ProviderRow>,
    now: i64,
    default_max: i64,
)
    requires
        are_stale(out, rows, now, default_max),
    ensures
        ({
            let found = rows.filter(|r: ProviderRow| is_stale(r, now, default_max));
            &&& out.len() == found.len()
            &&& forall|i: int|
                0 <= i < out.len() ==> (#[trigger] out[i]).kind@ == found[i].kind@ && out[i].label@
                    == found[i].label@ && out[i].last_status == found[i].last_status
                    && out[i].last_poll_at == found[i].last_poll_at
        }),
{
    lemma_stale_rows(rows, now, default_max);
    assert forall|i: int| 0 <= i < out.len() implies is_stale_entry(
        #[trigger] out[i],
        stale_rows(rows, now, default_max)[i],
        now,
        default_max,
    ) by {}
}

proof fn lemma_stale_rows(rows: Seq<ProviderRow>, now: i64, default_max: i64)
    ensures
        stale_rows(rows, now, default_max) == rows.filter(
            |r: ProviderRow| is_stale(r, now, default_max),
        ),
    decreases rows.len(),
{
    reveal(Seq::filter);
    if rows.len() > 0 {
        lemma_stale_rows(rows.drop_last(), now, default_max);
        law_stale(rows.last(), now, default_max);
    }
}

// ---------------------------------------------------------------------------
// Rules
// ---------------------------------------------------------------------------

/// Whether a name and the balances lead to an amount: the first account of that name, and the
/// first balance under its id.
pub open spec fn is_balance_named(view: AlertView, name: Seq<char>, amount: i64) -> bool {
    exists|a: int, b: int|
        0 <= a < view.accounts@.len() && 0 <= b < view.balances@.len() && (
        #[trigger] view.accounts@[a]).name@ == name && (forall|i: int|
            0 <= i < a ==> (#[trigger] view.accounts@[i]).name@ != name) && Some(
            (#[trigger] view.balances@[b]).0,
        ) == view.accounts@[a].id && (forall|i: int|
            0 <= i < b ==> Some((#[trigger] view.balances@[i]).0) != view.accounts@[a].id)
            && view.balances@[b].1.0 == amount
}

proof fn lemma_named(view: AlertView, name: Seq<char>)
    requires
        view.well_formed(),
    ensures
        named_balance(view, name) is Some ==> is_balance_named(
            view,
            name,
            named_balance(view, name)->0,
        ),
        forall|amount: i64| #[trigger]
            is_balance_named(view, name, amount) ==> named_balance(view, name) == Some(amount),
{
    let p = |a: Account| is_named(a, name);
    lemma_first_index_is_first(view.accounts@, p);
    let k = first_index(view.accounts@, p);
    if k < view.accounts@.len() {
        let id = view.accounts@[k].id->0;
        assert(view.accounts@[k].id is Some);
        let q = |b: (AccountId, Cents)| is_reading_of(b, id);
        lemma_first_index_is_first(view.balances@, q);
        let j = first_index(view.balances@, q);
        assert(p(view.accounts@[k]));
        assert forall|i: int| 0 <= i < k implies (#[trigger] view.accounts@[i]).name@ != name by {
            assert(!p(view.accounts@[i]));
        }
        assert forall|i: int| 0 <= i < j implies Some((#[trigger] view.balances@[i]).0)
            != view.accounts@[k].id by {
            assert(!q(view.balances@[i]));
        }
        if j < view.balances@.len() {
            assert(q(view.balances@[j]));
            assert(view.accounts@[k].name@ == name && Some(view.balances@[j].0)
                == view.accounts@[k].id);
        }
        assert forall|amount: i64| #[trigger] is_balance_named(view, name, amount) implies named_balance(
            view,
            name,
        ) == Some(amount) by {
            let (a, b) = choose|a: int, b: int|
                0 <= a < view.accounts@.len() && 0 <= b < view.balances@.len() && (
                #[trigger] view.accounts@[a]).name@ == name && (forall|i: int|
                    0 <= i < a ==> (#[trigger] view.accounts@[i]).name@ != name) && Some(
                    (#[trigger] view.balances@[b]).0,
                ) == view.accounts@[a].id && (forall|i: int|
                    0 <= i < b ==> Some((#[trigger] view.balances@[i]).0) != view.accounts@[a].id)
                    && view.balances@[b].1.0 == amount;
            assert(p(view.accounts@[a]));
            if a < k {
                assert(!p(view.accounts@[a]));
            } else if k < a {
                assert(view.accounts@[k].name@ != name);
            }
            assert(q(view.balances@[b]));
            if b < j {
                assert(!q(view.balances@[b]));
            } else if j < b {
                assert(Some(view.balances@[j].0) != view.accounts@[a].id);
            }
        }
    } else {
        assert forall|amount: i64| #[trigger] is_balance_named(view, name, amount) implies named_balance(
            view,
            name,
        ) == Some(amount) by {
            let (a, b) = choose|a: int, b: int|
                0 <= a < view.accounts@.len() && 0 <= b < view.balances@.len() && (
                #[trigger] view.accounts@[a]).name@ == name && (forall|i: int|
                    0 <= i < a ==> (#[trigger] view.accounts@[i]).name@ != name) && Some(
                    (#[trigger] view.balances@[b]).0,
                ) == view.accounts@[a].id && (forall|i: int|
                    0 <= i < b ==> Some((#[trigger] view.balances@[i]).0) != view.accounts@[a].id)
                    && view.balances@[b].1.0 == amount;
            assert(!p(view.accounts@[a]));
        }
    }
}

/// Whether a rule that has fired before may fire again: as long has passed as the window says.
pub open spec fn has_waited(last_fire: Option<i64>, now: i64, dedup_window: i64) -> bool {
    match last_fire {
        Some(t) => now - t >= dedup_window,
        None => true,
    }
}

/// A rule on a low balance fires exactly where the balance of the account that it names is under
/// its minimum and it has waited.
pub proof fn law_balance_low(
    v: Json,
    view: AlertView,
    last_fire: Option<i64>,
    dedup_window: i64,
    account: Seq<char>,
    min: i64,
)
    requires
        view.well_formed(),
        v.text_at("kind"@) == Some("balance.low"@),
        v.text_at("account"@) == Some(account),
        v.int_at("min_cents"@) == Some(min),
    ensures
        rule_fires(v, view, last_fire, dedup_window) <==> has_waited(
            last_fire,
            view.now,
            dedup_window,
        ) && exists|amount: i64| #[trigger] is_balance_named(view, account, amount) && amount < min,
{
    lemma_kinds();
    lemma_named(view, account);
}

/// A rule on bandwidth fires exactly where what the account that it names has used is over its
/// maximum and it has waited.
pub proof fn law_bandwidth_high(
    v: Json,
    view: AlertView,
    last_fire: Option<i64>,
    dedup_window: i64,
    account: Seq<char>,
    max: i64,
)
    requires
        view.well_formed(),
        v.text_at("kind"@) == Some("bandwidth.high"@),
        v.text_at("account"@) == Some(account),
        v.int_at("max_gb"@) == Some(max),
    ensures
        rule_fires(v, view, last_fire, dedup_window) <==> has_waited(
            last_fire,
            view.now,
            dedup_window,
        ) && exists|amount: i64| #[trigger] is_balance_named(view, account, amount) && amount > max,
{
    lemma_kinds();
    lemma_named(view, account);
}

/// A rule on stale providers fires exactly where some provider is stale and it has waited. Where
/// it names no age of its own, three days are allowed.
pub proof fn law_provider_stale(
    v: Json,
    view: AlertView,
    last_fire: Option<i64>,
    dedup_window: i64,
    max_age: i64,
)
    requires
        v.text_at("kind"@) == Some("provider.stale"@),
        v.int_at("max_age_secs"@) == Some(max_age) || v.int_at("max_age_secs"@) is None && max_age
            == 3 * 24 * 60 * 60,
    ensures
        rule_fires(v, view, last_fire, dedup_window) <==> has_waited(
            last_fire,
            view.now,
            dedup_window,
        ) && exists|i: int|
            0 <= i < view.providers@.len() && is_stale(
                #[trigger] view.providers@[i],
                view.now,
                max_age,
            ),
{
    lemma_kinds();
    let rows = view.providers@;
    lemma_stale_rows(rows, view.now, max_age);
    let p = |r: ProviderRow| is_stale(r, view.now, max_age);
    lemma_kept_is_filter(rows, p);
    crate::order::lemma_kept(rows, p);
    crate::order::lemma_kept_from(rows, p);
    let found = kept(rows, p);
    if found.len() > 0 {
        assert(p(found[0]) && rows.contains(found[0]));
        let i = choose|i: int| 0 <= i < rows.len() && rows[i] == found[0];
        assert(is_stale(rows[i], view.now, max_age));
    }
    if exists|i: int| 0 <= i < rows.len() && is_stale(#[trigger] rows[i], view.now, max_age) {
        let i = choose|i: int| 0 <= i < rows.len() && is_stale(#[trigger] rows[i], view.now, max_age);
        assert(p(rows[i]));
        assert(found.contains(rows[i]));
    }
}

/// A reminder fires exactly where its instant of the month has come and it has not fired since.
pub proof fn law_reminder(v: Json, view: AlertView, last_fire: Option<i64>, dedup_window: i64)
    requires
        v.text_at("kind"@) == Some("reminder"@),
    ensures
        rule_fires(v, view, last_fire, dedup_window) <==> match reminder_instant(v, view.clock) {
            Some(at) => at <= view.now && match last_fire {
                Some(t) => t < at,
                None => true,
            },
            None => false,
        },
{
    lemma_kinds();
}

/// A reminder is for a day of the month and an hour, and for the minute that it names; where it
/// names none, for the full hour. A day that the month does not have is its last one.
pub proof fn law_reminder_at(v: Json, clock: Clock)
    requires
        v.uint_at("day_of_month"@) is Some,
        v.uint_at("hour_ast"@) is Some,
        v.text_at("message"@) is Some,
        v.uint_at("day_of_month"@)->0 <= month_length(clock.year as int, clock.month as int),
        v.uint_at("hour_ast"@)->0 < 24,
        v.uint_at("minute_ast"@) is Some ==> v.uint_at("minute_ast"@)->0 < 60,
    ensures
        reminder_instant(v, clock) == ast_instant(
            clock.year,
            clock.month,
            v.uint_at("day_of_month"@)->0 as u32,
            v.uint_at("hour_ast"@)->0 as u32,
            match v.uint_at("minute_ast"@) {
                Some(m) => m as u32,
                None => 0,
            },
        ),
{
}

/// A reminder comes on its day of the month, or on the last day of a month that is too short.
pub proof fn law_reminder_day(now: Clock, day_of_month: u32)
    ensures
        reminder_day(now, day_of_month) <= day_of_month,
        reminder_day(now, day_of_month) <= month_length(now.year as int, now.month as int),
        reminder_day(now, day_of_month) == day_of_month || reminder_day(now, day_of_month)
            == month_length(now.year as int, now.month as int),
{
}

/// Only the five kinds of rule ever fire.
pub proof fn law_unknown_rule(v: Json, view: AlertView, last_fire: Option<i64>, dedup_window: i64)
    requires
        v.text_at("kind"@) != Some("pp.band_breach"@),
        v.text_at("kind"@) != Some("provider.stale"@),
        v.text_at("kind"@) != Some("balance.low"@),
        v.text_at("kind"@) != Some("bandwidth.high"@),
        v.text_at("kind"@) != Some("reminder"@),
    ensures
        !rule_fires(v, view, last_fire, dedup_window),
{
}

pub proof fn lemma_kinds()
    ensures
        "pp.band_breach"@.len() == 14,
        "provider.stale"@.len() == 14,
        "pp.band_breach"@[1] == 'p',
        "provider.stale"@[1] == 'r',
        "balance.low"@.len() == 11,
        "bandwidth.high"@.len() == 14,
        "bandwidth.high"@[1] == 'a',
        "reminder"@.len() == 8,
{
    reveal_strlit("pp.band_breach");
    reveal_strlit("provider.stale");
    reveal_strlit("balance.low");
    reveal_strlit("bandwidth.high");
    reveal_strlit("reminder");
}

// ---------------------------------------------------------------------------
// Evaluation
// ---------------------------------------------------------------------------

/// The last fire of a rule is the latest instant at which it fired.
pub proof fn law_last_fire(log: Seq<(i64, i64)>, rule_id: i64)
    ensures
        last_in(log, rule_id) is None <==> forall|i: int|
            0 <= i < log.len() ==> (#[trigger] log[i]).0 != rule_id,
        forall|i: int|
            0 <= i < log.len() && (#[trigger] log[i]).0 == rule_id ==> last_in(log, rule_id) is Some
                && log[i].1 <= last_in(log, rule_id)->0,
        last_in(log, rule_id) is Some ==> log.contains((rule_id, last_in(log, rule_id)->0)),
    decreases log.len(),
{
    if log.len() > 0 {
        let d = log.drop_last();
        let n = log.len() - 1;
        law_last_fire(d, rule_id);
        assert forall|i: int| 0 <= i < log.len() && (#[trigger] log[i]).0 == rule_id implies last_in(
            log,
            rule_id,
        ) is Some && log[i].1 <= last_in(log, rule_id)->0 by {
            if i < n {
                assert(d[i] == log[i]);
            }
        }
        if last_in(log, rule_id) is None {
            assert forall|i: int| 0 <= i < log.len() implies (#[trigger] log[i]).0 != rule_id by {
                if i < n {
                    assert(d[i] == log[i]);
                }
            }
        }
        if last_in(log, rule_id) is Some {
            let t = last_in(log, rule_id)->0;
            if log.last().0 == rule_id && log.last().1 == t {
                assert(log[n] == (rule_id, t));
            } else {
                assert(d.contains((rule_id, t)));
                let i = choose|i: int| 0 <= i < d.len() && d[i] == (rule_id, t);
                assert(log[i] == (rule_id, t));
            }
        }
    }
}

/// Whether the ids of the rules differ.
pub open spec fn rules_differ(rules: Seq<AlertRule>) -> bool {
    forall|i: int, j: int|
        0 <= i < j < rules.len() ==> (#[trigger] rules[i]).id != (#[trigger] rules[j]).id
}

/// An evaluation keeps the log and adds one entry, at its own instant, for each rule that fires
/// given when it fired last, in the order of the rules, and none for any other.
pub proof fn law_evaluation(
    log: Seq<(i64, i64)>,
    rules: Seq<AlertRule>,
    view: AlertView,
    dedup_window: i64,
)
    requires
        rules_differ(rules),
    ensures
        log_after(log, rules, view, dedup_window) == log + rules.filter(
            |r: AlertRule| stored_rule_fires(r, view, last_in(log, r.id), dedup_window),
        ).map_values(|r: AlertRule| (r.id, view.now)),
    decreases rules.len(),
{
    reveal(Seq::filter);
    let fires = |r: AlertRule| stored_rule_fires(r, view, last_in(log, r.id), dedup_window);
    let entry = |r: AlertRule| (r.id, view.now);
    if rules.len() > 0 {
        let n = rules.len() - 1;
        let d = rules.drop_last();
        assert forall|i: int, j: int| 0 <= i < j < d.len() implies (#[trigger] d[i]).id != (
        #[trigger] d[j]).id by {
            assert(rules[i].id != rules[j].id);
        }
        law_evaluation(log, d, view, dedup_window);
        let before = log_after(log, d, view, dedup_window);
        let rule = rules.last();
        let found = d.filter(fires);
        let added = found.map_values(entry);
        lemma_kept_is_filter(d, fires);
        crate::order::lemma_kept_from(d, fires);
        assert forall|i: int| 0 <= i < added.len() implies (#[trigger] added[i]).0 != rule.id by {
            assert(d.contains(found[i]));
            let k = choose|k: int| 0 <= k < d.len() && d[k] == found[i];
            assert(rules[k].id != rules[n].id);
        }
        lemma_last_unmoved(log, added, rule.id);
        assert(rules.filter(fires).map_values(entry) =~= if fires(rule) {
            added.push(entry(rule))
        } else {
            added
        });
        assert(log + added.push(entry(rule)) =~= (log + added).push(entry(rule)));
    } else {
        assert(rules.filter(fires).map_values(entry) =~= Seq::empty());
        assert(log + Seq::<(i64, i64)>::empty() =~= log);
    }
}

proof fn lemma_last_unmoved(log: Seq<(i64, i64)>, added: Seq<(i64, i64)>, rule_id: i64)
    requires
        forall|i: int| 0 <= i < added.len() ==> (#[trigger] added[i]).0 != rule_id,
    ensures
        last_in(log + added, rule_id) == last_in(log, rule_id),
    decreases added.len(),
{
    if added.len() > 0 {
        let d = added.drop_last();
        assert forall|i: int| 0 <= i < d.len() implies (#[trigger] d[i]).0 != rule_id by {
            assert(d[i] == added[i]);
        }
        lemma_last_unmoved(log, d, rule_id);
        assert((log + added).drop_last() =~= log + d);
        assert((log + added).last() == added[added.len() - 1]);
    } else {
        assert(log + added =~= log);
    }
}


// ---------------------------------------------------------------------------
// What a rule must say
// ---------------------------------------------------------------------------

/// Whether a reminder says all it must: a day of the month, an hour, a minute where it names one,
/// and a message that is not blank.
pub open spec fn is_full_reminder(v: Json) -> bool {
    &&& v.uint_at("day_of_month"@) is Some && 1 <= v.uint_at("day_of_month"@)->0 <= 31
    &&& v.uint_at("hour_ast"@) is Some && v.uint_at("hour_ast"@)->0 < 24
    &&& v.at("minute_ast"@) is None || (v.uint_at("minute_ast"@) is Some && v.uint_at(
        "minute_ast"@,
    )->0 < 60)
    &&& v.text_at("message"@) is Some && trimmed(v.text_at("message"@)->0).len() > 0
}

/// A rule is taken exactly where its kind is known and it says all that its kind needs.
pub proof fn law_rule_is_taken(v: Json)
    ensures
        rule_verdict(v) is Ok <==> match v.text_at("kind"@) {
            Some(kind) => {
                ||| kind == "pp.band_breach"@
                ||| kind == "provider.stale"@
                ||| kind == "balance.low"@ && v.text_at("account"@) is Some && v.int_at(
                    "min_cents"@,
                ) is Some
                ||| kind == "bandwidth.high"@ && v.text_at("account"@) is Some && v.int_at(
                    "max_gb"@,
                ) is Some
                ||| kind == "reminder"@ && is_full_reminder(v)
            },
            None => false,
        },
        rule_verdict(v) is Ok ==> rule_verdict(v)->Ok_0 == v.text_at("kind"@)->0,
{
    lemma_kinds();
}

/// Only the rules that are switched on are evaluated, on the accounts that are switched on, the
/// latest balances and the providers as they stand.
pub proof fn law_watch(view: AlertView, t: Tables, now: i64)
    requires
        is_view_of(view, t, now),
    ensures
        armed(t) == t.rules@.filter(|r: AlertRule| r.active),
        view.now == now,
        view.providers@ == t.providers@,
        forall|i: int| 0 <= i < view.accounts@.len() && t.accounts@.len() <= i64::MAX ==> (
        #[trigger] view.accounts@[i]).active,
        forall|i: int|
            0 <= i < view.balances@.len() ==> crate::laws::balances::latest_is(
                t.snapshots@,
                (#[trigger] view.balances@[i]).0,
                view.balances@[i].1,
            ),
{
    lemma_kept_is_filter(t.rules@, |r: AlertRule| r.active);
    crate::laws::balances::law_latest_balances(view.balances@, t.snapshots@);
    if t.accounts@.len() <= i64::MAX {
        crate::laws::lists::law_active_accounts(view.accounts@, t.accounts@);
    }
}

// ---------------------------------------------------------------------------
// What a firing tells
// ---------------------------------------------------------------------------

/// What a rule reports is what it fired on: the balance of the account that it names and its
/// minimum, which the balance is under; what was used and the maximum, which is exceeded; the
/// providers that are stale; the message of the reminder.
pub proof fn law_firing_tells(
    f: Firing,
    v: Json,
    view: AlertView,
    last_fire: Option<i64>,
    dedup_window: i64,
)
    requires
        view.well_formed(),
        is_outcome(Some(f), v, view, last_fire, dedup_window),
    ensures
        match f {
            Firing::BalanceLow(h) => v.text_at("account"@) == Some(h.account@) && v.int_at(
                "min_cents"@,
            ) == Some(h.min_cents) && is_balance_named(view, h.account@, h.balance_cents)
                && h.balance_cents < h.min_cents,
            Firing::BandwidthHigh(h) => v.text_at("account"@) == Some(h.account@) && v.int_at(
                "max_gb"@,
            ) == Some(h.max_gb) && is_balance_named(view, h.account@, h.used_gb) && h.used_gb
                > h.max_gb,
            Firing::ProviderStale(s) => s@.len() > 0 && v.text_at("kind"@) == Some(
                "provider.stale"@,
            ),
            Firing::Reminder(h) => v.text_at("message"@) == Some(h.message@) && v.text_at("kind"@)
                == Some("reminder"@),
            Firing::PpBandBreach(rows) => v.text_at("kind"@) == Some("pp.band_breach"@)
                && crate::pp::is_drift(
                rows@,
                crate::report::tier2(view.balances@, view.accounts@),
            ),
        },
{
    lemma_kinds();
    match f {
        Firing::BalanceLow(h) => {
            lemma_named(view, h.account@);
        },
        Firing::BandwidthHigh(h) => {
            lemma_named(view, h.account@);
        },
        _ => {},
    }
}

/// An evaluation keeps the history and adds one entry for each rule that fires, at its instant and
/// with a report; it adds none for any other rule.
pub proof fn law_history(
    after: Seq<AlertFire>,
    before: Seq<AlertFire>,
    rules: Seq<AlertRule>,
    view: AlertView,
    dedup_window: i64,
)
    requires
        is_evaluated(after, before, rules, view, dedup_window),
        rules_differ(rules),
    ensures
        forall|i: int| 0 <= i < before.len() ==> #[trigger] after[i] == before[i],
        after.len() == before.len() + how_many(
            rules,
            |r: AlertRule|
                stored_rule_fires(r, view, last_in(log_of(before), r.id), dedup_window),
        ),
        forall|i: int|
            before.len() <= i < after.len() ==> (#[trigger] after[i]).fired_at == view.now
                && after[i].report is Some && exists|k: int|
                0 <= k < rules.len() && (#[trigger] rules[k]).id == after[i].rule_id,
{
    law_evaluation(log_of(before), rules, view, dedup_window);
    assert(log_of(after).len() == after.len());
    assert forall|i: int| 0 <= i < before.len() implies #[trigger] after[i] == before[i] by {
        assert(after.take(before.len() as int)[i] == after[i]);
    }
    assert forall|i: int| before.len() <= i < after.len() implies (#[trigger] after[i]).fired_at
        == view.now && after[i].report is Some && exists|k: int|
        0 <= k < rules.len() && (#[trigger] rules[k]).id == after[i].rule_id by {
        assert(is_fire_of(after[i], rules, view));
        let k = choose|k: int|
            0 <= k < rules.len() && is_fire_of_rule(after[i], #[trigger] rules[k], view);
        assert(rules[k].id == after[i].rule_id);
    }
}

/// What is said of a provider that fell silent is for how many whole days, and how many it is
/// allowed.
pub proof fn law_silence_told(r: ProviderRow, now: i64, default_max: i64, days: int, grace: int)
    requires
        stale_reason(r, now, default_max) is Some,
        !crate::alerts::failed(r),
        days >= 0,
        grace >= 0,
        r.last_poll_at is Some,
        86_400 * days <= now - r.last_poll_at->0 < 86_400 * (days + 1),
        max_age_of(r.poll_cadence@, default_max) is Some,
        86_400 * grace <= max_age_of(r.poll_cadence@, default_max)->0 < 86_400 * (grace + 1),
    ensures
        stale_reason(r, now, default_max)->0 == "no poll in "@ + dec_int(days) + "d (grace "@
            + dec_int(grace) + "d)"@,
{
}

/// What is said of a provider that failed is the status that its last poll left.
pub proof fn law_failure_told(r: ProviderRow, now: i64, default_max: i64)
    requires
        stale_reason(r, now, default_max) is Some,
        crate::alerts::failed(r),
    ensures
        r.last_status is Some,
        stale_reason(r, now, default_max)->0 == "last_status="@ + r.last_status->0@,
{
}

} // verus!
