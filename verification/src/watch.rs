//! One tick of the alert engine, on the stored tables.

use crate::alerts::{evaluate_once, AlertFire, AlertView};
use crate::db::{list_active_accounts, Account, AlertRule, ProviderRow};
use crate::handler::Tables;
use crate::ledger::{latest_balances, list_active_alert_rules};
use crate::time::ast_clock;
use vstd::prelude::*;

verus! {

use crate::alerts::{ages_fit, is_evaluated, log_fits, log_of};
use crate::db::active_accounts;
use crate::ledger::are_latest;
use crate::order::kept;
use crate::providers::all_stored;
use crate::time::{ast_fields, clock_of, valid_instant};

/// What a tick needs: rows with their ids, a clock within the calendar, and times since the
/// recorded polls and firings that fit in 64 bits.
pub open spec fn can_tick(t: Tables, log: Seq<(i64, i64)>, now: i64) -> bool {
    &&& t.accounts@.len() <= i64::MAX
    &&& all_stored(active_accounts(t.accounts@))
    &&& valid_instant(now)
    &&& ast_fields(now).0 < i32::MAX
    &&& ages_fit(t.providers@, now)
    &&& log_fits(log, now)
}

/// What the rules are evaluated against: the active accounts, the latest balances, the
/// providers, and the time.
pub open spec fn is_view_of(v: AlertView, t: Tables, now: i64) -> bool {
    &&& v.accounts@ == active_accounts(t.accounts@)
    &&& are_latest(v.balances@, t.snapshots@)
    &&& v.providers@ == t.providers@
    &&& v.now == now
    &&& v.clock == clock_of(ast_fields(now))
}

/// The rules that are evaluated.
pub open spec fn armed(t: Tables) -> Seq<AlertRule> {
    kept(t.rules@, |x: AlertRule| x.active)
}

fn have_ids(accounts: &Vec<Account>) -> (r: bool)
    ensures
        r == all_stored(accounts@),
{
    let mut i: usize = 0;
    while i < accounts.len()
        invariant
            i <= accounts.len(),
            forall|k: int| 0 <= k < i ==> (#[trigger] accounts@[k]).id is Some,
        decreases accounts.len() - i,
    {
        if accounts[i].id.is_none() {
            assert(!(accounts@[i as int].id is Some));
            return false;
        }
        i = i + 1;
    }
    true
}

fn polls_fit(rows: &Vec<ProviderRow>, now: i64) -> (r: bool)
    ensures
        r == ages_fit(rows@, now),
{
    let mut i: usize = 0;
    while i < rows.len()
        invariant
            i <= rows.len(),
            ages_fit(rows@.take(i as int), now),
        decreases rows.len() - i,
    {
        match rows[i].last_poll_at {
            Some(t) => {
                if now.checked_sub(t).is_none() {
                    assert(rows@[i as int].last_poll_at is Some);
                    return false;
                }
            },
            None => {},
        }
        assert forall|k: int| 0 <= k < i + 1 && (#[trigger] rows@.take(i + 1)[k]).last_poll_at
            is Some implies i64::MIN <= now - rows@.take(i + 1)[k].last_poll_at->0 <= i64::MAX by {
            if k < i {
                assert(rows@.take(i as int)[k] == rows@.take(i + 1)[k]);
            }
        }
        i = i + 1;
    }
    assert(rows@.take(i as int) =~= rows@);
    true
}

fn fires_fit(history: &Vec<AlertFire>, now: i64) -> (r: bool)
    ensures
        r == log_fits(log_of(history@), now),
{
    let ghost log = log_of(history@);
    let mut i: usize = 0;
    while i < history.len()
        invariant
            i <= history.len(),
            log == log_of(history@),
            forall|k: int| 0 <= k < i ==> i64::MIN <= now - (#[trigger] log[k]).1 <= i64::MAX,
        decreases history.len() - i,
    {
        assert(log[i as int] == (history@[i as int].rule_id, history@[i as int].fired_at));
        if now.checked_sub(history[i].fired_at).is_none() {
            return false;
        }
        i = i + 1;
    }
    true
}

/// Evaluates the active rules against the tables and records those that fire, unless the
/// tables cannot be evaluated; then the history stays as it is.
pub fn tick(t: Tables, now: i64, history: &mut Vec<AlertFire>, dedup_window_secs: i64) -> (r: bool)
    ensures
        r == can_tick(t, log_of(old(history)@), now),
        !r ==> final(history)@ == old(history)@,
        r ==> exists|view: AlertView| #[trigger]
            is_view_of(view, t, now) && is_evaluated(
                final(history)@,
                old(history)@,
                armed(t),
                view,
                dedup_window_secs,
            ),
{
    if t.accounts.len() as u64 > i64::MAX as u64 || !polls_fit(&t.providers, now) || !fires_fit(
        history,
        now,
    ) {
        return false;
    }
    let accounts: Vec<Account> = list_active_accounts(&t.accounts);
    if !have_ids(&accounts) {
        return false;
    }
    match ast_clock(now) {
        Some(clock) => {
            if clock.year == i32::MAX {
                return false;
            }
            let rules: Vec<AlertRule> = list_active_alert_rules(&t.rules);
            let view = AlertView {
                accounts,
                balances: latest_balances(&t.snapshots),
                providers: t.providers,
                now,
                clock,
            };
            evaluate_once(&rules, &view, history, dedup_window_secs);
            assert(is_view_of(view, t, now));
            true
        },
        None => false,
    }
}

} // verus!
