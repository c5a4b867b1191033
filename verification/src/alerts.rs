//! Alert rules: which ones there are, when one fires, and what it says.
//!
//! A rule is evaluated on a tick against the stored rows. A rule that fired within the
//! dedup window stays silent; a reminder fires once per month instead. A firing is
//! recorded as not yet delivered: delivery happens elsewhere.

use crate::db::{Account, AlertRule, ProviderRow};
use crate::ids::AccountId;
use crate::json::{parse_json, Json};
use crate::money::Cents;
use crate::pp::{allocation, any_band_breach, drift, Allocation, DriftRow};
use crate::report::DriftShare;
use crate::scheduler::is_failure_status;
use crate::text::{
    align_left, align_right, clone_opt, dec_string, int_string, magnitude, quoted, repeated,
    str_eq, trim,
};
use crate::time::{days_in_month, instant_ast, Clock};
use vstd::prelude::*;

verus! {

use crate::ids::ProviderId;
use crate::json::document;
use crate::money::shown;
use crate::order::first_index;
use crate::recurring::div_toward_zero;
use crate::scheduler::{law_status_is_honest, status_of, tells_failure, PollOutcome};
use crate::store::{are_polled, is_polled};
use crate::text::{
    dec, dec_int, debug_text, left_aligned, opt_text, opt_view, right_aligned, run_of, trimmed,
};
use crate::time::{ast_instant, day_number, month_length};

/// How long a provider of unknown cadence may stay silent: three days.
pub const DEFAULT_STALE_MAX_AGE_SECS: i64 = 259_200;

// ---------------------------------------------------------------------------
// Rule fields
// ---------------------------------------------------------------------------

/// The kind that a rule's text names, if it is JSON and names one.
pub open spec fn kind_in(doc: core::result::Result<Json, Seq<char>>) -> Option<Seq<char>> {
    match doc {
        Ok(v) => v.text_at("kind"@),
        Err(_) => None,
    }
}

/// The kind that a rule's text names, if it is JSON and names one.
pub fn rule_kind(rule_json: &str) -> (r: Option<String>)
    ensures
        opt_text(r) == kind_in(document(rule_json@)),
{
    match parse_json(rule_json) {
        Ok(v) => match v.get_str("kind") {
            Some(k) => Some(k.to_owned()),
            None => None,
        },
        Err(_) => None,
    }
}

/// An integer field of a rule's text, if it is JSON and has one.
pub fn rule_i64_field(rule_json: &str, key: &str) -> (r: Option<i64>)
    ensures
        r == match document(rule_json@) {
            Ok(v) => v.int_at(key@),
            Err(_) => None,
        },
{
    match parse_json(rule_json) {
        Ok(v) => v.get_i64(key),
        Err(_) => None,
    }
}

// ---------------------------------------------------------------------------
// Reminders
// ---------------------------------------------------------------------------

/// The day of the month on which a reminder falls: months that lack it take their last.
pub open spec fn reminder_day(now: Clock, day_of_month: u32) -> u32 {
    let last = month_length(now.year as int, now.month as int);
    if day_of_month < last {
        day_of_month
    } else {
        last
    }
}

/// The instant of a reminder in the month of a clock reading in Puerto Rico.
pub open spec fn reminder_target(now: Clock, day_of_month: u32, hour: u32, minute: u32) -> Option<
    i64,
> {
    ast_instant(now.year, now.month, reminder_day(now, day_of_month), hour, minute)
}

/// Whether an instant falls in the month of a clock reading in Puerto Rico.
pub open spec fn in_month(ts: i64, now: Clock) -> bool {
    let start = 86_400 * day_number(now.year as int, now.month as int, 1) + 14_400;
    start <= ts < start + 86_400 * month_length(now.year as int, now.month as int)
}

/// The instant of a reminder in the month of a clock reading in Puerto Rico. The day is
/// cut to the last one of the month, so that a reminder for the 31st has its instant in
/// every month. From 1946 to 9999 there always is one, and it falls in the month.
pub fn reminder_target_secs(now: Clock, day_of_month: u32, hour_ast: u32, minute_ast: u32) -> (r:
    Option<i64>)
    requires
        now.well_formed(),
        now.year < i32::MAX,
    ensures
        r == reminder_target(now, day_of_month, hour_ast, minute_ast),
        1946 <= now.year <= 9999 && day_of_month >= 1 && hour_ast < 24 && minute_ast < 60 ==> r
            is Some && in_month(r->0, now) && r->0 == 86_400 * day_number(
            now.year as int,
            now.month as int,
            reminder_day(now, day_of_month) as int,
        ) + 3_600 * hour_ast + 60 * minute_ast + 14_400,
{
    let last: u32 = days_in_month(now.year, now.month);
    let day: u32 = if day_of_month < last {
        day_of_month
    } else {
        last
    };
    instant_ast(now.year, now.month, day, hour_ast, minute_ast)
}

/// Whether a reminder fires: its instant is reached and it has not fired since.
pub open spec fn reminder_fires(now: i64, target: i64, last_fire: Option<i64>) -> bool {
    now >= target && (last_fire is Some ==> last_fire->0 < target)
}

/// Whether a reminder fires: its instant is reached and it has not fired since. A late
/// evaluation, even on a later day, still catches up.
pub fn reminder_should_fire(now: i64, target: i64, last_fire: Option<i64>) -> (r: bool)
    ensures
        r == reminder_fires(now, target, last_fire),
{
    if now < target {
        return false;
    }
    match last_fire {
        Some(last) => last < target,
        None => true,
    }
}

/// A reminder fires once for an instant: after it fired, no later evaluation fires again
/// for the same instant.
pub proof fn law_reminder_fires_once(first: i64, later: i64, target: i64, last_fire: Option<i64>)
    requires
        reminder_fires(first, target, last_fire),
    ensures
        !reminder_fires(later, target, Some(first)),
{
}

/// A reminder is not lost: from its instant on, the first evaluation fires, however late,
/// and a firing for an earlier instant does not stand in its way.
pub proof fn law_reminder_catches_up(now: i64, target: i64, last_fire: Option<i64>)
    requires
        now >= target,
        last_fire is Some ==> last_fire->0 < target,
    ensures
        reminder_fires(now, target, last_fire),
{
}

// ---------------------------------------------------------------------------
// Stale providers
// ---------------------------------------------------------------------------

/// A provider that fails or has gone silent.
#[derive(Debug)]
pub struct StaleProvider {
    pub kind: String,
    pub label: String,
    pub last_status: Option<String>,
    pub last_poll_at: Option<i64>,
    /// Why: `last_status=error` or `no poll in 4d (grace 2d)`.
    pub reason: String,
}

impl Clone for StaleProvider {
    fn clone(&self) -> (r: StaleProvider)
        ensures
            r == *self,
    {
        StaleProvider {
            kind: self.kind.clone(),
            label: self.label.clone(),
            last_status: clone_opt(&self.last_status),
            last_poll_at: self.last_poll_at,
            reason: self.reason.clone(),
        }
    }
}

/// How long a provider of a cadence may stay silent; nothing for one that the operator
/// drives by hand.
pub open spec fn max_age_of(cadence: Seq<char>, default_max: i64) -> Option<i64> {
    if cadence == "manual"@ || cadence == "on_demand"@ {
        None
    } else if cadence == "hourly"@ {
        Some(10_800)
    } else if cadence == "daily"@ {
        Some(172_800)
    } else if cadence == "weekly"@ {
        Some(777_600)
    } else {
        Some(default_max)
    }
}

/// How long a provider of a cadence may stay silent; nothing for one that the operator
/// drives by hand.
pub fn cadence_max_age(cadence: &str, default_max: i64) -> (r: Option<i64>)
    ensures
        r == max_age_of(cadence@, default_max),
{
    if str_eq(cadence, "manual") || str_eq(cadence, "on_demand") {
        None
    } else if str_eq(cadence, "hourly") {
        Some(10_800)
    } else if str_eq(cadence, "daily") {
        Some(172_800)
    } else if str_eq(cadence, "weekly") {
        Some(777_600)
    } else {
        Some(default_max)
    }
}

/// Whether a provider's last poll failed: its status says so in a word, or is what a failed
/// poll records.
pub open spec fn failed(r: ProviderRow) -> bool {
    match opt_text(r.last_status) {
        Some(status) => status == "error"@ || status == "stale"@ || tells_failure(status),
        None => false,
    }
}

/// Whether a provider is silent for longer than its cadence allows. One that was never
/// polled is not.
pub open spec fn silent(r: ProviderRow, now: i64, max_age: i64) -> bool {
    r.last_poll_at is Some && now - r.last_poll_at->0 > max_age
}

/// Why a provider is stale, if it is.
pub open spec fn stale_reason(r: ProviderRow, now: i64, default_max: i64) -> Option<Seq<char>> {
    match max_age_of(r.poll_cadence@, default_max) {
        None => None,
        Some(max_age) => if failed(r) {
            Some("last_status="@ + r.last_status->0@)
        } else if silent(r, now, max_age) {
            Some(
                "no poll in "@ + dec_int(div_toward_zero(now - r.last_poll_at->0, 86_400))
                    + "d (grace "@ + dec_int(div_toward_zero(max_age as int, 86_400)) + "d)"@,
            )
        } else {
            None
        },
    }
}

/// The entry of a stale provider.
pub open spec fn is_stale_entry(s: StaleProvider, r: ProviderRow, now: i64, default_max: i64) -> bool {
    &&& s.kind == r.kind
    &&& s.label == r.label
    &&& s.last_status == r.last_status
    &&& s.last_poll_at == r.last_poll_at
    &&& stale_reason(r, now, default_max) == Some(s.reason@)
}

/// The providers that are stale, in their order.
pub open spec fn stale_rows(rows: Seq<ProviderRow>, now: i64, default_max: i64) -> Seq<ProviderRow>
    decreases rows.len(),
{
    if rows.len() == 0 {
        Seq::empty()
    } else {
        let rest = stale_rows(rows.drop_last(), now, default_max);
        if stale_reason(rows.last(), now, default_max) is Some {
            rest.push(rows.last())
        } else {
            rest
        }
    }
}

/// The entries of the stale providers.
pub open spec fn are_stale(
    out: Seq<StaleProvider>,
    rows: Seq<ProviderRow>,
    now: i64,
    default_max: i64,
) -> bool {
    let found = stale_rows(rows, now, default_max);
    &&& out.len() == found.len()
    &&& forall|i: int|
        0 <= i < out.len() ==> is_stale_entry(#[trigger] out[i], found[i], now, default_max)
}

/// The time since every poll fits in 64 bits.
pub open spec fn ages_fit(rows: Seq<ProviderRow>, now: i64) -> bool {
    forall|i: int|
        0 <= i < rows.len() && (#[trigger] rows[i]).last_poll_at is Some ==> i64::MIN <= now
            - rows[i].last_poll_at->0 <= i64::MAX
}

fn whole_days(secs: i64) -> (r: String)
    ensures
        r@ == dec_int(div_toward_zero(secs as int, 86_400)),
{
    let q: u64 = magnitude(secs) / 86_400;
    if secs >= 0 {
        int_string(q as i64)
    } else {
        int_string(-(q as i64))
    }
}

fn stale_entry(r: &ProviderRow, now: i64, default_max_age_secs: i64) -> (s: Option<StaleProvider>)
    requires
        r.last_poll_at is Some ==> i64::MIN <= now - r.last_poll_at->0 <= i64::MAX,
    ensures
        match s {
            Some(x) => is_stale_entry(x, *r, now, default_max_age_secs),
            None => stale_reason(*r, now, default_max_age_secs) is None,
        },
{
    let max_age: i64 = match cadence_max_age(r.poll_cadence.as_str(), default_max_age_secs) {
        Some(m) => m,
        None => {
            return None;
        },
    };
    match &r.last_status {
        Some(status) => {
            if str_eq(status.as_str(), "error") || str_eq(status.as_str(), "stale")
                || is_failure_status(status.as_str()) {
                return Some(
                    StaleProvider {
                        kind: r.kind.clone(),
                        label: r.label.clone(),
                        last_status: clone_opt(&r.last_status),
                        last_poll_at: r.last_poll_at,
                        reason: "last_status=".to_owned().concat(status.as_str()),
                    },
                );
            }
        },
        None => {},
    }
    match r.last_poll_at {
        Some(t) => {
            let age: i64 = now - t;
            if age > max_age {
                Some(
                    StaleProvider {
                        kind: r.kind.clone(),
                        label: r.label.clone(),
                        last_status: clone_opt(&r.last_status),
                        last_poll_at: r.last_poll_at,
                        reason: "no poll in ".to_owned().concat(whole_days(age).as_str()).concat(
                            "d (grace ",
                        ).concat(whole_days(max_age).as_str()).concat("d)"),
                    },
                )
            } else {
                None
            }
        },
        None => None,
    }
}

/// The providers that fail or have gone silent. One that the operator drives by hand is
/// never among them; one that was never polled only where its status is an error. A failing
/// status is `error`, `stale`, or what `crate::scheduler::fold_poll` records of a failed poll.
pub fn find_stale(rows: &[ProviderRow], now: i64, default_max_age_secs: i64) -> (r: Vec<
    StaleProvider,
>)
    requires
        ages_fit(rows@, now),
    ensures
        are_stale(r@, rows@, now, default_max_age_secs),
{
    let mut out: Vec<StaleProvider> = Vec::new();
    let mut i: usize = 0;
    while i < rows.len()
        invariant
            i <= rows.len(),
            ages_fit(rows@, now),
            are_stale(out@, rows@.take(i as int), now, default_max_age_secs),
        decreases rows.len() - i,
    {
        assert(rows@.take(i + 1).drop_last() == rows@.take(i as int));
        let e: Option<StaleProvider> = stale_entry(&rows[i], now, default_max_age_secs);
        match e {
            Some(s) => {
                out.push(s);
            },
            None => {},
        }
        i = i + 1;
        assert(are_stale(out@, rows@.take(i as int), now, default_max_age_secs));
    }
    assert(rows@.take(rows@.len() as int) == rows@);
    out
}

/// A provider that the operator drives by hand is never stale, and one that was never
/// polled is stale only where its status is an error.
pub proof fn law_not_stale(r: ProviderRow, now: i64, default_max: i64)
    ensures
        r.poll_cadence@ == "manual"@ || r.poll_cadence@ == "on_demand"@ ==> stale_reason(
            r,
            now,
            default_max,
        ) is None,
        r.last_poll_at is None && !failed(r) ==> stale_reason(r, now, default_max) is None,
{
}

/// A failed poll is stale at once, whatever its cadence, unless the operator drives it.
pub proof fn law_failure_is_stale(r: ProviderRow, now: i64, default_max: i64)
    requires
        failed(r),
        r.poll_cadence@ != "manual"@,
        r.poll_cadence@ != "on_demand"@,
    ensures
        stale_reason(r, now, default_max) == Some("last_status="@ + r.last_status->0@),
{
}

/// A poll of which a half failed makes the provider stale at once, and the reason tells what
/// failed, unless the operator drives the provider.
pub proof fn law_failed_poll_is_stale(
    balances: PollOutcome,
    transactions: PollOutcome,
    before: Seq<ProviderRow>,
    after: Seq<ProviderRow>,
    id: ProviderId,
    polled_at: i64,
    k: int,
    now: i64,
    default_max: i64,
)
    requires
        balances is Failed || transactions is Failed,
        are_polled(after, before, id, status_of(balances, transactions), polled_at),
        0 <= k < before.len(),
        before[k].id == id,
        before[k].poll_cadence@ != "manual"@,
        before[k].poll_cadence@ != "on_demand"@,
    ensures
        stale_reason(after[k], now, default_max) == Some(
            "last_status="@ + status_of(balances, transactions),
        ),
        stale_rows(after, now, default_max).contains(after[k]),
{
    law_status_is_honest(balances, transactions);
    assert(is_polled(after[k], before[k], status_of(balances, transactions), polled_at));
    law_failure_is_stale(after[k], now, default_max);
    law_stale_exactly(after, now, default_max);
}

/// What is listed is stale, and what is stale is listed.
pub proof fn law_stale_exactly(rows: Seq<ProviderRow>, now: i64, default_max: i64)
    ensures
        forall|i: int|
            0 <= i < rows.len() ==> (stale_rows(rows, now, default_max).contains(#[trigger] rows[i])
                <==> stale_reason(rows[i], now, default_max) is Some),
    decreases rows.len(),
{
    if rows.len() > 0 {
        let d = rows.drop_last();
        law_stale_exactly(d, now, default_max);
        let a = stale_rows(d, now, default_max);
        let b = stale_rows(rows, now, default_max);
        lemma_stale_rows(rows, now, default_max);
        assert forall|i: int| 0 <= i < rows.len() && stale_reason(rows[i], now, default_max)
            is Some implies b.contains(#[trigger] rows[i]) by {
            if i < d.len() {
                assert(d[i] == rows[i]);
                assert(a.contains(d[i]));
                let k = choose|k: int| 0 <= k < a.len() && a[k] == d[i];
                assert(b[k] == rows[i]);
            } else {
                assert(b[b.len() - 1] == rows[i]);
            }
        }
    }
}

proof fn lemma_stale_rows(rows: Seq<ProviderRow>, now: i64, default_max: i64)
    ensures
        forall|k: int|
            0 <= k < stale_rows(rows, now, default_max).len() ==> stale_reason(
                #[trigger] stale_rows(rows, now, default_max)[k],
                now,
                default_max,
            ) is Some,
    decreases rows.len(),
{
    if rows.len() > 0 {
        lemma_stale_rows(rows.drop_last(), now, default_max);
    }
}

/// Text followed by one line per stale provider.
pub open spec fn with_stale_lines(out: Seq<char>, stale: Seq<StaleProvider>) -> Seq<char>
    decreases stale.len(),
{
    if stale.len() == 0 {
        out
    } else {
        let s = stale.last();
        with_stale_lines(out, stale.drop_last()) + (s.label@ + " ("@ + s.kind@ + ") — "@ + s.reason@
            + "\n"@)
    }
}

/// The message about stale providers.
pub fn render_provider_stale(stale: &[StaleProvider]) -> (r: String)
    ensures
        r@ == with_stale_lines(
            "Provider(s) stale or failing.\n"@ + "=============================\n\n"@,
            stale@,
        ) + "\nCheck credentials / connectivity; `arca refresh` to retry.\n"@,
{
    let mut out: String = "Provider(s) stale or failing.\n".to_owned().concat(
        "=============================\n\n",
    );
    let ghost head = out@;
    let mut i: usize = 0;
    while i < stale.len()
        invariant
            i <= stale.len(),
            out@ == with_stale_lines(head, stale@.take(i as int)),
        decreases stale.len() - i,
    {
        assert(stale@.take(i + 1).drop_last() == stale@.take(i as int));
        let s: &StaleProvider = &stale[i];
        let l: String = s.label.as_str().to_owned().concat(" (").concat(s.kind.as_str()).concat(
            ") — ",
        ).concat(s.reason.as_str()).concat("\n");
        out.append(l.as_str());
        i = i + 1;
    }
    assert(stale@.take(stale@.len() as int) == stale@);
    out.append("\nCheck credentials / connectivity; `arca refresh` to retry.\n");
    out
}

// ---------------------------------------------------------------------------
// Rule validation
// ---------------------------------------------------------------------------

/// The rule kinds that are evaluated. A rule of another kind would never fire, so it is
/// refused when it is written.
pub const KNOWN_ALERT_KINDS: [&'static str; 5] = [
    "pp.band_breach",
    "provider.stale",
    "balance.low",
    "bandwidth.high",
    "reminder",
];

/// Whether rules of a kind are evaluated.
pub open spec fn is_known(kind: Seq<char>) -> bool {
    ||| kind == "pp.band_breach"@
    ||| kind == "provider.stale"@
    ||| kind == "balance.low"@
    ||| kind == "bandwidth.high"@
    ||| kind == "reminder"@
}

/// The list of kinds, as it is shown.
pub open spec fn known_list() -> Seq<char> {
    "pp.band_breach"@ + ", "@ + "provider.stale"@ + ", "@ + "balance.low"@ + ", "@
        + "bandwidth.high"@ + ", "@ + "reminder"@
}

fn known_kind(kind: &str) -> (r: bool)
    ensures
        r == is_known(kind@),
{
    let kinds: [&'static str; 5] = KNOWN_ALERT_KINDS;
    assert(kinds@[0]@ == "pp.band_breach"@ && kinds@[1]@ == "provider.stale"@ && kinds@[2]@
        == "balance.low"@ && kinds@[3]@ == "bandwidth.high"@ && kinds@[4]@ == "reminder"@);
    str_eq(kinds[0], kind) || str_eq(kinds[1], kind) || str_eq(kinds[2], kind) || str_eq(
        kinds[3],
        kind,
    ) || str_eq(kinds[4], kind)
}

fn known_kinds() -> (r: String)
    ensures
        r@ == known_list(),
{
    let kinds: [&'static str; 5] = KNOWN_ALERT_KINDS;
    assert(kinds@[0]@ == "pp.band_breach"@ && kinds@[1]@ == "provider.stale"@ && kinds@[2]@
        == "balance.low"@ && kinds@[3]@ == "bandwidth.high"@ && kinds@[4]@ == "reminder"@);
    kinds[0].to_owned().concat(", ").concat(kinds[1]).concat(", ").concat(kinds[2]).concat(
        ", ",
    ).concat(kinds[3]).concat(", ").concat(kinds[4])
}

/// What is missing from a rule of a kind, if anything.
pub open spec fn rule_flaw(kind: Seq<char>, v: Json) -> Option<Seq<char>> {
    if kind == "balance.low"@ {
        if v.text_at("account"@) is None {
            Some("balance.low requires a string \"account\""@)
        } else if v.int_at("min_cents"@) is None {
            Some("balance.low requires an integer \"min_cents\""@)
        } else {
            None
        }
    } else if kind == "bandwidth.high"@ {
        if v.text_at("account"@) is None {
            Some("bandwidth.high requires a string \"account\""@)
        } else if v.int_at("max_gb"@) is None {
            Some("bandwidth.high requires an integer \"max_gb\""@)
        } else {
            None
        }
    } else if kind == "reminder"@ {
        reminder_flaw(v)
    } else {
        None
    }
}

/// What is missing from a reminder, if anything.
pub open spec fn reminder_flaw(v: Json) -> Option<Seq<char>> {
    let day = v.uint_at("day_of_month"@);
    let hour = v.uint_at("hour_ast"@);
    let minute = v.uint_at("minute_ast"@);
    let message = v.text_at("message"@);
    if !(day is Some && 1 <= day->0 <= 31) {
        Some("reminder requires an integer \"day_of_month\" in 1..=31"@)
    } else if !(hour is Some && hour->0 <= 23) {
        Some("reminder requires an integer \"hour_ast\" in 0..=23"@)
    } else if v.at("minute_ast"@) is Some && !(minute is Some && minute->0 <= 59) {
        Some("reminder \"minute_ast\" must be an integer in 0..=59"@)
    } else if !(message is Some && trimmed(message->0).len() > 0) {
        Some("reminder requires a non-empty string \"message\""@)
    } else {
        None
    }
}

/// The kind of a valid rule, or what is wrong with the rule.
pub open spec fn rule_verdict(v: Json) -> core::result::Result<Seq<char>, Seq<char>> {
    match v.text_at("kind"@) {
        None => Err("rule_json missing string field \"kind\""@),
        Some(kind) => if !is_known(kind) {
            Err("unknown alert kind "@ + debug_text(kind) + "; known: "@ + known_list())
        } else {
            match rule_flaw(kind, v) {
                Some(e) => Err(e),
                None => Ok(kind),
            }
        },
    }
}

/// The texts of two results agree.
pub open spec fn same_texts(
    r: core::result::Result<String, String>,
    s: core::result::Result<Seq<char>, Seq<char>>,
) -> bool {
    match (r, s) {
        (Ok(a), Ok(b)) => a@ == b,
        (Err(a), Err(b)) => a@ == b,
        _ => false,
    }
}

fn find_reminder_flaw(v: &Json) -> (r: Option<String>)
    ensures
        opt_text(r) == reminder_flaw(*v),
{
    let day: Option<u64> = v.get_u64("day_of_month");
    let day_ok: bool = match day {
        Some(d) => 1 <= d && d <= 31,
        None => false,
    };
    if !day_ok {
        return Some("reminder requires an integer \"day_of_month\" in 1..=31".to_owned());
    }
    let hour_ok: bool = match v.get_u64("hour_ast") {
        Some(h) => h <= 23,
        None => false,
    };
    if !hour_ok {
        return Some("reminder requires an integer \"hour_ast\" in 0..=23".to_owned());
    }
    let minute_ok: bool = match v.get("minute_ast") {
        Some(m) => match m.as_u64() {
            Some(n) => n <= 59,
            None => false,
        },
        None => true,
    };
    if !minute_ok {
        return Some("reminder \"minute_ast\" must be an integer in 0..=59".to_owned());
    }
    let message_ok: bool = match v.get_str("message") {
        Some(s) => trim(s).as_str().unicode_len() > 0,
        None => false,
    };
    if !message_ok {
        return Some("reminder requires a non-empty string \"message\"".to_owned());
    }
    None
}

fn find_rule_flaw(kind: &str, v: &Json) -> (r: Option<String>)
    ensures
        opt_text(r) == rule_flaw(kind@, *v),
{
    if str_eq(kind, "balance.low") {
        if v.get_str("account").is_none() {
            return Some("balance.low requires a string \"account\"".to_owned());
        }
        if v.get_i64("min_cents").is_none() {
            return Some("balance.low requires an integer \"min_cents\"".to_owned());
        }
        None
    } else if str_eq(kind, "bandwidth.high") {
        if v.get_str("account").is_none() {
            return Some("bandwidth.high requires a string \"account\"".to_owned());
        }
        if v.get_i64("max_gb").is_none() {
            return Some("bandwidth.high requires an integer \"max_gb\"".to_owned());
        }
        None
    } else if str_eq(kind, "reminder") {
        find_reminder_flaw(v)
    } else {
        None
    }
}

/// Checks a rule: it names a known kind and has what that kind needs to fire. Gives the
/// kind back.
pub fn validate_rule(v: &Json) -> (r: core::result::Result<String, String>)
    ensures
        same_texts(r, rule_verdict(*v)),
{
    let kind: &str = match v.get_str("kind") {
        Some(k) => k,
        None => {
            return Err("rule_json missing string field \"kind\"".to_owned());
        },
    };
    if !known_kind(kind) {
        return Err(
            "unknown alert kind ".to_owned().concat(quoted(kind).as_str()).concat(
                "; known: ",
            ).concat(known_kinds().as_str()),
        );
    }
    match find_rule_flaw(kind, v) {
        Some(e) => Err(e),
        None => Ok(kind.to_owned()),
    }
}

/// Checks the text of a rule and gives its kind back. A rule that lacks what it needs to
/// fire is refused here, not stored to do nothing.
pub fn validate_rule_json(rule_json: &str) -> (r: core::result::Result<String, String>)
    ensures
        same_texts(
            r,
            match document(rule_json@) {
                Ok(v) => rule_verdict(v),
                Err(e) => Err("rule_json is not valid JSON: "@ + e),
            },
        ),
{
    match parse_json(rule_json) {
        Ok(v) => validate_rule(&v),
        Err(e) => Err("rule_json is not valid JSON: ".to_owned().concat(e.as_str())),
    }
}

/// A rule that passes has everything that its evaluation reads.
pub proof fn law_valid_rule_is_complete(v: Json)
    requires
        rule_verdict(v) is Ok,
    ensures
        is_known(rule_verdict(v)->Ok_0),
        v.text_at("kind"@) == Some(rule_verdict(v)->Ok_0),
        rule_verdict(v)->Ok_0 == "balance.low"@ ==> v.text_at("account"@) is Some && v.int_at(
            "min_cents"@,
        ) is Some,
        rule_verdict(v)->Ok_0 == "bandwidth.high"@ ==> v.text_at("account"@) is Some && v.int_at(
            "max_gb"@,
        ) is Some,
        rule_verdict(v)->Ok_0 == "reminder"@ ==> v.uint_at("day_of_month"@) is Some && v.uint_at(
            "hour_ast"@,
        ) is Some && v.text_at("message"@) is Some && 1 <= v.uint_at("day_of_month"@)->0 <= 31
            && v.uint_at("hour_ast"@)->0 <= 23,
{
    lemma_kind_words();
}

// ---------------------------------------------------------------------------
// Evaluation
// ---------------------------------------------------------------------------

/// An account that fell below its threshold.
#[derive(Debug)]
pub struct BalanceLowHit {
    pub account: String,
    pub balance_cents: i64,
    pub min_cents: i64,
}

/// An account whose traffic rose above its threshold.
#[derive(Debug)]
pub struct BandwidthHighHit {
    pub account: String,
    pub used_gb: i64,
    pub max_gb: i64,
}

/// A reminder that came due.
#[derive(Debug)]
pub struct ReminderHit {
    pub message: String,
    pub day_of_month: u32,
    pub hour_ast: u32,
    pub minute_ast: u32,
}

/// What a rule has to report.
#[derive(Debug)]
pub enum Firing {
    PpBandBreach(Vec<DriftRow>),
    ProviderStale(Vec<StaleProvider>),
    BalanceLow(BalanceLowHit),
    BandwidthHigh(BandwidthHighHit),
    Reminder(ReminderHit),
}

/// What the rules are evaluated against: the active accounts, the latest balance of each,
/// the providers, and the clock in Puerto Rico.
#[derive(Debug)]
pub struct AlertView {
    pub accounts: Vec<Account>,
    pub balances: Vec<(AccountId, Cents)>,
    pub providers: Vec<ProviderRow>,
    pub now: i64,
    pub clock: Clock,
}

impl AlertView {
    /// Every account has its id, the clock shows a reading, and times fit in 64 bits.
    pub open spec fn well_formed(self) -> bool {
        &&& forall|i: int| 0 <= i < self.accounts@.len() ==> (#[trigger] self.accounts@[i]).id is Some
        &&& self.clock.well_formed()
        &&& self.clock.year < i32::MAX
        &&& ages_fit(self.providers@, self.now)
    }
}

pub open spec fn is_named(a: Account, name: Seq<char>) -> bool {
    a.name@ == name
}

pub open spec fn is_reading_of(b: (AccountId, Cents), id: AccountId) -> bool {
    b.0 == id
}

/// The latest balance of the first account with a name, if there is one.
pub open spec fn named_balance(view: AlertView, name: Seq<char>) -> Option<i64> {
    let k = first_index(view.accounts@, |a: Account| is_named(a, name));
    if k < view.accounts@.len() {
        let id = view.accounts@[k].id->0;
        let j = first_index(view.balances@, |b: (AccountId, Cents)| is_reading_of(b, id));
        if j < view.balances@.len() {
            Some(view.balances@[j].1.0)
        } else {
            None
        }
    } else {
        None
    }
}

fn find_named_balance(view: &AlertView, name: &str) -> (r: Option<i64>)
    requires
        view.well_formed(),
    ensures
        r == named_balance(*view, name@),
{
    let ghost p = |a: Account| is_named(a, name@);
    let mut i: usize = 0;
    while i < view.accounts.len() && !str_eq(view.accounts[i].name.as_str(), name)
        invariant
            i <= view.accounts@.len(),
            p == (|a: Account| is_named(a, name@)),
            forall|k: int| 0 <= k < i ==> !p(#[trigger] view.accounts@[k]),
        decreases view.accounts.len() - i,
    {
        i = i + 1;
    }
    proof {
        crate::order::lemma_first_index(view.accounts@, p, i as int);
    }
    if i == view.accounts.len() {
        return None;
    }
    let id: AccountId = match view.accounts[i].id {
        Some(id) => id,
        None => {
            return None;
        },
    };
    let ghost q = |b: (AccountId, Cents)| is_reading_of(b, id);
    let mut j: usize = 0;
    while j < view.balances.len() && view.balances[j].0.0 != id.0
        invariant
            j <= view.balances@.len(),
            q == (|b: (AccountId, Cents)| is_reading_of(b, id)),
            forall|k: int| 0 <= k < j ==> !q(#[trigger] view.balances@[k]),
        decreases view.balances.len() - j,
    {
        j = j + 1;
    }
    proof {
        crate::order::lemma_first_index(view.balances@, q, j as int);
    }
    if j == view.balances.len() {
        None
    } else {
        Some(view.balances[j].1.0)
    }
}

/// Whether a rule fired so recently that it stays silent.
pub open spec fn in_dedup_window(last_fire: Option<i64>, now: i64, dedup_window: i64) -> bool {
    last_fire is Some && now - last_fire->0 < dedup_window
}

/// Whether a rule fired so recently that it stays silent.
pub fn within_dedup_window(last_fire: Option<i64>, now: i64, dedup_window_secs: i64) -> (r: bool)
    requires
        last_fire is Some ==> i64::MIN <= now - last_fire->0 <= i64::MAX,
    ensures
        r == in_dedup_window(last_fire, now, dedup_window_secs),
{
    match last_fire {
        Some(last) => now - last < dedup_window_secs,
        None => false,
    }
}

/// Whether a sleeve of tier 2 is outside its bands.
pub open spec fn breach_in(view: AlertView) -> bool {
    let a = crate::report::tier2(view.balances@, view.accounts@);
    exists|rows: Seq<DriftRow>| #[trigger]
        crate::pp::is_drift(rows, a) && crate::pp::has_breach(rows)
}

/// How long a provider may stay silent by a rule.
pub open spec fn stale_limit(v: Json) -> i64 {
    match v.int_at("max_age_secs"@) {
        Some(x) => x,
        None => DEFAULT_STALE_MAX_AGE_SECS,
    }
}

/// The minute of a reminder.
pub open spec fn reminder_minute(v: Json) -> u64 {
    match v.uint_at("minute_ast"@) {
        Some(m) => m,
        None => 0,
    }
}

/// The instant of a reminder in the current month, if it has the fields for one.
pub open spec fn reminder_instant(v: Json, clock: Clock) -> Option<i64> {
    let day = v.uint_at("day_of_month"@);
    let hour = v.uint_at("hour_ast"@);
    if day is Some && hour is Some && v.text_at("message"@) is Some {
        reminder_target(clock, day->0 as u32, hour->0 as u32, reminder_minute(v) as u32)
    } else {
        None
    }
}

/// Whether a rule has something to report, apart from the dedup window.
pub open spec fn condition_holds(v: Json, view: AlertView, last_fire: Option<i64>) -> bool {
    let kind = v.text_at("kind"@);
    if kind == Some("pp.band_breach"@) {
        breach_in(view)
    } else if kind == Some("provider.stale"@) {
        stale_rows(view.providers@, view.now, stale_limit(v)).len() > 0
    } else if kind == Some("balance.low"@) {
        let balance = named_balance(view, v.text_at("account"@)->0);
        let min = v.int_at("min_cents"@);
        v.text_at("account"@) is Some && min is Some && balance is Some && balance->0 < min->0
    } else if kind == Some("bandwidth.high"@) {
        let used = named_balance(view, v.text_at("account"@)->0);
        let max = v.int_at("max_gb"@);
        v.text_at("account"@) is Some && max is Some && used is Some && used->0 > max->0
    } else if kind == Some("reminder"@) {
        let target = reminder_instant(v, view.clock);
        target is Some && reminder_fires(view.now, target->0, last_fire)
    } else {
        false
    }
}

/// Whether a rule fires. A reminder goes by its instant, every other rule also by the
/// dedup window.
pub open spec fn rule_fires(
    v: Json,
    view: AlertView,
    last_fire: Option<i64>,
    dedup_window: i64,
) -> bool {
    condition_holds(v, view, last_fire) && (v.text_at("kind"@) == Some("reminder"@)
        || !in_dedup_window(last_fire, view.now, dedup_window))
}

/// What a firing rule reports.
pub open spec fn is_report(f: Firing, v: Json, view: AlertView) -> bool {
    let kind = v.text_at("kind"@);
    match f {
        Firing::PpBandBreach(rows) => kind == Some("pp.band_breach"@) && crate::pp::is_drift(
            rows@,
            crate::report::tier2(view.balances@, view.accounts@),
        ),
        Firing::ProviderStale(s) => kind == Some("provider.stale"@) && are_stale(
            s@,
            view.providers@,
            view.now,
            stale_limit(v),
        ),
        Firing::BalanceLow(h) => kind == Some("balance.low"@) && v.text_at("account"@) == Some(
            h.account@,
        ) && named_balance(view, h.account@) == Some(h.balance_cents) && v.int_at("min_cents"@)
            == Some(h.min_cents),
        Firing::BandwidthHigh(h) => kind == Some("bandwidth.high"@) && v.text_at("account"@)
            == Some(h.account@) && named_balance(view, h.account@) == Some(h.used_gb) && v.int_at(
            "max_gb"@,
        ) == Some(h.max_gb),
        Firing::Reminder(h) => kind == Some("reminder"@) && v.text_at("message"@) == Some(
            h.message@,
        ) && v.uint_at("day_of_month"@) is Some && h.day_of_month == v.uint_at("day_of_month"@)->0
            as u32 && v.uint_at("hour_ast"@) is Some && h.hour_ast == v.uint_at("hour_ast"@)->0
            as u32 && h.minute_ast == reminder_minute(v) as u32,
    }
}

/// The outcome of an evaluation: a report exactly where the rule fires.
pub open spec fn is_outcome(
    r: Option<Firing>,
    v: Json,
    view: AlertView,
    last_fire: Option<i64>,
    dedup_window: i64,
) -> bool {
    &&& r is Some == rule_fires(v, view, last_fire, dedup_window)
    &&& r is Some ==> is_report(r->0, v, view)
}

pub open spec fn fire_fits(last_fire: Option<i64>, now: i64) -> bool {
    last_fire is Some ==> i64::MIN <= now - last_fire->0 <= i64::MAX
}

fn eval_pp_band_breach(v: &Json, view: &AlertView, last_fire: Option<i64>, dedup_window_secs: i64) -> (r:
    Option<Firing>)
    requires
        v.text_at("kind"@) == Some("pp.band_breach"@),
        fire_fits(last_fire, view.now),
    ensures
        is_outcome(r, *v, *view, last_fire, dedup_window_secs),
{
    proof {
        lemma_kind_words();
    }
    let alloc: Allocation = allocation(&view.balances, &view.accounts);
    let rows: Vec<DriftRow> = drift(&alloc);
    assert(alloc == crate::report::tier2(view.balances@, view.accounts@));
    let breach: bool = any_band_breach(rows.as_slice());
    proof {
        assert(crate::pp::is_drift(rows@, alloc));
        if breach_in(*view) {
            let other = choose|other: Seq<DriftRow>| #[trigger]
                crate::pp::is_drift(other, alloc) && crate::pp::has_breach(other);
            lemma_same_breaches(rows@, other, alloc);
        }
        assert(breach == breach_in(*view));
    }
    if !breach || within_dedup_window(last_fire, view.now, dedup_window_secs) {
        None
    } else {
        Some(Firing::PpBandBreach(rows))
    }
}

/// Two drift tables of one allocation agree on the breach.
proof fn lemma_same_breaches(a: Seq<DriftRow>, b: Seq<DriftRow>, alloc: Allocation)
    requires
        crate::pp::is_drift(a, alloc),
        crate::pp::is_drift(b, alloc),
        crate::pp::has_breach(b),
    ensures
        crate::pp::has_breach(a),
{
    let k = choose|k: int| 0 <= k < b.len() && (#[trigger] b[k]).band_breach;
    assert(a[k].band_breach == b[k].band_breach);
}

/// The kinds are different words.
proof fn lemma_kind_words()
    ensures
        "pp.band_breach"@ != "provider.stale"@,
        "pp.band_breach"@ != "balance.low"@,
        "pp.band_breach"@ != "bandwidth.high"@,
        "pp.band_breach"@ != "reminder"@,
        "provider.stale"@ != "balance.low"@,
        "provider.stale"@ != "bandwidth.high"@,
        "provider.stale"@ != "reminder"@,
        "balance.low"@ != "bandwidth.high"@,
        "balance.low"@ != "reminder"@,
        "bandwidth.high"@ != "reminder"@,
{
    reveal_strlit("pp.band_breach");
    reveal_strlit("provider.stale");
    reveal_strlit("balance.low");
    reveal_strlit("bandwidth.high");
    reveal_strlit("reminder");
    assert("pp.band_breach"@[1] == 'p');
    assert("provider.stale"@[1] == 'r');
    assert("bandwidth.high"@[1] == 'a');
    assert("balance.low"@[2] == 'l');
    assert("bandwidth.high"@[2] == 'n');
    assert("reminder"@[1] == 'e');
    assert("balance.low"@[1] == 'a');
}

fn eval_provider_stale(v: &Json, view: &AlertView, last_fire: Option<i64>, dedup_window_secs: i64) -> (r:
    Option<Firing>)
    requires
        v.text_at("kind"@) == Some("provider.stale"@),
        view.well_formed(),
        fire_fits(last_fire, view.now),
    ensures
        is_outcome(r, *v, *view, last_fire, dedup_window_secs),
{
    proof {
        lemma_kind_words();
    }
    let max_age: i64 = match v.get_i64("max_age_secs") {
        Some(x) => x,
        None => DEFAULT_STALE_MAX_AGE_SECS,
    };
    let stale: Vec<StaleProvider> = find_stale(view.providers.as_slice(), view.now, max_age);
    if stale.len() == 0 || within_dedup_window(last_fire, view.now, dedup_window_secs) {
        None
    } else {
        Some(Firing::ProviderStale(stale))
    }
}

fn eval_balance_low(v: &Json, view: &AlertView, last_fire: Option<i64>, dedup_window_secs: i64) -> (r:
    Option<Firing>)
    requires
        v.text_at("kind"@) == Some("balance.low"@),
        view.well_formed(),
        fire_fits(last_fire, view.now),
    ensures
        is_outcome(r, *v, *view, last_fire, dedup_window_secs),
{
    proof {
        lemma_kind_words();
    }
    match (v.get_str("account"), v.get_i64("min_cents")) {
        (Some(account), Some(min_cents)) => match find_named_balance(view, account) {
            Some(balance) => {
                if balance >= min_cents || within_dedup_window(
                    last_fire,
                    view.now,
                    dedup_window_secs,
                ) {
                    None
                } else {
                    Some(
                        Firing::BalanceLow(
                            BalanceLowHit {
                                account: account.to_owned(),
                                balance_cents: balance,
                                min_cents,
                            },
                        ),
                    )
                }
            },
            None => None,
        },
        _ => None,
    }
}

fn eval_bandwidth_high(v: &Json, view: &AlertView, last_fire: Option<i64>, dedup_window_secs: i64) -> (r:
    Option<Firing>)
    requires
        v.text_at("kind"@) == Some("bandwidth.high"@),
        view.well_formed(),
        fire_fits(last_fire, view.now),
    ensures
        is_outcome(r, *v, *view, last_fire, dedup_window_secs),
{
    proof {
        lemma_kind_words();
    }
    match (v.get_str("account"), v.get_i64("max_gb")) {
        (Some(account), Some(max_gb)) => match find_named_balance(view, account) {
            Some(used) => {
                if used <= max_gb || within_dedup_window(last_fire, view.now, dedup_window_secs) {
                    None
                } else {
                    Some(
                        Firing::BandwidthHigh(
                            BandwidthHighHit {
                                account: account.to_owned(),
                                used_gb: used,
                                max_gb,
                            },
                        ),
                    )
                }
            },
            None => None,
        },
        _ => None,
    }
}

fn eval_reminder(v: &Json, view: &AlertView, last_fire: Option<i64>, dedup_window_secs: i64) -> (r:
    Option<Firing>)
    requires
        v.text_at("kind"@) == Some("reminder"@),
        view.well_formed(),
    ensures
        is_outcome(r, *v, *view, last_fire, dedup_window_secs),
{
    proof {
        lemma_kind_words();
    }
    match (v.get_u64("day_of_month"), v.get_u64("hour_ast"), v.get_str("message")) {
        (Some(day), Some(hour), Some(message)) => {
            let minute: u64 = match v.get_u64("minute_ast") {
                Some(m) => m,
                None => 0,
            };
            match reminder_target_secs(view.clock, day as u32, hour as u32, minute as u32) {
                Some(target) => {
                    if !reminder_should_fire(view.now, target, last_fire) {
                        None
                    } else {
                        Some(
                            Firing::Reminder(
                                ReminderHit {
                                    message: message.to_owned(),
                                    day_of_month: day as u32,
                                    hour_ast: hour as u32,
                                    minute_ast: minute as u32,
                                },
                            ),
                        )
                    }
                },
                None => None,
            }
        },
        _ => None,
    }
}

/// Evaluates one rule. A rule of another kind, or one that lacks what it needs, is silent.
pub fn evaluate_rule(v: &Json, view: &AlertView, last_fire: Option<i64>, dedup_window_secs: i64) -> (r:
    Option<Firing>)
    requires
        view.well_formed(),
        fire_fits(last_fire, view.now),
    ensures
        is_outcome(r, *v, *view, last_fire, dedup_window_secs),
{
    match v.get_str("kind") {
        Some(kind) => {
            if str_eq(kind, "pp.band_breach") {
                eval_pp_band_breach(v, view, last_fire, dedup_window_secs)
            } else if str_eq(kind, "provider.stale") {
                eval_provider_stale(v, view, last_fire, dedup_window_secs)
            } else if str_eq(kind, "balance.low") {
                eval_balance_low(v, view, last_fire, dedup_window_secs)
            } else if str_eq(kind, "bandwidth.high") {
                eval_bandwidth_high(v, view, last_fire, dedup_window_secs)
            } else if str_eq(kind, "reminder") {
                eval_reminder(v, view, last_fire, dedup_window_secs)
            } else {
                None
            }
        },
        None => None,
    }
}

/// A recorded firing.
#[derive(Debug)]
pub struct AlertFire {
    pub rule_id: i64,
    pub fired_at: i64,
    /// What was reported; nothing for a firing read back without its payload.
    pub report: Option<Firing>,
}

/// Which rule fired when.
pub open spec fn log_of(history: Seq<AlertFire>) -> Seq<(i64, i64)> {
    history.map_values(|f: AlertFire| (f.rule_id, f.fired_at))
}

/// Records a firing.
pub fn insert_alert_history(history: &mut Vec<AlertFire>, rule_id: i64, report: Firing, now: i64)
    ensures
        final(history)@ == old(history)@.push(
            (AlertFire { rule_id, fired_at: now, report: Some(report) }),
        ),
{
    history.push(AlertFire { rule_id, fired_at: now, report: Some(report) });
}

/// The latest firing of a rule.
pub open spec fn last_in(log: Seq<(i64, i64)>, rule_id: i64) -> Option<i64>
    decreases log.len(),
{
    if log.len() == 0 {
        None
    } else {
        let rest = last_in(log.drop_last(), rule_id);
        if log.last().0 == rule_id && (rest is None || rest->0 < log.last().1) {
            Some(log.last().1)
        } else {
            rest
        }
    }
}

/// The latest firing of a rule.
pub fn latest_alert_fire(history: &Vec<AlertFire>, rule_id: i64) -> (r: Option<i64>)
    ensures
        r == last_in(log_of(history@), rule_id),
{
    let mut last: Option<i64> = None;
    let mut i: usize = 0;
    assert(log_of(history@.take(0)) =~= Seq::<(i64, i64)>::empty());
    while i < history.len()
        invariant
            i <= history.len(),
            last == last_in(log_of(history@.take(i as int)), rule_id),
        decreases history.len() - i,
    {
        assert(log_of(history@.take(i + 1)).drop_last() =~= log_of(history@.take(i as int)));
        assert(log_of(history@.take(i + 1)).last() == (
            history@[i as int].rule_id,
            history@[i as int].fired_at,
        ));
        let f: &AlertFire = &history[i];
        if f.rule_id == rule_id {
            last = match last {
                Some(t) => if t < f.fired_at {
                    Some(f.fired_at)
                } else {
                    last
                },
                None => Some(f.fired_at),
            };
        }
        i = i + 1;
    }
    assert(history@.take(history@.len() as int) == history@);
    last
}

/// Whether a stored rule fires.
pub open spec fn stored_rule_fires(
    rule: AlertRule,
    view: AlertView,
    last_fire: Option<i64>,
    dedup_window: i64,
) -> bool {
    match document(rule.rule_json@) {
        Ok(v) => rule_fires(v, view, last_fire, dedup_window),
        Err(_) => false,
    }
}

/// The log after the rules were evaluated in order.
pub open spec fn log_after(
    log: Seq<(i64, i64)>,
    rules: Seq<AlertRule>,
    view: AlertView,
    dedup_window: i64,
) -> Seq<(i64, i64)>
    decreases rules.len(),
{
    if rules.len() == 0 {
        log
    } else {
        let before = log_after(log, rules.drop_last(), view, dedup_window);
        let rule = rules.last();
        if stored_rule_fires(rule, view, last_in(before, rule.id), dedup_window) {
            before.push((rule.id, view.now))
        } else {
            before
        }
    }
}

/// Whether a recorded firing is that of one of the rules, with its report.
pub open spec fn is_fire_of(f: AlertFire, rules: Seq<AlertRule>, view: AlertView) -> bool {
    exists|k: int|
        0 <= k < rules.len() && is_fire_of_rule(f, #[trigger] rules[k], view)
}

pub open spec fn is_fire_of_rule(f: AlertFire, rule: AlertRule, view: AlertView) -> bool {
    &&& f.rule_id == rule.id
    &&& f.fired_at == view.now
    &&& f.report is Some
    &&& document(rule.rule_json@) is Ok
    &&& is_report(f.report->0, document(rule.rule_json@)->Ok_0, view)
}

/// The times since the recorded firings fit in 64 bits.
pub open spec fn log_fits(log: Seq<(i64, i64)>, now: i64) -> bool {
    forall|i: int| 0 <= i < log.len() ==> i64::MIN <= now - (#[trigger] log[i]).1 <= i64::MAX
}

proof fn lemma_last_fits(log: Seq<(i64, i64)>, now: i64, rule_id: i64)
    requires
        log_fits(log, now),
    ensures
        fire_fits(last_in(log, rule_id), now),
    decreases log.len(),
{
    if log.len() > 0 {
        assert(log_fits(log.drop_last(), now));
        lemma_last_fits(log.drop_last(), now, rule_id);
        assert(log[log.len() - 1] == log.last());
    }
}

/// The history after the rules were evaluated in order: those that fire are recorded
/// behind what was there, each with what it reports.
pub open spec fn is_evaluated(
    after: Seq<AlertFire>,
    before: Seq<AlertFire>,
    rules: Seq<AlertRule>,
    view: AlertView,
    dedup_window: i64,
) -> bool {
    &&& log_of(after) == log_after(log_of(before), rules, view, dedup_window)
    &&& before.len() <= after.len()
    &&& after.take(before.len() as int) == before
    &&& forall|i: int|
        before.len() <= i < after.len() ==> is_fire_of(#[trigger] after[i], rules, view)
}

/// Evaluates the rules in order and records those that fire.
pub fn evaluate_once(
    rules: &Vec<AlertRule>,
    view: &AlertView,
    history: &mut Vec<AlertFire>,
    dedup_window_secs: i64,
)
    requires
        view.well_formed(),
        log_fits(log_of(old(history)@), view.now),
    ensures
        is_evaluated(final(history)@, old(history)@, rules@, *view, dedup_window_secs),
{
    let ghost start = history@;
    let mut i: usize = 0;
    assert(rules@.take(0) =~= Seq::<AlertRule>::empty());
    while i < rules.len()
        invariant
            i <= rules.len(),
            view.well_formed(),
            log_fits(log_of(history@), view.now),
            log_of(history@) == log_after(
                log_of(start),
                rules@.take(i as int),
                *view,
                dedup_window_secs,
            ),
            start.len() <= history@.len(),
            history@.take(start.len() as int) == start,
            forall|k: int|
                start.len() <= k < history@.len() ==> is_fire_of(
                    #[trigger] history@[k],
                    rules@,
                    *view,
                ),
        decreases rules.len() - i,
    {
        assert(rules@.take(i + 1).drop_last() == rules@.take(i as int));
        let rule: &AlertRule = &rules[i];
        let ghost before = history@;
        match parse_json(rule.rule_json.as_str()) {
            Ok(v) => {
                let last: Option<i64> = latest_alert_fire(history, rule.id);
                proof {
                    lemma_last_fits(log_of(history@), view.now, rule.id);
                }
                match evaluate_rule(&v, view, last, dedup_window_secs) {
                    Some(f) => {
                        insert_alert_history(history, rule.id, f, view.now);
                        assert(is_fire_of_rule(history@.last(), rules@[i as int], *view));
                        assert(log_of(history@) =~= log_of(before).push((rule.id, view.now)));
                        assert(history@.take(start.len() as int) =~= start);
                    },
                    None => {},
                }
            },
            Err(_) => {},
        }
        i = i + 1;
    }
    assert(rules@.take(rules@.len() as int) == rules@);
}

// ---------------------------------------------------------------------------
// Laws of the evaluation
// ---------------------------------------------------------------------------

proof fn lemma_last_bound(log: Seq<(i64, i64)>, rule_id: i64, now: i64)
    requires
        forall|i: int| 0 <= i < log.len() ==> (#[trigger] log[i]).1 <= now,
    ensures
        last_in(log, rule_id) is Some ==> last_in(log, rule_id)->0 <= now,
    decreases log.len(),
{
    if log.len() > 0 {
        let d = log.drop_last();
        assert forall|i: int| 0 <= i < d.len() implies (#[trigger] d[i]).1 <= now by {
            assert(d[i] == log[i]);
        }
        assert(log[log.len() - 1].1 <= now);
        lemma_last_bound(d, rule_id, now);
    }
}

/// A firing that is recorded last is read back as the latest of its rule, and the other
/// rules keep theirs.
pub proof fn law_fire_is_read_back(
    history: Seq<AlertFire>,
    rule_id: i64,
    report: Firing,
    now: i64,
    other: i64,
)
    requires
        forall|i: int| 0 <= i < history.len() ==> (#[trigger] history[i]).fired_at <= now,
    ensures
        ({
            let after = history.push(AlertFire { rule_id, fired_at: now, report: Some(report) });
            &&& last_in(log_of(after), rule_id) == Some(now)
            &&& other != rule_id ==> last_in(log_of(after), other) == last_in(
                log_of(history),
                other,
            )
        }),
{
    let after = history.push(AlertFire { rule_id, fired_at: now, report: Some(report) });
    let log = log_of(history);
    assert(log_of(after) =~= log.push((rule_id, now)));
    assert forall|i: int| 0 <= i < log.len() implies (#[trigger] log[i]).1 <= now by {
        assert(history[i].fired_at <= now);
    }
    lemma_last_bound(log, rule_id, now);
    assert(log.push((rule_id, now)).drop_last() =~= log);
}

/// Within the dedup window only a reminder can fire.
pub proof fn law_dedup_silences(v: Json, view: AlertView, last_fire: Option<i64>, dedup_window: i64)
    requires
        in_dedup_window(last_fire, view.now, dedup_window),
        v.text_at("kind"@) != Some("reminder"@),
    ensures
        !rule_fires(v, view, last_fire, dedup_window),
{
}

/// A rule that just fired does not fire again at the same instant, nor does any rule that
/// shares its id.
proof fn lemma_fired_is_silent(v: Json, view: AlertView, last_fire: Option<i64>, dedup_window: i64)
    requires
        dedup_window > 0,
        last_fire is Some && last_fire->0 >= view.now,
    ensures
        !rule_fires(v, view, last_fire, dedup_window),
{
    lemma_kind_words();
}

proof fn lemma_last_after_push(log: Seq<(i64, i64)>, entry: (i64, i64), id: i64)
    ensures
        id != entry.0 ==> last_in(log.push(entry), id) == last_in(log, id),
        id == entry.0 ==> last_in(log.push(entry), id) is Some && last_in(log.push(entry), id)->0
            >= entry.1,
        last_in(log, id) is Some ==> last_in(log.push(entry), id) is Some && last_in(
            log.push(entry),
            id,
        )->0 >= last_in(log, id)->0,
{
    assert(log.push(entry).drop_last() =~= log);
}

/// After the rules were evaluated, the latest firing of an id is as before or at the
/// instant of the evaluation or later.
proof fn lemma_last_after(
    log: Seq<(i64, i64)>,
    rules: Seq<AlertRule>,
    view: AlertView,
    dedup_window: i64,
    n: int,
    id: i64,
)
    requires
        0 <= n <= rules.len(),
    ensures
        ({
            let a = last_in(log_after(log, rules.take(n), view, dedup_window), id);
            let b = last_in(log_after(log, rules, view, dedup_window), id);
            a == b || (b is Some && b->0 >= view.now)
        }),
    decreases rules.len() - n,
{
    if n == rules.len() {
        assert(rules.take(n) == rules);
    } else {
        let before = log_after(log, rules.take(n), view, dedup_window);
        assert(rules.take(n + 1).drop_last() == rules.take(n));
        lemma_last_after(log, rules, view, dedup_window, n + 1, id);
        lemma_last_after_push(before, (rules[n].id, view.now), id);
        lemma_monotone(log, rules, view, dedup_window, n + 1, id);
    }
}

/// The latest firing of an id never moves back.
proof fn lemma_monotone(
    log: Seq<(i64, i64)>,
    rules: Seq<AlertRule>,
    view: AlertView,
    dedup_window: i64,
    n: int,
    id: i64,
)
    requires
        0 <= n <= rules.len(),
    ensures
        ({
            let a = last_in(log_after(log, rules.take(n), view, dedup_window), id);
            let b = last_in(log_after(log, rules, view, dedup_window), id);
            a is Some ==> b is Some && b->0 >= a->0
        }),
    decreases rules.len() - n,
{
    if n == rules.len() {
        assert(rules.take(n) == rules);
    } else {
        let before = log_after(log, rules.take(n), view, dedup_window);
        assert(rules.take(n + 1).drop_last() == rules.take(n));
        lemma_last_after_push(before, (rules[n].id, view.now), id);
        lemma_monotone(log, rules, view, dedup_window, n + 1, id);
    }
}

/// No rule of an evaluated list fires again at the same instant.
proof fn lemma_no_second_fire(
    log: Seq<(i64, i64)>,
    rules: Seq<AlertRule>,
    view: AlertView,
    dedup_window: i64,
    k: int,
)
    requires
        dedup_window > 0,
        0 <= k < rules.len(),
    ensures
        !stored_rule_fires(
            rules[k],
            view,
            last_in(log_after(log, rules, view, dedup_window), rules[k].id),
            dedup_window,
        ),
{
    let rule = rules[k];
    let before = log_after(log, rules.take(k), view, dedup_window);
    let last = last_in(log_after(log, rules, view, dedup_window), rule.id);
    assert(rules.take(k + 1).drop_last() == rules.take(k));
    lemma_last_after_push(before, (rule.id, view.now), rule.id);
    lemma_last_after(log, rules, view, dedup_window, k + 1, rule.id);
    lemma_monotone(log, rules, view, dedup_window, k + 1, rule.id);
    if document(rule.rule_json@) is Ok {
        let v = document(rule.rule_json@)->Ok_0;
        if last is Some && last->0 >= view.now {
            lemma_fired_is_silent(v, view, last, dedup_window);
        }
    }
}

proof fn lemma_unchanged(
    log: Seq<(i64, i64)>,
    done: Seq<(i64, i64)>,
    rules: Seq<AlertRule>,
    view: AlertView,
    dedup_window: i64,
    n: int,
)
    requires
        dedup_window > 0,
        0 <= n <= rules.len(),
        done == log_after(log, rules, view, dedup_window),
    ensures
        log_after(done, rules.take(n), view, dedup_window) == done,
    decreases n,
{
    if n == 0 {
        assert(rules.take(0) =~= Seq::<AlertRule>::empty());
    } else {
        lemma_unchanged(log, done, rules, view, dedup_window, n - 1);
        assert(rules.take(n).drop_last() == rules.take(n - 1));
        assert(rules.take(n).last() == rules[n - 1]);
        lemma_no_second_fire(log, rules, view, dedup_window, n - 1);
    }
}

/// A second evaluation at the same instant records nothing: each condition is reported
/// once.
pub proof fn law_second_evaluation_is_silent(
    log: Seq<(i64, i64)>,
    rules: Seq<AlertRule>,
    view: AlertView,
    dedup_window: i64,
)
    requires
        dedup_window > 0,
    ensures
        ({
            let done = log_after(log, rules, view, dedup_window);
            log_after(done, rules, view, dedup_window) == done
        }),
{
    let done = log_after(log, rules, view, dedup_window);
    lemma_unchanged(log, done, rules, view, dedup_window, rules.len() as int);
    assert(rules.take(rules.len() as int) == rules);
}

// ---------------------------------------------------------------------------
// Summaries
// ---------------------------------------------------------------------------

/// What a summary needs of a drift row.
#[derive(Debug)]
pub struct BreachReading {
    pub asset_class: String,
    pub band_breach: bool,
    /// The row's share of the total in whole percent.
    pub whole_pct: String,
}

/// A payload as it was read back.
#[derive(Debug)]
pub enum AlertReading {
    Stale(Vec<StaleProvider>),
    Breach(Vec<BreachReading>),
    BalanceLow(BalanceLowHit),
    BandwidthHigh(BandwidthHighHit),
    Reminder(ReminderHit),
    /// The payload has another shape than its rule's.
    Unreadable,
}

/// Which shape the payload of a rule has.
#[derive(Clone, Copy, Debug, PartialEq, Eq, Structural)]
pub enum PayloadShape {
    Stale,
    Breach,
    BalanceLow,
    BandwidthHigh,
    Reminder,
    Other,
}

/// Which shape the payload of a rule kind has.
pub open spec fn shape_of(kind: Option<Seq<char>>) -> PayloadShape {
    if kind == Some("provider.stale"@) {
        PayloadShape::Stale
    } else if kind == Some("pp.band_breach"@) {
        PayloadShape::Breach
    } else if kind == Some("balance.low"@) {
        PayloadShape::BalanceLow
    } else if kind == Some("bandwidth.high"@) {
        PayloadShape::BandwidthHigh
    } else if kind == Some("reminder"@) {
        PayloadShape::Reminder
    } else {
        PayloadShape::Other
    }
}

/// Which shape the payload of a rule kind has.
pub fn payload_shape(rule_kind: Option<&str>) -> (r: PayloadShape)
    ensures
        r == shape_of(opt_view(rule_kind)),
{
    match rule_kind {
        Some(k) => {
            if str_eq(k, "provider.stale") {
                PayloadShape::Stale
            } else if str_eq(k, "pp.band_breach") {
                PayloadShape::Breach
            } else if str_eq(k, "balance.low") {
                PayloadShape::BalanceLow
            } else if str_eq(k, "bandwidth.high") {
                PayloadShape::BandwidthHigh
            } else if str_eq(k, "reminder") {
                PayloadShape::Reminder
            } else {
                PayloadShape::Other
            }
        },
        None => PayloadShape::Other,
    }
}

/// Text, then a separator unless the text is empty, then more text.
pub open spec fn listed_after(sofar: Seq<char>, first: bool, next: Seq<char>) -> Seq<char> {
    if first {
        next
    } else {
        sofar + ", "@ + next
    }
}

/// The stale providers in one line.
pub open spec fn stale_list(v: Seq<StaleProvider>) -> Seq<char>
    decreases v.len(),
{
    if v.len() == 0 {
        Seq::empty()
    } else {
        listed_after(
            stale_list(v.drop_last()),
            v.len() == 1,
            v.last().label@ + " ("@ + v.last().reason@ + ")"@,
        )
    }
}

/// The breached sleeves among some rows.
pub open spec fn breached(rows: Seq<BreachReading>) -> Seq<BreachReading> {
    crate::order::kept(rows, |r: BreachReading| r.band_breach)
}

/// The sleeves in one line.
pub open spec fn breach_list(v: Seq<BreachReading>) -> Seq<char>
    decreases v.len(),
{
    if v.len() == 0 {
        Seq::empty()
    } else {
        listed_after(
            breach_list(v.drop_last()),
            v.len() == 1,
            v.last().asset_class@ + " "@ + v.last().whole_pct@ + "%"@,
        )
    }
}

/// A payload without the white space around it, cut where it is long.
pub open spec fn cut_payload(payload: Seq<char>) -> Seq<char> {
    let t = trimmed(payload);
    if t.len() > 120 {
        t.take(117) + "..."@
    } else {
        t
    }
}

/// The one-line summary of a firing.
pub open spec fn summary(shape: PayloadShape, payload: Seq<char>, reading: AlertReading) -> Seq<char> {
    match shape {
        PayloadShape::Stale => match reading {
            AlertReading::Stale(v) => if v@.len() > 0 {
                dec(v@.len()) + " provider(s) stale: "@ + stale_list(v@)
            } else {
                "provider(s) stale"@
            },
            _ => "provider(s) stale"@,
        },
        PayloadShape::Breach => match reading {
            AlertReading::Breach(rows) => if breached(rows@).len() > 0 {
                "T2 band breach: "@ + breach_list(breached(rows@))
            } else {
                "T2 rebalance bands breached"@
            },
            _ => "T2 rebalance bands breached"@,
        },
        PayloadShape::BalanceLow => match reading {
            AlertReading::BalanceLow(h) => h.account@ + " low: "@ + shown(h.balance_cents as int)
                + " (min "@ + shown(h.min_cents as int) + ")"@,
            _ => "account balance low"@,
        },
        PayloadShape::BandwidthHigh => match reading {
            AlertReading::BandwidthHigh(h) => h.account@ + " high: "@ + dec_int(h.used_gb as int)
                + " GB (max "@ + dec_int(h.max_gb as int) + " GB)"@,
            _ => "bandwidth high"@,
        },
        PayloadShape::Reminder => match reading {
            AlertReading::Reminder(h) => "⏰ "@ + h.message@,
            _ => "reminder"@,
        },
        PayloadShape::Other => cut_payload(payload),
    }
}

fn list_stale(v: &Vec<StaleProvider>) -> (r: String)
    ensures
        r@ == stale_list(v@),
{
    let mut out: String = String::new();
    let mut i: usize = 0;
    while i < v.len()
        invariant
            i <= v.len(),
            out@ == stale_list(v@.take(i as int)),
        decreases v.len() - i,
    {
        assert(v@.take(i + 1).drop_last() == v@.take(i as int));
        let item: String = v[i].label.as_str().to_owned().concat(" (").concat(
            v[i].reason.as_str(),
        ).concat(")");
        if i == 0 {
            out = item;
        } else {
            out = out.concat(", ").concat(item.as_str());
        }
        i = i + 1;
    }
    assert(v@.take(v@.len() as int) == v@);
    out
}

fn list_breaches(rows: &Vec<BreachReading>) -> (r: (bool, String))
    ensures
        r.0 == (breached(rows@).len() > 0),
        r.1@ == breach_list(breached(rows@)),
{
    let ghost p = |r: BreachReading| r.band_breach;
    let mut out: String = String::new();
    let mut any: bool = false;
    let mut i: usize = 0;
    while i < rows.len()
        invariant
            i <= rows.len(),
            p == (|r: BreachReading| r.band_breach),
            any == (crate::order::kept(rows@.take(i as int), p).len() > 0),
            out@ == breach_list(crate::order::kept(rows@.take(i as int), p)),
        decreases rows.len() - i,
    {
        assert(rows@.take(i + 1).drop_last() == rows@.take(i as int));
        if rows[i].band_breach {
            let ghost a = crate::order::kept(rows@.take(i as int), p);
            assert(a.push(rows@[i as int]).drop_last() =~= a);
            let item: String = rows[i].asset_class.as_str().to_owned().concat(" ").concat(
                rows[i].whole_pct.as_str(),
            ).concat("%");
            if any {
                out = out.concat(", ").concat(item.as_str());
            } else {
                out = item;
            }
            any = true;
        }
        i = i + 1;
    }
    assert(rows@.take(rows@.len() as int) == rows@);
    (any, out)
}

fn cut(payload: &str) -> (r: String)
    ensures
        r@ == cut_payload(payload@),
{
    let t: String = trim(payload);
    let v: Vec<char> = crate::text::to_chars(t.as_str());
    if v.len() > 120 {
        let head: String = crate::text::from_char_range(&v, 0, 117);
        assert(head@ =~= t@.take(117));
        head.concat("...")
    } else {
        t
    }
}

/// The one-line summary of a firing, from its rule's kind and its payload. A payload of
/// another shape than its rule's has a summary without details; that of an unknown kind is
/// the payload itself, cut where it is long.
pub fn summarize_alert(rule_kind: Option<&str>, payload_json: &str, reading: &AlertReading) -> (r:
    String)
    ensures
        r@ == summary(shape_of(opt_view(rule_kind)), payload_json@, *reading),
{
    match payload_shape(rule_kind) {
        PayloadShape::Stale => match reading {
            AlertReading::Stale(v) => if v.len() > 0 {
                dec_string(v.len() as u64).concat(" provider(s) stale: ").concat(
                    list_stale(v).as_str(),
                )
            } else {
                "provider(s) stale".to_owned()
            },
            _ => "provider(s) stale".to_owned(),
        },
        PayloadShape::Breach => match reading {
            AlertReading::Breach(rows) => {
                let (any, list): (bool, String) = list_breaches(rows);
                if any {
                    "T2 band breach: ".to_owned().concat(list.as_str())
                } else {
                    "T2 rebalance bands breached".to_owned()
                }
            },
            _ => "T2 rebalance bands breached".to_owned(),
        },
        PayloadShape::BalanceLow => match reading {
            AlertReading::BalanceLow(h) => h.account.as_str().to_owned().concat(" low: ").concat(
                Cents(h.balance_cents).to_string().as_str(),
            ).concat(" (min ").concat(Cents(h.min_cents).to_string().as_str()).concat(")"),
            _ => "account balance low".to_owned(),
        },
        PayloadShape::BandwidthHigh => match reading {
            AlertReading::BandwidthHigh(h) => h.account.as_str().to_owned().concat(
                " high: ",
            ).concat(int_string(h.used_gb).as_str()).concat(" GB (max ").concat(
                int_string(h.max_gb).as_str(),
            ).concat(" GB)"),
            _ => "bandwidth high".to_owned(),
        },
        PayloadShape::Reminder => match reading {
            AlertReading::Reminder(h) => "⏰ ".to_owned().concat(h.message.as_str()),
            _ => "reminder".to_owned(),
        },
        PayloadShape::Other => cut(payload_json),
    }
}

/// The row of a sleeve in the breach message.
pub open spec fn breach_row(row: DriftRow, share: DriftShare) -> Seq<char> {
    let target = if row.targeted {
        "33.33"@
    } else {
        "0.00"@
    };
    let status = if row.band_breach {
        "BREACH"@
    } else if row.targeted {
        "ok"@
    } else {
        "-"@
    };
    left_aligned(row.asset_class@, 18) + " "@ + right_aligned(shown(row.actual_cents.0 as int), 14)
        + " "@ + right_aligned(share.actual_pct@, 7) + "% "@ + right_aligned(target, 7) + "% "@
        + right_aligned(share.drift_pp@, 9) + " "@ + right_aligned(status, 10) + "\n"@
}

/// Text followed by the first `n` rows of the breach message.
pub open spec fn with_breach_rows(
    out: Seq<char>,
    rows: Seq<DriftRow>,
    shares: Seq<DriftShare>,
    n: nat,
) -> Seq<char>
    decreases n,
{
    if n == 0 {
        out
    } else {
        with_breach_rows(out, rows, shares, (n - 1) as nat) + breach_row(rows[n - 1], shares[n - 1])
    }
}

/// The head of the breach message.
pub open spec fn breach_head(total: Cents) -> Seq<char> {
    "T2 rebalance bands breached (22/44).\n"@ + "================================\n\n"@
        + "T2 total: "@ + shown(total.0 as int) + "\n\n"@
        + "sleeve                     actual        %   target   drift_pp     status\n"@ + run_of(
        '-',
        72,
    ) + "\n"@
}

fn one_breach_row(row: &DriftRow, share: &DriftShare) -> (r: String)
    ensures
        r@ == breach_row(*row, *share),
{
    let target: &str = if row.targeted {
        "33.33"
    } else {
        "0.00"
    };
    let status: &str = if row.band_breach {
        "BREACH"
    } else if row.targeted {
        "ok"
    } else {
        "-"
    };
    align_left(row.asset_class.as_str(), 18).concat(" ").concat(
        align_right(row.actual_cents.to_string().as_str(), 14).as_str(),
    ).concat(" ").concat(align_right(share.actual_pct.as_str(), 7).as_str()).concat("% ").concat(
        align_right(target, 7).as_str(),
    ).concat("% ").concat(align_right(share.drift_pp.as_str(), 9).as_str()).concat(" ").concat(
        align_right(status, 10).as_str(),
    ).concat("\n")
}

/// The message about breached bands. The shares are those of the rows, in their order.
pub fn render_pp_band_breach(alloc: &Allocation, rows: &[DriftRow], shares: &[DriftShare]) -> (r:
    String)
    requires
        shares@.len() == rows@.len(),
    ensures
        r@ == with_breach_rows(breach_head(alloc.total), rows@, shares@, rows@.len())
            + "\nBands: lower=22%  upper=44%\n"@
            + "\nRebalance via new contributions where possible (Rowland).\n"@,
{
    let mut out: String = "T2 rebalance bands breached (22/44).\n".to_owned().concat(
        "================================\n\n",
    ).concat("T2 total: ").concat(alloc.total.to_string().as_str()).concat("\n\n").concat(
        "sleeve                     actual        %   target   drift_pp     status\n",
    ).concat(repeated('-', 72).as_str()).concat("\n");
    let mut i: usize = 0;
    while i < rows.len()
        invariant
            i <= rows.len(),
            shares@.len() == rows@.len(),
            out@ == with_breach_rows(breach_head(alloc.total), rows@, shares@, i as nat),
        decreases rows.len() - i,
    {
        let row: String = one_breach_row(&rows[i], &shares[i]);
        out.append(row.as_str());
        i = i + 1;
    }
    out.append("\nBands: lower=22%  upper=44%\n");
    out.append("\nRebalance via new contributions where possible (Rowland).\n");
    out
}

} // verus!
