//! Calendar export (RFC 5545): upcoming expenses, renewals and confirmed recurring series
//! as all-day events.

use crate::db::{PlannedExpense, SubscriptionRecord};
use crate::ledger::{list_active_subscriptions, list_planned_expenses_due};
use crate::order::stable_indices;
use crate::rpc::LabeledSeries;
use crate::text::{dec_string, int_string, to_chars};
use crate::time::{format_utc, now_secs};
use vstd::prelude::*;

verus! {

use crate::ledger::{active_subscriptions, due_expenses};
use crate::money::shown;
use crate::order::{law_stable_order, sorted_by_keys, stable_order};
use crate::text::{all_digits, dec, dec2, dec_int, is_digit, lemma_dec_value};
use crate::time::{shown_year, utc_fields, utc_text, valid_instant, zero_padded};

/// A calendar event.
#[derive(Debug)]
pub struct CalEvent {
    /// Stable identifier, `<source>-<id>@arca`.
    pub uid: String,
    pub start_secs: i64,
    pub summary: String,
    pub description: Option<String>,
}

impl Clone for CalEvent {
    fn clone(&self) -> (r: CalEvent)
        ensures
            r == *self,
    {
        CalEvent {
            uid: self.uid.clone(),
            start_secs: self.start_secs,
            summary: self.summary.clone(),
            description: crate::text::clone_opt(&self.description),
        }
    }
}

// ---------------------------------------------------------------------------
// Events
// ---------------------------------------------------------------------------

/// The event of a planned expense.
pub open spec fn is_planned_event(e: CalEvent, p: PlannedExpense) -> bool {
    let amount = shown(p.amount_cents.0 as int);
    &&& e.uid@ == "planned-"@ + dec_int(p.id as int) + "@arca"@
    &&& e.start_secs == p.due_at
    &&& e.summary@ == "[arca] "@ + p.description@ + " — "@ + amount
    &&& e.description is Some
    &&& e.description->0@ == "Planned expense ("@ + p.status@ + "): "@ + amount
}

/// The events of the planned expenses, one each.
pub fn events_from_planned(rows: &Vec<PlannedExpense>) -> (r: Vec<CalEvent>)
    ensures
        r@.len() == rows@.len(),
        forall|i: int| 0 <= i < r@.len() ==> is_planned_event(#[trigger] r@[i], rows@[i]),
{
    let mut out: Vec<CalEvent> = Vec::new();
    let mut i: usize = 0;
    while i < rows.len()
        invariant
            i <= rows.len(),
            out@.len() == i,
            forall|k: int| 0 <= k < i ==> is_planned_event(#[trigger] out@[k], rows@[k]),
        decreases rows.len() - i,
    {
        let p: &PlannedExpense = &rows[i];
        let amount: String = p.amount_cents.to_string();
        out.push(
            CalEvent {
                uid: "planned-".to_owned().concat(int_string(p.id).as_str()).concat("@arca"),
                start_secs: p.due_at,
                summary: "[arca] ".to_owned().concat(p.description.as_str()).concat(" — ").concat(
                    amount.as_str(),
                ),
                description: Some(
                    "Planned expense (".to_owned().concat(p.status.as_str()).concat("): ").concat(
                        amount.as_str(),
                    ),
                ),
            },
        );
        i = i + 1;
    }
    out
}

/// Whether a subscription's next charge falls in the window.
pub open spec fn renews_in(s: SubscriptionRecord, since: i64, until: i64) -> bool {
    s.next_charge_at is Some && since <= s.next_charge_at->0 < until
}

/// The subscriptions whose next charge falls in the window.
pub open spec fn renewing(rows: Seq<SubscriptionRecord>, since: i64, until: i64) -> Seq<
    SubscriptionRecord,
>
    decreases rows.len(),
{
    if rows.len() == 0 {
        rows
    } else if renews_in(rows.last(), since, until) {
        renewing(rows.drop_last(), since, until).push(rows.last())
    } else {
        renewing(rows.drop_last(), since, until)
    }
}

/// The event of a subscription renewal.
pub open spec fn is_renewal_event(e: CalEvent, s: SubscriptionRecord) -> bool {
    let amount = match s.amount_cents {
        Some(c) => shown(c.0 as int),
        None => "(usage-based)"@,
    };
    let cadence = match s.cadence {
        Some(c) => c@,
        None => "?"@,
    };
    &&& e.uid@ == "sub-"@ + dec_int(s.id as int) + "@arca"@
    &&& Some(e.start_secs) == s.next_charge_at
    &&& e.summary@ == "[arca] "@ + s.name@ + " renews — "@ + amount
    &&& e.description is Some
    &&& e.description->0@ == "Subscription renewal: "@ + s.name@ + " ("@ + s.provider_kind@
        + "), cadence="@ + cadence
}

/// The events of the subscriptions whose next charge falls in the window.
pub fn events_from_subscriptions(rows: &Vec<SubscriptionRecord>, since: i64, until: i64) -> (r: Vec<
    CalEvent,
>)
    ensures
        r@.len() == renewing(rows@, since, until).len(),
        forall|i: int|
            0 <= i < r@.len() ==> is_renewal_event(
                #[trigger] r@[i],
                renewing(rows@, since, until)[i],
            ),
{
    let mut out: Vec<CalEvent> = Vec::new();
    let mut i: usize = 0;
    while i < rows.len()
        invariant
            i <= rows.len(),
            out@.len() == renewing(rows@.take(i as int), since, until).len(),
            forall|k: int|
                0 <= k < out@.len() ==> is_renewal_event(
                    #[trigger] out@[k],
                    renewing(rows@.take(i as int), since, until)[k],
                ),
        decreases rows.len() - i,
    {
        assert(rows@.take(i + 1).drop_last() == rows@.take(i as int));
        let s: &SubscriptionRecord = &rows[i];
        match s.next_charge_at {
            Some(at) => {
                if since <= at && at < until {
                    let amount: String = match s.amount_cents {
                        Some(c) => c.to_string(),
                        None => "(usage-based)".to_owned(),
                    };
                    let cadence: &str = match &s.cadence {
                        Some(c) => c.as_str(),
                        None => "?",
                    };
                    out.push(
                        CalEvent {
                            uid: "sub-".to_owned().concat(int_string(s.id).as_str()).concat(
                                "@arca",
                            ),
                            start_secs: at,
                            summary: "[arca] ".to_owned().concat(s.name.as_str()).concat(
                                " renews — ",
                            ).concat(amount.as_str()),
                            description: Some(
                                "Subscription renewal: ".to_owned().concat(s.name.as_str()).concat(
                                    " (",
                                ).concat(s.provider_kind.as_str()).concat("), cadence=").concat(
                                    cadence,
                                ),
                            ),
                        },
                    );
                }
            },
            None => {},
        }
        i = i + 1;
    }
    assert(rows@.take(rows@.len() as int) == rows@);
    out
}

/// Whether a confirmed series is predicted to charge in the window.
pub open spec fn charges_in(s: LabeledSeries, since: i64, until: i64) -> bool {
    s.label is Some && since <= s.series.predicted_next < until
}

/// The confirmed series that are predicted to charge in the window.
pub open spec fn charging(rows: Seq<LabeledSeries>, since: i64, until: i64) -> Seq<LabeledSeries>
    decreases rows.len(),
{
    if rows.len() == 0 {
        rows
    } else if charges_in(rows.last(), since, until) {
        charging(rows.drop_last(), since, until).push(rows.last())
    } else {
        charging(rows.drop_last(), since, until)
    }
}

/// The text with each space made an underscore.
pub open spec fn underscored(s: Seq<char>) -> Seq<char> {
    s.map_values(
        |c: char|
            if c == ' ' {
                '_'
            } else {
                c
            },
    )
}

/// The event of a confirmed series; its amount is the observed average, marked as an
/// estimate.
pub open spec fn is_series_event(e: CalEvent, ls: LabeledSeries) -> bool {
    let s = ls.series;
    let name = match ls.display_name {
        Some(n) => n@,
        None => s.display@,
    };
    let label = ls.label->0@;
    let avg = shown(s.avg_amount.0 as int);
    &&& e.uid@ == "recurring-"@ + underscored(s.payee@) + "@arca"@
    &&& e.start_secs == s.predicted_next
    &&& e.summary@ == "[arca] "@ + name + " ("@ + label + ") ~"@ + avg + " est"@
    &&& e.description is Some
    &&& e.description->0@ == "Confirmed recurring "@ + label + " ("@ + s.cadence.name()
        + "). Estimated from history: avg "@ + avg + ", last "@ + shown(s.last_amount.0 as int)
        + ", over "@ + dec(s.count as nat)
        + " charges. Next amount unknown until it posts."@
}

fn underscore(s: &str) -> (r: String)
    ensures
        r@ == underscored(s@),
{
    let v: Vec<char> = to_chars(s);
    let mut out: String = String::new();
    let mut i: usize = 0;
    while i < v.len()
        invariant
            i <= v.len(),
            out@ == underscored(v@.take(i as int)),
        decreases v.len() - i,
    {
        out.push(
            if v[i] == ' ' {
                '_'
            } else {
                v[i]
            },
        );
        i = i + 1;
        assert(out@ =~= underscored(v@.take(i as int)));
    }
    assert(v@.take(v@.len() as int) == v@);
    out
}

fn series_event(ls: &LabeledSeries, label: &String) -> (r: CalEvent)
    requires
        ls.label == Some(*label),
    ensures
        is_series_event(r, *ls),
{
    let s = &ls.series;
    let name: &str = match &ls.display_name {
        Some(n) => n.as_str(),
        None => s.display.as_str(),
    };
    let avg: String = s.avg_amount.to_string();
    CalEvent {
        uid: "recurring-".to_owned().concat(underscore(s.payee.as_str()).as_str()).concat("@arca"),
        start_secs: s.predicted_next,
        summary: "[arca] ".to_owned().concat(name).concat(" (").concat(label.as_str()).concat(
            ") ~",
        ).concat(avg.as_str()).concat(" est"),
        description: Some(
            "Confirmed recurring ".to_owned().concat(label.as_str()).concat(" (").concat(
                s.cadence.as_str(),
            ).concat("). Estimated from history: avg ").concat(avg.as_str()).concat(
                ", last ",
            ).concat(s.last_amount.to_string().as_str()).concat(", over ").concat(
                dec_string(s.count as u64).as_str(),
            ).concat(" charges. Next amount unknown until it posts."),
        ),
    }
}

/// The events of the confirmed series that are predicted to charge in the window. A series
/// that the operator has not labelled is left out.
pub fn events_from_recurring(series: &Vec<LabeledSeries>, since: i64, until: i64) -> (r: Vec<
    CalEvent,
>)
    ensures
        r@.len() == charging(series@, since, until).len(),
        forall|i: int|
            0 <= i < r@.len() ==> is_series_event(
                #[trigger] r@[i],
                charging(series@, since, until)[i],
            ),
{
    let mut out: Vec<CalEvent> = Vec::new();
    let mut i: usize = 0;
    while i < series.len()
        invariant
            i <= series.len(),
            out@.len() == charging(series@.take(i as int), since, until).len(),
            forall|k: int|
                0 <= k < out@.len() ==> is_series_event(
                    #[trigger] out@[k],
                    charging(series@.take(i as int), since, until)[k],
                ),
        decreases series.len() - i,
    {
        assert(series@.take(i + 1).drop_last() == series@.take(i as int));
        let ls: &LabeledSeries = &series[i];
        match &ls.label {
            Some(label) => {
                if since <= ls.series.predicted_next && ls.series.predicted_next < until {
                    out.push(series_event(ls, label));
                }
            },
            None => {},
        }
        i = i + 1;
    }
    assert(series@.take(series@.len() as int) == series@);
    out
}

/// When each event starts.
pub open spec fn starts(es: Seq<CalEvent>) -> Seq<i64> {
    es.map_values(|e: CalEvent| e.start_secs)
}

/// The events of the three sources, one behind the other.
pub open spec fn is_gathered(
    all: Seq<CalEvent>,
    planned: Seq<PlannedExpense>,
    subs: Seq<SubscriptionRecord>,
    recurring: Seq<LabeledSeries>,
    since: i64,
    until: i64,
) -> bool {
    let n = planned.len() as int;
    let renews = renewing(subs, since, until);
    let charges = charging(recurring, since, until);
    let m = n + renews.len();
    &&& all.len() == m + charges.len()
    &&& forall|i: int| 0 <= i < n ==> is_planned_event(#[trigger] all[i], planned[i])
    &&& forall|i: int| n <= i < m ==> is_renewal_event(#[trigger] all[i], renews[i - n])
    &&& forall|i: int| m <= i < all.len() ==> is_series_event(#[trigger] all[i], charges[i - m])
}

/// The upcoming events: the open expenses due in the window, the renewals of the active
/// subscriptions and the confirmed series, the earliest first.
pub open spec fn is_upcoming(
    out: Seq<CalEvent>,
    planned: Seq<PlannedExpense>,
    subs: Seq<SubscriptionRecord>,
    recurring: Seq<LabeledSeries>,
    since: i64,
    until: i64,
) -> bool {
    exists|all: Seq<CalEvent>| #[trigger]
        is_gathered(
            all,
            due_expenses(planned, since, until),
            active_subscriptions(subs),
            recurring,
            since,
            until,
        ) && out == sorted_by_keys(all, starts(all))
}

/// How many events are upcoming.
pub open spec fn upcoming_count(
    planned: Seq<PlannedExpense>,
    subs: Seq<SubscriptionRecord>,
    recurring: Seq<LabeledSeries>,
    since: i64,
    until: i64,
) -> nat {
    due_expenses(planned, since, until).len() + renewing(
        active_subscriptions(subs),
        since,
        until,
    ).len() + charging(recurring, since, until).len()
}

/// The events of the next `days` days, from the stored rows: the open expenses due in that
/// window, the renewals of the active subscriptions, and the confirmed series, the earliest
/// first.
pub fn upcoming_events(
    planned: &Vec<PlannedExpense>,
    subs: &Vec<SubscriptionRecord>,
    recurring: &Vec<LabeledSeries>,
    as_of_secs: i64,
    days: i64,
) -> (r: Vec<CalEvent>)
    requires
        i64::MIN <= days * 86_400 <= i64::MAX,
        i64::MIN <= as_of_secs + days * 86_400 <= i64::MAX,
        subs@.len() <= i64::MAX,
    ensures
        is_upcoming(
            r@,
            planned@,
            subs@,
            recurring@,
            as_of_secs,
            (as_of_secs + days * 86_400) as i64,
        ),
        r@.len() == upcoming_count(
            planned@,
            subs@,
            recurring@,
            as_of_secs,
            (as_of_secs + days * 86_400) as i64,
        ),
{
    let until: i64 = as_of_secs + days * 86_400;
    let due: Vec<PlannedExpense> = list_planned_expenses_due(planned, as_of_secs, until);
    let on: Vec<SubscriptionRecord> = list_active_subscriptions(subs);
    let mut all: Vec<CalEvent> = events_from_planned(&due);
    let mut more: Vec<CalEvent> = events_from_subscriptions(&on, as_of_secs, until);
    let mut last: Vec<CalEvent> = events_from_recurring(recurring, as_of_secs, until);
    all.append(&mut more);
    all.append(&mut last);
    let mut keys: Vec<i64> = Vec::new();
    let mut i: usize = 0;
    while i < all.len()
        invariant
            i <= all.len(),
            keys@.len() == i,
            forall|k: int| 0 <= k < i ==> #[trigger] keys@[k] == all@[k].start_secs,
        decreases all.len() - i,
    {
        keys.push(all[i].start_secs);
        i = i + 1;
    }
    assert(keys@ =~= starts(all@));
    let order: Vec<usize> = stable_indices(&keys);
    let ghost p = stable_order(keys@, keys@.len());
    let mut out: Vec<CalEvent> = Vec::new();
    let mut k: usize = 0;
    while k < order.len()
        invariant
            k <= order.len(),
            order@.len() == all@.len(),
            order@.map_values(|x: usize| x as int) == p,
            forall|j: int| 0 <= j < order@.len() ==> 0 <= (#[trigger] order@[j]) < all@.len(),
            out@.len() == k,
            forall|j: int| 0 <= j < k ==> #[trigger] out@[j] == all@[p[j]],
        decreases order.len() - k,
    {
        assert(order@.map_values(|x: usize| x as int)[k as int] == order@[k as int]);
        out.push(all[order[k]].clone());
        k = k + 1;
    }
    assert(out@ =~= sorted_by_keys(all@, starts(all@)));
    assert(is_gathered(all@, due@, on@, recurring@, as_of_secs, until));
    out
}

/// How many events the next `days` days hold: exactly as many as are listed.
pub fn count_upcoming(
    planned: &Vec<PlannedExpense>,
    subs: &Vec<SubscriptionRecord>,
    recurring: &Vec<LabeledSeries>,
    as_of_secs: i64,
    days: i64,
) -> (r: usize)
    requires
        i64::MIN <= days * 86_400 <= i64::MAX,
        i64::MIN <= as_of_secs + days * 86_400 <= i64::MAX,
        subs@.len() <= i64::MAX,
    ensures
        r == upcoming_count(
            planned@,
            subs@,
            recurring@,
            as_of_secs,
            (as_of_secs + days * 86_400) as i64,
        ),
{
    upcoming_events(planned, subs, recurring, as_of_secs, days).len()
}

/// The upcoming events are as many as counted, and the earliest comes first.
pub proof fn law_upcoming_in_order(
    out: Seq<CalEvent>,
    planned: Seq<PlannedExpense>,
    subs: Seq<SubscriptionRecord>,
    recurring: Seq<LabeledSeries>,
    since: i64,
    until: i64,
)
    requires
        is_upcoming(out, planned, subs, recurring, since, until),
    ensures
        out.len() == upcoming_count(planned, subs, recurring, since, until),
        forall|i: int, j: int|
            0 <= i < j < out.len() ==> (#[trigger] out[i]).start_secs <= (
            #[trigger] out[j]).start_secs,
{
    let all = choose|all: Seq<CalEvent>| #[trigger]
        is_gathered(
            all,
            due_expenses(planned, since, until),
            active_subscriptions(subs),
            recurring,
            since,
            until,
        ) && out == sorted_by_keys(all, starts(all));
    law_stable_order(starts(all), all.len());
    let p = stable_order(starts(all), all.len());
    assert forall|i: int, j: int| 0 <= i < j < out.len() implies (#[trigger] out[i]).start_secs <= (
    #[trigger] out[j]).start_secs by {
        assert(crate::order::comes_before(starts(all), p[i], p[j]));
    }
}

// ---------------------------------------------------------------------------
// Rendering
// ---------------------------------------------------------------------------

/// What a character becomes in a text value.
pub open spec fn escaped_char(c: char) -> Seq<char> {
    if c == '\\' {
        seq!['\\', '\\']
    } else if c == ';' {
        seq!['\\', ';']
    } else if c == ',' {
        seq!['\\', ',']
    } else if c == '\n' {
        seq!['\\', 'n']
    } else if c == '\r' {
        seq![]
    } else {
        seq![c]
    }
}

/// A text value with backslash, semicolon, comma and newline escaped, and carriage returns
/// dropped.
pub open spec fn escaped(s: Seq<char>) -> Seq<char>
    decreases s.len(),
{
    if s.len() == 0 {
        s
    } else {
        escaped(s.drop_last()) + escaped_char(s.last())
    }
}

/// A text value, escaped.
pub fn escape_text(s: &str) -> (r: String)
    ensures
        r@ == escaped(s@),
{
    let v: Vec<char> = to_chars(s);
    let mut out: String = String::new();
    let mut i: usize = 0;
    while i < v.len()
        invariant
            i <= v.len(),
            out@ == escaped(v@.take(i as int)),
        decreases v.len() - i,
    {
        let ghost before = out@;
        assert(v@.take(i + 1).drop_last() == v@.take(i as int));
        let c: char = v[i];
        if c == '\\' {
            out.push('\\');
            out.push('\\');
        } else if c == ';' {
            out.push('\\');
            out.push(';');
        } else if c == ',' {
            out.push('\\');
            out.push(',');
        } else if c == '\n' {
            out.push('\\');
            out.push('n');
        } else if c == '\r' {
        } else {
            out.push(c);
        }
        assert(out@ =~= before + escaped_char(c));
        i = i + 1;
    }
    assert(v@.take(v@.len() as int) == v@);
    out
}

/// Text followed by a line and its line break.
pub open spec fn with_line(out: Seq<char>, line: Seq<char>) -> Seq<char> {
    out + line + "\r\n"@
}

/// Appends a line and its line break.
pub fn push_crlf(buf: &mut String, line: &str)
    ensures
        final(buf)@ == with_line(old(buf)@, line@),
{
    buf.append(line);
    buf.append("\r\n");
}

/// A date for all-day events; the epoch for an instant outside the calendar.
pub open spec fn date_text(ts: i64) -> Seq<char> {
    if valid_instant(ts) {
        utc_text(ts, "%Y%m%d"@)
    } else {
        "19700101"@
    }
}

/// A time stamp; the epoch for an instant outside the calendar.
pub open spec fn stamp_text(ts: i64) -> Seq<char> {
    if valid_instant(ts) {
        utc_text(ts, "%Y%m%dT%H%M%SZ"@)
    } else {
        "19700101T000000Z"@
    }
}

/// A date for all-day events.
pub fn ical_date(ts_secs: i64) -> (r: String)
    ensures
        r@ == date_text(ts_secs),
{
    match format_utc(ts_secs, "%Y%m%d") {
        Some(s) => s,
        None => "19700101".to_owned(),
    }
}

/// A time stamp in UTC.
pub fn ical_utc_stamp(ts_secs: i64) -> (r: String)
    ensures
        r@ == stamp_text(ts_secs),
{
    match format_utc(ts_secs, "%Y%m%dT%H%M%SZ") {
        Some(s) => s,
        None => "19700101T000000Z".to_owned(),
    }
}

/// Text followed by the lines of one event.
pub open spec fn with_event(out: Seq<char>, e: CalEvent, stamp: Seq<char>, date: Seq<char>) -> Seq<
    char,
> {
    let a = with_line(out, "BEGIN:VEVENT"@);
    let b = with_line(a, "UID:"@ + e.uid@);
    let c = with_line(b, "DTSTAMP:"@ + stamp);
    let d = with_line(c, "DTSTART;VALUE=DATE:"@ + date);
    let f = with_line(d, "SUMMARY:"@ + escaped(e.summary@));
    let g = match e.description {
        Some(x) => with_line(f, "DESCRIPTION:"@ + escaped(x@)),
        None => f,
    };
    with_line(with_line(g, "TRANSP:TRANSPARENT"@), "END:VEVENT"@)
}

/// Text followed by the lines of the events.
pub open spec fn with_events(out: Seq<char>, es: Seq<CalEvent>, stamp: Seq<char>) -> Seq<char>
    decreases es.len(),
{
    if es.len() == 0 {
        out
    } else {
        with_event(
            with_events(out, es.drop_last(), stamp),
            es.last(),
            stamp,
            date_text(es.last().start_secs),
        )
    }
}

/// The lines before the events.
pub open spec fn calendar_head() -> Seq<char> {
    let a = with_line(Seq::<char>::empty(), "BEGIN:VCALENDAR"@);
    let b = with_line(a, "VERSION:2.0"@);
    let c = with_line(b, "PRODID:-//arca//finance daemon//EN"@);
    let d = with_line(c, "CALSCALE:GREGORIAN"@);
    with_line(d, "METHOD:PUBLISH"@)
}

/// A calendar with the given events, stamped with a given time.
pub open spec fn calendar_text(es: Seq<CalEvent>, now: i64) -> Seq<char> {
    with_line(with_events(calendar_head(), es, stamp_text(now)), "END:VCALENDAR"@)
}

/// Appends the lines of one event, given its stamp and date.
pub fn push_event(buf: &mut String, e: &CalEvent, stamp: &str, date: &str)
    ensures
        final(buf)@ == with_event(old(buf)@, *e, stamp@, date@),
{
    push_crlf(buf, "BEGIN:VEVENT");
    push_crlf(buf, "UID:".to_owned().concat(e.uid.as_str()).as_str());
    push_crlf(buf, "DTSTAMP:".to_owned().concat(stamp).as_str());
    push_crlf(buf, "DTSTART;VALUE=DATE:".to_owned().concat(date).as_str());
    push_crlf(
        buf,
        "SUMMARY:".to_owned().concat(escape_text(e.summary.as_str()).as_str()).as_str(),
    );
    match &e.description {
        Some(d) => push_crlf(
            buf,
            "DESCRIPTION:".to_owned().concat(escape_text(d.as_str()).as_str()).as_str(),
        ),
        None => {},
    }
    push_crlf(buf, "TRANSP:TRANSPARENT");
    push_crlf(buf, "END:VEVENT");
}

/// A calendar with the given events, stamped with a given time.
pub fn build_vcalendar_at(events: &Vec<CalEvent>, now: i64) -> (r: String)
    ensures
        r@ == calendar_text(events@, now),
{
    let mut s: String = String::new();
    push_crlf(&mut s, "BEGIN:VCALENDAR");
    push_crlf(&mut s, "VERSION:2.0");
    push_crlf(&mut s, "PRODID:-//arca//finance daemon//EN");
    push_crlf(&mut s, "CALSCALE:GREGORIAN");
    push_crlf(&mut s, "METHOD:PUBLISH");
    let stamp: String = ical_utc_stamp(now);
    let mut i: usize = 0;
    while i < events.len()
        invariant
            i <= events.len(),
            stamp@ == stamp_text(now),
            s@ == with_events(calendar_head(), events@.take(i as int), stamp@),
        decreases events.len() - i,
    {
        assert(events@.take(i + 1).drop_last() == events@.take(i as int));
        let date: String = ical_date(events[i].start_secs);
        push_event(&mut s, &events[i], stamp.as_str(), date.as_str());
        i = i + 1;
    }
    assert(events@.take(events@.len() as int) == events@);
    push_crlf(&mut s, "END:VCALENDAR");
    s
}

/// A calendar with the given events, stamped with the current time.
pub fn build_vcalendar(events: &Vec<CalEvent>) -> (r: String)
    ensures
        exists|now: i64| r@ == #[trigger] calendar_text(events@, now),
{
    build_vcalendar_at(events, now_secs())
}

/// The calendar of the events of the next `days` days, stamped with the current time.
pub fn build_weekly_digest(
    planned: &Vec<PlannedExpense>,
    subs: &Vec<SubscriptionRecord>,
    recurring: &Vec<LabeledSeries>,
    as_of_secs: i64,
    days: i64,
) -> (r: String)
    requires
        i64::MIN <= days * 86_400 <= i64::MAX,
        i64::MIN <= as_of_secs + days * 86_400 <= i64::MAX,
        subs@.len() <= i64::MAX,
    ensures
        exists|es: Seq<CalEvent>, now: i64|
            r@ == #[trigger] calendar_text(es, now) && is_upcoming(
                es,
                planned@,
                subs@,
                recurring@,
                as_of_secs,
                (as_of_secs + days * 86_400) as i64,
            ),
{
    let events: Vec<CalEvent> = upcoming_events(planned, subs, recurring, as_of_secs, days);
    build_vcalendar(&events)
}

/// The file name of a weekly digest.
pub fn weekly_filename(ts_secs: i64) -> (r: String)
    ensures
        r@ == "arca-"@ + date_text(ts_secs) + ".ics"@,
{
    "arca-".to_owned().concat(ical_date(ts_secs).as_str()).concat(".ics")
}

// ---------------------------------------------------------------------------
// Laws of the escaping
// ---------------------------------------------------------------------------

/// An escaped text holds no line break, so no text value can add a line to the calendar.
pub proof fn law_escaped_is_one_line(s: Seq<char>)
    ensures
        forall|i: int|
            0 <= i < escaped(s).len() ==> #[trigger] escaped(s)[i] != '\n' && escaped(s)[i] != '\r',
    decreases s.len(),
{
    if s.len() > 0 {
        let a = escaped(s.drop_last());
        let e = escaped_char(s.last());
        law_escaped_is_one_line(s.drop_last());
        assert forall|i: int| 0 <= i < escaped(s).len() implies #[trigger] escaped(s)[i] != '\n'
            && escaped(s)[i] != '\r' by {
            if i < a.len() {
                assert(escaped(s)[i] == a[i]);
            } else {
                assert(escaped(s)[i] == e[i - a.len()]);
            }
        }
    }
}

/// What an escaped text spells.
pub open spec fn unescaped(t: Seq<char>) -> Seq<char>
    decreases t.len(),
{
    if t.len() == 0 {
        t
    } else if t[0] == '\\' && t.len() > 1 {
        seq![
            if t[1] == 'n' {
                '\n'
            } else {
                t[1]
            },
        ] + unescaped(t.skip(2))
    } else {
        seq![t[0]] + unescaped(t.skip(1))
    }
}

/// The text without carriage returns.
pub open spec fn without_returns(s: Seq<char>) -> Seq<char> {
    crate::money::without(s, '\r')
}

/// What one character reads back as.
pub open spec fn kept(c: char) -> Seq<char> {
    if c == '\r' {
        seq![]
    } else {
        seq![c]
    }
}

proof fn lemma_unescaped_char(c: char, t: Seq<char>)
    ensures
        unescaped(escaped_char(c) + t) == kept(c) + unescaped(t),
{
    let e = escaped_char(c);
    let u = e + t;
    if e.len() == 2 {
        assert(u[0] == '\\' && u[1] == e[1]);
        assert(u.skip(2) =~= t);
        assert(unescaped(u) =~= seq![c] + unescaped(t));
    } else if e.len() == 1 {
        assert(u[0] == c);
        assert(u.skip(1) =~= t);
        assert(unescaped(u) =~= seq![c] + unescaped(t));
    } else {
        assert(u =~= t);
        assert(kept(c) + unescaped(t) =~= unescaped(t));
    }
}

/// An escaped text followed by more reads as the text followed by the rest.
proof fn lemma_unescaped_behind(s: Seq<char>, t: Seq<char>)
    ensures
        unescaped(escaped(s) + t) == without_returns(s) + unescaped(t),
    decreases s.len(),
{
    if s.len() == 0 {
        assert(escaped(s) + t =~= t);
        assert(without_returns(s) + unescaped(t) =~= unescaped(t));
    } else {
        let c = s.last();
        let e = escaped_char(c);
        let a = s.drop_last();
        assert(escaped(s) + t =~= escaped(a) + (e + t));
        lemma_unescaped_behind(a, e + t);
        lemma_unescaped_char(c, t);
        assert(without_returns(a) + (kept(c) + unescaped(t)) =~= without_returns(s) + unescaped(t));
    }
}

/// Escaping loses nothing but carriage returns.
pub proof fn law_escaped_reads_back(s: Seq<char>)
    ensures
        unescaped(escaped(s)) == without_returns(s),
{
    let none = Seq::<char>::empty();
    lemma_unescaped_behind(s, none);
    assert(escaped(s) + none =~= escaped(s));
    assert(unescaped(none) =~= none);
    assert(without_returns(s) + none =~= without_returns(s));
}

// ---------------------------------------------------------------------------
// Laws of the line breaks
// ---------------------------------------------------------------------------

/// Whether a text holds no line break.
pub open spec fn on_one_line(s: Seq<char>) -> bool {
    forall|i: int| 0 <= i < s.len() ==> #[trigger] s[i] != '\n' && s[i] != '\r'
}

/// Whether every line break of a text is a carriage return with a line feed.
pub open spec fn breaks_are_crlf(s: Seq<char>) -> bool {
    forall|i: int|
        0 <= i < s.len() ==> (#[trigger] s[i] == '\n' ==> i > 0 && s[i - 1] == '\r') && (s[i] == '\r'
            ==> i + 1 < s.len() && s[i + 1] == '\n')
}

proof fn lemma_line_breaks(out: Seq<char>, l: Seq<char>)
    requires
        breaks_are_crlf(out),
        on_one_line(l),
    ensures
        breaks_are_crlf(with_line(out, l)),
{
    reveal_strlit("\r\n");
    let t = with_line(out, l);
    assert forall|i: int| 0 <= i < t.len() implies (#[trigger] t[i] == '\n' ==> i > 0 && t[i - 1]
        == '\r') && (t[i] == '\r' ==> i + 1 < t.len() && t[i + 1] == '\n') by {
        if i < out.len() {
            assert(t[i] == out[i]);
            if i > 0 {
                assert(t[i - 1] == out[i - 1]);
            }
            if i + 1 < out.len() {
                assert(t[i + 1] == out[i + 1]);
            }
        } else if i < out.len() + l.len() {
            assert(t[i] == l[i - out.len()]);
        }
    }
}

proof fn lemma_one_line_sum(a: Seq<char>, b: Seq<char>)
    requires
        on_one_line(a),
        on_one_line(b),
    ensures
        on_one_line(a + b),
{
    assert forall|i: int| 0 <= i < (a + b).len() implies #[trigger] (a + b)[i] != '\n' && (a + b)[i]
        != '\r' by {
        if i < a.len() {
            assert((a + b)[i] == a[i]);
        } else {
            assert((a + b)[i] == b[i - a.len()]);
        }
    }
}

proof fn lemma_keywords_on_one_line()
    ensures
        on_one_line("BEGIN:VEVENT"@),
        on_one_line("UID:"@),
        on_one_line("DTSTAMP:"@),
        on_one_line("DTSTART;VALUE=DATE:"@),
        on_one_line("SUMMARY:"@),
        on_one_line("DESCRIPTION:"@),
        on_one_line("TRANSP:TRANSPARENT"@),
        on_one_line("END:VEVENT"@),
        on_one_line("BEGIN:VCALENDAR"@),
        on_one_line("VERSION:2.0"@),
        on_one_line("PRODID:-//arca//finance daemon//EN"@),
        on_one_line("CALSCALE:GREGORIAN"@),
        on_one_line("METHOD:PUBLISH"@),
        on_one_line("END:VCALENDAR"@),
        on_one_line("19700101"@),
        on_one_line("19700101T000000Z"@),
        on_one_line("T"@),
        on_one_line("Z"@),
{
    reveal_strlit("BEGIN:VEVENT");
    reveal_strlit("UID:");
    reveal_strlit("DTSTAMP:");
    reveal_strlit("DTSTART;VALUE=DATE:");
    reveal_strlit("SUMMARY:");
    reveal_strlit("DESCRIPTION:");
    reveal_strlit("TRANSP:TRANSPARENT");
    reveal_strlit("END:VEVENT");
    reveal_strlit("BEGIN:VCALENDAR");
    reveal_strlit("VERSION:2.0");
    reveal_strlit("PRODID:-//arca//finance daemon//EN");
    reveal_strlit("CALSCALE:GREGORIAN");
    reveal_strlit("METHOD:PUBLISH");
    reveal_strlit("END:VCALENDAR");
    reveal_strlit("19700101");
    reveal_strlit("19700101T000000Z");
    reveal_strlit("T");
    reveal_strlit("Z");
}

proof fn lemma_digits_on_one_line(s: Seq<char>)
    requires
        all_digits(s),
    ensures
        on_one_line(s),
{
    assert forall|i: int| 0 <= i < s.len() implies #[trigger] s[i] != '\n' && s[i] != '\r' by {
        assert(is_digit(s[i]));
    }
}

proof fn lemma_padded_digits(s: Seq<char>, width: nat)
    requires
        all_digits(s),
    ensures
        all_digits(zero_padded(s, width)),
    decreases width - s.len(),
{
    if s.len() < width {
        assert forall|i: int| 0 <= i < (seq!['0'] + s).len() implies is_digit(
            #[trigger] (seq!['0'] + s)[i],
        ) by {
            if i > 0 {
                assert((seq!['0'] + s)[i] == s[i - 1]);
            }
        }
        lemma_padded_digits(seq!['0'] + s, width);
    }
}

proof fn lemma_number_on_one_line(n: nat)
    ensures
        on_one_line(dec2(n)),
        on_one_line(dec(n)),
        on_one_line(zero_padded(dec(n), 4)),
{
    lemma_dec_value(n);
    lemma_padded_digits(dec(n), 4);
    lemma_digits_on_one_line(dec(n));
    lemma_digits_on_one_line(zero_padded(dec(n), 4));
    if n < 10 {
        lemma_digits_on_one_line(dec2(n));
    }
}

proof fn lemma_dates_on_one_line(ts: i64)
    ensures
        on_one_line(date_text(ts)),
        on_one_line(stamp_text(ts)),
{
    let f = utc_fields(ts);
    let y = f.0 as int;
    lemma_keywords_on_one_line();
    lemma_number_on_one_line(y as nat);
    lemma_number_on_one_line((-y) as nat);
    if y < 0 {
        lemma_one_line_sum(seq!['-'], zero_padded(dec((-y) as nat), 4));
    } else if y > 9999 {
        lemma_one_line_sum(seq!['+'], dec(y as nat));
    }
    let (year, month, day) = (shown_year(y), dec2(f.1 as nat), dec2(f.2 as nat));
    let (hour, minute, second) = (dec2(f.3 as nat), dec2(f.4 as nat), dec2((ts % 60) as nat));
    lemma_number_on_one_line(f.1 as nat);
    lemma_number_on_one_line(f.2 as nat);
    lemma_number_on_one_line(f.3 as nat);
    lemma_number_on_one_line(f.4 as nat);
    lemma_number_on_one_line((ts % 60) as nat);
    lemma_one_line_sum(year, month);
    lemma_one_line_sum(year + month, day);
    let date = year + month + day;
    lemma_one_line_sum(date, "T"@);
    lemma_one_line_sum(date + "T"@, hour);
    lemma_one_line_sum(date + "T"@ + hour, minute);
    lemma_one_line_sum(date + "T"@ + hour + minute, second);
    lemma_one_line_sum(date + "T"@ + hour + minute + second, "Z"@);
    reveal_strlit("%Y-%m-%d");
    reveal_strlit("%Y%m%d");
    reveal_strlit("%Y%m%dT%H%M%SZ");
    assert("%Y%m%d"@.len() != "%Y-%m-%d"@.len());
    assert("%Y%m%dT%H%M%SZ"@.len() != "%Y-%m-%d"@.len());
    assert("%Y%m%dT%H%M%SZ"@.len() != "%Y%m%d"@.len());
}

proof fn lemma_event_breaks(out: Seq<char>, e: CalEvent, stamp: Seq<char>, date: Seq<char>)
    requires
        breaks_are_crlf(out),
        on_one_line(e.uid@),
        on_one_line(stamp),
        on_one_line(date),
    ensures
        breaks_are_crlf(with_event(out, e, stamp, date)),
{
    lemma_keywords_on_one_line();
    law_escaped_is_one_line(e.summary@);
    lemma_one_line_sum("UID:"@, e.uid@);
    lemma_one_line_sum("DTSTAMP:"@, stamp);
    lemma_one_line_sum("DTSTART;VALUE=DATE:"@, date);
    lemma_one_line_sum("SUMMARY:"@, escaped(e.summary@));
    let a = with_line(out, "BEGIN:VEVENT"@);
    lemma_line_breaks(out, "BEGIN:VEVENT"@);
    let b = with_line(a, "UID:"@ + e.uid@);
    lemma_line_breaks(a, "UID:"@ + e.uid@);
    let c = with_line(b, "DTSTAMP:"@ + stamp);
    lemma_line_breaks(b, "DTSTAMP:"@ + stamp);
    let d = with_line(c, "DTSTART;VALUE=DATE:"@ + date);
    lemma_line_breaks(c, "DTSTART;VALUE=DATE:"@ + date);
    let f = with_line(d, "SUMMARY:"@ + escaped(e.summary@));
    lemma_line_breaks(d, "SUMMARY:"@ + escaped(e.summary@));
    let g = match e.description {
        Some(x) => with_line(f, "DESCRIPTION:"@ + escaped(x@)),
        None => f,
    };
    match e.description {
        Some(x) => {
            law_escaped_is_one_line(x@);
            lemma_one_line_sum("DESCRIPTION:"@, escaped(x@));
            lemma_line_breaks(f, "DESCRIPTION:"@ + escaped(x@));
        },
        None => {},
    }
    lemma_line_breaks(g, "TRANSP:TRANSPARENT"@);
    lemma_line_breaks(with_line(g, "TRANSP:TRANSPARENT"@), "END:VEVENT"@);
}

proof fn lemma_events_break(out: Seq<char>, es: Seq<CalEvent>, stamp: Seq<char>)
    requires
        breaks_are_crlf(out),
        on_one_line(stamp),
        forall|i: int| 0 <= i < es.len() ==> on_one_line((#[trigger] es[i]).uid@),
    ensures
        breaks_are_crlf(with_events(out, es, stamp)),
    decreases es.len(),
{
    if es.len() > 0 {
        let d = es.drop_last();
        assert forall|i: int| 0 <= i < d.len() implies on_one_line((#[trigger] d[i]).uid@) by {
            assert(d[i] == es[i]);
        }
        lemma_events_break(out, d, stamp);
        lemma_dates_on_one_line(es.last().start_secs);
        assert(on_one_line(es[es.len() - 1].uid@));
        lemma_event_breaks(
            with_events(out, d, stamp),
            es.last(),
            stamp,
            date_text(es.last().start_secs),
        );
    }
}

/// A calendar is broken into lines by carriage return and line feed alone, whatever the
/// summaries and descriptions hold.
pub proof fn law_calendar_uses_crlf(es: Seq<CalEvent>, now: i64)
    requires
        forall|i: int| 0 <= i < es.len() ==> on_one_line((#[trigger] es[i]).uid@),
    ensures
        breaks_are_crlf(calendar_text(es, now)),
{
    lemma_keywords_on_one_line();
    let none = Seq::<char>::empty();
    let a = with_line(none, "BEGIN:VCALENDAR"@);
    lemma_line_breaks(none, "BEGIN:VCALENDAR"@);
    let b = with_line(a, "VERSION:2.0"@);
    lemma_line_breaks(a, "VERSION:2.0"@);
    let c = with_line(b, "PRODID:-//arca//finance daemon//EN"@);
    lemma_line_breaks(b, "PRODID:-//arca//finance daemon//EN"@);
    let d = with_line(c, "CALSCALE:GREGORIAN"@);
    lemma_line_breaks(c, "CALSCALE:GREGORIAN"@);
    lemma_line_breaks(d, "METHOD:PUBLISH"@);
    lemma_dates_on_one_line(now);
    lemma_events_break(calendar_head(), es, stamp_text(now));
    lemma_line_breaks(with_events(calendar_head(), es, stamp_text(now)), "END:VCALENDAR"@);
}

} // verus!
