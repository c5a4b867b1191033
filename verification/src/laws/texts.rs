//! Laws of what the calendar and the alerts say.

use vstd::prelude::*;

verus! {

use crate::alerts::{
    breach_list, breach_row, breached, shape_of, stale_list, summary, with_breach_rows,
    with_stale_lines, AlertReading, BreachReading, PayloadShape, StaleProvider,
};
use crate::calendar::{
    calendar_head, calendar_text, date_text, escaped, is_planned_event, is_renewal_event,
    is_series_event, stamp_text, with_event, with_events, CalEvent,
};
use crate::db::{PlannedExpense, SubscriptionRecord};
use crate::laws::payees::occurs;
use crate::money::shown;
use crate::order::{lemma_kept, lemma_kept_is_filter};
use crate::pp::DriftRow;
use crate::report::DriftShare;
use crate::rpc::LabeledSeries;
use crate::text::{dec, dec2, dec_int, left_aligned, right_aligned, run_of, trimmed};
use crate::time::{shown_year, utc_fields, valid_instant};

// ---------------------------------------------------------------------------
// Calendar
// ---------------------------------------------------------------------------

/// The lines of an event: its id, when it was written, its day, what it is and, where it has one,
/// its description; it blocks no time.
pub open spec fn event_lines(e: CalEvent, stamp: Seq<char>, day: Seq<char>) -> Seq<char> {
    "BEGIN:VEVENT"@ + "\r\n"@ + ("UID:"@ + e.uid@ + "\r\n"@) + ("DTSTAMP:"@ + stamp + "\r\n"@) + (
    "DTSTART;VALUE=DATE:"@ + day + "\r\n"@) + ("SUMMARY:"@ + escaped(e.summary@) + "\r\n"@) + (
    match e.description {
        Some(x) => "DESCRIPTION:"@ + escaped(x@) + "\r\n"@,
        None => Seq::<char>::empty(),
    }) + "TRANSP:TRANSPARENT"@ + "\r\n"@ + "END:VEVENT"@ + "\r\n"@
}

/// All events, one behind the other.
pub open spec fn all_lines(es: Seq<CalEvent>, stamp: Seq<char>) -> Seq<char>
    decreases es.len(),
{
    if es.len() == 0 {
        Seq::empty()
    } else {
        all_lines(es.drop_last(), stamp) + event_lines(
            es.last(),
            stamp,
            date_text(es.last().start_secs),
        )
    }
}

proof fn lemma_with_event(out: Seq<char>, e: CalEvent, stamp: Seq<char>, day: Seq<char>)
    ensures
        with_event(out, e, stamp, day) == out + event_lines(e, stamp, day),
{
    assert(with_event(out, e, stamp, day) =~= out + event_lines(e, stamp, day));
}

proof fn lemma_with_events(out: Seq<char>, es: Seq<CalEvent>, stamp: Seq<char>)
    ensures
        with_events(out, es, stamp) == out + all_lines(es, stamp),
    decreases es.len(),
{
    if es.len() == 0 {
        assert(out + all_lines(es, stamp) =~= out);
    } else {
        lemma_with_events(out, es.drop_last(), stamp);
        let e = es.last();
        let before = with_events(out, es.drop_last(), stamp);
        lemma_with_event(before, e, stamp, date_text(e.start_secs));
        assert(out + all_lines(es.drop_last(), stamp) + event_lines(
            e,
            stamp,
            date_text(e.start_secs),
        ) =~= out + all_lines(es, stamp));
    }
}

/// A calendar is its head, the lines of its events in their order, each on its own day, and its
/// end.
pub proof fn law_calendar_is_its_events(es: Seq<CalEvent>, now: i64)
    ensures
        calendar_text(es, now) == calendar_head() + all_lines(es, stamp_text(now))
            + "END:VCALENDAR"@ + "\r\n"@,
{
    lemma_with_events(calendar_head(), es, stamp_text(now));
}

/// Each event stands in the calendar with its lines, on its own day.
pub proof fn law_calendar_shows(es: Seq<CalEvent>, now: i64, i: int)
    requires
        0 <= i < es.len(),
    ensures
        occurs(
            calendar_text(es, now),
            event_lines(es[i], stamp_text(now), date_text(es[i].start_secs)),
        ),
{
    let stamp = stamp_text(now);
    law_calendar_is_its_events(es, now);
    lemma_has_lines(es, stamp, i);
    let l = event_lines(es[i], stamp, date_text(es[i].start_secs));
    let (a, b) = choose|a: Seq<char>, b: Seq<char>| all_lines(es, stamp) == #[trigger] (a + l + b);
    let (x, y) = (calendar_head() + a, b + "END:VCALENDAR"@ + "\r\n"@);
    assert(calendar_text(es, now) =~= x + l + y);
}

proof fn lemma_has_lines(es: Seq<CalEvent>, stamp: Seq<char>, i: int)
    requires
        0 <= i < es.len(),
    ensures
        occurs(all_lines(es, stamp), event_lines(es[i], stamp, date_text(es[i].start_secs))),
    decreases es.len(),
{
    let l = event_lines(es[i], stamp, date_text(es[i].start_secs));
    let d = es.drop_last();
    if i == es.len() - 1 {
        let (a, b) = (all_lines(d, stamp), Seq::<char>::empty());
        assert(all_lines(es, stamp) =~= a + l + b);
    } else {
        lemma_has_lines(d, stamp, i);
        let (a, b) = choose|a: Seq<char>, b: Seq<char>| all_lines(d, stamp) == #[trigger] (a + l + b);
        let more = event_lines(es.last(), stamp, date_text(es.last().start_secs));
        assert(all_lines(es, stamp) =~= a + l + (b + more));
    }
}

// ---------------------------------------------------------------------------
// Alerts
// ---------------------------------------------------------------------------

/// The summary of a low balance names the account, what it holds and the minimum; that of high
/// bandwidth the account, what was used and the maximum; that of a reminder its message.
pub proof fn law_summaries(payload: Seq<char>, reading: AlertReading)
    ensures
        match reading {
            AlertReading::BalanceLow(h) => {
                let s = summary(PayloadShape::BalanceLow, payload, reading);
                occurs(s, h.account@) && occurs(s, " low: "@ + shown(h.balance_cents as int))
                    && occurs(s, "(min "@ + shown(h.min_cents as int) + ")"@)
            },
            AlertReading::BandwidthHigh(h) => {
                let s = summary(PayloadShape::BandwidthHigh, payload, reading);
                occurs(s, h.account@) && occurs(
                    s,
                    " high: "@ + dec_int(h.used_gb as int) + " GB"@,
                ) && occurs(s, "(max "@ + dec_int(h.max_gb as int) + " GB)"@)
            },
            AlertReading::Reminder(h) => occurs(
                summary(PayloadShape::Reminder, payload, reading),
                h.message@,
            ),
            _ => true,
        },
{
    let e = Seq::<char>::empty();
    match reading {
        AlertReading::BalanceLow(h) => {
            let s = summary(PayloadShape::BalanceLow, payload, reading);
            let low = " low: "@ + shown(h.balance_cents as int);
            let min = "(min "@ + shown(h.min_cents as int) + ")"@;
            assert(" (min "@ =~= " "@ + "(min "@) by {
                reveal_strlit(" (min ");
                reveal_strlit("(min ");
                reveal_strlit(" ");
            }
            assert(s =~= e + h.account@ + (low + " "@ + min));
            assert(s =~= h.account@ + low + (" "@ + min));
            assert(s =~= (h.account@ + low + " "@) + min + e);
        },
        AlertReading::BandwidthHigh(h) => {
            let s = summary(PayloadShape::BandwidthHigh, payload, reading);
            let used = " high: "@ + dec_int(h.used_gb as int) + " GB"@;
            let max = "(max "@ + dec_int(h.max_gb as int) + " GB)"@;
            assert(" GB (max "@ =~= " GB"@ + " "@ + "(max "@) by {
                reveal_strlit(" GB (max ");
                reveal_strlit(" GB");
                reveal_strlit("(max ");
                reveal_strlit(" ");
            }
            assert(s =~= e + h.account@ + (used + " "@ + max));
            assert(s =~= h.account@ + used + (" "@ + max));
            assert(s =~= (h.account@ + used + " "@) + max + e);
        },
        AlertReading::Reminder(h) => {
            let s = summary(PayloadShape::Reminder, payload, reading);
            assert(s =~= "⏰ "@ + h.message@ + e);
        },
        _ => {},
    }
}

/// The summary of stale providers says how many they are and names each with its reason.
pub proof fn law_stale_summary(v: Vec<StaleProvider>, payload: Seq<char>, i: int)
    requires
        0 <= i < v@.len(),
    ensures
        ({
            let s = summary(PayloadShape::Stale, payload, AlertReading::Stale(v));
            &&& occurs(s, dec(v@.len()) + " provider(s) stale: "@)
            &&& occurs(s, v@[i].label@ + " ("@ + v@[i].reason@ + ")"@)
        }),
{
    let s = summary(PayloadShape::Stale, payload, AlertReading::Stale(v));
    let head = dec(v@.len()) + " provider(s) stale: "@;
    let l = stale_list(v@);
    let e = Seq::<char>::empty();
    assert(s =~= e + head + l);
    lemma_stale_named(v@, i);
    let one = v@[i].label@ + " ("@ + v@[i].reason@ + ")"@;
    let (a, b) = choose|a: Seq<char>, b: Seq<char>| l == #[trigger] (a + one + b);
    assert(s =~= (head + a) + one + b);
}

proof fn lemma_stale_named(v: Seq<StaleProvider>, i: int)
    requires
        0 <= i < v.len(),
    ensures
        occurs(stale_list(v), v[i].label@ + " ("@ + v[i].reason@ + ")"@),
    decreases v.len(),
{
    let one = v[i].label@ + " ("@ + v[i].reason@ + ")"@;
    let d = v.drop_last();
    let last = v.last().label@ + " ("@ + v.last().reason@ + ")"@;
    let e = Seq::<char>::empty();
    if i == v.len() - 1 {
        let a = if v.len() == 1 {
            e
        } else {
            stale_list(d) + ", "@
        };
        assert(stale_list(v) =~= a + one + e);
    } else {
        lemma_stale_named(d, i);
        let (a, b) = choose|a: Seq<char>, b: Seq<char>| stale_list(d) == #[trigger] (a + one + b);
        assert(stale_list(v) =~= a + one + (b + ", "@ + last));
    }
}

/// The summary of a breach names each class that is out of its band with its share, and no
/// other.
pub proof fn law_breach_summary(rows: Vec<BreachReading>, payload: Seq<char>, i: int)
    requires
        0 <= i < rows@.len(),
        rows@[i].band_breach,
    ensures
        occurs(
            summary(PayloadShape::Breach, payload, AlertReading::Breach(rows)),
            rows@[i].asset_class@ + " "@ + rows@[i].whole_pct@ + "%"@,
        ),
        breached(rows@) == rows@.filter(|r: BreachReading| r.band_breach),
{
    let p = |r: BreachReading| r.band_breach;
    let found = breached(rows@);
    lemma_kept_is_filter(rows@, p);
    lemma_kept(rows@, p);
    assert(p(rows@[i]));
    assert(found.contains(rows@[i]));
    let k = choose|k: int| 0 <= k < found.len() && found[k] == rows@[i];
    lemma_breach_named(found, k);
    let one = rows@[i].asset_class@ + " "@ + rows@[i].whole_pct@ + "%"@;
    let l = breach_list(found);
    let (a, b) = choose|a: Seq<char>, b: Seq<char>| l == #[trigger] (a + one + b);
    let s = summary(PayloadShape::Breach, payload, AlertReading::Breach(rows));
    assert(s =~= ("T2 band breach: "@ + a) + one + b);
}

proof fn lemma_breach_named(v: Seq<BreachReading>, i: int)
    requires
        0 <= i < v.len(),
    ensures
        occurs(breach_list(v), v[i].asset_class@ + " "@ + v[i].whole_pct@ + "%"@),
    decreases v.len(),
{
    let one = v[i].asset_class@ + " "@ + v[i].whole_pct@ + "%"@;
    let d = v.drop_last();
    let last = v.last().asset_class@ + " "@ + v.last().whole_pct@ + "%"@;
    let e = Seq::<char>::empty();
    if i == v.len() - 1 {
        let a = if v.len() == 1 {
            e
        } else {
            breach_list(d) + ", "@
        };
        assert(breach_list(v) =~= a + one + e);
    } else {
        lemma_breach_named(d, i);
        let (a, b) = choose|a: Seq<char>, b: Seq<char>| breach_list(d) == #[trigger] (a + one + b);
        assert(breach_list(v) =~= a + one + (b + ", "@ + last));
    }
}

/// The message on stale providers has a line for each, with its name, its kind and its reason.
pub proof fn law_stale_lines(out: Seq<char>, stale: Seq<StaleProvider>, i: int)
    requires
        0 <= i < stale.len(),
    ensures
        occurs(
            with_stale_lines(out, stale),
            stale[i].label@ + " ("@ + stale[i].kind@ + ") — "@ + stale[i].reason@ + "\n"@,
        ),
    decreases stale.len(),
{
    let one = stale[i].label@ + " ("@ + stale[i].kind@ + ") — "@ + stale[i].reason@ + "\n"@;
    let d = stale.drop_last();
    let x = stale.last();
    let last = x.label@ + " ("@ + x.kind@ + ") — "@ + x.reason@ + "\n"@;
    let e = Seq::<char>::empty();
    if i == stale.len() - 1 {
        assert(with_stale_lines(out, stale) =~= with_stale_lines(out, d) + one + e);
    } else {
        law_stale_lines(out, d, i);
        let (a, b) = choose|a: Seq<char>, b: Seq<char>|
            with_stale_lines(out, d) == #[trigger] (a + one + b);
        assert(with_stale_lines(out, stale) =~= a + one + (b + last));
    }
}


// ---------------------------------------------------------------------------
// Events
// ---------------------------------------------------------------------------

/// The event of a planned expense is known by the number of the expense, and says what it is and
/// what it costs.
pub proof fn law_planned_event(e: CalEvent, p: PlannedExpense)
    requires
        is_planned_event(e, p),
    ensures
        e.uid@ == "planned-"@ + dec_int(p.id as int) + "@arca"@,
        e.start_secs == p.due_at,
        occurs(e.summary@, p.description@ + " — "@ + shown(p.amount_cents.0 as int)),
        e.description is Some && occurs(
            e.description->0@,
            "("@ + p.status@ + "): "@ + shown(p.amount_cents.0 as int),
        ),
{
    let amount = shown(p.amount_cents.0 as int);
    let e0 = Seq::<char>::empty();
    assert("Planned expense ("@ =~= "Planned expense "@ + "("@) by {
        reveal_strlit("Planned expense (");
        reveal_strlit("Planned expense ");
        reveal_strlit("(");
    }
    assert(e.summary@ =~= "[arca] "@ + (p.description@ + " — "@ + amount) + e0);
    assert(e.description->0@ =~= "Planned expense "@ + ("("@ + p.status@ + "): "@ + amount) + e0);
}

/// The event of a renewal is known by the number of the subscription, and says what renews, what
/// it costs where that is known, and how often.
pub proof fn law_renewal_event(e: CalEvent, s: SubscriptionRecord)
    requires
        is_renewal_event(e, s),
    ensures
        e.uid@ == "sub-"@ + dec_int(s.id as int) + "@arca"@,
        s.next_charge_at == Some(e.start_secs),
        match s.amount_cents {
            Some(c) => occurs(e.summary@, s.name@ + " renews — "@ + shown(c.0 as int)),
            None => occurs(e.summary@, s.name@ + " renews — "@ + "(usage-based)"@),
        },
        e.description is Some && match s.cadence {
            Some(c) => occurs(e.description->0@, "cadence="@ + c@),
            None => occurs(e.description->0@, "cadence="@ + "?"@),
        },
{
    let amount = match s.amount_cents {
        Some(c) => shown(c.0 as int),
        None => "(usage-based)"@,
    };
    let cadence = match s.cadence {
        Some(c) => c@,
        None => "?"@,
    };
    let e0 = Seq::<char>::empty();
    assert("), cadence="@ =~= "), "@ + "cadence="@) by {
        reveal_strlit("), cadence=");
        reveal_strlit("), ");
        reveal_strlit("cadence=");
    }
    assert(e.summary@ =~= "[arca] "@ + (s.name@ + " renews — "@ + amount) + e0);
    assert(e.description->0@ =~= ("Subscription renewal: "@ + s.name@ + " ("@ + s.provider_kind@
        + "), "@) + ("cadence="@ + cadence) + e0);
}

/// The event of an expected charge is known by the key of its payee, and says under which name
/// and label it runs and what it usually costs; its description tells the mean, the last amount
/// and over how many charges.
pub proof fn law_series_event(e: CalEvent, ls: LabeledSeries)
    requires
        is_series_event(e, ls),
    ensures
        e.start_secs == ls.series.predicted_next,
        occurs(
            e.summary@,
            match ls.display_name {
                Some(n) => n@,
                None => ls.series.display@,
            } + " ("@ + ls.label->0@ + ") ~"@ + shown(ls.series.avg_amount.0 as int),
        ),
        e.description is Some && occurs(
            e.description->0@,
            "avg "@ + shown(ls.series.avg_amount.0 as int) + ", last "@ + shown(
                ls.series.last_amount.0 as int,
            ) + ", over "@ + dec(ls.series.count as nat) + " charges"@,
        ),
{
    let s = ls.series;
    let name = match ls.display_name {
        Some(n) => n@,
        None => s.display@,
    };
    let label = ls.label->0@;
    let avg = shown(s.avg_amount.0 as int);
    let last = shown(s.last_amount.0 as int);
    let mid = "avg "@ + avg + ", last "@ + last + ", over "@ + dec(s.count as nat) + " charges"@;
    assert(e.summary@ =~= "[arca] "@ + (name + " ("@ + label + ") ~"@ + avg) + " est"@);
    assert("). Estimated from history: avg "@ =~= "). Estimated from history: "@ + "avg "@) by {
        reveal_strlit("). Estimated from history: avg ");
        reveal_strlit("). Estimated from history: ");
        reveal_strlit("avg ");
    }
    assert(" charges. Next amount unknown until it posts."@ =~= " charges"@
        + ". Next amount unknown until it posts."@) by {
        reveal_strlit(" charges. Next amount unknown until it posts.");
        reveal_strlit(" charges");
        reveal_strlit(". Next amount unknown until it posts.");
    }
    assert(e.description->0@ =~= ("Confirmed recurring "@ + label + " ("@ + s.cadence.name()
        + "). Estimated from history: "@) + mid + ". Next amount unknown until it posts."@);
}

/// What stands within a text stands within it with more behind it, and with more before it.
proof fn lemma_within(a: Seq<char>, b: Seq<char>, x: Seq<char>)
    ensures
        occurs(a, x) ==> occurs(a + b, x),
        occurs(b, x) ==> occurs(a + b, x),
{
    if occurs(a, x) {
        let (p, q) = choose|p: Seq<char>, q: Seq<char>| a == #[trigger] (p + x + q);
        assert(a + b =~= p + x + (q + b));
    }
    if occurs(b, x) {
        let (p, q) = choose|p: Seq<char>, q: Seq<char>| b == #[trigger] (p + x + q);
        assert(a + b =~= (a + p) + x + q);
    }
}

proof fn lemma_aligned(s: Seq<char>, width: nat)
    ensures
        occurs(left_aligned(s, width), s),
        occurs(right_aligned(s, width), s),
{
    let e = Seq::<char>::empty();
    let n = if s.len() < width {
        (width - s.len()) as nat
    } else {
        0
    };
    let fill = run_of(' ', n);
    assert(left_aligned(s, width) =~= e + s + fill);
    assert(right_aligned(s, width) =~= fill + s + e);
}

/// The word for how a class stands to its band.
pub open spec fn band_word(row: DriftRow) -> Seq<char> {
    if row.band_breach {
        "BREACH"@
    } else if row.targeted {
        "ok"@
    } else {
        "-"@
    }
}

/// The row of a class names it, and tells what it holds and whether it is out of its band.
pub proof fn law_breach_row(row: DriftRow, share: DriftShare)
    ensures
        occurs(breach_row(row, share), row.asset_class@),
        occurs(breach_row(row, share), shown(row.actual_cents.0 as int)),
        occurs(breach_row(row, share), band_word(row)),
{
    let target = if row.targeted {
        "33.33"@
    } else {
        "0.00"@
    };
    let amount = shown(row.actual_cents.0 as int);
    let p1 = left_aligned(row.asset_class@, 18) + " "@;
    let p2 = p1 + right_aligned(amount, 14);
    let p3 = p2 + " "@;
    let p4 = p3 + right_aligned(share.actual_pct@, 7);
    let p5 = p4 + "% "@;
    let p6 = p5 + right_aligned(target, 7);
    let p7 = p6 + "% "@;
    let p8 = p7 + right_aligned(share.drift_pp@, 9);
    let p9 = p8 + " "@;
    let p10 = p9 + right_aligned(band_word(row), 10);
    assert(breach_row(row, share) == p10 + "\n"@);
    lemma_aligned(row.asset_class@, 18);
    lemma_aligned(amount, 14);
    lemma_aligned(band_word(row), 10);
    lemma_within(left_aligned(row.asset_class@, 18), " "@, row.asset_class@);
    lemma_within(p1, right_aligned(amount, 14), row.asset_class@);
    lemma_within(p1, right_aligned(amount, 14), amount);
    lemma_onward(p2, p3, p4, p5, p6, share, target, row.asset_class@);
    lemma_onward(p2, p3, p4, p5, p6, share, target, amount);
    lemma_finish(p6, p7, p8, p9, p10, share, band_word(row), row.asset_class@);
    lemma_finish(p6, p7, p8, p9, p10, share, band_word(row), amount);
    lemma_within(p9, right_aligned(band_word(row), 10), band_word(row));
    lemma_within(p10, "\n"@, band_word(row));
}

proof fn lemma_onward(
    p2: Seq<char>,
    p3: Seq<char>,
    p4: Seq<char>,
    p5: Seq<char>,
    p6: Seq<char>,
    share: DriftShare,
    target: Seq<char>,
    x: Seq<char>,
)
    requires
        occurs(p2, x),
        p3 == p2 + " "@,
        p4 == p3 + right_aligned(share.actual_pct@, 7),
        p5 == p4 + "% "@,
        p6 == p5 + right_aligned(target, 7),
    ensures
        occurs(p6, x),
{
    lemma_within(p2, " "@, x);
    lemma_within(p3, right_aligned(share.actual_pct@, 7), x);
    lemma_within(p4, "% "@, x);
    lemma_within(p5, right_aligned(target, 7), x);
}

proof fn lemma_finish(
    p6: Seq<char>,
    p7: Seq<char>,
    p8: Seq<char>,
    p9: Seq<char>,
    p10: Seq<char>,
    share: DriftShare,
    word: Seq<char>,
    x: Seq<char>,
)
    requires
        occurs(p6, x),
        p7 == p6 + "% "@,
        p8 == p7 + right_aligned(share.drift_pp@, 9),
        p9 == p8 + " "@,
        p10 == p9 + right_aligned(word, 10),
    ensures
        occurs(p10 + "\n"@, x),
{
    lemma_within(p6, "% "@, x);
    lemma_within(p7, right_aligned(share.drift_pp@, 9), x);
    lemma_within(p8, " "@, x);
    lemma_within(p9, right_aligned(word, 10), x);
    lemma_within(p10, "\n"@, x);
}

/// The table of a breach has a row for each class.
pub proof fn law_breach_table(
    out: Seq<char>,
    rows: Seq<DriftRow>,
    shares: Seq<DriftShare>,
    n: nat,
    i: int,
)
    requires
        0 <= i < n <= rows.len(),
        shares.len() == rows.len(),
    ensures
        occurs(with_breach_rows(out, rows, shares, n), breach_row(rows[i], shares[i])),
    decreases n,
{
    let one = breach_row(rows[i], shares[i]);
    let e = Seq::<char>::empty();
    let before = with_breach_rows(out, rows, shares, (n - 1) as nat);
    let last = breach_row(rows[n - 1], shares[n - 1]);
    if i == n - 1 {
        assert(one =~= e + one + e);
    } else {
        law_breach_table(out, rows, shares, (n - 1) as nat, i);
    }
    lemma_within(before, last, one);
}

/// An alert of no known kind is summed up by its payload, of which a hundred and twenty
/// characters are shown at most; where it was cut, it ends in three dots.
pub proof fn law_other_summary(payload: Seq<char>, reading: AlertReading)
    ensures
        ({
            let s = summary(PayloadShape::Other, payload, reading);
            let t = trimmed(payload);
            &&& t.len() <= 120 ==> s == t
            &&& t.len() > 120 ==> s.len() == 120 && s.take(117) == t.take(117) && s.skip(117)
                == seq!['.', '.', '.']
        }),
{
    reveal_strlit("...");
    let t = trimmed(payload);
    if t.len() > 120 {
        let s = summary(PayloadShape::Other, payload, reading);
        assert(s.take(117) =~= t.take(117));
        assert(s.skip(117) =~= seq!['.', '.', '.']);
    }
}

/// An alert whose payload cannot be read is still summed up by its kind.
pub proof fn law_plain_summary(payload: Seq<char>)
    ensures
        summary(PayloadShape::Stale, payload, AlertReading::Unreadable) == "provider(s) stale"@,
        summary(PayloadShape::Breach, payload, AlertReading::Unreadable)
            == "T2 rebalance bands breached"@,
        summary(PayloadShape::BalanceLow, payload, AlertReading::Unreadable) == "account balance low"@,
        summary(PayloadShape::BandwidthHigh, payload, AlertReading::Unreadable) == "bandwidth high"@,
        summary(PayloadShape::Reminder, payload, AlertReading::Unreadable) == "reminder"@,
        shape_of(Some("provider.stale"@)) == PayloadShape::Stale,
        shape_of(Some("pp.band_breach"@)) == PayloadShape::Breach,
        shape_of(Some("balance.low"@)) == PayloadShape::BalanceLow,
        shape_of(Some("bandwidth.high"@)) == PayloadShape::BandwidthHigh,
        shape_of(Some("reminder"@)) == PayloadShape::Reminder,
        shape_of(None) == PayloadShape::Other,
{
    crate::laws::alerting::lemma_kinds();
}

/// A calendar begins as the format asks: it names its version, who made it, and that it is of the
/// Gregorian calendar.
pub proof fn law_calendar_begins(es: Seq<CalEvent>, now: i64)
    ensures
        ({
            let end = "\r\n"@;
            let head = "BEGIN:VCALENDAR"@ + end + "VERSION:2.0"@ + end
                + "PRODID:-//arca//finance daemon//EN"@ + end + "CALSCALE:GREGORIAN"@ + end
                + "METHOD:PUBLISH"@ + end;
            head.is_prefix_of(calendar_text(es, now))
        }),
{
    law_calendar_is_its_events(es, now);
    let end = "\r\n"@;
    let head = "BEGIN:VCALENDAR"@ + end + "VERSION:2.0"@ + end + "PRODID:-//arca//finance daemon//EN"@
        + end + "CALSCALE:GREGORIAN"@ + end + "METHOD:PUBLISH"@ + end;
    assert(calendar_head() =~= head);
    assert(calendar_text(es, now).take(head.len() as int) =~= head);
}

/// A date of the calendar is the year, the month and the day in UTC, with nothing between them; a
/// time stamp goes on with the hour, the minute and the second.
pub proof fn law_calendar_dates(ts: i64)
    requires
        valid_instant(ts),
    ensures
        date_text(ts) == shown_year(utc_fields(ts).0 as int) + dec2(utc_fields(ts).1 as nat) + dec2(
            utc_fields(ts).2 as nat,
        ),
        stamp_text(ts) == date_text(ts) + "T"@ + dec2(utc_fields(ts).3 as nat) + dec2(
            utc_fields(ts).4 as nat,
        ) + dec2((ts % 60) as nat) + "Z"@,
{
    reveal_strlit("%Y%m%d");
    reveal_strlit("%Y-%m-%d");
    reveal_strlit("%Y%m%dT%H%M%SZ");
    assert("%Y%m%d"@.len() == 6 && "%Y-%m-%d"@.len() == 8 && "%Y%m%dT%H%M%SZ"@.len() == 14);
}

} // verus!
