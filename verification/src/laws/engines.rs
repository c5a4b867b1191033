//! Laws of what runs by the clock: polling, the weekly calendar and the monthly report.

use vstd::prelude::*;

verus! {

use crate::config::{CalendarCfg, ReportsCfg};
use crate::db::{PlannedExpense, ProviderRow, SubscriptionRecord};
use crate::digest::{digest_due, is_run, week_start, DigestRun};
use crate::ids::ProviderId;
use crate::laws::payees::occurs;
use crate::order::{first_index, lemma_first_index_is_first, sum_over};
use crate::provider::RefreshReport;
use crate::report::{is_monthly_report, Books, MonthWindow};
use crate::reports::{month_start, report_due, ReportRun};
use crate::rpc::LabeledSeries;
use crate::scheduler::{
    chosen, interval_of, is_due_row, is_poll_report, is_provider, last_poll, line_of, rows_in_all,
    status_of, PollOutcome,
};
use crate::text::{begins_with, dec2, i64_value};
use crate::time::{ast_fields, ast_instant, valid_instant, year_text};

// ---------------------------------------------------------------------------
// Polling
// ---------------------------------------------------------------------------

/// How many seconds lie between two polls of a cadence: an hour, a day, a week, or what it says
/// itself.
pub open spec fn polls_every(cadence: Seq<char>, secs: i64) -> bool {
    ||| cadence == "hourly"@ && secs == 60 * 60
    ||| cadence == "daily"@ && secs == 24 * 60 * 60
    ||| cadence == "weekly"@ && secs == 7 * 24 * 60 * 60
    ||| cadence.len() >= 6 && cadence.take(6) == "every:"@ && i64_value(cadence.skip(6)) == Some(secs)
}

/// Whether the row of a provider was last polled at an instant, or never.
pub open spec fn polled_last(rows: Seq<ProviderRow>, id: ProviderId, last: Option<i64>) -> bool {
    ||| exists|k: int|
        0 <= k < rows.len() && (#[trigger] rows[k]).id == id && rows[k].last_poll_at == last && (
        forall|j: int| 0 <= j < k ==> (#[trigger] rows[j]).id != id)
    ||| last is None && forall|k: int| 0 <= k < rows.len() ==> (#[trigger] rows[k]).id != id
}

/// A provider is polled where it never was, or where the time between two polls of its cadence
/// has passed since the last; one whose cadence names no such time is not.
pub proof fn law_poll_is_due(
    row: ProviderRow,
    rows: Seq<ProviderRow>,
    now: i64,
    secs: i64,
    last: Option<i64>,
)
    requires
        polled_last(rows, row.id, last),
    ensures
        polls_every(row.poll_cadence@, secs) ==> (is_due_row(row, rows, now) <==> last is None || last->0
            + secs <= now),
        (forall|s: i64| !#[trigger] polls_every(row.poll_cadence@, s)) ==> !is_due_row(row, rows, now),
{
    let c = row.poll_cadence@;
    lemma_cadences();
    let p = |r: ProviderRow| is_provider(r, row.id);
    lemma_first_index_is_first(rows, p);
    let k = first_index(rows, p);
    if exists|j: int|
        0 <= j < rows.len() && (#[trigger] rows[j]).id == row.id && rows[j].last_poll_at == last && (
        forall|i: int| 0 <= i < j ==> (#[trigger] rows[i]).id != row.id) {
        let j = choose|j: int|
            0 <= j < rows.len() && (#[trigger] rows[j]).id == row.id && rows[j].last_poll_at == last
                && (forall|i: int| 0 <= i < j ==> (#[trigger] rows[i]).id != row.id);
        assert(p(rows[j]));
        if k < j {
            assert(p(rows[k]));
        } else if j < k {
            assert(!p(rows[j]));
        }
    } else {
        if k < rows.len() {
            assert(p(rows[k]));
        }
    }
    assert(last_poll(rows, row.id) == last);
    if begins_with(c, "every:"@) {
        assert(c.take(6) == "every:"@);
    }
    match interval_of(c) {
        Some(s) => {
            assert(polls_every(c, s));
        },
        None => {},
    }
}

proof fn lemma_cadences()
    ensures
        "every:"@.len() == 6,
        "every:"@[0] == 'e',
        "hourly"@[0] == 'h',
        "daily"@[0] == 'd',
        "weekly"@[0] == 'w',
        "manual"@[0] == 'm',
        "hourly"@.len() > 0,
        "daily"@.len() > 0,
        "weekly"@.len() > 0,
        "manual"@.len() > 0,
{
    reveal_strlit("every:");
    reveal_strlit("hourly");
    reveal_strlit("daily");
    reveal_strlit("weekly");
    reveal_strlit("manual");
}

/// Whether a kind is the one that was asked for, or none was.
pub open spec fn is_asked_for(kind: Seq<char>, filter: Option<Seq<char>>) -> bool {
    match filter {
        Some(f) => kind == f,
        None => true,
    }
}

/// The providers that a refresh takes are those of the kind that was asked for, or all, in their
/// order.
pub proof fn law_chosen(kinds: Seq<String>, filter: Option<Seq<char>>)
    ensures
        forall|i: int|
            0 <= i < chosen(kinds, filter).len() ==> 0 <= (#[trigger] chosen(kinds, filter)[i])
                < kinds.len() && is_asked_for(kinds[chosen(kinds, filter)[i]]@, filter),
        forall|k: int|
            0 <= k < kinds.len() && is_asked_for((#[trigger] kinds[k])@, filter) ==> chosen(
                kinds,
                filter,
            ).contains(k),
        forall|i: int, j: int|
            0 <= i < j < chosen(kinds, filter).len() ==> #[trigger] chosen(kinds, filter)[i]
                < #[trigger] chosen(kinds, filter)[j],
    decreases kinds.len(),
{
    if kinds.len() > 0 {
        let n = kinds.len() - 1;
        let d = kinds.drop_last();
        law_chosen(d, filter);
        let before = chosen(d, filter);
        let after = chosen(kinds, filter);
        assert forall|i: int| 0 <= i < after.len() implies 0 <= (#[trigger] after[i]) < kinds.len()
            && is_asked_for(kinds[after[i]]@, filter) by {
            if i < before.len() {
                assert(after[i] == before[i]);
                assert(d[before[i]] == kinds[before[i]]);
            }
        }
        assert forall|k: int|
            0 <= k < kinds.len() && is_asked_for((#[trigger] kinds[k])@, filter) implies after.contains(
            k,
        ) by {
            if k < n {
                assert(d[k] == kinds[k]);
                assert(before.contains(k));
                let i = choose|i: int| 0 <= i < before.len() && before[i] == k;
                assert(after[i] == k);
            } else {
                assert(after[before.len() as int] == k);
            }
        }
        assert forall|i: int, j: int| 0 <= i < j < after.len() implies #[trigger] after[i]
            < #[trigger] after[j] by {
            assert(after[i] == before[i]);
            if j < before.len() {
                assert(after[j] == before[j]);
            }
        }
    }
}

/// The rows that a refresh wrote are those that its reports wrote together.
pub proof fn law_rows_in_all(reports: Seq<RefreshReport>)
    ensures
        0 <= sum_over(reports, |r: RefreshReport| r.rows_written as int),
        sum_over(reports, |r: RefreshReport| r.rows_written as int) <= u32::MAX ==> rows_in_all(reports)
            == sum_over(reports, |r: RefreshReport| r.rows_written as int),
        sum_over(reports, |r: RefreshReport| r.rows_written as int) > u32::MAX ==> rows_in_all(reports)
            == u32::MAX,
    decreases reports.len(),
{
    if reports.len() > 0 {
        law_rows_in_all(reports.drop_last());
    }
}

// ---------------------------------------------------------------------------
// The weekly calendar and the monthly report
// ---------------------------------------------------------------------------

/// The calendar is due on its day of the week, from its hour on, where no run was recorded since
/// that week began, and at no other time.
pub proof fn law_digest_due(cfg: CalendarCfg, as_of: i64, last_run: Option<i64>)
    requires
        valid_instant(as_of),
        week_start(as_of, cfg.day_of_week) is Some,
    ensures
        digest_due(cfg, as_of, last_run) <==> {
            &&& ast_fields(as_of).5 == cfg.day_of_week.number()
            &&& cfg.hour_at_or_after <= ast_fields(as_of).3
            &&& match last_run {
                Some(t) => t < week_start(as_of, cfg.day_of_week)->0,
                None => true,
            }
        },
{
}

/// A run of the calendar happens exactly where it is due. It writes a file unless there is
/// nothing to show and a calendar without events is not wanted.
pub proof fn law_digest_run(
    r: DigestRun,
    cfg: CalendarCfg,
    as_of: i64,
    last_run: Option<i64>,
    planned: Seq<PlannedExpense>,
    subs: Seq<SubscriptionRecord>,
    recurring: Seq<LabeledSeries>,
)
    requires
        is_run(r, cfg, as_of, last_run, planned, subs, recurring),
    ensures
        r is NotDue <==> !digest_due(cfg, as_of, last_run),
        cfg.send_when_empty ==> !(r is Empty),
        r is Empty ==> crate::calendar::upcoming_count(
            planned,
            subs,
            recurring,
            as_of,
            (as_of + cfg.lookahead_days * 86_400) as i64,
        ) == 0,
        r is Write && !cfg.send_when_empty ==> crate::calendar::upcoming_count(
            planned,
            subs,
            recurring,
            as_of,
            (as_of + cfg.lookahead_days * 86_400) as i64,
        ) > 0,
{
}

/// The report is due from its day of the month and its hour on, where no run was recorded since
/// that month began, and at no other time.
pub proof fn law_report_due(cfg: ReportsCfg, as_of: i64, last_run: Option<i64>)
    requires
        valid_instant(as_of),
        month_start(as_of) is Some,
    ensures
        month_start(as_of) == ast_instant(ast_fields(as_of).0, ast_fields(as_of).1, 1, 0, 0),
        report_due(cfg, as_of, last_run) <==> {
            &&& cfg.min_day_of_month <= ast_fields(as_of).2
            &&& cfg.hour_at_or_after <= ast_fields(as_of).3
            &&& match last_run {
                Some(t) => t < month_start(as_of)->0,
                None => true,
            }
        },
{
}


/// Whether the report of a poll tells of its halves: the rows that both wrote, and in its message
/// the error of a half that failed.
pub open spec fn tells_poll(
    r: RefreshReport,
    balances: PollOutcome,
    transactions: PollOutcome,
) -> bool {
    &&& match (balances, transactions) {
        (PollOutcome::Done(a, _), PollOutcome::Done(b, _)) => r.rows_written == a + b,
        (PollOutcome::Done(a, _), PollOutcome::Failed(_)) => r.rows_written == a,
        (PollOutcome::Failed(_), PollOutcome::Done(b, _)) => r.rows_written == b,
        (PollOutcome::Failed(_), PollOutcome::Failed(_)) => r.rows_written == 0,
    }
    &&& r.message is Some
    &&& balances is Failed ==> occurs(
        r.message->0@,
        "balances"@ + " error: "@ + balances->Failed_0@,
    )
    &&& transactions is Failed ==> occurs(
        r.message->0@,
        "transactions"@ + " error: "@ + transactions->Failed_0@,
    )
}

/// The report of a poll counts the rows of both halves and tells the error of each that failed.
pub proof fn law_poll_report(
    r: RefreshReport,
    kind: Seq<char>,
    label: Seq<char>,
    balances: PollOutcome,
    transactions: PollOutcome,
)
    requires
        is_poll_report(r, kind, label, balances, transactions),
    ensures
        tells_poll(r, balances, transactions),
        r.provider_kind@ == kind + ":"@ + label,
{
    let e = Seq::<char>::empty();
    let a = line_of(balances, "balances"@);
    let b = line_of(transactions, "transactions"@);
    let m = r.message->0@;
    if a is Some && b is Some {
        assert(m =~= e + a->0 + ("; "@ + b->0));
        assert(m =~= (a->0 + "; "@) + b->0 + e);
    } else if a is Some {
        assert(m =~= e + a->0 + e);
    } else if b is Some {
        assert(m =~= e + b->0 + e);
    }
}

/// What is kept of a poll is that it went well, or which half of it failed and how: the balances
/// are named first.
pub proof fn law_poll_status(balances: PollOutcome, transactions: PollOutcome)
    ensures
        match balances {
            PollOutcome::Failed(e) => status_of(balances, transactions) == "err:balance:"@ + e@,
            PollOutcome::Done(_, _) => match transactions {
                PollOutcome::Failed(e) => status_of(balances, transactions) == "err:tx:"@ + e@,
                PollOutcome::Done(_, _) => status_of(balances, transactions) == "ok"@,
            },
        },
{
}

/// The report that is written is that of the month that the window covers, in a file named
/// after it.
pub proof fn law_report_run(r: ReportRun, b: Books, w: MonthWindow)
    requires
        crate::reports::is_run(r, b, w),
    ensures
        !(r is NotDue),
        r matches ReportRun::Write { filename, report } ==> filename@ == year_text(
            w.label_year as int,
        ) + "-"@ + dec2(w.label_month as nat) + ".md"@ && is_monthly_report(report, b, w),
{
}

} // verus!
