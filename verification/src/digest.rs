//! When the weekly calendar digest is due, and what a run does.

use crate::calendar::{build_weekly_digest, count_upcoming, weekly_filename};
use crate::config::CalendarCfg;
use crate::db::{recurring_labels, PlannedExpense, RecurringLabel, SubscriptionRecord};
use crate::handler::Tables;
use crate::recurring::{can_list, labeled_series, MIN_OCCURRENCES};
use crate::rpc::LabeledSeries;
use crate::time::{ast_clock, instant_ast, previous_day, weekday_on, Clock, Weekday};
use vstd::prelude::*;

verus! {

use crate::calendar::{calendar_text, date_text, is_upcoming, upcoming_count, CalEvent};
use crate::db::active_labels;
use crate::recurring::{is_listing, rows_in_range};
use crate::time::{
    ast_fields, ast_instant, clock_of, day_before, day_number, is_day, lemma_day_before, lemma_year_of,
    reads, valid_instant, weekday_of,
};

/// The name under which runs are recorded.
pub const JOB_NAME: &'static str = "digest.weekly";

/// The first day with the given weekday, walking back from a day for up to `n` days.
pub open spec fn week_start_from(day: (i32, u32, u32), dow: Weekday, n: nat) -> Option<
    (i32, u32, u32),
>
    decreases n,
{
    if n == 0 {
        None
    } else if weekday_of(day.0, day.1, day.2) == Some(dow.number()) {
        Some(day)
    } else {
        match day_before(day.0, day.1, day.2) {
            Some(b) => week_start_from(b, dow, (n - 1) as nat),
            None => None,
        }
    }
}

/// The number of a day.
pub open spec fn number_of(day: (i32, u32, u32)) -> int {
    day_number(day.0 as int, day.1 as int, day.2 as int)
}

pub open spec fn on_calendar(day: (i32, u32, u32)) -> bool {
    is_day(day.0 as int, day.1 as int, day.2 as int)
}

/// Whether a day of the calendar has the given weekday.
pub open spec fn falls_on(day: (i32, u32, u32), dow: Weekday) -> bool {
    on_calendar(day) && weekday_of(day.0, day.1, day.2) == Some(dow.number())
}

/// Whether the day `back` days before a day has the given weekday.
pub open spec fn hits(day: int, back: int, weekday: u32) -> bool {
    (day - back + 3) % 7 == weekday
}

/// One of any seven days in a row has the given weekday.
proof fn lemma_one_in_seven(day: int, weekday: u32)
    requires
        weekday < 7,
    ensures
        exists|j: int| 0 <= j < 7 && #[trigger] hits(day, j, weekday),
{
    let j = (day + 3 - weekday) % 7;
    assert((day - j + 3) % 7 == weekday);
    assert(hits(day, j, weekday));
}

/// The last day up to today with the given weekday: today itself, or one of the six days
/// before it.
pub fn start_of_week(today: (i32, u32, u32), day_of_week: Weekday) -> (r: Option<(i32, u32, u32)>)
    ensures
        r == week_start_from(today, day_of_week, 7),
        r is Some ==> falls_on(r->0, day_of_week) && 0 <= number_of(today) - number_of(r->0) < 7,
        r is None ==> !on_calendar(today) || number_of(today) < day_number(-262143, 1, 1) + 6,
{
    let mut d: (i32, u32, u32) = today;
    let mut k: u32 = 0;
    while k < 7
        invariant
            k <= 7,
            week_start_from(today, day_of_week, 7) == week_start_from(
                d,
                day_of_week,
                (7 - k) as nat,
            ),
            k == 0 ==> d == today,
            k > 0 ==> on_calendar(today) && on_calendar(d),
            number_of(d) == number_of(today) - k,
            forall|j: int|
                0 <= j < k ==> !#[trigger] hits(number_of(today), j, day_of_week.number()),
        decreases 7 - k,
    {
        match weekday_on(d.0, d.1, d.2) {
            Some(w) => {
                if w == day_of_week.days_from_monday() {
                    return Some(d);
                }
                assert(!hits(number_of(today), k as int, day_of_week.number()));
            },
            None => {},
        }
        proof {
            lemma_one_in_seven(number_of(today), day_of_week.number());
            lemma_day_before(d.0, d.1, d.2);
        }
        match previous_day(d.0, d.1, d.2) {
            Some(b) => {
                d = b;
            },
            None => {
                return None;
            },
        }
        k = k + 1;
    }
    proof {
        lemma_one_in_seven(number_of(today), day_of_week.number());
    }
    None
}

/// The start of the week of an instant, as it passes in Puerto Rico.
pub open spec fn week_start(as_of: i64, dow: Weekday) -> Option<i64> {
    let f = ast_fields(as_of);
    match week_start_from((f.0, f.1, f.2), dow, 7) {
        Some(d) => ast_instant(d.0, d.1, d.2, 0, 0),
        None => None,
    }
}

/// Whether a digest is due: on its weekday, late enough in the day, and none was made since
/// the week began.
pub open spec fn digest_due(cfg: CalendarCfg, as_of: i64, last_run: Option<i64>) -> bool {
    let clock = clock_of(ast_fields(as_of));
    &&& valid_instant(as_of)
    &&& clock.weekday == cfg.day_of_week.number()
    &&& clock.hour >= cfg.hour_at_or_after
    &&& week_start(as_of, cfg.day_of_week) is Some
    &&& last_run is Some ==> last_run->0 < week_start(as_of, cfg.day_of_week)->0
}

/// Whether a digest is due. From 1970 to 9999 the week begins at midnight of the day.
pub fn is_due(cfg: &CalendarCfg, as_of: i64, last_run: Option<i64>) -> (r: bool)
    ensures
        r == digest_due(*cfg, as_of, last_run),
        0 <= as_of <= 253_402_300_799 && r ==> as_of - 86_400 < week_start(
            as_of,
            cfg.day_of_week,
        )->0 <= as_of,
{
    let local: Clock = match ast_clock(as_of) {
        Some(c) => c,
        None => {
            return false;
        },
    };
    if local.weekday != cfg.day_of_week.days_from_monday() {
        return false;
    }
    if local.hour < cfg.hour_at_or_after {
        return false;
    }
    let today: (i32, u32, u32) = (local.year, local.month, local.day);
    let first: (i32, u32, u32) = match start_of_week(today, cfg.day_of_week) {
        Some(d) => d,
        None => {
            return false;
        },
    };
    let start: Option<i64> = instant_ast(first.0, first.1, first.2, 0, 0);
    proof {
        let f = ast_fields(as_of);
        if 0 <= as_of <= 253_402_300_799 {
            assert(reads(f, as_of - 14_400));
            lemma_year_of(f.0 as int, f.1 as int, f.2 as int);
            assert(weekday_of(f.0, f.1, f.2) == Some(cfg.day_of_week.number()));
            assert(first == today);
        }
    }
    match start {
        Some(s) => match last_run {
            Some(t) => t < s,
            None => true,
        },
        None => false,
    }
}

/// A digest is made once a week: after a run since the week began, none is due for the rest
/// of the week.
pub proof fn law_digest_once_a_week(cfg: CalendarCfg, run_at: i64, later: i64)
    requires
        week_start(later, cfg.day_of_week) is Some,
        week_start(later, cfg.day_of_week)->0 <= run_at,
    ensures
        !digest_due(cfg, later, Some(run_at)),
{
}

/// What a run of the digest does.
#[derive(Debug)]
pub enum DigestRun {
    /// Nothing.
    NotDue,
    /// Records the run, so that it is not looked at again this week, and writes nothing.
    Empty,
    /// Writes the calendar to the file and records the run.
    Write { filename: String, ics: String },
}

/// The arithmetic on the window of a digest stays within 64 bits.
pub open spec fn window_fits(as_of: i64, days: i64) -> bool {
    i64::MIN <= days * 86_400 <= i64::MAX && i64::MIN <= as_of + days * 86_400 <= i64::MAX
}

/// The text of a digest.
pub open spec fn is_digest(
    text: Seq<char>,
    planned: Seq<PlannedExpense>,
    subs: Seq<SubscriptionRecord>,
    recurring: Seq<LabeledSeries>,
    as_of: i64,
    until: i64,
) -> bool {
    exists|es: Seq<CalEvent>, now: i64|
        text == #[trigger] calendar_text(es, now) && is_upcoming(
            es,
            planned,
            subs,
            recurring,
            as_of,
            until,
        )
}

/// What a run of the digest comes to at an instant, with the stored rows and the recurring
/// series.
pub open spec fn is_run(
    r: DigestRun,
    cfg: CalendarCfg,
    as_of: i64,
    last_run: Option<i64>,
    planned: Seq<PlannedExpense>,
    subs: Seq<SubscriptionRecord>,
    recurring: Seq<LabeledSeries>,
) -> bool {
    let until = (as_of + cfg.lookahead_days * 86_400) as i64;
    let due = digest_due(cfg, as_of, last_run);
    let none = upcoming_count(planned, subs, recurring, as_of, until) == 0;
    match r {
        DigestRun::NotDue => !due,
        DigestRun::Empty => due && none && !cfg.send_when_empty,
        DigestRun::Write { filename, ics } => due && (!none || cfg.send_when_empty) && filename@
            == "arca-"@ + date_text(as_of) + ".ics"@ && is_digest(
            ics@,
            planned,
            subs,
            recurring,
            as_of,
            until,
        ),
    }
}

/// What a run of the digest does at an instant.
pub fn maybe_run(
    cfg: &CalendarCfg,
    as_of: i64,
    last_run: Option<i64>,
    planned: &Vec<PlannedExpense>,
    subs: &Vec<SubscriptionRecord>,
    recurring: &Vec<LabeledSeries>,
) -> (r: DigestRun)
    requires
        window_fits(as_of, cfg.lookahead_days),
        subs@.len() <= i64::MAX,
    ensures
        is_run(r, *cfg, as_of, last_run, planned@, subs@, recurring@),
{
    if !is_due(cfg, as_of, last_run) {
        return DigestRun::NotDue;
    }
    let count: usize = count_upcoming(planned, subs, recurring, as_of, cfg.lookahead_days);
    if count == 0 && !cfg.send_when_empty {
        return DigestRun::Empty;
    }
    let ics: String = build_weekly_digest(planned, subs, recurring, as_of, cfg.lookahead_days);
    DigestRun::Write { filename: weekly_filename(as_of), ics }
}

/// Whether a digest of the tables can be made: the arithmetic on the window and on every
/// payee's history stays within 64 bits.
pub open spec fn can_run(t: Tables, cfg: CalendarCfg, as_of: i64) -> bool {
    &&& window_fits(as_of, cfg.lookahead_days)
    &&& t.subscriptions@.len() <= i64::MAX
    &&& rows_in_range(t.transactions@, MIN_OCCURRENCES as nat)
}

/// What a run of the digest does with the tables, unless they leave the range that it is
/// computed in. The recurring series are those of all transactions, with the labels that
/// count.
pub fn weekly_run(cfg: &CalendarCfg, as_of: i64, last_run: Option<i64>, t: &Tables) -> (r: Option<
    DigestRun,
>)
    ensures
        r is Some == can_run(*t, *cfg, as_of),
        r is Some ==> exists|recurring: Seq<LabeledSeries>| #[trigger]
            is_listing(
                recurring,
                t.transactions@,
                active_labels(t.labels@),
                MIN_OCCURRENCES as nat,
                false,
            ) && is_run(
                r->0,
                *cfg,
                as_of,
                last_run,
                t.planned@,
                t.subscriptions@,
                recurring,
            ),
{
    let window: Option<i64> = match cfg.lookahead_days.checked_mul(86_400) {
        Some(secs) => as_of.checked_add(secs),
        None => None,
    };
    if window.is_none() || t.subscriptions.len() as u64 > i64::MAX as u64 || !can_list(
        &t.transactions,
        MIN_OCCURRENCES,
    ) {
        return None;
    }
    let labels: Vec<RecurringLabel> = recurring_labels(&t.labels);
    let recurring: Vec<LabeledSeries> = labeled_series(&t.transactions, &labels, MIN_OCCURRENCES);
    let run: DigestRun = maybe_run(
        cfg,
        as_of,
        last_run,
        &t.planned,
        &t.subscriptions,
        &recurring,
    );
    assert(is_listing(
        recurring@,
        t.transactions@,
        active_labels(t.labels@),
        MIN_OCCURRENCES as nat,
        false,
    ));
    Some(run)
}

/// The digest of the next days, written nowhere.
pub fn preview(
    planned: &Vec<PlannedExpense>,
    subs: &Vec<SubscriptionRecord>,
    recurring: &Vec<LabeledSeries>,
    as_of_secs: i64,
    days: i64,
) -> (r: String)
    requires
        window_fits(as_of_secs, days),
        subs@.len() <= i64::MAX,
    ensures
        is_digest(
            r@,
            planned@,
            subs@,
            recurring@,
            as_of_secs,
            (as_of_secs + days * 86_400) as i64,
        ),
{
    build_weekly_digest(planned, subs, recurring, as_of_secs, days)
}

} // verus!
