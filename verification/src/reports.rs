//! When the monthly report is due, and what a run does.

use crate::config::ReportsCfg;
use crate::error::CoreError;
use crate::report::{monthly_report, Books, MonthWindow, MonthlyReport};
use crate::time::{ast_clock, instant_ast, Clock};
use vstd::prelude::*;

verus! {

use crate::ledger::month_label;
use crate::report::{can_report, is_report_outcome, prior_window};
use crate::time::{ast_fields, ast_instant, clock_of, lemma_year_of, reads, valid_instant};

/// The name under which runs are recorded.
pub const JOB_NAME: &'static str = "report.monthly";

/// The start of the month of an instant, as it passes in Puerto Rico.
pub open spec fn month_start(as_of: i64) -> Option<i64> {
    ast_instant(ast_fields(as_of).0, ast_fields(as_of).1, 1, 0, 0)
}

/// Whether a report is due: late enough in the month and in the day, and none was made
/// since the month began.
pub open spec fn report_due(cfg: ReportsCfg, as_of: i64, last_run: Option<i64>) -> bool {
    let clock = clock_of(ast_fields(as_of));
    &&& valid_instant(as_of)
    &&& clock.day >= cfg.min_day_of_month
    &&& clock.hour >= cfg.hour_at_or_after
    &&& month_start(as_of) is Some
    &&& last_run is Some ==> last_run->0 < month_start(as_of)->0
}

/// Whether a report is due. From 1970 to 9999 the month has a start, not after the instant.
pub fn is_due(cfg: &ReportsCfg, as_of: i64, last_run: Option<i64>) -> (r: bool)
    ensures
        r == report_due(*cfg, as_of, last_run),
        0 <= as_of <= 253_402_300_799 && r ==> month_start(as_of)->0 <= as_of,
{
    let local: Clock = match ast_clock(as_of) {
        Some(c) => c,
        None => {
            return false;
        },
    };
    if local.day < cfg.min_day_of_month {
        return false;
    }
    if local.hour < cfg.hour_at_or_after {
        return false;
    }
    let start: Option<i64> = instant_ast(local.year, local.month, 1, 0, 0);
    proof {
        let f = ast_fields(as_of);
        if 0 <= as_of <= 253_402_300_799 {
            assert(reads(f, as_of - 14_400));
            lemma_year_of(f.0 as int, f.1 as int, f.2 as int);
        }
    }
    match start {
        Some(s) => match last_run {
            Some(t) => t < s,
            None => true,
        },
        None => false,
    }
}

/// A report is made once a month: after a run since the month began, none is due for the
/// rest of the month.
pub proof fn law_report_once_a_month(cfg: ReportsCfg, run_at: i64, later: i64)
    requires
        month_start(later) is Some,
        month_start(later)->0 <= run_at,
    ensures
        !report_due(cfg, later, Some(run_at)),
{
}

/// A run in an earlier month does not stand in the way of the next report.
pub proof fn law_earlier_run_does_not_count(cfg: ReportsCfg, as_of: i64, run_at: i64)
    requires
        month_start(as_of) is Some,
        run_at < month_start(as_of)->0,
    ensures
        report_due(cfg, as_of, Some(run_at)) == report_due(cfg, as_of, None),
{
}

/// The file that a report is written to.
pub fn report_filename(window: &MonthWindow) -> (r: String)
    ensures
        r@ == month_label(window.label_year as int, window.label_month as int) + ".md"@,
{
    window.label().concat(".md")
}

/// What a run of the report does.
#[derive(Debug)]
pub enum ReportRun {
    /// Nothing.
    NotDue,
    /// Writes the report to the file and records the run.
    Write { filename: String, report: MonthlyReport },
    /// Records nothing, so that the next look tries again.
    Failed(CoreError),
}

/// What a run comes to when a report is due: the report of the month before, or why it
/// cannot be built.
pub open spec fn is_run(r: ReportRun, b: Books, w: MonthWindow) -> bool {
    match r {
        ReportRun::NotDue => false,
        ReportRun::Write { filename, report } => filename@ == month_label(
            w.label_year as int,
            w.label_month as int,
        ) + ".md"@ && is_report_outcome(Ok(report), b, w),
        ReportRun::Failed(e) => is_report_outcome(Err(e), b, w),
    }
}

/// What a run of the report does at an instant: nothing unless a report is due, else the
/// report of the month before. None where that month or the books leave the range that the
/// report is computed in.
pub fn maybe_run(cfg: &ReportsCfg, as_of: i64, last_run: Option<i64>, b: &Books) -> (r: Option<
    ReportRun,
>)
    ensures
        !report_due(*cfg, as_of, last_run) ==> r == Some(ReportRun::NotDue),
        report_due(*cfg, as_of, last_run) ==> match prior_window(as_of) {
            Some(w) => (r is Some == can_report(*b)) && (r is Some ==> is_run(r->0, *b, w)),
            None => r is None,
        },
{
    if !is_due(cfg, as_of, last_run) {
        return Some(ReportRun::NotDue);
    }
    let w: MonthWindow = match MonthWindow::prior_month(as_of) {
        Some(w) => w,
        None => {
            return None;
        },
    };
    match monthly_report(b, w) {
        Some(Ok(report)) => Some(ReportRun::Write { filename: report_filename(&w), report }),
        Some(Err(e)) => Some(ReportRun::Failed(e)),
        None => None,
    }
}

} // verus!
