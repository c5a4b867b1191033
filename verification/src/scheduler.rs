//! When a provider is polled, and what a poll reports.
//!
//! The cadence is a word: `manual` is never polled by the clock, `hourly`, `daily` and
//! `weekly` are what they say, and `every:NNN` is every so many seconds. Any other word
//! counts as `manual`.

use crate::db::ProviderRow;
use crate::ids::ProviderId;
use crate::provider::{Cursor, RefreshReport};
use crate::rpc::{Response, RpcError};
use crate::text::{from_char_range, parse_i64, quoted, starts_with, str_eq, to_chars};
use vstd::prelude::*;

verus! {

use crate::order::{first_index, lemma_first_index};
use crate::text::{begins_with, debug_text, i64_value};

/// The interval of a cadence in seconds; none for one that the clock does not drive.
pub open spec fn interval_of(cadence: Seq<char>) -> Option<i64> {
    if cadence == "manual"@ {
        None
    } else if cadence == "hourly"@ {
        Some(3_600)
    } else if cadence == "daily"@ {
        Some(86_400)
    } else if cadence == "weekly"@ {
        Some(604_800)
    } else if begins_with(cadence, "every:"@) {
        i64_value(cadence.skip(6))
    } else {
        None
    }
}

/// The interval of a cadence in seconds; none for one that the clock does not drive.
pub fn parse_cadence(s: &str) -> (r: Option<i64>)
    ensures
        r == interval_of(s@),
{
    if str_eq(s, "manual") {
        None
    } else if str_eq(s, "hourly") {
        Some(3_600)
    } else if str_eq(s, "daily") {
        Some(86_400)
    } else if str_eq(s, "weekly") {
        Some(604_800)
    } else if starts_with(s, "every:") {
        proof {
            reveal_strlit("every:");
        }
        let v: Vec<char> = to_chars(s);
        let n: usize = v.len();
        let rest: String = from_char_range(&v, 6, n);
        assert(rest@ =~= s@.skip(6));
        parse_i64(rest.as_str())
    } else {
        None
    }
}

/// Whether a poll is due: the interval has passed, or there was no poll yet.
pub open spec fn poll_due(last: Option<i64>, now: i64, interval: i64) -> bool {
    last is None || now - last->0 >= interval
}

/// Whether a poll is due: the interval has passed, or there was no poll yet.
pub fn is_poll_due(last: Option<i64>, now: i64, interval: i64) -> (r: bool)
    requires
        last is Some ==> i64::MIN <= now - last->0 <= i64::MAX,
    ensures
        r == poll_due(last, now, interval),
{
    match last {
        Some(t) => now - t >= interval,
        None => true,
    }
}

pub open spec fn is_provider(r: ProviderRow, id: ProviderId) -> bool {
    r.id == id
}

/// The last poll of a provider.
pub open spec fn last_poll(rows: Seq<ProviderRow>, id: ProviderId) -> Option<i64> {
    let k = first_index(rows, |r: ProviderRow| is_provider(r, id));
    if k < rows.len() {
        rows[k].last_poll_at
    } else {
        None
    }
}

/// The last poll of a provider.
pub fn current_last_poll(rows: &Vec<ProviderRow>, id: ProviderId) -> (r: Option<i64>)
    ensures
        r == last_poll(rows@, id),
{
    let ghost p = |r: ProviderRow| is_provider(r, id);
    let mut i: usize = 0;
    while i < rows.len() && rows[i].id.0 != id.0
        invariant
            i <= rows.len(),
            p == (|r: ProviderRow| is_provider(r, id)),
            forall|j: int| 0 <= j < i ==> !p(#[trigger] rows@[j]),
        decreases rows.len() - i,
    {
        i = i + 1;
    }
    proof {
        lemma_first_index(rows@, p, i as int);
    }
    if i < rows.len() {
        rows[i].last_poll_at
    } else {
        None
    }
}

/// Whether a provider is polled on a tick of the clock.
pub open spec fn is_due_row(row: ProviderRow, rows: Seq<ProviderRow>, now: i64) -> bool {
    match interval_of(row.poll_cadence@) {
        Some(interval) => poll_due(last_poll(rows, row.id), now, interval),
        None => false,
    }
}

/// Whether a provider is polled on a tick of the clock.
pub fn should_poll(row: &ProviderRow, rows: &Vec<ProviderRow>, now: i64) -> (r: bool)
    requires
        last_poll(rows@, row.id) is Some ==> i64::MIN <= now - last_poll(rows@, row.id)->0
            <= i64::MAX,
    ensures
        r == is_due_row(*row, rows@, now),
{
    match parse_cadence(row.poll_cadence.as_str()) {
        Some(interval) => is_poll_due(current_last_poll(rows, row.id), now, interval),
        None => false,
    }
}

/// A manual provider is never polled by the clock.
pub proof fn law_manual_is_never_polled(row: ProviderRow, rows: Seq<ProviderRow>, now: i64)
    requires
        row.poll_cadence@ == "manual"@,
    ensures
        !is_due_row(row, rows, now),
{
}

/// What one half of a poll came to: the rows written and a message, or an error.
#[derive(Debug)]
pub enum PollOutcome {
    Done(u32, Option<String>),
    Failed(String),
}

/// The rows that one half of a poll wrote.
pub open spec fn rows_of(o: PollOutcome) -> int {
    match o {
        PollOutcome::Done(n, _) => n as int,
        PollOutcome::Failed(_) => 0,
    }
}

/// The line that one half of a poll adds to the message.
pub open spec fn line_of(o: PollOutcome, what: Seq<char>) -> Option<Seq<char>> {
    match o {
        PollOutcome::Done(_, Some(m)) => Some(what + ": "@ + m@),
        PollOutcome::Done(_, None) => None,
        PollOutcome::Failed(e) => Some(what + " error: "@ + e@),
    }
}

/// The status of a poll: the first error counts.
pub open spec fn status_of(balances: PollOutcome, transactions: PollOutcome) -> Seq<char> {
    match (balances, transactions) {
        (PollOutcome::Failed(e), _) => "err:balance:"@ + e@,
        (_, PollOutcome::Failed(e)) => "err:tx:"@ + e@,
        _ => "ok"@,
    }
}

/// Whether a status is one that a poll records where a half of it failed.
pub open spec fn tells_failure(status: Seq<char>) -> bool {
    begins_with(status, "err:balance:"@) || begins_with(status, "err:tx:"@)
}

/// Whether a status is one that a poll records where a half of it failed.
pub fn is_failure_status(status: &str) -> (r: bool)
    ensures
        r == tells_failure(status@),
{
    starts_with(status, "err:balance:") || starts_with(status, "err:tx:")
}

/// Two lines in one, with a separator where there are both.
pub open spec fn joined_lines(a: Option<Seq<char>>, b: Option<Seq<char>>) -> Seq<char> {
    match (a, b) {
        (Some(x), Some(y)) => x + "; "@ + y,
        (Some(x), None) => x,
        (None, Some(y)) => y,
        (None, None) => Seq::<char>::empty(),
    }
}

/// What a poll reports.
pub open spec fn is_poll_report(
    r: RefreshReport,
    kind: Seq<char>,
    label: Seq<char>,
    balances: PollOutcome,
    transactions: PollOutcome,
) -> bool {
    &&& r.provider_kind@ == kind + ":"@ + label
    &&& r.rows_written == rows_of(balances) + rows_of(transactions)
    &&& r.cursor.0 is None
    &&& r.message is Some
    &&& r.message->0@ == joined_lines(
        line_of(balances, "balances"@),
        line_of(transactions, "transactions"@),
    )
}

fn outcome_line(o: &PollOutcome, what: &str) -> (r: Option<String>)
    ensures
        crate::text::opt_text(r) == line_of(*o, what@),
{
    match o {
        PollOutcome::Done(_, m) => match m {
            Some(m) => Some(what.to_owned().concat(": ").concat(m.as_str())),
            None => None,
        },
        PollOutcome::Failed(e) => Some(what.to_owned().concat(" error: ").concat(e.as_str())),
    }
}

fn outcome_rows(o: &PollOutcome) -> (r: u32)
    ensures
        r == rows_of(*o),
{
    match o {
        PollOutcome::Done(n, _) => *n,
        PollOutcome::Failed(_) => 0,
    }
}

/// The status and the report of a poll. An error does not end the poll: it goes into the
/// status and the message. The poll counts as made; that it failed is seen by its status.
pub fn fold_poll(
    kind: &str,
    label: &str,
    balances: &PollOutcome,
    transactions: &PollOutcome,
) -> (r: (String, RefreshReport))
    requires
        rows_of(*balances) + rows_of(*transactions) <= u32::MAX,
    ensures
        r.0@ == status_of(*balances, *transactions),
        is_poll_report(r.1, kind@, label@, *balances, *transactions),
{
    let status: String = match balances {
        PollOutcome::Failed(e) => "err:balance:".to_owned().concat(e.as_str()),
        PollOutcome::Done(_, _) => match transactions {
            PollOutcome::Failed(e) => "err:tx:".to_owned().concat(e.as_str()),
            PollOutcome::Done(_, _) => "ok".to_owned(),
        },
    };
    let a: Option<String> = outcome_line(balances, "balances");
    let b: Option<String> = outcome_line(transactions, "transactions");
    let message: String = match (a, b) {
        (Some(x), Some(y)) => x.concat("; ").concat(y.as_str()),
        (Some(x), None) => x,
        (None, Some(y)) => y,
        (None, None) => String::new(),
    };
    let report = RefreshReport {
        provider_kind: kind.to_owned().concat(":").concat(label),
        rows_written: outcome_rows(balances) + outcome_rows(transactions),
        cursor: Cursor(None),
        message: Some(message),
    };
    (status, report)
}

/// A poll is recorded as `ok` exactly where neither half failed, and as a failure everywhere
/// else.
pub proof fn law_status_is_honest(balances: PollOutcome, transactions: PollOutcome)
    ensures
        status_of(balances, transactions) == "ok"@ <==> balances is Done && transactions is Done,
        tells_failure(status_of(balances, transactions)) <==> balances is Failed
            || transactions is Failed,
{
    reveal_strlit("ok");
    reveal_strlit("err:balance:");
    reveal_strlit("err:tx:");
    let status = status_of(balances, transactions);
    match (balances, transactions) {
        (PollOutcome::Failed(e), _) => {
            assert(status[0] == 'e');
            assert(status.subrange(0, "err:balance:"@.len() as int) =~= "err:balance:"@);
        },
        (_, PollOutcome::Failed(e)) => {
            assert(status[0] == 'e');
            assert(status.subrange(0, "err:tx:"@.len() as int) =~= "err:tx:"@);
        },
        _ => {},
    }
    assert("ok"@[0] == 'o');
}

/// Whether a provider is asked to refresh.
pub open spec fn wanted(kind: Seq<char>, kind_filter: Option<Seq<char>>) -> bool {
    kind_filter is None || kind == kind_filter->0
}

/// The providers that are asked to refresh, in their order.
pub open spec fn chosen(kinds: Seq<String>, kind_filter: Option<Seq<char>>) -> Seq<int>
    decreases kinds.len(),
{
    if kinds.len() == 0 {
        Seq::empty()
    } else {
        let rest = chosen(kinds.drop_last(), kind_filter);
        if wanted(kinds.last()@, kind_filter) {
            rest.push(kinds.len() - 1)
        } else {
            rest
        }
    }
}

/// The places of the providers that a refresh asks, in their order.
pub fn choose_providers(kinds: &Vec<String>, kind_filter: &Option<String>) -> (r: Vec<usize>)
    ensures
        r@.map_values(|x: usize| x as int) == chosen(kinds@, crate::text::opt_text(*kind_filter)),
{
    let mut out: Vec<usize> = Vec::new();
    let mut i: usize = 0;
    assert(out@.map_values(|x: usize| x as int) =~= Seq::<int>::empty());
    while i < kinds.len()
        invariant
            i <= kinds.len(),
            out@.map_values(|x: usize| x as int) == chosen(
                kinds@.take(i as int),
                crate::text::opt_text(*kind_filter),
            ),
        decreases kinds.len() - i,
    {
        assert(kinds@.take(i + 1).drop_last() == kinds@.take(i as int));
        let take: bool = match kind_filter {
            Some(f) => str_eq(kinds[i].as_str(), f.as_str()),
            None => true,
        };
        let ghost before = out@.map_values(|x: usize| x as int);
        if take {
            out.push(i);
            assert(out@.map_values(|x: usize| x as int) =~= before.push(i as int));
        }
        i = i + 1;
    }
    assert(kinds@.take(kinds@.len() as int) == kinds@);
    out
}

/// The rows that some polls wrote in all, held at the largest 32-bit number.
pub open spec fn rows_in_all(reports: Seq<RefreshReport>) -> u32
    decreases reports.len(),
{
    if reports.len() == 0 {
        0
    } else {
        let n = rows_in_all(reports.drop_last()) + reports.last().rows_written;
        if n > u32::MAX {
            u32::MAX
        } else {
            n as u32
        }
    }
}

/// What is said of one poll.
pub open spec fn poll_summary(r: RefreshReport) -> Seq<char> {
    r.provider_kind@ + " ("@ + match r.message {
        Some(m) => m@,
        None => Seq::<char>::empty(),
    } + ")"@
}

/// What is said of some polls.
pub open spec fn poll_summaries(reports: Seq<RefreshReport>) -> Seq<char>
    decreases reports.len(),
{
    if reports.len() == 0 {
        Seq::empty()
    } else if reports.len() == 1 {
        poll_summary(reports[0])
    } else {
        poll_summaries(reports.drop_last()) + "; "@ + poll_summary(reports.last())
    }
}

/// The reply to a refresh: the polls in one report, or the complaint that no provider is of
/// the kind that was asked for.
pub open spec fn is_refresh_reply(
    r: Response,
    kind_filter: Option<Seq<char>>,
    reports: Seq<RefreshReport>,
) -> bool {
    if reports.len() == 0 {
        &&& r is Error
        &&& r->Error_0.code@ == "no_match"@
        &&& r->Error_0.msg@ == "no providers match kind filter "@ + debug_text(
            match kind_filter {
                Some(f) => f,
                None => "<none>"@,
            },
        )
    } else {
        &&& r is RefreshReport
        &&& r->RefreshReport_0.provider_kind@ == match kind_filter {
            Some(f) => f,
            None => "*"@,
        }
        &&& r->RefreshReport_0.rows_written == rows_in_all(reports)
        &&& r->RefreshReport_0.cursor.0 is None
        &&& r->RefreshReport_0.message is Some
        &&& r->RefreshReport_0.message->0@ == poll_summaries(reports)
    }
}

/// The reply to a refresh, from the reports of the providers that were asked.
pub fn refresh_reply(kind_filter: &Option<String>, reports: &Vec<RefreshReport>) -> (r: Response)
    ensures
        is_refresh_reply(r, crate::text::opt_text(*kind_filter), reports@),
{
    if reports.len() == 0 {
        let f: &str = match kind_filter {
            Some(f) => f.as_str(),
            None => "<none>",
        };
        return Response::Error(
            RpcError {
                code: "no_match".to_owned(),
                msg: "no providers match kind filter ".to_owned().concat(quoted(f).as_str()),
            },
        );
    }
    let mut total: u32 = 0;
    let mut message: String = String::new();
    let mut i: usize = 0;
    while i < reports.len()
        invariant
            i <= reports.len(),
            total == rows_in_all(reports@.take(i as int)),
            message@ == poll_summaries(reports@.take(i as int)),
        decreases reports.len() - i,
    {
        assert(reports@.take(i + 1).drop_last() == reports@.take(i as int));
        let x: &RefreshReport = &reports[i];
        total = total.saturating_add(x.rows_written);
        let words: &str = match &x.message {
            Some(m) => m.as_str(),
            None => "",
        };
        proof {
            reveal_strlit("");
            assert(""@ =~= Seq::<char>::empty());
        }
        let line: String = x.provider_kind.as_str().to_owned().concat(" (").concat(words).concat(
            ")",
        );
        if i == 0 {
            message = line;
        } else {
            message = message.concat("; ").concat(line.as_str());
        }
        i = i + 1;
    }
    assert(reports@.take(reports@.len() as int) == reports@);
    Response::RefreshReport(
        RefreshReport {
            provider_kind: match kind_filter {
                Some(f) => f.clone(),
                None => "*".to_owned(),
            },
            rows_written: total,
            cursor: Cursor(None),
            message: Some(message),
        },
    )
}

} // verus!
