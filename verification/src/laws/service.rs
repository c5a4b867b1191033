//! Laws of the sockets, of what a request leaves open, and of what the daemon records.

use vstd::prelude::*;

verus! {

use crate::alerts::AlertReading;
use crate::config::weekday_named;
use crate::db::ProviderRow;
use crate::error::Result;
use crate::handler::{
    flag_asked, is_answer, limit_asked, min_asked, months_asked, scope_asked, Desk, Tables,
};
use crate::ids::ProviderId;
use crate::laws::payees::occurs;
use crate::laws::writes::{is_first, only_added, only_changed};
use crate::order::{first_index, lemma_first_index, lemma_first_index_is_first};
use crate::provider::RefreshReport;
use crate::rpc::{Request, Response, Scope};
use crate::scheduler::{is_refresh_reply, poll_summaries, poll_summary, rows_in_all};
use crate::secrets::{first_other, is_store, load_step, LoadStep, TomlItem};
use crate::server::{
    first_exposed, is_admission, is_loopback, plus_dir, route_of, unveiled, Octets, Resolved, Route,
    SandboxPaths, SocketRole,
};
use crate::store::{are_polled, are_reconfigured, is_job, run_recorded, JobRun};
use crate::text::opt_text;
use crate::time::Weekday;

// ---------------------------------------------------------------------------
// Sockets
// ---------------------------------------------------------------------------

/// The write socket admits the operator and nobody else; without one it admits nobody.
pub proof fn law_operator_only(
    r: core::result::Result<(), String>,
    uid: u32,
    operator_uid: Option<u32>,
)
    requires
        is_admission(r, uid, operator_uid),
    ensures
        operator_uid is None ==> r is Err,
        operator_uid is Some && operator_uid->0 != uid ==> r is Err,
        operator_uid == Some(uid) ==> r is Ok,
{
}

/// Only looking is allowed on the read socket; a refresh and every change are refused there. On
/// the write socket nothing is refused, and a refresh is the one request that is not answered at
/// once.
pub proof fn law_routes(req: Request)
    ensures
        match req {
            Request::Health
            | Request::SnapshotMoney
            | Request::SnapshotBusiness { .. }
            | Request::SnapshotPp
            | Request::SnapshotDebt { .. }
            | Request::TxList { .. }
            | Request::RecurringList { .. }
            | Request::SnapshotCharts { .. }
            | Request::SnapshotCategories { .. }
            | Request::AlertPending { .. } => route_of(SocketRole::Read, req) == Route::Answer
                && route_of(SocketRole::Write, req) == Route::Answer,
            Request::ProviderRefresh { .. } => route_of(SocketRole::Read, req) == Route::Refuse
                && route_of(SocketRole::Write, req) == Route::Refresh,
            _ => route_of(SocketRole::Read, req) == Route::Refuse && route_of(SocketRole::Write, req)
                == Route::Answer,
        },
{
}

/// The loopback addresses are those of the network 127 and the one that ends in a one behind
/// zeros.
pub proof fn law_loopback(ip: Octets)
    ensures
        match ip {
            Octets::V4(o) => is_loopback(ip) <==> o@[0] == 127,
            Octets::V6(o) => is_loopback(ip) <==> o@.take(15) == Seq::new(15, |i: int| 0u8)
                && o@[15] == 1,
        },
{
    match ip {
        Octets::V4(_) => {},
        Octets::V6(o) => {
            let zeros = Seq::new(15, |i: int| 0u8);
            if is_loopback(ip) {
                assert(o@.take(15) =~= zeros);
            }
            if o@.take(15) == zeros {
                assert forall|i: int| 0 <= i < 15 implies #[trigger] o@[i] == 0 by {
                    assert(o@.take(15)[i] == zeros[i]);
                }
            }
        },
    }
}

/// Secrets are read where both files are there; without paths, or without the store, there are
/// none; and a store without its key is an error.
pub proof fn law_load_step(a: Seq<char>, k: Seq<char>)
    ensures
        load_step(Some(a), Some(k), true, true) == Ok::<LoadStep, Seq<char>>(LoadStep::Read),
        load_step(Some(a), Some(k), true, false) is Err,
        load_step(Some(a), Some(k), false, true) == Ok::<LoadStep, Seq<char>>(LoadStep::Empty),
        load_step(Some(a), Some(k), false, false) == Ok::<LoadStep, Seq<char>>(LoadStep::Empty),
        forall|x: bool, y: bool|
            #![trigger load_step(None, Some(k), x, y)]
            load_step(None, Some(k), x, y) == Ok::<LoadStep, Seq<char>>(LoadStep::Empty),
        forall|x: bool, y: bool|
            #![trigger load_step(Some(a), None, x, y)]
            load_step(Some(a), None, x, y) == Ok::<LoadStep, Seq<char>>(LoadStep::Empty),
{
}

// ---------------------------------------------------------------------------
// What a request leaves open
// ---------------------------------------------------------------------------

/// A request that leaves something open is answered as the one that says it: a hundred
/// transactions, fifty firings that were not delivered, twenty categories of this month, a
/// business for the year to date, three charges to make a series and none that are ignored, and
/// charts of twelve months, at least one and at most sixty.
pub proof fn law_defaults(
    r: Result<Response>,
    t: Tables,
    desk: Desk,
    readings: Seq<AlertReading>,
    since: Option<i64>,
    tag: Option<String>,
    name: String,
    limit: i64,
    months: u32,
    least: usize,
)
    ensures
        is_answer(r, t, Request::TxList { since, tag, limit: None }, desk, readings) <==> is_answer(
            r,
            t,
            Request::TxList { since, tag, limit: Some(100) },
            desk,
            readings,
        ),
        is_answer(
            r,
            t,
            Request::AlertPending { limit: None, include_delivered: None },
            desk,
            readings,
        ) <==> is_answer(
            r,
            t,
            Request::AlertPending { limit: Some(50), include_delivered: Some(false) },
            desk,
            readings,
        ),
        is_answer(
            r,
            t,
            Request::SnapshotCategories { scope: None, limit: None },
            desk,
            readings,
        ) <==> is_answer(
            r,
            t,
            Request::SnapshotCategories { scope: Some(Scope::Month), limit: Some(20) },
            desk,
            readings,
        ),
        is_answer(
            r,
            t,
            Request::SnapshotBusiness { tag: name, scope: None },
            desk,
            readings,
        ) <==> is_answer(
            r,
            t,
            Request::SnapshotBusiness { tag: name, scope: Some(Scope::Ytd) },
            desk,
            readings,
        ),
        is_answer(
            r,
            t,
            Request::RecurringList { since, min_occurrences: None, include_ignored: None },
            desk,
            readings,
        ) <==> is_answer(
            r,
            t,
            Request::RecurringList { since, min_occurrences: Some(3), include_ignored: Some(false) },
            desk,
            readings,
        ),
        is_answer(r, t, Request::SnapshotCharts { months: None }, desk, readings) <==> is_answer(
            r,
            t,
            Request::SnapshotCharts { months: Some(12) },
            desk,
            readings,
        ),
        1 <= months <= 60 ==> months_asked(Some(months)) == months,
        months == 0 ==> months_asked(Some(months)) == 1,
        months > 60 ==> months_asked(Some(months)) == 60,
        limit_asked(Some(limit), months as i64) == limit,
        flag_asked(Some(true)) && !flag_asked(Some(false)),
        min_asked(Some(least)) == least,
        scope_asked(Some(Scope::Month), Scope::Ytd) == Scope::Month,
        scope_asked(Some(Scope::Year), Scope::Month) == Scope::Year,
        scope_asked(Some(Scope::Ytd), Scope::Month) == Scope::Ytd,
{
}

// ---------------------------------------------------------------------------
// What is recorded
// ---------------------------------------------------------------------------

/// Recording a run changes the entry of its job and no other, or adds one.
pub proof fn law_run_recorded(
    after: Seq<JobRun>,
    before: Seq<JobRun>,
    name: Seq<char>,
    at: i64,
    status: Seq<char>,
    k: int,
)
    requires
        run_recorded(after, before, name, at, status),
    ensures
        is_first(before, |j: JobRun| j.name@ == name, k) ==> only_changed(before, after, k)
            && after[k].name@ == name && after[k].last_run_at == at && after[k].last_status@ == status,
        (forall|i: int| 0 <= i < before.len() ==> (#[trigger] before[i]).name@ != name) ==> only_added(
            before,
            after,
        ) && after.last().name@ == name && after.last().last_run_at == at
            && after.last().last_status@ == status,
{
    let p = |j: JobRun| is_job(j, name);
    lemma_first_index_is_first(before, p);
    let n = first_index(before, p);
    let q = |j: JobRun| j.name@ == name;
    if is_first(before, q, k) {
        assert(q(before[k]));
        assert forall|j: int| 0 <= j < k implies !p(#[trigger] before[j]) by {
            assert(!q(before[j]));
        }
        lemma_first_index(before, p, k);
    }
    if forall|i: int| 0 <= i < before.len() ==> (#[trigger] before[i]).name@ != name {
        if n < before.len() {
            assert(p(before[n]));
        }
    }
}

/// Recording a poll marks the provider and no other, and changes nothing else of it.
pub proof fn law_poll_recorded(
    after: Seq<ProviderRow>,
    before: Seq<ProviderRow>,
    id: ProviderId,
    status: Seq<char>,
    now: i64,
    i: int,
)
    requires
        are_polled(after, before, id, status, now),
        0 <= i < before.len(),
    ensures
        after.len() == before.len(),
        before[i].id != id ==> after[i] == before[i],
        before[i].id == id ==> after[i].last_poll_at == Some(now) && opt_text(after[i].last_status)
            == Some(status) && after[i].id == id && after[i].kind@ == before[i].kind@
            && after[i].label@ == before[i].label@ && after[i].poll_cadence@
            == before[i].poll_cadence@ && after[i].config_json@ == before[i].config_json@
            && opt_text(after[i].secret_ref) == opt_text(before[i].secret_ref),
{
    if before[i].id == id {
        assert(crate::store::is_polled(after[i], before[i], status, now));
    } else {
        let x = after[i];
    }
}

// ---------------------------------------------------------------------------
// Configuration
// ---------------------------------------------------------------------------

/// A day of the week goes by its first three letters or by its whole name.
pub proof fn law_weekdays(s: Seq<char>)
    ensures
        weekday_named(s) == Some(Weekday::Mon) <==> s == "mon"@ || s == "monday"@,
        weekday_named(s) == Some(Weekday::Tue) <==> s == "tue"@ || s == "tuesday"@,
        weekday_named(s) == Some(Weekday::Wed) <==> s == "wed"@ || s == "wednesday"@,
        weekday_named(s) == Some(Weekday::Thu) <==> s == "thu"@ || s == "thursday"@,
        weekday_named(s) == Some(Weekday::Fri) <==> s == "fri"@ || s == "friday"@,
        weekday_named(s) == Some(Weekday::Sat) <==> s == "sat"@ || s == "saturday"@,
        weekday_named(s) == Some(Weekday::Sun) <==> s == "sun"@ || s == "sunday"@,
        Weekday::Mon.number() == 0 && Weekday::Tue.number() == 1 && Weekday::Wed.number() == 2
            && Weekday::Thu.number() == 3 && Weekday::Fri.number() == 4 && Weekday::Sat.number() == 5
            && Weekday::Sun.number() == 6,
{
    reveal_strlit("mon");
    reveal_strlit("monday");
    reveal_strlit("tue");
    reveal_strlit("tuesday");
    reveal_strlit("wed");
    reveal_strlit("wednesday");
    reveal_strlit("thu");
    reveal_strlit("thursday");
    reveal_strlit("fri");
    reveal_strlit("friday");
    reveal_strlit("sat");
    reveal_strlit("saturday");
    reveal_strlit("sun");
    reveal_strlit("sunday");
    assert("mon"@.len() == 3 && "mon"@[0] == 'm' && "monday"@.len() == 6 && "monday"@[0] == 'm');
    assert("tue"@.len() == 3 && "tue"@[0] == 't' && "tue"@[1] == 'u' && "tuesday"@.len() == 7
        && "tuesday"@[1] == 'u');
    assert("wed"@.len() == 3 && "wed"@[0] == 'w' && "wednesday"@.len() == 9);
    assert("thu"@.len() == 3 && "thu"@[0] == 't' && "thu"@[1] == 'h' && "thursday"@.len() == 8
        && "thursday"@[0] == 't');
    assert("fri"@.len() == 3 && "fri"@[0] == 'f' && "friday"@.len() == 6 && "friday"@[0] == 'f');
    assert("sat"@.len() == 3 && "sat"@[0] == 's' && "sat"@[1] == 'a' && "saturday"@.len() == 8
        && "saturday"@[0] == 's');
    assert("sun"@.len() == 3 && "sun"@[0] == 's' && "sun"@[1] == 'u' && "sunday"@.len() == 6
        && "sunday"@[0] == 's');
}

/// The address that is named in a refusal is the first that others can reach.
pub proof fn law_first_exposed(addrs: Seq<Resolved>)
    ensures
        0 <= first_exposed(addrs) <= addrs.len(),
        forall|i: int| 0 <= i < first_exposed(addrs) ==> is_loopback((#[trigger] addrs[i]).ip),
        first_exposed(addrs) < addrs.len() ==> !is_loopback(addrs[first_exposed(addrs)].ip),
    decreases addrs.len(),
{
    if addrs.len() > 0 && addrs[0].local() {
        let rest = addrs.skip(1);
        law_first_exposed(rest);
        assert forall|i: int| 0 <= i < first_exposed(addrs) implies is_loopback(
            (#[trigger] addrs[i]).ip,
        ) by {
            if i > 0 {
                assert(rest[i - 1] == addrs[i]);
            }
        }
    }
}

/// The daemon keeps its database, its directories, its configuration and scratch space; all of it
/// can be written but the configuration.
pub proof fn law_unveiled(p: SandboxPaths)
    ensures
        forall|i: int|
            0 <= i < unveiled(p).len() ==> ((#[trigger] unveiled(p)[i]).1 <==> i != unveiled(p).len()
                - 2),
        unveiled(p)[unveiled(p).len() - 2].0 == "/etc/arca"@,
        unveiled(p)[0].0 == p.db_path@,
        unveiled(p).contains((p.reports_dir@, true)),
        unveiled(p).contains((p.ics_dir@, true)),
        unveiled(p).contains(("/tmp"@, true)),
        p.db_parent is Some ==> unveiled(p).contains((p.db_parent->0@, true)),
        p.log_parent is Some ==> unveiled(p).contains((p.log_parent->0@, true)),
        p.read_socket_parent is Some ==> unveiled(p).contains((p.read_socket_parent->0@, true)),
        p.write_socket_parent is Some ==> unveiled(p).contains((p.write_socket_parent->0@, true)),
{
    let u = unveiled(p);
    let n = u.len();
    let a = plus_dir(seq![(p.db_path@, true)], p.db_parent);
    let b = plus_dir(a, p.log_parent);
    let c = plus_dir(b, p.read_socket_parent);
    let d = plus_dir(c, p.write_socket_parent);
    assert(n == d.len() + 4);
    assert(forall|i: int| 0 <= i < d.len() ==> #[trigger] u[i] == d[i]);
    assert(u[n - 4] == (p.reports_dir@, true));
    assert(u[n - 3] == (p.ics_dir@, true));
    assert(u[n - 1] == ("/tmp"@, true));
    if p.db_parent is Some {
        assert(u[a.len() - 1] == (p.db_parent->0@, true));
    }
    if p.log_parent is Some {
        assert(u[b.len() - 1] == (p.log_parent->0@, true));
    }
    if p.read_socket_parent is Some {
        assert(u[c.len() - 1] == (p.read_socket_parent->0@, true));
    }
    if p.write_socket_parent is Some {
        assert(u[d.len() - 1] == (p.write_socket_parent->0@, true));
    }
}

/// A store is taken exactly where every value in it is a text, and then holds every name with its
/// value, in order.
pub proof fn law_secret_store(
    r: core::result::Result<Vec<(String, String)>, String>,
    entries: Seq<(String, TomlItem)>,
)
    requires
        is_store(r, entries),
    ensures
        r is Ok <==> forall|i: int| 0 <= i < entries.len() ==> (#[trigger] entries[i]).1 is Text,
        r is Ok ==> r->Ok_0@.len() == entries.len() && forall|i: int|
            0 <= i < entries.len() ==> (#[trigger] r->Ok_0@[i]).0@ == entries[i].0@ && entries[i].1
                == TomlItem::Text(r->Ok_0@[i].1),
{
    lemma_first_other(entries);
}

proof fn lemma_first_other(entries: Seq<(String, TomlItem)>)
    ensures
        0 <= first_other(entries) <= entries.len(),
        forall|i: int| 0 <= i < first_other(entries) ==> !((#[trigger] entries[i]).1 is Other),
        first_other(entries) < entries.len() ==> entries[first_other(entries)].1 is Other,
    decreases entries.len(),
{
    if entries.len() > 0 && !(entries[0].1 is Other) {
        let rest = entries.skip(1);
        lemma_first_other(rest);
        assert forall|i: int| 0 <= i < first_other(entries) implies !((#[trigger] entries[i]).1
            is Other) by {
            if i > 0 {
                assert(rest[i - 1] == entries[i]);
            }
        }
    }
}

/// A new configuration goes to its provider and to no other, and changes nothing else of it.
pub proof fn law_reconfigured(
    after: Seq<ProviderRow>,
    before: Seq<ProviderRow>,
    id: ProviderId,
    config: Seq<char>,
    i: int,
)
    requires
        are_reconfigured(after, before, id, config),
        0 <= i < before.len(),
    ensures
        after.len() == before.len(),
        before[i].id != id ==> after[i] == before[i],
        before[i].id == id ==> after[i].config_json@ == config && after[i].id == id && after[i].kind@
            == before[i].kind@ && after[i].label@ == before[i].label@ && after[i].poll_cadence@
            == before[i].poll_cadence@ && after[i].last_poll_at == before[i].last_poll_at
            && opt_text(after[i].last_status) == opt_text(before[i].last_status),
{
    if before[i].id == id {
        assert(crate::store::is_reconfigured(after[i], before[i], config));
    } else {
        let x = after[i];
    }
}

/// A refresh that matched no provider is told so; any other is answered with the rows that were
/// written in all and a word on each provider.
pub proof fn law_refresh_reply(
    r: Response,
    kind_filter: Option<Seq<char>>,
    reports: Seq<RefreshReport>,
    i: int,
)
    requires
        is_refresh_reply(r, kind_filter, reports),
    ensures
        reports.len() == 0 <==> r is Error,
        r is Error ==> r->Error_0.code@ == "no_match"@,
        reports.len() > 0 ==> r is RefreshReport && r->RefreshReport_0.rows_written == rows_in_all(
            reports,
        ),
        0 <= i < reports.len() ==> occurs(
            r->RefreshReport_0.message->0@,
            reports[i].provider_kind@ + " ("@,
        ),
        reports.len() > 0 && kind_filter is Some ==> r->RefreshReport_0.provider_kind@
            == kind_filter->0,
        reports.len() > 0 && kind_filter is None ==> r->RefreshReport_0.provider_kind@ == "*"@,
{
    if 0 <= i < reports.len() {
        lemma_summaries(reports, i);
    }
}

proof fn lemma_summaries(reports: Seq<RefreshReport>, i: int)
    requires
        0 <= i < reports.len(),
    ensures
        occurs(poll_summaries(reports), reports[i].provider_kind@ + " ("@),
    decreases reports.len(),
{
    let one = reports[i].provider_kind@ + " ("@;
    let e = Seq::<char>::empty();
    let tail = match reports[i].message {
        Some(m) => m@,
        None => e,
    } + ")"@;
    assert(poll_summary(reports[i]) =~= one + tail);
    let d = reports.drop_last();
    if reports.len() == 1 {
        assert(poll_summaries(reports) =~= e + one + tail);
    } else if i == reports.len() - 1 {
        assert(poll_summaries(reports) =~= (poll_summaries(d) + "; "@) + one + tail);
    } else {
        lemma_summaries(d, i);
        let (a, b) = choose|a: Seq<char>, b: Seq<char>| poll_summaries(d) == #[trigger] (a + one + b);
        assert(poll_summaries(reports) =~= a + one + (b + "; "@ + poll_summary(reports.last())));
    }
}

} // verus!
