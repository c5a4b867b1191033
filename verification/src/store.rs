//! What is stored beside the books: the runs of the scheduled jobs, the prices, the marks
//! that polls leave on the providers, and the migrations that have been applied.

use crate::db::ProviderRow;
use crate::ids::ProviderId;
use crate::money::Cents;
use crate::text::str_eq;
use vstd::prelude::*;

verus! {

use crate::order::{first_index, kept, lemma_first_index, lemma_first_index_is_first};
use crate::scheduler::{is_provider, last_poll};
use crate::text::opt_text;

// ---------------------------------------------------------------------------
// Scheduled jobs
// ---------------------------------------------------------------------------

/// The last run of a job.
#[derive(Debug)]
pub struct JobRun {
    pub name: String,
    pub last_run_at: i64,
    pub last_status: String,
}

pub open spec fn is_job(j: JobRun, name: Seq<char>) -> bool {
    j.name@ == name
}

/// The row of a job, or the number of rows.
pub open spec fn job_slot(rows: Seq<JobRun>, name: Seq<char>) -> int {
    first_index(rows, |j: JobRun| is_job(j, name))
}

fn find_job(rows: &Vec<JobRun>, name: &str) -> (r: usize)
    ensures
        r == job_slot(rows@, name@),
        r <= rows@.len(),
{
    let ghost p = |j: JobRun| is_job(j, name@);
    let mut i: usize = 0;
    while i < rows.len() && !str_eq(rows[i].name.as_str(), name)
        invariant
            i <= rows.len(),
            p == (|j: JobRun| is_job(j, name@)),
            forall|k: int| 0 <= k < i ==> !p(#[trigger] rows@[k]),
        decreases rows.len() - i,
    {
        i = i + 1;
    }
    proof {
        lemma_first_index(rows@, p, i as int);
    }
    i
}

/// When a job last ran; a row that stands at zero has not run yet.
pub open spec fn last_run(rows: Seq<JobRun>, name: Seq<char>) -> Option<i64> {
    let k = job_slot(rows, name);
    if k < rows.len() && rows[k].last_run_at > 0 {
        Some(rows[k].last_run_at)
    } else {
        None
    }
}

/// When a job last ran, if it ever did.
pub fn last_job_run(rows: &Vec<JobRun>, name: &str) -> (r: Option<i64>)
    ensures
        r == last_run(rows@, name@),
{
    let k: usize = find_job(rows, name);
    if k < rows.len() && rows[k].last_run_at > 0 {
        Some(rows[k].last_run_at)
    } else {
        None
    }
}

/// The runs after a run is recorded: the row of that job holds it, or a new row does; the
/// others are as they were.
pub open spec fn run_recorded(
    after: Seq<JobRun>,
    before: Seq<JobRun>,
    name: Seq<char>,
    at: i64,
    status: Seq<char>,
) -> bool {
    let k = job_slot(before, name);
    let n = before.len();
    &&& after.len() == if k < n {
        n
    } else {
        n + 1
    }
    &&& after[k].name@ == name
    &&& after[k].last_run_at == at
    &&& after[k].last_status@ == status
    &&& forall|j: int| 0 <= j < n && j != k ==> #[trigger] after[j] == before[j]
}

/// Records a run.
pub fn record_job_run(rows: &mut Vec<JobRun>, name: &str, at_secs: i64, status: &str)
    ensures
        run_recorded(final(rows)@, old(rows)@, name@, at_secs, status@),
{
    let k: usize = find_job(rows, name);
    let row: JobRun = JobRun {
        name: name.to_owned(),
        last_run_at: at_secs,
        last_status: status.to_owned(),
    };
    if k < rows.len() {
        rows.set(k, row);
    } else {
        rows.push(row);
    }
}

/// What was recorded is read back, and the other jobs keep their runs.
pub proof fn law_run_is_read_back(
    after: Seq<JobRun>,
    before: Seq<JobRun>,
    name: Seq<char>,
    at: i64,
    status: Seq<char>,
    other: Seq<char>,
)
    requires
        run_recorded(after, before, name, at, status),
        at > 0,
    ensures
        last_run(after, name) == Some(at),
        other != name ==> last_run(after, other) == last_run(before, other),
{
    let p = |j: JobRun| is_job(j, name);
    let k = job_slot(before, name);
    lemma_first_index_is_first(before, p);
    assert forall|j: int| 0 <= j < k implies !p(#[trigger] after[j]) by {
        assert(after[j] == before[j]);
    }
    lemma_first_index(after, p, k);
    if other != name {
        let q = |j: JobRun| is_job(j, other);
        let m = job_slot(before, other);
        lemma_first_index_is_first(before, q);
        assert forall|j: int| 0 <= j < m implies !q(#[trigger] after[j]) by {
            if j != k {
                assert(after[j] == before[j]);
            }
        }
        if m < before.len() {
            assert(m != k);
            assert(after[m] == before[m]);
            lemma_first_index(after, q, m);
        } else {
            assert forall|j: int| 0 <= j < after.len() implies !q(#[trigger] after[j]) by {
                if j != k {
                    assert(after[j] == before[j]);
                }
            }
            lemma_first_index(after, q, after.len() as int);
        }
    }
}

// ---------------------------------------------------------------------------
// Prices
// ---------------------------------------------------------------------------

/// A recorded price.
#[derive(Debug)]
pub struct PriceSnapshot {
    pub id: i64,
    pub commodity: String,
    pub taken_at: i64,
    pub price_cents: Cents,
}

/// Whether one record is newer than another: by time, then by id.
pub open spec fn is_newer(a: PriceSnapshot, b: PriceSnapshot) -> bool {
    a.taken_at > b.taken_at || (a.taken_at == b.taken_at && a.id > b.id)
}

/// Whether the record at a position is the newest of a commodity.
pub open spec fn is_latest_at(rows: Seq<PriceSnapshot>, commodity: Seq<char>, i: int) -> bool {
    &&& 0 <= i < rows.len()
    &&& rows[i].commodity@ == commodity
    &&& forall|j: int|
        0 <= j < rows.len() && (#[trigger] rows[j]).commodity@ == commodity ==> !is_newer(
            rows[j],
            rows[i],
        )
}

/// Records the price of a commodity, in cents per unit.
pub fn insert_price_snapshot(
    rows: &mut Vec<PriceSnapshot>,
    commodity: &str,
    amount: Cents,
    now: i64,
    fresh: i64,
)
    ensures
        final(rows)@.len() == old(rows)@.len() + 1,
        final(rows)@.drop_last() == old(rows)@,
        is_price(final(rows)@.last(), fresh, commodity@, now, amount),
{
    rows.push(
        PriceSnapshot {
            id: fresh,
            commodity: commodity.to_owned(),
            taken_at: now,
            price_cents: amount,
        },
    );
    assert(rows@.drop_last() =~= old(rows)@);
}

/// A record holds the given values.
pub open spec fn is_price(
    s: PriceSnapshot,
    id: i64,
    commodity: Seq<char>,
    taken_at: i64,
    price: Cents,
) -> bool {
    s.id == id && s.commodity@ == commodity && s.taken_at == taken_at && s.price_cents == price
}

/// Whether `r` is the most recent price of a commodity.
pub open spec fn is_latest_price(
    r: Option<Cents>,
    rows: Seq<PriceSnapshot>,
    commodity: Seq<char>,
) -> bool {
    match r {
        Some(c) => exists|i: int| #[trigger]
            is_latest_at(rows, commodity, i) && rows[i].price_cents == c,
        None => forall|i: int|
            0 <= i < rows.len() ==> (#[trigger] rows[i]).commodity@ != commodity,
    }
}

/// A price that is recorded last is read back.
pub proof fn law_price_is_read_back(
    rows: Seq<PriceSnapshot>,
    s: PriceSnapshot,
    r: Option<Cents>,
)
    requires
        forall|i: int|
            0 <= i < rows.len() && (#[trigger] rows[i]).commodity@ == s.commodity@ ==> is_newer(
                s,
                rows[i],
            ),
        is_latest_price(r, rows.push(s), s.commodity@),
    ensures
        r == Some(s.price_cents),
{
    let all = rows.push(s);
    assert(all[rows.len() as int] == s);
    if r is Some {
        let i = choose|i: int| #[trigger]
            is_latest_at(all, s.commodity@, i) && all[i].price_cents == r->0;
        if i < rows.len() {
            assert(all[i] == rows[i]);
        }
    }
}

/// The most recent price of a commodity.
pub fn latest_price(rows: &Vec<PriceSnapshot>, commodity: &str) -> (r: Option<Cents>)
    ensures
        is_latest_price(r, rows@, commodity@),
{
    let mut best: Option<usize> = None;
    let mut i: usize = 0;
    while i < rows.len()
        invariant
            i <= rows.len(),
            match best {
                Some(b) => b < i && rows@[b as int].commodity@ == commodity@ && forall|j: int|
                    0 <= j < i && (#[trigger] rows@[j]).commodity@ == commodity@ ==> !is_newer(
                        rows@[j],
                        rows@[b as int],
                    ),
                None => forall|j: int|
                    0 <= j < i ==> (#[trigger] rows@[j]).commodity@ != commodity@,
            },
        decreases rows.len() - i,
    {
        if str_eq(rows[i].commodity.as_str(), commodity) {
            let newer: bool = match best {
                Some(b) => rows[i].taken_at > rows[b].taken_at || (rows[i].taken_at
                    == rows[b].taken_at && rows[i].id > rows[b].id),
                None => true,
            };
            if newer {
                best = Some(i);
            }
        }
        i = i + 1;
    }
    match best {
        Some(b) => {
            assert(is_latest_at(rows@, commodity@, b as int));
            Some(rows[b].price_cents)
        },
        None => None,
    }
}

// ---------------------------------------------------------------------------
// Providers
// ---------------------------------------------------------------------------

/// A provider row with the mark of a poll.
pub open spec fn is_polled(after: ProviderRow, before: ProviderRow, status: Seq<char>, now: i64) -> bool {
    &&& after.id == before.id
    &&& after.kind@ == before.kind@
    &&& after.label@ == before.label@
    &&& after.config_json@ == before.config_json@
    &&& opt_text(after.secret_ref) == opt_text(before.secret_ref)
    &&& after.poll_cadence@ == before.poll_cadence@
    &&& after.last_poll_at == Some(now)
    &&& opt_text(after.last_status) == Some(status)
}

/// The providers after a poll: the one that was polled has the mark, the others are as they
/// were.
pub open spec fn are_polled(
    after: Seq<ProviderRow>,
    before: Seq<ProviderRow>,
    id: ProviderId,
    status: Seq<char>,
    now: i64,
) -> bool {
    &&& after.len() == before.len()
    &&& forall|i: int|
        0 <= i < before.len() ==> if before[i].id == id {
            is_polled(#[trigger] after[i], before[i], status, now)
        } else {
            after[i] == before[i]
        }
}

/// Marks a provider as polled.
pub fn record_poll(rows: &mut Vec<ProviderRow>, id: ProviderId, status: &str, now: i64)
    ensures
        are_polled(final(rows)@, old(rows)@, id, status@, now),
{
    let ghost before = rows@;
    let n: usize = rows.len();
    let mut i: usize = 0;
    while i < n
        invariant
            i <= n == rows@.len() == before.len(),
            forall|k: int|
                0 <= k < i ==> if before[k].id == id {
                    is_polled(#[trigger] rows@[k], before[k], status@, now)
                } else {
                    rows@[k] == before[k]
                },
            forall|k: int| i <= k < n ==> #[trigger] rows@[k] == before[k],
        decreases n - i,
    {
        assert(rows@[i as int] == before[i as int]);
        if rows[i].id.0 == id.0 {
            let mut row: ProviderRow = rows[i].clone();
            row.last_poll_at = Some(now);
            row.last_status = Some(status.to_owned());
            rows.set(i, row);
        }
        i = i + 1;
    }
}

/// A poll is read back, and the other providers keep theirs.
pub proof fn law_poll_is_read_back(
    after: Seq<ProviderRow>,
    before: Seq<ProviderRow>,
    id: ProviderId,
    status: Seq<char>,
    now: i64,
    other: ProviderId,
)
    requires
        are_polled(after, before, id, status, now),
        exists|i: int| 0 <= i < before.len() && (#[trigger] before[i]).id == id,
    ensures
        last_poll(after, id) == Some(now),
        other != id ==> last_poll(after, other) == last_poll(before, other),
{
    let p = |r: ProviderRow| is_provider(r, id);
    let q = |r: ProviderRow| is_provider(r, other);
    lemma_first_index_is_first(before, p);
    lemma_first_index_is_first(before, q);
    lemma_same_ids(after, before, id, status, now);
    let w = choose|i: int| 0 <= i < before.len() && (#[trigger] before[i]).id == id;
    assert(p(before[w]));
    let k = first_index(before, p);
    assert(p(before[k]) && before[k].id == id);
    assert forall|j: int| 0 <= j < k implies !p(#[trigger] after[j]) by {
        assert(!p(before[j]));
    }
    lemma_first_index(after, p, k);
    let m = first_index(before, q);
    assert forall|j: int| 0 <= j < m implies !q(#[trigger] after[j]) by {
        assert(!q(before[j]));
    }
    if m < before.len() {
        assert(q(before[m]));
        let _ = after[m];
    }
    lemma_first_index(after, q, m);
}

proof fn lemma_same_ids(
    after: Seq<ProviderRow>,
    before: Seq<ProviderRow>,
    id: ProviderId,
    status: Seq<char>,
    now: i64,
)
    requires
        are_polled(after, before, id, status, now),
    ensures
        forall|j: int| 0 <= j < before.len() ==> (#[trigger] after[j]).id == before[j].id,
{
}

/// The providers after new settings are stored for one of them.
pub open spec fn are_reconfigured(
    after: Seq<ProviderRow>,
    before: Seq<ProviderRow>,
    id: ProviderId,
    config: Seq<char>,
) -> bool {
    &&& after.len() == before.len()
    &&& forall|i: int|
        0 <= i < before.len() ==> if before[i].id == id {
            is_reconfigured(#[trigger] after[i], before[i], config)
        } else {
            after[i] == before[i]
        }
}

pub open spec fn is_reconfigured(after: ProviderRow, before: ProviderRow, config: Seq<char>) -> bool {
    &&& after.id == before.id
    &&& after.kind@ == before.kind@
    &&& after.label@ == before.label@
    &&& after.config_json@ == config
    &&& opt_text(after.secret_ref) == opt_text(before.secret_ref)
    &&& after.poll_cadence@ == before.poll_cadence@
    &&& after.last_poll_at == before.last_poll_at
    &&& opt_text(after.last_status) == opt_text(before.last_status)
}

/// Stores new settings for a provider.
pub fn update_provider_config(rows: &mut Vec<ProviderRow>, id: ProviderId, config_json: &str)
    ensures
        are_reconfigured(final(rows)@, old(rows)@, id, config_json@),
{
    let ghost before = rows@;
    let n: usize = rows.len();
    let mut i: usize = 0;
    while i < n
        invariant
            i <= n == rows@.len() == before.len(),
            forall|k: int|
                0 <= k < i ==> if before[k].id == id {
                    is_reconfigured(#[trigger] rows@[k], before[k], config_json@)
                } else {
                    rows@[k] == before[k]
                },
            forall|k: int| i <= k < n ==> #[trigger] rows@[k] == before[k],
        decreases n - i,
    {
        assert(rows@[i as int] == before[i as int]);
        if rows[i].id.0 == id.0 {
            let mut row: ProviderRow = rows[i].clone();
            row.config_json = config_json.to_owned();
            rows.set(i, row);
        }
        i = i + 1;
    }
}

// ---------------------------------------------------------------------------
// Migrations
// ---------------------------------------------------------------------------

/// Whether a migration has been applied.
pub open spec fn is_applied(applied: Seq<String>, name: Seq<char>) -> bool {
    exists|i: int| 0 <= i < applied.len() && (#[trigger] applied[i])@ == name
}

/// The migrations that are still to be applied, in their order.
pub open spec fn pending(names: Seq<&'static str>, applied: Seq<String>) -> Seq<&'static str> {
    kept(names, |name: &'static str| !is_applied(applied, name@))
}

/// The migrations that are still to be applied, in their order.
pub fn pending_migrations(names: &Vec<&'static str>, applied: &Vec<String>) -> (r: Vec<&'static str>)
    ensures
        r@ == pending(names@, applied@),
{
    let ghost p = |name: &'static str| !is_applied(applied@, name@);
    let mut out: Vec<&'static str> = Vec::new();
    let mut i: usize = 0;
    assert(names@.take(0) =~= Seq::<&'static str>::empty());
    while i < names.len()
        invariant
            i <= names.len(),
            p == (|name: &'static str| !is_applied(applied@, name@)),
            out@ == kept(names@.take(i as int), p),
        decreases names.len() - i,
    {
        assert(names@.take(i + 1).drop_last() =~= names@.take(i as int));
        assert(names@.take(i + 1).last() == names@[i as int]);
        let name: &'static str = names[i];
        let mut found: bool = false;
        let mut j: usize = 0;
        while j < applied.len() && !found
            invariant
                j <= applied.len(),
                found ==> is_applied(applied@, name@),
                !found ==> forall|k: int| 0 <= k < j ==> (#[trigger] applied@[k])@ != name@,
            decreases applied.len() - j + (if found { 0int } else { 1int }),
        {
            if str_eq(applied[j].as_str(), name) {
                assert(applied@[j as int]@ == name@);
                found = true;
            } else {
                j = j + 1;
            }
        }
        if !found {
            out.push(name);
        }
        i = i + 1;
    }
    assert(names@.take(i as int) =~= names@);
    out
}

/// Once every migration has been applied, none is pending.
pub proof fn law_migrations_run_once(names: Seq<&'static str>, applied: Seq<String>)
    requires
        forall|i: int| 0 <= i < names.len() ==> is_applied(applied, (#[trigger] names[i])@),
    ensures
        pending(names, applied).len() == 0,
    decreases names.len(),
{
    if names.len() > 0 {
        let d = names.drop_last();
        assert forall|i: int| 0 <= i < d.len() implies is_applied(applied, (#[trigger] d[i])@) by {
            assert(d[i] == names[i]);
        }
        assert(is_applied(applied, names[names.len() - 1]@));
        law_migrations_run_once(d, applied);
    }
}

} // verus!
