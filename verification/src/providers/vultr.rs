//! Vultr: the outgoing traffic of an instance in the current month.

use super::{add_up, can_add_up, report, secret_of, usage_account, Reading};
use crate::db::{Account, ProviderRow};
use crate::error::{CoreError, Result};
use crate::ids::ProviderId;
use crate::json::Json;
use crate::money::Cents;
use crate::provider::RefreshReport;
use crate::text::{dec2_string, int_string, starts_with, trim};
use crate::time::{parse_utc, utc_clock, year_string};
use vstd::prelude::*;

verus! {

use super::{adds_up, is_complaint, is_provider_account, is_report, is_secret_of, sum};
use crate::recurring::div_toward_zero;
use crate::text::{begins_with, dec2, dec_int, trimmed};
use crate::time::{clock_of, utc_fields, valid_instant, year_text};

/// Traffic is counted in decimal gigabytes, and so is the quota of an instance.
pub const BYTES_PER_GB: i64 = 1_000_000_000;

/// The settings of a Vultr provider.
#[derive(Clone, Debug)]
pub struct VultrConfig {
    pub instance_id: String,
}

impl core::default::Default for VultrConfig {
    fn default() -> (r: VultrConfig)
        ensures
            r.instance_id@ == Seq::<char>::empty(),
    {
        VultrConfig { instance_id: String::new() }
    }
}

/// Where the key of a Vultr provider stands among the secrets, or why it cannot be built:
/// it needs an instance first, then its secret.
pub fn vultr_secret(row: &ProviderRow, instance_id: &str, names: &Vec<String>) -> (r:
    core::result::Result<usize, String>)
    ensures
        if trimmed(instance_id@).len() == 0 {
            r is Err && r->Err_0@ == "vultr provider "@ + row.label@
                + " config_json missing instance_id"@
        } else {
            is_secret_of(r, "vultr"@, *row, names@)
        },
{
    if trim(instance_id).as_str().unicode_len() == 0 {
        return Err(
            "vultr provider ".to_owned().concat(row.label.as_str()).concat(
                " config_json missing instance_id",
            ),
        );
    }
    secret_of("vultr", row, names)
}

/// The days of a month that a reply counts, up to the first that has no number.
pub open spec fn days_of(ms: Seq<(String, Json)>, prefix: Seq<char>) -> Seq<i64>
    decreases ms.len(),
{
    if ms.len() == 0 {
        Seq::empty()
    } else {
        let before = days_of(ms.drop_last(), prefix);
        let (date, day) = ms.last();
        if begins_with(date@, prefix) && bad_day(ms.drop_last(), prefix) is None {
            match day.int_at("outgoing_bytes"@) {
                Some(n) => before.push(n),
                None => before,
            }
        } else {
            before
        }
    }
}

/// The first day of a month that has no number.
pub open spec fn bad_day(ms: Seq<(String, Json)>, prefix: Seq<char>) -> Option<Seq<char>>
    decreases ms.len(),
{
    if ms.len() == 0 {
        None
    } else {
        match bad_day(ms.drop_last(), prefix) {
            Some(date) => Some(date),
            None => {
                let (date, day) = ms.last();
                if begins_with(date@, prefix) && day.int_at("outgoing_bytes"@) is None {
                    Some(date@)
                } else {
                    None
                }
            },
        }
    }
}

/// The daily figures of a reply.
pub open spec fn daily(bandwidth: Json) -> Option<Seq<(String, Json)>> {
    match bandwidth.at("bandwidth"@) {
        Some(b) => b.members(),
        None => None,
    }
}

/// The numbers that are added up for a month.
pub open spec fn month_bytes(bandwidth: Json, prefix: Seq<char>) -> Seq<i64> {
    match daily(bandwidth) {
        Some(ms) => days_of(ms, prefix),
        None => Seq::empty(),
    }
}

/// The daily figures of a month: `Ok` with the numbers, or the first complaint, together
/// with the numbers before it.
fn read_days(bandwidth: &Json, prefix: &str) -> (r: (Vec<i64>, Option<CoreError>))
    ensures
        r.0@ == month_bytes(*bandwidth, prefix@),
        match daily(*bandwidth) {
            None => r.1 is Some && is_complaint(
                r.1->0,
                "vultr: response missing `bandwidth` object"@,
            ),
            Some(ms) => match bad_day(ms, prefix@) {
                Some(date) => r.1 is Some && is_complaint(
                    r.1->0,
                    "vultr: "@ + date + " missing/non-numeric outgoing_bytes"@,
                ),
                None => r.1 is None,
            },
        },
{
    let days: &Vec<(String, Json)> = match bandwidth.get("bandwidth") {
        Some(b) => match b.as_object() {
            Some(ms) => ms,
            None => {
                return (
                    Vec::new(),
                    Some(
                        CoreError::Rpc("vultr: response missing `bandwidth` object".to_owned()),
                    ),
                );
            },
        },
        None => {
            return (
                Vec::new(),
                Some(CoreError::Rpc("vultr: response missing `bandwidth` object".to_owned())),
            );
        },
    };
    let mut out: Vec<i64> = Vec::new();
    let mut bad: Option<CoreError> = None;
    let mut i: usize = 0;
    assert(days@.take(0) =~= Seq::<(String, Json)>::empty());
    while i < days.len()
        invariant
            i <= days.len(),
            out@ == days_of(days@.take(i as int), prefix@),
            match bad_day(days@.take(i as int), prefix@) {
                Some(date) => bad is Some && is_complaint(
                    bad->0,
                    "vultr: "@ + date + " missing/non-numeric outgoing_bytes"@,
                ),
                None => bad is None,
            },
        decreases days.len() - i,
    {
        assert(days@.take(i + 1).drop_last() =~= days@.take(i as int));
        assert(days@.take(i + 1).last() == days@[i as int]);
        if bad.is_none() && starts_with(days[i].0.as_str(), prefix) {
            match days[i].1.get_i64("outgoing_bytes") {
                Some(n) => {
                    out.push(n);
                },
                None => {
                    bad = Some(
                        CoreError::Rpc(
                            "vultr: ".to_owned().concat(days[i].0.as_str()).concat(
                                " missing/non-numeric outgoing_bytes",
                            ),
                        ),
                    );
                },
            }
        }
        i = i + 1;
    }
    assert(days@.take(i as int) =~= days@);
    (out, bad)
}

/// Whether the daily figures of a month can be added up.
pub fn egress_fits(bandwidth: &Json, prefix: &str) -> (r: bool)
    ensures
        r == adds_up(month_bytes(*bandwidth, prefix@)),
{
    let (days, _): (Vec<i64>, Option<CoreError>) = read_days(bandwidth, prefix);
    can_add_up(&days)
}

/// The bytes that went out in a month. A reply without the figures, or with a day of the
/// month that has no number, is an error: a fabricated low figure would silence the
/// bandwidth alert.
pub fn mtd_outgoing_bytes(bandwidth: &Json, prefix: &str) -> (r: Result<i64>)
    requires
        adds_up(month_bytes(*bandwidth, prefix@)),
    ensures
        match daily(*bandwidth) {
            None => r is Err && is_complaint(
                r->Err_0,
                "vultr: response missing `bandwidth` object"@,
            ),
            Some(ms) => match bad_day(ms, prefix@) {
                Some(date) => r is Err && is_complaint(
                    r->Err_0,
                    "vultr: "@ + date + " missing/non-numeric outgoing_bytes"@,
                ),
                None => r is Ok && r->Ok_0 == sum(days_of(ms, prefix@)),
            },
        },
{
    let (days, bad): (Vec<i64>, Option<CoreError>) = read_days(bandwidth, prefix);
    match bad {
        Some(e) => Err(e),
        None => Ok(add_up(&days)),
    }
}

/// The prefix of the days of the month of an instant.
pub open spec fn prefix_of(now: i64) -> Seq<char> {
    year_text(clock_of(utc_fields(now)).year as int) + "-"@ + dec2(
        clock_of(utc_fields(now)).month as nat,
    )
}

/// The prefix of the days of the month of an instant.
pub fn month_prefix(now: i64) -> (r: String)
    requires
        valid_instant(now),
    ensures
        r@ == prefix_of(now),
{
    let clock: crate::time::Clock = utc_clock(now).unwrap();
    year_string(clock.year).concat("-").concat(dec2_string(clock.month as u64).as_str())
}

/// The whole gigabytes in some bytes.
pub fn gigabytes(bytes: i64) -> (r: i64)
    ensures
        r == div_toward_zero(bytes as int, BYTES_PER_GB as int),
{
    if bytes >= 0 {
        bytes / BYTES_PER_GB
    } else if bytes == i64::MIN {
        -9_223_372_036
    } else {
        -((-bytes) / BYTES_PER_GB)
    }
}

/// The quota of an instance, 0 where the reply does not say.
pub open spec fn quota_of(instance: Json) -> i64 {
    match instance.at("instance"@) {
        Some(i) => match i.int_at("allowed_bandwidth"@) {
            Some(n) => n,
            None => 0,
        },
        None => 0,
    }
}

/// The monthly transfer quota of an instance in GB; zero where it is not known.
pub fn read_quota(instance: &Json) -> (r: i64)
    ensures
        r == quota_of(*instance),
{
    match instance.get("instance") {
        Some(i) => match i.get_i64("allowed_bandwidth") {
            Some(n) => n,
            None => 0,
        },
        None => 0,
    }
}

/// The account that holds the figure.
pub open spec fn is_egress_account(a: Account, label: Seq<char>, provider_id: ProviderId) -> bool {
    is_provider_account(
        a,
        "Vultr — "@ + label + " (egress GB)"@,
        "subscription"@,
        None,
        None,
        "GB"@,
        provider_id,
        None,
        Some("mtd_egress"@),
    )
}

/// The account that holds the figure.
pub fn egress_account(label: &str, provider_id: ProviderId) -> (r: Account)
    ensures
        is_egress_account(r, label@, provider_id),
{
    usage_account(
        "Vultr — ".to_owned().concat(label).concat(" (egress GB)"),
        "GB",
        provider_id,
        "mtd_egress",
    )
}

/// The message of the report: the traffic, and the share of the quota where it is known.
pub open spec fn egress_message(egress: int, quota: int) -> Seq<char> {
    if quota > 0 {
        "MTD egress: "@ + dec_int(egress) + "/"@ + dec_int(quota) + " GB ("@ + dec_int(
            div_toward_zero(egress * 100, quota),
        ) + "%)"@
    } else {
        "MTD egress: "@ + dec_int(egress) + " GB (quota unknown)"@
    }
}

/// The report of a refresh.
pub fn egress_report(egress_gb: i64, allowed_gb: i64) -> (r: RefreshReport)
    requires
        i64::MIN <= egress_gb * 100 <= i64::MAX,
    ensures
        is_report(r, "vultr"@, 1, Some(egress_message(egress_gb as int, allowed_gb as int))),
{
    let text: String = "MTD egress: ".to_owned().concat(int_string(egress_gb).as_str());
    let message: String = if allowed_gb > 0 {
        let scaled: i64 = egress_gb * 100;
        let percent: i64 = if scaled >= 0 {
            scaled / allowed_gb
        } else {
            let m: u64 = (-(scaled + 1)) as u64 + 1;
            let q: u64 = m / allowed_gb as u64;
            proof {
                assert(q <= m) by (nonlinear_arith)
                    requires
                        q == m / (allowed_gb as u64),
                        allowed_gb > 0,
                ;
            }
            if q == 0x8000_0000_0000_0000 {
                i64::MIN
            } else {
                -(q as i64)
            }
        };
        text.concat("/").concat(int_string(allowed_gb).as_str()).concat(" GB (").concat(
            int_string(percent).as_str(),
        ).concat("%)")
    } else {
        text.concat(" GB (quota unknown)")
    };
    report("vultr", 1, Some(message))
}

/// What a refresh comes to: the whole gigabytes of the month so far, stored and reported,
/// or the complaint about the figures.
pub open spec fn is_egress_outcome(
    r: Result<Reading>,
    instance: Json,
    bandwidth: Json,
    prefix: Seq<char>,
    label: Seq<char>,
    provider_id: ProviderId,
) -> bool {
    match daily(bandwidth) {
        None => r is Err && is_complaint(r->Err_0, "vultr: response missing `bandwidth` object"@),
        Some(ms) => match bad_day(ms, prefix) {
            Some(date) => r is Err && is_complaint(
                r->Err_0,
                "vultr: "@ + date + " missing/non-numeric outgoing_bytes"@,
            ),
            None => {
                let gb = div_toward_zero(sum(days_of(ms, prefix)), BYTES_PER_GB as int);
                &&& r is Ok
                &&& is_egress_account(r->Ok_0.account, label, provider_id)
                &&& r->Ok_0.balance.0 == gb
                &&& is_report(
                    r->Ok_0.report,
                    "vultr"@,
                    1,
                    Some(egress_message(gb, quota_of(instance) as int)),
                )
            },
        },
    }
}

/// What a refresh comes to, from the replies about the instance and its traffic. None where
/// the clock is outside the calendar or the figures cannot be added up.
pub fn read_egress(
    instance: &Json,
    bandwidth: &Json,
    label: &str,
    provider_id: ProviderId,
    now: i64,
) -> (r: Option<Result<Reading>>)
    ensures
        r is Some == (valid_instant(now) && adds_up(month_bytes(*bandwidth, prefix_of(now)))),
        r is Some ==> is_egress_outcome(
            r->0,
            *instance,
            *bandwidth,
            prefix_of(now),
            label@,
            provider_id,
        ),
{
    if parse_utc(now).is_none() {
        return None;
    }
    let prefix: String = month_prefix(now);
    if !egress_fits(bandwidth, prefix.as_str()) {
        return None;
    }
    match mtd_outgoing_bytes(bandwidth, prefix.as_str()) {
        Ok(bytes) => {
            let gb: i64 = gigabytes(bytes);
            let quota: i64 = read_quota(instance);
            Some(
                Ok(
                    Reading {
                        account: egress_account(label, provider_id),
                        balance: Cents(gb),
                        report: egress_report(gb, quota),
                    },
                ),
            )
        },
        Err(e) => Some(Err(e)),
    }
}

/// There is no feed of transactions: the traffic is one figure.
pub fn no_feed() -> (r: RefreshReport)
    ensures
        is_report(r, "vultr"@, 0, Some("vultr: no transaction feed"@)),
{
    report("vultr", 0, Some("vultr: no transaction feed".to_owned()))
}

} // verus!
