//! Request and reply types, and the framing of messages on the wire: a four-byte
//! little-endian length, then the body.

use crate::error::{CoreError, Result};
use crate::money::Cents;
use crate::recurring::Series;
use crate::text::{clone_opt, dec_string};
use vstd::prelude::*;
use vstd::slice::slice_subrange;

verus! {

use crate::text::dec;

/// The largest accepted frame body.
pub const MAX_FRAME_BYTES: u32 = 4194304;

/// A request. Write verbs change state and are refused on the read socket.
#[derive(Clone, Debug)]
pub enum Request {
    Health,
    SnapshotMoney,
    SnapshotBusiness { tag: String, scope: Option<Scope> },
    SnapshotPp,
    SnapshotDebt { scope: Scope },
    TxList {
        since: Option<i64>,
        tag: Option<String>,
        limit: Option<i64>,
    },
    RecurringList {
        since: Option<i64>,
        min_occurrences: Option<usize>,
        include_ignored: Option<bool>,
    },
    SnapshotCharts { months: Option<u32> },
    SnapshotCategories {
        scope: Option<Scope>,
        limit: Option<i64>,
    },
    ProviderRefresh { kind_filter: Option<String> },
    AlertPending {
        limit: Option<i64>,
        include_delivered: Option<bool>,
    },
    ManualUpsertAccount {
        name: String,
        account_kind: String,
        asset_class: Option<String>,
        tier: Option<String>,
        currency: Option<String>,
        business_tag: Option<String>,
    },
    ManualInsertTransaction {
        account_name: String,
        posted_at: i64,
        amount: String,
        description: Option<String>,
        tag: Option<String>,
        business_tag: Option<String>,
        external_id: Option<String>,
    },
    ManualSnapshot {
        account_name: String,
        amount: String,
    },
    ManualUpsertProvider {
        provider_kind: String,
        label: String,
        config_json: Option<String>,
        secret_ref: Option<String>,
        poll_cadence: Option<String>,
    },
    ManualUpsertBusiness {
        tag: String,
        display_name: Option<String>,
        active: Option<bool>,
    },
    ManualUpsertSubscription {
        name: String,
        amount: String,
        cadence: String,
        next_charge_at: i64,
        business_tag: Option<String>,
        active: Option<bool>,
    },
    ManualUpdateSubscription {
        name: String,
        new_name: Option<String>,
        active: Option<bool>,
    },
    AlertUpsert {
        name: String,
        rule_json: String,
        channel: Option<String>,
        active: Option<bool>,
    },
    RecurringConfirm {
        match_key: String,
        label: Option<String>,
        display_name: Option<String>,
        business_tag: Option<String>,
        active: Option<bool>,
    },
}

/// The window that a view covers.
#[derive(Clone, Copy, Debug, PartialEq, Eq, Structural)]
pub enum Scope {
    Month,
    Year,
    Ytd,
    All,
}

/// A reply.
#[derive(Clone, Debug)]
pub enum Response {
    Health(HealthInfo),
    Money(MoneySnapshot),
    Business(BusinessSnapshot),
    Pp(PpSnapshot),
    Debt(DebtSnapshot),
    TxList(TxListPage),
    Recurring(RecurringPage),
    Alerts(AlertsPage),
    Charts(ChartsSnapshot),
    Categories(CategoriesSnapshot),
    RefreshReport(crate::provider::RefreshReport),
    Ack,
    Error(RpcError),
}

/// A refusal, with a stable code.
#[derive(Clone, Debug)]
pub struct RpcError {
    pub code: String,
    pub msg: String,
}

/// Liveness and the last poll of each provider.
#[derive(Clone, Debug)]
pub struct HealthInfo {
    pub version: String,
    pub uptime_secs: i64,
    pub providers: Vec<ProviderStatus>,
}

/// The last poll of one provider.
#[derive(Clone, Debug)]
pub struct ProviderStatus {
    pub kind: String,
    pub label: String,
    pub last_poll_at: Option<i64>,
    pub last_status: Option<String>,
}

/// Net worth, by kind and by account.
#[derive(Clone, Debug)]
pub struct MoneySnapshot {
    pub net_worth: Cents,
    pub by_kind: Vec<KindTotal>,
    pub accounts: Vec<AccountLine>,
    pub subscriptions: Vec<SubscriptionRow>,
    pub asof_secs: i64,
}

/// One account with its latest balance. An account that is not in US dollars is
/// listed and left out of net worth.
#[derive(Clone, Debug)]
pub struct AccountLine {
    pub name: String,
    pub kind: String,
    pub balance: Cents,
    pub currency: String,
    pub excluded_from_nw: bool,
}

/// The latest reading of a subscription account, in its own unit.
#[derive(Clone, Debug)]
pub struct SubscriptionRow {
    pub name: String,
    pub currency: String,
    pub latest: Cents,
    pub source: Option<String>,
}

/// The total of one account kind.
#[derive(Clone, Debug)]
pub struct KindTotal {
    pub kind: String,
    pub total: Cents,
    pub account_count: u32,
}

/// Profit and loss of one business.
#[derive(Clone, Debug)]
pub struct BusinessSnapshot {
    pub tag: String,
    pub display_name: String,
    pub scope: Scope,
    pub income: Cents,
    pub expenses: Cents,
    pub net: Cents,
}

/// Drift of the tier-2 allocation, with the tier-1 backbone.
#[derive(Clone, Debug)]
pub struct PpSnapshot {
    pub rows: Vec<crate::pp::DriftRow>,
    pub total: Cents,
    pub backbone: crate::pp::Backbone,
    pub band_breach: bool,
}

/// Open debts, scheduled payments, and declared fixed obligations. The last are no
/// debt and count toward no total.
#[derive(Clone, Debug)]
pub struct DebtSnapshot {
    pub scope: Scope,
    pub open_balances: Vec<DebtBalance>,
    pub scheduled: Vec<DebtScheduled>,
    pub fixed: Vec<DebtScheduled>,
    pub total_open: Cents,
}

/// What is owed on one account.
#[derive(Debug)]
pub struct DebtBalance {
    pub account_name: String,
    pub balance: Cents,
}

/// A payment that falls due.
#[derive(Debug)]
pub struct DebtScheduled {
    pub due_at: i64,
    pub amount: Cents,
    pub description: String,
}

/// A page of transactions.
#[derive(Clone, Debug)]
pub struct TxListPage {
    pub rows: Vec<TxRow>,
}

/// One transaction.
#[derive(Clone, Debug)]
pub struct TxRow {
    pub id: i64,
    pub posted_at: i64,
    pub account: String,
    pub amount: Cents,
    pub description: Option<String>,
    pub category: Option<String>,
    pub tag: Option<String>,
}

/// Detected recurring series; the ignored ones only on request.
#[derive(Clone, Debug)]
pub struct RecurringPage {
    pub series: Vec<LabeledSeries>,
    pub ignored: Vec<LabeledSeries>,
}

/// A detected series with the operator's label, if there is one.
#[derive(Debug)]
pub struct LabeledSeries {
    pub series: Series,
    pub label: Option<String>,
    pub display_name: Option<String>,
    pub confirmed_at: Option<i64>,
}

/// Fired alerts and armed rules.
#[derive(Clone, Debug)]
pub struct AlertsPage {
    pub rows: Vec<AlertRow>,
    pub rules: Vec<AlertRuleRow>,
}

/// An armed rule.
#[derive(Clone, Debug)]
pub struct AlertRuleRow {
    pub name: String,
    pub kind: Option<String>,
    pub channel: String,
}

/// A fired alert.
#[derive(Clone, Debug)]
pub struct AlertRow {
    pub id: i64,
    pub rule_name: String,
    pub rule_kind: Option<String>,
    pub fired_at: i64,
    pub delivered: bool,
    pub summary: String,
}

/// Time series for the charts view, oldest first.
#[derive(Clone, Debug)]
pub struct ChartsSnapshot {
    pub net_worth: Vec<TimePoint>,
    pub cash_flow: Vec<MonthFlow>,
}

/// An amount at an instant.
#[derive(Clone, Debug)]
pub struct TimePoint {
    pub at_secs: i64,
    pub amount: Cents,
}

/// Cash flow of one `YYYY-MM` month; expenses are not positive.
#[derive(Clone, Debug)]
pub struct MonthFlow {
    pub label: String,
    pub income: Cents,
    pub expenses: Cents,
    pub net: Cents,
}

/// Spending by category over `[since, until)`, most spent first.
#[derive(Clone, Debug)]
pub struct CategoriesSnapshot {
    pub scope: Scope,
    pub since: i64,
    pub until: i64,
    pub rows: Vec<CategorySpend>,
    pub total: Cents,
}

/// Spending in one category; not positive.
#[derive(Clone, Debug)]
pub struct CategorySpend {
    pub category: String,
    pub amount: Cents,
}

impl Clone for DebtBalance {
    fn clone(&self) -> (r: DebtBalance)
        ensures
            r == *self,
    {
        DebtBalance { account_name: self.account_name.clone(), balance: self.balance }
    }
}

impl Clone for DebtScheduled {
    fn clone(&self) -> (r: DebtScheduled)
        ensures
            r == *self,
    {
        DebtScheduled {
            due_at: self.due_at,
            amount: self.amount,
            description: self.description.clone(),
        }
    }
}

impl Clone for LabeledSeries {
    fn clone(&self) -> (r: LabeledSeries)
        ensures
            r == *self,
    {
        LabeledSeries {
            series: self.series.clone(),
            label: clone_opt(&self.label),
            display_name: clone_opt(&self.display_name),
            confirmed_at: self.confirmed_at,
        }
    }
}

impl Request {
    /// Whether the verb changes state.
    pub open spec fn writes(&self) -> bool {
        ||| self is ProviderRefresh
        ||| self is ManualUpsertAccount
        ||| self is ManualInsertTransaction
        ||| self is ManualSnapshot
        ||| self is ManualUpsertProvider
        ||| self is ManualUpsertBusiness
        ||| self is ManualUpsertSubscription
        ||| self is ManualUpdateSubscription
        ||| self is AlertUpsert
        ||| self is RecurringConfirm
    }

    /// Whether the verb changes state. Such verbs are refused on the read socket.
    pub fn is_write(&self) -> (r: bool)
        ensures
            r == self.writes(),
    {
        match self {
            Request::ProviderRefresh { .. } => true,
            Request::ManualUpsertAccount { .. } => true,
            Request::ManualInsertTransaction { .. } => true,
            Request::ManualSnapshot { .. } => true,
            Request::ManualUpsertProvider { .. } => true,
            Request::ManualUpsertBusiness { .. } => true,
            Request::ManualUpsertSubscription { .. } => true,
            Request::ManualUpdateSubscription { .. } => true,
            Request::AlertUpsert { .. } => true,
            Request::RecurringConfirm { .. } => true,
            _ => false,
        }
    }
}

// ---------------------------------------------------------------------------
// Framing
// ---------------------------------------------------------------------------

/// The number that four little-endian bytes denote.
pub open spec fn le_value(b: Seq<u8>) -> int {
    b[0] + b[1] * 0x100 + b[2] * 0x1_0000 + b[3] * 0x100_0000
}

/// The four little-endian bytes of a length.
pub open spec fn le_bytes(n: int) -> Seq<u8> {
    seq![
        (n % 0x100) as u8,
        (n / 0x100 % 0x100) as u8,
        (n / 0x1_0000 % 0x100) as u8,
        (n / 0x100_0000 % 0x100) as u8,
    ]
}

/// What is said of a length past the limit when reading.
pub open spec fn frame_too_large(len: int) -> Seq<char> {
    "frame too large: "@ + dec(len as nat)
}

/// What is said of a length past the limit when writing.
pub open spec fn payload_too_large(len: int) -> Seq<char> {
    "payload too large: "@ + dec(len as nat)
}

/// Accepts a declared body length, before anything is allocated for it.
pub fn check_frame_len(len: u32) -> (r: Result<()>)
    ensures
        r is Ok == (len <= MAX_FRAME_BYTES),
        r is Err ==> r->Err_0 is Rpc && r->Err_0->Rpc_0@ == frame_too_large(len as int),
{
    if len > MAX_FRAME_BYTES {
        return Err(
            CoreError::Rpc("frame too large: ".to_owned().concat(dec_string(len as u64).as_str())),
        );
    }
    Ok(())
}

/// The frame that carries a body: its length, then the body itself.
pub fn encode_frame(body: &[u8]) -> (r: Result<Vec<u8>>)
    ensures
        r is Ok == (body@.len() <= MAX_FRAME_BYTES),
        r is Ok ==> r->Ok_0@ == le_bytes(body@.len() as int) + body@,
        r is Err ==> r->Err_0 is Rpc && r->Err_0->Rpc_0@ == payload_too_large(body@.len() as int),
{
    let n: usize = body.len();
    if n > MAX_FRAME_BYTES as usize {
        return Err(
            CoreError::Rpc("payload too large: ".to_owned().concat(dec_string(n as u64).as_str())),
        );
    }
    let mut out: Vec<u8> = Vec::new();
    out.push((n % 0x100) as u8);
    out.push((n / 0x100 % 0x100) as u8);
    out.push((n / 0x1_0000 % 0x100) as u8);
    out.push((n / 0x100_0000 % 0x100) as u8);
    let ghost prefix = out@;
    assert(prefix =~= le_bytes(n as int));
    let mut i: usize = 0;
    while i < n
        invariant
            n == body.len(),
            i <= n,
            out@ == prefix + body@.take(i as int),
        decreases n - i,
    {
        out.push(body[i]);
        i = i + 1;
        assert(out@ =~= prefix + body@.take(i as int));
    }
    assert(body@.take(n as int) == body@);
    Ok(out)
}

/// The body of a complete frame. A missing prefix, a length past the limit, or a body
/// that is shorter than declared is an error; bytes behind the body are ignored. Nothing is
/// copied.
pub fn decode_frame(buf: &[u8]) -> (r: Result<&[u8]>)
    ensures
        match r {
            Ok(body) => {
                &&& buf@.len() >= 4
                &&& le_value(buf@) <= MAX_FRAME_BYTES
                &&& buf@.len() >= 4 + le_value(buf@)
                &&& body@ == buf@.subrange(4, 4 + le_value(buf@))
            },
            Err(e) => {
                &&& e is Rpc
                &&& if buf@.len() < 4 {
                    e->Rpc_0@ == "frame truncated: missing length prefix"@
                } else if le_value(buf@) > MAX_FRAME_BYTES {
                    e->Rpc_0@ == frame_too_large(le_value(buf@))
                } else {
                    &&& buf@.len() < 4 + le_value(buf@)
                    &&& e->Rpc_0@ == "frame truncated: need "@ + dec(le_value(buf@) as nat)
                        + " body bytes"@
                }
            },
        },
{
    if buf.len() < 4 {
        return Err(CoreError::Rpc("frame truncated: missing length prefix".to_owned()));
    }
    let len: u32 = buf[0] as u32 + buf[1] as u32 * 0x100 + buf[2] as u32 * 0x1_0000 + buf[3] as u32
        * 0x100_0000;
    assert(len == le_value(buf@));
    match check_frame_len(len) {
        Ok(_) => {},
        Err(e) => {
            return Err(e);
        },
    }
    if buf.len() - 4 < len as usize {
        return Err(
            CoreError::Rpc(
                "frame truncated: need ".to_owned().concat(dec_string(len as u64).as_str()).concat(
                    " body bytes",
                ),
            ),
        );
    }
    Ok(slice_subrange(buf, 4, 4 + len as usize))
}

/// Four bytes give back the length they were made from.
proof fn lemma_le_round_trip(n: int)
    requires
        0 <= n <= u32::MAX,
    ensures
        le_value(le_bytes(n)) == n,
{
}

/// What was framed is read back, whatever follows it in the buffer.
pub proof fn law_frame_round_trip(body: Seq<u8>, rest: Seq<u8>)
    requires
        body.len() <= MAX_FRAME_BYTES,
    ensures
        ({
            let buf = le_bytes(body.len() as int) + body + rest;
            &&& buf.len() >= 4 + le_value(buf)
            &&& le_value(buf) == body.len()
            &&& buf.subrange(4, 4 + le_value(buf)) == body
        }),
{
    let buf = le_bytes(body.len() as int) + body + rest;
    lemma_le_round_trip(body.len() as int);
    assert(buf.take(4) =~= le_bytes(body.len() as int));
    assert(forall|i: int| 0 <= i < 4 ==> buf[i] == le_bytes(body.len() as int)[i]);
    assert(buf.subrange(4, 4 + body.len() as int) =~= body);
}

} // verus!
