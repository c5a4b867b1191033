//! What the providers read off the replies of their services, and what they write.
//!
//! A provider asks its service, hands the reply over as a JSON document, and stores what
//! comes back. What is taken for a value that is missing, if anything is, each provider says.

pub mod manual;
pub mod mercury;
pub mod plaid;
pub mod spot;
pub mod stripe;
pub mod usage;
pub mod vultr;
pub mod vultr_cost;

use crate::db::{upsert_account, Account, BalanceSnapshot, ProviderRow};
use crate::error::CoreError;
use crate::ids::{AccountId, BusinessId, ProviderId};
use crate::json::Json;
use crate::ledger::insert_snapshot;
use crate::money::Cents;
use crate::provider::{Cursor, RefreshReport};
use crate::secrets::require_slot;
use vstd::prelude::*;

verus! {

use crate::db::{account_slot, accounts_after, has_account, is_same_account, law_accounts_stay};
use crate::order::lemma_first_index_is_first;
use crate::text::opt_text;

// ---------------------------------------------------------------------------
// Shared
// ---------------------------------------------------------------------------

/// Whether a name is among the names, and nothing before it is the same.
pub open spec fn is_slot(i: usize, names: Seq<String>, key: Seq<char>) -> bool {
    i < names.len() && names[i as int]@ == key && forall|j: int|
        0 <= j < i ==> (#[trigger] names[j])@ != key
}

pub open spec fn no_slot(names: Seq<String>, key: Seq<char>) -> bool {
    forall|j: int| 0 <= j < names.len() ==> (#[trigger] names[j])@ != key
}

/// Where the secret of a provider stands among the names of the secrets, or why the
/// provider cannot be built.
pub open spec fn is_secret_of(
    r: core::result::Result<usize, String>,
    kind: Seq<char>,
    row: ProviderRow,
    names: Seq<String>,
) -> bool {
    match row.secret_ref {
        None => r is Err && r->Err_0@ == kind + " provider "@ + row.label@ + " has no secret_ref"@,
        Some(key) => match r {
            Ok(i) => is_slot(i, names, key@),
            Err(e) => no_slot(names, key@) && e@ == "missing secret: "@ + key@,
        },
    }
}

/// Where the secret of a provider stands among the names of the secrets.
pub fn secret_of(kind: &str, row: &ProviderRow, names: &Vec<String>) -> (r: core::result::Result<
    usize,
    String,
>)
    ensures
        is_secret_of(r, kind@, *row, names@),
{
    match &row.secret_ref {
        Some(key) => require_slot(names, key.as_str()),
        None => Err(
            kind.to_owned().concat(" provider ").concat(row.label.as_str()).concat(
                " has no secret_ref",
            ),
        ),
    }
}

/// The report of a provider that has no transactions to give.
pub open spec fn is_report(
    r: RefreshReport,
    kind: Seq<char>,
    rows: u32,
    message: Option<Seq<char>>,
) -> bool {
    &&& r.provider_kind@ == kind
    &&& r.rows_written == rows
    &&& r.cursor.0 is None
    &&& opt_text(r.message) == message
}

/// A report without a cursor.
pub fn report(kind: &str, rows: u32, message: Option<String>) -> (r: RefreshReport)
    ensures
        is_report(r, kind@, rows, opt_text(message)),
{
    RefreshReport {
        provider_kind: kind.to_owned(),
        rows_written: rows,
        cursor: Cursor(None),
        message,
    }
}

/// An account that a provider keeps.
pub open spec fn is_provider_account(
    a: Account,
    name: Seq<char>,
    kind: Seq<char>,
    asset_class: Option<Seq<char>>,
    tier: Option<Seq<char>>,
    currency: Seq<char>,
    provider_id: ProviderId,
    business_id: Option<BusinessId>,
    external_id: Option<Seq<char>>,
) -> bool {
    &&& a.id is None
    &&& a.name@ == name
    &&& a.kind@ == kind
    &&& opt_text(a.asset_class) == asset_class
    &&& opt_text(a.tier) == tier
    &&& a.currency@ == currency
    &&& a.provider_id == Some(provider_id)
    &&& a.business_id == business_id
    &&& opt_text(a.external_id) == external_id
    &&& a.active
}

/// The subscription account of a usage provider: what it holds is a cost or a count, no
/// asset, so it stays out of net worth.
pub fn usage_account(name: String, currency: &str, provider_id: ProviderId, external_id: &str) -> (r:
    Account)
    ensures
        is_provider_account(
            r,
            name@,
            "subscription"@,
            None,
            None,
            currency@,
            provider_id,
            None,
            Some(external_id@),
        ),
{
    Account {
        id: None,
        name,
        kind: "subscription".to_owned(),
        asset_class: None,
        tier: None,
        currency: currency.to_owned(),
        provider_id: Some(provider_id),
        business_id: None,
        external_id: Some(external_id.to_owned()),
        active: true,
    }
}

/// What a refresh stores and reports: an account, its balance, and the report.
#[derive(Debug)]
pub struct Reading {
    pub account: Account,
    pub balance: Cents,
    pub report: RefreshReport,
}

/// Rows of the database have ids.
pub open spec fn all_stored(accounts: Seq<Account>) -> bool {
    forall|i: int| 0 <= i < accounts.len() ==> (#[trigger] accounts[i]).id is Some
}

/// A reading is stored: the account is created or updated, and gets the balance.
pub fn record_balance(
    accounts: &mut Vec<Account>,
    snapshots: &mut Vec<BalanceSnapshot>,
    a: &Account,
    balance: Cents,
    now: i64,
    fresh_account: AccountId,
    fresh_snapshot: i64,
) -> (r: AccountId)
    requires
        all_stored(old(accounts)@),
    ensures
        final(accounts)@ == accounts_after(old(accounts)@, *a, fresh_account),
        all_stored(final(accounts)@),
        Some(r) == final(accounts)@[account_slot(old(accounts)@, *a)].id,
        final(snapshots)@ == old(snapshots)@.push(
            (BalanceSnapshot {
                id: fresh_snapshot,
                account_id: r,
                taken_at: now,
                amount_cents: balance,
            }),
        ),
{
    proof {
        lemma_first_index_is_first(accounts@, |row: Account| is_same_account(row, *a));
        law_accounts_stay(accounts@, *a, fresh_account);
    }
    let id: Option<AccountId> = upsert_account(accounts, a, fresh_account);
    let account_id: AccountId = id.unwrap();
    assert(has_account(accounts@, account_id));
    let _ = insert_snapshot(snapshots, accounts, account_id, balance, now, fresh_snapshot);
    account_id
}

/// The text of a string member, or another text where there is none.
pub open spec fn text_or(v: Json, key: Seq<char>, other: Seq<char>) -> Seq<char> {
    match v.text_at(key) {
        Some(s) => s,
        None => other,
    }
}

/// The string member `key` of a value, or else `other`.
pub fn str_or(v: &Json, key: &str, other: &str) -> (r: String)
    ensures
        r@ == text_or(*v, key@, other@),
{
    match v.get_str(key) {
        Some(s) => s.to_owned(),
        None => other.to_owned(),
    }
}

/// An owned copy of a string member.
pub fn text_member(v: &Json, key: &str) -> (r: Option<String>)
    ensures
        opt_text(r) == v.text_at(key@),
{
    match v.get_str(key) {
        Some(s) => Some(s.to_owned()),
        None => None,
    }
}

/// The first of two members that is there, whatever it holds.
pub open spec fn first_member(v: Json, a: Seq<char>, b: Seq<char>) -> Option<Json> {
    match v.at(a) {
        Some(x) => Some(x),
        None => v.at(b),
    }
}

/// The first of two members that is there, whatever it holds.
pub fn either_member<'a>(v: &'a Json, a: &str, b: &str) -> (r: Option<&'a Json>)
    ensures
        match r {
            Some(x) => first_member(*v, a@, b@) == Some(*x),
            None => first_member(*v, a@, b@) is None,
        },
{
    match v.get(a) {
        Some(x) => Some(x),
        None => v.get(b),
    }
}

/// The decimal text of a number member.
pub open spec fn number_at(v: Json, key: Seq<char>) -> Option<Seq<char>> {
    match v.at(key) {
        Some(x) => x.number(),
        None => None,
    }
}

/// The decimal text of a number member.
pub fn number_member(v: &Json, key: &str) -> (r: Option<String>)
    ensures
        opt_text(r) == number_at(*v, key@),
{
    match v.get(key) {
        Some(x) => x.as_number(),
        None => None,
    }
}

/// The complaint of a provider.
pub open spec fn is_complaint(e: CoreError, msg: Seq<char>) -> bool {
    e is Rpc && e->Rpc_0@ == msg
}

/// The items of an array member, none where it is missing.
pub open spec fn items_or_none(v: Json, key: Seq<char>) -> Seq<Json> {
    match v.items_at(key) {
        Some(items) => items,
        None => Seq::empty(),
    }
}

/// The sum of some numbers.
pub open spec fn sum(s: Seq<i64>) -> int
    decreases s.len(),
{
    if s.len() == 0 {
        0
    } else {
        sum(s.drop_last()) + s.last()
    }
}

/// Whether some numbers can be added up one by one, in their order.
pub open spec fn adds_up(s: Seq<i64>) -> bool {
    forall|k: int| 0 <= k <= s.len() ==> i64::MIN <= #[trigger] sum(s.take(k)) <= i64::MAX
}

/// Whether some numbers can be added up one by one, in their order.
pub fn can_add_up(v: &Vec<i64>) -> (r: bool)
    ensures
        r == adds_up(v@),
{
    let mut total: i64 = 0;
    let mut i: usize = 0;
    assert(v@.take(0) =~= Seq::<i64>::empty());
    while i < v.len()
        invariant
            i <= v.len(),
            total == sum(v@.take(i as int)),
            forall|k: int|
                0 <= k <= i ==> i64::MIN <= #[trigger] sum(v@.take(k)) <= i64::MAX,
        decreases v.len() - i,
    {
        assert(v@.take(i + 1).drop_last() =~= v@.take(i as int));
        assert(v@.take(i + 1).last() == v@[i as int]);
        match total.checked_add(v[i]) {
            Some(n) => {
                total = n;
            },
            None => {
                assert(!(i64::MIN <= sum(v@.take(i + 1)) <= i64::MAX));
                return false;
            },
        }
        i = i + 1;
    }
    true
}

/// The sum of some numbers.
pub fn add_up(v: &Vec<i64>) -> (r: i64)
    requires
        adds_up(v@),
    ensures
        r == sum(v@),
{
    let mut total: i64 = 0;
    let mut i: usize = 0;
    assert(v@.take(0) =~= Seq::<i64>::empty());
    while i < v.len()
        invariant
            i <= v.len(),
            adds_up(v@),
            total == sum(v@.take(i as int)),
        decreases v.len() - i,
    {
        assert(v@.take(i + 1).drop_last() =~= v@.take(i as int));
        assert(v@.take(i + 1).last() == v@[i as int]);
        assert(i64::MIN <= sum(v@.take(i + 1)) <= i64::MAX);
        total = total + v[i];
        i = i + 1;
    }
    assert(v@.take(i as int) =~= v@);
    total
}

} // verus!
