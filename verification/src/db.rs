//! The rows that the database layer hands over, and the rules by which a write is
//! merged into a stored row.

use crate::error::{CoreError, Result};
use crate::ids::{AccountId, BusinessId, ProviderId, TransactionId};
use crate::money::Cents;
use crate::order::{rank_strings, stable_indices};
use crate::text::{clone_opt, str_eq};
use vstd::prelude::*;

verus! {

use crate::order::{
    first_index, kept, law_stable_order, lemma_first_index, lemma_first_index_is_first,
    lemma_kept, lemma_kept_all, lemma_kept_from, ranks, sorted_by_keys, stable_order,
};
use crate::text::opt_text;

/// An account. `tier` is the capital tier: `t1` is the hold-forever backbone, `t2`
/// the drift-tracked operations layer, `t3` operating capital.
#[derive(Debug)]
pub struct Account {
    pub id: Option<AccountId>,
    pub name: String,
    pub kind: String,
    pub asset_class: Option<String>,
    pub tier: Option<String>,
    pub currency: String,
    pub provider_id: Option<ProviderId>,
    pub business_id: Option<BusinessId>,
    pub external_id: Option<String>,
    pub active: bool,
}

impl Clone for Account {
    fn clone(&self) -> (r: Account)
        ensures
            r == *self,
    {
        Account {
            id: self.id,
            name: self.name.clone(),
            kind: self.kind.clone(),
            asset_class: clone_opt(&self.asset_class),
            tier: clone_opt(&self.tier),
            currency: self.currency.clone(),
            provider_id: self.provider_id,
            business_id: self.business_id,
            external_id: clone_opt(&self.external_id),
            active: self.active,
        }
    }
}

/// A posted transaction; outflows are negative.
#[derive(Debug)]
pub struct Transaction {
    pub id: Option<TransactionId>,
    pub account_id: AccountId,
    pub posted_at: i64,
    pub amount_cents: Cents,
    pub currency: String,
    pub description: Option<String>,
    pub category: Option<String>,
    pub tag: Option<String>,
    pub business_id: Option<BusinessId>,
    pub external_id: Option<String>,
    pub source: String,
}

impl Clone for Transaction {
    fn clone(&self) -> (r: Transaction)
        ensures
            r == *self,
    {
        Transaction {
            id: self.id,
            account_id: self.account_id,
            posted_at: self.posted_at,
            amount_cents: self.amount_cents,
            currency: self.currency.clone(),
            description: clone_opt(&self.description),
            category: clone_opt(&self.category),
            tag: clone_opt(&self.tag),
            business_id: self.business_id,
            external_id: clone_opt(&self.external_id),
            source: self.source.clone(),
        }
    }
}

/// A venture that accounts and transactions can be bound to by its tag.
#[derive(Debug)]
pub struct Business {
    pub id: BusinessId,
    pub tag: String,
    pub display_name: String,
    pub active: bool,
}

impl Clone for Business {
    fn clone(&self) -> (r: Business)
        ensures
            r == *self,
    {
        Business {
            id: self.id,
            tag: self.tag.clone(),
            display_name: self.display_name.clone(),
            active: self.active,
        }
    }
}

/// A configured data source.
#[derive(Debug)]
pub struct ProviderRow {
    pub id: ProviderId,
    pub kind: String,
    pub label: String,
    pub config_json: String,
    pub secret_ref: Option<String>,
    pub poll_cadence: String,
    pub last_poll_at: Option<i64>,
    pub last_status: Option<String>,
}

impl Clone for ProviderRow {
    fn clone(&self) -> (r: ProviderRow)
        ensures
            r == *self,
    {
        ProviderRow {
            id: self.id,
            kind: self.kind.clone(),
            label: self.label.clone(),
            config_json: self.config_json.clone(),
            secret_ref: clone_opt(&self.secret_ref),
            poll_cadence: self.poll_cadence.clone(),
            last_poll_at: self.last_poll_at,
            last_status: clone_opt(&self.last_status),
        }
    }
}

/// A configured alert. `rule_json` selects the predicate by its `kind`.
#[derive(Debug)]
pub struct AlertRule {
    pub id: i64,
    pub name: String,
    pub rule_json: String,
    pub channel: String,
    pub active: bool,
}

impl Clone for AlertRule {
    fn clone(&self) -> (r: AlertRule)
        ensures
            r == *self,
    {
        AlertRule {
            id: self.id,
            name: self.name.clone(),
            rule_json: self.rule_json.clone(),
            channel: self.channel.clone(),
            active: self.active,
        }
    }
}

/// A fired alert joined to its rule.
#[derive(Debug)]
pub struct AlertHistoryRow {
    pub id: i64,
    pub rule_name: String,
    pub rule_json: String,
    pub fired_at: i64,
    pub payload_json: String,
    pub delivered: bool,
}

impl Clone for AlertHistoryRow {
    fn clone(&self) -> (r: AlertHistoryRow)
        ensures
            r == *self,
    {
        AlertHistoryRow {
            id: self.id,
            rule_name: self.rule_name.clone(),
            rule_json: self.rule_json.clone(),
            fired_at: self.fired_at,
            payload_json: self.payload_json.clone(),
            delivered: self.delivered,
        }
    }
}

/// An operator's label for a recurring series. `match_key` is the normalized payee;
/// a row without a label only renames.
#[derive(Debug)]
pub struct RecurringLabel {
    pub match_key: String,
    pub label: Option<String>,
    pub display_name: Option<String>,
    pub business_id: Option<i64>,
    pub confirmed_at: i64,
}

impl Clone for RecurringLabel {
    fn clone(&self) -> (r: RecurringLabel)
        ensures
            r == *self,
    {
        RecurringLabel {
            match_key: self.match_key.clone(),
            label: clone_opt(&self.label),
            display_name: clone_opt(&self.display_name),
            business_id: self.business_id,
            confirmed_at: self.confirmed_at,
        }
    }
}

/// A declared recurring obligation.
#[derive(Debug)]
pub struct SubscriptionRecord {
    pub id: i64,
    pub name: String,
    pub provider_kind: String,
    pub amount_cents: Option<Cents>,
    pub cadence: Option<String>,
    pub next_charge_at: Option<i64>,
    pub account_id: Option<AccountId>,
    pub business_id: Option<BusinessId>,
    pub active: bool,
}

impl Clone for SubscriptionRecord {
    fn clone(&self) -> (r: SubscriptionRecord)
        ensures
            r == *self,
    {
        SubscriptionRecord {
            id: self.id,
            name: self.name.clone(),
            provider_kind: self.provider_kind.clone(),
            amount_cents: self.amount_cents,
            cadence: clone_opt(&self.cadence),
            next_charge_at: self.next_charge_at,
            account_id: self.account_id,
            business_id: self.business_id,
            active: self.active,
        }
    }
}

/// A one-off expense with a due date.
#[derive(Debug)]
pub struct PlannedExpense {
    pub id: i64,
    pub due_at: i64,
    pub amount_cents: Cents,
    pub description: String,
    pub account_id: Option<AccountId>,
    pub business_id: Option<BusinessId>,
    pub status: String,
}

impl Clone for PlannedExpense {
    fn clone(&self) -> (r: PlannedExpense)
        ensures
            r == *self,
    {
        PlannedExpense {
            id: self.id,
            due_at: self.due_at,
            amount_cents: self.amount_cents,
            description: self.description.clone(),
            account_id: self.account_id,
            business_id: self.business_id,
            status: self.status.clone(),
        }
    }
}

impl ProviderRow {
    /// A row with no config and no secret, polled by hand only.
    pub fn registry_stub(kind: &str, label: &str) -> (r: ProviderRow)
        ensures
            r.id == ProviderId(0),
            r.kind@ == kind@,
            r.label@ == label@,
            r.config_json@ == "{}"@,
            r.secret_ref is None,
            r.poll_cadence@ == "manual"@,
            r.last_poll_at is None,
            r.last_status is None,
    {
        ProviderRow {
            id: ProviderId(0),
            kind: kind.to_owned(),
            label: label.to_owned(),
            config_json: "{}".to_owned(),
            secret_ref: None,
            poll_cadence: "manual".to_owned(),
            last_poll_at: None,
            last_status: None,
        }
    }
}

/// A balance reading of one account.
#[derive(Clone, Copy, Debug, PartialEq, Eq, Structural)]
pub struct BalanceSnapshot {
    pub id: i64,
    pub account_id: AccountId,
    pub taken_at: i64,
    pub amount_cents: Cents,
}

/// A stored operator label; a row that is not active counts as no label.
#[derive(Debug)]
pub struct StoredLabel {
    pub row: RecurringLabel,
    pub active: bool,
}

impl Clone for StoredLabel {
    fn clone(&self) -> (r: StoredLabel)
        ensures
            r == *self,
    {
        StoredLabel { row: self.row.clone(), active: self.active }
    }
}

fn same_text(a: &Option<String>, b: &str) -> (r: bool)
    ensures
        r == (opt_text(*a) == Some(b@)),
{
    match a {
        Some(s) => str_eq(s.as_str(), b),
        None => false,
    }
}

// ---------------------------------------------------------------------------
// Accounts
// ---------------------------------------------------------------------------

/// Whether a stored account is the one that a write is about: the one with the same
/// provider and external id where the write has both, else the one with the same name.
pub open spec fn is_same_account(row: Account, a: Account) -> bool {
    if a.provider_id is Some && a.external_id is Some {
        row.provider_id == a.provider_id && opt_text(row.external_id) == opt_text(a.external_id)
    } else {
        row.name@ == a.name@
    }
}

/// The row that a write about `a` replaces, or the number of rows.
pub open spec fn account_slot(rows: Seq<Account>, a: Account) -> int {
    first_index(rows, |row: Account| is_same_account(row, a))
}

/// An account under another id.
pub open spec fn account_with_id(a: Account, id: Option<AccountId>) -> Account {
    Account {
        id,
        name: a.name,
        kind: a.kind,
        asset_class: a.asset_class,
        tier: a.tier,
        currency: a.currency,
        provider_id: a.provider_id,
        business_id: a.business_id,
        external_id: a.external_id,
        active: a.active,
    }
}

/// The accounts after a write: the row it is about takes the new values and keeps its id;
/// where there is none, a row with a fresh id is added.
pub open spec fn accounts_after(rows: Seq<Account>, a: Account, fresh: AccountId) -> Seq<Account> {
    let k = account_slot(rows, a);
    if k < rows.len() {
        rows.update(k, account_with_id(a, rows[k].id))
    } else {
        rows.push(account_with_id(a, Some(fresh)))
    }
}

fn account_matches(row: &Account, a: &Account) -> (r: bool)
    ensures
        r == is_same_account(*row, *a),
{
    match (&a.provider_id, &a.external_id) {
        (Some(p), Some(x)) => {
            let same: bool = match &row.provider_id {
                Some(q) => q.0 == p.0,
                None => false,
            };
            same && same_text(&row.external_id, x.as_str())
        },
        _ => str_eq(row.name.as_str(), a.name.as_str()),
    }
}

fn find_account(rows: &Vec<Account>, a: &Account) -> (r: usize)
    ensures
        r == account_slot(rows@, *a),
        r <= rows@.len(),
{
    let ghost p = |row: Account| is_same_account(row, *a);
    let mut i: usize = 0;
    while i < rows.len() && !account_matches(&rows[i], a)
        invariant
            i <= rows.len(),
            p == (|row: Account| is_same_account(row, *a)),
            forall|j: int| 0 <= j < i ==> !p(#[trigger] rows@[j]),
        decreases rows.len() - i,
    {
        i = i + 1;
    }
    proof {
        lemma_first_index(rows@, p, i as int);
    }
    i
}

/// Creates or updates an account. Updating keeps the row's id.
pub fn upsert_account(rows: &mut Vec<Account>, a: &Account, fresh: AccountId) -> (r: Option<
    AccountId,
>)
    ensures
        final(rows)@ == accounts_after(old(rows)@, *a, fresh),
        r == final(rows)@[account_slot(old(rows)@, *a)].id,
{
    let k: usize = find_account(rows, a);
    let mut row: Account = a.clone();
    if k < rows.len() {
        let id: Option<AccountId> = rows[k].id;
        row.id = id;
        rows.set(k, row);
        id
    } else {
        row.id = Some(fresh);
        rows.push(row);
        Some(fresh)
    }
}

/// Writing an account twice is writing it once: the same row, no duplicate.
pub proof fn law_account_write_idempotent(
    rows: Seq<Account>,
    a: Account,
    fresh: AccountId,
    other: AccountId,
)
    ensures
        accounts_after(accounts_after(rows, a, fresh), a, other) == accounts_after(rows, a, fresh),
{
    let p = |row: Account| is_same_account(row, a);
    let k = account_slot(rows, a);
    let once = accounts_after(rows, a, fresh);
    lemma_first_index_is_first(rows, p);
    assert forall|j: int| 0 <= j < k implies !p(#[trigger] once[j]) by {
        assert(once[j] == rows[j]);
    }
    assert(p(once[k]));
    lemma_first_index(once, p, k);
    assert(once.update(k, account_with_id(a, once[k].id)) =~= once);
}

/// A write that finds its row updates it in place: no other row changes, none is added,
/// and the id stays.
pub proof fn law_account_write_in_place(rows: Seq<Account>, a: Account, fresh: AccountId)
    requires
        account_slot(rows, a) < rows.len(),
    ensures
        accounts_after(rows, a, fresh).len() == rows.len(),
        accounts_after(rows, a, fresh)[account_slot(rows, a)].id == rows[account_slot(rows, a)].id,
        forall|j: int|
            0 <= j < rows.len() && j != account_slot(rows, a) ==> #[trigger] accounts_after(
                rows,
                a,
                fresh,
            )[j] == rows[j],
{
    lemma_first_index_is_first(rows, |row: Account| is_same_account(row, a));
}

/// Whether there is an account with an id.
pub open spec fn has_account(rows: Seq<Account>, id: AccountId) -> bool {
    exists|i: int| 0 <= i < rows.len() && (#[trigger] rows[i]).id == Some(id)
}

/// Whether there is an account with an id.
pub fn account_exists(rows: &Vec<Account>, id: AccountId) -> (r: bool)
    ensures
        r == has_account(rows@, id),
{
    let mut i: usize = 0;
    while i < rows.len()
        invariant
            i <= rows.len(),
            forall|j: int| 0 <= j < i ==> (#[trigger] rows@[j]).id != Some(id),
        decreases rows.len() - i,
    {
        match rows[i].id {
            Some(x) => {
                if x.0 == id.0 {
                    assert(rows@[i as int].id == Some(id));
                    return true;
                }
            },
            None => {},
        }
        i = i + 1;
    }
    false
}

/// The error for a row whose account does not exist.
pub open spec fn is_orphan_error(e: CoreError) -> bool {
    e is Sql && e->Sql_0@ == "FOREIGN KEY constraint failed"@
}

/// The error for a row whose account does not exist.
pub fn orphan_error() -> (r: CoreError)
    ensures
        is_orphan_error(r),
{
    CoreError::Sql("FOREIGN KEY constraint failed".to_owned())
}

/// An account that exists still does after another write, and so does the one written.
pub proof fn law_accounts_stay(rows: Seq<Account>, a: Account, fresh: AccountId)
    ensures
        forall|id: AccountId| has_account(rows, id) ==> #[trigger] has_account(
            accounts_after(rows, a, fresh),
            id,
        ),
        forall|id: AccountId|
            accounts_after(rows, a, fresh)[account_slot(rows, a)].id == Some(id)
                ==> #[trigger] has_account(accounts_after(rows, a, fresh), id),
{
    let after = accounts_after(rows, a, fresh);
    let k = account_slot(rows, a);
    lemma_first_index_is_first(rows, |row: Account| is_same_account(row, a));
    assert forall|id: AccountId| has_account(rows, id) implies #[trigger] has_account(after, id) by {
        let i = choose|i: int| 0 <= i < rows.len() && (#[trigger] rows[i]).id == Some(id);
        assert(after[i].id == Some(id));
    }
    assert forall|id: AccountId| after[k].id == Some(id) implies #[trigger] has_account(
        after,
        id,
    ) by {}
}

pub open spec fn account_names(rows: Seq<Account>) -> Seq<Seq<char>> {
    rows.map_values(|a: Account| a.name@)
}

/// The active accounts by name.
pub open spec fn active_accounts(rows: Seq<Account>) -> Seq<Account> {
    let on = kept(rows, |a: Account| a.active);
    sorted_by_keys(on, ranks(account_names(on)))
}

/// The active accounts by name.
pub fn list_active_accounts(rows: &Vec<Account>) -> (r: Vec<Account>)
    requires
        rows@.len() <= i64::MAX,
    ensures
        r@ == active_accounts(rows@),
{
    let ghost p = |a: Account| a.active;
    let mut on: Vec<Account> = Vec::new();
    let mut names: Vec<String> = Vec::new();
    let mut i: usize = 0;
    while i < rows.len()
        invariant
            i <= rows.len(),
            p == (|a: Account| a.active),
            on@ == kept(rows@.take(i as int), p),
            on@.len() <= i,
            names@.len() == on@.len(),
            forall|k: int| 0 <= k < on@.len() ==> (#[trigger] names@[k])@ == on@[k].name@,
        decreases rows.len() - i,
    {
        assert(rows@.take(i + 1).drop_last() == rows@.take(i as int));
        if rows[i].active {
            names.push(rows[i].name.clone());
            on.push(rows[i].clone());
        }
        i = i + 1;
    }
    assert(rows@.take(rows@.len() as int) == rows@);
    assert(names@.map_values(|s: String| s@) =~= account_names(on@));
    let keys: Vec<i64> = rank_strings(&names);
    let order: Vec<usize> = stable_indices(&keys);
    let ghost q = stable_order(keys@, keys@.len());
    let mut out: Vec<Account> = Vec::new();
    let mut k: usize = 0;
    while k < order.len()
        invariant
            k <= order.len(),
            order@.len() == on@.len(),
            order@.map_values(|x: usize| x as int) == q,
            forall|j: int| 0 <= j < order@.len() ==> 0 <= (#[trigger] order@[j]) < on@.len(),
            out@.len() == k,
            forall|j: int| 0 <= j < k ==> #[trigger] out@[j] == on@[q[j]],
        decreases order.len() - k,
    {
        assert(order@.map_values(|x: usize| x as int)[k as int] == order@[k as int]);
        out.push(on[order[k]].clone());
        k = k + 1;
    }
    assert(out@ =~= active_accounts(rows@));
    out
}

/// What is listed exists.
pub proof fn lemma_listed_exist(rows: Seq<Account>, i: int)
    requires
        0 <= i < active_accounts(rows).len(),
        active_accounts(rows)[i].id is Some,
    ensures
        has_account(rows, active_accounts(rows)[i].id->0),
{
    let p = |a: Account| a.active;
    let on = kept(rows, p);
    lemma_kept_from(rows, p);
    let keys = ranks(account_names(on));
    law_stable_order(keys, keys.len());
    let j = stable_order(keys, keys.len())[i];
    assert(active_accounts(rows)[i] == on[j]);
    assert(rows.contains(on[j]));
    let k = choose|k: int| 0 <= k < rows.len() && rows[k] == on[j];
    assert(rows[k].id == Some(active_accounts(rows)[i].id->0));
}

/// The account that a provider knows under an external id.
pub open spec fn is_external_account(row: Account, provider: ProviderId, external: Seq<char>) -> bool {
    row.provider_id == Some(provider) && opt_text(row.external_id) == Some(external)
}

/// The account that a provider knows under an external id.
pub fn find_account_by_external<'a>(
    rows: &'a Vec<Account>,
    provider_id: ProviderId,
    external_id: &str,
) -> (r: Option<&'a Account>)
    ensures
        ({
            let k = first_index(
                rows@,
                |row: Account| is_external_account(row, provider_id, external_id@),
            );
            match r {
                Some(a) => k < rows@.len() && *a == rows@[k],
                None => k == rows@.len(),
            }
        }),
{
    let ghost p = |row: Account| is_external_account(row, provider_id, external_id@);
    let mut i: usize = 0;
    while i < rows.len()
        invariant
            i <= rows.len(),
            p == (|row: Account| is_external_account(row, provider_id, external_id@)),
            forall|j: int| 0 <= j < i ==> !p(#[trigger] rows@[j]),
        decreases rows.len() - i,
    {
        let same: bool = match &rows[i].provider_id {
            Some(q) => q.0 == provider_id.0,
            None => false,
        };
        if same && same_text(&rows[i].external_id, external_id) {
            proof {
                lemma_first_index(rows@, p, i as int);
            }
            return Some(&rows[i]);
        }
        i = i + 1;
    }
    proof {
        lemma_first_index(rows@, p, i as int);
    }
    None
}

/// An account that a provider wrote is found under its external id, with the values that
/// were written.
pub proof fn law_account_is_read_back(
    rows: Seq<Account>,
    a: Account,
    fresh: AccountId,
    provider: ProviderId,
    external: Seq<char>,
)
    requires
        is_external_account(a, provider, external),
    ensures
        ({
            let after = accounts_after(rows, a, fresh);
            let k = first_index(after, |row: Account| is_external_account(row, provider, external));
            k < after.len() && after[k] == account_with_id(a, after[k].id)
        }),
{
    let p = |row: Account| is_same_account(row, a);
    let q = |row: Account| is_external_account(row, provider, external);
    let k = account_slot(rows, a);
    let after = accounts_after(rows, a, fresh);
    lemma_first_index_is_first(rows, p);
    assert forall|j: int| 0 <= j < k implies !q(#[trigger] after[j]) by {
        assert(after[j] == rows[j]);
        assert(!p(rows[j]));
    }
    assert(q(after[k]));
    lemma_first_index(after, q, k);
}

// ---------------------------------------------------------------------------
// Transactions
// ---------------------------------------------------------------------------

/// Whether a stored transaction is the one that a write is about: same account and same
/// external id. A write without an external id is about none.
pub open spec fn is_same_transaction(row: Transaction, t: Transaction) -> bool {
    t.external_id is Some && row.account_id == t.account_id && opt_text(row.external_id)
        == opt_text(t.external_id)
}

/// The row that a write replaces, or the number of rows.
pub open spec fn transaction_slot(rows: Seq<Transaction>, t: Transaction) -> int {
    first_index(rows, |row: Transaction| is_same_transaction(row, t))
}

/// A transaction under another id.
pub open spec fn transaction_with_id(t: Transaction, id: Option<TransactionId>) -> Transaction {
    Transaction {
        id,
        account_id: t.account_id,
        posted_at: t.posted_at,
        amount_cents: t.amount_cents,
        currency: t.currency,
        description: t.description,
        category: t.category,
        tag: t.tag,
        business_id: t.business_id,
        external_id: t.external_id,
        source: t.source,
    }
}

/// A stored transaction with the values of a write; it keeps its id, account and external id.
pub open spec fn transaction_updated(row: Transaction, t: Transaction) -> Transaction {
    Transaction {
        id: row.id,
        account_id: row.account_id,
        posted_at: t.posted_at,
        amount_cents: t.amount_cents,
        currency: t.currency,
        description: t.description,
        category: t.category,
        tag: t.tag,
        business_id: t.business_id,
        external_id: row.external_id,
        source: t.source,
    }
}

/// The transactions after a write.
pub open spec fn transactions_after(
    rows: Seq<Transaction>,
    t: Transaction,
    fresh: TransactionId,
) -> Seq<Transaction> {
    let k = transaction_slot(rows, t);
    if k < rows.len() {
        rows.update(k, transaction_updated(rows[k], t))
    } else {
        rows.push(transaction_with_id(t, Some(fresh)))
    }
}

fn find_transaction(rows: &Vec<Transaction>, t: &Transaction) -> (r: usize)
    ensures
        r == transaction_slot(rows@, *t),
        r <= rows@.len(),
{
    let ghost p = |row: Transaction| is_same_transaction(row, *t);
    let mut i: usize = 0;
    while i < rows.len()
        invariant
            i <= rows.len(),
            p == (|row: Transaction| is_same_transaction(row, *t)),
            forall|j: int| 0 <= j < i ==> !p(#[trigger] rows@[j]),
        decreases rows.len() - i,
    {
        let hit: bool = match &t.external_id {
            Some(x) => rows[i].account_id.0 == t.account_id.0 && same_text(
                &rows[i].external_id,
                x.as_str(),
            ),
            None => false,
        };
        if hit {
            proof {
                lemma_first_index(rows@, p, i as int);
            }
            return i;
        }
        i = i + 1;
    }
    proof {
        lemma_first_index(rows@, p, i as int);
    }
    i
}

/// Whether a write is refused: it would add a row, and there is no account for it.
pub open spec fn is_orphan(accounts: Seq<Account>, rows: Seq<Transaction>, t: Transaction) -> bool {
    !(transaction_slot(rows, t) < rows.len()) && !has_account(accounts, t.account_id)
}

/// Creates or updates a transaction. One with an external id that its account already has
/// is updated, never stored twice. A new one needs an account that exists.
pub fn upsert_transaction(
    rows: &mut Vec<Transaction>,
    accounts: &Vec<Account>,
    t: &Transaction,
    fresh: TransactionId,
) -> (r: Result<Option<TransactionId>>)
    ensures
        if is_orphan(accounts@, old(rows)@, *t) {
            final(rows)@ == old(rows)@ && r is Err && is_orphan_error(r->Err_0)
        } else {
            &&& final(rows)@ == transactions_after(old(rows)@, *t, fresh)
            &&& r is Ok
            &&& r->Ok_0 == final(rows)@[transaction_slot(old(rows)@, *t)].id
        },
{
    let k: usize = find_transaction(rows, t);
    let mut row: Transaction = t.clone();
    if k < rows.len() {
        let id: Option<TransactionId> = rows[k].id;
        row.id = id;
        row.account_id = rows[k].account_id;
        row.external_id = clone_opt(&rows[k].external_id);
        rows.set(k, row);
        Ok(id)
    } else if account_exists(accounts, t.account_id) {
        row.id = Some(fresh);
        rows.push(row);
        Ok(Some(fresh))
    } else {
        Err(orphan_error())
    }
}

/// Whether every transaction belongs to an account that exists.
pub open spec fn all_have_accounts(accounts: Seq<Account>, rows: Seq<Transaction>) -> bool {
    forall|i: int| 0 <= i < rows.len() ==> has_account(accounts, (#[trigger] rows[i]).account_id)
}

/// Where every transaction belongs to an account, a write is refused exactly where its account
/// does not exist; and every transaction belongs to an account after it.
pub proof fn law_transactions_have_accounts(
    accounts: Seq<Account>,
    rows: Seq<Transaction>,
    t: Transaction,
    fresh: TransactionId,
)
    requires
        all_have_accounts(accounts, rows),
    ensures
        is_orphan(accounts, rows, t) <==> !has_account(accounts, t.account_id),
        !is_orphan(accounts, rows, t) ==> all_have_accounts(
            accounts,
            transactions_after(rows, t, fresh),
        ),
{
    let k = transaction_slot(rows, t);
    lemma_first_index_is_first(rows, |row: Transaction| is_same_transaction(row, t));
    if k < rows.len() {
        assert(has_account(accounts, rows[k].account_id));
    }
    if !is_orphan(accounts, rows, t) {
        let after = transactions_after(rows, t, fresh);
        assert forall|i: int| 0 <= i < after.len() implies has_account(
            accounts,
            (#[trigger] after[i]).account_id,
        ) by {
            if i < rows.len() {
                assert(has_account(accounts, rows[i].account_id));
            }
        }
    }
}

/// Writing a transaction with an external id twice is writing it once.
pub proof fn law_transaction_write_idempotent(
    rows: Seq<Transaction>,
    t: Transaction,
    fresh: TransactionId,
    other: TransactionId,
)
    requires
        t.external_id is Some,
    ensures
        transactions_after(transactions_after(rows, t, fresh), t, other) == transactions_after(
            rows,
            t,
            fresh,
        ),
{
    let p = |row: Transaction| is_same_transaction(row, t);
    let k = transaction_slot(rows, t);
    let once = transactions_after(rows, t, fresh);
    lemma_first_index_is_first(rows, p);
    assert forall|j: int| 0 <= j < k implies !p(#[trigger] once[j]) by {
        assert(once[j] == rows[j]);
    }
    assert(p(once[k]));
    lemma_first_index(once, p, k);
    assert(once.update(k, transaction_updated(once[k], t)) =~= once);
}

/// A transaction that was written is stored with the values that were written, and the
/// other rows are as they were.
pub proof fn law_transaction_is_read_back(
    rows: Seq<Transaction>,
    t: Transaction,
    fresh: TransactionId,
)
    ensures
        ({
            let after = transactions_after(rows, t, fresh);
            let k = transaction_slot(rows, t);
            &&& 0 <= k < after.len()
            &&& after[k].account_id == t.account_id
            &&& opt_text(after[k].external_id) == opt_text(t.external_id)
            &&& after[k] == transaction_updated(after[k], t)
            &&& forall|j: int| 0 <= j < rows.len() && j != k ==> #[trigger] after[j] == rows[j]
        }),
{
    lemma_first_index_is_first(rows, |row: Transaction| is_same_transaction(row, t));
}

/// The transactions without those of an external id.
pub open spec fn without_external(rows: Seq<Transaction>, external: Seq<char>) -> Seq<Transaction> {
    kept(rows, |t: Transaction| opt_text(t.external_id) != Some(external))
}

/// Deletes the transactions with the given external id and says how many there were.
pub fn delete_transaction_by_external(rows: &mut Vec<Transaction>, external_id: &str) -> (r: usize)
    ensures
        final(rows)@ == without_external(old(rows)@, external_id@),
        r == old(rows)@.len() - final(rows)@.len(),
{
    let ghost p = |t: Transaction| opt_text(t.external_id) != Some(external_id@);
    let ghost before = rows@;
    let n: usize = rows.len();
    let mut rest: Vec<Transaction> = Vec::new();
    let mut i: usize = 0;
    while i < n
        invariant
            n == before.len(),
            rows@ == before,
            i <= n,
            p == (|t: Transaction| opt_text(t.external_id) != Some(external_id@)),
            rest@ == kept(before.take(i as int), p),
            rest@.len() <= i,
        decreases n - i,
    {
        assert(before.take(i + 1).drop_last() == before.take(i as int));
        if !same_text(&rows[i].external_id, external_id) {
            rest.push(rows[i].clone());
        }
        i = i + 1;
    }
    assert(before.take(n as int) == before);
    let gone: usize = n - rest.len();
    *rows = rest;
    gone
}

/// What was deleted is gone, everything else is still there, and deleting again deletes
/// nothing more.
pub proof fn law_delete_idempotent(rows: Seq<Transaction>, external: Seq<char>)
    ensures
        forall|i: int|
            0 <= i < without_external(rows, external).len() ==> opt_text(
                (#[trigger] without_external(rows, external)[i]).external_id,
            ) != Some(external),
        forall|i: int|
            0 <= i < rows.len() && opt_text((#[trigger] rows[i]).external_id) != Some(external)
                ==> without_external(rows, external).contains(rows[i]),
        without_external(without_external(rows, external), external) == without_external(
            rows,
            external,
        ),
{
    let p = |t: Transaction| opt_text(t.external_id) != Some(external);
    lemma_kept(rows, p);
    lemma_kept_all(without_external(rows, external), p);
    assert forall|i: int| 0 <= i < without_external(rows, external).len() implies opt_text(
        (#[trigger] without_external(rows, external)[i]).external_id,
    ) != Some(external) by {
        assert(p(kept(rows, p)[i]));
    }
    assert forall|i: int|
        0 <= i < rows.len() && opt_text((#[trigger] rows[i]).external_id) != Some(
            external,
        ) implies without_external(rows, external).contains(rows[i]) by {
        assert(p(rows[i]));
    }
}

// ---------------------------------------------------------------------------
// Businesses
// ---------------------------------------------------------------------------

pub open spec fn has_tag(b: Business, tag: Seq<char>) -> bool {
    b.tag@ == tag
}

/// The row of a business tag, or the number of rows.
pub open spec fn business_slot(rows: Seq<Business>, tag: Seq<char>) -> int {
    first_index(rows, |b: Business| has_tag(b, tag))
}

fn find_business(rows: &Vec<Business>, tag: &str) -> (r: usize)
    ensures
        r == business_slot(rows@, tag@),
        r <= rows@.len(),
{
    let ghost p = |b: Business| has_tag(b, tag@);
    let mut i: usize = 0;
    while i < rows.len() && !str_eq(rows[i].tag.as_str(), tag)
        invariant
            i <= rows.len(),
            p == (|b: Business| has_tag(b, tag@)),
            forall|j: int| 0 <= j < i ==> !p(#[trigger] rows@[j]),
        decreases rows.len() - i,
    {
        i = i + 1;
    }
    proof {
        lemma_first_index(rows@, p, i as int);
    }
    i
}

/// What is said of a tag that no business has.
pub open spec fn no_business(tag: Seq<char>) -> Seq<char> {
    "business tag="@ + tag
}

/// The business with the given tag.
pub fn business_by_tag<'a>(rows: &'a Vec<Business>, tag: &str) -> (r: Result<&'a Business>)
    ensures
        match r {
            Ok(b) => business_slot(rows@, tag@) < rows@.len() && *b == rows@[business_slot(
                rows@,
                tag@,
            )],
            Err(e) => business_slot(rows@, tag@) == rows@.len() && e is NotFound && e->NotFound_0@
                == no_business(tag@),
        },
{
    let k: usize = find_business(rows, tag);
    if k < rows.len() {
        Ok(&rows[k])
    } else {
        Err(CoreError::NotFound("business tag=".to_owned().concat(tag)))
    }
}

/// A business row after a write. What the write leaves out keeps its stored value; a new
/// row takes the tag as its name and is active.
pub open spec fn is_business_after(
    row: Business,
    stored: Option<Business>,
    tag: Seq<char>,
    display_name: Option<Seq<char>>,
    active: Option<bool>,
    fresh: BusinessId,
) -> bool {
    match stored {
        Some(b) => {
            &&& row.id == b.id
            &&& row.tag@ == b.tag@
            &&& row.display_name@ == match display_name {
                Some(n) => n,
                None => b.display_name@,
            }
            &&& row.active == match active {
                Some(a) => a,
                None => b.active,
            }
        },
        None => {
            &&& row.id == fresh
            &&& row.tag@ == tag
            &&& row.display_name@ == match display_name {
                Some(n) => n,
                None => tag,
            }
            &&& row.active == match active {
                Some(a) => a,
                None => true,
            }
        },
    }
}

/// The businesses after a write: the one of that tag is updated, or a new one is added; the
/// others are as they were.
pub open spec fn businesses_written(
    after: Seq<Business>,
    before: Seq<Business>,
    tag: Seq<char>,
    display_name: Option<Seq<char>>,
    active: Option<bool>,
    fresh: BusinessId,
) -> bool {
    let k = business_slot(before, tag);
    let n = before.len();
    &&& after.len() == if k < n {
        n
    } else {
        n + 1
    }
    &&& is_business_after(
        after[k],
        if k < n {
            Some(before[k])
        } else {
            None
        },
        tag,
        display_name,
        active,
        fresh,
    )
    &&& forall|j: int| 0 <= j < n && j != k ==> #[trigger] after[j] == before[j]
}

/// Creates or updates a business by its tag.
pub fn upsert_business(
    rows: &mut Vec<Business>,
    tag: &str,
    display_name: Option<&str>,
    active: Option<bool>,
    fresh: BusinessId,
) -> (r: BusinessId)
    ensures
        businesses_written(
            final(rows)@,
            old(rows)@,
            tag@,
            match display_name {
                Some(n) => Some(n@),
                None => None,
            },
            active,
            fresh,
        ),
        r == final(rows)@[business_slot(old(rows)@, tag@)].id,
{
    let k: usize = find_business(rows, tag);
    if k < rows.len() {
        let b: &Business = &rows[k];
        let row: Business = Business {
            id: b.id,
            tag: b.tag.clone(),
            display_name: match display_name {
                Some(n) => n.to_owned(),
                None => b.display_name.clone(),
            },
            active: match active {
                Some(a) => a,
                None => b.active,
            },
        };
        let id: BusinessId = row.id;
        rows.set(k, row);
        id
    } else {
        rows.push(
            Business {
                id: fresh,
                tag: tag.to_owned(),
                display_name: match display_name {
                    Some(n) => n.to_owned(),
                    None => tag.to_owned(),
                },
                active: match active {
                    Some(a) => a,
                    None => true,
                },
            },
        );
        fresh
    }
}

/// A business that was written is found under its tag, and the other tags are found as
/// before.
pub proof fn law_business_is_read_back(
    after: Seq<Business>,
    before: Seq<Business>,
    tag: Seq<char>,
    display_name: Option<Seq<char>>,
    active: Option<bool>,
    fresh: BusinessId,
    other: Seq<char>,
)
    requires
        businesses_written(after, before, tag, display_name, active, fresh),
    ensures
        ({
            let k = business_slot(after, tag);
            &&& k < after.len()
            &&& has_tag(after[k], tag)
            &&& display_name is Some ==> after[k].display_name@ == display_name->0
            &&& active is Some ==> after[k].active == active->0
        }),
        other != tag ==> {
            let m = business_slot(before, other);
            if m < before.len() {
                business_slot(after, other) == m && after[m] == before[m]
            } else {
                business_slot(after, other) == after.len()
            }
        },
{
    let p = |b: Business| has_tag(b, tag);
    let q = |b: Business| has_tag(b, other);
    let k = business_slot(before, tag);
    lemma_first_index_is_first(before, p);
    assert forall|j: int| 0 <= j < k implies !p(#[trigger] after[j]) by {
        assert(after[j] == before[j]);
    }
    assert(p(after[k]));
    lemma_first_index(after, p, k);
    if other != tag {
        let m = business_slot(before, other);
        lemma_first_index_is_first(before, q);
        let n = if m < before.len() {
            m
        } else {
            after.len() as int
        };
        assert forall|j: int| 0 <= j < n implies !q(#[trigger] after[j]) by {
            if j != k {
                assert(after[j] == before[j]);
            }
        }
        if m < before.len() {
            assert(m != k);
            assert(after[m] == before[m]);
        }
        lemma_first_index(after, q, n);
    }
}

// ---------------------------------------------------------------------------
// Subscriptions
// ---------------------------------------------------------------------------

pub open spec fn is_named(s: SubscriptionRecord, name: Seq<char>) -> bool {
    s.name@ == name
}

/// A subscription record with the values of a write. The business stays where the write
/// names none.
pub open spec fn subscription_updated(
    row: SubscriptionRecord,
    w: SubscriptionRecord,
) -> SubscriptionRecord {
    SubscriptionRecord {
        id: row.id,
        name: row.name,
        provider_kind: w.provider_kind,
        amount_cents: w.amount_cents,
        cadence: w.cadence,
        next_charge_at: w.next_charge_at,
        account_id: row.account_id,
        business_id: match w.business_id {
            Some(b) => Some(b),
            None => row.business_id,
        },
        active: w.active,
    }
}

/// The records after a write: every record of that name takes the new values; where there
/// is none, the write is added.
pub open spec fn subscriptions_after(
    rows: Seq<SubscriptionRecord>,
    w: SubscriptionRecord,
) -> Seq<SubscriptionRecord> {
    if exists|i: int| 0 <= i < rows.len() && is_named(#[trigger] rows[i], w.name@) {
        rows.map_values(
            |s: SubscriptionRecord|
                if is_named(s, w.name@) {
                    subscription_updated(s, w)
                } else {
                    s
                },
        )
    } else {
        rows.push(w)
    }
}

/// Creates or updates a declared obligation by its name.
pub fn upsert_subscription(rows: &mut Vec<SubscriptionRecord>, w: &SubscriptionRecord)
    ensures
        final(rows)@ == subscriptions_after(old(rows)@, *w),
{
    let ghost before = rows@;
    let n: usize = rows.len();
    let mut found: bool = false;
    let mut i: usize = 0;
    while i < n
        invariant
            n == before.len() == rows@.len(),
            i <= n,
            found == (exists|k: int| 0 <= k < i && is_named(#[trigger] before[k], w.name@)),
            forall|k: int|
                0 <= k < i ==> #[trigger] rows@[k] == if is_named(before[k], w.name@) {
                    subscription_updated(before[k], *w)
                } else {
                    before[k]
                },
            forall|k: int| i <= k < n ==> #[trigger] rows@[k] == before[k],
        decreases n - i,
    {
        assert(rows@[i as int] == before[i as int]);
        if str_eq(rows[i].name.as_str(), w.name.as_str()) {
            let old_row: &SubscriptionRecord = &rows[i];
            let row: SubscriptionRecord = SubscriptionRecord {
                id: old_row.id,
                name: old_row.name.clone(),
                provider_kind: w.provider_kind.clone(),
                amount_cents: w.amount_cents,
                cadence: clone_opt(&w.cadence),
                next_charge_at: w.next_charge_at,
                account_id: old_row.account_id,
                business_id: match w.business_id {
                    Some(b) => Some(b),
                    None => old_row.business_id,
                },
                active: w.active,
            };
            rows.set(i, row);
            found = true;
            assert(is_named(before[i as int], w.name@));
        }
        i = i + 1;
    }
    if !found {
        assert(rows@ =~= before);
        rows.push(w.clone());
    }
    assert(rows@ =~= subscriptions_after(before, *w));
}

/// The records after a narrow change: those of a name, with a new name or activity.
pub open spec fn subscriptions_changed(
    rows: Seq<SubscriptionRecord>,
    name: Seq<char>,
    change: spec_fn(SubscriptionRecord) -> SubscriptionRecord,
) -> Seq<SubscriptionRecord> {
    rows.map_values(
        |s: SubscriptionRecord|
            if is_named(s, name) {
                change(s)
            } else {
                s
            },
    )
}

/// How many records have a name.
pub open spec fn count_named(rows: Seq<SubscriptionRecord>, name: Seq<char>) -> nat
    decreases rows.len(),
{
    if rows.len() == 0 {
        0
    } else {
        count_named(rows.drop_last(), name) + if is_named(rows.last(), name) {
            1nat
        } else {
            0nat
        }
    }
}

/// A record made active or not.
pub open spec fn with_active(s: SubscriptionRecord, active: bool) -> SubscriptionRecord {
    SubscriptionRecord { active, ..s }
}

/// Whether a record differs from another in its name alone.
pub open spec fn is_renamed(r: SubscriptionRecord, s: SubscriptionRecord, name: Seq<char>) -> bool {
    r.name@ == name && r == (SubscriptionRecord { name: r.name, ..s })
}

/// Activates or deactivates the obligations of a name, and says how many there are.
pub fn set_subscription_active(rows: &mut Vec<SubscriptionRecord>, name: &str, active: bool) -> (r:
    usize)
    ensures
        final(rows)@ == subscriptions_changed(
            old(rows)@,
            name@,
            |s: SubscriptionRecord| with_active(s, active),
        ),
        r == count_named(old(rows)@, name@),
{
    let ghost before = rows@;
    let n: usize = rows.len();
    let mut hits: usize = 0;
    let mut i: usize = 0;
    while i < n
        invariant
            n == before.len() == rows@.len(),
            i <= n,
            hits <= i,
            hits == count_named(before.take(i as int), name@),
            forall|k: int|
                0 <= k < i ==> #[trigger] rows@[k] == if is_named(before[k], name@) {
                    with_active(before[k], active)
                } else {
                    before[k]
                },
            forall|k: int| i <= k < n ==> #[trigger] rows@[k] == before[k],
        decreases n - i,
    {
        assert(before.take(i + 1).drop_last() == before.take(i as int));
        assert(rows@[i as int] == before[i as int]);
        if str_eq(rows[i].name.as_str(), name) {
            let mut row: SubscriptionRecord = rows[i].clone();
            row.active = active;
            rows.set(i, row);
            hits = hits + 1;
        }
        i = i + 1;
    }
    assert(before.take(n as int) == before);
    assert(rows@ =~= subscriptions_changed(
        before,
        name@,
        |s: SubscriptionRecord| with_active(s, active),
    ));
    hits
}

/// The records after those of a name took a new one; the others are as they were.
pub open spec fn are_renamed(
    after: Seq<SubscriptionRecord>,
    before: Seq<SubscriptionRecord>,
    old_name: Seq<char>,
    new_name: Seq<char>,
) -> bool {
    &&& after.len() == before.len()
    &&& forall|i: int|
        0 <= i < before.len() ==> if is_named(before[i], old_name) {
            is_renamed(#[trigger] after[i], before[i], new_name)
        } else {
            after[i] == before[i]
        }
}

/// Renames the obligations of a name, and says how many there are.
pub fn rename_subscription(rows: &mut Vec<SubscriptionRecord>, old_name: &str, new_name: &str) -> (r:
    usize)
    ensures
        are_renamed(final(rows)@, old(rows)@, old_name@, new_name@),
        r == count_named(old(rows)@, old_name@),
{
    let ghost before = rows@;
    let n: usize = rows.len();
    let mut hits: usize = 0;
    let mut i: usize = 0;
    while i < n
        invariant
            n == before.len() == rows@.len(),
            i <= n,
            hits <= i,
            hits == count_named(before.take(i as int), old_name@),
            forall|k: int|
                0 <= k < i ==> if is_named(before[k], old_name@) {
                    is_renamed(#[trigger] rows@[k], before[k], new_name@)
                } else {
                    rows@[k] == before[k]
                },
            forall|k: int| i <= k < n ==> #[trigger] rows@[k] == before[k],
        decreases n - i,
    {
        assert(before.take(i + 1).drop_last() == before.take(i as int));
        assert(rows@[i as int] == before[i as int]);
        if str_eq(rows[i].name.as_str(), old_name) {
            let mut row: SubscriptionRecord = rows[i].clone();
            row.name = new_name.to_owned();
            rows.set(i, row);
            hits = hits + 1;
        }
        i = i + 1;
    }
    assert(before.take(n as int) == before);
    hits
}

/// An obligation that was declared is there under its name, with the terms that were
/// declared; obligations of other names are as they were.
pub proof fn law_subscription_is_read_back(rows: Seq<SubscriptionRecord>, w: SubscriptionRecord)
    ensures
        exists|i: int|
            0 <= i < subscriptions_after(rows, w).len() && is_named(
                #[trigger] subscriptions_after(rows, w)[i],
                w.name@,
            ),
        forall|i: int|
            0 <= i < subscriptions_after(rows, w).len() && is_named(
                #[trigger] subscriptions_after(rows, w)[i],
                w.name@,
            ) ==> {
                let s = subscriptions_after(rows, w)[i];
                &&& s.provider_kind == w.provider_kind
                &&& s.amount_cents == w.amount_cents
                &&& s.cadence == w.cadence
                &&& s.next_charge_at == w.next_charge_at
                &&& s.active == w.active
            },
        forall|i: int|
            0 <= i < rows.len() && !is_named(#[trigger] rows[i], w.name@) ==> subscriptions_after(
                rows,
                w,
            )[i] == rows[i],
{
    let after = subscriptions_after(rows, w);
    if exists|i: int| 0 <= i < rows.len() && is_named(#[trigger] rows[i], w.name@) {
        let i = choose|i: int| 0 <= i < rows.len() && is_named(#[trigger] rows[i], w.name@);
        assert(is_named(after[i], w.name@));
    } else {
        assert(after[rows.len() as int] == w);
        assert(is_named(after[rows.len() as int], w.name@));
    }
}

// ---------------------------------------------------------------------------
// Providers
// ---------------------------------------------------------------------------

pub open spec fn is_provider(p: ProviderRow, kind: Seq<char>, label: Seq<char>) -> bool {
    p.kind@ == kind && p.label@ == label
}

/// The row of a provider kind and label, or the number of rows.
pub open spec fn provider_slot(rows: Seq<ProviderRow>, kind: Seq<char>, label: Seq<char>) -> int {
    first_index(rows, |p: ProviderRow| is_provider(p, kind, label))
}

/// The row of a provider kind and label, or the number of rows.
pub fn find_provider(rows: &Vec<ProviderRow>, kind: &str, label: &str) -> (r: usize)
    ensures
        r == provider_slot(rows@, kind@, label@),
        r <= rows@.len(),
{
    let ghost p = |x: ProviderRow| is_provider(x, kind@, label@);
    let mut i: usize = 0;
    while i < rows.len() && !(str_eq(rows[i].kind.as_str(), kind) && str_eq(
        rows[i].label.as_str(),
        label,
    ))
        invariant
            i <= rows.len(),
            p == (|x: ProviderRow| is_provider(x, kind@, label@)),
            forall|j: int| 0 <= j < i ==> !p(#[trigger] rows@[j]),
        decreases rows.len() - i,
    {
        i = i + 1;
    }
    proof {
        lemma_first_index(rows@, p, i as int);
    }
    i
}

/// A provider row with the configuration of a write; its poll history stays.
pub open spec fn provider_updated(row: ProviderRow, w: ProviderRow) -> ProviderRow {
    ProviderRow {
        id: row.id,
        kind: row.kind,
        label: row.label,
        config_json: w.config_json,
        secret_ref: w.secret_ref,
        poll_cadence: w.poll_cadence,
        last_poll_at: row.last_poll_at,
        last_status: row.last_status,
    }
}

/// A new provider row, never polled.
pub open spec fn provider_added(w: ProviderRow, fresh: ProviderId) -> ProviderRow {
    ProviderRow {
        id: fresh,
        kind: w.kind,
        label: w.label,
        config_json: w.config_json,
        secret_ref: w.secret_ref,
        poll_cadence: w.poll_cadence,
        last_poll_at: None,
        last_status: None,
    }
}

/// The providers after a write.
pub open spec fn providers_after(rows: Seq<ProviderRow>, w: ProviderRow, fresh: ProviderId) -> Seq<
    ProviderRow,
> {
    let k = provider_slot(rows, w.kind@, w.label@);
    if k < rows.len() {
        rows.update(k, provider_updated(rows[k], w))
    } else {
        rows.push(provider_added(w, fresh))
    }
}

/// Creates or updates a provider by its kind and label.
pub fn upsert_provider(rows: &mut Vec<ProviderRow>, w: &ProviderRow, fresh: ProviderId) -> (r:
    ProviderId)
    ensures
        final(rows)@ == providers_after(old(rows)@, *w, fresh),
        r == final(rows)@[provider_slot(old(rows)@, w.kind@, w.label@)].id,
{
    let i: usize = find_provider(rows, w.kind.as_str(), w.label.as_str());
    let mut row: ProviderRow = w.clone();
    if i < rows.len() {
        let id: ProviderId = rows[i].id;
        row.id = id;
        row.kind = rows[i].kind.clone();
        row.label = rows[i].label.clone();
        row.last_poll_at = rows[i].last_poll_at;
        row.last_status = clone_opt(&rows[i].last_status);
        rows.set(i, row);
        id
    } else {
        row.id = fresh;
        row.last_poll_at = None;
        row.last_status = None;
        rows.push(row);
        fresh
    }
}

/// Writing a provider twice is writing it once, and keeps its poll history.
pub proof fn law_provider_write_idempotent(
    rows: Seq<ProviderRow>,
    w: ProviderRow,
    fresh: ProviderId,
    other: ProviderId,
)
    ensures
        providers_after(providers_after(rows, w, fresh), w, other) == providers_after(rows, w, fresh),
{
    let p = |x: ProviderRow| is_provider(x, w.kind@, w.label@);
    let k = provider_slot(rows, w.kind@, w.label@);
    let once = providers_after(rows, w, fresh);
    lemma_first_index_is_first(rows, p);
    assert forall|j: int| 0 <= j < k implies !p(#[trigger] once[j]) by {
        assert(once[j] == rows[j]);
    }
    assert(p(once[k]));
    lemma_first_index(once, p, k);
    assert(once.update(k, provider_updated(once[k], w)) =~= once);
}

// ---------------------------------------------------------------------------
// Alert rules
// ---------------------------------------------------------------------------

pub open spec fn is_rule(r: AlertRule, name: Seq<char>) -> bool {
    r.name@ == name
}

/// The row of a rule's name, or the number of rows.
pub open spec fn rule_slot(rows: Seq<AlertRule>, name: Seq<char>) -> int {
    first_index(rows, |r: AlertRule| is_rule(r, name))
}

fn find_rule(rows: &Vec<AlertRule>, name: &str) -> (r: usize)
    ensures
        r == rule_slot(rows@, name@),
        r <= rows@.len(),
{
    let ghost p = |r: AlertRule| is_rule(r, name@);
    let mut i: usize = 0;
    while i < rows.len() && !str_eq(rows[i].name.as_str(), name)
        invariant
            i <= rows.len(),
            p == (|r: AlertRule| is_rule(r, name@)),
            forall|j: int| 0 <= j < i ==> !p(#[trigger] rows@[j]),
        decreases rows.len() - i,
    {
        i = i + 1;
    }
    proof {
        lemma_first_index(rows@, p, i as int);
    }
    i
}

/// The row holds the given values.
pub open spec fn rule_is(
    r: AlertRule,
    id: i64,
    name: Seq<char>,
    rule_json: Seq<char>,
    channel: Seq<char>,
    active: bool,
) -> bool {
    r.id == id && r.name@ == name && r.rule_json@ == rule_json && r.channel@ == channel && r.active
        == active
}

/// Adds an active rule unless one of that name is there; what is there stays as it is.
pub fn upsert_alert_rule_by_name(
    rows: &mut Vec<AlertRule>,
    name: &str,
    rule_json: &str,
    channel: &str,
    fresh: i64,
) -> (r: i64)
    ensures
        ({
            let k = rule_slot(old(rows)@, name@);
            if k < old(rows)@.len() {
                final(rows)@ == old(rows)@ && r == old(rows)@[k].id
            } else {
                &&& final(rows)@.len() == old(rows)@.len() + 1
                &&& final(rows)@.drop_last() == old(rows)@
                &&& rule_is(final(rows)@.last(), fresh, name@, rule_json@, channel@, true)
                &&& r == fresh
            }
        }),
{
    let k: usize = find_rule(rows, name);
    if k < rows.len() {
        return rows[k].id;
    }
    rows.push(
        AlertRule {
            id: fresh,
            name: name.to_owned(),
            rule_json: rule_json.to_owned(),
            channel: channel.to_owned(),
            active: true,
        },
    );
    assert(rows@.drop_last() =~= old(rows)@);
    fresh
}

/// The rules after a write: the one of that name is overwritten and keeps its id, or the
/// write is added; the others are as they were.
pub open spec fn rules_written(
    after: Seq<AlertRule>,
    before: Seq<AlertRule>,
    name: Seq<char>,
    rule_json: Seq<char>,
    channel: Seq<char>,
    active: bool,
    fresh: i64,
) -> bool {
    let k = rule_slot(before, name);
    let n = before.len();
    let id = if k < n {
        before[k].id
    } else {
        fresh
    };
    &&& after.len() == if k < n {
        n
    } else {
        n + 1
    }
    &&& rule_is(after[k], id, name, rule_json, channel, active)
    &&& forall|j: int| 0 <= j < n && j != k ==> #[trigger] after[j] == before[j]
}

/// Creates a rule, or overwrites the one of that name.
pub fn set_alert_rule(
    rows: &mut Vec<AlertRule>,
    name: &str,
    rule_json: &str,
    channel: &str,
    active: bool,
    fresh: i64,
) -> (r: i64)
    ensures
        rules_written(final(rows)@, old(rows)@, name@, rule_json@, channel@, active, fresh),
        r == final(rows)@[rule_slot(old(rows)@, name@)].id,
{
    let k: usize = find_rule(rows, name);
    proof {
        lemma_first_index_is_first(rows@, |r: AlertRule| is_rule(r, name@));
    }
    let id: i64 = if k < rows.len() {
        rows[k].id
    } else {
        fresh
    };
    let row: AlertRule = AlertRule {
        id,
        name: name.to_owned(),
        rule_json: rule_json.to_owned(),
        channel: channel.to_owned(),
        active,
    };
    if k < rows.len() {
        rows.set(k, row);
    } else {
        rows.push(row);
    }
    id
}

/// A rule that was written is there under its name with what was written, active or not,
/// and the other rules are as they were.
pub proof fn law_rule_is_read_back(
    after: Seq<AlertRule>,
    before: Seq<AlertRule>,
    name: Seq<char>,
    rule_json: Seq<char>,
    channel: Seq<char>,
    active: bool,
    fresh: i64,
)
    requires
        rules_written(after, before, name, rule_json, channel, active, fresh),
    ensures
        ({
            let k = rule_slot(after, name);
            &&& k < after.len()
            &&& rule_is(after[k], after[k].id, name, rule_json, channel, active)
            &&& k == rule_slot(before, name)
            &&& forall|j: int| 0 <= j < before.len() && j != k ==> #[trigger] after[j] == before[j]
        }),
{
    let p = |r: AlertRule| is_rule(r, name);
    let k = rule_slot(before, name);
    lemma_first_index_is_first(before, p);
    assert forall|j: int| 0 <= j < k implies !p(#[trigger] after[j]) by {
        assert(after[j] == before[j]);
    }
    assert(p(after[k]));
    lemma_first_index(after, p, k);
}

// ---------------------------------------------------------------------------
// Labels of recurring series
// ---------------------------------------------------------------------------

pub open spec fn is_label_of(l: StoredLabel, key: Seq<char>) -> bool {
    l.row.match_key@ == key
}

/// The row of a payee's label, or the number of rows.
pub open spec fn label_slot(rows: Seq<StoredLabel>, key: Seq<char>) -> int {
    first_index(rows, |l: StoredLabel| is_label_of(l, key))
}

/// A stored label with a confirmation merged into it: what the confirmation leaves out
/// keeps its stored value; the activity and the time are always taken.
pub open spec fn label_merged(stored: StoredLabel, w: StoredLabel) -> StoredLabel {
    StoredLabel {
        row: RecurringLabel {
            match_key: stored.row.match_key,
            label: match w.row.label {
                Some(l) => Some(l),
                None => stored.row.label,
            },
            display_name: match w.row.display_name {
                Some(n) => Some(n),
                None => stored.row.display_name,
            },
            business_id: match w.row.business_id {
                Some(b) => Some(b),
                None => stored.row.business_id,
            },
            confirmed_at: w.row.confirmed_at,
        },
        active: w.active,
    }
}

/// The labels after a confirmation: merged into the row of the same payee, or added.
pub open spec fn labels_after(rows: Seq<StoredLabel>, w: StoredLabel) -> Seq<StoredLabel> {
    let k = label_slot(rows, w.row.match_key@);
    if k < rows.len() {
        rows.update(k, label_merged(rows[k], w))
    } else {
        rows.push(w)
    }
}

fn first_of(a: &Option<String>, b: &Option<String>) -> (r: Option<String>)
    ensures
        r == match *a {
            Some(x) => Some(x),
            None => *b,
        },
{
    match a {
        Some(x) => Some(x.clone()),
        None => clone_opt(b),
    }
}

/// Confirms a label for a payee.
pub fn upsert_recurring_label(rows: &mut Vec<StoredLabel>, w: &StoredLabel)
    ensures
        final(rows)@ == labels_after(old(rows)@, *w),
{
    let ghost key = w.row.match_key@;
    let ghost p = |l: StoredLabel| is_label_of(l, key);
    let mut i: usize = 0;
    while i < rows.len() && !str_eq(rows[i].row.match_key.as_str(), w.row.match_key.as_str())
        invariant
            rows@ == old(rows)@,
            i <= rows.len(),
            key == w.row.match_key@,
            p == (|l: StoredLabel| is_label_of(l, key)),
            forall|j: int| 0 <= j < i ==> !p(#[trigger] rows@[j]),
        decreases rows.len() - i,
    {
        i = i + 1;
    }
    proof {
        lemma_first_index(rows@, p, i as int);
    }
    if i < rows.len() {
        let s: &RecurringLabel = &rows[i].row;
        let merged: StoredLabel = StoredLabel {
            row: RecurringLabel {
                match_key: s.match_key.clone(),
                label: first_of(&w.row.label, &s.label),
                display_name: first_of(&w.row.display_name, &s.display_name),
                business_id: match w.row.business_id {
                    Some(b) => Some(b),
                    None => s.business_id,
                },
                confirmed_at: w.row.confirmed_at,
            },
            active: w.active,
        };
        rows.set(i, merged);
    } else {
        rows.push(w.clone());
    }
}

/// The labels that count: those of active rows.
pub open spec fn active_labels(rows: Seq<StoredLabel>) -> Seq<RecurringLabel> {
    kept(rows, |l: StoredLabel| l.active).map_values(|l: StoredLabel| l.row)
}

/// The labels that count: a dismissed row reads as an unconfirmed series.
pub fn recurring_labels(rows: &Vec<StoredLabel>) -> (r: Vec<RecurringLabel>)
    ensures
        r@ == active_labels(rows@),
{
    let mut out: Vec<RecurringLabel> = Vec::new();
    let mut i: usize = 0;
    while i < rows.len()
        invariant
            i <= rows.len(),
            out@ == active_labels(rows@.take(i as int)),
        decreases rows.len() - i,
    {
        assert(rows@.take(i + 1).drop_last() == rows@.take(i as int));
        if rows[i].active {
            out.push(rows[i].row.clone());
        }
        i = i + 1;
        assert(out@ =~= active_labels(rows@.take(i as int)));
    }
    assert(rows@.take(rows@.len() as int) == rows@);
    out
}

/// Renaming a series keeps its label, and labelling it keeps its name.
pub proof fn law_label_merge_preserves(stored: StoredLabel, w: StoredLabel)
    ensures
        w.row.label is None ==> label_merged(stored, w).row.label == stored.row.label,
        w.row.display_name is None ==> label_merged(stored, w).row.display_name
            == stored.row.display_name,
        w.row.label is Some ==> label_merged(stored, w).row.label == w.row.label,
        w.row.display_name is Some ==> label_merged(stored, w).row.display_name
            == w.row.display_name,
        label_merged(stored, w).active == w.active,
        label_merged(stored, w).row.match_key == stored.row.match_key,
{
}

/// A confirmation touches one row: no payee gets a second one.
pub proof fn law_label_write_in_place(rows: Seq<StoredLabel>, w: StoredLabel)
    requires
        label_slot(rows, w.row.match_key@) < rows.len(),
    ensures
        labels_after(rows, w).len() == rows.len(),
        forall|j: int|
            0 <= j < rows.len() && j != label_slot(rows, w.row.match_key@) ==> #[trigger] labels_after(
                rows,
                w,
            )[j] == rows[j],
{
    let key = w.row.match_key@;
    lemma_first_index_is_first(rows, |l: StoredLabel| is_label_of(l, key));
}

/// A confirmation is read back under its payee: what it gave is there, and where it is
/// active it counts.
pub proof fn law_label_is_read_back(rows: Seq<StoredLabel>, w: StoredLabel)
    ensures
        ({
            let after = labels_after(rows, w);
            let k = label_slot(after, w.row.match_key@);
            &&& k < after.len()
            &&& is_label_of(after[k], w.row.match_key@)
            &&& after[k].active == w.active
            &&& w.row.label is Some ==> after[k].row.label == w.row.label
            &&& w.row.display_name is Some ==> after[k].row.display_name == w.row.display_name
            &&& w.row.business_id is Some ==> after[k].row.business_id == w.row.business_id
            &&& w.active ==> active_labels(after).contains(after[k].row)
        }),
{
    let key = w.row.match_key@;
    let p = |l: StoredLabel| is_label_of(l, key);
    let on = |l: StoredLabel| l.active;
    let k = label_slot(rows, key);
    let after = labels_after(rows, w);
    lemma_first_index_is_first(rows, p);
    assert forall|j: int| 0 <= j < k implies !p(#[trigger] after[j]) by {
        assert(after[j] == rows[j]);
    }
    assert(p(after[k]));
    lemma_first_index(after, p, k);
    if w.active {
        lemma_kept(after, on);
        assert(on(after[k]));
        let i = choose|i: int| 0 <= i < kept(after, on).len() && kept(after, on)[i] == after[k];
        assert(active_labels(after)[i] == after[k].row);
    }
}

} // verus!
