//! Laws of writing to the tables, and of the requests that write.

use vstd::prelude::*;

verus! {

use crate::db::{
    accounts_after, active_accounts, businesses_written, has_tag, is_label_of, is_named, is_orphan,
    is_provider, is_rule, is_same_account, is_same_transaction, labels_after, providers_after,
    rules_written, subscriptions_after, transactions_after, Account, AlertRule, Business,
    ProviderRow, StoredLabel, SubscriptionRecord, Transaction,
};
use crate::error::Result;
use crate::feed::{page_applied, taken, transactions_fed, withdrawn};
use crate::handler::{
    account_named, account_written, amount_of, business_id_of, business_written, is_account_named,
    is_ack, is_confirmation, is_manual_account, is_manual_provider, is_manual_transaction,
    is_obligation, is_subscription_update, label_written, provider_written, rule_written,
    snapshot_written, subscription_updated, subscription_written, transaction_written, trimmed_name,
    Tables,
};
use crate::ids::{AccountId, BusinessId, ProviderId, TransactionId};
use crate::order::{first_index, lemma_first_index_is_first, lemma_kept_is_filter};
use crate::recurring::normalized;
use crate::rpc::Response;
use crate::text::{opt_text, trimmed};

/// Whether an item is the first with a property.
pub open spec fn is_first<T>(rows: Seq<T>, p: spec_fn(T) -> bool, k: int) -> bool {
    &&& 0 <= k < rows.len()
    &&& p(rows[k])
    &&& forall|j: int| 0 <= j < k ==> !p(#[trigger] rows[j])
}

/// Whether one row of a table has changed, and no other.
pub open spec fn only_changed<T>(before: Seq<T>, after: Seq<T>, k: int) -> bool {
    &&& after.len() == before.len()
    &&& 0 <= k < before.len()
    &&& forall|j: int| 0 <= j < before.len() && j != k ==> #[trigger] after[j] == before[j]
}

/// Whether one row was added behind the others.
pub open spec fn only_added<T>(before: Seq<T>, after: Seq<T>) -> bool {
    &&& after.len() == before.len() + 1
    &&& forall|j: int| 0 <= j < before.len() ==> #[trigger] after[j] == before[j]
}

proof fn lemma_slot<T>(rows: Seq<T>, slot: spec_fn(T) -> bool, p: spec_fn(T) -> bool)
    requires
        forall|x: T| slot(x) == #[trigger] p(x),
    ensures
        forall|k: int| #[trigger] is_first(rows, p, k) ==> first_index(rows, slot) == k,
        (forall|j: int| 0 <= j < rows.len() ==> !p(#[trigger] rows[j])) ==> first_index(rows, slot)
            == rows.len(),
        first_index(rows, slot) < rows.len() ==> is_first(rows, p, first_index(rows, slot)),
{
    lemma_first_index_is_first(rows, slot);
    let n = first_index(rows, slot);
    assert forall|j: int| 0 <= j < n implies !p(#[trigger] rows[j]) by {
        assert(!slot(rows[j]));
    }
    if n < rows.len() {
        assert(slot(rows[n]));
        assert(p(rows[n]));
    }
    assert forall|k: int| #[trigger] is_first(rows, p, k) implies n == k by {
        if k < n {
            assert(!p(rows[k]));
        } else if n < k {
            assert(!p(rows[n]));
        }
    }
}

// ---------------------------------------------------------------------------
// Accounts
// ---------------------------------------------------------------------------

/// Whether a stored account is the one that is written: the same account of the same provider
/// where the written one names both, and else the one of that name.
pub open spec fn same_account(row: Account, a: Account) -> bool {
    if a.provider_id is Some && a.external_id is Some {
        row.provider_id == a.provider_id && row.external_id is Some && row.external_id->0@
            == a.external_id->0@
    } else {
        row.name@ == a.name@
    }
}

/// Whether a stored account holds all that was written.
pub open spec fn holds_account(row: Account, a: Account) -> bool {
    &&& row.name == a.name
    &&& row.kind == a.kind
    &&& row.asset_class == a.asset_class
    &&& row.tier == a.tier
    &&& row.currency == a.currency
    &&& row.provider_id == a.provider_id
    &&& row.business_id == a.business_id
    &&& row.external_id == a.external_id
    &&& row.active == a.active
}

/// Writing an account changes the row that is stored for it, which keeps its id, or adds one
/// with the new id; no other row changes.
pub proof fn law_account_write(rows: Seq<Account>, a: Account, fresh: AccountId, k: int)
    ensures
        is_first(rows, |row: Account| same_account(row, a), k) ==> {
            let after = accounts_after(rows, a, fresh);
            only_changed(rows, after, k) && holds_account(after[k], a) && after[k].id == rows[k].id
        },
        (forall|j: int| 0 <= j < rows.len() ==> !same_account(#[trigger] rows[j], a)) ==> {
            let after = accounts_after(rows, a, fresh);
            only_added(rows, after) && holds_account(after.last(), a) && after.last().id == Some(
                fresh,
            )
        },
{
    let p = |row: Account| is_same_account(row, a);
    let q = |row: Account| same_account(row, a);
    assert forall|x: Account| p(x) == #[trigger] q(x) by {}
    lemma_slot(rows, p, q);
    if forall|j: int| 0 <= j < rows.len() ==> !same_account(#[trigger] rows[j], a) {
        assert(forall|j: int| 0 <= j < rows.len() ==> !q(#[trigger] rows[j]));
    }
}

// ---------------------------------------------------------------------------
// Transactions
// ---------------------------------------------------------------------------

/// Whether a stored transaction is the one that is written: it stands on the same account under
/// the same outside id.
pub open spec fn same_transaction(row: Transaction, t: Transaction) -> bool {
    &&& t.external_id is Some
    &&& row.account_id == t.account_id
    &&& row.external_id is Some
    &&& row.external_id->0@ == t.external_id->0@
}

/// Whether a stored transaction holds all that was written.
pub open spec fn holds_transaction(row: Transaction, t: Transaction) -> bool {
    &&& row.account_id == t.account_id
    &&& row.posted_at == t.posted_at
    &&& row.amount_cents == t.amount_cents
    &&& row.currency == t.currency
    &&& row.description == t.description
    &&& row.category == t.category
    &&& row.tag == t.tag
    &&& row.business_id == t.business_id
    &&& opt_text(row.external_id) == opt_text(t.external_id)
    &&& row.source == t.source
}

/// Writing a transaction changes the row that is stored for it, which keeps its id, or adds one
/// with the new id; no other row changes. One without an outside id is always added.
pub proof fn law_transaction_write(
    rows: Seq<Transaction>,
    t: Transaction,
    fresh: TransactionId,
    k: int,
)
    ensures
        is_first(rows, |row: Transaction| same_transaction(row, t), k) ==> {
            let after = transactions_after(rows, t, fresh);
            only_changed(rows, after, k) && holds_transaction(after[k], t) && after[k].id
                == rows[k].id
        },
        (forall|j: int| 0 <= j < rows.len() ==> !same_transaction(#[trigger] rows[j], t)) ==> {
            let after = transactions_after(rows, t, fresh);
            only_added(rows, after) && holds_transaction(after.last(), t) && after.last().id == Some(
                fresh,
            )
        },
        t.external_id is None ==> only_added(rows, transactions_after(rows, t, fresh)),
{
    let p = |row: Transaction| is_same_transaction(row, t);
    let q = |row: Transaction| same_transaction(row, t);
    assert forall|x: Transaction| p(x) == #[trigger] q(x) by {}
    lemma_slot(rows, p, q);
    if forall|j: int| 0 <= j < rows.len() ==> !same_transaction(#[trigger] rows[j], t) {
        assert(forall|j: int| 0 <= j < rows.len() ==> !q(#[trigger] rows[j]));
    }
    if t.external_id is None {
        assert(forall|j: int| 0 <= j < rows.len() ==> !q(#[trigger] rows[j]));
    }
}

/// Withdrawing takes out exactly the transactions whose outside id is among those withdrawn.
pub proof fn law_withdrawn(rows: Seq<Transaction>, removed: Seq<Seq<char>>)
    ensures
        withdrawn(rows, removed) == rows.filter(
            |t: Transaction| !(t.external_id is Some && removed.contains(t.external_id->0@)),
        ),
    decreases removed.len(),
{
    let p = |t: Transaction| !(t.external_id is Some && removed.contains(t.external_id->0@));
    if removed.len() == 0 {
        assert forall|t: Transaction| #[trigger] p(t) by {}
        lemma_filter_all(rows, p);
    } else {
        let d = removed.drop_last();
        let x = removed.last();
        law_withdrawn(rows, d);
        let a = |t: Transaction| !(t.external_id is Some && d.contains(t.external_id->0@));
        let b = |t: Transaction| opt_text(t.external_id) != Some(x);
        lemma_kept_is_filter(rows.filter(a), b);
        assert forall|t: Transaction| #[trigger] p(t) == (a(t) && b(t)) by {
            if t.external_id is Some {
                let e = t.external_id->0@;
                if removed.contains(e) {
                    let i = choose|i: int| 0 <= i < removed.len() && removed[i] == e;
                    if i < d.len() {
                        assert(d[i] == e);
                        assert(d.contains(e));
                    }
                }
                if d.contains(e) {
                    let i = choose|i: int| 0 <= i < d.len() && d[i] == e;
                    assert(removed[i] == e);
                }
                if e == x {
                    assert(removed[removed.len() - 1] == e);
                }
            }
        }
        lemma_filters(rows, a, b, p);
    }
}

proof fn lemma_filter_all(s: Seq<Transaction>, p: spec_fn(Transaction) -> bool)
    requires
        forall|t: Transaction| #[trigger] p(t),
    ensures
        s.filter(p) == s,
    decreases s.len(),
{
    reveal(Seq::filter);
    if s.len() > 0 {
        lemma_filter_all(s.drop_last(), p);
        assert(p(s.last()));
        assert(s.drop_last().push(s.last()) =~= s);
    }
}

proof fn lemma_filters(
    s: Seq<Transaction>,
    a: spec_fn(Transaction) -> bool,
    b: spec_fn(Transaction) -> bool,
    p: spec_fn(Transaction) -> bool,
)
    requires
        forall|t: Transaction| #[trigger] p(t) == (a(t) && b(t)),
    ensures
        s.filter(a).filter(b) == s.filter(p),
    decreases s.len(),
{
    reveal(Seq::filter);
    if s.len() > 0 {
        let d = s.drop_last();
        lemma_filters(d, a, b, p);
        let t = s.last();
        assert(p(t) == (a(t) && b(t)));
        if a(t) {
            assert(d.filter(a).push(t).drop_last() =~= d.filter(a));
        }
    }
}

// ---------------------------------------------------------------------------
// Subscriptions, providers, businesses, rules and labels
// ---------------------------------------------------------------------------

/// Writing a subscription gives every row of its name the new terms; each keeps its id, its
/// account, and its business where none is named. Where no row has the name one is added.
pub proof fn law_subscription_write(rows: Seq<SubscriptionRecord>, w: SubscriptionRecord, i: int)
    ensures
        (exists|j: int| 0 <= j < rows.len() && (#[trigger] rows[j]).name@ == w.name@) ==> {
            let after = subscriptions_after(rows, w);
            &&& after.len() == rows.len()
            &&& 0 <= i < rows.len() && rows[i].name@ != w.name@ ==> after[i] == rows[i]
            &&& 0 <= i < rows.len() && rows[i].name@ == w.name@ ==> {
                &&& after[i].id == rows[i].id
                &&& after[i].name@ == w.name@
                &&& after[i].provider_kind == w.provider_kind
                &&& after[i].amount_cents == w.amount_cents
                &&& after[i].cadence == w.cadence
                &&& after[i].next_charge_at == w.next_charge_at
                &&& after[i].account_id == rows[i].account_id
                &&& after[i].active == w.active
                &&& w.business_id is Some ==> after[i].business_id == w.business_id
                &&& w.business_id is None ==> after[i].business_id == rows[i].business_id
            }
        },
        (forall|j: int| 0 <= j < rows.len() ==> (#[trigger] rows[j]).name@ != w.name@) ==> only_added(
            rows,
            subscriptions_after(rows, w),
        ) && subscriptions_after(rows, w).last() == w,
{
    if exists|j: int| 0 <= j < rows.len() && (#[trigger] rows[j]).name@ == w.name@ {
        let j = choose|j: int| 0 <= j < rows.len() && (#[trigger] rows[j]).name@ == w.name@;
        assert(is_named(rows[j], w.name@));
    }
}

/// Writing a provider changes its settings where it is stored, and nothing of when and how it was
/// last polled; where it is not, it is added as one that never was.
pub proof fn law_provider_write(rows: Seq<ProviderRow>, w: ProviderRow, fresh: ProviderId, k: int)
    ensures
        is_first(rows, |p: ProviderRow| p.kind@ == w.kind@ && p.label@ == w.label@, k) ==> {
            let after = providers_after(rows, w, fresh);
            &&& only_changed(rows, after, k)
            &&& after[k].id == rows[k].id
            &&& after[k].kind@ == w.kind@
            &&& after[k].label@ == w.label@
            &&& after[k].config_json == w.config_json
            &&& after[k].secret_ref == w.secret_ref
            &&& after[k].poll_cadence == w.poll_cadence
            &&& after[k].last_poll_at == rows[k].last_poll_at
            &&& after[k].last_status == rows[k].last_status
        },
        (forall|j: int|
            0 <= j < rows.len() ==> !((#[trigger] rows[j]).kind@ == w.kind@ && rows[j].label@
                == w.label@)) ==> {
            let after = providers_after(rows, w, fresh);
            &&& only_added(rows, after)
            &&& after.last().id == fresh
            &&& after.last().kind == w.kind
            &&& after.last().label == w.label
            &&& after.last().config_json == w.config_json
            &&& after.last().secret_ref == w.secret_ref
            &&& after.last().poll_cadence == w.poll_cadence
            &&& after.last().last_poll_at is None
            &&& after.last().last_status is None
        },
{
    let p = |x: ProviderRow| is_provider(x, w.kind@, w.label@);
    let q = |x: ProviderRow| x.kind@ == w.kind@ && x.label@ == w.label@;
    assert forall|x: ProviderRow| p(x) == #[trigger] q(x) by {}
    lemma_slot(rows, p, q);
    if forall|j: int|
        0 <= j < rows.len() ==> !((#[trigger] rows[j]).kind@ == w.kind@ && rows[j].label@ == w.label@) {
        assert(forall|j: int| 0 <= j < rows.len() ==> !q(#[trigger] rows[j]));
    }
}

/// Writing a business changes only what is named: its name to show, and whether it is switched
/// on. A new one is shown under its tag and switched on unless it says otherwise.
pub proof fn law_business_write(
    after: Seq<Business>,
    before: Seq<Business>,
    tag: Seq<char>,
    display_name: Option<Seq<char>>,
    active: Option<bool>,
    fresh: BusinessId,
    k: int,
)
    requires
        businesses_written(after, before, tag, display_name, active, fresh),
    ensures
        is_first(before, |b: Business| b.tag@ == tag, k) ==> {
            &&& only_changed(before, after, k)
            &&& after[k].id == before[k].id
            &&& after[k].tag@ == tag
            &&& display_name is None ==> after[k].display_name@ == before[k].display_name@
            &&& display_name is Some ==> after[k].display_name@ == display_name->0
            &&& active is None ==> after[k].active == before[k].active
            &&& active is Some ==> after[k].active == active->0
        },
        (forall|j: int| 0 <= j < before.len() ==> (#[trigger] before[j]).tag@ != tag) ==> {
            &&& only_added(before, after)
            &&& after.last().id == fresh
            &&& after.last().tag@ == tag
            &&& display_name is None ==> after.last().display_name@ == tag
            &&& display_name is Some ==> after.last().display_name@ == display_name->0
            &&& active is None ==> after.last().active
            &&& active is Some ==> after.last().active == active->0
        },
{
    let p = |b: Business| has_tag(b, tag);
    let q = |b: Business| b.tag@ == tag;
    assert forall|x: Business| p(x) == #[trigger] q(x) by {}
    lemma_slot(before, p, q);
    if forall|j: int| 0 <= j < before.len() ==> (#[trigger] before[j]).tag@ != tag {
        assert(forall|j: int| 0 <= j < before.len() ==> !q(#[trigger] before[j]));
    }
}

/// Writing a rule replaces the one of its name, which keeps its id, or adds it.
pub proof fn law_rule_write(
    after: Seq<AlertRule>,
    before: Seq<AlertRule>,
    name: Seq<char>,
    rule_json: Seq<char>,
    channel: Seq<char>,
    active: bool,
    fresh: i64,
    k: int,
)
    requires
        rules_written(after, before, name, rule_json, channel, active, fresh),
    ensures
        is_first(before, |r: AlertRule| r.name@ == name, k) ==> {
            &&& only_changed(before, after, k)
            &&& after[k].id == before[k].id
            &&& after[k].name@ == name
            &&& after[k].rule_json@ == rule_json
            &&& after[k].channel@ == channel
            &&& after[k].active == active
        },
        (forall|j: int| 0 <= j < before.len() ==> (#[trigger] before[j]).name@ != name) ==> {
            &&& only_added(before, after)
            &&& after.last().id == fresh
            &&& after.last().name@ == name
            &&& after.last().rule_json@ == rule_json
            &&& after.last().channel@ == channel
            &&& after.last().active == active
        },
{
    let p = |r: AlertRule| is_rule(r, name);
    let q = |r: AlertRule| r.name@ == name;
    assert forall|x: AlertRule| p(x) == #[trigger] q(x) by {}
    lemma_slot(before, p, q);
    if forall|j: int| 0 <= j < before.len() ==> (#[trigger] before[j]).name@ != name {
        assert(forall|j: int| 0 <= j < before.len() ==> !q(#[trigger] before[j]));
    }
}

/// Writing a label changes only what is named, and the instant at which it was confirmed; one
/// that is not stored yet is added as it is.
pub proof fn law_label_write(rows: Seq<StoredLabel>, w: StoredLabel, k: int)
    ensures
        is_first(rows, |l: StoredLabel| l.row.match_key@ == w.row.match_key@, k) ==> {
            let after = labels_after(rows, w);
            &&& only_changed(rows, after, k)
            &&& after[k].row.match_key@ == w.row.match_key@
            &&& w.row.label is Some ==> after[k].row.label == w.row.label
            &&& w.row.label is None ==> after[k].row.label == rows[k].row.label
            &&& w.row.display_name is Some ==> after[k].row.display_name == w.row.display_name
            &&& w.row.display_name is None ==> after[k].row.display_name == rows[k].row.display_name
            &&& w.row.business_id is Some ==> after[k].row.business_id == w.row.business_id
            &&& w.row.business_id is None ==> after[k].row.business_id == rows[k].row.business_id
            &&& after[k].row.confirmed_at == w.row.confirmed_at
            &&& after[k].active == w.active
        },
        (forall|j: int| 0 <= j < rows.len() ==> (#[trigger] rows[j]).row.match_key@ != w.row.match_key@)
            ==> only_added(rows, labels_after(rows, w)) && labels_after(rows, w).last() == w,
{
    let p = |l: StoredLabel| is_label_of(l, w.row.match_key@);
    let q = |l: StoredLabel| l.row.match_key@ == w.row.match_key@;
    assert forall|x: StoredLabel| p(x) == #[trigger] q(x) by {}
    lemma_slot(rows, p, q);
    if forall|j: int|
        0 <= j < rows.len() ==> (#[trigger] rows[j]).row.match_key@ != w.row.match_key@ {
        assert(forall|j: int| 0 <= j < rows.len() ==> !q(#[trigger] rows[j]));
    }
}

// ---------------------------------------------------------------------------
// Requests
// ---------------------------------------------------------------------------

/// Whether an id is that of the first account that is switched on and has a name.
pub open spec fn is_id_of(t: Tables, name: Seq<char>, id: AccountId) -> bool {
    exists|k: int| #[trigger]
        is_first_named(active_accounts(t.accounts@), name, k) && active_accounts(t.accounts@)[k].id
            == Some(id)
}

/// Whether an account is the first of a name.
pub open spec fn is_first_named(accounts: Seq<Account>, name: Seq<char>, k: int) -> bool {
    is_first(accounts, |a: Account| a.name@ == name, k)
}

/// Whether a business is the first of a tag.
pub open spec fn is_first_tagged(bs: Seq<Business>, tag: Seq<char>, k: int) -> bool {
    is_first(bs, |b: Business| b.tag@ == tag, k)
}

proof fn lemma_account_named(t: Tables, name: Seq<char>)
    ensures
        account_named(t, name) is Some ==> is_id_of(t, name, account_named(t, name)->0),
        forall|id: AccountId| #[trigger]
            is_id_of(t, name, id) ==> account_named(t, name) == Some(id),
{
    let on = active_accounts(t.accounts@);
    let p = |a: Account| is_account_named(a, name);
    let q = |a: Account| a.name@ == name;
    assert forall|x: Account| p(x) == #[trigger] q(x) by {}
    lemma_slot(on, p, q);
    lemma_first_index_is_first(on, p);
    let n = first_index(on, p);
    if n < on.len() {
        assert(is_first(on, q, n));
        assert(is_first_named(on, name, n));
    }
    assert forall|id: AccountId| #[trigger] is_id_of(t, name, id) implies account_named(t, name)
        == Some(id) by {
        let k = choose|k: int| #[trigger] is_first_named(on, name, k) && on[k].id == Some(id);
        assert(is_first(on, q, k));
    }
}

/// Whether the business of a tag is the first that carries it; without a tag there is none.
pub open spec fn is_business_of(t: Tables, tag: Option<String>, id: Option<BusinessId>) -> bool {
    match tag {
        Some(x) => exists|k: int| #[trigger]
            is_first_tagged(t.businesses@, x@, k) && id == Some(t.businesses@[k].id),
        None => id is None,
    }
}

proof fn lemma_business_of(t: Tables, tag: Option<String>)
    requires
        !crate::handler::tag_unknown(t, tag),
    ensures
        is_business_of(t, tag, business_id_of(t, tag)),
{
    if tag is Some {
        let p = |b: Business| has_tag(b, tag->0@);
        let q = |b: Business| b.tag@ == tag->0@;
        assert forall|x: Business| p(x) == #[trigger] q(x) by {}
        lemma_slot(t.businesses@, p, q);
        lemma_first_index_is_first(t.businesses@, p);
        let k = crate::db::business_slot(t.businesses@, tag->0@);
        assert(is_first(t.businesses@, q, k));
        assert(is_first_tagged(t.businesses@, tag->0@, k));
    }
}

/// Whether a stored transaction is what was typed in.
pub open spec fn is_typed_in(
    x: Transaction,
    account: AccountId,
    posted_at: i64,
    amount: i64,
    description: Option<String>,
    tag: Option<String>,
    external_id: Option<String>,
) -> bool {
    &&& x.account_id == account
    &&& x.posted_at == posted_at
    &&& x.amount_cents.0 == amount
    &&& x.currency@ == "USD"@
    &&& x.description == description
    &&& x.category is None
    &&& x.tag == tag
    &&& opt_text(x.external_id) == opt_text(external_id)
    &&& x.source@ == "manual"@
}

/// A transaction that was typed in and taken stands in the table, on the account of that name
/// and with the amount that was read; nothing else changes.
pub proof fn law_typed_transaction(
    r: Result<Response>,
    before: Tables,
    after: Tables,
    account_name: String,
    posted_at: i64,
    amount: String,
    description: Option<String>,
    tag: Option<String>,
    business_tag: Option<String>,
    external_id: Option<String>,
    fresh: i64,
)
    requires
        transaction_written(
            r,
            before,
            after,
            account_name,
            posted_at,
            amount,
            description,
            tag,
            business_tag,
            external_id,
            fresh,
        ),
        r is Ok,
    ensures
        after == (Tables { transactions: after.transactions, ..before }),
        exists|k: int, account: AccountId|
            0 <= k < after.transactions@.len() && #[trigger] is_id_of(before, account_name@, account)
                && is_typed_in(
                #[trigger] after.transactions@[k],
                account,
                posted_at,
                amount_of(amount@)->0,
                description,
                tag,
                external_id,
            ) && is_business_of(before, business_tag, after.transactions@[k].business_id) && (forall|
                j: int,
            |
                0 <= j < before.transactions@.len() && j != k ==> #[trigger] after.transactions@[j]
                    == before.transactions@[j]),
        exists|account: AccountId| #[trigger] is_id_of(before, account_name@, account),
        amount_of(amount@) is Some,
{
    lemma_account_named(before, account_name@);
    lemma_business_of(before, business_tag);
    let account = account_named(before, account_name@)->0;
    let x = choose|x: Transaction| #[trigger]
        is_manual_transaction(
            x,
            account,
            posted_at,
            amount_of(amount@)->0,
            description,
            tag,
            business_id_of(before, business_tag),
            external_id,
        ) && after.transactions@ == transactions_after(
            before.transactions@,
            x,
            TransactionId(fresh),
        );
    let rows = before.transactions@;
    let q = |row: Transaction| same_transaction(row, x);
    let p = |row: Transaction| is_same_transaction(row, x);
    assert forall|y: Transaction| p(y) == #[trigger] q(y) by {}
    lemma_slot(rows, p, q);
    lemma_first_index_is_first(rows, p);
    let k = first_index(rows, p);
    law_transaction_write(rows, x, TransactionId(fresh), k);
    if k == rows.len() {
        assert forall|j: int| 0 <= j < rows.len() implies !same_transaction(#[trigger] rows[j], x) by {
            assert(!p(rows[j]));
        }
    } else {
        assert(is_first(rows, q, k));
    }
    assert(is_typed_in(
        after.transactions@[k],
        account,
        posted_at,
        amount_of(amount@)->0,
        description,
        tag,
        external_id,
    ));
    assert(is_id_of(before, account_name@, account));
}

/// A balance that was typed in and taken is the last reading in the table, on the account of
/// that name, taken now and with the amount that was read; the readings before it stay.
pub proof fn law_typed_balance(
    r: Result<Response>,
    before: Tables,
    after: Tables,
    account_name: String,
    amount: String,
    now: i64,
    fresh: i64,
)
    requires
        snapshot_written(r, before, after, account_name, amount, now, fresh),
        r is Ok,
    ensures
        after == (Tables { snapshots: after.snapshots, ..before }),
        only_added(before.snapshots@, after.snapshots@),
        is_id_of(before, account_name@, after.snapshots@.last().account_id),
        after.snapshots@.last().taken_at == now,
        amount_of(amount@) == Some(after.snapshots@.last().amount_cents.0),
{
    lemma_account_named(before, account_name@);
}

/// An obligation that was typed in is refused unless it is an outflow and has a name and a
/// cadence; one that is taken is stored as a recurring one with those terms.
pub proof fn law_typed_obligation(
    r: Result<Response>,
    before: Tables,
    after: Tables,
    name: String,
    amount: String,
    cadence: String,
    next_charge_at: i64,
    business_tag: Option<String>,
    active: Option<bool>,
    fresh: i64,
    i: int,
)
    requires
        subscription_written(
            r,
            before,
            after,
            name,
            amount,
            cadence,
            next_charge_at,
            business_tag,
            active,
            fresh,
        ),
        is_ack(r),
    ensures
        trimmed(name@).len() > 0,
        trimmed(cadence@).len() > 0,
        amount_of(amount@) is Some && amount_of(amount@)->0 < 0,
        after == (Tables { subscriptions: after.subscriptions, ..before }),
        exists|j: int|
            0 <= j < after.subscriptions@.len() && (#[trigger] after.subscriptions@[j]).name@
                == trimmed(name@),
        0 <= i < after.subscriptions@.len() && after.subscriptions@[i].name@ == trimmed(name@) ==> {
            let s = after.subscriptions@[i];
            &&& s.provider_kind@ == "recurring"@
            &&& s.amount_cents is Some && Some((s.amount_cents->0).0) == amount_of(amount@)
            &&& s.cadence is Some && s.cadence->0@ == trimmed(cadence@)
            &&& s.next_charge_at == Some(next_charge_at)
            &&& s.active == (active is None || active->0)
        },
        0 <= i < before.subscriptions@.len() && before.subscriptions@[i].name@ != trimmed(name@)
            ==> after.subscriptions@[i] == before.subscriptions@[i],
{
    let rows = before.subscriptions@;
    let w = choose|w: SubscriptionRecord| #[trigger]
        is_obligation(
            w,
            trimmed(name@),
            amount_of(amount@)->0,
            trimmed(cadence@),
            next_charge_at,
            business_id_of(before, business_tag),
            active,
            fresh,
        ) && after.subscriptions@ == subscriptions_after(rows, w);
    law_subscription_write(rows, w, i);
    if exists|j: int| 0 <= j < rows.len() && (#[trigger] rows[j]).name@ == w.name@ {
        let j = choose|j: int| 0 <= j < rows.len() && (#[trigger] rows[j]).name@ == w.name@;
        law_subscription_write(rows, w, j);
        assert(after.subscriptions@[j].name@ == trimmed(name@));
    } else {
        assert(after.subscriptions@[rows.len() as int].name@ == trimmed(name@));
    }
}

/// A change of a subscription that is taken gives the rows of that name the new name and switches
/// them on or off, as far as it says so; their terms stay.
pub proof fn law_subscription_change(
    r: Result<Response>,
    before: Tables,
    after: Tables,
    name: String,
    new_name: Option<String>,
    active: Option<bool>,
    i: int,
)
    requires
        subscription_updated(r, before, after, name, new_name, active),
        is_ack(r),
        0 <= i < before.subscriptions@.len(),
    ensures
        after.subscriptions@.len() == before.subscriptions@.len(),
        ({
            let (a, b) = (before.subscriptions@[i], after.subscriptions@[i]);
            &&& b.id == a.id
            &&& b.provider_kind == a.provider_kind
            &&& b.amount_cents == a.amount_cents
            &&& b.cadence == a.cadence
            &&& b.next_charge_at == a.next_charge_at
            &&& b.account_id == a.account_id
            &&& b.business_id == a.business_id
            &&& a.name@ == trimmed(name@) && new_name is Some ==> b.name@ == trimmed(new_name->0@)
            &&& a.name@ == trimmed(name@) && new_name is None ==> b.name@ == a.name@
            &&& a.name@ == trimmed(name@) && active is Some ==> b.active == active->0
            &&& active is None ==> b.active == a.active
            &&& a.name@ != trimmed(name@) ==> b.name@ == a.name@
            &&& a.name@ != trimmed(name@) && (new_name is Some ==> a.name@ != trimmed(
                new_name->0@,
            )) ==> b == a
        }),
{
    let renamed = choose|renamed: Seq<SubscriptionRecord>| #[trigger]
        is_subscription_update(
            r,
            before.subscriptions@,
            renamed,
            after.subscriptions@,
            trimmed(name@),
            trimmed_name(new_name),
            active,
        );
    if new_name is Some {
        assert(if is_named(before.subscriptions@[i], trimmed(name@)) {
            crate::db::is_renamed(renamed[i], before.subscriptions@[i], trimmed(new_name->0@))
        } else {
            renamed[i] == before.subscriptions@[i]
        });
    }
}

/// A confirmed series is filed under the key of what was typed in, with the label and the name
/// that were given; what was not given stays.
pub proof fn law_confirmation(
    r: Result<Response>,
    before: Tables,
    after: Tables,
    match_key: String,
    label: Option<String>,
    display_name: Option<String>,
    business_tag: Option<String>,
    active: Option<bool>,
    now: i64,
    k: int,
)
    requires
        label_written(
            r,
            before,
            after,
            match_key,
            label,
            display_name,
            business_tag,
            active,
            now,
        ),
        is_ack(r),
    ensures
        label is Some ==> label->0@ == "sub"@ || label->0@ == "bill"@ || label->0@ == "debt"@
            || label->0@ == "ignore"@,
        is_first(before.labels@, |l: StoredLabel| l.row.match_key@ == normalized(match_key@), k) ==> {
            let (a, b) = (before.labels@[k], after.labels@[k]);
            &&& only_changed(before.labels@, after.labels@, k)
            &&& label is Some ==> opt_text(b.row.label) == Some(label->0@)
            &&& label is None ==> b.row.label == a.row.label
            &&& display_name is Some ==> b.row.display_name == display_name
            &&& display_name is None ==> b.row.display_name == a.row.display_name
            &&& b.row.confirmed_at == now
            &&& b.active == (active is None || active->0)
        },
        (forall|j: int|
            0 <= j < before.labels@.len() ==> (#[trigger] before.labels@[j]).row.match_key@ != normalized(
                match_key@,
            )) ==> {
            let b = after.labels@.last();
            &&& only_added(before.labels@, after.labels@)
            &&& b.row.match_key@ == normalized(match_key@)
            &&& opt_text(b.row.label) == opt_text(label)
            &&& b.row.display_name == display_name
            &&& b.row.confirmed_at == now
            &&& b.active == (active is None || active->0)
        },
{
    if label is Some {
        crate::recurring::law_label_words(crate::handler::asked_label(label)->0, label->0@);
    }
    let w = choose|w: StoredLabel| #[trigger]
        is_confirmation(
            w,
            normalized(match_key@),
            crate::handler::asked_label(label),
            display_name,
            business_id_of(before, business_tag),
            active,
            now,
        ) && after.labels@ == labels_after(before.labels@, w);
    law_label_write(before.labels@, w, k);
    let p = |l: StoredLabel| l.row.match_key@ == normalized(match_key@);
    let q = |l: StoredLabel| l.row.match_key@ == w.row.match_key@;
    if is_first(before.labels@, p, k) {
        assert forall|j: int| 0 <= j < k implies !q(#[trigger] before.labels@[j]) by {
            assert(!p(before.labels@[j]));
        }
        assert(is_first(before.labels@, q, k));
    }
}

/// An account that was typed in and taken stands in the table under its name with what was given;
/// it is in dollars unless it says otherwise, no provider feeds it, and it is switched on.
pub proof fn law_typed_account(
    r: Result<Response>,
    before: Tables,
    after: Tables,
    name: String,
    kind: String,
    asset_class: Option<String>,
    tier: Option<String>,
    currency: Option<String>,
    business_tag: Option<String>,
    fresh: i64,
)
    requires
        account_written(
            r,
            before,
            after,
            name,
            kind,
            asset_class,
            tier,
            currency,
            business_tag,
            fresh,
        ),
        r is Ok,
    ensures
        after == (Tables { accounts: after.accounts, ..before }),
        exists|k: int|
            0 <= k < after.accounts@.len() && is_typed_account(
                #[trigger] after.accounts@[k],
                name@,
                kind@,
                asset_class,
                tier,
                currency,
            ) && is_business_of(before, business_tag, after.accounts@[k].business_id) && (forall|
                j: int,
            |
                0 <= j < before.accounts@.len() && j != k ==> #[trigger] after.accounts@[j]
                    == before.accounts@[j]),
{
    lemma_business_of(before, business_tag);
    let a = choose|a: Account| #[trigger]
        is_manual_account(
            a,
            name,
            kind,
            asset_class,
            tier,
            currency,
            business_id_of(before, business_tag),
        ) && after.accounts@ == accounts_after(before.accounts@, a, AccountId(fresh));
    let rows = before.accounts@;
    let p = |row: Account| is_same_account(row, a);
    let q = |row: Account| same_account(row, a);
    assert forall|y: Account| p(y) == #[trigger] q(y) by {}
    lemma_slot(rows, p, q);
    lemma_first_index_is_first(rows, p);
    let k = first_index(rows, p);
    law_account_write(rows, a, AccountId(fresh), k);
    if k == rows.len() {
        assert forall|j: int| 0 <= j < rows.len() implies !same_account(#[trigger] rows[j], a) by {
            assert(!p(rows[j]));
        }
    } else {
        assert(is_first(rows, q, k));
    }
    assert(is_typed_account(after.accounts@[k], name@, kind@, asset_class, tier, currency));
}

/// Whether a stored account is what was typed in.
pub open spec fn is_typed_account(
    a: Account,
    name: Seq<char>,
    kind: Seq<char>,
    asset_class: Option<String>,
    tier: Option<String>,
    currency: Option<String>,
) -> bool {
    &&& a.name@ == name
    &&& a.kind@ == kind
    &&& a.asset_class == asset_class
    &&& a.tier == tier
    &&& currency is Some ==> a.currency@ == currency->0@
    &&& currency is None ==> a.currency@ == "USD"@
    &&& a.provider_id is None
    &&& a.external_id is None
    &&& a.active
}

/// A provider that was typed in and taken is of a known kind and has settings that are an object;
/// it stands in the table with what was given, and is polled daily unless it says otherwise.
pub proof fn law_typed_provider(
    r: Result<Response>,
    before: Tables,
    after: Tables,
    kind: String,
    label: String,
    config_json: Option<String>,
    secret_ref: Option<String>,
    poll_cadence: Option<String>,
    fresh: i64,
)
    requires
        provider_written(
            r,
            before,
            after,
            kind,
            label,
            config_json,
            secret_ref,
            poll_cadence,
            fresh,
        ),
        is_ack(r),
    ensures
        crate::registry::is_known_kind(kind@),
        after == (Tables { providers: after.providers, ..before }),
        exists|k: int|
            0 <= k < after.providers@.len() && is_typed_provider(
                #[trigger] after.providers@[k],
                kind@,
                label@,
                config_json,
                secret_ref,
                poll_cadence,
            ) && (forall|j: int|
                0 <= j < before.providers@.len() && j != k ==> #[trigger] after.providers@[j]
                    == before.providers@[j]),
{
    let w = choose|w: ProviderRow| #[trigger]
        is_manual_provider(
            w,
            kind@,
            label@,
            crate::handler::config_of(config_json),
            secret_ref,
            poll_cadence,
        ) && after.providers@ == providers_after(before.providers@, w, ProviderId(fresh));
    let rows = before.providers@;
    let p = |x: ProviderRow| is_provider(x, w.kind@, w.label@);
    let q = |x: ProviderRow| x.kind@ == w.kind@ && x.label@ == w.label@;
    assert forall|y: ProviderRow| p(y) == #[trigger] q(y) by {}
    lemma_slot(rows, p, q);
    lemma_first_index_is_first(rows, p);
    let k = first_index(rows, p);
    law_provider_write(rows, w, ProviderId(fresh), k);
    if k == rows.len() {
        assert forall|j: int| 0 <= j < rows.len() implies !((#[trigger] rows[j]).kind@ == w.kind@
            && rows[j].label@ == w.label@) by {
            assert(!p(rows[j]));
        }
    } else {
        assert(is_first(rows, q, k));
    }
    assert(is_typed_provider(
        after.providers@[k],
        kind@,
        label@,
        config_json,
        secret_ref,
        poll_cadence,
    ));
}

/// Whether a stored provider has the settings that were typed in.
pub open spec fn is_typed_provider(
    p: ProviderRow,
    kind: Seq<char>,
    label: Seq<char>,
    config_json: Option<String>,
    secret_ref: Option<String>,
    poll_cadence: Option<String>,
) -> bool {
    &&& p.kind@ == kind
    &&& p.label@ == label
    &&& config_json is Some ==> p.config_json@ == config_json->0@
    &&& config_json is None ==> p.config_json@ == "{}"@
    &&& p.secret_ref == secret_ref
    &&& poll_cadence is Some ==> p.poll_cadence@ == poll_cadence->0@
    &&& poll_cadence is None ==> p.poll_cadence@ == "daily"@
}

/// A business that was typed in and taken is filed under its tag without the white space round
/// it, which is not empty.
pub proof fn law_typed_business(
    r: Result<Response>,
    before: Tables,
    after: Tables,
    tag: String,
    display_name: Option<String>,
    active: Option<bool>,
    fresh: i64,
)
    requires
        business_written(r, before, after, tag, display_name, active, fresh),
        is_ack(r),
    ensures
        trimmed(tag@).len() > 0,
        after == (Tables { businesses: after.businesses, ..before }),
        businesses_written(
            after.businesses@,
            before.businesses@,
            trimmed(tag@),
            opt_text(display_name),
            active,
            BusinessId(fresh),
        ),
{
}

/// A rule that was typed in and taken is sent over the channel that it names, or over the one for
/// chat, and is switched on unless it says otherwise.
pub proof fn law_typed_rule(
    r: Result<Response>,
    before: Tables,
    after: Tables,
    name: String,
    rule_json: String,
    channel: Option<String>,
    active: Option<bool>,
    fresh: i64,
    k: int,
)
    requires
        rule_written(r, before, after, name, rule_json, channel, active, fresh),
        is_ack(r),
    ensures
        after == (Tables { rules: after.rules, ..before }),
        is_first(before.rules@, |x: AlertRule| x.name@ == name@, k) ==> only_changed(
            before.rules@,
            after.rules@,
            k,
        ) && is_typed_rule(after.rules@[k], name@, rule_json@, channel, active),
        (forall|j: int| 0 <= j < before.rules@.len() ==> (#[trigger] before.rules@[j]).name@ != name@)
            ==> only_added(before.rules@, after.rules@) && is_typed_rule(
            after.rules@.last(),
            name@,
            rule_json@,
            channel,
            active,
        ),
{
    law_rule_write(
        after.rules@,
        before.rules@,
        name@,
        rule_json@,
        match channel {
            Some(c) => c@,
            None => "xmpp"@,
        },
        match active {
            Some(a) => a,
            None => true,
        },
        fresh,
        k,
    );
}

/// Whether a stored rule is what was typed in.
pub open spec fn is_typed_rule(
    x: AlertRule,
    name: Seq<char>,
    rule_json: Seq<char>,
    channel: Option<String>,
    active: Option<bool>,
) -> bool {
    &&& x.name@ == name
    &&& x.rule_json@ == rule_json
    &&& channel is Some ==> x.channel@ == channel->0@
    &&& channel is None ==> x.channel@ == "xmpp"@
    &&& x.active == (active is None || active->0)
}

/// Whether two transactions are the same to the feed: on one account under one outside id.
pub open spec fn same_key(a: Transaction, b: Transaction) -> bool {
    &&& a.account_id == b.account_id
    &&& a.external_id is Some
    &&& b.external_id is Some
    &&& a.external_id->0@ == b.external_id->0@
}

/// Whether some row holds a transaction.
pub open spec fn is_stored(rows: Seq<Transaction>, t: Transaction) -> bool {
    exists|n: int| 0 <= n < rows.len() && holds_transaction(#[trigger] rows[n], t)
}

/// A feed leaves every transaction of its list in the table as it was told last, and the rows
/// that it does not tell of as they were.
pub proof fn law_fed(
    rows: Seq<Transaction>,
    list: Seq<Transaction>,
    fresh: Seq<TransactionId>,
    i: int,
    k: int,
)
    requires
        list.len() == fresh.len(),
    ensures
        0 <= i < list.len() && list[i].external_id is Some && (forall|j: int|
            i < j < list.len() ==> !same_key(#[trigger] list[j], list[i])) ==> is_stored(
            transactions_fed(rows, list, fresh),
            list[i],
        ),
        transactions_fed(rows, list, fresh).len() >= rows.len(),
        0 <= k < rows.len() && (forall|j: int|
            0 <= j < list.len() ==> !same_key(#[trigger] list[j], rows[k])) ==> transactions_fed(
            rows,
            list,
            fresh,
        )[k] == rows[k],
    decreases list.len(),
{
    if list.len() > 0 {
        let m = list.len() - 1;
        let (l, f) = (list.drop_last(), fresh.drop_last());
        law_fed(rows, l, f, i, k);
        let before = transactions_fed(rows, l, f);
        let t = list[m];
        let after = transactions_after(before, t, fresh[m]);
        assert(after == transactions_fed(rows, list, fresh));
        let p = |row: Transaction| is_same_transaction(row, t);
        let q = |row: Transaction| same_transaction(row, t);
        assert forall|y: Transaction| p(y) == #[trigger] q(y) by {}
        lemma_slot(before, p, q);
        lemma_first_index_is_first(before, p);
        let s = first_index(before, p);
        law_transaction_write(before, t, fresh[m], s);
        if s == before.len() {
            assert forall|j: int| 0 <= j < before.len() implies !same_transaction(
                #[trigger] before[j],
                t,
            ) by {
                assert(!p(before[j]));
            }
        } else {
            assert(is_first(before, q, s));
        }
        if 0 <= i < list.len() && list[i].external_id is Some && (forall|j: int|
            i < j < list.len() ==> !same_key(#[trigger] list[j], list[i])) {
            if i == m {
                assert(holds_transaction(after[s], list[i]));
            } else {
                assert forall|j: int| i < j < l.len() implies !same_key(#[trigger] l[j], l[i]) by {
                    assert(!same_key(list[j], list[i]));
                }
                let n = choose|n: int|
                    0 <= n < before.len() && holds_transaction(#[trigger] before[n], l[i]);
                assert(!same_key(list[m], list[i]));
                assert(n != s);
                assert(after[n] == before[n]);
                assert(holds_transaction(after[n], list[i]));
            }
        }
        if 0 <= k < rows.len() && (forall|j: int|
            0 <= j < list.len() ==> !same_key(#[trigger] list[j], rows[k])) {
            assert forall|j: int| 0 <= j < l.len() implies !same_key(#[trigger] l[j], rows[k]) by {
                assert(!same_key(list[j], rows[k]));
            }
            assert(!same_key(list[m], rows[k]));
            assert(s != k);
        }
    }
}

/// After a page nothing that it withdraws is left, whether it was stored before or came with the
/// page itself; all else that the page wrote stays.
pub proof fn law_page(
    rows: Seq<Transaction>,
    list: Seq<Transaction>,
    fresh: Seq<TransactionId>,
    removed: Seq<Seq<char>>,
)
    ensures
        page_applied(rows, list, fresh, removed) == transactions_fed(rows, list, fresh).filter(
            |t: Transaction| !(t.external_id is Some && removed.contains(t.external_id->0@)),
        ),
{
    law_withdrawn(transactions_fed(rows, list, fresh), removed);
}

/// A feed is taken up to the first transaction that would have no account, and no further.
pub proof fn law_taken(
    accounts: Seq<Account>,
    rows: Seq<Transaction>,
    list: Seq<Transaction>,
    fresh: Seq<TransactionId>,
    i: int,
)
    requires
        list.len() == fresh.len(),
    ensures
        taken(accounts, rows, list, fresh) <= list.len(),
        0 <= i < taken(accounts, rows, list, fresh) ==> !is_orphan(
            accounts,
            transactions_fed(rows, list.take(i), fresh.take(i)),
            list[i],
        ),
        i == taken(accounts, rows, list, fresh) && i < list.len() ==> is_orphan(
            accounts,
            transactions_fed(rows, list.take(i), fresh.take(i)),
            list[i],
        ),
    decreases list.len(),
{
    if list.len() > 0 {
        let (l, f) = (list.drop_last(), fresh.drop_last());
        law_taken(accounts, rows, l, f, i);
        if 0 <= i < l.len() {
            assert(l.take(i) =~= list.take(i));
            assert(f.take(i) =~= fresh.take(i));
        } else if i == l.len() {
            assert(list.take(i) =~= l);
            assert(fresh.take(i) =~= f);
        }
    }
}

} // verus!
