//! Mercury: business accounts and their transactions.

use super::{either_member, number_member, str_or, text_member};
use crate::db::{Account, Transaction};
use crate::error::{CoreError, Result};
use crate::ids::{AccountId, BusinessId, ProviderId};
use crate::json::Json;
use crate::money::Cents;
use crate::time::parse_rfc3339;
use vstd::prelude::*;

verus! {

use super::{
    all_stored, first_member, is_complaint, is_provider_account, items_or_none, number_at,
    text_or,
};
use crate::text::opt_text;
use crate::time::rfc3339_instant;

/// The settings of a Mercury provider.
#[derive(Clone, Debug)]
pub struct MercuryConfig {
    pub business_tag: Option<String>,
}

impl core::default::Default for MercuryConfig {
    fn default() -> (r: MercuryConfig)
        ensures
            r.business_tag is None,
    {
        MercuryConfig { business_tag: None }
    }
}

/// The accounts of a reply, or the complaint that it has none.
pub fn reply_accounts(reply: &Json) -> (r: Result<&Vec<Json>>)
    ensures
        match (r, reply.items_at("accounts"@)) {
            (Ok(v), Some(items)) => v@ == items,
            (Err(e), None) => is_complaint(e, "mercury: no accounts in response"@),
            _ => false,
        },
{
    match reply.get_array("accounts") {
        Some(v) => Ok(v),
        None => Err(CoreError::Rpc("mercury: no accounts in response".to_owned())),
    }
}

/// An account that a reply tells of, and its balance in dollars.
#[derive(Debug)]
pub struct MercuryBalance {
    pub account: Account,
    pub balance: String,
}

/// A number member, `0` where there is none.
pub open spec fn number_or_zero(v: Json, key: Seq<char>) -> Seq<char> {
    match number_at(v, key) {
        Some(n) => n,
        None => "0"@,
    }
}

/// The amount of a transaction in dollars, `0` where there is none.
pub fn amount_of(t: &Json) -> (r: String)
    ensures
        r@ == number_or_zero(*t, "amount"@),
{
    match number_member(t, "amount") {
        Some(n) => n,
        None => "0".to_owned(),
    }
}

/// Reads one account.
pub fn read_account(a: &Json, provider_id: ProviderId, business_id: Option<BusinessId>) -> (r:
    MercuryBalance)
    ensures
        r.balance@ == number_or_zero(*a, "currentBalance"@),
        is_provider_account(
            r.account,
            text_or(*a, "name"@, "mercury"@),
            "business"@,
            Some("cash"@),
            None,
            text_or(*a, "currency"@, "USD"@),
            provider_id,
            business_id,
            Some(text_or(*a, "id"@, ""@)),
        ),
{
    let balance: String = match number_member(a, "currentBalance") {
        Some(n) => n,
        None => "0".to_owned(),
    };
    MercuryBalance {
        account: Account {
            id: None,
            name: str_or(a, "name", "mercury"),
            kind: "business".to_owned(),
            asset_class: Some("cash".to_owned()),
            tier: None,
            currency: str_or(a, "currency", "USD"),
            provider_id: Some(provider_id),
            business_id,
            external_id: Some(str_or(a, "id", "")),
            active: true,
        },
        balance,
    }
}

/// A request for the transactions of one stored account.
#[derive(Debug)]
pub struct FeedRequest {
    pub account_id: AccountId,
    pub external_id: String,
    pub path: String,
}

/// Whether an account has a feed of the provider's.
pub open spec fn has_feed(a: Account, provider_id: ProviderId) -> bool {
    a.provider_id == Some(provider_id) && a.external_id is Some
}

pub open spec fn asks_for(q: FeedRequest, a: Account) -> bool {
    &&& a.id == Some(q.account_id)
    &&& Some(q.external_id@) == opt_text(a.external_id)
    &&& q.path@ == "/account/"@ + q.external_id@ + "/transactions?limit=500"@
}

/// One request for each account that has a feed, in the accounts' order.
pub open spec fn are_requests(q: Seq<FeedRequest>, accounts: Seq<Account>, provider_id: ProviderId) -> bool
    decreases accounts.len(),
{
    if accounts.len() == 0 {
        q.len() == 0
    } else if has_feed(accounts.last(), provider_id) {
        q.len() > 0 && asks_for(q.last(), accounts.last()) && are_requests(
            q.drop_last(),
            accounts.drop_last(),
            provider_id,
        )
    } else {
        are_requests(q, accounts.drop_last(), provider_id)
    }
}

/// The requests for the transactions: one for each of the active accounts that is the
/// provider's and has an external id.
pub fn feed_requests(active: &Vec<Account>, provider_id: ProviderId) -> (r: Vec<FeedRequest>)
    requires
        all_stored(active@),
    ensures
        are_requests(r@, active@, provider_id),
{
    let mut out: Vec<FeedRequest> = Vec::new();
    let mut i: usize = 0;
    assert(active@.take(0) =~= Seq::<Account>::empty());
    while i < active.len()
        invariant
            i <= active.len(),
            all_stored(active@),
            are_requests(out@, active@.take(i as int), provider_id),
        decreases active.len() - i,
    {
        let a: &Account = &active[i];
        assert(active@.take(i + 1).drop_last() =~= active@.take(i as int));
        assert(active@.take(i + 1).last() == active@[i as int]);
        let ours: bool = match &a.provider_id {
            Some(p) => p.0 == provider_id.0,
            None => false,
        };
        match &a.external_id {
            Some(x) => {
                if ours {
                    let path: String = "/account/".to_owned().concat(x.as_str()).concat(
                        "/transactions?limit=500",
                    );
                    let ghost before = out@;
                    out.push(
                        FeedRequest { account_id: a.id.unwrap(), external_id: x.clone(), path },
                    );
                    assert(out@.drop_last() =~= before);
                }
            },
            None => {},
        }
        i = i + 1;
    }
    assert(active@.take(i as int) =~= active@);
    out
}

/// When a transaction was posted; the start of 1970 where the reply does not say.
pub open spec fn posted_at(t: Json) -> i64 {
    match first_member(t, "postedAt"@, "createdAt"@) {
        Some(v) => match v.text() {
            Some(s) => match rfc3339_instant(s) {
                Some(ts) => ts,
                None => 0,
            },
            None => 0,
        },
        None => 0,
    }
}

/// Who the money came from or went to.
pub open spec fn counterparty(t: Json) -> Option<Seq<char>> {
    match first_member(t, "counterpartyName"@, "counterpartyNickname"@) {
        Some(v) => v.text(),
        None => None,
    }
}

/// A transaction as it is stored: money that comes in is income.
pub open spec fn is_reading(
    r: Transaction,
    t: Json,
    account_id: AccountId,
    business_id: Option<BusinessId>,
    cents: Cents,
) -> bool {
    &&& r.id is None
    &&& r.account_id == account_id
    &&& r.posted_at == posted_at(t)
    &&& r.amount_cents == cents
    &&& r.currency@ == "USD"@
    &&& opt_text(r.description) == counterparty(t)
    &&& opt_text(r.category) == t.text_at("kind"@)
    &&& opt_text(r.tag) == Some(
        if cents.0 > 0 {
            "income"@
        } else {
            "business"@
        },
    )
    &&& r.business_id == business_id
    &&& opt_text(r.external_id) == Some(text_or(t, "id"@, ""@))
    &&& r.source@ == "mercury"@
}

/// Reads one transaction, whose amount is known in cents.
pub fn read_transaction(
    t: &Json,
    account_id: AccountId,
    business_id: Option<BusinessId>,
    cents: Cents,
) -> (r: Transaction)
    ensures
        is_reading(r, *t, account_id, business_id, cents),
{
    let posted: i64 = match either_member(t, "postedAt", "createdAt") {
        Some(v) => match v.as_str() {
            Some(s) => match parse_rfc3339(s) {
                Some(ts) => ts,
                None => 0,
            },
            None => 0,
        },
        None => 0,
    };
    let description: Option<String> = match either_member(
        t,
        "counterpartyName",
        "counterpartyNickname",
    ) {
        Some(v) => match v.as_str() {
            Some(s) => Some(s.to_owned()),
            None => None,
        },
        None => None,
    };
    let tag: String = if cents.0 > 0 {
        "income".to_owned()
    } else {
        "business".to_owned()
    };
    Transaction {
        id: None,
        account_id,
        posted_at: posted,
        amount_cents: cents,
        currency: "USD".to_owned(),
        description,
        category: text_member(t, "kind"),
        tag: Some(tag),
        business_id,
        external_id: Some(str_or(t, "id", "")),
        source: "mercury".to_owned(),
    }
}

/// The amounts of the transactions of a page in dollars, in its order.
pub fn page_amounts(page: &Json) -> (r: Vec<String>)
    ensures
        r@.len() == items_or_none(*page, "transactions"@).len(),
        forall|i: int|
            0 <= i < r@.len() ==> (#[trigger] r@[i])@ == number_or_zero(
                items_or_none(*page, "transactions"@)[i],
                "amount"@,
            ),
{
    let mut out: Vec<String> = Vec::new();
    match page.get_array("transactions") {
        Some(items) => {
            let mut i: usize = 0;
            while i < items.len()
                invariant
                    i <= items.len(),
                    out@.len() == i,
                    forall|k: int|
                        0 <= k < i ==> (#[trigger] out@[k])@ == number_or_zero(
                            items@[k],
                            "amount"@,
                        ),
                decreases items.len() - i,
            {
                out.push(amount_of(&items[i]));
                i = i + 1;
            }
        },
        None => {},
    }
    out
}

/// The transactions of a page, in its order.
pub open spec fn are_readings(
    r: Seq<Transaction>,
    items: Seq<Json>,
    account_id: AccountId,
    business_id: Option<BusinessId>,
    cents: Seq<Cents>,
) -> bool {
    &&& r.len() == items.len()
    &&& forall|i: int|
        0 <= i < items.len() ==> is_reading(
            #[trigger] r[i],
            items[i],
            account_id,
            business_id,
            cents[i],
        )
}

/// Reads the transactions of a page, whose amounts are known in cents. A page without
/// transactions has none.
pub fn read_page(
    page: &Json,
    account_id: AccountId,
    business_id: Option<BusinessId>,
    cents: &Vec<Cents>,
) -> (r: Vec<Transaction>)
    requires
        cents@.len() == items_or_none(*page, "transactions"@).len(),
    ensures
        are_readings(
            r@,
            items_or_none(*page, "transactions"@),
            account_id,
            business_id,
            cents@,
        ),
{
    let mut out: Vec<Transaction> = Vec::new();
    match page.get_array("transactions") {
        Some(items) => {
            let mut i: usize = 0;
            while i < items.len()
                invariant
                    i <= items.len(),
                    cents@.len() == items@.len(),
                    are_readings(
                        out@,
                        items@.take(i as int),
                        account_id,
                        business_id,
                        cents@.take(i as int),
                    ),
                decreases items.len() - i,
            {
                out.push(read_transaction(&items[i], account_id, business_id, cents[i]));
                i = i + 1;
            }
            assert(items@.take(i as int) =~= items@);
            assert(cents@.take(i as int) =~= cents@);
        },
        None => {},
    }
    out
}

} // verus!
