//! Stripe: the balance and the balance transactions.

use super::{add_up, can_add_up, str_or, text_member};
use crate::db::{find_account_by_external, Account, Transaction};
use crate::error::{CoreError, Result};
use crate::ids::{AccountId, BusinessId, ProviderId};
use crate::json::Json;
use crate::money::Cents;
use crate::text::{opt_is, uppercase_text};
use vstd::prelude::*;

verus! {

use super::{adds_up, all_stored, is_provider_account, items_or_none, sum, text_or};
use crate::db::is_external_account;
use crate::order::{first_index, lemma_first_index_is_first};
use crate::text::{opt_text, raised_text};

/// A limit on the pages that are followed, against a cursor that never ends.
pub const MAX_PAGES: u32 = 200;

/// The settings of a Stripe provider.
#[derive(Clone, Debug)]
pub struct StripeConfig {
    pub business_tag: Option<String>,
}

impl core::default::Default for StripeConfig {
    fn default() -> (r: StripeConfig)
        ensures
            r.business_tag is None,
    {
        StripeConfig { business_tag: None }
    }
}

/// The entries of a balance: what is available, then what is pending.
pub open spec fn entries(reply: Json) -> Seq<Json> {
    items_or_none(reply, "available"@) + items_or_none(reply, "pending"@)
}

/// An integer member, 0 where there is none.
pub open spec fn int_or_zero(v: Json, key: Seq<char>) -> i64 {
    match v.int_at(key) {
        Some(n) => n,
        None => 0,
    }
}

/// The amounts of a balance, in cents.
pub open spec fn amounts(reply: Json) -> Seq<i64> {
    entries(reply).map_values(|e: Json| int_or_zero(e, "amount"@))
}

/// The currency of the last entry that has one, in capitals.
pub open spec fn last_currency(s: Seq<Json>) -> Seq<char>
    decreases s.len(),
{
    if s.len() == 0 {
        "USD"@
    } else {
        match s.last().text_at("currency"@) {
            Some(c) => raised_text(c),
            None => last_currency(s.drop_last()),
        }
    }
}

fn push_amounts(out: &mut Vec<i64>, currency: String, items: &Vec<Json>, Ghost(before): Ghost<
    Seq<Json>,
>) -> (r: String)
    requires
        old(out)@ == before.map_values(|e: Json| int_or_zero(e, "amount"@)),
        currency@ == last_currency(before),
    ensures
        final(out)@ == (before + items@).map_values(|e: Json| int_or_zero(e, "amount"@)),
        r@ == last_currency(before + items@),
{
    let mut currency: String = currency;
    let mut i: usize = 0;
    assert(before + items@.take(0) =~= before);
    while i < items.len()
        invariant
            i <= items.len(),
            out@ == (before + items@.take(i as int)).map_values(
                |e: Json| int_or_zero(e, "amount"@),
            ),
            currency@ == last_currency(before + items@.take(i as int)),
        decreases items.len() - i,
    {
        let ghost all = before + items@.take(i + 1);
        assert(all.drop_last() =~= before + items@.take(i as int));
        assert(all.last() == items@[i as int]);
        let amount: i64 = match items[i].get_i64("amount") {
            Some(n) => n,
            None => 0,
        };
        let ghost had = out@;
        out.push(amount);
        assert(out@ =~= all.map_values(|e: Json| int_or_zero(e, "amount"@)));
        match items[i].get_str("currency") {
            Some(c) => {
                currency = uppercase_text(c);
            },
            None => {},
        }
        i = i + 1;
    }
    assert(items@.take(i as int) =~= items@);
    currency
}

/// The amounts and the currency of a balance.
pub fn read_balance(reply: &Json) -> (r: (Vec<i64>, String))
    ensures
        r.0@ == amounts(*reply),
        r.1@ == last_currency(entries(*reply)),
{
    let mut out: Vec<i64> = Vec::new();
    let mut currency: String = "USD".to_owned();
    let ghost mut done: Seq<Json> = Seq::empty();
    assert(out@ =~= done.map_values(|e: Json| int_or_zero(e, "amount"@)));
    match reply.get_array("available") {
        Some(items) => {
            currency = push_amounts(&mut out, currency, items, Ghost(done));
            proof {
                done = done + items@;
            }
        },
        None => {},
    }
    assert(done =~= items_or_none(*reply, "available"@));
    match reply.get_array("pending") {
        Some(items) => {
            currency = push_amounts(&mut out, currency, items, Ghost(done));
            proof {
                done = done + items@;
            }
        },
        None => {},
    }
    assert(done =~= entries(*reply));
    (out, currency)
}

/// The account that holds the balance.
pub fn stripe_account(
    label: &str,
    currency: String,
    provider_id: ProviderId,
    business_id: Option<BusinessId>,
) -> (r: Account)
    ensures
        is_provider_account(
            r,
            "Stripe — "@ + label@,
            "business"@,
            Some("cash"@),
            None,
            currency@,
            provider_id,
            business_id,
            Some("balance"@),
        ),
{
    Account {
        id: None,
        name: "Stripe — ".to_owned().concat(label),
        kind: "business".to_owned(),
        asset_class: Some("cash".to_owned()),
        tier: None,
        currency,
        provider_id: Some(provider_id),
        business_id,
        external_id: Some("balance".to_owned()),
        active: true,
    }
}

/// What a balance comes to, and the account that it is stored on. The entries are added up
/// whatever their currencies are; none where the sum leaves 64 bits.
pub fn total_balance(
    reply: &Json,
    label: &str,
    provider_id: ProviderId,
    business_id: Option<BusinessId>,
) -> (r: Option<(Account, Cents)>)
    ensures
        match r {
            Some((account, total)) => adds_up(amounts(*reply)) && total.0 == sum(amounts(*reply))
                && is_provider_account(
                account,
                "Stripe — "@ + label@,
                "business"@,
                Some("cash"@),
                None,
                last_currency(entries(*reply)),
                provider_id,
                business_id,
                Some("balance"@),
            ),
            None => !adds_up(amounts(*reply)),
        },
{
    let (values, currency): (Vec<i64>, String) = read_balance(reply);
    if !can_add_up(&values) {
        return None;
    }
    let total: i64 = add_up(&values);
    Some((stripe_account(label, currency, provider_id, business_id), Cents(total)))
}

/// The stored account of the balance, or the complaint that it is not there yet.
pub fn local_account(accounts: &Vec<Account>, provider_id: ProviderId) -> (r: Result<AccountId>)
    requires
        all_stored(accounts@),
    ensures
        ({
            let k = first_index(
                accounts@,
                |row: Account| is_external_account(row, provider_id, "balance"@),
            );
            match r {
                Ok(id) => k < accounts@.len() && accounts@[k].id == Some(id),
                Err(e) => k == accounts@.len() && e is NotFound && e->NotFound_0@
                    == "stripe local account missing — run refresh_balances first"@,
            }
        }),
{
    proof {
        lemma_first_index_is_first(
            accounts@,
            |row: Account| is_external_account(row, provider_id, "balance"@),
        );
    }
    match find_account_by_external(accounts, provider_id, "balance") {
        Some(a) => Ok(a.id.unwrap()),
        None => Err(
            CoreError::NotFound(
                "stripe local account missing — run refresh_balances first".to_owned(),
            ),
        ),
    }
}

/// The path of a page of the feed.
pub fn page_path(starting_after: &Option<String>) -> (r: String)
    ensures
        r@ == match starting_after {
            Some(after) => "/v1/balance_transactions?limit=100"@ + "&starting_after="@ + after@,
            None => "/v1/balance_transactions?limit=100"@,
        },
{
    match starting_after {
        Some(after) => "/v1/balance_transactions?limit=100".to_owned().concat(
            "&starting_after=",
        ).concat(after.as_str()),
        None => "/v1/balance_transactions?limit=100".to_owned(),
    }
}

/// The tag of a type of transaction: charges and payments are income, payouts and refunds
/// are business, and any other type is its own tag.
pub open spec fn tag_of(kind: Option<Seq<char>>) -> Option<Seq<char>> {
    if kind == Some("charge"@) || kind == Some("payment"@) {
        Some("income"@)
    } else if kind == Some("payout"@) || kind == Some("refund"@) {
        Some("business"@)
    } else {
        kind
    }
}

pub open spec fn is_reading(
    r: Transaction,
    t: Json,
    account_id: AccountId,
    business_id: Option<BusinessId>,
) -> bool {
    &&& r.id is None
    &&& r.account_id == account_id
    &&& r.posted_at == int_or_zero(t, "created"@)
    &&& r.amount_cents.0 == int_or_zero(t, "amount"@)
    &&& r.currency@ == raised_text(text_or(t, "currency"@, "USD"@))
    &&& opt_text(r.description) == t.text_at("description"@)
    &&& opt_text(r.category) == t.text_at("type"@)
    &&& opt_text(r.tag) == tag_of(t.text_at("type"@))
    &&& r.business_id == business_id
    &&& opt_text(r.external_id) == Some(text_or(t, "id"@, ""@))
    &&& r.source@ == "stripe"@
}

/// Reads one balance transaction.
pub fn read_transaction(t: &Json, account_id: AccountId, business_id: Option<BusinessId>) -> (r:
    Transaction)
    ensures
        is_reading(r, *t, account_id, business_id),
{
    let kind: Option<&str> = t.get_str("type");
    let tag: Option<String> = if opt_is(kind, "charge") || opt_is(kind, "payment") {
        Some("income".to_owned())
    } else if opt_is(kind, "payout") || opt_is(kind, "refund") {
        Some("business".to_owned())
    } else {
        text_member(t, "type")
    };
    let posted_at: i64 = match t.get_i64("created") {
        Some(n) => n,
        None => 0,
    };
    let amount: i64 = match t.get_i64("amount") {
        Some(n) => n,
        None => 0,
    };
    let currency: String = str_or(t, "currency", "USD");
    Transaction {
        id: None,
        account_id,
        posted_at,
        amount_cents: Cents(amount),
        currency: uppercase_text(currency.as_str()),
        description: text_member(t, "description"),
        category: text_member(t, "type"),
        tag,
        business_id,
        external_id: Some(str_or(t, "id", "")),
        source: "stripe".to_owned(),
    }
}

/// The transactions of a page, in its order.
pub open spec fn are_readings(
    r: Seq<Transaction>,
    items: Seq<Json>,
    account_id: AccountId,
    business_id: Option<BusinessId>,
) -> bool {
    &&& r.len() == items.len()
    &&& forall|i: int|
        0 <= i < items.len() ==> is_reading(#[trigger] r[i], items[i], account_id, business_id)
}

/// Reads the transactions of a page.
pub fn read_page(page: &Json, account_id: AccountId, business_id: Option<BusinessId>) -> (r: Vec<
    Transaction,
>)
    ensures
        are_readings(r@, items_or_none(*page, "data"@), account_id, business_id),
{
    let mut out: Vec<Transaction> = Vec::new();
    match page.get_array("data") {
        Some(items) => {
            let mut i: usize = 0;
            while i < items.len()
                invariant
                    i <= items.len(),
                    are_readings(out@, items@.take(i as int), account_id, business_id),
                decreases items.len() - i,
            {
                out.push(read_transaction(&items[i], account_id, business_id));
                i = i + 1;
            }
            assert(items@.take(i as int) =~= items@);
        },
        None => {},
    }
    out
}

/// Where the feed goes on after a page: behind its last transaction, as long as there is
/// more and the limit is not reached. `pages` counts the pages read, this one included.
pub open spec fn goes_on(page: Json, pages: u32) -> Option<Seq<char>> {
    let items = items_or_none(page, "data"@);
    if items.len() > 0 && page.is_set("has_more"@) && pages < MAX_PAGES {
        Some(text_or(items.last(), "id"@, ""@))
    } else {
        None
    }
}

/// Where the feed goes on after a page.
pub fn next_page(page: &Json, pages: u32) -> (r: Option<String>)
    ensures
        opt_text(r) == goes_on(*page, pages),
{
    match page.get_array("data") {
        Some(items) => {
            if items.len() > 0 && page.flag("has_more") && pages < MAX_PAGES {
                Some(str_or(&items[items.len() - 1], "id", ""))
            } else {
                None
            }
        },
        None => None,
    }
}

/// How far the feed has been read.
#[derive(Debug)]
pub struct Feed {
    pub starting_after: Option<String>,
    pub pages: u32,
    pub total: u32,
    pub done: bool,
}

impl Feed {
    /// A feed that is still going is below the limit of pages.
    pub open spec fn well_formed(self) -> bool {
        !self.done ==> self.pages < MAX_PAGES
    }

    /// Whether no page has been read yet.
    pub open spec fn is_start(self) -> bool {
        self.starting_after is None && self.pages == 0 && self.total == 0 && !self.done
    }

    /// Whether a feed is this one after another page.
    pub open spec fn leads_to(self, page: Json, next: Feed) -> bool {
        &&& next.total == self.total + items_or_none(page, "data"@).len()
        &&& next.pages == self.pages + 1
        &&& opt_text(next.starting_after) == goes_on(page, next.pages)
        &&& next.done == (goes_on(page, next.pages) is None)
    }

    /// The feed before its first page.
    pub fn start() -> (r: Feed)
        ensures
            r.is_start(),
            r.well_formed(),
    {
        Feed { starting_after: None, pages: 0, total: 0, done: false }
    }

    /// The feed after a page, and the transactions of the page. It ends with a page that is
    /// empty, one that says that there is no more, or the limit of pages; so it ends.
    pub fn advance(
        &self,
        page: &Json,
        account_id: AccountId,
        business_id: Option<BusinessId>,
    ) -> (r: (Vec<Transaction>, Feed))
        requires
            self.well_formed(),
            !self.done,
            self.total + items_or_none(*page, "data"@).len() <= u32::MAX,
        ensures
            are_readings(r.0@, items_or_none(*page, "data"@), account_id, business_id),
            self.leads_to(*page, r.1),
            r.1.well_formed(),
    {
        let rows: Vec<Transaction> = read_page(page, account_id, business_id);
        let pages: u32 = self.pages + 1;
        let starting_after: Option<String> = next_page(page, pages);
        let done: bool = starting_after.is_none();
        let total: u32 = self.total + rows.len() as u32;
        (rows, Feed { starting_after, pages, total, done })
    }
}

/// Whether a feed was read page by page: `feeds[i]` is how far it was when `pages[i]` was
/// asked for, and the last one how far it is now.
pub open spec fn is_run(feeds: Seq<Feed>, pages: Seq<Json>) -> bool {
    &&& feeds.len() == pages.len() + 1
    &&& feeds[0].is_start()
    &&& forall|i: int|
        0 <= i < pages.len() ==> !(#[trigger] feeds[i]).done && feeds[i].leads_to(
            pages[i],
            feeds[i + 1],
        )
}

/// The number of transactions on some pages.
pub open spec fn items_on(pages: Seq<Json>) -> nat
    decreases pages.len(),
{
    if pages.len() == 0 {
        0
    } else {
        items_on(pages.drop_last()) + items_or_none(pages.last(), "data"@).len()
    }
}

/// Whether a page is the last of its feed, whatever the limit: it is empty, or says that there
/// is no more.
pub open spec fn ends_feed(page: Json) -> bool {
    items_or_none(page, "data"@).len() == 0 || !page.is_set("has_more"@)
}

/// A feed that is read page by page counts every transaction once. The first page is asked for
/// from the start, each later one from behind the last transaction of the page before. The
/// feed ends with the first page that is empty or says that there is no more, or with the last
/// that the limit allows, and not before.
pub proof fn law_whole_feed(feeds: Seq<Feed>, pages: Seq<Json>)
    requires
        is_run(feeds, pages),
    ensures
        feeds.last().total == items_on(pages),
        feeds.last().pages == pages.len() <= MAX_PAGES,
        feeds[0].starting_after is None,
        forall|i: int|
            0 < i < pages.len() ==> opt_text((#[trigger] feeds[i]).starting_after) == Some(
                text_or(items_or_none(pages[i - 1], "data"@).last(), "id"@, ""@),
            ),
        forall|i: int| 0 <= i < pages.len() - 1 ==> !ends_feed(#[trigger] pages[i]),
        feeds.last().done <==> pages.len() > 0 && (ends_feed(pages.last()) || pages.len()
            == MAX_PAGES),
    decreases pages.len(),
{
    if pages.len() > 0 {
        let n = pages.len() - 1;
        let before = feeds.drop_last();
        let read = pages.drop_last();
        assert(is_run(before, read)) by {
            assert forall|i: int| 0 <= i < read.len() implies !(#[trigger] before[i]).done
                && before[i].leads_to(read[i], before[i + 1]) by {
                assert(before[i] == feeds[i] && before[i + 1] == feeds[i + 1]);
            }
        }
        law_whole_feed(before, read);
        assert(before.last() == feeds[n]);
        assert(!feeds[n].done && feeds[n].leads_to(pages[n], feeds[n + 1]));
        assert forall|i: int| 0 < i < pages.len() implies opt_text(
            (#[trigger] feeds[i]).starting_after,
        ) == Some(text_or(items_or_none(pages[i - 1], "data"@).last(), "id"@, ""@)) by {
            assert(!feeds[i].done);
            assert(!feeds[i - 1].done && feeds[i - 1].leads_to(pages[i - 1], feeds[i]));
        }
        assert forall|i: int| 0 <= i < n implies !ends_feed(#[trigger] pages[i]) by {
            assert(!feeds[i + 1].done);
            assert(!feeds[i].done && feeds[i].leads_to(pages[i], feeds[i + 1]));
        }
    }
}

} // verus!
