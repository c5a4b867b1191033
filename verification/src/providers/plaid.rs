//! Plaid: balances and the transaction feed.
//!
//! Dollar amounts come as decimal numbers. What is read off a reply carries the number as
//! its text; the caller turns it into cents and hands the cents back.

use super::{either_member, number_member, report, secret_of, str_or, text_member};
use crate::db::{find_account_by_external, Account, ProviderRow, Transaction};
use crate::error::{CoreError, Result};
use crate::ids::{AccountId, BusinessId, ProviderId};
use crate::json::Json;
use crate::money::Cents;
use crate::provider::{Cursor, RefreshReport};
use crate::secrets::require_slot;
use crate::text::{
    dec_string, from_chars, lowercase_text, opt_is, str_eq, to_chars, trim, uppercase_char,
};
use crate::time::parse_date;
use vstd::prelude::*;

verus! {

use super::{
    all_stored, first_member, is_complaint, is_provider_account, is_secret_of, is_slot,
    items_or_none, no_slot, number_at, text_or,
};
use crate::db::is_external_account;
use crate::order::{first_index, lemma_first_index_is_first};
use crate::text::{dec, lowered_text, opt_text, opt_view, trimmed, upper_char};
use crate::time::date_start;

/// The settings of a Plaid provider.
#[derive(Clone, Debug)]
pub struct PlaidConfig {
    pub plaid_env: String,
    pub institution_name: Option<String>,
    pub sync_cursor: Option<String>,
}

impl core::default::Default for PlaidConfig {
    fn default() -> (r: PlaidConfig)
        ensures
            r.plaid_env@ == Seq::<char>::empty(),
            r.institution_name is None,
            r.sync_cursor is None,
    {
        PlaidConfig { plaid_env: String::new(), institution_name: None, sync_cursor: None }
    }
}

/// The environment where the settings name none.
pub fn default_env() -> (r: String)
    ensures
        r@ == "sandbox"@,
{
    "sandbox".to_owned()
}

/// The settings that are stored with a new cursor.
pub fn with_cursor(plaid_env: &str, cursor: &str) -> (r: PlaidConfig)
    ensures
        r.plaid_env@ == plaid_env@,
        r.institution_name is None,
        opt_text(r.sync_cursor) == Some(cursor@),
{
    PlaidConfig {
        plaid_env: plaid_env.to_owned(),
        institution_name: None,
        sync_cursor: Some(cursor.to_owned()),
    }
}

/// Where the service of an environment is.
pub open spec fn service_of(env: Seq<char>) -> Option<Seq<char>> {
    if env == "sandbox"@ {
        Some("https://sandbox.plaid.com"@)
    } else if env == "production"@ {
        Some("https://production.plaid.com"@)
    } else {
        None
    }
}

/// What a Plaid provider is built of: the service, and where its three secrets stand.
#[derive(Debug)]
pub struct PlaidParts {
    pub base_url: String,
    pub client_id: usize,
    pub secret: usize,
    pub access_token: usize,
}

/// The name of the secret of an environment.
pub open spec fn env_secret(env: Seq<char>) -> Seq<char> {
    "plaid_"@ + env + "_secret"@
}

/// A Plaid provider needs a known environment, the client id, the secret of the
/// environment, and its own access token; the first that is missing is complained about.
pub open spec fn is_plaid_build(
    r: core::result::Result<PlaidParts, String>,
    row: ProviderRow,
    env: Seq<char>,
    names: Seq<String>,
) -> bool {
    match service_of(env) {
        None => r is Err && r->Err_0@ == "unknown plaid_env: "@ + env,
        Some(url) => {
            if no_slot(names, "plaid_client_id"@) {
                r is Err && r->Err_0@ == "missing secret: "@ + "plaid_client_id"@
            } else if no_slot(names, env_secret(env)) {
                r is Err && r->Err_0@ == "missing secret: "@ + env_secret(env)
            } else {
                match r {
                    Ok(p) => p.base_url@ == url && is_slot(p.client_id, names, "plaid_client_id"@)
                        && is_slot(p.secret, names, env_secret(env)) && is_secret_of(
                        Ok(p.access_token),
                        "plaid"@,
                        row,
                        names,
                    ),
                    Err(e) => is_secret_of(Err(e), "plaid"@, row, names),
                }
            }
        },
    }
}

/// What a Plaid provider is built of, or why it cannot be built.
pub fn plaid_parts(row: &ProviderRow, env: &str, names: &Vec<String>) -> (r: core::result::Result<
    PlaidParts,
    String,
>)
    ensures
        is_plaid_build(r, *row, env@, names@),
{
    let base_url: String = if str_eq(env, "sandbox") {
        "https://sandbox.plaid.com".to_owned()
    } else if str_eq(env, "production") {
        "https://production.plaid.com".to_owned()
    } else {
        return Err("unknown plaid_env: ".to_owned().concat(env));
    };
    let client_id: usize = match require_slot(names, "plaid_client_id") {
        Ok(i) => i,
        Err(e) => return Err(e),
    };
    assert(names@[client_id as int]@ == "plaid_client_id"@);
    let key: String = "plaid_".to_owned().concat(env).concat("_secret");
    let secret: usize = match require_slot(names, key.as_str()) {
        Ok(i) => i,
        Err(e) => return Err(e),
    };
    assert(names@[secret as int]@ == env_secret(env@));
    match secret_of("plaid", row, names) {
        Ok(access_token) => Ok(PlaidParts { base_url, client_id, secret, access_token }),
        Err(e) => Err(e),
    }
}

// ---------------------------------------------------------------------------
// Accounts
// ---------------------------------------------------------------------------

/// The kind of account that a type of Plaid's becomes.
pub open spec fn kind_of_type(plaid_type: Option<Seq<char>>) -> Seq<char> {
    if plaid_type == Some("credit"@) || plaid_type == Some("loan"@) {
        "debt"@
    } else if plaid_type == Some("investment"@) || plaid_type == Some("brokerage"@) {
        "brokerage"@
    } else {
        "asset"@
    }
}

/// The account kind of a Plaid account type.
pub fn plaid_kind(plaid_type: Option<&str>) -> (r: &'static str)
    ensures
        r@ == kind_of_type(opt_view(plaid_type)),
{
    if opt_is(plaid_type, "credit") || opt_is(plaid_type, "loan") {
        "debt"
    } else if opt_is(plaid_type, "investment") || opt_is(plaid_type, "brokerage") {
        "brokerage"
    } else {
        "asset"
    }
}

/// The asset class that a type and a subtype of Plaid's belong to: money at hand is cash,
/// a brokerage is stocks, and anything else stays out of the allocation.
pub open spec fn class_of_type(
    plaid_type: Option<Seq<char>>,
    subtype: Option<Seq<char>>,
) -> Option<Seq<char>> {
    if plaid_type == Some("depository"@) && (subtype == Some("checking"@) || subtype == Some(
        "savings"@,
    ) || subtype == Some("cd"@) || subtype == Some("money market"@)) {
        Some("cash"@)
    } else if plaid_type == Some("investment"@) || plaid_type == Some("brokerage"@) {
        Some("stocks"@)
    } else {
        None
    }
}

proof fn lemma_types_differ()
    ensures
        "depository"@ != "investment"@,
        "depository"@ != "brokerage"@,
{
    reveal_strlit("depository");
    reveal_strlit("investment");
    reveal_strlit("brokerage");
    assert("depository"@[0] == 'd' && "investment"@[0] == 'i' && "brokerage"@[0] == 'b');
}

/// The asset class of a Plaid account type and subtype.
pub fn plaid_asset_class(plaid_type: Option<&str>, subtype: Option<&str>) -> (r: Option<
    &'static str,
>)
    ensures
        opt_view(r) == class_of_type(opt_view(plaid_type), opt_view(subtype)),
{
    proof {
        lemma_types_differ();
    }
    if opt_is(plaid_type, "depository") {
        if opt_is(subtype, "checking") || opt_is(subtype, "savings") || opt_is(subtype, "cd")
            || opt_is(subtype, "money market") {
            Some("cash")
        } else {
            None
        }
    } else if opt_is(plaid_type, "investment") || opt_is(plaid_type, "brokerage") {
        Some("stocks")
    } else {
        None
    }
}

/// The balance of an account, as the text of a number. An account at a bank counts what
/// can be spent, where Plaid says so, and else what is booked; any other account counts
/// what is booked, for there the available amount is the credit that is left.
pub open spec fn balance_of(plaid_type: Option<Seq<char>>, balances: Option<Json>) -> Option<
    Seq<char>,
> {
    match balances {
        None => None,
        Some(b) => if plaid_type == Some("depository"@) && number_at(b, "available"@) is Some {
            number_at(b, "available"@)
        } else {
            number_at(b, "current"@)
        },
    }
}

/// The balance to record of a Plaid account, as the number was written.
pub fn pick_balance(plaid_type: Option<&str>, balances: Option<&Json>) -> (r: Option<String>)
    ensures
        opt_text(r) == balance_of(
            opt_view(plaid_type),
            match balances {
                Some(b) => Some(*b),
                None => None,
            },
        ),
{
    match balances {
        None => None,
        Some(b) => {
            if opt_is(plaid_type, "depository") {
                match number_member(b, "available") {
                    Some(s) => return Some(s),
                    None => {},
                }
            }
            number_member(b, "current")
        },
    }
}

/// An account that a reply tells of, and its balance in dollars.
#[derive(Debug)]
pub struct PlaidBalance {
    pub account: Account,
    pub balance: String,
}

/// The currency that a reply gives an account.
pub open spec fn currency_of(a: Json) -> Seq<char> {
    match a.at("balances"@) {
        Some(b) => text_or(b, "iso_currency_code"@, "USD"@),
        None => "USD"@,
    }
}

pub open spec fn is_account_reading(
    r: Result<PlaidBalance>,
    a: Json,
    provider_id: ProviderId,
) -> bool {
    match (r, balance_of(a.text_at("type"@), a.at("balances"@))) {
        (Ok(p), Some(b)) => p.balance@ == b && is_provider_account(
            p.account,
            text_or(a, "name"@, "plaid"@),
            kind_of_type(a.text_at("type"@)),
            class_of_type(a.text_at("type"@), a.text_at("subtype"@)),
            None,
            currency_of(a),
            provider_id,
            None,
            Some(text_or(a, "account_id"@, ""@)),
        ),
        (Err(e), None) => is_complaint(
            e,
            "plaid account "@ + text_or(a, "account_id"@, ""@) + ": missing/non-numeric balance"@,
        ),
        _ => false,
    }
}

/// Reads one account. One without a balance is refused: it is never taken as empty.
pub fn read_account(a: &Json, provider_id: ProviderId) -> (r: Result<PlaidBalance>)
    ensures
        is_account_reading(r, *a, provider_id),
{
    let plaid_type: Option<&str> = a.get_str("type");
    let external: String = str_or(a, "account_id", "");
    let currency: String = match a.get("balances") {
        Some(b) => str_or(b, "iso_currency_code", "USD"),
        None => "USD".to_owned(),
    };
    let balance: String = match pick_balance(plaid_type, a.get("balances")) {
        Some(b) => b,
        None => {
            return Err(
                CoreError::Rpc(
                    "plaid account ".to_owned().concat(external.as_str()).concat(
                        ": missing/non-numeric balance",
                    ),
                ),
            );
        },
    };
    let asset_class: Option<String> = match plaid_asset_class(plaid_type, a.get_str("subtype")) {
        Some(c) => Some(c.to_owned()),
        None => None,
    };
    Ok(
        PlaidBalance {
            account: Account {
                id: None,
                name: str_or(a, "name", "plaid"),
                kind: plaid_kind(plaid_type).to_owned(),
                asset_class,
                tier: None,
                currency,
                provider_id: Some(provider_id),
                business_id: None,
                external_id: Some(external),
                active: true,
            },
            balance,
        },
    )
}

/// The accounts of a reply, or the complaint that it has none.
pub fn reply_accounts(reply: &Json) -> (r: Result<&Vec<Json>>)
    ensures
        match (r, reply.items_at("accounts"@)) {
            (Ok(v), Some(items)) => v@ == items,
            (Err(e), None) => is_complaint(e, "plaid: no accounts in balance response"@),
            _ => false,
        },
{
    match reply.get_array("accounts") {
        Some(v) => Ok(v),
        None => Err(CoreError::Rpc("plaid: no accounts in balance response".to_owned())),
    }
}

// ---------------------------------------------------------------------------
// Transactions
// ---------------------------------------------------------------------------

/// Text with its underscores turned into spaces.
pub open spec fn spaced(s: Seq<char>) -> Seq<char> {
    s.map_values(
        |c: char|
            if c == '_' {
                ' '
            } else {
                c
            },
    )
}

/// A category of Plaid's for display: lower case, with spaces, and a capital in front.
pub open spec fn humanized(primary: Seq<char>) -> Seq<char> {
    let lower = spaced(lowered_text(trimmed(primary)));
    if lower.len() == 0 {
        lower
    } else {
        upper_char(lower[0]) + lower.skip(1)
    }
}

/// A category of Plaid's for display: `FOOD_AND_DRINK` is shown as `Food and drink`.
pub fn normalize_pfc(primary: &str) -> (r: String)
    ensures
        r@ == humanized(primary@),
{
    let chars: Vec<char> = to_chars(lowercase_text(trim(primary).as_str()).as_str());
    let ghost lower = spaced(lowered_text(trimmed(primary@)));
    if chars.len() == 0 {
        assert(lower =~= Seq::<char>::empty());
        return String::new();
    }
    let first: char = if chars[0] == '_' {
        ' '
    } else {
        chars[0]
    };
    assert(first == lower[0]);
    let mut out: Vec<char> = uppercase_char(first);
    assert(out@ == upper_char(lower[0]));
    let mut i: usize = 1;
    assert(out@ =~= upper_char(lower[0]) + lower.subrange(1, 1));
    while i < chars.len()
        invariant
            1 <= i <= chars.len(),
            chars@ == lowered_text(trimmed(primary@)),
            lower == spaced(chars@),
            out@ == upper_char(lower[0]) + lower.subrange(1, i as int),
        decreases chars.len() - i,
    {
        let c: char = if chars[i] == '_' {
            ' '
        } else {
            chars[i]
        };
        assert(c == lower[i as int]);
        out.push(c);
        assert(lower.subrange(1, i + 1) =~= lower.subrange(1, i as int).push(c));
        i = i + 1;
    }
    assert(lower.subrange(1, lower.len() as int) =~= lower.skip(1));
    from_chars(&out)
}

/// The category in the present taxonomy, if the transaction has one.
pub open spec fn primary_of(tx: Json) -> Option<Seq<char>> {
    match tx.at("personal_finance_category"@) {
        Some(p) => p.text_at("primary"@),
        None => None,
    }
}

/// The first of the old category names, if the transaction has any.
pub open spec fn legacy_of(tx: Json) -> Option<Seq<char>> {
    match tx.items_at("category"@) {
        Some(items) => if items.len() > 0 {
            items[0].text()
        } else {
            None
        },
        None => None,
    }
}

/// The category of a transaction: the present taxonomy before the old one.
pub open spec fn category_of(tx: Json) -> Option<Seq<char>> {
    match primary_of(tx) {
        Some(p) => Some(humanized(p)),
        None => legacy_of(tx),
    }
}

/// The spend category of a Plaid transaction.
pub fn category(tx: &Json) -> (r: Option<String>)
    ensures
        opt_text(r) == category_of(*tx),
{
    match tx.get("personal_finance_category") {
        Some(p) => match p.get_str("primary") {
            Some(s) => return Some(normalize_pfc(s)),
            None => {},
        },
        None => {},
    }
    match tx.get_array("category") {
        Some(items) => if items.len() > 0 {
            match items[0].as_str() {
                Some(s) => Some(s.to_owned()),
                None => None,
            }
        } else {
            None
        },
        None => None,
    }
}

/// What is read off a transaction before its amount is converted.
#[derive(Debug)]
pub struct TxnHead {
    pub account_id: AccountId,
    pub business_id: Option<BusinessId>,
    pub external_id: String,
    pub amount: String,
}

/// The account that a transaction belongs to, among the stored ones.
pub open spec fn home_of(accounts: Seq<Account>, provider_id: ProviderId, external: Seq<char>) -> int {
    first_index(accounts, |row: Account| is_external_account(row, provider_id, external))
}

/// The account, the id and the amount of a transaction are mandatory; the first that is
/// missing is complained about, and so is an account that is not stored yet.
pub open spec fn is_head(
    r: Result<TxnHead>,
    tx: Json,
    accounts: Seq<Account>,
    provider_id: ProviderId,
) -> bool {
    match tx.text_at("account_id"@) {
        None => r is Err && is_complaint(r->Err_0, "plaid txn missing account_id"@),
        Some(external) => {
            let k = home_of(accounts, provider_id, external);
            if k == accounts.len() {
                r is Err && r->Err_0 is NotFound && r->Err_0->NotFound_0@ == "plaid account "@
                    + external + " — run refresh_balances first"@
            } else {
                match tx.text_at("transaction_id"@) {
                    None => r is Err && is_complaint(
                        r->Err_0,
                        "plaid txn missing transaction_id"@,
                    ),
                    Some(id) => match (r, number_at(tx, "amount"@)) {
                        (Ok(h), Some(n)) => {
                            &&& Some(h.account_id) == accounts[k].id
                            &&& h.business_id == accounts[k].business_id
                            &&& h.external_id@ == id
                            &&& h.amount@ == n
                        },
                        (Err(e), None) => is_complaint(
                            e,
                            "plaid txn "@ + id + ": missing/non-numeric amount"@,
                        ),
                        _ => false,
                    },
                }
            }
        },
    }
}

/// Reads what a transaction must have. The amount is in dollars, positive for money that
/// goes out.
pub fn read_head(tx: &Json, accounts: &Vec<Account>, provider_id: ProviderId) -> (r: Result<
    TxnHead,
>)
    requires
        all_stored(accounts@),
    ensures
        is_head(r, *tx, accounts@, provider_id),
{
    let external: &str = match tx.get_str("account_id") {
        Some(s) => s,
        None => return Err(CoreError::Rpc("plaid txn missing account_id".to_owned())),
    };
    proof {
        lemma_first_index_is_first(
            accounts@,
            |row: Account| is_external_account(row, provider_id, external@),
        );
    }
    let (account_id, business_id): (AccountId, Option<BusinessId>) = match find_account_by_external(
        accounts,
        provider_id,
        external,
    ) {
        Some(a) => (a.id.unwrap(), a.business_id),
        None => {
            return Err(
                CoreError::NotFound(
                    "plaid account ".to_owned().concat(external).concat(
                        " — run refresh_balances first",
                    ),
                ),
            );
        },
    };
    let id: String = match text_member(tx, "transaction_id") {
        Some(s) => s,
        None => return Err(CoreError::Rpc("plaid txn missing transaction_id".to_owned())),
    };
    match number_member(tx, "amount") {
        Some(amount) => Ok(TxnHead { account_id, business_id, external_id: id, amount }),
        None => Err(
            CoreError::Rpc(
                "plaid txn ".to_owned().concat(id.as_str()).concat(": missing/non-numeric amount"),
            ),
        ),
    }
}

/// The description of a transaction.
pub open spec fn description_of(tx: Json) -> Option<Seq<char>> {
    match first_member(tx, "merchant_name"@, "name"@) {
        Some(v) => v.text(),
        None => None,
    }
}

/// The transaction that is stored. The feed counts money that goes out as positive, the ledger
/// as negative.
pub open spec fn is_stored(t: Transaction, tx: Json, head: TxnHead, cents: Cents, posted_at: i64) -> bool {
    &&& t.id is None
    &&& t.account_id == head.account_id
    &&& t.posted_at == posted_at
    &&& t.amount_cents.0 == -cents.0
    &&& t.currency@ == text_or(tx, "iso_currency_code"@, "USD"@)
    &&& opt_text(t.description) == description_of(tx)
    &&& opt_text(t.category) == category_of(tx)
    &&& t.tag is None
    &&& t.business_id == head.business_id
    &&& opt_text(t.external_id) == Some(head.external_id@)
    &&& t.source@ == "plaid"@
}

/// A transaction needs a day; one without, or with a bad one, is refused.
pub open spec fn is_reading(r: Result<Transaction>, tx: Json, head: TxnHead, cents: Cents) -> bool {
    match tx.text_at("date"@) {
        None => r is Err && is_complaint(
            r->Err_0,
            "plaid txn "@ + head.external_id@ + ": missing date"@,
        ),
        Some(date) => match (r, date_start(date)) {
            (Ok(t), Ok(posted_at)) => is_stored(t, tx, head, cents, posted_at),
            (Err(e), Err(why)) => is_complaint(
                e,
                "plaid txn "@ + head.external_id@ + ": bad date "@ + date + ": "@ + why,
            ),
            _ => false,
        },
    }
}

/// Reads the rest of a transaction, whose amount is now known in cents, with the sign that the
/// feed gave it.
pub fn read_transaction(tx: &Json, head: &TxnHead, cents: Cents) -> (r: Result<Transaction>)
    requires
        cents.0 > i64::MIN,
    ensures
        is_reading(r, *tx, *head, cents),
{
    let date: &str = match tx.get_str("date") {
        Some(s) => s,
        None => {
            return Err(
                CoreError::Rpc(
                    "plaid txn ".to_owned().concat(head.external_id.as_str()).concat(
                        ": missing date",
                    ),
                ),
            );
        },
    };
    let posted_at: i64 = match parse_date(date) {
        Ok(ts) => ts,
        Err(why) => {
            return Err(
                CoreError::Rpc(
                    "plaid txn ".to_owned().concat(head.external_id.as_str()).concat(
                        ": bad date ",
                    ).concat(date).concat(": ").concat(why.as_str()),
                ),
            );
        },
    };
    let description: Option<String> = match either_member(tx, "merchant_name", "name") {
        Some(v) => match v.as_str() {
            Some(s) => Some(s.to_owned()),
            None => None,
        },
        None => None,
    };
    Ok(
        Transaction {
            id: None,
            account_id: head.account_id,
            posted_at,
            amount_cents: Cents(-cents.0),
            currency: str_or(tx, "iso_currency_code", "USD"),
            description,
            category: category(tx),
            tag: None,
            business_id: head.business_id,
            external_id: Some(head.external_id.clone()),
            source: "plaid".to_owned(),
        },
    )
}

// ---------------------------------------------------------------------------
// Pages of the feed
// ---------------------------------------------------------------------------

/// Several references, as the values that they point to.
pub open spec fn pointed_to(v: Seq<&Json>) -> Seq<Json> {
    v.map_values(|r: &Json| *r)
}

pub(crate) fn push_items<'a>(out: &mut Vec<&'a Json>, v: &'a Json, key: &str)
    ensures
        pointed_to(final(out)@) == pointed_to(old(out)@) + items_or_none(*v, key@),
{
    let ghost before = out@;
    match v.get_array(key) {
        Some(items) => {
            let mut i: usize = 0;
            assert(pointed_to(out@) =~= pointed_to(before) + items@.take(0));
            while i < items.len()
                invariant
                    i <= items.len(),
                    pointed_to(out@) == pointed_to(before) + items@.take(i as int),
                decreases items.len() - i,
            {
                let ghost last = out@;
                out.push(&items[i]);
                assert(pointed_to(out@) =~= pointed_to(last).push(items@[i as int]));
                assert(items@.take(i + 1) =~= items@.take(i as int).push(items@[i as int]));
                assert(pointed_to(out@) =~= pointed_to(before) + items@.take(i + 1));
                i = i + 1;
            }
            assert(items@.take(i as int) =~= items@);
        },
        None => {
            assert(pointed_to(out@) =~= pointed_to(before) + Seq::<Json>::empty());
        },
    }
}

/// The transactions that a page adds or changes, in the order in which they are stored.
pub fn page_changes(page: &Json) -> (r: Vec<&Json>)
    ensures
        pointed_to(r@) == items_or_none(*page, "added"@) + items_or_none(*page, "modified"@),
{
    let mut out: Vec<&Json> = Vec::new();
    push_items(&mut out, page, "added");
    assert(pointed_to(out@) =~= items_or_none(*page, "added"@));
    push_items(&mut out, page, "modified");
    out
}

/// The ids among some items, in their order.
pub open spec fn ids_in(items: Seq<Json>) -> Seq<Seq<char>>
    decreases items.len(),
{
    if items.len() == 0 {
        Seq::empty()
    } else {
        match items.last().text_at("transaction_id"@) {
            Some(id) => ids_in(items.drop_last()).push(id),
            None => ids_in(items.drop_last()),
        }
    }
}

/// The views of some strings.
pub open spec fn texts(v: Seq<String>) -> Seq<Seq<char>> {
    v.map_values(|s: String| s@)
}

/// The ids of the transactions that a page takes back.
pub fn page_removals(page: &Json) -> (r: Vec<String>)
    ensures
        texts(r@) == ids_in(items_or_none(*page, "removed"@)),
{
    let mut out: Vec<String> = Vec::new();
    assert(texts(out@) =~= Seq::<Seq<char>>::empty());
    match page.get_array("removed") {
        Some(items) => {
            let mut i: usize = 0;
            assert(items@.take(0) =~= Seq::<Json>::empty());
            while i < items.len()
                invariant
                    i <= items.len(),
                    texts(out@) == ids_in(items@.take(i as int)),
                decreases items.len() - i,
            {
                let ghost last = out@;
                assert(items@.take(i + 1).drop_last() =~= items@.take(i as int));
                assert(items@.take(i + 1).last() == items@[i as int]);
                match text_member(&items[i], "transaction_id") {
                    Some(id) => {
                        out.push(id);
                        assert(texts(out@) =~= texts(last).push(id@));
                    },
                    None => {},
                }
                i = i + 1;
            }
            assert(items@.take(i as int) =~= items@);
        },
        None => {},
    }
    out
}

/// What comes after a page: the cursor that is stored, and whether there is another page.
#[derive(Debug)]
pub struct NextPage {
    pub cursor: Option<String>,
    pub more: bool,
}

/// What comes after a page. The cursor is stored once the page has been applied, before
/// the next one is asked for, so that a failure goes on from the last whole page.
pub fn page_end(page: &Json) -> (r: NextPage)
    ensures
        opt_text(r.cursor) == page.text_at("next_cursor"@),
        r.more == page.is_set("has_more"@),
{
    NextPage { cursor: text_member(page, "next_cursor"), more: page.flag("has_more") }
}

/// How far the feed has been read.
#[derive(Debug)]
pub struct Feed {
    pub cursor: Option<String>,
    pub total: u32,
    pub deleted: usize,
    pub done: bool,
}

impl Feed {
    /// Whether no page has been read yet, and the feed goes on from a stored cursor.
    pub open spec fn is_start(self, cursor: Option<Seq<char>>) -> bool {
        opt_text(self.cursor) == cursor && self.total == 0 && self.deleted == 0 && !self.done
    }

    /// Whether a feed is this one after another page.
    pub open spec fn leads_to(self, page: Json, written: int, deleted: int, next: Feed) -> bool {
        &&& opt_text(next.cursor) == page.text_at("next_cursor"@)
        &&& next.total == self.total + written
        &&& next.deleted == self.deleted + deleted
        &&& next.done == !page.is_set("has_more"@)
    }

    /// The feed from the stored cursor on.
    pub fn start(cursor: Option<String>) -> (r: Feed)
        ensures
            r.cursor == cursor,
            r.is_start(opt_text(cursor)),
    {
        Feed { cursor, total: 0, deleted: 0, done: false }
    }

    /// The feed after a page that has been applied: it wrote some transactions and took
    /// some back. The new cursor is the page's, even where the page has none.
    pub fn advance(&self, page: &Json, written: u32, deleted: usize) -> (r: Feed)
        requires
            self.total + written <= u32::MAX,
            self.deleted + deleted <= usize::MAX,
        ensures
            self.leads_to(*page, written as int, deleted as int, r),
    {
        let end: NextPage = page_end(page);
        Feed {
            cursor: end.cursor,
            total: self.total + written,
            deleted: self.deleted + deleted,
            done: !end.more,
        }
    }
}

/// Whether a feed was read page by page from a stored cursor on: `feeds[i]` is how far it was
/// when `pages[i]` was asked for, and the last one how far it is now. A page wrote and took
/// back so many transactions.
pub open spec fn is_run(
    feeds: Seq<Feed>,
    cursor: Option<Seq<char>>,
    pages: Seq<Json>,
    written: Seq<int>,
    deleted: Seq<int>,
) -> bool {
    &&& feeds.len() == pages.len() + 1
    &&& written.len() == deleted.len() == pages.len()
    &&& feeds[0].is_start(cursor)
    &&& forall|i: int|
        0 <= i < pages.len() ==> !(#[trigger] feeds[i]).done && feeds[i].leads_to(
            pages[i],
            written[i],
            deleted[i],
            feeds[i + 1],
        )
}

/// The sum of some numbers.
pub open spec fn sum_of(v: Seq<int>) -> int
    decreases v.len(),
{
    if v.len() == 0 {
        0
    } else {
        sum_of(v.drop_last()) + v.last()
    }
}

/// A feed that is read page by page counts what every page wrote and took back. The first page
/// is asked for from the stored cursor on, each later one from the cursor of the page before,
/// and the cursor of the last page is the one that is left. The feed ends with the first page
/// that does not say that there is more, and not before.
pub proof fn law_whole_feed(
    feeds: Seq<Feed>,
    cursor: Option<Seq<char>>,
    pages: Seq<Json>,
    written: Seq<int>,
    deleted: Seq<int>,
)
    requires
        is_run(feeds, cursor, pages, written, deleted),
    ensures
        feeds.last().total == sum_of(written),
        feeds.last().deleted == sum_of(deleted),
        opt_text(feeds[0].cursor) == cursor,
        forall|i: int|
            0 < i <= pages.len() ==> opt_text((#[trigger] feeds[i]).cursor) == pages[i - 1].text_at(
                "next_cursor"@,
            ),
        forall|i: int| 0 <= i < pages.len() - 1 ==> (#[trigger] pages[i]).is_set("has_more"@),
        feeds.last().done <==> pages.len() > 0 && !pages.last().is_set("has_more"@),
    decreases pages.len(),
{
    if pages.len() > 0 {
        let n = pages.len() - 1;
        let before = feeds.drop_last();
        let read = pages.drop_last();
        assert(is_run(before, cursor, read, written.drop_last(), deleted.drop_last())) by {
            assert forall|i: int| 0 <= i < read.len() implies !(#[trigger] before[i]).done
                && before[i].leads_to(
                read[i],
                written.drop_last()[i],
                deleted.drop_last()[i],
                before[i + 1],
            ) by {
                assert(before[i] == feeds[i] && before[i + 1] == feeds[i + 1]);
            }
        }
        law_whole_feed(before, cursor, read, written.drop_last(), deleted.drop_last());
        assert(before.last() == feeds[n]);
        assert(!feeds[n].done && feeds[n].leads_to(pages[n], written[n], deleted[n], feeds[n + 1]));
        assert forall|i: int| 0 < i <= pages.len() implies opt_text((#[trigger] feeds[i]).cursor)
            == pages[i - 1].text_at("next_cursor"@) by {
            assert(!feeds[i - 1].done && feeds[i - 1].leads_to(
                pages[i - 1],
                written[i - 1],
                deleted[i - 1],
                feeds[i],
            ));
        }
        assert forall|i: int| 0 <= i < n implies (#[trigger] pages[i]).is_set("has_more"@) by {
            assert(!feeds[i + 1].done);
            assert(!feeds[i].done && feeds[i].leads_to(
                pages[i],
                written[i],
                deleted[i],
                feeds[i + 1],
            ));
        }
    }
}

/// The report of a whole feed.
pub fn feed_report(rows: u32, cursor: Option<String>, deleted: usize) -> (r: RefreshReport)
    ensures
        r.provider_kind@ == "plaid"@,
        r.rows_written == rows,
        r.cursor.0 == cursor,
        opt_text(r.message) == if deleted > 0 {
            Some("removed "@ + dec(deleted as nat) + " stale transaction(s)"@)
        } else {
            None
        },
{
    let message: Option<String> = if deleted > 0 {
        Some(
            "removed ".to_owned().concat(dec_string(deleted as u64).as_str()).concat(
                " stale transaction(s)",
            ),
        )
    } else {
        None
    };
    RefreshReport { provider_kind: "plaid".to_owned(), rows_written: rows, cursor: Cursor(cursor), message }
}

/// The report of the balances.
pub fn balances_report(rows: u32) -> (r: RefreshReport)
    ensures
        super::is_report(r, "plaid"@, rows, None),
{
    report("plaid", rows, None)
}

} // verus!
