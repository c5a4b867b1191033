//! Laws of the transactions and the accounts that the replies of providers become.

use vstd::prelude::*;

verus! {

use crate::db::{Account, Transaction};
use crate::error::Result;
use crate::ids::{AccountId, BusinessId, ProviderId};
use crate::json::Json;
use crate::money::Cents;
use crate::order::sum_over;
use crate::provider::RefreshReport;
use crate::providers::{
    first_member, is_provider_account, is_report, items_or_none, number_at, text_or,
};
use crate::providers::plaid::{category_of, currency_of, humanized, is_reading, TxnHead};
use crate::providers::stripe::int_or_zero;
use crate::providers::usage::{
    is_credits_account, is_postmark_account, postmark_message, results_in, token_of,
};
use crate::providers::vultr::{egress_message, is_egress_account, prefix_of, quota_of};
use crate::recurring::div_toward_zero;
use crate::text::{dec, dec2, dec_int, opt_text, raised_text};
use crate::time::{rfc3339_instant, utc_fields, year_text};

/// What is read under either of two names is under the first where that is there.
pub proof fn law_either_name(v: Json, a: Seq<char>, b: Seq<char>)
    ensures
        v.at(a) is Some ==> first_member(v, a, b) == v.at(a),
        v.at(a) is None ==> first_member(v, a, b) == v.at(b),
{
}

/// A list that is not there is empty, a text that is not there is the one given in its place, and
/// nothing but a number is read as one.
pub proof fn law_absent(v: Json, key: Seq<char>, other: Seq<char>)
    ensures
        v.text_at(key) is Some ==> text_or(v, key, other) == v.text_at(key)->0,
        v.text_at(key) is None ==> text_or(v, key, other) == other,
        v.items_at(key) is Some ==> items_or_none(v, key) == v.items_at(key)->0,
        v.items_at(key) is None ==> items_or_none(v, key).len() == 0,
        v.at(key) is None ==> number_at(v, key) is None,
        v.at(key) is Some ==> number_at(v, key) == (v.at(key)->0).number(),
        v.int_at(key) is Some ==> Some(int_or_zero(v, key)) == v.int_at(key),
        v.int_at(key) is None ==> int_or_zero(v, key) == 0,
{
}

/// An account that a provider brings is new and active, of that provider, and is found again by
/// what the provider calls it.
pub proof fn law_provider_account(
    a: Account,
    name: Seq<char>,
    kind: Seq<char>,
    asset_class: Option<Seq<char>>,
    tier: Option<Seq<char>>,
    currency: Seq<char>,
    provider_id: ProviderId,
    business_id: Option<BusinessId>,
    external_id: Option<Seq<char>>,
)
    requires
        is_provider_account(
            a,
            name,
            kind,
            asset_class,
            tier,
            currency,
            provider_id,
            business_id,
            external_id,
        ),
    ensures
        a.id is None,
        a.active,
        a.name@ == name,
        a.kind@ == kind,
        a.currency@ == currency,
        a.provider_id == Some(provider_id),
        a.business_id == business_id,
        opt_text(a.asset_class) == asset_class,
        opt_text(a.tier) == tier,
        opt_text(a.external_id) == external_id,
{
}

/// What is said of a refresh names the provider, how many rows were written and what happened.
pub proof fn law_report(r: RefreshReport, kind: Seq<char>, rows: u32, message: Option<Seq<char>>)
    requires
        is_report(r, kind, rows, message),
    ensures
        r.provider_kind@ == kind,
        r.rows_written == rows,
        r.cursor.0 is None,
        opt_text(r.message) == message,
{
}

// ---------------------------------------------------------------------------
// Pages of transactions
// ---------------------------------------------------------------------------

/// A page of Stripe gives one transaction for each entry, in their order: at the time it was
/// created, of its amount and in its currency, written in capitals. It is found again by its id.
/// Together they are what the entries add up to.
pub proof fn law_stripe_page(
    r: Seq<Transaction>,
    items: Seq<Json>,
    account_id: AccountId,
    business_id: Option<BusinessId>,
)
    requires
        crate::providers::stripe::are_readings(r, items, account_id, business_id),
    ensures
        r.len() == items.len(),
        forall|i: int|
            0 <= i < r.len() ==> {
                &&& (#[trigger] r[i]).account_id == account_id && r[i].business_id == business_id
                &&& r[i].id is None && r[i].source@ == "stripe"@
                &&& items[i].int_at("created"@) is Some ==> Some(r[i].posted_at)
                    == items[i].int_at("created"@)
                &&& items[i].int_at("amount"@) is Some ==> Some(r[i].amount_cents.0)
                    == items[i].int_at("amount"@)
                &&& items[i].text_at("id"@) is Some ==> opt_text(r[i].external_id)
                    == items[i].text_at("id"@)
                &&& items[i].text_at("currency"@) is Some ==> r[i].currency@ == raised_text(
                    items[i].text_at("currency"@)->0,
                )
                &&& opt_text(r[i].description) == items[i].text_at("description"@)
                &&& opt_text(r[i].category) == items[i].text_at("type"@)
            },
        sum_over(r, |t: Transaction| t.amount_cents.0 as int) == sum_over(
            items,
            |e: Json|
                match e.int_at("amount"@) {
                    Some(n) => n as int,
                    None => 0,
                },
        ),
    decreases r.len(),
{
    if r.len() > 0 {
        assert forall|i: int| 0 <= i < r.len() - 1 implies crate::providers::stripe::is_reading(
            #[trigger] r.drop_last()[i],
            items.drop_last()[i],
            account_id,
            business_id,
        ) by {
            assert(r.drop_last()[i] == r[i]);
        }
        law_stripe_page(r.drop_last(), items.drop_last(), account_id, business_id);
        assert(r[r.len() - 1] == r.last());
    }
}

/// A page of Mercury gives one transaction for each entry, in their order, at the time it was
/// posted, or created where it was not posted yet. It is found again by its id.
pub proof fn law_mercury_page(
    r: Seq<Transaction>,
    items: Seq<Json>,
    account_id: AccountId,
    business_id: Option<BusinessId>,
    cents: Seq<Cents>,
)
    requires
        crate::providers::mercury::are_readings(r, items, account_id, business_id, cents),
    ensures
        r.len() == items.len(),
        forall|i: int|
            0 <= i < r.len() ==> {
                let at = if items[i].at("postedAt"@) is Some {
                    items[i].text_at("postedAt"@)
                } else {
                    items[i].text_at("createdAt"@)
                };
                let by = if items[i].at("counterpartyName"@) is Some {
                    items[i].text_at("counterpartyName"@)
                } else {
                    items[i].text_at("counterpartyNickname"@)
                };
                &&& (#[trigger] r[i]).account_id == account_id && r[i].business_id == business_id
                &&& r[i].id is None && r[i].amount_cents == cents[i]
                &&& at is Some && rfc3339_instant(at->0) is Some ==> Some(r[i].posted_at)
                    == rfc3339_instant(at->0)
                &&& at is None ==> r[i].posted_at == 0
                &&& opt_text(r[i].description) == by
                &&& opt_text(r[i].category) == items[i].text_at("kind"@)
                &&& items[i].text_at("id"@) is Some ==> opt_text(r[i].external_id)
                    == items[i].text_at("id"@)
            },
{
    assert forall|i: int| 0 <= i < r.len() implies crate::providers::mercury::is_reading(
        #[trigger] r[i],
        items[i],
        account_id,
        business_id,
        cents[i],
    ) by {}
}

/// An amount that is not there is nothing.
pub proof fn law_mercury_amount(v: Json, key: Seq<char>)
    ensures
        number_at(v, key) is Some ==> crate::providers::mercury::number_or_zero(v, key)
            == number_at(v, key)->0,
        number_at(v, key) is None ==> crate::providers::mercury::number_or_zero(v, key) == "0"@,
{
}

/// A transaction of Plaid is read where its date can be; it is described by the merchant, or by
/// its own name where no merchant is known.
pub proof fn law_plaid_reading(r: Result<Transaction>, tx: Json, head: TxnHead, cents: Cents)
    requires
        is_reading(r, tx, head, cents),
    ensures
        r is Ok <==> tx.text_at("date"@) is Some && crate::time::date_start(
            tx.text_at("date"@)->0,
        ) is Ok,
        r is Ok ==> r->Ok_0.posted_at == crate::time::date_start(tx.text_at("date"@)->0)->Ok_0,
        r is Ok ==> r->Ok_0.amount_cents.0 == -cents.0,
        r is Ok ==> opt_text(r->Ok_0.description) == if tx.at("merchant_name"@) is Some {
            tx.text_at("merchant_name"@)
        } else {
            tx.text_at("name"@)
        },
        r is Ok && tx.text_at("iso_currency_code"@) is Some ==> Some(r->Ok_0.currency@)
            == tx.text_at("iso_currency_code"@),
        r is Ok ==> opt_text(r->Ok_0.category) == category_of(tx) && r->Ok_0.source@ == "plaid"@,
{
}

/// The category of a transaction of Plaid is the one of the newer list, made readable, where the
/// transaction has one; else it is the first of the older list.
pub proof fn law_plaid_categories(tx: Json)
    ensures
        match tx.at("personal_finance_category"@) {
            Some(p) if p.text_at("primary"@) is Some => category_of(tx) == Some(
                humanized(p.text_at("primary"@)->0),
            ),
            _ => match tx.items_at("category"@) {
                Some(items) if items.len() > 0 => category_of(tx) == items[0].text(),
                _ => category_of(tx) is None,
            },
        },
{
}

/// The currency of an account of Plaid is that of its balances, and the dollar where they name
/// none.
pub proof fn law_plaid_currency(a: Json)
    ensures
        match a.at("balances"@) {
            Some(b) if b.text_at("iso_currency_code"@) is Some => Some(currency_of(a))
                == b.text_at("iso_currency_code"@),
            _ => currency_of(a) == "USD"@,
        },
{
}

// ---------------------------------------------------------------------------
// Readings of usage
// ---------------------------------------------------------------------------

/// The quota that an instance is allowed is what its reply says, and none where it says nothing.
pub proof fn law_quota(instance: Json)
    ensures
        match instance.at("instance"@) {
            Some(i) if i.int_at("allowed_bandwidth"@) is Some => Some(quota_of(instance))
                == i.int_at("allowed_bandwidth"@),
            _ => quota_of(instance) == 0,
        },
{
}

/// What is said of traffic names the traffic, the quota and their share in whole percent; without
/// a quota it says so.
pub proof fn law_egress_message(egress: int, quota: int, percent: int)
    ensures
        quota > 0 && 0 <= percent && percent * quota <= egress * 100 < (percent + 1) * quota
            ==> egress_message(egress, quota) == "MTD egress: "@ + dec_int(egress) + "/"@ + dec_int(
            quota,
        ) + " GB ("@ + dec_int(percent) + "%)"@,
        quota <= 0 ==> egress_message(egress, quota) == "MTD egress: "@ + dec_int(egress)
            + " GB (quota unknown)"@,
{
    if quota > 0 && 0 <= percent && percent * quota <= egress * 100 < (percent + 1) * quota {
        assert(egress * 100 >= 0) by (nonlinear_arith)
            requires
                quota > 0,
                0 <= percent,
                percent * quota <= egress * 100,
        ;
        assert((egress * 100) / quota == percent) by (nonlinear_arith)
            requires
                quota > 0,
                percent * quota <= egress * 100 < (percent + 1) * quota,
        ;
        assert(div_toward_zero(egress * 100, quota) == percent);
    }
}

/// The days of this month are those that begin with its year and its month, in two digits.
pub proof fn law_month_prefix(now: i64)
    ensures
        prefix_of(now) == year_text(utc_fields(now).0 as int) + "-"@ + dec2(
            utc_fields(now).1 as nat,
        ),
{
}

/// Counts of traffic, of credits and of messages are kept as subscriptions, each in a unit of its
/// own that no sum of money takes in.
pub proof fn law_counted(a: Account, label: Seq<char>, provider_id: ProviderId)
    ensures
        is_egress_account(a, label, provider_id) ==> a.name@ == "Vultr — "@ + label
            + " (egress GB)"@ && a.currency@ == "GB"@ && opt_text(a.external_id) == Some(
            "mtd_egress"@,
        ),
        is_credits_account(a, label, provider_id) ==> a.name@ == "ScrapeCreators — "@ + label
            + " (credits)"@ && a.currency@ == "CREDITS"@ && opt_text(a.external_id) == Some(
            "credit-balance"@,
        ),
        is_postmark_account(a, label, provider_id) ==> a.name@ == "Postmark — "@ + label
            + " (msgs)"@ && a.currency@ == "MESSAGES"@ && opt_text(a.external_id) == Some(
            "mtd_sent"@,
        ),
        is_egress_account(a, label, provider_id) || is_credits_account(a, label, provider_id)
            || is_postmark_account(a, label, provider_id) ==> a.kind@ == "subscription"@
            && a.asset_class is None && a.tier is None && a.business_id is None && a.provider_id
            == Some(provider_id) && a.currency@ != "USD"@,
{
    reveal_strlit("USD");
    reveal_strlit("GB");
    reveal_strlit("CREDITS");
    reveal_strlit("MESSAGES");
    assert("USD"@.len() == 3 && "GB"@.len() == 2 && "CREDITS"@.len() == 7 && "MESSAGES"@.len() == 8);
}

/// What is said of messages names their number, and how many servers did not answer where any did
/// not.
pub proof fn law_postmark_message(sent: int, failed: nat)
    ensures
        failed == 0 ==> postmark_message(sent, failed) == "MTD sent: "@ + dec_int(sent)
            + " messages"@,
        failed > 0 ==> postmark_message(sent, failed) == "MTD sent: "@ + dec_int(sent) + (
        " messages ("@ + dec(failed) + " server(s) errored — count understated)"@),
{
}

/// A server is asked with the first of its tokens.
pub proof fn law_server_token(server: Json)
    ensures
        match server.items_at("ApiTokens"@) {
            Some(items) if items.len() > 0 => token_of(server) == items[0].text(),
            _ => token_of(server) is None,
        },
{
}

/// All the results of a page are taken, bucket by bucket.
pub proof fn law_results(buckets: Seq<Json>)
    ensures
        results_in(buckets) == buckets.map_values(
            |b: Json| items_or_none(b, "results"@),
        ).flatten_alt(),
    decreases buckets.len(),
{
    let parts = buckets.map_values(|b: Json| items_or_none(b, "results"@));
    if buckets.len() > 0 {
        law_results(buckets.drop_last());
        assert(parts.drop_last() =~= buckets.drop_last().map_values(
            |b: Json| items_or_none(b, "results"@),
        ));
    }
}

} // verus!
