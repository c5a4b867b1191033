//! Laws of what is read from the replies of providers.

use vstd::prelude::*;

verus! {

use crate::db::{Account, ProviderRow, Transaction};
use crate::error::Result;
use crate::ids::{AccountId, BusinessId, ProviderId};
use crate::json::Json;
use crate::money::Cents;
use crate::order::{how_many, lemma_sum_same, sum_over};
use crate::providers::{is_secret_of, items_or_none, number_at, sum, Reading};
use crate::providers::mercury::{are_requests, asks_for, has_feed, FeedRequest};
use crate::providers::plaid::{
    balance_of, class_of_type, humanized, ids_in, is_account_reading, is_head, is_plaid_build,
    is_stored, kind_of_type, spaced, PlaidBalance, PlaidParts, TxnHead,
};
use crate::providers::spot::{is_price, TickerFault};
use crate::providers::stripe::{amounts, entries, int_or_zero, last_currency, tag_of};
use crate::providers::usage::{amount_of, credits_of, failures, result_amounts, sent_counts};
use crate::providers::vultr::{bad_day, daily, days_of, is_egress_outcome};
use crate::providers::vultr_cost::{account_name_of, fleet_cost, plan_slot, Instance, Plan};
use crate::recurring::div_toward_zero;
use crate::text::{begins_with, lowered_text, opt_text, raised_text, trimmed, upper_char};

/// Adding up one by one is adding up.
proof fn lemma_sum(s: Seq<i64>)
    ensures
        sum(s) == sum_over(s, |x: i64| x as int),
    decreases s.len(),
{
    if s.len() > 0 {
        lemma_sum(s.drop_last());
    }
}

/// Sums of a list and of another behind it.
proof fn lemma_sum_of_both<T>(a: Seq<T>, b: Seq<T>, f: spec_fn(T) -> int)
    ensures
        sum_over(a + b, f) == sum_over(a, f) + sum_over(b, f),
    decreases b.len(),
{
    if b.len() == 0 {
        assert(a + b =~= a);
    } else {
        lemma_sum_of_both(a, b.drop_last(), f);
        assert((a + b).drop_last() =~= a + b.drop_last());
        assert((a + b).last() == b.last());
    }
}

proof fn lemma_sum_of_map<T>(s: Seq<T>, f: spec_fn(T) -> i64)
    ensures
        sum(s.map_values(f)) == sum_over(s, |x: T| f(x) as int),
    decreases s.len(),
{
    let v = s.map_values(f);
    if s.len() > 0 {
        lemma_sum_of_map(s.drop_last(), f);
        assert(v.drop_last() =~= s.drop_last().map_values(f));
        assert(v.last() == f(s.last()));
    }
}

/// The whole part of a division: as large as it can be without going past the dividend, and of
/// its sign.
pub proof fn law_whole_part(a: int, n: int)
    requires
        n > 0,
    ensures
        a >= 0 ==> 0 <= div_toward_zero(a, n) * n <= a < (div_toward_zero(a, n) + 1) * n,
        a <= 0 ==> (div_toward_zero(a, n) - 1) * n < a <= div_toward_zero(a, n) * n <= 0,
{
    if a >= 0 {
        assert(0 <= (a / n) * n <= a < (a / n + 1) * n) by (nonlinear_arith)
            requires
                n > 0,
                a >= 0,
        ;
    }
    if a <= 0 {
        let b = -a;
        let q = b / n;
        assert(0 <= q * n <= b < (q + 1) * n) by (nonlinear_arith)
            requires
                n > 0,
                b >= 0,
                q == b / n,
        ;
        assert((-q - 1) * n == -((q + 1) * n) && (-q) * n == -(q * n)) by (nonlinear_arith);
        if a == 0 {
            assert(0int / n == 0) by (nonlinear_arith)
                requires
                    n > 0,
            ;
        }
        assert(div_toward_zero(a, n) == -q);
    }
}

// ---------------------------------------------------------------------------
// Stripe
// ---------------------------------------------------------------------------

/// What an entry of a balance reply holds; nothing where it names no amount.
pub open spec fn entry_amount(e: Json) -> int {
    match e.int_at("amount"@) {
        Some(n) => n as int,
        None => 0,
    }
}

/// The balance is what is available and what is pending, together.
pub proof fn law_stripe_balance(reply: Json)
    ensures
        sum(amounts(reply)) == sum_over(
            items_or_none(reply, "available"@),
            |e: Json| entry_amount(e),
        ) + sum_over(items_or_none(reply, "pending"@), |e: Json| entry_amount(e)),
        amounts(reply).len() == items_or_none(reply, "available"@).len() + items_or_none(
            reply,
            "pending"@,
        ).len(),
{
    let all = entries(reply);
    let f = |e: Json| int_or_zero(e, "amount"@);
    let g = |e: Json| entry_amount(e);
    lemma_sum_of_map(all, f);
    lemma_sum_same(all, |e: Json| f(e) as int, g);
    lemma_sum_of_both(items_or_none(reply, "available"@), items_or_none(reply, "pending"@), g);
}

/// The currency of a balance is that of the last entry that names one, in capitals; where none
/// does, it is the dollar.
pub proof fn law_stripe_currency(s: Seq<Json>, k: int)
    ensures
        0 <= k < s.len() && s[k].text_at("currency"@) is Some && (forall|j: int|
            k < j < s.len() ==> (#[trigger] s[j]).text_at("currency"@) is None) ==> last_currency(s)
            == raised_text(s[k].text_at("currency"@)->0),
        (forall|j: int| 0 <= j < s.len() ==> (#[trigger] s[j]).text_at("currency"@) is None)
            ==> last_currency(s) == "USD"@,
    decreases s.len(),
{
    if s.len() > 0 {
        let d = s.drop_last();
        let n = s.len() - 1;
        law_stripe_currency(d, k);
        if forall|j: int| 0 <= j < s.len() ==> (#[trigger] s[j]).text_at("currency"@) is None {
            assert forall|j: int| 0 <= j < d.len() implies (#[trigger] d[j]).text_at("currency"@)
                is None by {
                assert(d[j] == s[j]);
            }
            assert(s[n].text_at("currency"@) is None);
        }
        if 0 <= k < n && s[k].text_at("currency"@) is Some && (forall|j: int|
            k < j < s.len() ==> (#[trigger] s[j]).text_at("currency"@) is None) {
            assert(s[n].text_at("currency"@) is None);
            assert forall|j: int| k < j < d.len() implies (#[trigger] d[j]).text_at("currency"@)
                is None by {
                assert(d[j] == s[j]);
            }
        }
    }
}

/// A charge and a payment are income, a payout and a refund are business; anything else is
/// tagged as what it is.
pub proof fn law_stripe_tag(kind: Seq<char>)
    ensures
        tag_of(Some("charge"@)) == Some("income"@),
        tag_of(Some("payment"@)) == Some("income"@),
        tag_of(Some("payout"@)) == Some("business"@),
        tag_of(Some("refund"@)) == Some("business"@),
        kind != "charge"@ && kind != "payment"@ && kind != "payout"@ && kind != "refund"@ ==> tag_of(
            Some(kind),
        ) == Some(kind),
        tag_of(None) is None,
{
    reveal_strlit("charge");
    reveal_strlit("payment");
    reveal_strlit("payout");
    reveal_strlit("refund");
    assert("charge"@[0] == 'c' && "payment"@.len() == 7 && "payout"@.len() == 6);
    assert("refund"@[0] == 'r' && "payout"@[0] == 'p' && "refund"@.len() == 6);
}

// ---------------------------------------------------------------------------
// Mercury
// ---------------------------------------------------------------------------

/// There is one request for each account of the provider that it knows, in their order.
pub proof fn law_mercury_requests(
    q: Seq<FeedRequest>,
    accounts: Seq<Account>,
    provider_id: ProviderId,
)
    requires
        are_requests(q, accounts, provider_id),
    ensures
        ({
            let fed = accounts.filter(
                |a: Account| a.provider_id == Some(provider_id) && a.external_id is Some,
            );
            &&& q.len() == fed.len()
            &&& forall|i: int|
                0 <= i < q.len() ==> Some((#[trigger] q[i]).account_id) == fed[i].id
                    && q[i].external_id@ == fed[i].external_id->0@ && q[i].path@ == "/account/"@
                    + fed[i].external_id->0@ + "/transactions?limit=500"@
        }),
    decreases accounts.len(),
{
    reveal(Seq::filter);
    let p = |a: Account| a.provider_id == Some(provider_id) && a.external_id is Some;
    if accounts.len() > 0 {
        let d = accounts.drop_last();
        if has_feed(accounts.last(), provider_id) {
            law_mercury_requests(q.drop_last(), d, provider_id);
            let fed = accounts.filter(p);
            assert forall|i: int| 0 <= i < q.len() implies Some((#[trigger] q[i]).account_id)
                == fed[i].id && q[i].external_id@ == fed[i].external_id->0@ && q[i].path@
                == "/account/"@ + fed[i].external_id->0@ + "/transactions?limit=500"@ by {
                if i < q.len() - 1 {
                    assert(q.drop_last()[i] == q[i]);
                    assert(fed[i] == d.filter(p)[i]);
                } else {
                    assert(asks_for(q.last(), accounts.last()));
                }
            }
        } else {
            law_mercury_requests(q, d, provider_id);
        }
    }
}

/// What came in is income, and what went out, or nothing, is business.
pub proof fn law_mercury_tag(
    r: Transaction,
    t: Json,
    account_id: AccountId,
    business_id: Option<BusinessId>,
    cents: Cents,
)
    requires
        crate::providers::mercury::is_reading(r, t, account_id, business_id, cents),
    ensures
        r.account_id == account_id,
        r.business_id == business_id,
        r.amount_cents == cents,
        cents.0 > 0 ==> opt_text(r.tag) == Some("income"@),
        cents.0 <= 0 ==> opt_text(r.tag) == Some("business"@),
        r.currency@ == "USD"@,
        r.source@ == "mercury"@,
{
}

// ---------------------------------------------------------------------------
// Plaid
// ---------------------------------------------------------------------------

/// A credit line or a loan is a debt, an investment is a brokerage account, and anything else an
/// asset. Investments are stocks, and the deposits that can be drawn on are cash.
pub proof fn law_plaid_kind(t: Option<Seq<char>>, sub: Option<Seq<char>>)
    ensures
        kind_of_type(t) == "debt"@ <==> t == Some("credit"@) || t == Some("loan"@),
        kind_of_type(t) == "brokerage"@ <==> t == Some("investment"@) || t == Some("brokerage"@),
        kind_of_type(t) == "debt"@ || kind_of_type(t) == "brokerage"@ || kind_of_type(t) == "asset"@,
        class_of_type(t, sub) == Some("stocks"@) <==> t == Some("investment"@) || t == Some(
            "brokerage"@,
        ),
        class_of_type(t, sub) == Some("cash"@) <==> t == Some("depository"@) && (sub == Some(
            "checking"@,
        ) || sub == Some("savings"@) || sub == Some("cd"@) || sub == Some("money market"@)),
        class_of_type(t, sub) is None || class_of_type(t, sub) == Some("stocks"@) || class_of_type(
            t,
            sub,
        ) == Some("cash"@),
{
    reveal_strlit("debt");
    reveal_strlit("brokerage");
    reveal_strlit("asset");
    reveal_strlit("credit");
    reveal_strlit("loan");
    reveal_strlit("investment");
    reveal_strlit("depository");
    reveal_strlit("cash");
    reveal_strlit("stocks");
    assert("debt"@.len() == 4 && "brokerage"@.len() == 9 && "asset"@.len() == 5);
    assert("credit"@.len() == 6 && "loan"@.len() == 4 && "investment"@.len() == 10);
    assert("depository"@.len() == 10 && "depository"@[0] == 'd' && "investment"@[0] == 'i');
    assert("cash"@.len() == 4 && "stocks"@.len() == 6);
}

/// Of a deposit what is available counts, where it is told, and of any other account what is
/// current.
pub proof fn law_plaid_balance(t: Option<Seq<char>>, b: Json)
    ensures
        t == Some("depository"@) && number_at(b, "available"@) is Some ==> balance_of(t, Some(b))
            == number_at(b, "available"@),
        t == Some("depository"@) && number_at(b, "available"@) is None ==> balance_of(t, Some(b))
            == number_at(b, "current"@),
        t != Some("depository"@) ==> balance_of(t, Some(b)) == number_at(b, "current"@),
        balance_of(t, None) is None,
{
}

/// What the provider calls a positive amount left the account, so the sign turns; the rest is
/// stored as it was read.
pub proof fn law_plaid_sign(t: Transaction, tx: Json, head: TxnHead, cents: Cents, posted_at: i64)
    requires
        is_stored(t, tx, head, cents, posted_at),
    ensures
        t.amount_cents.0 + cents.0 == 0,
        cents.0 > 0 <==> t.amount_cents.0 < 0,
        t.posted_at == posted_at,
        t.account_id == head.account_id,
        t.business_id == head.business_id,
        opt_text(t.external_id) == Some(head.external_id@),
        t.tag is None,
{
}

/// A category in capitals and underscores is shown as words, of which the first has a capital:
/// no underscore is left, and behind the first letter all is in lower case.
pub proof fn law_plaid_category(primary: Seq<char>)
    ensures
        ({
            let low = lowered_text(trimmed(primary));
            &&& low.len() == 0 ==> humanized(primary).len() == 0
            &&& low.len() > 0 ==> {
                let first = if low[0] == '_' {
                    ' '
                } else {
                    low[0]
                };
                let head = upper_char(first);
                &&& humanized(primary).len() == head.len() + low.len() - 1
                &&& humanized(primary).take(head.len() as int) == head
                &&& forall|i: int|
                    1 <= i < low.len() ==> humanized(primary)[head.len() + i - 1] == if (
                    #[trigger] low[i]) == '_' {
                        ' '
                    } else {
                        low[i]
                    }
            }
        }),
{
    let low = lowered_text(trimmed(primary));
    let s = spaced(low);
    if low.len() > 0 {
        let head = upper_char(s[0]);
        assert(humanized(primary).take(head.len() as int) =~= head);
    }
}

/// The withdrawn ids are those that are told, in their order.
pub proof fn law_plaid_removals(items: Seq<Json>)
    ensures
        ids_in(items) == items.filter(|v: Json| v.text_at("transaction_id"@) is Some).map_values(
            |v: Json| v.text_at("transaction_id"@)->0,
        ),
    decreases items.len(),
{
    reveal(Seq::filter);
    let p = |v: Json| v.text_at("transaction_id"@) is Some;
    let f = |v: Json| v.text_at("transaction_id"@)->0;
    if items.len() > 0 {
        law_plaid_removals(items.drop_last());
        let d = items.drop_last().filter(p);
        if p(items.last()) {
            assert(d.push(items.last()).map_values(f) =~= d.map_values(f).push(f(items.last())));
        }
    } else {
        assert(items.filter(p).map_values(f) =~= Seq::empty());
    }
}

// ---------------------------------------------------------------------------
// Usage and hosting
// ---------------------------------------------------------------------------

/// The traffic of a month is what went out on its days together.
pub proof fn law_egress(ms: Seq<(String, Json)>, prefix: Seq<char>)
    requires
        bad_day(ms, prefix) is None,
    ensures
        sum(days_of(ms, prefix)) == sum_over(
            ms,
            |m: (String, Json)|
                if begins_with(m.0@, prefix) && m.1.int_at("outgoing_bytes"@) is Some {
                    m.1.int_at("outgoing_bytes"@)->0 as int
                } else {
                    0
                },
        ),
        days_of(ms, prefix).len() == how_many(
            ms,
            |m: (String, Json)| begins_with(m.0@, prefix),
        ),
        forall|i: int|
            0 <= i < ms.len() && begins_with((#[trigger] ms[i]).0@, prefix) ==> ms[i].1.int_at(
                "outgoing_bytes"@,
            ) is Some,
    decreases ms.len(),
{
    reveal(Seq::filter);
    if ms.len() > 0 {
        let n = ms.len() - 1;
        let d = ms.drop_last();
        law_egress(d, prefix);
        let before = days_of(d, prefix);
        let after = days_of(ms, prefix);
        if after.len() == before.len() + 1 {
            assert(after.drop_last() =~= before);
        }
        assert forall|i: int| 0 <= i < ms.len() && begins_with((#[trigger] ms[i]).0@, prefix) implies ms[i].1.int_at(
        "outgoing_bytes"@) is Some by {
            if i < n {
                assert(d[i] == ms[i]);
            }
        }
    }
}

/// What an instance costs: the price of the first plan of its name.
pub open spec fn price_of(inst: Instance, plans: Seq<Plan>, cents: int) -> bool {
    exists|k: int|
        0 <= k < plans.len() && (#[trigger] plans[k]).id@ == inst.plan@ && (forall|j: int|
            0 <= j < k ==> (#[trigger] plans[j]).id@ != inst.plan@) && plans[k].monthly_cost is Ok
            && plans[k].monthly_cost->Ok_0 == cents
}

/// What a fleet costs is what its instances cost together, each at the price of its plan.
pub proof fn law_fleet_cost(instances: Seq<Instance>, plans: Seq<Plan>, costs: Seq<int>)
    requires
        costs.len() == instances.len(),
        forall|i: int| 0 <= i < costs.len() ==> price_of(instances[i], plans, #[trigger] costs[i]),
    ensures
        fleet_cost(instances, plans) is Ok,
        fleet_cost(instances, plans)->Ok_0 == sum_over(costs, |c: int| c),
    decreases instances.len(),
{
    if instances.len() > 0 {
        let n = instances.len() - 1;
        let (d, c) = (instances.drop_last(), costs.drop_last());
        assert forall|i: int| 0 <= i < c.len() implies price_of(d[i], plans, #[trigger] c[i]) by {
            assert(d[i] == instances[i] && c[i] == costs[i]);
        }
        law_fleet_cost(d, plans, c);
        let inst = instances[n];
        assert(price_of(inst, plans, costs[n]));
        let k = choose|k: int|
            0 <= k < plans.len() && (#[trigger] plans[k]).id@ == inst.plan@ && (forall|j: int|
                0 <= j < k ==> (#[trigger] plans[j]).id@ != inst.plan@) && plans[k].monthly_cost
                is Ok && plans[k].monthly_cost->Ok_0 == costs[n];
        crate::order::lemma_first_index(plans, |p: Plan| p.id@ == inst.plan@, k);
        assert(plan_slot(plans, inst.plan@) == k);
    }
}

/// What was sent is what the servers that answered sent together; the others are counted.
pub proof fn law_postmark_tally(answers: Seq<Option<Json>>)
    ensures
        sum(sent_counts(answers)) == sum_over(
            answers,
            |a: Option<Json>|
                match a {
                    Some(stats) => match stats.int_at("Sent"@) {
                        Some(n) => n as int,
                        None => 0,
                    },
                    None => 0,
                },
        ),
        failures(answers) == how_many(answers, |a: Option<Json>| a is None),
        sent_counts(answers).len() + failures(answers) == answers.len(),
    decreases answers.len(),
{
    reveal(Seq::filter);
    if answers.len() > 0 {
        let d = answers.drop_last();
        law_postmark_tally(d);
        let before = sent_counts(d);
        let after = sent_counts(answers);
        if answers.last() is Some {
            assert(after.drop_last() =~= before);
        }
    }
}

// ---------------------------------------------------------------------------
// Secrets and settings
// ---------------------------------------------------------------------------

/// A provider is built with the secret that it refers to, by the first of that name; without a
/// reference, or where no secret has the name, it is not built.
pub proof fn law_secret_of(
    r: core::result::Result<usize, String>,
    kind: Seq<char>,
    row: ProviderRow,
    names: Seq<String>,
)
    requires
        is_secret_of(r, kind, row, names),
    ensures
        r is Ok <==> row.secret_ref is Some && exists|i: int|
            0 <= i < names.len() && (#[trigger] names[i])@ == row.secret_ref->0@,
        r is Ok ==> r->Ok_0 < names.len() && names[r->Ok_0 as int]@ == row.secret_ref->0@ && forall|
            j: int,
        |
            0 <= j < r->Ok_0 ==> (#[trigger] names[j])@ != row.secret_ref->0@,
{
}

/// A Plaid client talks to the service of its environment, of which there are two, with that
/// environment's own secret.
pub proof fn law_plaid_build(
    r: core::result::Result<PlaidParts, String>,
    row: ProviderRow,
    env: Seq<char>,
    names: Seq<String>,
)
    requires
        is_plaid_build(r, row, env, names),
    ensures
        r is Ok ==> env == "sandbox"@ || env == "production"@,
        r is Ok && env == "sandbox"@ ==> r->Ok_0.base_url@ == "https://sandbox.plaid.com"@
            && names[r->Ok_0.secret as int]@ == "plaid_"@ + "sandbox"@ + "_secret"@,
        r is Ok && env == "production"@ ==> r->Ok_0.base_url@ == "https://production.plaid.com"@
            && names[r->Ok_0.secret as int]@ == "plaid_"@ + "production"@ + "_secret"@,
        r is Ok ==> names[r->Ok_0.client_id as int]@ == "plaid_client_id"@,
        r is Ok ==> row.secret_ref is Some && names[r->Ok_0.access_token as int]@
            == row.secret_ref->0@,
{
    reveal_strlit("sandbox");
    reveal_strlit("production");
    assert("sandbox"@.len() == 7 && "production"@.len() == 10);
}

/// An account that Plaid tells of is stored under its own id with its own words; without a
/// balance it is refused.
pub proof fn law_plaid_account(r: Result<PlaidBalance>, a: Json, provider_id: ProviderId)
    requires
        is_account_reading(r, a, provider_id),
    ensures
        r is Ok <==> balance_of(a.text_at("type"@), a.at("balances"@)) is Some,
        r is Ok ==> r->Ok_0.balance@ == balance_of(a.text_at("type"@), a.at("balances"@))->0,
        r is Ok && a.text_at("account_id"@) is Some ==> opt_text(r->Ok_0.account.external_id)
            == a.text_at("account_id"@),
        r is Ok && a.text_at("name"@) is Some ==> r->Ok_0.account.name@ == a.text_at("name"@)->0,
        r is Ok ==> r->Ok_0.account.provider_id == Some(provider_id) && r->Ok_0.account.active
            && r->Ok_0.account.tier is None && r->Ok_0.account.business_id is None,
        r is Ok ==> r->Ok_0.account.kind@ == kind_of_type(a.text_at("type"@)),
        r is Ok ==> opt_text(r->Ok_0.account.asset_class) == class_of_type(
            a.text_at("type"@),
            a.text_at("subtype"@),
        ),
{
}

/// A transaction that Plaid tells of belongs to the first account of the provider that is stored
/// under its id, and to that account's business.
pub proof fn law_plaid_head(
    r: Result<TxnHead>,
    tx: Json,
    accounts: Seq<Account>,
    provider_id: ProviderId,
    k: int,
)
    requires
        is_head(r, tx, accounts, provider_id),
        tx.text_at("account_id"@) is Some,
        tx.text_at("transaction_id"@) is Some,
        number_at(tx, "amount"@) is Some,
        0 <= k < accounts.len(),
        accounts[k].provider_id == Some(provider_id),
        opt_text(accounts[k].external_id) == tx.text_at("account_id"@),
        forall|j: int|
            0 <= j < k ==> !((#[trigger] accounts[j]).provider_id == Some(provider_id) && opt_text(
                accounts[j].external_id,
            ) == tx.text_at("account_id"@)),
    ensures
        r is Ok,
        Some(r->Ok_0.account_id) == accounts[k].id,
        r->Ok_0.business_id == accounts[k].business_id,
        Some(r->Ok_0.external_id@) == tx.text_at("transaction_id"@),
        Some(r->Ok_0.amount@) == number_at(tx, "amount"@),
{
    let external = tx.text_at("account_id"@)->0;
    crate::order::lemma_first_index(
        accounts,
        |row: Account| crate::db::is_external_account(row, provider_id, external),
        k,
    );
}

// ---------------------------------------------------------------------------
// Prices and figures
// ---------------------------------------------------------------------------

/// The spot price is the last trade of the first market in the reply; a reply that tells of an
/// error gives none.
pub proof fn law_spot_price(r: core::result::Result<String, TickerFault>, reply: Json)
    requires
        is_price(r, reply),
    ensures
        reply.items_at("error"@) is Some && (reply.items_at("error"@)->0).len() > 0 ==> r
            == Err::<String, TickerFault>(TickerFault::Exchange),
        r is Ok ==> reply.at("result"@) is Some && (reply.at("result"@)->0).members() is Some && ({
            let ms = (reply.at("result"@)->0).members()->0;
            ms.len() > 0 && ms[0].1.items_at("c"@) is Some && (ms[0].1.items_at("c"@)->0).len() > 0
                && (ms[0].1.items_at("c"@)->0)[0].text() == Some(r->Ok_0@)
        }),
{
}

/// The costs of a page are those of its results that name an amount, in their order; one that is
/// no number spoils the page.
pub proof fn law_cost_amounts(results: Seq<Json>)
    ensures
        result_amounts(results) is None <==> exists|i: int|
            0 <= i < results.len() && cost_amount(#[trigger] results[i]) is Some && cost_amount(
                results[i],
            )->0 is None,
        result_amounts(results) is Some ==> result_amounts(results)->0 == results.filter(
            |v: Json| amount_of(v) is Some,
        ).map_values(|v: Json| amount_of(v)->0->0),
    decreases results.len(),
{
    reveal(Seq::filter);
    let p = |v: Json| amount_of(v) is Some;
    let f = |v: Json| amount_of(v)->0->0;
    if results.len() > 0 {
        let n = results.len() - 1;
        let d = results.drop_last();
        law_cost_amounts(d);
        if result_amounts(d) is None {
            let i = choose|i: int|
                0 <= i < d.len() && cost_amount(#[trigger] d[i]) is Some && cost_amount(d[i])->0
                    is None;
            assert(cost_amount(results[i]) is Some && cost_amount(results[i])->0 is None);
        } else if result_amounts(results) is None {
            assert(cost_amount(results[n]) is Some && cost_amount(results[n])->0 is None);
        } else {
            assert forall|i: int| 0 <= i < results.len() implies !(cost_amount(
                #[trigger] results[i],
            ) is Some && cost_amount(results[i])->0 is None) by {
                if i < n {
                    assert(d[i] == results[i]);
                }
            }
            if p(results.last()) {
                assert(d.filter(p).push(results.last()).map_values(f) =~= d.filter(p).map_values(
                    f,
                ).push(f(results.last())));
            }
        }
    } else {
        assert(results.filter(p).map_values(f) =~= Seq::empty());
    }
}

/// The amount that a result names: none where there is no such member, and else its number where
/// it is one.
pub open spec fn cost_amount(v: Json) -> Option<Option<Seq<char>>> {
    match v.at("amount"@) {
        Some(a) => match a.at("value"@) {
            Some(x) => Some(x.number()),
            None => None,
        },
        None => None,
    }
}

/// The credits are those under the newer of two names where it is there, and else those under
/// the older.
pub proof fn law_credits(reply: Json)
    ensures
        reply.at("creditCount"@) is Some ==> credits_of(reply) == (reply.at(
            "creditCount"@,
        )->0).integer(),
        reply.at("creditCount"@) is None && reply.at("credits"@) is Some ==> credits_of(reply) == (
        reply.at("credits"@)->0).integer(),
        reply.at("creditCount"@) is None && reply.at("credits"@) is None ==> credits_of(reply)
            is None,
{
}

/// The traffic that is stored is the whole gigabytes of what went out on the days of the month, on
/// an account that counts gigabytes.
pub proof fn law_egress_reading(
    r: Result<Reading>,
    instance: Json,
    bandwidth: Json,
    prefix: Seq<char>,
    label: Seq<char>,
    provider_id: ProviderId,
    ms: Seq<(String, Json)>,
)
    requires
        is_egress_outcome(r, instance, bandwidth, prefix, label, provider_id),
        daily(bandwidth) == Some(ms),
        bad_day(ms, prefix) is None,
        sum(days_of(ms, prefix)) >= 0,
    ensures
        r is Ok,
        r->Ok_0.balance.0 * 1_000_000_000 <= sum(days_of(ms, prefix)) < (r->Ok_0.balance.0 + 1)
            * 1_000_000_000,
        r->Ok_0.account.currency@ == "GB"@,
        r->Ok_0.account.kind@ == "subscription"@,
        r->Ok_0.account.provider_id == Some(provider_id),
{
    law_whole_part(sum(days_of(ms, prefix)), 1_000_000_000);
}

/// The account of a fleet's cost goes by the name that was set, unless that is blank.
pub proof fn law_cost_account_name(configured: Seq<char>)
    ensures
        trimmed(configured).len() > 0 ==> account_name_of(Some(configured)) == trimmed(configured),
        trimmed(configured).len() == 0 ==> account_name_of(Some(configured)) == "Vultr VPS hosting"@,
        account_name_of(None) == "Vultr VPS hosting"@,
{
}

} // verus!
