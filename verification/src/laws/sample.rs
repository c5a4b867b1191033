//! Laws of the sample books.

use vstd::prelude::*;

verus! {

use crate::db::Transaction;
use crate::demo::{
    past_of, reading, scaled_back, series_at, todays, DemoBalance, HISTORY_MONTHS, MONTH,
};
use crate::ids::{AccountId, BusinessId};
use crate::money::Cents;
use crate::text::opt_text;

/// A balance so many months back is a twenty-fifth of today's less for each of them, in whole
/// cents.
pub proof fn law_scaled_back(cents: int, m: int)
    requires
        0 <= cents,
        cents * 100 <= i64::MAX,
        1 <= m <= 6,
    ensures
        100 * scaled_back(cents, m) <= cents * (100 - 4 * m) < 100 * (scaled_back(cents, m) + 1),
        0 <= scaled_back(cents, m) <= cents,
        m < 6 ==> scaled_back(cents, m + 1) <= scaled_back(cents, m),
{
    let raw = cents * (100 - 4 * m);
    assert(0 <= raw <= cents * 100) by (nonlinear_arith)
        requires
            raw == cents * (100 - 4 * m),
            0 <= cents,
            1 <= m <= 6,
    ;
    if m < 6 {
        let less = cents * (100 - 4 * (m + 1));
        assert(0 <= less <= raw) by (nonlinear_arith)
            requires
                raw == cents * (100 - 4 * m),
                less == cents * (100 - 4 * (m + 1)),
                0 <= cents,
                1 <= m < 6,
        ;
    }
}

/// Every account has a reading of now that tells its balance; those in dollars have one for each
/// of six months back besides, thirty days apart, and the others none.
pub proof fn law_readings(balances: Seq<DemoBalance>, now: int, i: int, k: int)
    requires
        0 <= i < balances.len(),
        i64::MIN + HISTORY_MONTHS * MONTH <= now <= i64::MAX,
    ensures
        todays(balances, now).len() == balances.len(),
        todays(balances, now)[i].0 == balances[i].account_id,
        todays(balances, now)[i].1 == now,
        todays(balances, now)[i].2.0 == balances[i].cents,
        !balances[i].dollars ==> past_of(balances[i], now).len() == 0,
        balances[i].dollars ==> past_of(balances[i], now).len() == 6,
        balances[i].dollars && 1 <= k <= 6 ==> past_of(balances[i], now)[k - 1].0
            == balances[i].account_id && past_of(balances[i], now)[k - 1].1 == now - k * 30 * 86_400
            && past_of(balances[i], now)[k - 1].2 == Cents(
            scaled_back(balances[i].cents as int, k) as i64,
        ),
{
    if balances[i].dollars && 1 <= k <= 6 {
        assert(now - k * MONTH == now - k * 30 * 86_400);
        assert(past_of(balances[i], now)[k - 1] == reading(
            balances[i],
            now - (k - 1 + 1) * MONTH,
            scaled_back(balances[i].cents as int, k - 1 + 1),
        ));
    }
}

/// A monthly charge of the sample comes every thirty days with the same words and the same amount,
/// on the same account and for the same business.
pub proof fn law_monthly_charges(
    s: Seq<Transaction>,
    start: int,
    account: AccountId,
    business: Option<BusinessId>,
    payee: Seq<char>,
    cents: int,
    now: int,
    j: int,
)
    requires
        series_at(s, start, account, business, payee, cents, now),
        start <= j < start + 6,
    ensures
        s[j].posted_at == now - (j - start) * 30 * 86_400,
        s[j].amount_cents.0 == cents,
        opt_text(s[j].description) == Some(payee),
        s[j].account_id == account,
        s[j].business_id == business,
        cents < 0 ==> opt_text(s[j].tag) == Some("expense"@),
        cents >= 0 ==> opt_text(s[j].tag) == Some("income"@),
        j + 1 < start + 6 ==> s[j].posted_at - s[j + 1].posted_at == 30 * 86_400,
{
    assert(crate::demo::is_monthly(s[j], account, business, payee, cents, now, j - start));
    assert((j - start) * MONTH == (j - start) * 30 * 86_400);
    if j + 1 < start + 6 {
        assert(crate::demo::is_monthly(
            s[j + 1],
            account,
            business,
            payee,
            cents,
            now,
            j + 1 - start,
        ));
        assert((j + 1 - start) * MONTH == (j - start) * MONTH + MONTH);
    }
}

/// A transaction of the sample is income where it brings something in and an expense where it does
/// not, in dollars, and is known by the name that it was given.
pub proof fn law_sample_posting(
    t: Transaction,
    account: AccountId,
    business: Option<BusinessId>,
    payee: Seq<char>,
    cents: int,
    posted_at: int,
    external: Seq<char>,
)
    requires
        crate::demo::is_posting(t, account, business, payee, cents, posted_at, external),
    ensures
        t.posted_at == posted_at,
        t.amount_cents.0 == cents,
        t.amount_cents.0 < 0 <==> opt_text(t.tag) == Some("expense"@),
        t.amount_cents.0 >= 0 <==> opt_text(t.tag) == Some("income"@),
        t.currency@ == "USD"@,
        opt_text(t.external_id) == Some(external),
        t.source@ == "demo"@,
        payee == "RENT"@ ==> opt_text(t.category) == Some("housing"@),
{
    reveal_strlit("expense");
    reveal_strlit("income");
    assert("expense"@.len() == 7 && "income"@.len() == 6);
}

} // verus!
