//! Laws of the capital tiers and their rebalance bands.

use vstd::prelude::*;

verus! {

use crate::db::Account;
use crate::ids::AccountId;
use crate::money::Cents;
use crate::order::{lemma_sum_adds, lemma_sum_bounded, size_of, sum_over};
use crate::pp::{
    account_by_id, balance_sleeve, has_breach, is_allocation, is_backbone, is_drift, sleeve_of,
    sleeve_total, Allocation, Backbone, DriftRow, Sleeve,
};
use crate::text::opt_text;

/// Whether no two accounts have the same id.
pub open spec fn ids_differ(accounts: Seq<Account>) -> bool {
    forall|i: int, j: int|
        0 <= i < j < accounts.len() && (#[trigger] accounts[i]).id is Some ==> accounts[i].id != (
        #[trigger] accounts[j]).id
}

/// Whether an id is that of a dollar account of a tier whose class is one of two.
pub open spec fn stands_in(
    accounts: Seq<Account>,
    id: AccountId,
    tier: Seq<char>,
    class: Seq<char>,
    alias: Seq<char>,
) -> bool {
    exists|i: int|
        0 <= i < accounts.len() && (#[trigger] accounts[i]).id == Some(id) && in_dollars(
            accounts[i],
            tier,
        ) && (opt_text(accounts[i].asset_class) == Some(class) || opt_text(accounts[i].asset_class)
            == Some(alias))
}

/// Whether an account is in a tier, in dollars.
pub open spec fn in_dollars(a: Account, tier: Seq<char>) -> bool {
    a.currency@ == "USD"@ && opt_text(a.tier) == Some(tier)
}

/// Whether an id is that of a dollar account of a tier.
pub open spec fn stands_in_tier(accounts: Seq<Account>, id: AccountId, tier: Seq<char>) -> bool {
    exists|i: int|
        0 <= i < accounts.len() && (#[trigger] accounts[i]).id == Some(id) && in_dollars(
            accounts[i],
            tier,
        )
}

/// The sum of the balances whose account belongs somewhere.
pub open spec fn held(
    balances: Seq<(AccountId, Cents)>,
    belongs: spec_fn(AccountId) -> bool,
) -> int {
    sum_over(
        balances,
        |b: (AccountId, Cents)|
            if belongs(b.0) {
                b.1.0 as int
            } else {
                0
            },
    )
}

/// Whether the sizes of all balances add up to 64 bits, so that no sum of some leaves them.
pub open spec fn sums_fit(balances: Seq<(AccountId, Cents)>) -> bool {
    sum_over(balances, |b: (AccountId, Cents)| size_of(b.1.0 as int)) <= i64::MAX
}

proof fn lemma_first_is_the_one(accounts: Seq<Account>, id: AccountId, i: int)
    requires
        ids_differ(accounts),
        0 <= i < accounts.len(),
        accounts[i].id == Some(id),
    ensures
        account_by_id(accounts, id) == Some(accounts[i]),
    decreases accounts.len(),
{
    if i > 0 {
        assert(accounts[0].id != accounts[i].id);
        let rest = accounts.skip(1);
        assert forall|a: int, b: int|
            0 <= a < b < rest.len() && (#[trigger] rest[a]).id is Some implies rest[a].id != (
        #[trigger] rest[b]).id by {
            assert(rest[a] == accounts[a + 1] && rest[b] == accounts[b + 1]);
        }
        assert(rest[i - 1] == accounts[i]);
        lemma_first_is_the_one(rest, id, i - 1);
    }
}

proof fn lemma_found_is_there(accounts: Seq<Account>, id: AccountId) -> (i: int)
    requires
        account_by_id(accounts, id) is Some,
    ensures
        0 <= i < accounts.len(),
        accounts[i].id == Some(id),
        account_by_id(accounts, id) == Some(accounts[i]),
    decreases accounts.len(),
{
    if accounts[0].id == Some(id) {
        0
    } else {
        let j = lemma_found_is_there(accounts.skip(1), id);
        assert(accounts.skip(1)[j] == accounts[j + 1]);
        j + 1
    }
}

/// What holds of the account with an id, where there is one.
proof fn lemma_found_like(accounts: Seq<Account>, id: AccountId, p: spec_fn(Account) -> bool)
    requires
        ids_differ(accounts),
    ensures
        (exists|i: int| 0 <= i < accounts.len() && (#[trigger] accounts[i]).id == Some(id) && p(accounts[i]))
            <==> account_by_id(accounts, id) is Some && p(account_by_id(accounts, id)->0),
{
    if exists|i: int|
        0 <= i < accounts.len() && (#[trigger] accounts[i]).id == Some(id) && p(accounts[i]) {
        let i = choose|i: int|
            0 <= i < accounts.len() && (#[trigger] accounts[i]).id == Some(id) && p(accounts[i]);
        lemma_first_is_the_one(accounts, id, i);
    }
    if account_by_id(accounts, id) is Some {
        let i = lemma_found_is_there(accounts, id);
    }
}

/// A sleeve is the sum over the accounts that have it.
proof fn lemma_sleeve_is_held(
    balances: Seq<(AccountId, Cents)>,
    accounts: Seq<Account>,
    s: Sleeve,
    belongs: spec_fn(AccountId) -> bool,
)
    requires
        forall|id: AccountId| #[trigger] belongs(id) == (balance_sleeve(accounts, id) == s),
        sums_fit(balances),
    ensures
        sleeve_total(balances, accounts, s).0 == held(balances, belongs),
    decreases balances.len(),
{
    let g = |b: (AccountId, Cents)| size_of(b.1.0 as int);
    let f = |b: (AccountId, Cents)|
        if belongs(b.0) {
            b.1.0 as int
        } else {
            0
        };
    lemma_sum_bounded(balances, f, g);
    if balances.len() > 0 {
        lemma_sleeve_is_held(balances.drop_last(), accounts, s, belongs);
        assert(belongs(balances.last().0) == (balance_sleeve(accounts, balances.last().0) == s));
    }
}

proof fn lemma_words()
    ensures
        "t1"@ != "t2"@,
        "equity"@ != "long_treasuries"@,
        "equity"@ != "bonds"@,
        "equity"@ != "cash"@,
        "equity"@ != "gold_etf"@,
        "stocks"@ != "long_treasuries"@,
        "stocks"@ != "bonds"@,
        "stocks"@ != "cash"@,
        "stocks"@ != "gold_etf"@,
        "long_treasuries"@ != "cash"@,
        "long_treasuries"@ != "gold_etf"@,
        "bonds"@ != "cash"@,
        "bonds"@ != "gold_etf"@,
        "cash"@ != "gold_etf"@,
        "gold"@ != "silver"@,
        "gold"@ != "xmr"@,
        "gold"@ != "monero"@,
        "gold"@ != "land"@,
        "gold"@ != "sfr"@,
        "gold"@ != "real_estate"@,
        "silver"@ != "xmr"@,
        "silver"@ != "monero"@,
        "silver"@ != "land"@,
        "silver"@ != "sfr"@,
        "silver"@ != "real_estate"@,
        "xmr"@ != "land"@,
        "xmr"@ != "sfr"@,
        "xmr"@ != "real_estate"@,
        "monero"@ != "land"@,
        "monero"@ != "sfr"@,
        "monero"@ != "real_estate"@,
        "land"@ != "sfr"@,
        "land"@ != "real_estate"@,
{
    reveal_strlit("t1");
    reveal_strlit("t2");
    reveal_strlit("equity");
    reveal_strlit("stocks");
    reveal_strlit("long_treasuries");
    reveal_strlit("bonds");
    reveal_strlit("cash");
    reveal_strlit("gold_etf");
    reveal_strlit("gold");
    reveal_strlit("silver");
    reveal_strlit("xmr");
    reveal_strlit("monero");
    reveal_strlit("land");
    reveal_strlit("sfr");
    reveal_strlit("real_estate");
    assert("t1"@[1] == '1' && "t2"@[1] == '2');
    assert("equity"@[0] == 'e' && "stocks"@[0] == 's' && "long_treasuries"@[0] == 'l');
    assert("bonds"@[0] == 'b' && "cash"@[0] == 'c' && "gold_etf"@[0] == 'g');
    assert("gold"@[0] == 'g' && "silver"@[0] == 's' && "xmr"@[0] == 'x' && "monero"@[0] == 'm');
    assert("land"@[0] == 'l' && "sfr"@[0] == 's' && "real_estate"@[0] == 'r');
    assert("silver"@.len() == 6 && "sfr"@.len() == 3);
}

/// The sleeves of tier 2 add up: each holds the exact sum of the balances of the dollar
/// accounts of the tier that have its class, and the total the sum of all dollar accounts of
/// the tier, whatever their class.
pub proof fn law_allocation_adds_up(
    r: Allocation,
    balances: Seq<(AccountId, Cents)>,
    accounts: Seq<Account>,
)
    requires
        is_allocation(r, balances, accounts),
        ids_differ(accounts),
        sums_fit(balances),
    ensures
        r.equity.0 == held(
            balances,
            |id: AccountId| stands_in(accounts, id, "t2"@, "equity"@, "stocks"@),
        ),
        r.long_treasuries.0 == held(
            balances,
            |id: AccountId| stands_in(accounts, id, "t2"@, "long_treasuries"@, "bonds"@),
        ),
        r.cash.0 == held(
            balances,
            |id: AccountId| stands_in(accounts, id, "t2"@, "cash"@, "cash"@),
        ),
        r.gold_etf.0 == held(
            balances,
            |id: AccountId| stands_in(accounts, id, "t2"@, "gold_etf"@, "gold_etf"@),
        ),
        r.total.0 == held(balances, |id: AccountId| stands_in_tier(accounts, id, "t2"@)),
        r.total.0 == r.equity.0 + r.long_treasuries.0 + r.cash.0 + r.gold_etf.0 + r.other.0,
{
    lemma_words();
    let e = |id: AccountId| stands_in(accounts, id, "t2"@, "equity"@, "stocks"@);
    let l = |id: AccountId| stands_in(accounts, id, "t2"@, "long_treasuries"@, "bonds"@);
    let c = |id: AccountId| stands_in(accounts, id, "t2"@, "cash"@, "cash"@);
    let g = |id: AccountId| stands_in(accounts, id, "t2"@, "gold_etf"@, "gold_etf"@);
    let o = |id: AccountId| balance_sleeve(accounts, id) == Sleeve::OtherT2;
    let all = |id: AccountId| stands_in_tier(accounts, id, "t2"@);
    assert forall|id: AccountId| #[trigger]
        e(id) == (balance_sleeve(accounts, id) == Sleeve::Equity) by {
        lemma_class_stands(accounts, id, "t2"@, "equity"@, "stocks"@);
    }
    assert forall|id: AccountId| #[trigger]
        l(id) == (balance_sleeve(accounts, id) == Sleeve::LongTreasuries) by {
        lemma_class_stands(accounts, id, "t2"@, "long_treasuries"@, "bonds"@);
    }
    assert forall|id: AccountId| #[trigger]
        c(id) == (balance_sleeve(accounts, id) == Sleeve::Cash) by {
        lemma_class_stands(accounts, id, "t2"@, "cash"@, "cash"@);
    }
    assert forall|id: AccountId| #[trigger]
        g(id) == (balance_sleeve(accounts, id) == Sleeve::GoldEtf) by {
        lemma_class_stands(accounts, id, "t2"@, "gold_etf"@, "gold_etf"@);
    }
    lemma_sleeve_is_held(balances, accounts, Sleeve::Equity, e);
    lemma_sleeve_is_held(balances, accounts, Sleeve::LongTreasuries, l);
    lemma_sleeve_is_held(balances, accounts, Sleeve::Cash, c);
    lemma_sleeve_is_held(balances, accounts, Sleeve::GoldEtf, g);
    lemma_sleeve_is_held(balances, accounts, Sleeve::OtherT2, o);
    let t2 = |s: Sleeve|
        s is Equity || s is LongTreasuries || s is Cash || s is GoldEtf || s is OtherT2;
    assert forall|id: AccountId| #[trigger] all(id) == t2(balance_sleeve(accounts, id)) by {
        lemma_found_like(accounts, id, |a: Account| in_dollars(a, "t2"@));
    }
    lemma_held_adds(balances, e, l, |id: AccountId| e(id) || l(id));
    lemma_held_adds(
        balances,
        |id: AccountId| e(id) || l(id),
        c,
        |id: AccountId| e(id) || l(id) || c(id),
    );
    lemma_held_adds(
        balances,
        |id: AccountId| e(id) || l(id) || c(id),
        g,
        |id: AccountId| e(id) || l(id) || c(id) || g(id),
    );
    assert forall|id: AccountId| #[trigger]
        all(id) == (e(id) || l(id) || c(id) || g(id) || o(id)) by {
        assert(all(id) == t2(balance_sleeve(accounts, id)));
        assert(e(id) == (balance_sleeve(accounts, id) == Sleeve::Equity));
        assert(l(id) == (balance_sleeve(accounts, id) == Sleeve::LongTreasuries));
        assert(c(id) == (balance_sleeve(accounts, id) == Sleeve::Cash));
        assert(g(id) == (balance_sleeve(accounts, id) == Sleeve::GoldEtf));
    }
    lemma_held_adds(balances, |id: AccountId| e(id) || l(id) || c(id) || g(id), o, all);
    lemma_held_fits(balances, |id: AccountId| e(id) || l(id));
    lemma_held_fits(balances, |id: AccountId| e(id) || l(id) || c(id));
    lemma_held_fits(balances, |id: AccountId| e(id) || l(id) || c(id) || g(id));
    lemma_held_fits(balances, all);
}

proof fn lemma_class_stands(
    accounts: Seq<Account>,
    id: AccountId,
    tier: Seq<char>,
    class: Seq<char>,
    alias: Seq<char>,
)
    requires
        ids_differ(accounts),
    ensures
        stands_in(accounts, id, tier, class, alias) == (account_by_id(accounts, id) is Some
            && in_dollars(account_by_id(accounts, id)->0, tier) && (opt_text(
            account_by_id(accounts, id)->0.asset_class,
        ) == Some(class) || opt_text(account_by_id(accounts, id)->0.asset_class) == Some(alias))),
{
    lemma_found_like(
        accounts,
        id,
        |a: Account|
            in_dollars(a, tier) && (opt_text(a.asset_class) == Some(class) || opt_text(
                a.asset_class,
            ) == Some(alias)),
    );
}

/// What two kinds hold that share no account, together they hold.
proof fn lemma_held_adds(
    balances: Seq<(AccountId, Cents)>,
    a: spec_fn(AccountId) -> bool,
    b: spec_fn(AccountId) -> bool,
    both: spec_fn(AccountId) -> bool,
)
    requires
        forall|id: AccountId| #[trigger] both(id) == (a(id) || b(id)),
        forall|id: AccountId| #[trigger] both(id) ==> !(a(id) && b(id)),
    ensures
        held(balances, both) == held(balances, a) + held(balances, b),
{
    let f = |x: (AccountId, Cents)|
        if a(x.0) {
            x.1.0 as int
        } else {
            0
        };
    let g = |x: (AccountId, Cents)|
        if b(x.0) {
            x.1.0 as int
        } else {
            0
        };
    let h = |x: (AccountId, Cents)|
        if both(x.0) {
            x.1.0 as int
        } else {
            0
        };
    assert forall|i: int| 0 <= i < balances.len() implies h(#[trigger] balances[i]) == f(
        balances[i],
    ) + g(balances[i]) by {
        assert(both(balances[i].0) == (a(balances[i].0) || b(balances[i].0)));
    }
    lemma_sum_adds(balances, f, g, h);
}

proof fn lemma_held_fits(balances: Seq<(AccountId, Cents)>, a: spec_fn(AccountId) -> bool)
    requires
        sums_fit(balances),
    ensures
        -i64::MAX <= held(balances, a) <= i64::MAX,
{
    lemma_sum_bounded(
        balances,
        |x: (AccountId, Cents)|
            if a(x.0) {
                x.1.0 as int
            } else {
                0
            },
        |x: (AccountId, Cents)| size_of(x.1.0 as int),
    );
}

/// The classes of tier 1 add up in the same way.
pub proof fn law_backbone_adds_up(
    r: Backbone,
    balances: Seq<(AccountId, Cents)>,
    accounts: Seq<Account>,
)
    requires
        is_backbone(r, balances, accounts),
        ids_differ(accounts),
        sums_fit(balances),
    ensures
        r.gold.0 == held(
            balances,
            |id: AccountId| stands_in(accounts, id, "t1"@, "gold"@, "gold"@),
        ),
        r.silver.0 == held(
            balances,
            |id: AccountId| stands_in(accounts, id, "t1"@, "silver"@, "silver"@),
        ),
        r.xmr.0 == held(
            balances,
            |id: AccountId| stands_in(accounts, id, "t1"@, "xmr"@, "monero"@),
        ),
        r.land.0 == held(
            balances,
            |id: AccountId| stands_in(accounts, id, "t1"@, "land"@, "land"@),
        ),
        r.sfr.0 == held(
            balances,
            |id: AccountId| stands_in(accounts, id, "t1"@, "sfr"@, "real_estate"@),
        ),
        r.total.0 == held(balances, |id: AccountId| stands_in_tier(accounts, id, "t1"@)),
        r.total.0 == r.gold.0 + r.silver.0 + r.xmr.0 + r.land.0 + r.sfr.0 + r.other.0,
{
    lemma_words();
    let a = |id: AccountId| stands_in(accounts, id, "t1"@, "gold"@, "gold"@);
    let b = |id: AccountId| stands_in(accounts, id, "t1"@, "silver"@, "silver"@);
    let c = |id: AccountId| stands_in(accounts, id, "t1"@, "xmr"@, "monero"@);
    let d = |id: AccountId| stands_in(accounts, id, "t1"@, "land"@, "land"@);
    let e = |id: AccountId| stands_in(accounts, id, "t1"@, "sfr"@, "real_estate"@);
    let o = |id: AccountId| balance_sleeve(accounts, id) == Sleeve::OtherT1;
    let all = |id: AccountId| stands_in_tier(accounts, id, "t1"@);
    assert forall|id: AccountId| #[trigger]
        a(id) == (balance_sleeve(accounts, id) == Sleeve::Gold) by {
        lemma_class_stands(accounts, id, "t1"@, "gold"@, "gold"@);
    }
    assert forall|id: AccountId| #[trigger]
        b(id) == (balance_sleeve(accounts, id) == Sleeve::Silver) by {
        lemma_class_stands(accounts, id, "t1"@, "silver"@, "silver"@);
    }
    assert forall|id: AccountId| #[trigger]
        c(id) == (balance_sleeve(accounts, id) == Sleeve::Xmr) by {
        lemma_class_stands(accounts, id, "t1"@, "xmr"@, "monero"@);
    }
    assert forall|id: AccountId| #[trigger]
        d(id) == (balance_sleeve(accounts, id) == Sleeve::Land) by {
        lemma_class_stands(accounts, id, "t1"@, "land"@, "land"@);
    }
    assert forall|id: AccountId| #[trigger]
        e(id) == (balance_sleeve(accounts, id) == Sleeve::Sfr) by {
        lemma_class_stands(accounts, id, "t1"@, "sfr"@, "real_estate"@);
    }
    lemma_sleeve_is_held(balances, accounts, Sleeve::Gold, a);
    lemma_sleeve_is_held(balances, accounts, Sleeve::Silver, b);
    lemma_sleeve_is_held(balances, accounts, Sleeve::Xmr, c);
    lemma_sleeve_is_held(balances, accounts, Sleeve::Land, d);
    lemma_sleeve_is_held(balances, accounts, Sleeve::Sfr, e);
    lemma_sleeve_is_held(balances, accounts, Sleeve::OtherT1, o);
    let ab = |id: AccountId| a(id) || b(id);
    let abc = |id: AccountId| ab(id) || c(id);
    let abcd = |id: AccountId| abc(id) || d(id);
    let abcde = |id: AccountId| abcd(id) || e(id);
    lemma_held_adds(balances, a, b, ab);
    lemma_held_adds(balances, ab, c, abc);
    lemma_held_adds(balances, abc, d, abcd);
    lemma_held_adds(balances, abcd, e, abcde);
    assert forall|id: AccountId| #[trigger] all(id) == (abcde(id) || o(id)) by {
        lemma_found_like(accounts, id, |x: Account| in_dollars(x, "t1"@));
        assert(a(id) == (balance_sleeve(accounts, id) == Sleeve::Gold));
        assert(b(id) == (balance_sleeve(accounts, id) == Sleeve::Silver));
        assert(c(id) == (balance_sleeve(accounts, id) == Sleeve::Xmr));
        assert(d(id) == (balance_sleeve(accounts, id) == Sleeve::Land));
        assert(e(id) == (balance_sleeve(accounts, id) == Sleeve::Sfr));
    }
    assert forall|id: AccountId| #[trigger] all(id) implies !(abcde(id) && o(id)) by {
        assert(a(id) == (balance_sleeve(accounts, id) == Sleeve::Gold));
        assert(b(id) == (balance_sleeve(accounts, id) == Sleeve::Silver));
        assert(c(id) == (balance_sleeve(accounts, id) == Sleeve::Xmr));
        assert(d(id) == (balance_sleeve(accounts, id) == Sleeve::Land));
        assert(e(id) == (balance_sleeve(accounts, id) == Sleeve::Sfr));
    }
    lemma_held_adds(balances, abcde, o, all);
    lemma_held_fits(balances, ab);
    lemma_held_fits(balances, abc);
    lemma_held_fits(balances, abcd);
    lemma_held_fits(balances, abcde);
    lemma_held_fits(balances, all);
}

/// Another balance raises the sleeve of its account by that balance and no other sleeve, and a
/// balance of an account that is in neither tier, or is not in dollars, raises none.
pub proof fn law_balance_counts_once(
    balances: Seq<(AccountId, Cents)>,
    accounts: Seq<Account>,
    id: AccountId,
    amount: Cents,
    s: Sleeve,
    other: Sleeve,
    i: int,
)
    requires
        ids_differ(accounts),
        sums_fit(balances.push((id, amount))),
        0 <= i < accounts.len(),
        accounts[i].id == Some(id),
        sleeve_of(accounts[i]) == s,
        other != s,
    ensures
        sleeve_total(balances.push((id, amount)), accounts, s).0 == sleeve_total(
            balances,
            accounts,
            s,
        ).0 + amount.0,
        sleeve_total(balances.push((id, amount)), accounts, other) == sleeve_total(
            balances,
            accounts,
            other,
        ),
        accounts[i].currency@ != "USD"@ || (opt_text(accounts[i].tier) != Some("t1"@) && opt_text(
            accounts[i].tier,
        ) != Some("t2"@)) ==> s == Sleeve::Outside,
{
    let more = balances.push((id, amount));
    assert(more.drop_last() =~= balances);
    lemma_first_is_the_one(accounts, id, i);
    let g = |b: (AccountId, Cents)| size_of(b.1.0 as int);
    crate::laws::transactions::lemma_sum_signed(balances, g);
    let belongs = |x: AccountId| balance_sleeve(accounts, x) == s;
    lemma_sleeve_is_held(balances, accounts, s, belongs);
    lemma_sleeve_is_held(more, accounts, s, belongs);
}

/// A row of the drift table breaches exactly where it has a target and holds less than 22 or
/// more than 44 per cent of a total that is positive. So where nothing breaches, each of the
/// three sleeves holds between 22 and 44 per cent; three equal sleeves never breach, and one
/// that holds at least half always does.
pub proof fn law_bands(rows: Seq<DriftRow>, a: Allocation)
    requires
        is_drift(rows, a),
    ensures
        rows[0].band_breach <==> a.total.0 > 0 && (100 * a.equity.0 < 22 * a.total.0 || 100
            * a.equity.0 > 44 * a.total.0),
        rows[1].band_breach <==> a.total.0 > 0 && (100 * a.long_treasuries.0 < 22 * a.total.0 || 100
            * a.long_treasuries.0 > 44 * a.total.0),
        rows[2].band_breach <==> a.total.0 > 0 && (100 * a.cash.0 < 22 * a.total.0 || 100 * a.cash.0
            > 44 * a.total.0),
        forall|i: int| 3 <= i < rows.len() ==> !(#[trigger] rows[i]).band_breach,
        has_breach(rows) <==> rows[0].band_breach || rows[1].band_breach || rows[2].band_breach,
        a.equity == a.long_treasuries && a.cash == a.equity && a.total.0 == 3 * a.equity.0
            ==> !has_breach(rows),
        a.total.0 > 0 && (2 * a.equity.0 >= a.total.0 || 2 * a.long_treasuries.0 >= a.total.0 || 2
            * a.cash.0 >= a.total.0) ==> has_breach(rows),
{
    assert(has_breach(rows) ==> rows[0].band_breach || rows[1].band_breach || rows[2].band_breach);
    if rows[0].band_breach || rows[1].band_breach || rows[2].band_breach {
        assert(has_breach(rows));
    }
}

/// The drift table names the sleeves in their order, each with what it holds and the total of
/// the tier; what its rows hold adds up to what the sleeves hold.
pub proof fn law_drift_shows_every_sleeve(rows: Seq<DriftRow>, a: Allocation)
    requires
        is_drift(rows, a),
    ensures
        rows.len() >= 3,
        rows[0].asset_class@ == "equity"@ && rows[0].actual_cents == a.equity,
        rows[1].asset_class@ == "long_treasuries"@ && rows[1].actual_cents == a.long_treasuries,
        rows[2].asset_class@ == "cash"@ && rows[2].actual_cents == a.cash,
        forall|i: int|
            0 <= i < rows.len() ==> (#[trigger] rows[i]).total_cents == a.total && rows[i].targeted
                == (i < 3),
        sum_over(rows, |r: DriftRow| r.actual_cents.0 as int) == a.equity.0 + a.long_treasuries.0
            + a.cash.0 + a.gold_etf.0 + a.other.0,
{
    let f = |r: DriftRow| r.actual_cents.0 as int;
    reveal_with_fuel(sum_over, 6);
    let n = rows.len() as int;
    assert(rows.drop_last().drop_last().drop_last() =~= rows.take(n - 3));
    assert(rows.take(n - 3).len() == n - 3);
    assert(rows.last() == rows[n - 1]);
    assert(rows.drop_last().last() == rows[n - 2]);
    assert(rows.drop_last().drop_last().last() == rows[n - 3]);
    if n > 3 {
        assert(rows.take(n - 3).last() == rows[n - 4]);
        assert(rows.take(n - 3).drop_last() =~= rows.take(n - 4));
    }
    if n > 4 {
        assert(rows.take(n - 4).last() == rows[n - 5]);
        assert(rows.take(n - 4).drop_last() =~= rows.take(n - 5));
    }
}

} // verus!
