//! Laws of the detection of recurring charges.

use vstd::prelude::*;

verus! {

use crate::db::Transaction;
use crate::order::{
    how_many, law_sorting_keeps_items, lemma_count_bounds, lemma_count_of_same_items,
    lemma_same_items, lemma_sum_of_same_items, sorted_by_keys, sum_over,
};
use crate::recurring::{
    amount_sum, are_charges, cadence_at, cadence_of, charges_with, count_in_band, dates, gaps_of,
    history, is_detection, is_series, lemma_counted_twice, lemma_dated_same, lemma_two_places,
    median, normalized, outflows, recurs, strictly_dated, Cadence, Series, Txn,
};

/// The band of a cadence in days: its ends belong to it.
pub open spec fn has_band(c: Cadence, lo: int, hi: int) -> bool {
    ||| c is Weekly && lo == 5 && hi == 9
    ||| c is Biweekly && lo == 12 && hi == 16
    ||| c is Monthly && lo == 26 && hi == 35
    ||| c is Quarterly && lo == 80 && hi == 100
    ||| c is Yearly && lo == 350 && hi == 380
}

/// The days by which a cadence is projected.
pub open spec fn has_period(c: Cadence, days: int) -> bool {
    ||| c is Weekly && days == 7
    ||| c is Biweekly && days == 14
    ||| c is Monthly && days == 30
    ||| c is Quarterly && days == 91
    ||| c is Yearly && days == 365
}

/// Whether a number of seconds lies between two numbers of days.
pub open spec fn between_days(secs: int, lo: int, hi: int) -> bool {
    lo * 86_400 <= secs <= hi * 86_400
}

/// Whether a gap stands in the middle of some: not more than half are smaller, and more than
/// half are no larger.
pub open spec fn is_middle(gaps: Seq<i64>, m: i64) -> bool {
    &&& gaps.contains(m)
    &&& 2 * how_many(gaps, |g: i64| g < m) <= gaps.len()
    &&& 2 * how_many(gaps, |g: i64| g <= m) > gaps.len()
}

proof fn lemma_median_is_middle(gaps: Seq<i64>)
    requires
        gaps.len() > 0,
    ensures
        is_middle(gaps, median(gaps)),
{
    let key = |g: i64| g;
    assert(gaps.map_values(key) =~= gaps);
    law_sorting_keeps_items(gaps, key);
    let r = sorted_by_keys(gaps, gaps);
    let n = gaps.len() as int;
    let k = n / 2;
    let m = r[k];
    assert(m == median(gaps));
    lemma_same_items(r, gaps);
    assert(r.contains(m));
    let less = |g: i64| g < m;
    let upto = |g: i64| g <= m;
    lemma_count_of_same_items(r, gaps, less);
    lemma_count_of_same_items(r, gaps, upto);
    assert forall|i: int| k <= i < r.len() implies !less(#[trigger] r[i]) by {
        if i > k {
            assert(key(r[k]) <= key(r[i]));
        }
    }
    assert forall|i: int| 0 <= i < k + 1 implies upto(#[trigger] r[i]) by {
        if i < k {
            assert(key(r[i]) <= key(r[k]));
        }
    }
    lemma_count_bounds(r, less, k);
    lemma_count_bounds(r, upto, k + 1);
}

/// There is only one value in the middle.
proof fn lemma_one_middle(gaps: Seq<i64>, a: i64, b: i64)
    requires
        is_middle(gaps, a),
        is_middle(gaps, b),
    ensures
        a == b,
{
    if a < b {
        lemma_more_count(gaps, |g: i64| g <= a, |g: i64| g < b);
    } else if b < a {
        lemma_more_count(gaps, |g: i64| g <= b, |g: i64| g < a);
    }
}

proof fn lemma_more_count(s: Seq<i64>, p: spec_fn(i64) -> bool, q: spec_fn(i64) -> bool)
    requires
        forall|g: i64| #[trigger] p(g) ==> q(g),
    ensures
        how_many(s, p) <= how_many(s, q),
    decreases s.len(),
{
    reveal(Seq::filter);
    if s.len() > 0 {
        lemma_more_count(s.drop_last(), p, q);
        assert(p(s.last()) ==> q(s.last()));
    }
}

proof fn lemma_counted_in_band(gaps: Seq<i64>, c: Cadence, lo: int, hi: int)
    requires
        has_band(c, lo, hi),
    ensures
        count_in_band(gaps, c) == how_many(gaps, |g: i64| between_days(g as int, lo, hi)),
    decreases gaps.len(),
{
    reveal(Seq::filter);
    if gaps.len() > 0 {
        lemma_counted_in_band(gaps.drop_last(), c, lo, hi);
    }
}

/// The gap in the middle decides: a run of gaps has a cadence exactly where its middle gap lies
/// in the band of the cadence, and at least half of the gaps do.
pub proof fn law_middle_gap_decides(gaps: Seq<i64>, m: i64, c: Cadence, lo: int, hi: int)
    requires
        is_middle(gaps, m),
        has_band(c, lo, hi),
    ensures
        cadence_of(gaps) == Some(c) <==> between_days(m as int, lo, hi) && 2 * how_many(
            gaps,
            |g: i64| between_days(g as int, lo, hi),
        ) >= gaps.len(),
{
    lemma_median_is_middle(gaps);
    lemma_one_middle(gaps, m, median(gaps));
    lemma_counted_in_band(gaps, c, lo, hi);
}

/// Some gap stands in the middle of any gaps, so that the middle always decides; no gaps have
/// no cadence.
pub proof fn law_there_is_a_middle(gaps: Seq<i64>)
    ensures
        gaps.len() > 0 ==> exists|m: i64| is_middle(gaps, m),
        gaps.len() == 0 ==> cadence_of(gaps) is None,
{
    if gaps.len() > 0 {
        lemma_median_is_middle(gaps);
    }
}

/// Where more than half of the gaps lie in the band of a cadence, that is the cadence, whatever
/// the other gaps are. Where fewer than half do, it is not.
pub proof fn law_majority_decides(gaps: Seq<i64>, c: Cadence, lo: int, hi: int)
    requires
        has_band(c, lo, hi),
    ensures
        2 * how_many(gaps, |g: i64| between_days(g as int, lo, hi)) > gaps.len() ==> cadence_of(gaps)
            == Some(c),
        2 * how_many(gaps, |g: i64| between_days(g as int, lo, hi)) < gaps.len() ==> cadence_of(gaps)
            != Some(c),
{
    let inside = |g: i64| between_days(g as int, lo, hi);
    lemma_counted_in_band(gaps, c, lo, hi);
    if 2 * how_many(gaps, inside) > gaps.len() {
        let key = |g: i64| g;
        assert(gaps.map_values(key) =~= gaps);
        law_sorting_keeps_items(gaps, key);
        let r = sorted_by_keys(gaps, gaps);
        let n = gaps.len() as int;
        lemma_count_bounds(gaps, inside, 0);
        let k = n / 2;
        lemma_count_of_same_items(r, gaps, inside);
        if r[k] < lo * 86_400 {
            assert forall|i: int| 0 <= i < k + 1 implies !inside(#[trigger] r[i]) by {
                if i < k {
                    assert(key(r[i]) <= key(r[k]));
                }
            }
            lemma_count_bounds(r, inside, k + 1);
        } else if r[k] > hi * 86_400 {
            assert forall|i: int| k <= i < r.len() implies !inside(#[trigger] r[i]) by {
                if i > k {
                    assert(key(r[k]) <= key(r[i]));
                }
            }
            lemma_count_bounds(r, inside, k);
        }
        assert(inside(median(gaps)));
        assert(cadence_at(median(gaps)) == Some(c));
    }
}

// ---------------------------------------------------------------------------
// Rows
// ---------------------------------------------------------------------------

/// The charges that have a payee's key.
pub open spec fn charges_of(txns: Seq<Txn>, key: Seq<char>) -> Seq<Txn> {
    txns.filter(|t: Txn| normalized(t.description@) == key)
}

proof fn lemma_charges_are_filtered(txns: Seq<Txn>, key: Seq<char>)
    ensures
        charges_with(txns, key) == charges_of(txns, key),
    decreases txns.len(),
{
    reveal(Seq::filter);
    if txns.len() > 0 {
        lemma_charges_are_filtered(txns.drop_last(), key);
    }
}

/// A history holds the charges of the payee, each as often, the oldest first.
proof fn lemma_history_holds(txns: Seq<Txn>, key: Seq<char>)
    ensures
        history(txns, key).to_multiset() == charges_of(txns, key).to_multiset(),
        history(txns, key).len() == charges_of(txns, key).len(),
        forall|i: int, j: int|
            0 <= i < j < history(txns, key).len() ==> (#[trigger] history(txns, key)[i]).posted_at
                <= (#[trigger] history(txns, key)[j]).posted_at,
        forall|t: Txn| history(txns, key).contains(t) == charges_of(txns, key).contains(t),
{
    lemma_charges_are_filtered(txns, key);
    let items = charges_with(txns, key);
    let date = |t: Txn| t.posted_at;
    assert(dates(items) =~= items.map_values(date));
    law_sorting_keeps_items(items, date);
    let h = history(txns, key);
    lemma_same_items(h, items);
    assert forall|i: int, j: int| 0 <= i < j < h.len() implies (#[trigger] h[i]).posted_at <= (
    #[trigger] h[j]).posted_at by {
        assert(date(h[i]) <= date(h[j]));
    }
}

proof fn lemma_amounts_sum(items: Seq<Txn>)
    ensures
        amount_sum(items) == sum_over(items, |t: Txn| t.amount_cents as int),
    decreases items.len(),
{
    if items.len() > 0 {
        lemma_amounts_sum(items.drop_last());
    }
}

/// What a row says of the charges of its payee: how many there are, when the first and the last
/// posted, the smallest and the largest amount, and the mean with the cents cut off. The last
/// amount and the words are those of a charge that posted last. The next charge is expected a
/// period after the last.
pub open spec fn tells(s: Series, mine: Seq<Txn>) -> bool {
    let sum = sum_over(mine, |t: Txn| t.amount_cents as int);
    &&& s.count == mine.len()
    &&& forall|i: int|
        0 <= i < mine.len() ==> s.first_seen <= (#[trigger] mine[i]).posted_at <= s.last_seen
            && s.min_amount.0 <= mine[i].amount_cents <= s.max_amount.0
    &&& exists|i: int| 0 <= i < mine.len() && (#[trigger] mine[i]).posted_at == s.first_seen
    &&& exists|i: int|
        0 <= i < mine.len() && (#[trigger] mine[i]).posted_at == s.last_seen
            && mine[i].amount_cents == s.last_amount.0 && mine[i].description@ == s.display@
    &&& exists|i: int| 0 <= i < mine.len() && (#[trigger] mine[i]).amount_cents == s.min_amount.0
    &&& exists|i: int| 0 <= i < mine.len() && (#[trigger] mine[i]).amount_cents == s.max_amount.0
    &&& sum >= 0 ==> 0 <= s.avg_amount.0 && s.avg_amount.0 * s.count <= sum < (s.avg_amount.0 + 1)
        * s.count
    &&& sum <= 0 ==> s.avg_amount.0 <= 0 && (s.avg_amount.0 - 1) * s.count < sum <= s.avg_amount.0
        * s.count
    &&& forall|days: int| #[trigger]
        has_period(s.cadence, days) ==> s.predicted_next == s.last_seen + days * 86_400
}

/// Every detected row tells of the charges of its payee, of which there are at least two and as
/// many as were asked for. No payee has two rows, and the soonest due comes first.
pub proof fn law_rows_tell(out: Seq<Series>, txns: Seq<Txn>, min_occurrences: nat)
    requires
        is_detection(out, txns, min_occurrences),
    ensures
        forall|i: int|
            0 <= i < out.len() ==> tells(
                #[trigger] out[i],
                charges_of(txns, out[i].payee@),
            ) && out[i].count >= min_occurrences && out[i].count >= 2 && out[i].payee@.len() > 0,
        forall|i: int, j: int|
            0 <= i < j < out.len() ==> (#[trigger] out[i]).payee@ != (#[trigger] out[j]).payee@
                && out[i].predicted_next <= out[j].predicted_next,
{
    assert forall|i: int| 0 <= i < out.len() implies tells(
        #[trigger] out[i],
        charges_of(txns, out[i].payee@),
    ) && out[i].count >= min_occurrences && out[i].count >= 2 && out[i].payee@.len() > 0 by {
        assert(is_series(out[i], txns, min_occurrences));
        lemma_row_tells(out[i], txns, min_occurrences);
    }
    assert forall|i: int, j: int| 0 <= i < j < out.len() implies (#[trigger] out[i]).payee@ != (
    #[trigger] out[j]).payee@ && out[i].predicted_next <= out[j].predicted_next by {
        assert(crate::recurring::due_before(out[i], out[j]));
        assert(is_series(out[i], txns, min_occurrences));
        assert(is_series(out[j], txns, min_occurrences));
        if out[i].payee@ == out[j].payee@ {
            crate::text::lemma_lex_irreflexive(out[i].payee@);
        }
    }
}

proof fn lemma_row_tells(s: Series, txns: Seq<Txn>, min_occurrences: nat)
    requires
        is_series(s, txns, min_occurrences),
    ensures
        tells(s, charges_of(txns, s.payee@)),
        s.count >= min_occurrences,
        s.count >= 2,
        s.payee@.len() > 0,
{
    let h = history(txns, s.payee@);
    let mine = charges_of(txns, s.payee@);
    lemma_history_holds(txns, s.payee@);
    let n = h.len() as int;
    assert forall|i: int| 0 <= i < mine.len() implies s.first_seen <= (
    #[trigger] mine[i]).posted_at <= s.last_seen && s.min_amount.0 <= mine[i].amount_cents
        <= s.max_amount.0 by {
        assert(mine.contains(mine[i]));
        assert(h.contains(mine[i]));
        let k = choose|k: int| 0 <= k < h.len() && h[k] == mine[i];
        if k > 0 {
            assert(h[0].posted_at <= h[k].posted_at);
        }
        if k < n - 1 {
            assert(h[k].posted_at <= h[n - 1].posted_at);
        }
        assert(s.min_amount.0 <= h[k].amount_cents);
        assert(s.max_amount.0 >= h[k].amount_cents);
    }
    lemma_in_both(h, mine, 0);
    lemma_in_both(h, mine, n - 1);
    let a = choose|a: int| 0 <= a < h.len() && (#[trigger] h[a]).amount_cents == s.min_amount.0;
    lemma_in_both(h, mine, a);
    let b = choose|b: int| 0 <= b < h.len() && (#[trigger] h[b]).amount_cents == s.max_amount.0;
    lemma_in_both(h, mine, b);
    let f = |t: Txn| t.amount_cents as int;
    lemma_sum_of_same_items(h, mine, f);
    lemma_amounts_sum(h);
    let sum = sum_over(mine, f);
    let avg = s.avg_amount.0 as int;
    assert(sum >= 0 ==> 0 <= avg && avg * n <= sum < (avg + 1) * n) by (nonlinear_arith)
        requires
            n >= 2,
            sum >= 0 ==> avg == sum / n,
    ;
    assert(sum <= 0 ==> avg <= 0 && (avg - 1) * n < sum <= avg * n) by (nonlinear_arith)
        requires
            n >= 2,
            sum < 0 ==> avg == -((-sum) / n),
            sum == 0 ==> avg == 0,
    ;
}

proof fn lemma_in_both(h: Seq<Txn>, mine: Seq<Txn>, k: int) -> (i: int)
    requires
        0 <= k < h.len(),
        forall|t: Txn| h.contains(t) == mine.contains(t),
    ensures
        0 <= i < mine.len(),
        mine[i] == h[k],
{
    assert(h.contains(h[k]));
    choose|i: int| 0 <= i < mine.len() && mine[i] == h[k]
}

/// The time between one charge and the next.
pub open spec fn steps(h: Seq<Txn>) -> Seq<int> {
    Seq::new((h.len() - 1) as nat, |i: int| h[i + 1].posted_at - h[i].posted_at)
}

/// The history is the charges of the payee in the order of their dates.
proof fn lemma_history_is(txns: Seq<Txn>, key: Seq<char>, h: Seq<Txn>)
    requires
        strictly_dated(h),
        h.to_multiset() == charges_of(txns, key).to_multiset(),
    ensures
        history(txns, key) == h,
{
    let k = history(txns, key);
    lemma_history_holds(txns, key);
    lemma_same_items(h, k);
    assert(strictly_dated(k)) by {
        assert forall|a: int, b: int| 0 <= a < b < k.len() implies (#[trigger] k[a]).posted_at < (
        #[trigger] k[b]).posted_at by {
            assert(k[a].posted_at <= k[b].posted_at);
            if k[a].posted_at == k[b].posted_at {
                assert(k.contains(k[a]) && k.contains(k[b]));
                let x = choose|x: int| 0 <= x < h.len() && h[x] == k[a];
                let y = choose|y: int| 0 <= y < h.len() && h[y] == k[b];
                if x < y {
                    assert(h[x].posted_at < h[y].posted_at);
                } else if y < x {
                    assert(h[y].posted_at < h[x].posted_at);
                }
                lemma_counted_twice(k, a, b);
                lemma_two_places(h, k[a]);
                let (p, q) = choose|p: int, q: int|
                    0 <= p < q < h.len() && #[trigger] h[p] == k[a] && #[trigger] h[q] == k[a];
                assert(h[p].posted_at < h[q].posted_at);
            }
        }
    }
    assert forall|i: int| 0 <= i < h.len() implies k.contains(#[trigger] h[i]) by {
        assert(h.contains(h[i]));
    }
    assert forall|i: int| 0 <= i < k.len() implies h.contains(#[trigger] k[i]) by {
        assert(k.contains(k[i]));
    }
    lemma_dated_same(h, k);
}

proof fn lemma_steps_are_gaps(h: Seq<Txn>, lo: int, hi: int)
    requires
        strictly_dated(h),
        h.len() >= 2,
        h.last().posted_at - h[0].posted_at <= i64::MAX,
    ensures
        gaps_of(h).len() == steps(h).len(),
        how_many(gaps_of(h), |g: i64| between_days(g as int, lo, hi)) == how_many(
            steps(h),
            |g: int| between_days(g, lo, hi),
        ),
{
    let g = gaps_of(h);
    let s = steps(h);
    assert forall|i: int| 0 <= i < g.len() implies #[trigger] g[i] == s[i] by {
        assert(h[i].posted_at < h[i + 1].posted_at);
        if i > 0 {
            assert(h[0].posted_at < h[i].posted_at);
        }
        if i + 1 < h.len() - 1 {
            assert(h[i + 1].posted_at < h[h.len() - 1].posted_at);
        }
    }
    lemma_counts_alike(g, s, lo, hi);
}

proof fn lemma_counts_alike(g: Seq<i64>, s: Seq<int>, lo: int, hi: int)
    requires
        g.len() == s.len(),
        forall|i: int| 0 <= i < g.len() ==> #[trigger] g[i] == s[i],
    ensures
        how_many(g, |x: i64| between_days(x as int, lo, hi)) == how_many(
            s,
            |x: int| between_days(x, lo, hi),
        ),
    decreases g.len(),
{
    reveal(Seq::filter);
    if g.len() > 0 {
        let d = g.drop_last();
        let e = s.drop_last();
        assert forall|i: int| 0 <= i < d.len() implies #[trigger] d[i] == e[i] by {
            assert(g[i] == s[i]);
        }
        assert(g[g.len() - 1] == s[s.len() - 1]);
        lemma_counts_alike(d, e, lo, hi);
    }
}

/// A payee that is charged often enough, and of whose charges more than half follow the one
/// before within the band of a cadence, has a row with that cadence, and the next charge is
/// expected a period after the last one. `h` is the payee's charges in the order of their dates.
pub proof fn law_regular_payee_is_found(
    out: Seq<Series>,
    txns: Seq<Txn>,
    min_occurrences: nat,
    key: Seq<char>,
    h: Seq<Txn>,
    c: Cadence,
    lo: int,
    hi: int,
    days: int,
)
    requires
        is_detection(out, txns, min_occurrences),
        key.len() > 0,
        strictly_dated(h),
        h.to_multiset() == charges_of(txns, key).to_multiset(),
        h.len() >= 2,
        h.len() >= min_occurrences,
        h.last().posted_at - h[0].posted_at <= i64::MAX,
        has_band(c, lo, hi),
        has_period(c, days),
        2 * how_many(steps(h), |g: int| between_days(g, lo, hi)) > steps(h).len(),
    ensures
        exists|i: int|
            0 <= i < out.len() && (#[trigger] out[i]).payee@ == key && out[i].cadence == c
                && out[i].predicted_next == h.last().posted_at + days * 86_400,
{
    lemma_history_is(txns, key, h);
    lemma_steps_are_gaps(h, lo, hi);
    law_majority_decides(gaps_of(h), c, lo, hi);
    assert(recurs(txns, key, min_occurrences) == Some(c));
    let i = choose|i: int| 0 <= i < out.len() && (#[trigger] out[i]).payee@ == key;
    assert(is_series(out[i], txns, min_occurrences));
}

/// A payee whose charges follow no rhythm has no row: at least half of the charges of a row
/// follow the one before within the band of its cadence.
pub proof fn law_found_payee_is_regular(
    out: Seq<Series>,
    txns: Seq<Txn>,
    min_occurrences: nat,
    i: int,
    h: Seq<Txn>,
    lo: int,
    hi: int,
)
    requires
        is_detection(out, txns, min_occurrences),
        0 <= i < out.len(),
        strictly_dated(h),
        h.to_multiset() == charges_of(txns, out[i].payee@).to_multiset(),
        h.last().posted_at - h[0].posted_at <= i64::MAX,
        has_band(out[i].cadence, lo, hi),
    ensures
        2 * how_many(steps(h), |g: int| between_days(g, lo, hi)) >= steps(h).len(),
{
    assert(is_series(out[i], txns, min_occurrences));
    lemma_history_is(txns, out[i].payee@, h);
    lemma_steps_are_gaps(h, lo, hi);
    law_majority_decides(gaps_of(h), out[i].cadence, lo, hi);
}

/// What detection reads of the stored transactions are the outflows, one for one and in their
/// order: the instant, the amount and the words.
pub proof fn law_charges_are_outflows(txns: Seq<Txn>, rows: Seq<Transaction>)
    requires
        are_charges(txns, rows),
    ensures
        ({
            let out = rows.filter(|t: Transaction| t.amount_cents.0 < 0);
            &&& txns.len() == out.len()
            &&& forall|i: int|
                0 <= i < txns.len() ==> (#[trigger] txns[i]).posted_at == out[i].posted_at
                    && txns[i].amount_cents == out[i].amount_cents.0 && (out[i].description is Some
                    ==> txns[i].description@ == out[i].description->0@) && (
                out[i].description is None ==> txns[i].description@.len() == 0)
        }),
{
    lemma_outflows_are_filtered(rows);
}

proof fn lemma_outflows_are_filtered(rows: Seq<Transaction>)
    ensures
        outflows(rows) == rows.filter(|t: Transaction| t.amount_cents.0 < 0),
    decreases rows.len(),
{
    reveal(Seq::filter);
    if rows.len() > 0 {
        lemma_outflows_are_filtered(rows.drop_last());
    }
}

} // verus!
