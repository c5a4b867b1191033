//! Stable sorting by an integer key, as the order in which the items come.

use crate::text::str_lt;
use vstd::prelude::*;

verus! {

use crate::text::{lemma_lex_irreflexive, lemma_lex_transitive, lex_lt};

/// `p` with index `i` put in behind every index whose key is not greater.
pub open spec fn placed(p: Seq<int>, keys: Seq<i64>, i: int) -> Seq<int>
    decreases p.len(),
{
    if p.len() == 0 || keys[p.last()] <= keys[i] {
        p.push(i)
    } else {
        placed(p.drop_last(), keys, i).push(p.last())
    }
}

/// The indices `0..n` in ascending order of their keys, equal keys keeping their order.
pub open spec fn stable_order(keys: Seq<i64>, n: nat) -> Seq<int>
    decreases n,
{
    if n == 0 {
        Seq::empty()
    } else {
        placed(stable_order(keys, (n - 1) as nat), keys, n - 1)
    }
}

/// Whether index `a` comes before index `b`: by key, then by position.
pub open spec fn comes_before(keys: Seq<i64>, a: int, b: int) -> bool {
    keys[a] < keys[b] || (keys[a] == keys[b] && a < b)
}

/// The indices are in order, and each of `0..n` is among them once.
pub open spec fn is_stable_order(keys: Seq<i64>, n: nat, p: Seq<int>) -> bool {
    &&& p.len() == n
    &&& forall|j: int| 0 <= j < n ==> 0 <= #[trigger] p[j] < n
    &&& forall|a: int, b: int|
        0 <= a < b < n ==> comes_before(keys, #[trigger] p[a], #[trigger] p[b])
    &&& forall|i: int| 0 <= i < n ==> #[trigger] p.contains(i)
}

/// The items in ascending order of their keys, equal keys keeping their order.
pub open spec fn sorted_by_keys<T>(items: Seq<T>, keys: Seq<i64>) -> Seq<T> {
    let p = stable_order(keys, keys.len());
    Seq::new(items.len(), |j: int| items[p[j]])
}

proof fn lemma_placed(p: Seq<int>, keys: Seq<i64>, i: int, pos: int)
    requires
        0 <= pos <= p.len(),
        pos > 0 ==> keys[p[pos - 1]] <= keys[i],
        forall|j: int| pos <= j < p.len() ==> keys[#[trigger] p[j]] > keys[i],
    ensures
        placed(p, keys, i) == p.insert(pos, i),
    decreases p.len(),
{
    if pos == p.len() {
        assert(p.insert(pos, i) =~= p.push(i));
    } else {
        lemma_placed(p.drop_last(), keys, i, pos);
        assert(p.drop_last().insert(pos, i).push(p.last()) =~= p.insert(pos, i));
    }
}

/// The indices come out by key and then by position, each exactly once.
pub proof fn law_stable_order(keys: Seq<i64>, n: nat)
    requires
        n <= keys.len(),
    ensures
        is_stable_order(keys, n, stable_order(keys, n)),
    decreases n,
{
    if n > 0 {
        let m = (n - 1) as nat;
        let p = stable_order(keys, m);
        law_stable_order(keys, m);
        let pos = lemma_position(p, keys, m as int);
        lemma_placed(p, keys, m as int, pos);
        let q = p.insert(pos, m as int);
        assert forall|a: int, b: int| 0 <= a < b < n implies comes_before(
            keys,
            #[trigger] q[a],
            #[trigger] q[b],
        ) by {
            let x = if a < pos { a } else { a - 1 };
            let y = if b < pos { b } else { b - 1 };
            if a != pos && b != pos {
                assert(comes_before(keys, p[x], p[y]));
            } else if a == pos {
                assert(keys[p[y]] > keys[m as int]);
            } else {
                if x < pos - 1 {
                    assert(comes_before(keys, p[x], p[pos - 1]));
                }
                assert(0 <= p[x] < m);
            }
        }
        assert forall|i: int| 0 <= i < n implies #[trigger] q.contains(i) by {
            if i == m {
                assert(q[pos] == i);
            } else {
                assert(p.contains(i));
                let j = choose|j: int| 0 <= j < p.len() && p[j] == i;
                assert(q[if j < pos { j } else { j + 1 }] == i);
            }
        }
    }
}

/// Where index `i` goes among indices that are already in order.
proof fn lemma_position(p: Seq<int>, keys: Seq<i64>, i: int) -> (pos: int)
    requires
        forall|a: int, b: int|
            0 <= a < b < p.len() ==> comes_before(keys, #[trigger] p[a], #[trigger] p[b]),
    ensures
        0 <= pos <= p.len(),
        pos > 0 ==> keys[p[pos - 1]] <= keys[i],
        forall|j: int| pos <= j < p.len() ==> keys[#[trigger] p[j]] > keys[i],
    decreases p.len(),
{
    if p.len() == 0 || keys[p.last()] <= keys[i] {
        p.len() as int
    } else {
        let pos = lemma_position(p.drop_last(), keys, i);
        assert forall|j: int| pos <= j < p.len() implies keys[#[trigger] p[j]] > keys[i] by {
            if j < p.len() - 1 {
                assert(p.drop_last()[j] == p[j]);
            }
        }
        pos
    }
}

/// The indices of `keys` in ascending order of their keys, equal keys keeping their order.
pub fn stable_indices(keys: &Vec<i64>) -> (r: Vec<usize>)
    ensures
        r@.len() == keys@.len(),
        forall|j: int| 0 <= j < r@.len() ==> 0 <= (#[trigger] r@[j]) < keys@.len(),
        r@.map_values(|x: usize| x as int) == stable_order(keys@, keys@.len()),
{
    let mut out: Vec<usize> = Vec::new();
    let mut i: usize = 0;
    assert(out@.map_values(|x: usize| x as int) =~= Seq::<int>::empty());
    while i < keys.len()
        invariant
            i <= keys.len(),
            out.len() == i,
            forall|j: int| 0 <= j < i ==> 0 <= (#[trigger] out@[j]) < i,
            out@.map_values(|x: usize| x as int) == stable_order(keys@, i as nat),
        decreases keys.len() - i,
    {
        let ghost p = out@.map_values(|x: usize| x as int);
        let mut pos: usize = i;
        while pos > 0 && keys[out[pos - 1]] > keys[i]
            invariant
                pos <= i,
                i < keys.len(),
                out.len() == i,
                forall|j: int| 0 <= j < i ==> 0 <= (#[trigger] out@[j]) < i,
                p == out@.map_values(|x: usize| x as int),
                forall|j: int| pos <= j < i ==> keys@[#[trigger] p[j]] > keys@[i as int],
            decreases pos,
        {
            pos = pos - 1;
        }
        proof {
            if pos > 0 {
                assert(p[pos - 1] == out@[pos - 1]);
            }
            lemma_placed(p, keys@, i as int, pos as int);
        }
        out.insert(pos, i);
        assert(out@.map_values(|x: usize| x as int) =~= p.insert(pos as int, i as int));
        i = i + 1;
    }
    out
}

/// Where an item with a property first stands; the length where there is none.
pub open spec fn first_index<T>(s: Seq<T>, p: spec_fn(T) -> bool) -> int
    decreases s.len(),
{
    if s.len() == 0 || p(s[0]) {
        0
    } else {
        1 + first_index(s.skip(1), p)
    }
}

/// The first item with a property is the one before which none has it.
pub proof fn lemma_first_index<T>(s: Seq<T>, p: spec_fn(T) -> bool, i: int)
    requires
        0 <= i <= s.len(),
        forall|j: int| 0 <= j < i ==> !p(#[trigger] s[j]),
        i < s.len() ==> p(s[i]),
    ensures
        first_index(s, p) == i,
    decreases i,
{
    if i > 0 {
        let t = s.skip(1);
        assert(!p(s[0]));
        assert forall|j: int| 0 <= j < i - 1 implies !p(#[trigger] t[j]) by {
            assert(t[j] == s[j + 1]);
        }
        if i < s.len() {
            assert(t[i - 1] == s[i]);
        }
        lemma_first_index(t, p, i - 1);
    }
}

/// What is known of the first item with a property.
pub proof fn lemma_first_index_is_first<T>(s: Seq<T>, p: spec_fn(T) -> bool)
    ensures
        0 <= first_index(s, p) <= s.len(),
        forall|j: int| 0 <= j < first_index(s, p) ==> !p(#[trigger] s[j]),
        first_index(s, p) < s.len() ==> p(s[first_index(s, p)]),
    decreases s.len(),
{
    if s.len() > 0 && !p(s[0]) {
        let t = s.skip(1);
        lemma_first_index_is_first(t, p);
        assert forall|j: int| 0 <= j < first_index(s, p) implies !p(#[trigger] s[j]) by {
            if j > 0 {
                assert(t[j - 1] == s[j]);
            }
        }
    }
}

/// The items with a property, in order.
pub open spec fn kept<T>(s: Seq<T>, p: spec_fn(T) -> bool) -> Seq<T>
    decreases s.len(),
{
    if s.len() == 0 {
        s
    } else if p(s.last()) {
        kept(s.drop_last(), p).push(s.last())
    } else {
        kept(s.drop_last(), p)
    }
}

/// An item is kept where it has the property, and nothing else is.
pub proof fn lemma_kept<T>(s: Seq<T>, p: spec_fn(T) -> bool)
    ensures
        forall|i: int| 0 <= i < kept(s, p).len() ==> p(#[trigger] kept(s, p)[i]),
        forall|i: int|
            0 <= i < s.len() && p(#[trigger] s[i]) ==> kept(s, p).contains(s[i]),
        kept(s, p).len() <= s.len(),
    decreases s.len(),
{
    if s.len() > 0 {
        let d = s.drop_last();
        lemma_kept(d, p);
        assert forall|i: int| 0 <= i < s.len() && p(#[trigger] s[i]) implies kept(s, p).contains(
            s[i],
        ) by {
            if i < d.len() {
                assert(d[i] == s[i]);
                let k = choose|k: int| 0 <= k < kept(d, p).len() && kept(d, p)[k] == s[i];
                assert(kept(s, p)[k] == s[i]);
            } else {
                assert(kept(s, p)[kept(d, p).len() as int] == s[i]);
            }
        }
    }
}

proof fn lemma_placed_same(p: Seq<int>, keys: Seq<i64>, more: Seq<i64>, i: int)
    requires
        keys[i] == more[i],
        forall|j: int| 0 <= j < p.len() ==> keys[#[trigger] p[j]] == more[p[j]],
    ensures
        placed(p, keys, i) == placed(p, more, i),
    decreases p.len(),
{
    if p.len() > 0 {
        let d = p.drop_last();
        assert(keys[p[p.len() - 1]] == more[p[p.len() - 1]]);
        assert forall|j: int| 0 <= j < d.len() implies keys[#[trigger] d[j]] == more[d[j]] by {
            assert(d[j] == p[j]);
        }
        lemma_placed_same(d, keys, more, i);
    }
}

/// The order of the first items rests on their keys alone.
pub proof fn lemma_order_of_prefix(keys: Seq<i64>, more: Seq<i64>, n: nat)
    requires
        n <= keys.len(),
        n <= more.len(),
        forall|j: int| 0 <= j < n ==> #[trigger] keys[j] == more[j],
    ensures
        stable_order(keys, n) == stable_order(more, n),
    decreases n,
{
    if n > 0 {
        let m = (n - 1) as nat;
        lemma_order_of_prefix(keys, more, m);
        law_stable_order(keys, m);
        lemma_placed_same(stable_order(keys, m), keys, more, m as int);
    }
}

/// An item whose key is no smaller than the others comes last.
pub proof fn lemma_largest_is_last<T>(items: Seq<T>, keys: Seq<i64>, item: T, key: i64)
    requires
        items.len() == keys.len(),
        forall|j: int| 0 <= j < keys.len() ==> #[trigger] keys[j] <= key,
    ensures
        sorted_by_keys(items.push(item), keys.push(key)) == sorted_by_keys(items, keys).push(item),
{
    let n = keys.len();
    let more = keys.push(key);
    lemma_order_of_prefix(keys, more, n);
    law_stable_order(keys, n);
    let p = stable_order(keys, n);
    assert(stable_order(more, n + 1) == placed(p, more, n as int));
    if n > 0 {
        assert(0 <= p[n - 1] < n);
        assert(more[p.last()] == keys[p.last()]);
    }
    assert(stable_order(more, n + 1) == p.push(n as int));
    let a = sorted_by_keys(items.push(item), more);
    let b = sorted_by_keys(items, keys).push(item);
    assert forall|j: int| 0 <= j < n implies #[trigger] a[j] == b[j] by {
        assert(p.push(n as int)[j] == p[j]);
        assert(items.push(item)[p[j]] == items[p[j]]);
    }
    assert(a =~= b);
}

/// Where every item has the property, all are kept.
pub proof fn lemma_kept_all<T>(s: Seq<T>, p: spec_fn(T) -> bool)
    requires
        forall|i: int| 0 <= i < s.len() ==> p(#[trigger] s[i]),
    ensures
        kept(s, p) == s,
    decreases s.len(),
{
    if s.len() > 0 {
        assert(p(s[s.len() - 1]));
        assert forall|i: int| 0 <= i < s.len() - 1 implies p(#[trigger] s.drop_last()[i]) by {
            assert(s.drop_last()[i] == s[i]);
        }
        lemma_kept_all(s.drop_last(), p);
        assert(s.drop_last().push(s.last()) =~= s);
    }
}

/// Properties that agree keep the same items.
pub proof fn lemma_kept_same<T>(s: Seq<T>, a: spec_fn(T) -> bool, b: spec_fn(T) -> bool)
    requires
        forall|x: T| a(x) == #[trigger] b(x),
    ensures
        kept(s, a) == kept(s, b),
    decreases s.len(),
{
    if s.len() > 0 {
        assert(a(s.last()) == b(s.last()));
        lemma_kept_same(s.drop_last(), a, b);
    }
}

/// What is kept was there before.
pub proof fn lemma_kept_from<T>(s: Seq<T>, p: spec_fn(T) -> bool)
    ensures
        forall|i: int| 0 <= i < kept(s, p).len() ==> s.contains(#[trigger] kept(s, p)[i]),
    decreases s.len(),
{
    if s.len() > 0 {
        let d = s.drop_last();
        lemma_kept_from(d, p);
        assert forall|i: int| 0 <= i < kept(s, p).len() implies s.contains(
            #[trigger] kept(s, p)[i],
        ) by {
            if i < kept(d, p).len() {
                let k = choose|k: int| 0 <= k < d.len() && d[k] == kept(d, p)[i];
                assert(s[k] == kept(s, p)[i]);
            } else {
                assert(s[s.len() - 1] == kept(s, p)[i]);
            }
        }
    }
}

/// How many of the texts come before a text.
pub open spec fn rank(names: Seq<Seq<char>>, name: Seq<char>) -> nat
    decreases names.len(),
{
    if names.len() == 0 {
        0
    } else {
        rank(names.drop_last(), name) + if lex_lt(names.last(), name) {
            1nat
        } else {
            0nat
        }
    }
}

/// The rank of each text among all of them.
pub open spec fn ranks(names: Seq<Seq<char>>) -> Seq<i64> {
    names.map_values(|n: Seq<char>| rank(names, n) as i64)
}

/// A text that comes before another has the smaller rank.
pub proof fn lemma_rank(names: Seq<Seq<char>>, a: Seq<char>, b: Seq<char>)
    requires
        lex_lt(a, b),
    ensures
        rank(names, a) <= rank(names, b),
        names.contains(a) ==> rank(names, a) < rank(names, b),
    decreases names.len(),
{
    if names.len() > 0 {
        let d = names.drop_last();
        lemma_rank(d, a, b);
        if lex_lt(names.last(), a) {
            lemma_lex_transitive(names.last(), a, b);
        }
        lemma_lex_irreflexive(a);
        if names.contains(a) && names.last() != a {
            let k = choose|k: int| 0 <= k < names.len() && names[k] == a;
            assert(d[k] == a);
        }
    }
}

/// The rank of each string among all of them.
pub fn rank_strings(names: &Vec<String>) -> (r: Vec<i64>)
    requires
        names@.len() <= i64::MAX,
    ensures
        r@ == ranks(names@.map_values(|s: String| s@)),
{
    let ghost all = names@.map_values(|s: String| s@);
    let mut out: Vec<i64> = Vec::new();
    let mut i: usize = 0;
    while i < names.len()
        invariant
            i <= names.len(),
            names@.len() <= i64::MAX,
            all == names@.map_values(|s: String| s@),
            out@.len() == i,
            forall|k: int| 0 <= k < i ==> #[trigger] out@[k] == rank(all, all[k]) as i64,
        decreases names.len() - i,
    {
        let mut count: i64 = 0;
        let mut j: usize = 0;
        while j < names.len()
            invariant
                i < names.len(),
                j <= names.len(),
                names@.len() <= i64::MAX,
                all == names@.map_values(|s: String| s@),
                0 <= count <= j,
                count == rank(all.take(j as int), all[i as int]),
            decreases names.len() - j,
        {
            assert(all.take(j + 1).drop_last() == all.take(j as int));
            if str_lt(names[j].as_str(), names[i].as_str()) {
                count = count + 1;
            }
            j = j + 1;
        }
        assert(all.take(all.len() as int) == all);
        out.push(count);
        i = i + 1;
    }
    assert(out@ =~= ranks(all));
    out
}

// ---------------------------------------------------------------------------
// Sums and counts, for statements about whole lists
// ---------------------------------------------------------------------------

/// The exact sum of a value over some items.
pub open spec fn sum_over<T>(s: Seq<T>, f: spec_fn(T) -> int) -> int
    decreases s.len(),
{
    if s.len() == 0 {
        0
    } else {
        sum_over(s.drop_last(), f) + f(s.last())
    }
}

/// How many items have a property.
pub open spec fn how_many<T>(s: Seq<T>, p: spec_fn(T) -> bool) -> nat {
    s.filter(p).len()
}

/// The distance of a number from zero.
pub open spec fn size_of(x: int) -> int {
    if x < 0 {
        -x
    } else {
        x
    }
}

/// What is kept is what a filter leaves.
pub proof fn lemma_kept_is_filter<T>(s: Seq<T>, p: spec_fn(T) -> bool)
    ensures
        kept(s, p) == s.filter(p),
    decreases s.len(),
{
    reveal(Seq::filter);
    if s.len() > 0 {
        lemma_kept_is_filter(s.drop_last(), p);
    }
}

/// Values that agree on the items have the same sum.
pub proof fn lemma_sum_same<T>(s: Seq<T>, f: spec_fn(T) -> int, g: spec_fn(T) -> int)
    requires
        forall|i: int| 0 <= i < s.len() ==> f(#[trigger] s[i]) == g(s[i]),
    ensures
        sum_over(s, f) == sum_over(s, g),
    decreases s.len(),
{
    if s.len() > 0 {
        let d = s.drop_last();
        assert forall|i: int| 0 <= i < d.len() implies f(#[trigger] d[i]) == g(d[i]) by {
            assert(d[i] == s[i]);
        }
        assert(f(s[s.len() - 1]) == g(s[s.len() - 1]));
        lemma_sum_same(d, f, g);
    }
}

/// A sum of sums is the sum of the sums.
pub proof fn lemma_sum_adds<T>(
    s: Seq<T>,
    f: spec_fn(T) -> int,
    g: spec_fn(T) -> int,
    h: spec_fn(T) -> int,
)
    requires
        forall|i: int| 0 <= i < s.len() ==> h(#[trigger] s[i]) == f(s[i]) + g(s[i]),
    ensures
        sum_over(s, h) == sum_over(s, f) + sum_over(s, g),
    decreases s.len(),
{
    if s.len() > 0 {
        let d = s.drop_last();
        assert forall|i: int| 0 <= i < d.len() implies h(#[trigger] d[i]) == f(d[i]) + g(d[i]) by {
            assert(d[i] == s[i]);
        }
        assert(h(s[s.len() - 1]) == f(s[s.len() - 1]) + g(s[s.len() - 1]));
        lemma_sum_adds(d, f, g, h);
    }
}

/// A sum is no further from zero than the sum of the sizes.
pub proof fn lemma_sum_bounded<T>(s: Seq<T>, f: spec_fn(T) -> int, g: spec_fn(T) -> int)
    requires
        forall|i: int| 0 <= i < s.len() ==> -g(s[i]) <= f(#[trigger] s[i]) <= g(s[i]),
    ensures
        -sum_over(s, g) <= sum_over(s, f) <= sum_over(s, g),
    decreases s.len(),
{
    if s.len() > 0 {
        let d = s.drop_last();
        assert forall|i: int| 0 <= i < d.len() implies -g(d[i]) <= f(#[trigger] d[i]) <= g(d[i]) by {
            assert(d[i] == s[i]);
        }
        assert(-g(s[s.len() - 1]) <= f(s[s.len() - 1]) <= g(s[s.len() - 1]));
        lemma_sum_bounded(d, f, g);
    }
}

/// Some items picked by their indices.
spec fn picked<T>(items: Seq<T>, p: Seq<int>) -> Seq<T> {
    p.map_values(|i: int| items[i])
}

proof fn lemma_picked_all<T>(items: Seq<T>, keys: Seq<i64>, n: nat)
    requires
        n <= keys.len(),
        n <= items.len(),
    ensures
        picked(items, stable_order(keys, n)).to_multiset() == items.take(n as int).to_multiset(),
    decreases n,
{
    let p = stable_order(keys, n);
    if n == 0 {
        assert(picked(items, p) =~= items.take(0));
    } else {
        let m = (n - 1) as nat;
        let q = stable_order(keys, m);
        lemma_picked_all(items, keys, m);
        law_stable_order(keys, m);
        let pos = lemma_position(q, keys, m as int);
        lemma_placed(q, keys, m as int, pos);
        assert(p == q.insert(pos, m as int));
        let a = picked(items, p);
        assert(a.remove(pos) =~= picked(items, q));
        a.to_multiset_ensures();
        let b = items.take(m as int);
        b.to_multiset_ensures();
        assert(items.take(n as int) =~= b.push(items[m as int]));
        assert(a[pos] == items[m as int]);
        assert(a.contains(a[pos]));
        assert(a.to_multiset().remove(a[pos]).insert(a[pos]) =~= a.to_multiset());
    }
}

/// Sorting changes nothing but the order: the same items, as often, and their keys ascend.
pub proof fn law_sorting_keeps_items<T>(items: Seq<T>, key: spec_fn(T) -> i64)
    ensures
        ({
            let r = sorted_by_keys(items, items.map_values(key));
            &&& r.to_multiset() == items.to_multiset()
            &&& r.len() == items.len()
            &&& forall|i: int, j: int|
                0 <= i < j < r.len() ==> key(#[trigger] r[i]) <= key(#[trigger] r[j])
        }),
{
    let keys = items.map_values(key);
    let r = sorted_by_keys(items, keys);
    let p = stable_order(keys, keys.len());
    law_stable_order(keys, keys.len());
    lemma_picked_all(items, keys, keys.len());
    assert(items.take(keys.len() as int) =~= items);
    assert(r =~= picked(items, p));
    assert forall|i: int, j: int| 0 <= i < j < r.len() implies key(#[trigger] r[i]) <= key(
        #[trigger] r[j],
    ) by {
        assert(comes_before(keys, p[i], p[j]));
        assert(r[i] == items[p[i]] && r[j] == items[p[j]]);
    }
}

/// Lists with the same items contain the same.
pub proof fn lemma_same_items<T>(a: Seq<T>, b: Seq<T>)
    requires
        a.to_multiset() == b.to_multiset(),
    ensures
        a.len() == b.len(),
        forall|x: T| a.contains(x) == b.contains(x),
{
    a.to_multiset_ensures();
    b.to_multiset_ensures();
    assert forall|x: T| a.contains(x) == b.contains(x) by {
        assert(a.contains(x) == (a.to_multiset().count(x) > 0));
        assert(b.contains(x) == (b.to_multiset().count(x) > 0));
    }
}

proof fn lemma_sum_removed<T>(s: Seq<T>, f: spec_fn(T) -> int, j: int)
    requires
        0 <= j < s.len(),
    ensures
        sum_over(s, f) == sum_over(s.remove(j), f) + f(s[j]),
    decreases s.len(),
{
    let d = s.drop_last();
    if j == s.len() - 1 {
        assert(s.remove(j) =~= d);
    } else {
        lemma_sum_removed(d, f, j);
        assert(s.remove(j).drop_last() =~= d.remove(j));
        assert(s.remove(j).last() == s.last());
    }
}

/// Lists with the same items have the same sums.
pub proof fn lemma_sum_of_same_items<T>(a: Seq<T>, b: Seq<T>, f: spec_fn(T) -> int)
    requires
        a.to_multiset() == b.to_multiset(),
    ensures
        sum_over(a, f) == sum_over(b, f),
    decreases a.len(),
{
    lemma_same_items(a, b);
    if a.len() > 0 {
        let n = a.len() - 1;
        assert(a.contains(a[n]));
        assert(b.contains(a[n]));
        let j = choose|j: int| 0 <= j < b.len() && b[j] == a[n];
        a.to_multiset_ensures();
        b.to_multiset_ensures();
        assert(a.remove(n) =~= a.drop_last());
        lemma_sum_of_same_items(a.drop_last(), b.remove(j), f);
        lemma_sum_removed(b, f, j);
    }
}

/// A count is a sum of ones.
pub proof fn lemma_count_is_sum<T>(s: Seq<T>, p: spec_fn(T) -> bool)
    ensures
        how_many(s, p) == sum_over(
            s,
            |x: T|
                if p(x) {
                    1int
                } else {
                    0int
                },
        ),
    decreases s.len(),
{
    reveal(Seq::filter);
    if s.len() > 0 {
        lemma_count_is_sum(s.drop_last(), p);
    }
}

/// Lists with the same items have the same counts.
pub proof fn lemma_count_of_same_items<T>(a: Seq<T>, b: Seq<T>, p: spec_fn(T) -> bool)
    requires
        a.to_multiset() == b.to_multiset(),
    ensures
        how_many(a, p) == how_many(b, p),
{
    lemma_count_is_sum(a, p);
    lemma_count_is_sum(b, p);
    lemma_sum_of_same_items(
        a,
        b,
        |x: T|
            if p(x) {
                1int
            } else {
                0int
            },
    );
}

/// A count is bounded by where the property ends and begins.
pub proof fn lemma_count_bounds<T>(s: Seq<T>, p: spec_fn(T) -> bool, k: int)
    requires
        0 <= k <= s.len(),
    ensures
        (forall|i: int| k <= i < s.len() ==> !p(#[trigger] s[i])) ==> how_many(s, p) <= k,
        (forall|i: int| 0 <= i < k ==> p(#[trigger] s[i])) ==> how_many(s, p) >= k,
        (forall|i: int| 0 <= i < k ==> !p(#[trigger] s[i])) ==> how_many(s, p) <= s.len() - k,
        (forall|i: int| k <= i < s.len() ==> p(#[trigger] s[i])) ==> how_many(s, p) >= s.len() - k,
        how_many(s, p) <= s.len(),
    decreases s.len(),
{
    reveal(Seq::filter);
    if s.len() > 0 {
        let n = s.len() - 1;
        let d = s.drop_last();
        let m: int = if k <= n {
            k
        } else {
            n
        };
        lemma_count_bounds(d, p, m);
        assert(forall|i: int| 0 <= i < n ==> #[trigger] d[i] == s[i]);
        assert(s[n] == s.last());
        if forall|i: int| k <= i < s.len() ==> !p(#[trigger] s[i]) {
            assert forall|i: int| m <= i < d.len() implies !p(#[trigger] d[i]) by {
                assert(!p(s[i]));
            }
            if k <= n {
                assert(!p(s[n]));
            }
        }
        if forall|i: int| 0 <= i < k ==> p(#[trigger] s[i]) {
            assert forall|i: int| 0 <= i < m implies p(#[trigger] d[i]) by {
                assert(p(s[i]));
            }
            if k > n {
                assert(p(s[n]));
            }
        }
        if forall|i: int| 0 <= i < k ==> !p(#[trigger] s[i]) {
            assert forall|i: int| 0 <= i < m implies !p(#[trigger] d[i]) by {
                assert(!p(s[i]));
            }
            if k > n {
                assert(!p(s[n]));
            }
        }
        if forall|i: int| k <= i < s.len() ==> p(#[trigger] s[i]) {
            assert forall|i: int| m <= i < d.len() implies p(#[trigger] d[i]) by {
                assert(p(s[i]));
            }
            if k <= n {
                assert(p(s[n]));
            }
        }
    }
}

/// Properties that agree on the items count the same.
pub proof fn lemma_count_same<T>(s: Seq<T>, p: spec_fn(T) -> bool, q: spec_fn(T) -> bool)
    requires
        forall|i: int| 0 <= i < s.len() ==> p(#[trigger] s[i]) == q(s[i]),
    ensures
        how_many(s, p) == how_many(s, q),
        s.filter(p) == s.filter(q),
    decreases s.len(),
{
    reveal(Seq::filter);
    if s.len() > 0 {
        let d = s.drop_last();
        assert forall|i: int| 0 <= i < d.len() implies p(#[trigger] d[i]) == q(d[i]) by {
            assert(d[i] == s[i]);
        }
        assert(p(s[s.len() - 1]) == q(s[s.len() - 1]));
        lemma_count_same(d, p, q);
    }
}

} // verus!
