//! Pages of a transaction feed: some transactions are written, some are taken back.

use crate::db::{delete_transaction_by_external, upsert_transaction, Account, Transaction};
use crate::error::Result;
use crate::ids::TransactionId;
use vstd::prelude::*;

verus! {

use crate::db::{
    all_have_accounts, has_account, is_orphan, is_orphan_error, is_same_transaction,
    transaction_slot, transaction_updated, transaction_with_id, transactions_after,
    without_external,
};
use crate::order::{kept, lemma_first_index, lemma_first_index_is_first, lemma_kept};
use crate::providers::plaid::texts;
use crate::text::opt_text;

/// The transactions after some are written one by one; each takes its own id where it is
/// new.
pub open spec fn transactions_fed(
    rows: Seq<Transaction>,
    list: Seq<Transaction>,
    fresh: Seq<TransactionId>,
) -> Seq<Transaction>
    decreases list.len(),
{
    if list.len() == 0 {
        rows
    } else {
        transactions_after(
            transactions_fed(rows, list.drop_last(), fresh.drop_last()),
            list.last(),
            fresh.last(),
        )
    }
}

/// The transactions after some are taken back one by one.
pub open spec fn withdrawn(rows: Seq<Transaction>, removed: Seq<Seq<char>>) -> Seq<Transaction>
    decreases removed.len(),
{
    if removed.len() == 0 {
        rows
    } else {
        without_external(withdrawn(rows, removed.drop_last()), removed.last())
    }
}

/// The transactions after a page: first what it writes, then what it takes back.
pub open spec fn page_applied(
    rows: Seq<Transaction>,
    list: Seq<Transaction>,
    fresh: Seq<TransactionId>,
    removed: Seq<Seq<char>>,
) -> Seq<Transaction> {
    withdrawn(transactions_fed(rows, list, fresh), removed)
}

/// How many of some transactions are written one by one before one is refused.
pub open spec fn taken(
    accounts: Seq<Account>,
    rows: Seq<Transaction>,
    list: Seq<Transaction>,
    fresh: Seq<TransactionId>,
) -> nat
    decreases list.len(),
{
    if list.len() == 0 {
        0
    } else {
        let n = taken(accounts, rows, list.drop_last(), fresh.drop_last());
        if n == list.len() - 1 && !is_orphan(
            accounts,
            transactions_fed(rows, list.drop_last(), fresh.drop_last()),
            list.last(),
        ) {
            n + 1
        } else {
            n
        }
    }
}

/// What is refused stays refused, whatever follows.
proof fn lemma_taken_stops(
    accounts: Seq<Account>,
    rows: Seq<Transaction>,
    list: Seq<Transaction>,
    fresh: Seq<TransactionId>,
    i: int,
)
    requires
        list.len() == fresh.len(),
        0 <= i < list.len(),
        taken(accounts, rows, list.take(i), fresh.take(i)) == i,
        is_orphan(accounts, transactions_fed(rows, list.take(i), fresh.take(i)), list[i]),
    ensures
        taken(accounts, rows, list, fresh) == i,
    decreases list.len(),
{
    let d = list.drop_last();
    let f = fresh.drop_last();
    if i == list.len() - 1 {
        assert(d =~= list.take(i) && f =~= fresh.take(i));
    } else {
        assert(d.take(i) =~= list.take(i) && f.take(i) =~= fresh.take(i));
        lemma_taken_stops(accounts, rows, d, f, i);
    }
}

/// Transactions of accounts that exist are all written.
pub proof fn law_known_are_taken(
    accounts: Seq<Account>,
    rows: Seq<Transaction>,
    list: Seq<Transaction>,
    fresh: Seq<TransactionId>,
)
    requires
        all_have_accounts(accounts, list),
    ensures
        taken(accounts, rows, list, fresh) == list.len(),
    decreases list.len(),
{
    if list.len() > 0 {
        let d = list.drop_last();
        assert(has_account(accounts, list[list.len() - 1].account_id));
        assert forall|i: int| 0 <= i < d.len() implies has_account(
            accounts,
            (#[trigger] d[i]).account_id,
        ) by {
            assert(d[i] == list[i]);
        }
        law_known_are_taken(accounts, rows, d, fresh.drop_last());
    }
}

/// Writes some transactions, up to the first that is refused.
pub fn upsert_transactions(
    rows: &mut Vec<Transaction>,
    accounts: &Vec<Account>,
    list: &Vec<Transaction>,
    fresh: &Vec<TransactionId>,
) -> (r: Result<()>)
    requires
        list@.len() == fresh@.len(),
    ensures
        ({
            let n = taken(accounts@, old(rows)@, list@, fresh@) as int;
            &&& final(rows)@ == transactions_fed(old(rows)@, list@.take(n), fresh@.take(n))
            &&& r is Ok <==> n == list@.len()
            &&& r is Err ==> is_orphan_error(r->Err_0)
        }),
{
    let ghost before = rows@;
    let mut i: usize = 0;
    assert(list@.take(0) =~= Seq::<Transaction>::empty());
    while i < list.len()
        invariant
            i <= list.len(),
            list@.len() == fresh@.len(),
            before == old(rows)@,
            rows@ == transactions_fed(before, list@.take(i as int), fresh@.take(i as int)),
            taken(accounts@, before, list@.take(i as int), fresh@.take(i as int)) == i,
        decreases list.len() - i,
    {
        assert(list@.take(i + 1).drop_last() =~= list@.take(i as int));
        assert(list@.take(i + 1).last() == list@[i as int]);
        assert(fresh@.take(i + 1).drop_last() =~= fresh@.take(i as int));
        assert(fresh@.take(i + 1).last() == fresh@[i as int]);
        match upsert_transaction(rows, accounts, &list[i], fresh[i]) {
            Ok(_) => {},
            Err(e) => {
                proof {
                    lemma_taken_stops(accounts@, before, list@, fresh@, i as int);
                }
                return Err(e);
            },
        }
        i = i + 1;
    }
    assert(list@.take(i as int) =~= list@);
    assert(fresh@.take(i as int) =~= fresh@);
    Ok(())
}

/// Takes some transactions back and says how many there were.
pub fn delete_transactions(rows: &mut Vec<Transaction>, removed: &Vec<String>) -> (r: usize)
    ensures
        final(rows)@ == withdrawn(old(rows)@, texts(removed@)),
        r == old(rows)@.len() - final(rows)@.len(),
{
    let ghost before = rows@;
    let ghost all = texts(removed@);
    let count: usize = rows.len();
    let mut gone: usize = 0;
    let mut i: usize = 0;
    assert(all.take(0) =~= Seq::<Seq<char>>::empty());
    while i < removed.len()
        invariant
            i <= removed.len(),
            all == texts(removed@),
            rows@ == withdrawn(before, all.take(i as int)),
            gone + rows@.len() == before.len() == count,
        decreases removed.len() - i,
    {
        assert(all.take(i + 1).drop_last() =~= all.take(i as int));
        assert(all.take(i + 1).last() == removed@[i as int]@);
        proof {
            lemma_kept(
                rows@,
                |t: Transaction| opt_text(t.external_id) != Some(removed@[i as int]@),
            );
        }
        let n: usize = delete_transaction_by_external(rows, removed[i].as_str());
        gone = gone + n;
        i = i + 1;
    }
    assert(all.take(i as int) =~= all);
    gone
}

/// Applies a page and says how many transactions it took back. Where a write is refused, what
/// came before it stays, and nothing is taken back.
pub fn apply_page(
    rows: &mut Vec<Transaction>,
    accounts: &Vec<Account>,
    list: &Vec<Transaction>,
    fresh: &Vec<TransactionId>,
    removed: &Vec<String>,
) -> (r: Result<usize>)
    requires
        list@.len() == fresh@.len(),
    ensures
        ({
            let n = taken(accounts@, old(rows)@, list@, fresh@) as int;
            if n == list@.len() {
                &&& r is Ok
                &&& final(rows)@ == page_applied(old(rows)@, list@, fresh@, texts(removed@))
                &&& r->Ok_0 == transactions_fed(old(rows)@, list@, fresh@).len()
                    - final(rows)@.len()
            } else {
                &&& r is Err && is_orphan_error(r->Err_0)
                &&& final(rows)@ == transactions_fed(old(rows)@, list@.take(n), fresh@.take(n))
            }
        }),
{
    match upsert_transactions(rows, accounts, list, fresh) {
        Ok(_) => {
            assert(list@.take(list@.len() as int) =~= list@);
            assert(fresh@.take(list@.len() as int) =~= fresh@);
            Ok(delete_transactions(rows, removed))
        },
        Err(e) => Err(e),
    }
}

/// The ids from a number on.
pub open spec fn ids_from(fresh: int, n: nat) -> Seq<TransactionId> {
    Seq::new(n, |i: int| TransactionId((fresh + i) as i64))
}

/// The ids from a number on.
pub fn number_ids(fresh: i64, n: usize) -> (r: Vec<TransactionId>)
    requires
        0 <= fresh,
        fresh + n <= i64::MAX,
    ensures
        r@ == ids_from(fresh as int, n as nat),
{
    let mut out: Vec<TransactionId> = Vec::new();
    let mut i: usize = 0;
    while i < n
        invariant
            i <= n,
            0 <= fresh,
            fresh + n <= i64::MAX,
            out@ == ids_from(fresh as int, i as nat),
        decreases n - i,
    {
        out.push(TransactionId(fresh + i as i64));
        assert(out@ =~= ids_from(fresh as int, (i + 1) as nat));
        i = i + 1;
    }
    out
}

// ---------------------------------------------------------------------------
// Writing again
// ---------------------------------------------------------------------------

/// Whether every transaction has an external id, as those of a feed do.
pub open spec fn all_external(list: Seq<Transaction>) -> bool {
    forall|i: int| 0 <= i < list.len() ==> (#[trigger] list[i]).external_id is Some
}

/// The last of some writes that is about the row at a position.
spec fn last_hit(rows: Seq<Transaction>, list: Seq<Transaction>, p: int) -> Option<Transaction>
    decreases list.len(),
{
    if list.len() == 0 {
        None
    } else if transaction_slot(rows, list.last()) == p {
        Some(list.last())
    } else {
        last_hit(rows, list.drop_last(), p)
    }
}

/// Rows that agree in their accounts and external ids are found alike.
proof fn lemma_same_slots(a: Seq<Transaction>, b: Seq<Transaction>, t: Transaction)
    requires
        a.len() == b.len(),
        forall|j: int|
            0 <= j < a.len() ==> (#[trigger] a[j]).account_id == b[j].account_id && a[j].external_id
                == b[j].external_id,
    ensures
        transaction_slot(a, t) == transaction_slot(b, t),
{
    let p = |row: Transaction| is_same_transaction(row, t);
    let k = transaction_slot(a, t);
    lemma_first_index_is_first(a, p);
    assert forall|j: int| 0 <= j < k implies !p(#[trigger] b[j]) by {
        assert(!p(a[j]));
    }
    if k < a.len() {
        assert(p(a[k]));
    }
    lemma_first_index(b, p, k);
}

/// A write that finds its row leaves every row where it is, under its key.
proof fn lemma_update_keeps_keys(rows: Seq<Transaction>, t: Transaction, fresh: TransactionId)
    requires
        transaction_slot(rows, t) < rows.len(),
    ensures
        transactions_after(rows, t, fresh).len() == rows.len(),
        forall|u: Transaction|
            #[trigger] transaction_slot(transactions_after(rows, t, fresh), u) == transaction_slot(
                rows,
                u,
            ),
{
    lemma_first_index_is_first(rows, |row: Transaction| is_same_transaction(row, t));
    let after = transactions_after(rows, t, fresh);
    assert forall|u: Transaction|
        #[trigger] transaction_slot(after, u) == transaction_slot(rows, u) by {
        lemma_same_slots(after, rows, u);
    }
}

/// Writes that all find their rows change each row to the last write about it.
proof fn lemma_fed_in_place(
    rows: Seq<Transaction>,
    list: Seq<Transaction>,
    fresh: Seq<TransactionId>,
)
    requires
        list.len() == fresh.len(),
        forall|i: int|
            0 <= i < list.len() ==> transaction_slot(rows, #[trigger] list[i]) < rows.len(),
    ensures
        transactions_fed(rows, list, fresh).len() == rows.len(),
        forall|u: Transaction|
            #[trigger] transaction_slot(transactions_fed(rows, list, fresh), u)
                == transaction_slot(rows, u),
        forall|p: int|
            0 <= p < rows.len() ==> #[trigger] transactions_fed(rows, list, fresh)[p] == match last_hit(
                rows,
                list,
                p,
            ) {
                Some(t) => transaction_updated(rows[p], t),
                None => rows[p],
            },
    decreases list.len(),
{
    if list.len() > 0 {
        let d = list.drop_last();
        let t = list.last();
        let mid = transactions_fed(rows, d, fresh.drop_last());
        assert forall|i: int| 0 <= i < d.len() implies transaction_slot(rows, #[trigger] d[i])
            < rows.len() by {
            assert(d[i] == list[i]);
        }
        lemma_fed_in_place(rows, d, fresh.drop_last());
        assert(list[list.len() - 1] == t);
        assert(transaction_slot(mid, t) == transaction_slot(rows, t));
        lemma_first_index_is_first(rows, |row: Transaction| is_same_transaction(row, t));
        lemma_update_keeps_keys(mid, t, fresh.last());
        let after = transactions_fed(rows, list, fresh);
        assert(after == transactions_after(mid, t, fresh.last()));
        assert forall|u: Transaction|
            #[trigger] transaction_slot(after, u) == transaction_slot(rows, u) by {
            assert(transaction_slot(mid, u) == transaction_slot(rows, u));
        }
        assert forall|p: int| 0 <= p < rows.len() implies #[trigger] after[p] == match last_hit(
            rows,
            list,
            p,
        ) {
            Some(t) => transaction_updated(rows[p], t),
            None => rows[p],
        } by {
            assert(mid[p] == match last_hit(rows, d, p) {
                Some(t) => transaction_updated(rows[p], t),
                None => rows[p],
            });
        }
    }
}

/// What was written is found again, and the last write about a row stands in it.
spec fn is_settled(rows: Seq<Transaction>, list: Seq<Transaction>) -> bool {
    &&& forall|i: int|
        0 <= i < list.len() ==> transaction_slot(rows, #[trigger] list[i]) < rows.len()
    &&& forall|p: int|
        0 <= p < rows.len() ==> match #[trigger] last_hit(rows, list, p) {
            Some(t) => transaction_updated(rows[p], t) == rows[p],
            None => true,
        }
}

proof fn lemma_hits_alike(a: Seq<Transaction>, b: Seq<Transaction>, list: Seq<Transaction>, p: int)
    requires
        forall|i: int|
            0 <= i < list.len() ==> transaction_slot(a, #[trigger] list[i]) == transaction_slot(
                b,
                list[i],
            ),
    ensures
        last_hit(a, list, p) == last_hit(b, list, p),
    decreases list.len(),
{
    if list.len() > 0 {
        let d = list.drop_last();
        assert(list[list.len() - 1] == list.last());
        assert forall|i: int| 0 <= i < d.len() implies transaction_slot(a, #[trigger] d[i])
            == transaction_slot(b, d[i]) by {
            assert(d[i] == list[i]);
        }
        lemma_hits_alike(a, b, d, p);
    }
}

proof fn lemma_no_hit(rows: Seq<Transaction>, list: Seq<Transaction>, p: int)
    requires
        forall|i: int| 0 <= i < list.len() ==> transaction_slot(rows, #[trigger] list[i]) != p,
    ensures
        last_hit(rows, list, p) is None,
    decreases list.len(),
{
    if list.len() > 0 {
        let d = list.drop_last();
        assert(list[list.len() - 1] == list.last());
        assert forall|i: int| 0 <= i < d.len() implies transaction_slot(rows, #[trigger] d[i])
            != p by {
            assert(d[i] == list[i]);
        }
        lemma_no_hit(rows, d, p);
    }
}

proof fn lemma_settled(rows: Seq<Transaction>, list: Seq<Transaction>, fresh: Seq<TransactionId>)
    requires
        list.len() == fresh.len(),
        all_external(list),
    ensures
        is_settled(transactions_fed(rows, list, fresh), list),
    decreases list.len(),
{
    if list.len() > 0 {
        let d = list.drop_last();
        let t = list.last();
        let mid = transactions_fed(rows, d, fresh.drop_last());
        assert forall|i: int| 0 <= i < d.len() implies (#[trigger] d[i]).external_id is Some by {
            assert(d[i] == list[i]);
        }
        assert(list[list.len() - 1].external_id is Some);
        lemma_settled(rows, d, fresh.drop_last());
        let after = transactions_fed(rows, list, fresh);
        assert(after == transactions_after(mid, t, fresh.last()));
        let p_t = |row: Transaction| is_same_transaction(row, t);
        let k = transaction_slot(mid, t);
        lemma_first_index_is_first(mid, p_t);
        if k < mid.len() {
            lemma_update_keeps_keys(mid, t, fresh.last());
            assert forall|i: int| 0 <= i < list.len() implies transaction_slot(
                after,
                #[trigger] list[i],
            ) < after.len() by {
                if i < d.len() {
                    assert(d[i] == list[i]);
                    assert(transaction_slot(mid, d[i]) < mid.len());
                }
                assert(transaction_slot(after, list[i]) == transaction_slot(mid, list[i]));
            }
            assert forall|p: int| 0 <= p < after.len() implies match #[trigger] last_hit(
                after,
                list,
                p,
            ) {
                Some(u) => transaction_updated(after[p], u) == after[p],
                None => true,
            } by {
                assert(transaction_slot(after, t) == k);
                if p != k {
                    assert(after[p] == mid[p]);
                    lemma_hits_alike(after, mid, d, p);
                    assert(last_hit(mid, d, p) == last_hit(after, list, p));
                }
            }
        } else {
            let row = transaction_with_id(t, Some(fresh.last()));
            assert(after == mid.push(row));
            assert forall|i: int| 0 <= i < d.len() implies transaction_slot(after, #[trigger] d[i])
                == transaction_slot(mid, d[i]) by {
                let q = |r: Transaction| is_same_transaction(r, d[i]);
                let m = transaction_slot(mid, d[i]);
                lemma_first_index_is_first(mid, q);
                assert(m < mid.len());
                assert forall|j: int| 0 <= j < m implies !q(#[trigger] after[j]) by {
                    assert(after[j] == mid[j]);
                }
                assert(after[m] == mid[m]);
                lemma_first_index(after, q, m);
            }
            assert forall|j: int| 0 <= j < k implies !p_t(#[trigger] after[j]) by {
                assert(after[j] == mid[j]);
            }
            assert(p_t(after[k]));
            lemma_first_index(after, p_t, k);
            assert forall|i: int| 0 <= i < list.len() implies transaction_slot(
                after,
                #[trigger] list[i],
            ) < after.len() by {
                if i < d.len() {
                    assert(d[i] == list[i]);
                    assert(transaction_slot(mid, d[i]) < mid.len());
                }
            }
            assert forall|p: int| 0 <= p < after.len() implies match #[trigger] last_hit(
                after,
                list,
                p,
            ) {
                Some(u) => transaction_updated(after[p], u) == after[p],
                None => true,
            } by {
                if p != k {
                    assert(after[p] == mid[p]);
                    lemma_hits_alike(after, mid, d, p);
                    assert(last_hit(mid, d, p) == last_hit(after, list, p));
                }
            }
        }
    }
}

/// Writing the transactions of a feed again changes nothing: a page that was read before is
/// not counted twice, whatever ids would be free by then.
pub proof fn law_feed_idempotent(
    rows: Seq<Transaction>,
    list: Seq<Transaction>,
    fresh: Seq<TransactionId>,
    other: Seq<TransactionId>,
)
    requires
        list.len() == fresh.len() == other.len(),
        all_external(list),
    ensures
        transactions_fed(transactions_fed(rows, list, fresh), list, other) == transactions_fed(
            rows,
            list,
            fresh,
        ),
{
    let once = transactions_fed(rows, list, fresh);
    lemma_settled(rows, list, fresh);
    lemma_fed_in_place(once, list, other);
    assert forall|p: int| 0 <= p < once.len() implies #[trigger] transactions_fed(
        once,
        list,
        other,
    )[p] == once[p] by {
        assert(match last_hit(once, list, p) {
            Some(t) => transaction_updated(once[p], t) == once[p],
            None => true,
        });
    }
    assert(transactions_fed(once, list, other) =~= once);
}

// ---------------------------------------------------------------------------
// Applying a page again
// ---------------------------------------------------------------------------

/// Whether a transaction is one of those that are taken back.
spec fn is_removed(t: Transaction, removed: Seq<Seq<char>>) -> bool {
    t.external_id is Some && removed.contains(t.external_id->0@)
}

spec fn stays(removed: Seq<Seq<char>>) -> spec_fn(Transaction) -> bool {
    |t: Transaction| !is_removed(t, removed)
}

proof fn lemma_kept_twice<T>(
    s: Seq<T>,
    p: spec_fn(T) -> bool,
    q: spec_fn(T) -> bool,
    both: spec_fn(T) -> bool,
)
    requires
        forall|x: T| #[trigger] both(x) == (p(x) && q(x)),
    ensures
        kept(kept(s, p), q) == kept(s, both),
    decreases s.len(),
{
    if s.len() > 0 {
        lemma_kept_twice(s.drop_last(), p, q, both);
        assert(both(s.last()) == (p(s.last()) && q(s.last())));
        if p(s.last()) {
            let k = kept(s.drop_last(), p);
            assert(k.push(s.last()).drop_last() =~= k);
        }
    }
}

proof fn lemma_kept_all<T>(s: Seq<T>, p: spec_fn(T) -> bool)
    requires
        forall|x: T| #[trigger] p(x),
    ensures
        kept(s, p) == s,
    decreases s.len(),
{
    if s.len() > 0 {
        assert(p(s.last()));
        lemma_kept_all(s.drop_last(), p);
        assert(s.drop_last().push(s.last()) =~= s);
    }
}

/// Taking transactions back one by one leaves those that are none of them.
proof fn lemma_withdrawn(rows: Seq<Transaction>, removed: Seq<Seq<char>>)
    ensures
        withdrawn(rows, removed) == kept(rows, stays(removed)),
    decreases removed.len(),
{
    if removed.len() == 0 {
        assert forall|t: Transaction| #[trigger] stays(removed)(t) by {}
        lemma_kept_all(rows, stays(removed));
    } else {
        let d = removed.drop_last();
        let x = removed.last();
        lemma_withdrawn(rows, d);
        let q = |t: Transaction| opt_text(t.external_id) != Some(x);
        assert forall|t: Transaction| #[trigger] stays(removed)(t) == (stays(d)(t) && q(t)) by {
            if t.external_id is Some {
                let e = t.external_id->0@;
                if removed.contains(e) {
                    let k = choose|k: int| 0 <= k < removed.len() && removed[k] == e;
                    if k < d.len() {
                        assert(d[k] == e);
                        assert(d.contains(e));
                    }
                }
                if d.contains(e) {
                    let k = choose|k: int| 0 <= k < d.len() && d[k] == e;
                    assert(removed[k] == e);
                }
                if e == x {
                    assert(removed[removed.len() - 1] == e);
                }
            }
        }
        lemma_kept_twice(rows, stays(d), q, stays(removed));
    }
}

proof fn lemma_kept_concat<T>(a: Seq<T>, b: Seq<T>, p: spec_fn(T) -> bool)
    ensures
        kept(a + b, p) == kept(a, p) + kept(b, p),
    decreases b.len(),
{
    if b.len() == 0 {
        assert(a + b =~= a);
        assert(kept(a, p) + kept(b, p) =~= kept(a, p));
    } else {
        let d = b.drop_last();
        lemma_kept_concat(a, d, p);
        assert((a + b).drop_last() =~= a + d);
        assert((a + b).last() == b.last());
        assert(kept(a + b, p) =~= kept(a, p) + kept(b, p));
    }
}

proof fn lemma_kept_one<T>(x: T, p: spec_fn(T) -> bool)
    ensures
        kept(seq![x], p) == if p(x) {
            seq![x]
        } else {
            Seq::<T>::empty()
        },
{
    assert(seq![x].drop_last() =~= Seq::<T>::empty());
    assert(seq![x].last() == x);
    assert(Seq::<T>::empty().push(x) =~= seq![x]);
    reveal_with_fuel(kept, 2);
}

/// What is kept, split at a position.
proof fn lemma_kept_split<T>(s: Seq<T>, k: int, x: T, p: spec_fn(T) -> bool)
    requires
        0 <= k < s.len(),
    ensures
        kept(s.update(k, x), p) == kept(s.take(k), p) + (if p(x) {
            seq![x]
        } else {
            Seq::<T>::empty()
        }) + kept(s.skip(k + 1), p),
{
    assert(s.update(k, x) =~= s.take(k) + seq![x] + s.skip(k + 1));
    lemma_kept_concat(s.take(k) + seq![x], s.skip(k + 1), p);
    lemma_kept_concat(s.take(k), seq![x], p);
    lemma_kept_one(x, p);
}

/// What is kept is among what there was.
proof fn lemma_kept_among<T>(s: Seq<T>, p: spec_fn(T) -> bool, q: spec_fn(T) -> bool)
    requires
        forall|i: int| 0 <= i < s.len() ==> !q(#[trigger] s[i]),
    ensures
        forall|i: int| 0 <= i < kept(s, p).len() ==> !q(#[trigger] kept(s, p)[i]),
    decreases s.len(),
{
    if s.len() > 0 {
        let d = s.drop_last();
        assert forall|i: int| 0 <= i < d.len() implies !q(#[trigger] d[i]) by {
            assert(d[i] == s[i]);
        }
        assert(!q(s[s.len() - 1]));
        lemma_kept_among(d, p, q);
        assert forall|i: int| 0 <= i < kept(s, p).len() implies !q(#[trigger] kept(s, p)[i]) by {
            if i < kept(d, p).len() {
                assert(kept(s, p)[i] == kept(d, p)[i]);
            }
        }
    }
}

/// A write about a transaction that is going to be taken back leaves no trace.
proof fn lemma_write_removed(
    rows: Seq<Transaction>,
    t: Transaction,
    fresh: TransactionId,
    removed: Seq<Seq<char>>,
)
    requires
        is_removed(t, removed),
    ensures
        kept(transactions_after(rows, t, fresh), stays(removed)) == kept(rows, stays(removed)),
{
    let p = stays(removed);
    let k = transaction_slot(rows, t);
    lemma_first_index_is_first(rows, |row: Transaction| is_same_transaction(row, t));
    if k < rows.len() {
        let x = transaction_updated(rows[k], t);
        assert(is_same_transaction(rows[k], t));
        assert(!p(x) && !p(rows[k]));
        lemma_kept_split(rows, k, x, p);
        lemma_kept_split(rows, k, rows[k], p);
        assert(rows.update(k, rows[k]) =~= rows);
    } else {
        let x = transaction_with_id(t, Some(fresh));
        assert(!p(x));
        assert(rows.push(x).drop_last() =~= rows);
    }
}

/// A write about a transaction that stays can as well be made after the withdrawal.
proof fn lemma_write_kept(
    rows: Seq<Transaction>,
    t: Transaction,
    fresh: TransactionId,
    removed: Seq<Seq<char>>,
)
    requires
        t.external_id is Some,
        !is_removed(t, removed),
    ensures
        kept(transactions_after(rows, t, fresh), stays(removed)) == transactions_after(
            kept(rows, stays(removed)),
            t,
            fresh,
        ),
{
    let p = stays(removed);
    let q = |row: Transaction| is_same_transaction(row, t);
    let k = transaction_slot(rows, t);
    let left = kept(rows, p);
    lemma_first_index_is_first(rows, q);
    if k < rows.len() {
        let x = transaction_updated(rows[k], t);
        assert(q(rows[k]));
        assert(p(x) && p(rows[k]));
        lemma_kept_split(rows, k, x, p);
        lemma_kept_split(rows, k, rows[k], p);
        assert(rows.update(k, rows[k]) =~= rows);
        let front = kept(rows.take(k), p);
        assert forall|i: int| 0 <= i < rows.take(k).len() implies !q(
            #[trigger] rows.take(k)[i],
        ) by {
            assert(rows.take(k)[i] == rows[i]);
        }
        lemma_kept_among(rows.take(k), p, q);
        let m = front.len() as int;
        assert(left[m] == rows[k]);
        assert forall|j: int| 0 <= j < m implies !q(#[trigger] left[j]) by {
            assert(left[j] == front[j]);
        }
        lemma_first_index(left, q, m);
        assert(left.update(m, x) =~= front + seq![x] + kept(rows.skip(k + 1), p));
    } else {
        let x = transaction_with_id(t, Some(fresh));
        assert(p(x));
        assert(rows.push(x).drop_last() =~= rows);
        lemma_kept_among(rows, p, q);
        lemma_first_index(left, q, left.len() as int);
    }
}

/// The writes of a page that stay.
spec fn lasting(list: Seq<Transaction>, removed: Seq<Seq<char>>) -> Seq<Transaction>
    decreases list.len(),
{
    if list.len() == 0 {
        list
    } else if is_removed(list.last(), removed) {
        lasting(list.drop_last(), removed)
    } else {
        lasting(list.drop_last(), removed).push(list.last())
    }
}

/// The ids of the writes of a page that stay.
spec fn lasting_ids(
    list: Seq<Transaction>,
    fresh: Seq<TransactionId>,
    removed: Seq<Seq<char>>,
) -> Seq<TransactionId>
    decreases list.len(),
{
    if list.len() == 0 {
        Seq::empty()
    } else if is_removed(list.last(), removed) {
        lasting_ids(list.drop_last(), fresh.drop_last(), removed)
    } else {
        lasting_ids(list.drop_last(), fresh.drop_last(), removed).push(fresh.last())
    }
}

proof fn lemma_lasting(
    rows: Seq<Transaction>,
    list: Seq<Transaction>,
    fresh: Seq<TransactionId>,
    removed: Seq<Seq<char>>,
)
    requires
        list.len() == fresh.len(),
        all_external(list),
    ensures
        lasting(list, removed).len() == lasting_ids(list, fresh, removed).len(),
        all_external(lasting(list, removed)),
        kept(transactions_fed(rows, list, fresh), stays(removed)) == transactions_fed(
            kept(rows, stays(removed)),
            lasting(list, removed),
            lasting_ids(list, fresh, removed),
        ),
    decreases list.len(),
{
    if list.len() > 0 {
        let d = list.drop_last();
        let f = fresh.drop_last();
        let t = list.last();
        assert forall|i: int| 0 <= i < d.len() implies (#[trigger] d[i]).external_id is Some by {
            assert(d[i] == list[i]);
        }
        assert(list[list.len() - 1].external_id is Some);
        lemma_lasting(rows, d, f, removed);
        let mid = transactions_fed(rows, d, f);
        if is_removed(t, removed) {
            lemma_write_removed(mid, t, fresh.last(), removed);
        } else {
            lemma_write_kept(mid, t, fresh.last(), removed);
            let l = lasting(d, removed);
            let ids = lasting_ids(d, f, removed);
            assert(l.push(t).drop_last() =~= l);
            assert(ids.push(fresh.last()).drop_last() =~= ids);
        }
    }
}

/// Applying a page of a feed again changes nothing: a feed that goes on from an earlier page
/// does not count what it has already seen twice.
pub proof fn law_page_idempotent(
    rows: Seq<Transaction>,
    list: Seq<Transaction>,
    fresh: Seq<TransactionId>,
    other: Seq<TransactionId>,
    removed: Seq<Seq<char>>,
)
    requires
        list.len() == fresh.len() == other.len(),
        all_external(list),
    ensures
        page_applied(page_applied(rows, list, fresh, removed), list, other, removed)
            == page_applied(rows, list, fresh, removed),
{
    let p = stays(removed);
    let once = page_applied(rows, list, fresh, removed);
    lemma_withdrawn(transactions_fed(rows, list, fresh), removed);
    lemma_lasting(rows, list, fresh, removed);
    lemma_withdrawn(transactions_fed(once, list, other), removed);
    lemma_lasting(once, list, other, removed);
    lemma_kept_twice(transactions_fed(rows, list, fresh), p, p, p);
    law_feed_idempotent(
        kept(rows, p),
        lasting(list, removed),
        lasting_ids(list, fresh, removed),
        lasting_ids(list, other, removed),
    );
}

} // verus!
