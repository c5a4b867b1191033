//! Laws of the keys that payees are grouped by, and of the labels that operators give them.

use vstd::prelude::*;

verus! {

use crate::db::RecurringLabel;
use crate::order::lemma_kept;
use crate::recurring::{
    bill_names, is_ignored, joined, joined_one, key_char, key_part, label_for,
    lemma_squeezed_is_key, names_any, normalized, squeezed, subscription_names, suggestion, Series,
    SeriesLabel,
};
use crate::rpc::LabeledSeries;
use crate::text::{
    has_text, is_alnum, is_digit, is_white, lemma_trimmed_fixed, lower_char, stands_at, trimmed,
    trimmed_end, trimmed_start,
};

// ---------------------------------------------------------------------------
// Keys
// ---------------------------------------------------------------------------

/// Plain text: all of it is ASCII.
pub open spec fn is_plain(s: Seq<char>) -> bool {
    forall|i: int| 0 <= i < s.len() ==> (#[trigger] s[i] as int) < 128
}

/// An ASCII letter.
pub open spec fn is_letter(c: char) -> bool {
    'a' <= c <= 'z' || 'A' <= c <= 'Z'
}

/// An ASCII letter or digit.
pub open spec fn is_word_char(c: char) -> bool {
    is_letter(c) || '0' <= c <= '9'
}

/// The letters of a word, in lower case.
pub open spec fn letters(w: Seq<char>) -> Seq<char> {
    w.filter(|c: char| is_letter(c)).map_values(
        |c: char|
            if 'A' <= c <= 'Z' {
                (c as int + 32) as char
            } else {
                c
            },
    )
}

/// Two keys with a space between them; where one is empty, the other alone.
pub open spec fn spaced(a: Seq<char>, b: Seq<char>) -> Seq<char> {
    if a.len() == 0 {
        b
    } else if b.len() == 0 {
        a
    } else {
        a + seq![' '] + b
    }
}

/// What is left of a text behind another: a gap that the first ends in takes up one that the
/// second begins with.
spec fn glued(t: Seq<char>, gap: bool, u: Seq<char>) -> Seq<char> {
    if gap && u.len() > 0 && u[0] == ' ' {
        t + u.skip(1)
    } else {
        t + u
    }
}

proof fn lemma_gap(s: Seq<char>)
    ensures
        squeezed(s).1 ==> squeezed(s).0.len() > 0 && squeezed(s).0.last() == ' ',
    decreases s.len(),
{
    if s.len() > 0 {
        lemma_gap(s.drop_last());
        assert(squeezed(s.drop_last()).0 + Seq::<char>::empty() =~= squeezed(s.drop_last()).0);
        if key_part(s.last()).len() == 0 {
            assert(key_part(s.last()) =~= Seq::<char>::empty());
        }
    }
}

proof fn lemma_squeezed_adds(a: Seq<char>, b: Seq<char>)
    ensures
        squeezed(a + b) == (
            glued(squeezed(a).0, squeezed(a).1, squeezed(b).0),
            if squeezed(b).0.len() == 0 {
                squeezed(a).1
            } else {
                squeezed(b).1
            },
        ),
    decreases b.len(),
{
    let (t, gap) = squeezed(a);
    if b.len() == 0 {
        assert(a + b =~= a);
        assert(t + squeezed(b).0 =~= t);
    } else {
        let d = b.drop_last();
        let c = b.last();
        assert((a + b).drop_last() =~= a + d);
        assert((a + b).last() == c);
        lemma_squeezed_adds(a, d);
        lemma_gap(d);
        let (u, g) = squeezed(d);
        let l = key_part(c);
        if is_digit(c) {
        } else if is_alnum(c) {
            lemma_kept(lower_char(c), |x: char| key_char(x));
            if l.len() > 0 {
                assert(key_char(l[0]));
                assert(!key_char(' '));
            }
            if gap && u.len() > 0 && u[0] == ' ' {
                assert((u + l)[0] == ' ');
                assert((t + u.skip(1)) + l =~= t + (u + l).skip(1));
            } else {
                assert((t + u) + l =~= t + (u + l));
                if u.len() > 0 {
                    assert((u + l)[0] == u[0]);
                } else {
                    assert(u + l =~= l);
                }
            }
        } else if u.len() == 0 {
            assert(u.push(' ') =~= seq![' ']);
            assert(seq![' '].skip(1) =~= Seq::<char>::empty());
            assert(t + Seq::<char>::empty() =~= t);
            assert(t + u =~= t);
            assert(t + seq![' '] =~= t.push(' '));
        } else if !g {
            assert(u.push(' ')[0] == u[0]);
            assert((t + u).push(' ') =~= t + u.push(' '));
            assert((t + u.skip(1)).push(' ') =~= t + u.push(' ').skip(1));
        }
    }
}

/// Lower-case letters and single spaces.
spec fn is_plain_key(t: Seq<char>) -> bool {
    &&& forall|i: int| 0 <= i < t.len() ==> #[trigger] t[i] == ' ' || 'a' <= t[i] <= 'z'
    &&& forall|i: int, j: int|
        0 <= i && j == i + 1 && j < t.len() && #[trigger] t[i] == ' ' ==> #[trigger] t[j] != ' '
}

proof fn lemma_plain(s: Seq<char>)
    requires
        is_plain(s),
    ensures
        is_plain_key(squeezed(s).0),
    decreases s.len(),
{
    lemma_squeezed_is_key(s);
    lemma_plain_letters(s);
}

proof fn lemma_plain_letters(s: Seq<char>)
    requires
        is_plain(s),
    ensures
        forall|i: int|
            0 <= i < squeezed(s).0.len() ==> #[trigger] squeezed(s).0[i] == ' ' || 'a' <= squeezed(
                s,
            ).0[i] <= 'z',
    decreases s.len(),
{
    if s.len() > 0 {
        let d = s.drop_last();
        assert forall|i: int| 0 <= i < d.len() implies (#[trigger] d[i] as int) < 128 by {
            assert(d[i] == s[i]);
        }
        lemma_plain_letters(d);
        let c = s.last();
        assert((s[s.len() - 1] as int) < 128);
        let l = key_part(c);
        lemma_kept(lower_char(c), |x: char| key_char(x));
        crate::order::lemma_kept_from(lower_char(c), |x: char| key_char(x));
        let u = squeezed(d).0 + l;
        if is_alnum(c) && !is_digit(c) {
            assert forall|i: int| 0 <= i < u.len() implies #[trigger] u[i] == ' ' || 'a' <= u[i]
                <= 'z' by {
                if i >= squeezed(d).0.len() {
                    let j = i - squeezed(d).0.len();
                    assert(u[i] == l[j]);
                    assert(lower_char(c).contains(l[j]));
                }
            }
        }
    }
}

/// A text without one space at either end.
spec fn core_of(t: Seq<char>) -> Seq<char> {
    let x = if t.len() > 0 && t[0] == ' ' {
        t.skip(1)
    } else {
        t
    };
    if x.len() > 0 && x.last() == ' ' {
        x.drop_last()
    } else {
        x
    }
}

proof fn lemma_trimmed_is_core(t: Seq<char>)
    requires
        is_plain_key(t),
    ensures
        trimmed(t) == core_of(t),
{
    let x = if t.len() > 0 && t[0] == ' ' {
        t.skip(1)
    } else {
        t
    };
    assert(is_white(' '));
    if t.len() > 0 && t[0] == ' ' {
        if x.len() > 0 {
            assert(x[0] == t[1]);
            assert(t[1] != ' ');
            assert('a' <= t[1] <= 'z');
        }
    } else if t.len() > 0 {
        assert('a' <= t[0] <= 'z');
    }
    assert(trimmed_start(x) == x);
    assert(trimmed_start(t) == x);
    let n = x.len();
    if n > 0 && x.last() == ' ' {
        let y = x.drop_last();
        if y.len() > 0 {
            let off = t.len() - n;
            assert(x[n - 1] == t[off + n - 1] && y.last() == t[off + n - 2]);
            assert(t[off + n - 2] != ' ') by {
                if t[off + n - 2] == ' ' {
                    assert(t[off + n - 1] != ' ');
                }
            }
            assert('a' <= t[off + n - 2] <= 'z');
        }
        assert(trimmed_end(y) == y);
        assert(trimmed_end(x) == y);
    } else if n > 0 {
        let off = t.len() - n;
        assert(x.last() == t[off + n - 1]);
        assert('a' <= x.last() <= 'z');
    }
}

/// The key of plain text with a separator in it is the key of what stands before it and the key
/// of what stands behind it, with one space between them.
pub proof fn law_key_splits(a: Seq<char>, c: char, b: Seq<char>)
    requires
        is_plain(a),
        is_plain(b),
        (c as int) < 128,
        !is_word_char(c),
    ensures
        normalized(a.push(c) + b) == spaced(normalized(a), normalized(b)),
{
    let (t, gap) = squeezed(a);
    let (u, g) = squeezed(b);
    let ac = a.push(c);
    let m = squeezed(ac).0;
    assert(ac.drop_last() =~= a);
    lemma_gap(a);
    lemma_squeezed_is_key(a);
    lemma_plain(a);
    lemma_plain(b);
    assert forall|i: int| 0 <= i < ac.len() implies (#[trigger] ac[i] as int) < 128 by {
        if i < a.len() {
            assert(ac[i] == a[i]);
        }
    }
    let whole = ac + b;
    assert forall|i: int| 0 <= i < whole.len() implies (#[trigger] whole[i] as int) < 128 by {
        if i < ac.len() {
            assert(whole[i] == ac[i]);
        } else {
            assert(whole[i] == b[i - ac.len()]);
        }
    }
    lemma_plain(ac);
    lemma_plain(whole);
    assert(!is_alnum(c));
    assert(m == if gap {
        t
    } else {
        t.push(' ')
    });
    assert(squeezed(ac).1);
    lemma_squeezed_adds(ac, b);
    let w = squeezed(whole).0;
    let v = if u.len() > 0 && u[0] == ' ' {
        u.skip(1)
    } else {
        u
    };
    assert(w == m + v);
    lemma_trimmed_is_core(t);
    lemma_trimmed_is_core(u);
    lemma_trimmed_is_core(w);
    let (x, y) = (core_of(t), core_of(u));
    lemma_head(t, gap, m, x);
    lemma_tail(u, v, y);
    lemma_core_joins(m, x, v, y, w);
}

/// The text before a separator: its core, one space behind it, and perhaps one before it.
proof fn lemma_head(t: Seq<char>, gap: bool, m: Seq<char>, x: Seq<char>)
    requires
        is_plain_key(t),
        gap ==> t.len() > 0 && t.last() == ' ',
        !gap ==> t.len() == 0 || t.last() != ' ',
        m == if gap {
            t
        } else {
            t.push(' ')
        },
        x == core_of(t),
    ensures
        x.len() == 0 ==> m == seq![' '],
        x.len() > 0 ==> m == x.push(' ') || m == seq![' '] + x.push(' '),
        x.len() > 0 ==> x[0] != ' ' && x.last() != ' ',
{
    if t.len() == 0 {
        assert(m =~= seq![' ']);
    } else if t[0] == ' ' {
        if t.len() == 1 {
            assert(t =~= seq![' ']);
        } else {
            assert(t[1] != ' ');
            if gap {
                assert(t.len() > 2);
                assert(x =~= t.subrange(1, t.len() - 1));
                assert(m =~= seq![' '] + x.push(' '));
                if t[t.len() - 2] == ' ' {
                    assert(t[t.len() - 1] != ' ');
                }
            } else {
                assert(x =~= t.skip(1));
                assert(m =~= seq![' '] + x.push(' '));
            }
        }
    } else {
        if gap {
            assert(t.len() > 1);
            assert(x =~= t.drop_last());
            assert(m =~= x.push(' '));
            if t[t.len() - 2] == ' ' {
                assert(t[t.len() - 1] != ' ');
            }
        } else {
            assert(x =~= t);
        }
    }
}

/// The text behind a separator: its core, and perhaps one space behind it.
proof fn lemma_tail(u: Seq<char>, v: Seq<char>, y: Seq<char>)
    requires
        is_plain_key(u),
        v == if u.len() > 0 && u[0] == ' ' {
            u.skip(1)
        } else {
            u
        },
        y == core_of(u),
    ensures
        y.len() == 0 ==> v == Seq::<char>::empty(),
        y.len() > 0 ==> v == y || v == y.push(' '),
        y.len() > 0 ==> y[0] != ' ' && y.last() != ' ',
{
    if v.len() > 0 {
        if u[0] == ' ' {
            assert(u[1] != ' ');
            assert(v[0] == u[1]);
        }
        let off = u.len() - v.len();
        if v.last() == ' ' {
            assert(v.len() > 1);
            assert(y =~= v.drop_last());
            assert(v =~= y.push(' '));
            assert(u[off + v.len() - 1] == ' ');
            if u[off + v.len() - 2] == ' ' {
                assert(u[off + v.len() - 1] != ' ');
            }
            assert(y.last() == u[off + v.len() - 2]);
        }
    } else {
        assert(v =~= Seq::<char>::empty());
    }
}

proof fn lemma_core_joins(m: Seq<char>, x: Seq<char>, v: Seq<char>, y: Seq<char>, w: Seq<char>)
    requires
        w == m + v,
        x.len() == 0 ==> m == seq![' '],
        x.len() > 0 ==> m == x.push(' ') || m == seq![' '] + x.push(' '),
        x.len() > 0 ==> x[0] != ' ' && x.last() != ' ',
        y.len() == 0 ==> v == Seq::<char>::empty(),
        y.len() > 0 ==> v == y || v == y.push(' '),
        y.len() > 0 ==> y[0] != ' ' && y.last() != ' ',
    ensures
        core_of(w) == spaced(x, y),
{
    let r = spaced(x, y);
    if x.len() == 0 {
        assert(w[0] == ' ');
        assert(w.skip(1) =~= v);
        if y.len() > 0 && v == y.push(' ') {
            assert(v.drop_last() =~= y);
        }
        assert(core_of(w) =~= r);
    } else {
        let s = if m == x.push(' ') {
            assert(w[0] == x[0]);
            w
        } else {
            assert(w[0] == ' ');
            w.skip(1)
        };
        assert(s =~= x.push(' ') + v);
        if y.len() == 0 {
            assert(s.last() == ' ');
            assert(s.drop_last() =~= x);
        } else if v == y {
            assert(s.last() == y.last());
            assert(s =~= r);
        } else {
            assert(s.last() == ' ');
            assert(s.drop_last() =~= r);
        }
    }
}

/// The key of a plain word is its letters in lower case; digits are left out.
pub proof fn law_key_of_word(w: Seq<char>)
    requires
        forall|i: int| 0 <= i < w.len() ==> is_word_char(#[trigger] w[i]),
    ensures
        normalized(w) == letters(w),
{
    lemma_word(w);
    let l = letters(w);
    assert forall|i: int| 0 <= i < l.len() implies !is_white(#[trigger] l[i]) by {}
    lemma_trimmed_fixed(l);
}

proof fn lemma_word(w: Seq<char>)
    requires
        forall|i: int| 0 <= i < w.len() ==> is_word_char(#[trigger] w[i]),
    ensures
        squeezed(w) == (letters(w), false),
        forall|i: int| 0 <= i < letters(w).len() ==> 'a' <= #[trigger] letters(w)[i] <= 'z',
    decreases w.len(),
{
    reveal(Seq::filter);
    let low = |c: char|
        if 'A' <= c <= 'Z' {
            (c as int + 32) as char
        } else {
            c
        };
    let p = |c: char| is_letter(c);
    if w.len() > 0 {
        let d = w.drop_last();
        let c = w.last();
        assert forall|i: int| 0 <= i < d.len() implies is_word_char(#[trigger] d[i]) by {
            assert(d[i] == w[i]);
        }
        lemma_word(d);
        assert(is_word_char(w[w.len() - 1]));
        if is_letter(c) {
            crate::recurring::law_stable_letters_stay(c);
            assert(key_part(c) =~= seq![low(c)]);
            assert(d.filter(p).push(c).map_values(low) =~= d.filter(p).map_values(low) + seq![low(c)]);
        }
    } else {
        assert(letters(w) =~= Seq::<char>::empty());
    }
}

// ---------------------------------------------------------------------------
// Labels
// ---------------------------------------------------------------------------

/// Whether a label is the one that counts for a key: the last that is filed under it.
pub open spec fn counts_for(labels: Seq<RecurringLabel>, key: Seq<char>, k: int) -> bool {
    &&& 0 <= k < labels.len()
    &&& labels[k].match_key@ == key
    &&& forall|j: int| k < j < labels.len() ==> (#[trigger] labels[j]).match_key@ != key
}

/// The label of a key is the last that is filed under it; a key under which none is filed has
/// none.
pub proof fn law_label_for(labels: Seq<RecurringLabel>, key: Seq<char>)
    ensures
        forall|k: int| #[trigger]
            counts_for(labels, key, k) ==> label_for(labels, key) == Some(labels[k]),
        label_for(labels, key) is None <==> forall|k: int|
            0 <= k < labels.len() ==> (#[trigger] labels[k]).match_key@ != key,
    decreases labels.len(),
{
    if labels.len() > 0 {
        let n = labels.len() - 1;
        let d = labels.drop_last();
        law_label_for(d, key);
        assert forall|k: int| #[trigger] counts_for(labels, key, k) implies label_for(labels, key)
            == Some(labels[k]) by {
            if k < n {
                assert(labels[n].match_key@ != key);
                assert forall|j: int| k < j < d.len() implies (#[trigger] d[j]).match_key@ != key by {
                    assert(d[j] == labels[j]);
                }
                assert(counts_for(d, key, k));
            }
        }
        if label_for(labels, key) is None {
            assert forall|k: int| 0 <= k < labels.len() implies (#[trigger] labels[k]).match_key@
                != key by {
                if k < n {
                    assert(d[k] == labels[k]);
                }
            }
        } else if labels[n].match_key@ != key {
            assert(label_for(d, key) is Some);
            let k = choose|k: int| 0 <= k < d.len() && (#[trigger] d[k]).match_key@ == key;
            assert(labels[k].match_key@ == key);
        }
    }
}

/// Whether a row tells of a series with the label that counts for its payee, or without one.
pub open spec fn tells_labelled(x: LabeledSeries, s: Series, labels: Seq<RecurringLabel>) -> bool {
    &&& x.series == s
    &&& forall|k: int| #[trigger]
        counts_for(labels, s.payee@, k) ==> x.label == labels[k].label && x.display_name
            == labels[k].display_name && x.confirmed_at == Some(labels[k].confirmed_at)
    &&& (forall|k: int| 0 <= k < labels.len() ==> (#[trigger] labels[k]).match_key@ != s.payee@)
        ==> x.label is None && x.display_name is None && x.confirmed_at is None
}

/// Whether the label that counts for a payee is to ignore it.
pub open spec fn is_set_aside(labels: Seq<RecurringLabel>, key: Seq<char>) -> bool {
    exists|k: int| #[trigger]
        counts_for(labels, key, k) && labels[k].label is Some && labels[k].label->0@ == "ignore"@
}

proof fn lemma_last_label(labels: Seq<RecurringLabel>, key: Seq<char>)
    ensures
        label_for(labels, key) is Some ==> exists|k: int| #[trigger]
            counts_for(labels, key, k) && label_for(labels, key) == Some(labels[k]),
    decreases labels.len(),
{
    if labels.len() > 0 {
        let n = labels.len() - 1;
        if labels[n].match_key@ == key {
            assert(counts_for(labels, key, n));
        } else {
            let d = labels.drop_last();
            lemma_last_label(d, key);
            if label_for(d, key) is Some {
                let k = choose|k: int| #[trigger]
                    counts_for(d, key, k) && label_for(d, key) == Some(d[k]);
                assert forall|j: int| k < j < labels.len() implies (#[trigger] labels[j]).match_key@
                    != key by {
                    if j < n {
                        assert(d[j] == labels[j]);
                    }
                }
                assert(counts_for(labels, key, k));
            }
        }
    }
}

/// The listing holds, in the order of detection, the series that are not set aside, and the
/// other listing those that are; each row carries the label that counts for its payee.
pub proof fn law_joined(detected: Seq<Series>, labels: Seq<RecurringLabel>, ignored: bool)
    ensures
        ({
            let out = joined(detected, labels, ignored);
            let found = detected.filter(|s: Series| is_set_aside(labels, s.payee@) == ignored);
            &&& out.len() == found.len()
            &&& forall|i: int|
                0 <= i < out.len() ==> tells_labelled(#[trigger] out[i], found[i], labels)
        }),
    decreases detected.len(),
{
    reveal(Seq::filter);
    if detected.len() > 0 {
        law_joined(detected.drop_last(), labels, ignored);
        let key = detected.last().payee@;
        law_label_for(labels, key);
        lemma_last_label(labels, key);
        assert(is_ignored(labels, key) == is_set_aside(labels, key));
        assert(tells_labelled(
            joined_one(detected.last(), label_for(labels, key)),
            detected.last(),
            labels,
        ));
    }
}

/// Whether a text stands within another.
pub open spec fn occurs(hay: Seq<char>, needle: Seq<char>) -> bool {
    exists|a: Seq<char>, b: Seq<char>| hay == #[trigger] (a + needle + b)
}

proof fn lemma_occurs(hay: Seq<char>, needle: Seq<char>)
    ensures
        has_text(hay, needle) == occurs(hay, needle),
{
    if has_text(hay, needle) {
        let i = choose|i: int| stands_at(hay, needle, i);
        let (a, b) = (hay.take(i), hay.skip(i + needle.len()));
        assert(hay =~= a + hay.subrange(i, i + needle.len()) + b);
        assert(hay == a + needle + b);
    }
    if occurs(hay, needle) {
        let (a, b) = choose|a: Seq<char>, b: Seq<char>| hay == #[trigger] (a + needle + b);
        let i = a.len() as int;
        assert(hay.subrange(i, i + needle.len()) =~= needle);
        assert(stands_at(hay, needle, i));
    }
}

/// A payee is suggested as a subscription where the name of a known service stands in its key,
/// else as a bill where that of a known biller does, and else not at all.
pub proof fn law_suggestion(payee: Seq<char>)
    ensures
        suggestion(payee) == Some(SeriesLabel::Sub) <==> normalized(payee).len() > 0 && exists|i: int|
            0 <= i < subscription_names().len() && occurs(
                normalized(payee),
                #[trigger] subscription_names()[i],
            ),
        suggestion(payee) == Some(SeriesLabel::Bill) <==> normalized(payee).len() > 0
            && suggestion(payee) != Some(SeriesLabel::Sub) && exists|i: int|
            0 <= i < bill_names().len() && occurs(normalized(payee), #[trigger] bill_names()[i]),
        suggestion(payee) is None || suggestion(payee) == Some(SeriesLabel::Sub) || suggestion(payee)
            == Some(SeriesLabel::Bill),
{
    let key = normalized(payee);
    lemma_names(key, subscription_names());
    lemma_names(key, bill_names());
}

proof fn lemma_names(key: Seq<char>, names: Seq<Seq<char>>)
    ensures
        names_any(key, names) <==> exists|i: int|
            0 <= i < names.len() && occurs(key, #[trigger] names[i]),
{
    if names_any(key, names) {
        let i = choose|i: int| 0 <= i < names.len() && has_text(key, #[trigger] names[i]);
        lemma_occurs(key, names[i]);
        assert(occurs(key, names[i]));
    }
    if exists|i: int| 0 <= i < names.len() && occurs(key, #[trigger] names[i]) {
        let i = choose|i: int| 0 <= i < names.len() && occurs(key, #[trigger] names[i]);
        lemma_occurs(key, names[i]);
        assert(has_text(key, names[i]));
    }
}

} // verus!
