//! Laws of writing and reading amounts of money.

use vstd::prelude::*;

verus! {

use crate::money::{
    after_dollar_signs, dec3, dollars, first_at, grouped, lemma_dec2, lemma_first_at, lemma_grouped,
    lemma_without_add, lemma_without_fixed, shown, without,
};
use crate::text::{all_digits, dec, dec2, dec_value, is_digit, lemma_dec_value};

// ---------------------------------------------------------------------------
// Writing
// ---------------------------------------------------------------------------

/// Whether a place of a grouped number, counted from its end, holds a comma: every fourth.
pub open spec fn is_comma_place(from_end: int) -> bool {
    from_end % 4 == 3
}

proof fn lemma_groups(n: nat)
    ensures
        forall|i: int|
            0 <= i < grouped(n).len() ==> (#[trigger] grouped(n)[i] == ',' <==> is_comma_place(
                grouped(n).len() - 1 - i,
            )),
        forall|i: int|
            0 <= i < grouped(n).len() ==> is_digit(#[trigger] grouped(n)[i]) || grouped(n)[i] == ',',
        grouped(n).len() > 0,
    decreases n,
{
    lemma_dec_value(n);
    let g = grouped(n);
    if n < 1000 {
        lemma_small(n);
    } else {
        lemma_groups(n / 1000);
        let a = grouped(n / 1000);
        let t = dec3(n % 1000);
        assert(g == a + seq![','] + t);
        assert forall|i: int| 0 <= i < g.len() implies (#[trigger] g[i] == ',' <==> is_comma_place(
            g.len() - 1 - i,
        )) && (is_digit(g[i]) || g[i] == ',') by {
            if i < a.len() {
                assert(g[i] == a[i]);
                assert((g.len() - 1 - i) % 4 == (a.len() - 1 - i) % 4);
                assert(a[i] == ',' <==> is_comma_place(a.len() - 1 - i));
            } else if i == a.len() {
                assert(g[i] == ',');
            } else {
                assert(g[i] == t[i - a.len() - 1]);
                assert(is_digit(t[i - a.len() - 1]));
            }
        }
    }
}

proof fn lemma_small(n: nat)
    requires
        n < 1000,
    ensures
        1 <= dec(n).len() <= 3,
        all_digits(dec(n)),
{
    lemma_dec_value(n);
    reveal_with_fuel(dec, 4);
}

/// An amount is written with a minus sign exactly where it is negative, a dollar sign, the whole
/// dollars with a comma before every third digit from the end, a point, and two digits of cents.
pub proof fn law_shown(cents: int)
    ensures
        ({
            let abs: nat = if cents < 0 {
                (-cents) as nat
            } else {
                cents as nat
            };
            let g = grouped(abs / 100);
            &&& cents < 0 ==> shown(cents) == seq!['-', '$'] + g + seq!['.'] + dec2(abs % 100)
            &&& cents >= 0 ==> shown(cents) == seq!['$'] + g + seq!['.'] + dec2(abs % 100)
            &&& without(g, ',') == dec(abs / 100)
            &&& dec_value(dec(abs / 100)) == abs / 100
            &&& forall|i: int|
                0 <= i < g.len() ==> (#[trigger] g[i] == ',' <==> is_comma_place(g.len() - 1 - i))
            &&& dec2(abs % 100).len() == 2
            &&& all_digits(dec2(abs % 100))
            &&& dec_value(dec2(abs % 100)) == abs % 100
        }),
{
    let abs: nat = if cents < 0 {
        (-cents) as nat
    } else {
        cents as nat
    };
    let g = grouped(abs / 100);
    lemma_grouped(abs / 100);
    lemma_groups(abs / 100);
    lemma_dec2(abs % 100);
    lemma_dec_value(abs / 100);
    if cents < 0 {
        assert(shown(cents) =~= seq!['-', '$'] + g + seq!['.'] + dec2(abs % 100));
    } else {
        assert(shown(cents) =~= seq!['$'] + g + seq!['.'] + dec2(abs % 100));
    }
}

// ---------------------------------------------------------------------------
// Reading
// ---------------------------------------------------------------------------

/// A sign, where there is one.
pub open spec fn sign_text(sign: Option<bool>) -> Seq<char> {
    match sign {
        Some(true) => seq!['-'],
        Some(false) => seq!['+'],
        None => Seq::<char>::empty(),
    }
}

/// Some dollar signs.
pub open spec fn dollar_signs(n: nat) -> Seq<char> {
    Seq::new(n, |i: int| '$')
}

/// What cents a fraction tells: none, tens, or both digits.
pub open spec fn cents_of(frac: Seq<char>) -> int {
    if frac.len() == 1 {
        10 * dec_value(frac)
    } else {
        dec_value(frac)
    }
}

proof fn lemma_dollar_signs(n: nat, s: Seq<char>)
    requires
        s.len() > 0 ==> s[0] != '$',
    ensures
        after_dollar_signs(dollar_signs(n) + s) == s,
    decreases n,
{
    let t = dollar_signs(n) + s;
    if n == 0 {
        assert(t =~= s);
    } else {
        assert(t[0] == '$');
        assert(t.skip(1) =~= dollar_signs((n - 1) as nat) + s);
        lemma_dollar_signs((n - 1) as nat, s);
    }
}

/// Digits, with commas anywhere behind the first, a point and up to two digits of cents denote
/// that many dollars and cents; dollar signs before them do not count, and a minus sign before
/// all makes the amount negative. One digit of cents is tens of cents. Anything that does not
/// fit is refused.
pub proof fn law_reading(sign: Option<bool>, signs: nat, whole: Seq<char>, frac: Seq<char>)
    requires
        whole.len() > 0,
        is_digit(whole[0]),
        all_digits(without(whole, ',')),
        frac.len() <= 2,
        all_digits(frac),
        forall|i: int| 0 <= i < whole.len() ==> #[trigger] whole[i] != '.',
    ensures
        ({
            let t = sign_text(sign) + dollar_signs(signs) + whole + seq!['.'] + frac;
            let total = 100 * dec_value(without(whole, ',')) + cents_of(frac);
            if total > i64::MAX {
                dollars(t) is None
            } else if sign == Some(true) {
                dollars(t) == Some((-total) as i64)
            } else {
                dollars(t) == Some(total as i64)
            }
        }),
{
    let tail = seq!['.'] + frac;
    lemma_body(sign, signs, whole, tail);
    let w = without(whole, ',');
    assert forall|i: int| 0 <= i < tail.len() implies tail[i] != ',' by {
        if i > 0 {
            assert(is_digit(frac[i - 1]));
        }
    }
    lemma_without_fixed(tail, ',');
    lemma_without_add(whole, tail, ',');
    let body = w + tail;
    assert forall|i: int| 0 <= i < w.len() implies w[i] != '.' by {
        assert(is_digit(w[i]));
    }
    lemma_first_at(w, tail, '.');
    assert(body.take(w.len() as int) =~= w);
    assert(body.skip(w.len() as int + 1) =~= frac);
    lemma_some_left(whole);
    assert(sign_text(sign) + dollar_signs(signs) + whole + seq!['.'] + frac =~= sign_text(sign)
        + dollar_signs(signs) + (whole + tail));
}

/// Digits without a point denote that many dollars.
pub proof fn law_reading_whole(sign: Option<bool>, signs: nat, whole: Seq<char>)
    requires
        whole.len() > 0,
        is_digit(whole[0]),
        all_digits(without(whole, ',')),
        forall|i: int| 0 <= i < whole.len() ==> #[trigger] whole[i] != '.',
    ensures
        ({
            let t = sign_text(sign) + dollar_signs(signs) + whole;
            let total = 100 * dec_value(without(whole, ','));
            if total > i64::MAX {
                dollars(t) is None
            } else if sign == Some(true) {
                dollars(t) == Some((-total) as i64)
            } else {
                dollars(t) == Some(total as i64)
            }
        }),
{
    let none = Seq::<char>::empty();
    lemma_body(sign, signs, whole, none);
    assert(whole + none =~= whole);
    let w = without(whole, ',');
    assert forall|i: int| 0 <= i < w.len() implies w[i] != '.' by {
        assert(is_digit(w[i]));
    }
    lemma_no_dot(w);
    assert(w.take(w.len() as int) =~= w);
    lemma_some_left(whole);
    reveal_with_fuel(dec_value, 2);
    assert(seq!['0'].drop_last() =~= none);
    assert(dec_value(seq!['0']) == 0);
    assert(sign_text(sign) + dollar_signs(signs) + whole =~= sign_text(sign) + dollar_signs(signs)
        + (whole + none));
}

/// More than two digits of cents are refused.
pub proof fn law_reading_refuses(sign: Option<bool>, signs: nat, whole: Seq<char>, frac: Seq<char>)
    requires
        whole.len() > 0,
        is_digit(whole[0]),
        all_digits(without(whole, ',')),
        frac.len() > 2,
        all_digits(frac),
        forall|i: int| 0 <= i < whole.len() ==> #[trigger] whole[i] != '.',
    ensures
        dollars(sign_text(sign) + dollar_signs(signs) + whole + seq!['.'] + frac) is None,
{
    let tail = seq!['.'] + frac;
    lemma_body(sign, signs, whole, tail);
    let w = without(whole, ',');
    assert forall|i: int| 0 <= i < tail.len() implies tail[i] != ',' by {
        if i > 0 {
            assert(is_digit(frac[i - 1]));
        }
    }
    lemma_without_fixed(tail, ',');
    lemma_without_add(whole, tail, ',');
    let body = w + tail;
    assert forall|i: int| 0 <= i < w.len() implies w[i] != '.' by {
        assert(is_digit(w[i]));
    }
    lemma_first_at(w, tail, '.');
    assert(body.skip(w.len() as int + 1) =~= frac);
    assert(sign_text(sign) + dollar_signs(signs) + whole + seq!['.'] + frac =~= sign_text(sign)
        + dollar_signs(signs) + (whole + tail));
}

proof fn lemma_body(sign: Option<bool>, signs: nat, whole: Seq<char>, tail: Seq<char>)
    requires
        whole.len() > 0,
        is_digit(whole[0]),
    ensures
        ({
            let t = sign_text(sign) + dollar_signs(signs) + (whole + tail);
            let neg = t.len() > 0 && t[0] == '-';
            let signed = neg || (t.len() > 0 && t[0] == '+');
            &&& neg == (sign == Some(true))
            &&& signed == (sign is Some)
            &&& without(
                after_dollar_signs(
                    if signed {
                        t.skip(1)
                    } else {
                        t
                    },
                ),
                ',',
            ) == without(whole + tail, ',')
        }),
{
    let rest = whole + tail;
    let t = sign_text(sign) + dollar_signs(signs) + rest;
    assert(rest[0] == whole[0]);
    lemma_dollar_signs(signs, rest);
    match sign {
        Some(_) => {
            assert(t[0] == sign_text(sign)[0]);
            assert(t.skip(1) =~= dollar_signs(signs) + rest);
        },
        None => {
            assert(t =~= dollar_signs(signs) + rest);
            if signs > 0 {
                assert(t[0] == '$');
            } else {
                assert(t[0] == whole[0]);
            }
        },
    }
}

proof fn lemma_no_dot(s: Seq<char>)
    requires
        forall|i: int| 0 <= i < s.len() ==> s[i] != '.',
    ensures
        first_at(s, '.') == s.len(),
    decreases s.len(),
{
    if s.len() > 0 {
        assert(s[0] != '.');
        assert forall|i: int| 0 <= i < s.skip(1).len() implies s.skip(1)[i] != '.' by {
            assert(s.skip(1)[i] == s[i + 1]);
        }
        lemma_no_dot(s.skip(1));
    }
}

proof fn lemma_some_left(whole: Seq<char>)
    requires
        whole.len() > 0,
        whole[0] != ',',
    ensures
        without(whole, ',').len() > 0,
    decreases whole.len(),
{
    if whole.len() > 1 {
        assert(whole.drop_last()[0] == whole[0]);
        lemma_some_left(whole.drop_last());
    }
}

} // verus!
