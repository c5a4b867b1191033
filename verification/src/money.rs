//! Integer cents. Money arithmetic saturates and never uses floats.

use crate::error::{CoreError, Result};
use crate::text::{dec2_string, digits_in, digits_value, magnitude, push_dec, to_chars, trim};
use vstd::prelude::*;

verus! {

use crate::text::{
    all_digits, dec, dec2, dec_value, digit_of, is_digit, lemma_dec_value, lemma_dec_value_bounds,
    lemma_trimmed_fixed, trimmed,
};

/// An amount of money in cents.
#[derive(Clone, Copy, Debug, PartialEq, Eq, Structural, PartialOrd, Ord, Hash)]
pub struct Cents(pub i64);

/// The nearest amount that fits: where arithmetic leaves the range, it stops at
/// the end of the range.
pub open spec fn clamp(x: int) -> i64 {
    if x > i64::MAX {
        i64::MAX
    } else if x < i64::MIN {
        i64::MIN
    } else {
        x as i64
    }
}

/// A dollar amount with thousands separators.
pub open spec fn grouped(n: nat) -> Seq<char>
    decreases n,
{
    if n < 1000 {
        dec(n)
    } else {
        grouped(n / 1000) + seq![','] + dec3(n % 1000)
    }
}

/// Exactly three decimal digits.
pub open spec fn dec3(n: nat) -> Seq<char> {
    seq![digit_of(n / 100 % 10), digit_of(n / 10 % 10), digit_of(n % 10)]
}

/// How an amount is shown: `-$1,234.56`.
pub open spec fn shown(cents: int) -> Seq<char> {
    let abs: nat = if cents < 0 {
        (-cents) as nat
    } else {
        cents as nat
    };
    (if cents < 0 {
        seq!['-']
    } else {
        Seq::<char>::empty()
    }) + seq!['$'] + grouped(abs / 100) + seq!['.'] + dec2(abs % 100)
}

/// The text without any occurrence of `c`.
pub open spec fn without(s: Seq<char>, c: char) -> Seq<char>
    decreases s.len(),
{
    if s.len() == 0 {
        s
    } else if s.last() == c {
        without(s.drop_last(), c)
    } else {
        without(s.drop_last(), c).push(s.last())
    }
}

/// The text without the `$` signs at its start.
pub open spec fn after_dollar_signs(s: Seq<char>) -> Seq<char>
    decreases s.len(),
{
    if s.len() > 0 && s[0] == '$' {
        after_dollar_signs(s.skip(1))
    } else {
        s
    }
}

/// Where `c` first stands in `s`; the length of `s` where it does not occur.
pub open spec fn first_at(s: Seq<char>, c: char) -> int
    decreases s.len(),
{
    if s.len() == 0 || s[0] == c {
        0
    } else {
        1 + first_at(s.skip(1), c)
    }
}

/// The amount that a trimmed dollar string denotes, if it denotes one: an optional
/// sign, any `$` signs, digits with commas anywhere among them, and optionally a dot
/// with up to two more digits.
pub open spec fn dollars(t: Seq<char>) -> Option<i64> {
    let neg = t.len() > 0 && t[0] == '-';
    let signed = neg || (t.len() > 0 && t[0] == '+');
    let body = without(
        after_dollar_signs(
            if signed {
                t.skip(1)
            } else {
                t
            },
        ),
        ',',
    );
    let dot = first_at(body, '.');
    let whole = body.take(dot);
    let frac = if dot < body.len() {
        body.skip(dot + 1)
    } else {
        seq!['0']
    };
    let total = dec_value(whole) * 100 + (if frac.len() == 1 {
        dec_value(frac) * 10
    } else {
        dec_value(frac)
    });
    if whole.len() == 0 || !all_digits(whole) || frac.len() > 2 || !all_digits(frac) || total
        > i64::MAX {
        None
    } else if neg {
        Some((-total) as i64)
    } else {
        Some(total as i64)
    }
}

fn first_index(v: &Vec<char>, c: char) -> (r: usize)
    ensures
        r <= v.len(),
        r == first_at(v@, c),
{
    let mut i: usize = 0;
    assert(v@.skip(0) == v@);
    while i < v.len() && v[i] != c
        invariant
            i <= v.len(),
            first_at(v@, c) == i + first_at(v@.skip(i as int), c),
        decreases v.len() - i,
    {
        assert(v@.skip(i as int).skip(1) == v@.skip(i + 1));
        i = i + 1;
    }
    i
}

/// The characters from `from` on that are not `c`.
fn drop_char(v: &Vec<char>, from: usize, c: char) -> (r: Vec<char>)
    requires
        from <= v.len(),
    ensures
        r@ == without(v@.skip(from as int), c),
{
    let mut out: Vec<char> = Vec::new();
    let mut i: usize = from;
    while i < v.len()
        invariant
            from <= i <= v.len(),
            out@ == without(v@.subrange(from as int, i as int), c),
        decreases v.len() - i,
    {
        assert(v@.subrange(from as int, i + 1).drop_last() == v@.subrange(from as int, i as int));
        assert(v@.subrange(from as int, i + 1).last() == v@[i as int]);
        if v[i] != c {
            out.push(v[i]);
        }
        i = i + 1;
    }
    assert(v@.subrange(from as int, v@.len() as int) == v@.skip(from as int));
    out
}

impl Cents {
    /// No money.
    pub fn zero() -> (r: Cents)
        ensures
            r == Cents(0),
    {
        Cents(0)
    }

    /// Parse a dollar string like `"-1234.56"`, `"$1,234.56"`, `"1234"`.
    pub fn from_dollars_str(s: &str) -> (r: Result<Cents>)
        ensures
            match dollars(trimmed(s@)) {
                Some(n) => r is Ok && r->Ok_0 == Cents(n),
                None => r is Err && r->Err_0 is InvalidMoney && r->Err_0->InvalidMoney_0@
                    == trimmed(s@),
            },
    {
        let t: String = trim(s);
        match Self::parse_trimmed(t.as_str()) {
            Some(c) => Ok(c),
            None => Err(CoreError::InvalidMoney(t)),
        }
    }

    fn parse_trimmed(t: &str) -> (r: Option<Cents>)
        ensures
            match dollars(t@) {
                Some(n) => r == Some(Cents(n)),
                None => r is None,
            },
    {
        let v: Vec<char> = to_chars(t);
        let n: usize = v.len();
        let neg: bool = n > 0 && v[0] == '-';
        let signed: bool = neg || (n > 0 && v[0] == '+');
        let mut i: usize = if signed {
            1
        } else {
            0
        };
        let ghost unsigned = v@.skip(i as int);
        assert(v@.skip(0) == v@);
        while i < n && v[i] == '$'
            invariant
                n == v.len(),
                i <= n,
                after_dollar_signs(unsigned) == after_dollar_signs(v@.skip(i as int)),
            decreases n - i,
        {
            assert(v@.skip(i as int).skip(1) == v@.skip(i + 1));
            i = i + 1;
        }
        let body: Vec<char> = drop_char(&v, i, ',');
        let dot: usize = first_index(&body, '.');
        assert(body@.subrange(0, dot as int) == body@.take(dot as int));
        if dot == 0 || !digits_in(&body, 0, dot) {
            return None;
        }
        let whole: i64 = match digits_value(&body, 0, dot) {
            Some(w) => w,
            None => {
                proof {
                    lemma_frac_nonneg(body@, dot as int);
                }
                return None;
            },
        };
        let mut frac: i64 = 0;
        if dot < body.len() {
            let len: usize = body.len();
            assert(body@.subrange(dot + 1, len as int) == body@.skip(dot + 1));
            if len - dot > 3 || !digits_in(&body, dot + 1, len) {
                return None;
            }
            proof {
                lemma_dec_value_bounds(body@.skip(dot + 1));
            }
            frac = match digits_value(&body, dot + 1, len) {
                Some(f) => f,
                None => {
                    return None;
                },
            };
            if len - dot == 2 {
                frac = frac * 10;
            }
        } else {
            assert(seq!['0'].drop_last() =~= Seq::<char>::empty());
            assert(dec_value(seq!['0'].drop_last()) == 0);
            assert(dec_value(seq!['0']) == 0);
        }
        proof {
            lemma_dec_value_bounds(body@.take(dot as int));
        }
        assert(0 <= frac < 100);
        let total: i64 = match whole.checked_mul(100) {
            Some(w) => match w.checked_add(frac) {
                Some(t) => t,
                None => {
                    return None;
                },
            },
            None => {
                return None;
            },
        };
        Some(
            Cents(
                if neg {
                    -total
                } else {
                    total
                },
            ),
        )
    }

    /// The number of cents.
    pub fn as_i64(self) -> (r: i64)
        ensures
            r == self.0,
    {
        self.0
    }

    /// The amount as shown to the operator: `-$1,234.56`.
    pub fn to_string(&self) -> (r: String)
        ensures
            r@ == shown(self.0 as int),
    {
        let abs: u64 = magnitude(self.0);
        let mut out: String = String::new();
        if self.0 < 0 {
            out.push('-');
        }
        assert(out@ =~= if self.0 < 0 {
            seq!['-']
        } else {
            Seq::<char>::empty()
        });
        out.push('$');
        push_grouped(&mut out, abs / 100);
        out.push('.');
        out.append(dec2_string(abs % 100).as_str());
        assert(out@ =~= shown(self.0 as int));
        out
    }

    /// The saturating sum of the amounts, added from left to right.
    pub fn sum(items: &[Cents]) -> (r: Cents)
        ensures
            r == sum_of(items@),
    {
        let mut acc: Cents = Cents(0);
        let mut i: usize = 0;
        while i < items.len()
            invariant
                i <= items.len(),
                acc == sum_of(items@.take(i as int)),
            decreases items.len() - i,
        {
            assert(items@.take(i + 1).drop_last() == items@.take(i as int));
            acc = acc + items[i];
            i = i + 1;
        }
        assert(items@.take(items@.len() as int) == items@);
        acc
    }
}

/// The saturating sum of the amounts, added from left to right.
pub open spec fn sum_of(items: Seq<Cents>) -> Cents
    decreases items.len(),
{
    if items.len() == 0 {
        Cents(0)
    } else {
        Cents(clamp(sum_of(items.drop_last()).0 + items.last().0))
    }
}

proof fn lemma_frac_nonneg(body: Seq<char>, dot: int)
    requires
        dot == first_at(body, '.'),
        0 <= dot <= body.len(),
    ensures
        dot < body.len() && all_digits(body.skip(dot + 1)) ==> dec_value(body.skip(dot + 1)) >= 0,
        dec_value(seq!['0']) == 0,
{
    if dot < body.len() && all_digits(body.skip(dot + 1)) {
        lemma_dec_value_bounds(body.skip(dot + 1));
    }
    assert(seq!['0'].drop_last() =~= Seq::<char>::empty());
    assert(dec_value(seq!['0'].drop_last()) == 0);
}

fn push_grouped(out: &mut String, n: u64)
    ensures
        final(out)@ == old(out)@ + grouped(n as nat),
    decreases n,
{
    if n < 1000 {
        push_dec(out, n);
    } else {
        push_grouped(out, n / 1000);
        out.push(',');
        let r: u64 = n % 1000;
        out.push((48 + (r / 100 % 10) as u8) as char);
        out.push((48 + (r / 10 % 10) as u8) as char);
        out.push((48 + (r % 10) as u8) as char);
        assert(out@ =~= old(out)@ + grouped(n as nat));
    }
}

impl core::default::Default for Cents {
    fn default() -> (r: Cents)
        ensures
            r == Cents(0),
    {
        Cents(0)
    }
}

fn saturating_add(a: i64, b: i64) -> (r: i64)
    ensures
        r == clamp(a + b),
{
    match a.checked_add(b) {
        Some(c) => c,
        None => if a > 0 {
            i64::MAX
        } else {
            i64::MIN
        },
    }
}

fn saturating_sub(a: i64, b: i64) -> (r: i64)
    ensures
        r == clamp(a - b),
{
    match a.checked_sub(b) {
        Some(c) => c,
        None => if b < 0 {
            i64::MAX
        } else {
            i64::MIN
        },
    }
}

impl core::ops::Add for Cents {
    type Output = Cents;

    fn add(self, rhs: Cents) -> (r: Cents) {
        Cents(saturating_add(self.0, rhs.0))
    }
}

impl vstd::std_specs::ops::AddSpecImpl for Cents {
    open spec fn obeys_add_spec() -> bool {
        true
    }

    open spec fn add_req(self, rhs: Cents) -> bool {
        true
    }

    open spec fn add_spec(self, rhs: Cents) -> Cents {
        Cents(clamp(self.0 + rhs.0))
    }
}

impl core::ops::Sub for Cents {
    type Output = Cents;

    fn sub(self, rhs: Cents) -> (r: Cents) {
        Cents(saturating_sub(self.0, rhs.0))
    }
}

impl vstd::std_specs::ops::SubSpecImpl for Cents {
    open spec fn obeys_sub_spec() -> bool {
        true
    }

    open spec fn sub_req(self, rhs: Cents) -> bool {
        true
    }

    open spec fn sub_spec(self, rhs: Cents) -> Cents {
        Cents(clamp(self.0 - rhs.0))
    }
}

impl core::ops::Neg for Cents {
    type Output = Cents;

    fn neg(self) -> (r: Cents) {
        Cents(-self.0)
    }
}

impl vstd::std_specs::ops::NegSpecImpl for Cents {
    open spec fn obeys_neg_spec() -> bool {
        true
    }

    open spec fn neg_req(self) -> bool {
        self.0 != i64::MIN
    }

    open spec fn neg_spec(self) -> Cents {
        Cents((-(self.0 as int)) as i64)
    }
}

impl core::ops::AddAssign for Cents {
    fn add_assign(&mut self, rhs: Cents)
        ensures
            *final(self) == Cents(clamp(old(self).0 + rhs.0)),
    {
        self.0 = saturating_add(self.0, rhs.0);
    }
}

impl core::ops::SubAssign for Cents {
    fn sub_assign(&mut self, rhs: Cents)
        ensures
            *final(self) == Cents(clamp(old(self).0 - rhs.0)),
    {
        self.0 = saturating_sub(self.0, rhs.0);
    }
}

// ---------------------------------------------------------------------------
// Laws
// ---------------------------------------------------------------------------

/// Addition is commutative, zero is neutral, and an amount less itself is zero.
pub proof fn law_add_commutes(a: Cents, b: Cents)
    ensures
        vstd::std_specs::ops::AddSpec::add_spec(a, b) == vstd::std_specs::ops::AddSpec::add_spec(b, a),
        vstd::std_specs::ops::AddSpec::add_spec(a, Cents(0)) == a,
        vstd::std_specs::ops::SubSpec::sub_spec(a, a) == Cents(0),
{
}

/// Subtracting an amount is adding its negation.
pub proof fn law_sub_is_add_neg(a: Cents, b: Cents)
    requires
        vstd::std_specs::ops::NegSpec::neg_req(b),
    ensures
        vstd::std_specs::ops::SubSpec::sub_spec(a, b) == vstd::std_specs::ops::AddSpec::add_spec(
            a,
            vstd::std_specs::ops::NegSpec::neg_spec(b),
        ),
{
}

/// Negating twice gives the amount back.
pub proof fn law_neg_involution(a: Cents)
    requires
        vstd::std_specs::ops::NegSpec::neg_req(a),
    ensures
        vstd::std_specs::ops::NegSpec::neg_spec(vstd::std_specs::ops::NegSpec::neg_spec(a)) == a,
{
}

/// Where no partial sum leaves the range, the sum is the sum of the integers.
pub proof fn law_sum_is_exact(items: Seq<Cents>)
    requires
        forall|k: int|
            0 <= k <= items.len() ==> i64::MIN <= #[trigger] int_sum(items.take(k)) <= i64::MAX,
    ensures
        sum_of(items).0 == int_sum(items),
    decreases items.len(),
{
    assert(items.take(items.len() as int) == items);
    if items.len() > 0 {
        assert forall|k: int| 0 <= k <= items.len() - 1 implies i64::MIN <= #[trigger] int_sum(
            items.drop_last().take(k),
        ) <= i64::MAX by {
            assert(items.drop_last().take(k) == items.take(k));
        }
        law_sum_is_exact(items.drop_last());
    }
}

/// The sum of the amounts as integers.
pub open spec fn int_sum(items: Seq<Cents>) -> int
    decreases items.len(),
{
    if items.len() == 0 {
        0
    } else {
        int_sum(items.drop_last()) + items.last().0
    }
}

/// An amount that is shown and parsed again is unchanged. The smallest amount is the
/// one exception: its magnitude does not fit.
pub proof fn law_shown_parses_back(c: Cents)
    requires
        c.0 != i64::MIN,
    ensures
        dollars(trimmed(shown(c.0 as int))) == Some(c.0),
{
    let t = shown(c.0 as int);
    let abs: nat = if c.0 < 0 {
        (-(c.0 as int)) as nat
    } else {
        c.0 as nat
    };
    let n = abs / 100;
    let tail = seq!['.'] + dec2(abs % 100);
    lemma_grouped(n);
    lemma_dec_value(n);
    lemma_dec2(abs % 100);
    assert(t.last() == dec2(abs % 100).last());
    lemma_trimmed_fixed(t);
    let unsigned = seq!['$'] + grouped(n) + tail;
    if c.0 < 0 {
        assert(t.skip(1) =~= unsigned);
    } else {
        assert(t =~= unsigned);
    }
    assert(unsigned.skip(1) =~= grouped(n) + tail);
    assert((grouped(n) + tail)[0] == grouped(n)[0]);
    assert(after_dollar_signs(unsigned.skip(1)) == unsigned.skip(1));
    let body = without(grouped(n) + tail, ',');
    lemma_without_add(grouped(n), tail, ',');
    lemma_without_fixed(tail, ',');
    assert(body == dec(n) + tail);
    lemma_first_at(dec(n), tail, '.');
    assert(body.take(dec(n).len() as int) =~= dec(n));
    assert(body.skip(dec(n).len() as int + 1) =~= dec2(abs % 100));
}

/// A plain `[-]whole.cc` string denotes exactly the amount it spells, as long as that
/// amount fits.
pub proof fn law_canonical_parses(neg: bool, whole: nat, frac: nat)
    requires
        frac < 100,
        whole * 100 + frac <= i64::MAX,
    ensures
        ({
            let digits = dec(whole) + seq!['.'] + dec2(frac);
            let total = whole * 100 + frac;
            if neg {
                dollars(trimmed(seq!['-'] + digits)) == Some((-total) as i64)
            } else {
                dollars(trimmed(digits)) == Some(total as i64)
            }
        }),
{
    let tail = seq!['.'] + dec2(frac);
    let digits = dec(whole) + seq!['.'] + dec2(frac);
    assert(digits =~= dec(whole) + tail);
    let t = if neg {
        seq!['-'] + digits
    } else {
        digits
    };
    lemma_dec_value(whole);
    lemma_dec2(frac);
    assert(t.last() == dec2(frac).last());
    assert(digits[0] == dec(whole)[0]);
    lemma_trimmed_fixed(t);
    if neg {
        assert(t.skip(1) =~= digits);
    }
    assert(after_dollar_signs(digits) == digits);
    lemma_without_fixed(digits, ',');
    lemma_first_at(dec(whole), tail, '.');
    assert(digits.take(dec(whole).len() as int) =~= dec(whole));
    assert(digits.skip(dec(whole).len() as int + 1) =~= dec2(frac));
}

/// Two digits denote the number that they were made of.
pub proof fn lemma_dec2(n: nat)
    requires
        n < 100,
    ensures
        dec2(n).len() == 2,
        all_digits(dec2(n)),
        dec_value(dec2(n)) == n,
{
    reveal_with_fuel(dec, 3);
    reveal_with_fuel(dec_value, 4);
    let s = dec2(n);
    if n >= 10 {
        assert(s =~= seq![digit_of(n / 10), digit_of(n % 10)]);
    }
    assert(s.drop_last() =~= seq![s[0]]);
    assert(s.drop_last().drop_last() =~= Seq::<char>::empty());
}

proof fn lemma_dec_thousands(n: nat)
    requires
        n >= 1000,
    ensures
        dec(n) == dec(n / 1000) + dec3(n % 1000),
{
    let a = n / 10;
    let b = a / 10;
    assert(b / 10 == n / 1000);
    assert(n % 1000 / 100 % 10 == b % 10);
    assert(n % 1000 / 10 % 10 == a % 10);
    assert(n % 1000 % 10 == n % 10);
    assert(dec(n) == dec(a).push(digit_of(n % 10)));
    assert(dec(a) == dec(b).push(digit_of(a % 10)));
    assert(dec(b) == dec(b / 10).push(digit_of(b % 10)));
    assert(dec(n) =~= dec(n / 1000) + dec3(n % 1000));
}

/// Thousands separators aside, the grouped notation is the decimal notation.
pub proof fn lemma_grouped(n: nat)
    ensures
        without(grouped(n), ',') == dec(n),
        grouped(n).len() > 0,
        is_digit(grouped(n)[0]),
    decreases n,
{
    lemma_dec_value(n);
    if n < 1000 {
        lemma_without_fixed(dec(n), ',');
    } else {
        lemma_grouped(n / 1000);
        let a = grouped(n / 1000) + seq![','];
        lemma_without_add(a, dec3(n % 1000), ',');
        lemma_without_add(grouped(n / 1000), seq![','], ',');
        lemma_without_fixed(dec3(n % 1000), ',');
        assert(seq![','].drop_last() =~= Seq::<char>::empty());
        assert(without(seq![','].drop_last(), ',') =~= Seq::<char>::empty());
        assert(seq![','].last() == ',');
        assert(without(a, ',') =~= dec(n / 1000));
        lemma_dec_thousands(n);
    }
}

/// Leaving a character out of two texts, one behind the other.
pub proof fn lemma_without_add(a: Seq<char>, b: Seq<char>, c: char)
    ensures
        without(a + b, c) == without(a, c) + without(b, c),
    decreases b.len(),
{
    if b.len() == 0 {
        assert(a + b =~= a);
        assert(without(a, c) + without(b, c) =~= without(a, c));
    } else {
        assert((a + b).drop_last() =~= a + b.drop_last());
        lemma_without_add(a, b.drop_last(), c);
        assert(without(a + b, c) =~= without(a, c) + without(b, c));
    }
}

/// A text without a character is left alone.
pub proof fn lemma_without_fixed(s: Seq<char>, c: char)
    requires
        forall|i: int| 0 <= i < s.len() ==> s[i] != c,
    ensures
        without(s, c) == s,
    decreases s.len(),
{
    if s.len() > 0 {
        lemma_without_fixed(s.drop_last(), c);
        assert(s.drop_last().push(s.last()) =~= s);
    }
}

/// Where a character first stands.
pub proof fn lemma_first_at(a: Seq<char>, b: Seq<char>, c: char)
    requires
        forall|i: int| 0 <= i < a.len() ==> a[i] != c,
        b.len() > 0,
        b[0] == c,
    ensures
        first_at(a + b, c) == a.len(),
    decreases a.len(),
{
    if a.len() == 0 {
        assert(a + b =~= b);
    } else {
        assert((a + b).skip(1) =~= a.skip(1) + b);
        lemma_first_at(a.skip(1), b, c);
    }
}

} // verus!
