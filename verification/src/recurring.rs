//! Recurring-series detection over transaction history.
//!
//! A subscription, a bill or a recurring debt payment is a payee that repeats on a
//! regular cadence. Detection groups the charges by normalized payee, takes the gaps
//! between them, and reports the observed history with a predicted next date.

use crate::db::{RecurringLabel, Transaction};
use crate::money::Cents;
use crate::order::stable_indices;
use crate::rpc::LabeledSeries;
use crate::text::{
    alnum_char, clone_opt, contains, digit_char, lowercase_char, magnitude, str_eq, str_lt, trim,
};
use vstd::prelude::*;

verus! {

use crate::order::{
    comes_before, kept, law_stable_order, lemma_kept, lemma_kept_all, lemma_kept_from,
    sorted_by_keys, stable_order,
};
use crate::text::{
    has_text, is_alnum, is_ascii_char, is_digit, is_white, lemma_lex_total, lemma_lex_transitive,
    lemma_trimmed_idempotent, lex_lt, lower_char, opt_text, trimmed, trimmed_end, trimmed_start,
};

/// A series must show at least this many charges.
pub const MIN_OCCURRENCES: usize = 3;

/// The seconds of a day.
pub const DAY_SECS: i64 = 86_400;

/// The part of a transaction that detection reads.
#[derive(Debug)]
pub struct Txn {
    pub posted_at: i64,
    pub amount_cents: i64,
    pub description: String,
}

impl Clone for Txn {
    fn clone(&self) -> (r: Txn)
        ensures
            r == *self,
    {
        Txn {
            posted_at: self.posted_at,
            amount_cents: self.amount_cents,
            description: self.description.clone(),
        }
    }
}

/// How often a series repeats. The bands leave gaps between them, so that an irregular
/// payee fits none.
#[derive(Clone, Copy, Debug, PartialEq, Eq, Structural)]
pub enum Cadence {
    Weekly,
    Biweekly,
    Monthly,
    Quarterly,
    Yearly,
}

impl Cadence {
    /// The inclusive band of gaps, in days.
    pub open spec fn day_band(self) -> (int, int) {
        match self {
            Cadence::Weekly => (5, 9),
            Cadence::Biweekly => (12, 16),
            Cadence::Monthly => (26, 35),
            Cadence::Quarterly => (80, 100),
            Cadence::Yearly => (350, 380),
        }
    }

    /// Whether a gap in seconds lies in the band.
    pub open spec fn admits(self, gap: i64) -> bool {
        self.day_band().0 * DAY_SECS <= gap <= self.day_band().1 * DAY_SECS
    }

    /// The inclusive band of gaps, in days.
    pub fn band(self) -> (r: (i64, i64))
        ensures
            r.0 == self.day_band().0,
            r.1 == self.day_band().1,
    {
        match self {
            Cadence::Weekly => (5, 9),
            Cadence::Biweekly => (12, 16),
            Cadence::Monthly => (26, 35),
            Cadence::Quarterly => (80, 100),
            Cadence::Yearly => (350, 380),
        }
    }

    /// The lower-case name.
    pub open spec fn name(self) -> Seq<char> {
        match self {
            Cadence::Weekly => "weekly"@,
            Cadence::Biweekly => "biweekly"@,
            Cadence::Monthly => "monthly"@,
            Cadence::Quarterly => "quarterly"@,
            Cadence::Yearly => "yearly"@,
        }
    }

    /// The lower-case name.
    pub fn as_str(self) -> (r: &'static str)
        ensures
            r@ == self.name(),
    {
        match self {
            Cadence::Weekly => "weekly",
            Cadence::Biweekly => "biweekly",
            Cadence::Monthly => "monthly",
            Cadence::Quarterly => "quarterly",
            Cadence::Yearly => "yearly",
        }
    }

    /// The canonical period in days.
    pub open spec fn period(self) -> int {
        match self {
            Cadence::Weekly => 7,
            Cadence::Biweekly => 14,
            Cadence::Monthly => 30,
            Cadence::Quarterly => 91,
            Cadence::Yearly => 365,
        }
    }

    /// The canonical period in days, by which the next charge is projected.
    pub fn period_days(self) -> (r: i64)
        ensures
            r == self.period(),
    {
        match self {
            Cadence::Weekly => 7,
            Cadence::Biweekly => 14,
            Cadence::Monthly => 30,
            Cadence::Quarterly => 91,
            Cadence::Yearly => 365,
        }
    }
}

/// A detected recurring payee: its observed history and a predicted next charge.
#[derive(Debug)]
pub struct Series {
    /// The normalized payee.
    pub payee: String,
    /// The description of the most recent charge.
    pub display: String,
    pub cadence: Cadence,
    pub count: usize,
    pub first_seen: i64,
    pub last_seen: i64,
    pub last_amount: Cents,
    pub min_amount: Cents,
    pub max_amount: Cents,
    pub avg_amount: Cents,
    /// A forecast, not a commitment.
    pub predicted_next: i64,
}

impl Clone for Series {
    fn clone(&self) -> (r: Series)
        ensures
            r == *self,
    {
        Series {
            payee: self.payee.clone(),
            display: self.display.clone(),
            cadence: self.cadence,
            count: self.count,
            first_seen: self.first_seen,
            last_seen: self.last_seen,
            last_amount: self.last_amount,
            min_amount: self.min_amount,
            max_amount: self.max_amount,
            avg_amount: self.avg_amount,
            predicted_next: self.predicted_next,
        }
    }
}

/// What a series is, as the operator says. `Ignore` marks a false positive.
#[derive(Clone, Copy, Debug, PartialEq, Eq, Structural)]
pub enum SeriesLabel {
    Sub,
    Bill,
    Debt,
    Ignore,
}

impl SeriesLabel {
    /// The stored form of a label.
    pub open spec fn word(self) -> Seq<char> {
        match self {
            SeriesLabel::Sub => "sub"@,
            SeriesLabel::Bill => "bill"@,
            SeriesLabel::Debt => "debt"@,
            SeriesLabel::Ignore => "ignore"@,
        }
    }

    /// The label that a word stands for, if it stands for one.
    pub open spec fn parsed(s: Seq<char>) -> Option<SeriesLabel> {
        if s == "sub"@ {
            Some(SeriesLabel::Sub)
        } else if s == "bill"@ {
            Some(SeriesLabel::Bill)
        } else if s == "debt"@ {
            Some(SeriesLabel::Debt)
        } else if s == "ignore"@ {
            Some(SeriesLabel::Ignore)
        } else {
            None
        }
    }

    /// The label that a word stands for; anything else is rejected.
    pub fn parse(s: &str) -> (r: Option<SeriesLabel>)
        ensures
            r == SeriesLabel::parsed(s@),
    {
        if str_eq(s, "sub") {
            Some(SeriesLabel::Sub)
        } else if str_eq(s, "bill") {
            Some(SeriesLabel::Bill)
        } else if str_eq(s, "debt") {
            Some(SeriesLabel::Debt)
        } else if str_eq(s, "ignore") {
            Some(SeriesLabel::Ignore)
        } else {
            None
        }
    }

    /// The stored form of the label.
    pub fn as_str(self) -> (r: &'static str)
        ensures
            r@ == self.word(),
    {
        match self {
            SeriesLabel::Sub => "sub",
            SeriesLabel::Bill => "bill",
            SeriesLabel::Debt => "debt",
            SeriesLabel::Ignore => "ignore",
        }
    }
}

/// A label's stored form parses back to the label, and nothing else parses.
pub proof fn law_label_words(l: SeriesLabel, s: Seq<char>)
    ensures
        SeriesLabel::parsed(l.word()) == Some(l),
        SeriesLabel::parsed(s) is Some ==> SeriesLabel::parsed(s)->0.word() == s,
{
    reveal_strlit("sub");
    reveal_strlit("bill");
    reveal_strlit("debt");
    reveal_strlit("ignore");
    assert("sub"@.len() == 3 && "ignore"@.len() == 6);
    assert("bill"@[0] == 'b' && "debt"@[0] == 'd' && "bill"@.len() == 4 && "debt"@.len() == 4);
}

// ---------------------------------------------------------------------------
// Payees
// ---------------------------------------------------------------------------

/// A letter or number that normalization leaves alone: no digit, and its own lower case.
pub open spec fn key_char(d: char) -> bool {
    is_alnum(d) && !is_digit(d) && lower_char(d) == seq![d]
}

/// What of a letter goes into a key: of its lower-case form, what normalization leaves alone.
/// A few letters lower to one with a combining mark behind it; the mark is left out, so that a
/// key is its own key.
pub open spec fn key_part(c: char) -> Seq<char> {
    kept(lower_char(c), |d: char| key_char(d))
}

/// The letters and numbers of a description in lower case, without digits, each other
/// run made one space; with it, whether the text so far ends in such a run.
pub open spec fn squeezed(s: Seq<char>) -> (Seq<char>, bool)
    decreases s.len(),
{
    if s.len() == 0 {
        (s, false)
    } else {
        let (t, gap) = squeezed(s.drop_last());
        let c = s.last();
        if is_digit(c) {
            (t, gap)
        } else if is_alnum(c) {
            (t + key_part(c), gap && key_part(c).len() == 0)
        } else if gap {
            (t, true)
        } else {
            (t.push(' '), true)
        }
    }
}

/// The grouping key of a description.
pub open spec fn normalized(s: Seq<char>) -> Seq<char> {
    trimmed(squeezed(s).0)
}

fn is_key_char(d: char) -> (r: bool)
    ensures
        r == key_char(d),
{
    if !alnum_char(d) || digit_char(d) {
        return false;
    }
    let lower: Vec<char> = lowercase_char(d);
    let same: bool = lower.len() == 1 && lower[0] == d;
    proof {
        if same {
            assert(lower@ =~= seq![d]);
        }
    }
    same
}

fn push_key_part(out: &mut String, c: char) -> (r: bool)
    ensures
        final(out)@ == old(out)@ + key_part(c),
        r == (key_part(c).len() > 0),
{
    let ghost p = |d: char| key_char(d);
    let lower: Vec<char> = lowercase_char(c);
    let ghost before = out@;
    let mut any: bool = false;
    let mut k: usize = 0;
    assert(out@ =~= before + kept(lower@.take(0), p));
    while k < lower.len()
        invariant
            k <= lower.len(),
            p == (|d: char| key_char(d)),
            out@ == before + kept(lower@.take(k as int), p),
            any == (kept(lower@.take(k as int), p).len() > 0),
        decreases lower.len() - k,
    {
        assert(lower@.take(k + 1).drop_last() == lower@.take(k as int));
        if is_key_char(lower[k]) {
            out.push(lower[k]);
            any = true;
        }
        k = k + 1;
        assert(out@ =~= before + kept(lower@.take(k as int), p));
    }
    assert(lower@.take(lower@.len() as int) == lower@);
    any
}

/// The grouping key of a description: lower case, digits dropped, every other run of
/// characters that are no letters or numbers made one space.
pub fn normalize_payee(desc: &str) -> (r: String)
    ensures
        r@ == normalized(desc@),
{
    let mut out: String = String::new();
    let mut prev_space: bool = false;
    for c in it: desc.chars()
        invariant
            it.seq() == desc@,
            (out@, prev_space) == squeezed(desc@.take(it.index() as int)),
    {
        assert(desc@.take(it.index() + 1).drop_last() == desc@.take(it.index() as int));
        assert(desc@.take(it.index() + 1).last() == c);
        if digit_char(c) {
        } else if alnum_char(c) {
            if push_key_part(&mut out, c) {
                prev_space = false;
            }
        } else if !prev_space {
            out.push(' ');
            prev_space = true;
        }
    }
    assert(desc@.take(desc@.len() as int) == desc@);
    trim(out.as_str())
}

/// A letter goes into a key with its whole lower-case form, where normalization leaves that
/// alone; it does so for all of ASCII.
pub proof fn law_stable_letters_stay(c: char)
    requires
        is_alnum(c) && !is_digit(c),
        is_ascii_char(c) || forall|i: int|
            0 <= i < lower_char(c).len() ==> key_char(#[trigger] lower_char(c)[i]),
    ensures
        key_part(c) == lower_char(c),
{
    let l = lower_char(c);
    if is_ascii_char(c) {
        assert(lower_char(l[0]) =~= seq![l[0]]);
    }
    lemma_kept_all(l, |d: char| key_char(d));
}

/// Text of stable letters and single spaces.
pub open spec fn is_key(t: Seq<char>) -> bool {
    &&& forall|i: int| 0 <= i < t.len() ==> #[trigger] t[i] == ' ' || key_char(t[i])
    &&& forall|i: int, j: int|
        0 <= i && j == i + 1 && j < t.len() && #[trigger] t[i] == ' ' ==> #[trigger] t[j] != ' '
}

/// What is left of a description is text of stable letters and single spaces.
pub proof fn lemma_squeezed_is_key(s: Seq<char>)
    ensures
        is_key(squeezed(s).0),
        !squeezed(s).1 ==> squeezed(s).0.len() == 0 || squeezed(s).0.last() != ' ',
    decreases s.len(),
{
    if s.len() > 0 {
        let (t, gap) = squeezed(s.drop_last());
        let c = s.last();
        lemma_squeezed_is_key(s.drop_last());
        if is_digit(c) {
        } else if is_alnum(c) {
            let l = key_part(c);
            let u = t + l;
            lemma_kept(lower_char(c), |d: char| key_char(d));
            assert forall|i: int| 0 <= i < l.len() implies key_char(#[trigger] l[i]) by {}
            assert forall|i: int| 0 <= i < u.len() implies #[trigger] u[i] == ' ' || key_char(
                u[i],
            ) by {
                if i >= t.len() {
                    assert(u[i] == l[i - t.len()]);
                    assert(key_char(l[i - t.len()]));
                }
            }
            assert(!key_char(' '));
            if l.len() > 0 {
                assert(key_char(l[l.len() - 1]));
            }
            assert forall|i: int, j: int|
                0 <= i && j == i + 1 && j < u.len() && #[trigger] u[i] == ' ' implies #[trigger] u[j]
                != ' ' by {
                if j >= t.len() {
                    assert(u[j] == l[j - t.len()]);
                    assert(key_char(l[j - t.len()]));
                }
            }
        }
    }
}

proof fn lemma_key_is_fixed(t: Seq<char>)
    requires
        is_key(t),
    ensures
        squeezed(t) == (t, t.len() > 0 && t.last() == ' '),
    decreases t.len(),
{
    if t.len() > 0 {
        let u = t.drop_last();
        assert(is_key(u)) by {
            assert forall|i: int| 0 <= i < u.len() implies #[trigger] u[i] == ' ' || key_char(
                u[i],
            ) by {
                assert(u[i] == t[i]);
            }
            assert forall|i: int, j: int|
                0 <= i && j == i + 1 && j < u.len() && #[trigger] u[i] == ' ' implies #[trigger] u[j]
                != ' ' by {
                assert(u[i] == t[i] && u[j] == t[j]);
            }
        }
        lemma_key_is_fixed(u);
        let c = t.last();
        assert(t[t.len() - 1] == c);
        if c == ' ' {
            if u.len() > 0 {
                assert(t[t.len() - 2] == u.last());
            }
            assert(u.push(' ') =~= t);
        } else {
            assert(key_char(c));
            lemma_kept_all(lower_char(c), |d: char| key_char(d));
            assert(u + lower_char(c) =~= t);
        }
    }
}

proof fn lemma_trimmed_is_part(s: Seq<char>) -> (r: (int, int))
    ensures
        0 <= r.0 <= r.1 <= s.len(),
        trimmed(s) == s.subrange(r.0, r.1),
{
    let i = lemma_trimmed_start_is_part(s);
    let t = s.skip(i);
    let j = lemma_trimmed_end_is_part(t);
    assert(t.take(j) =~= s.subrange(i, i + j));
    (i, i + j)
}

proof fn lemma_trimmed_start_is_part(s: Seq<char>) -> (i: int)
    ensures
        0 <= i <= s.len(),
        trimmed_start(s) == s.skip(i),
    decreases s.len(),
{
    if s.len() > 0 && is_white(s[0]) {
        let i = lemma_trimmed_start_is_part(s.skip(1));
        assert(s.skip(1).skip(i) =~= s.skip(i + 1));
        i + 1
    } else {
        assert(s.skip(0) =~= s);
        0
    }
}

proof fn lemma_trimmed_end_is_part(s: Seq<char>) -> (j: int)
    ensures
        0 <= j <= s.len(),
        trimmed_end(s) == s.take(j),
    decreases s.len(),
{
    if s.len() > 0 && is_white(s.last()) {
        let j = lemma_trimmed_end_is_part(s.drop_last());
        assert(s.drop_last().take(j) =~= s.take(j));
        j
    } else {
        assert(s.take(s.len() as int) =~= s);
        s.len() as int
    }
}

/// Normalizing a key again changes nothing, so a key copied from a list of series still
/// names its series.
pub proof fn law_normalize_idempotent(s: Seq<char>)
    ensures
        normalized(normalized(s)) == normalized(s),
{
    let t = squeezed(s).0;
    lemma_squeezed_is_key(s);
    let (i, j) = lemma_trimmed_is_part(t);
    let n = t.subrange(i, j);
    assert(is_key(n)) by {
        assert forall|k: int| 0 <= k < n.len() implies #[trigger] n[k] == ' ' || key_char(n[k]) by {
            assert(n[k] == t[i + k]);
        }
        assert forall|a: int, b: int|
            0 <= a && b == a + 1 && b < n.len() && #[trigger] n[a] == ' ' implies #[trigger] n[b]
            != ' ' by {
            assert(n[a] == t[i + a] && n[b] == t[i + b]);
        }
    }
    lemma_key_is_fixed(n);
    lemma_trimmed_idempotent(t);
}

/// A text without its digits.
pub open spec fn without_digits(s: Seq<char>) -> Seq<char> {
    kept(s, |c: char| !is_digit(c))
}

proof fn lemma_digits_drop_out(s: Seq<char>)
    ensures
        squeezed(without_digits(s)) == squeezed(s),
    decreases s.len(),
{
    if s.len() > 0 {
        lemma_digits_drop_out(s.drop_last());
        let rest = without_digits(s.drop_last());
        if !is_digit(s.last()) {
            assert(without_digits(s).drop_last() =~= rest);
        }
    }
}

/// Digits do not count: descriptions that are equal without their digits have the same key.
pub proof fn law_digits_do_not_count(a: Seq<char>, b: Seq<char>)
    requires
        without_digits(a) == without_digits(b),
    ensures
        normalized(a) == normalized(b),
{
    lemma_digits_drop_out(a);
    lemma_digits_drop_out(b);
}

// ---------------------------------------------------------------------------
// Suggestions
// ---------------------------------------------------------------------------

/// Payees that are almost always subscriptions: streaming, software, cloud. Each is
/// matched as part of the normalized payee. There is no bare `amazon`, which is shopping.
pub open spec fn subscription_names() -> Seq<Seq<char>> {
    seq![
        "netflix"@,
        "spotify"@,
        "hulu"@,
        "disney"@,
        "hbo"@,
        "peacock"@,
        "paramount"@,
        "youtube"@,
        "apple com bill"@,
        "itunes"@,
        "amazon prime"@,
        "audible"@,
        "twitch"@,
        "patreon"@,
        "adobe"@,
        "microsoft"@,
        "dropbox"@,
        "github"@,
        "openai"@,
        "chatgpt"@,
        "anthropic"@,
        "supergrok"@,
        "notion"@,
        "vercel"@,
        "digitalocean"@,
        "linode"@,
        "cloudflare"@,
        "namecheap"@,
        "proton"@,
    ]
}

/// Payees that are almost always bills: utilities, insurance, telecom.
pub open spec fn bill_names() -> Seq<Seq<char>> {
    seq![
        "volt"@,
        "power"@,
        "grid"@,
        "aqua"@,
        "liberty"@,
        "telco"@,
        "t mobile"@,
        "verizon"@,
        "geico"@,
        "progressive"@,
        "state farm"@,
        "allstate"@,
    ]
}

/// Whether one of the names occurs in the key.
pub open spec fn names_any(key: Seq<char>, names: Seq<Seq<char>>) -> bool {
    exists|i: int| 0 <= i < names.len() && has_text(key, #[trigger] names[i])
}

/// The label that the built-in table suggests for a payee.
pub open spec fn suggestion(payee: Seq<char>) -> Option<SeriesLabel> {
    let key = normalized(payee);
    if key.len() == 0 {
        None
    } else if names_any(key, subscription_names()) {
        Some(SeriesLabel::Sub)
    } else if names_any(key, bill_names()) {
        Some(SeriesLabel::Bill)
    } else {
        None
    }
}

fn subscription_table() -> (r: Vec<&'static str>)
    ensures
        r@.map_values(|s: &'static str| s@) == subscription_names(),
{
    let t: Vec<&'static str> = vec![
        "netflix",
        "spotify",
        "hulu",
        "disney",
        "hbo",
        "peacock",
        "paramount",
        "youtube",
        "apple com bill",
        "itunes",
        "amazon prime",
        "audible",
        "twitch",
        "patreon",
        "adobe",
        "microsoft",
        "dropbox",
        "github",
        "openai",
        "chatgpt",
        "anthropic",
        "supergrok",
        "notion",
        "vercel",
        "digitalocean",
        "linode",
        "cloudflare",
        "namecheap",
        "proton",
    ];
    assert(t@.map_values(|s: &'static str| s@) =~= subscription_names());
    t
}

fn bill_table() -> (r: Vec<&'static str>)
    ensures
        r@.map_values(|s: &'static str| s@) == bill_names(),
{
    let t: Vec<&'static str> = vec![
        "volt",
        "power",
        "grid",
        "aqua",
        "liberty",
        "telco",
        "t mobile",
        "verizon",
        "geico",
        "progressive",
        "state farm",
        "allstate",
    ];
    assert(t@.map_values(|s: &'static str| s@) =~= bill_names());
    t
}

fn has_any(key: &str, names: &Vec<&'static str>) -> (r: bool)
    ensures
        r == names_any(key@, names@.map_values(|s: &'static str| s@)),
{
    let ghost all = names@.map_values(|s: &'static str| s@);
    let mut i: usize = 0;
    while i < names.len()
        invariant
            i <= names.len(),
            all == names@.map_values(|s: &'static str| s@),
            forall|j: int| 0 <= j < i ==> !has_text(key@, #[trigger] all[j]),
        decreases names.len() - i,
    {
        if contains(key, names[i]) {
            assert(has_text(key@, all[i as int]));
            return true;
        }
        i = i + 1;
    }
    false
}

/// The label that the built-in table suggests for a payee. Advisory: the operator
/// confirms it.
pub fn suggest_label(payee: &str) -> (r: Option<SeriesLabel>)
    ensures
        r == suggestion(payee@),
{
    let key: String = normalize_payee(payee);
    if key.as_str().is_empty() {
        None
    } else if has_any(key.as_str(), &subscription_table()) {
        Some(SeriesLabel::Sub)
    } else if has_any(key.as_str(), &bill_table()) {
        Some(SeriesLabel::Bill)
    } else {
        None
    }
}

// ---------------------------------------------------------------------------
// Cadence
// ---------------------------------------------------------------------------

/// How many gaps lie in a cadence's band.
pub open spec fn count_in_band(gaps: Seq<i64>, c: Cadence) -> nat
    decreases gaps.len(),
{
    if gaps.len() == 0 {
        0
    } else {
        count_in_band(gaps.drop_last(), c) + if c.admits(gaps.last()) {
            1nat
        } else {
            0nat
        }
    }
}

/// The middle gap (the upper one of two) in ascending order.
pub open spec fn median(gaps: Seq<i64>) -> i64 {
    sorted_by_keys(gaps, gaps)[gaps.len() as int / 2]
}

/// The cadence whose band a gap lies in.
pub open spec fn cadence_at(gap: i64) -> Option<Cadence> {
    if Cadence::Weekly.admits(gap) {
        Some(Cadence::Weekly)
    } else if Cadence::Biweekly.admits(gap) {
        Some(Cadence::Biweekly)
    } else if Cadence::Monthly.admits(gap) {
        Some(Cadence::Monthly)
    } else if Cadence::Quarterly.admits(gap) {
        Some(Cadence::Quarterly)
    } else if Cadence::Yearly.admits(gap) {
        Some(Cadence::Yearly)
    } else {
        None
    }
}

/// The cadence of a run of gaps: that of the median gap, if at least half of the gaps
/// lie in the same band.
pub open spec fn cadence_of(gaps: Seq<i64>) -> Option<Cadence> {
    if gaps.len() == 0 {
        None
    } else {
        match cadence_at(median(gaps)) {
            Some(c) => if count_in_band(gaps, c) * 2 >= gaps.len() {
                Some(c)
            } else {
                None
            },
            None => None,
        }
    }
}

fn in_band(c: Cadence, gap: i64) -> (r: bool)
    ensures
        r == c.admits(gap),
{
    let (lo, hi) = c.band();
    lo * DAY_SECS <= gap && gap <= hi * DAY_SECS
}

/// The cadence of a run of gaps, in seconds.
pub fn classify(gaps: &Vec<i64>) -> (r: Option<Cadence>)
    ensures
        r == cadence_of(gaps@),
{
    let n: usize = gaps.len();
    if n == 0 {
        return None;
    }
    let order: Vec<usize> = stable_indices(gaps);
    let mid: i64 = gaps[order[n / 2]];
    assert(mid == median(gaps@)) by {
        assert(order@.map_values(|x: usize| x as int)[n as int / 2] == order@[n as int / 2]);
    }
    let c: Cadence = if in_band(Cadence::Weekly, mid) {
        Cadence::Weekly
    } else if in_band(Cadence::Biweekly, mid) {
        Cadence::Biweekly
    } else if in_band(Cadence::Monthly, mid) {
        Cadence::Monthly
    } else if in_band(Cadence::Quarterly, mid) {
        Cadence::Quarterly
    } else if in_band(Cadence::Yearly, mid) {
        Cadence::Yearly
    } else {
        return None;
    };
    let mut hits: usize = 0;
    let mut i: usize = 0;
    while i < n
        invariant
            n == gaps.len(),
            i <= n,
            hits <= i,
            hits == count_in_band(gaps@.take(i as int), c),
        decreases n - i,
    {
        assert(gaps@.take(i + 1).drop_last() == gaps@.take(i as int));
        if in_band(c, gaps[i]) {
            hits = hits + 1;
        }
        i = i + 1;
    }
    assert(gaps@.take(n as int) == gaps@);
    if hits >= n - hits {
        Some(c)
    } else {
        None
    }
}

// ---------------------------------------------------------------------------
// Detection
// ---------------------------------------------------------------------------

/// The charges whose payee has the given key, in the order given.
pub open spec fn charges_with(txns: Seq<Txn>, key: Seq<char>) -> Seq<Txn>
    decreases txns.len(),
{
    if txns.len() == 0 {
        txns
    } else {
        let rest = charges_with(txns.drop_last(), key);
        if normalized(txns.last().description@) == key {
            rest.push(txns.last())
        } else {
            rest
        }
    }
}

/// When each charge posted.
pub open spec fn dates(items: Seq<Txn>) -> Seq<i64> {
    items.map_values(|t: Txn| t.posted_at)
}

/// The charges of a payee, oldest first; charges of one instant keep their order.
pub open spec fn history(txns: Seq<Txn>, key: Seq<char>) -> Seq<Txn> {
    let items = charges_with(txns, key);
    sorted_by_keys(items, dates(items))
}

/// The seconds between one charge and the next.
pub open spec fn gaps_of(items: Seq<Txn>) -> Seq<i64> {
    Seq::new(
        (items.len() - 1) as nat,
        |i: int| (items[i + 1].posted_at - items[i].posted_at) as i64,
    )
}

/// How many charges make a payee recurring.
pub open spec fn floor_of(min_occurrences: nat) -> nat {
    if min_occurrences > 2 {
        min_occurrences
    } else {
        2
    }
}

/// The cadence at which a payee recurs, if it does.
pub open spec fn recurs(txns: Seq<Txn>, key: Seq<char>, min_occurrences: nat) -> Option<Cadence> {
    let items = history(txns, key);
    if key.len() == 0 || items.len() < floor_of(min_occurrences) {
        None
    } else {
        cadence_of(gaps_of(items))
    }
}

pub open spec fn amount_sum(items: Seq<Txn>) -> int
    decreases items.len(),
{
    if items.len() == 0 {
        0
    } else {
        amount_sum(items.drop_last()) + items.last().amount_cents
    }
}

/// The quotient rounded toward zero.
pub open spec fn div_toward_zero(a: int, n: int) -> int {
    if a >= 0 {
        a / n
    } else {
        -((-a) / n)
    }
}

pub open spec fn is_least(m: i64, items: Seq<Txn>) -> bool {
    &&& exists|i: int| 0 <= i < items.len() && (#[trigger] items[i]).amount_cents == m
    &&& forall|i: int| 0 <= i < items.len() ==> m <= (#[trigger] items[i]).amount_cents
}

pub open spec fn is_greatest(m: i64, items: Seq<Txn>) -> bool {
    &&& exists|i: int| 0 <= i < items.len() && (#[trigger] items[i]).amount_cents == m
    &&& forall|i: int| 0 <= i < items.len() ==> m >= (#[trigger] items[i]).amount_cents
}

/// The row says of a payee's history what it is.
pub open spec fn summarizes(s: Series, items: Seq<Txn>) -> bool {
    &&& s.display@ == items.last().description@
    &&& s.count == items.len()
    &&& s.first_seen == items[0].posted_at
    &&& s.last_seen == items.last().posted_at
    &&& s.last_amount.0 == items.last().amount_cents
    &&& is_least(s.min_amount.0, items)
    &&& is_greatest(s.max_amount.0, items)
    &&& s.avg_amount.0 == div_toward_zero(amount_sum(items), items.len() as int)
    &&& s.predicted_next == items.last().posted_at + s.cadence.period() * DAY_SECS
}

/// The row is the detected series of its payee.
pub open spec fn is_series(s: Series, txns: Seq<Txn>, min_occurrences: nat) -> bool {
    &&& recurs(txns, s.payee@, min_occurrences) == Some(s.cadence)
    &&& summarizes(s, history(txns, s.payee@))
}

/// The order of the result: the soonest due first, then by payee.
pub open spec fn due_before(a: Series, b: Series) -> bool {
    a.predicted_next < b.predicted_next || (a.predicted_next == b.predicted_next && lex_lt(
        a.payee@,
        b.payee@,
    ))
}

/// The detected series of a set of charges: one row for each payee that recurs, the
/// soonest due first.
pub open spec fn is_detection(out: Seq<Series>, txns: Seq<Txn>, min_occurrences: nat) -> bool {
    &&& forall|i: int| 0 <= i < out.len() ==> is_series(#[trigger] out[i], txns, min_occurrences)
    &&& forall|i: int, j: int|
        0 <= i < j < out.len() ==> due_before(#[trigger] out[i], #[trigger] out[j])
    &&& forall|key: Seq<char>| #[trigger]
        recurs(txns, key, min_occurrences) is Some ==> exists|i: int|
            0 <= i < out.len() && (#[trigger] out[i]).payee@ == key
}

/// The arithmetic on a payee's history stays within 64 bits.
pub open spec fn in_range(items: Seq<Txn>) -> bool {
    &&& forall|i: int, j: int|
        0 <= i && j == i + 1 && j < items.len() ==> (#[trigger] items[j]).posted_at - (
        #[trigger] items[i]).posted_at <= i64::MAX
    &&& match cadence_of(gaps_of(items)) {
        Some(c) => {
            &&& items.last().posted_at + c.period() * DAY_SECS <= i64::MAX
            &&& forall|k: int|
                0 <= k <= items.len() ==> i64::MIN <= #[trigger] amount_sum(items.take(k))
                    <= i64::MAX
        },
        None => true,
    }
}

/// The arithmetic on every payee's history stays within 64 bits.
pub open spec fn all_in_range(txns: Seq<Txn>, min_occurrences: nat) -> bool {
    forall|key: Seq<char>|
        key.len() > 0 && (#[trigger] history(txns, key)).len() >= floor_of(min_occurrences)
            ==> in_range(history(txns, key))
}

proof fn lemma_history_len(txns: Seq<Txn>, key: Seq<char>)
    ensures
        history(txns, key).len() == charges_with(txns, key).len(),
{
}

/// Where no charge has the key, the key's history is empty.
proof fn lemma_charges_absent(txns: Seq<Txn>, key: Seq<char>)
    requires
        forall|i: int| 0 <= i < txns.len() ==> normalized((#[trigger] txns[i]).description@) != key,
    ensures
        charges_with(txns, key).len() == 0,
    decreases txns.len(),
{
    if txns.len() > 0 {
        lemma_charges_absent(txns.drop_last(), key);
    }
}

fn keys_of(txns: &[Txn]) -> (r: Vec<String>)
    ensures
        r@.len() == txns@.len(),
        forall|i: int|
            0 <= i < r@.len() ==> (#[trigger] r@[i])@ == normalized(txns@[i].description@),
{
    let mut out: Vec<String> = Vec::new();
    let mut i: usize = 0;
    while i < txns.len()
        invariant
            i <= txns.len(),
            out@.len() == i,
            forall|k: int|
                0 <= k < out@.len() ==> (#[trigger] out@[k])@ == normalized(txns@[k].description@),
        decreases txns.len() - i,
    {
        out.push(normalize_payee(txns[i].description.as_str()));
        i = i + 1;
    }
    out
}

fn history_of(txns: &[Txn], keys: &Vec<String>, key: &String) -> (r: Vec<Txn>)
    requires
        keys@.len() == txns@.len(),
        forall|i: int|
            0 <= i < keys@.len() ==> (#[trigger] keys@[i])@ == normalized(txns@[i].description@),
    ensures
        r@ == history(txns@, key@),
{
    let mut found: Vec<Txn> = Vec::new();
    let mut days: Vec<i64> = Vec::new();
    let mut i: usize = 0;
    while i < txns.len()
        invariant
            i <= txns.len(),
            keys@.len() == txns@.len(),
            forall|k: int|
                0 <= k < keys@.len() ==> (#[trigger] keys@[k])@ == normalized(
                    txns@[k].description@,
                ),
            found@ == charges_with(txns@.take(i as int), key@),
            days@ == dates(found@),
        decreases txns.len() - i,
    {
        assert(txns@.take(i + 1).drop_last() == txns@.take(i as int));
        if keys[i] == *key {
            found.push(txns[i].clone());
            days.push(txns[i].posted_at);
            assert(days@ =~= dates(found@));
        }
        i = i + 1;
    }
    assert(txns@.take(txns@.len() as int) == txns@);
    let order: Vec<usize> = stable_indices(&days);
    let mut out: Vec<Txn> = Vec::new();
    let mut k: usize = 0;
    let ghost p = stable_order(days@, days@.len());
    while k < order.len()
        invariant
            k <= order.len(),
            order@.len() == found@.len(),
            days@ == dates(found@),
            p == stable_order(days@, days@.len()),
            order@.map_values(|x: usize| x as int) == p,
            forall|j: int| 0 <= j < order@.len() ==> 0 <= (#[trigger] order@[j]) < found@.len(),
            out@.len() == k,
            forall|j: int| 0 <= j < k ==> #[trigger] out@[j] == found@[p[j]],
        decreases order.len() - k,
    {
        assert(order@.map_values(|x: usize| x as int)[k as int] == order@[k as int]);
        out.push(found[order[k]].clone());
        k = k + 1;
    }
    assert(out@ =~= history(txns@, key@));
    out
}

/// In a history no charge is older than the one before it.
proof fn lemma_history_sorted(txns: Seq<Txn>, key: Seq<char>, i: int, j: int)
    requires
        0 <= i < j < history(txns, key).len(),
    ensures
        history(txns, key)[i].posted_at <= history(txns, key)[j].posted_at,
{
    let items = charges_with(txns, key);
    law_stable_order(dates(items), items.len());
    let p = stable_order(dates(items), items.len());
    assert(crate::order::comes_before(dates(items), p[i], p[j]));
}

fn gaps_between(items: &Vec<Txn>) -> (r: Vec<i64>)
    requires
        items@.len() >= 2,
        forall|i: int, j: int|
            0 <= i && j == i + 1 && j < items@.len() ==> 0 <= (#[trigger] items@[j]).posted_at - (
            #[trigger] items@[i]).posted_at <= i64::MAX,
    ensures
        r@ == gaps_of(items@),
{
    let mut out: Vec<i64> = Vec::new();
    let mut i: usize = 0;
    let n: usize = items.len() - 1;
    while i < n
        invariant
            n == items.len() - 1,
            i <= n,
            forall|a: int, b: int|
                0 <= a && b == a + 1 && b < items@.len() ==> 0 <= (#[trigger] items@[b]).posted_at
                    - (#[trigger] items@[a]).posted_at <= i64::MAX,
            out@.len() == i,
            forall|k: int| 0 <= k < i ==> #[trigger] out@[k] == gaps_of(items@)[k],
        decreases n - i,
    {
        assert(items@[i + 1].posted_at - items@[i as int].posted_at <= i64::MAX);
        out.push(items[i + 1].posted_at - items[i].posted_at);
        i = i + 1;
    }
    assert(out@ =~= gaps_of(items@));
    out
}

fn average(items: &Vec<Txn>) -> (r: i64)
    requires
        items@.len() >= 2,
        forall|k: int|
            0 <= k <= items@.len() ==> i64::MIN <= #[trigger] amount_sum(items@.take(k))
                <= i64::MAX,
    ensures
        r == div_toward_zero(amount_sum(items@), items@.len() as int),
{
    let mut total: i64 = 0;
    let mut i: usize = 0;
    while i < items.len()
        invariant
            i <= items.len(),
            forall|k: int|
                0 <= k <= items@.len() ==> i64::MIN <= #[trigger] amount_sum(items@.take(k))
                    <= i64::MAX,
            total == amount_sum(items@.take(i as int)),
        decreases items.len() - i,
    {
        assert(items@.take(i + 1).drop_last() == items@.take(i as int));
        assert(amount_sum(items@.take(i + 1)) <= i64::MAX);
        total = total + items[i].amount_cents;
        i = i + 1;
    }
    assert(items@.take(items@.len() as int) == items@);
    let n: u64 = items.len() as u64;
    let m: u64 = magnitude(total);
    let q: u64 = m / n;
    assert(q <= m / 2) by (nonlinear_arith)
        requires
            q == m / n,
            n >= 2,
    ;
    if total >= 0 {
        q as i64
    } else {
        -(q as i64)
    }
}

fn extremes(items: &Vec<Txn>) -> (r: (i64, i64))
    requires
        items@.len() > 0,
    ensures
        is_least(r.0, items@),
        is_greatest(r.1, items@),
{
    let mut lo: i64 = items[0].amount_cents;
    let mut hi: i64 = items[0].amount_cents;
    let mut i: usize = 1;
    while i < items.len()
        invariant
            1 <= i <= items.len(),
            exists|k: int| 0 <= k < items@.len() && (#[trigger] items@[k]).amount_cents == lo,
            exists|k: int| 0 <= k < items@.len() && (#[trigger] items@[k]).amount_cents == hi,
            forall|k: int| 0 <= k < i ==> lo <= (#[trigger] items@[k]).amount_cents <= hi,
        decreases items.len() - i,
    {
        if items[i].amount_cents < lo {
            lo = items[i].amount_cents;
        }
        if items[i].amount_cents > hi {
            hi = items[i].amount_cents;
        }
        i = i + 1;
    }
    (lo, hi)
}

/// The series of one payee, if the payee recurs.
fn series_of(txns: &[Txn], keys: &Vec<String>, key: &String, min_occurrences: usize) -> (r: Option<
    Series,
>)
    requires
        keys@.len() == txns@.len(),
        forall|i: int|
            0 <= i < keys@.len() ==> (#[trigger] keys@[i])@ == normalized(txns@[i].description@),
        all_in_range(txns@, min_occurrences as nat),
        key@.len() > 0,
    ensures
        r is Some == (recurs(txns@, key@, min_occurrences as nat) is Some),
        r is Some ==> is_series(r->0, txns@, min_occurrences as nat) && r->0.payee@ == key@,
{
    let items: Vec<Txn> = history_of(txns, keys, key);
    let n: usize = items.len();
    if n < min_occurrences || n < 2 {
        return None;
    }
    assert(in_range(history(txns@, key@)));
    assert forall|i: int, j: int| 0 <= i && j == i + 1 && j < items@.len() implies 0 <= (
    #[trigger] items@[j]).posted_at - (#[trigger] items@[i]).posted_at <= i64::MAX by {
        lemma_history_sorted(txns@, key@, i, j);
    }
    let gaps: Vec<i64> = gaps_between(&items);
    let cadence: Cadence = match classify(&gaps) {
        Some(c) => c,
        None => {
            return None;
        },
    };
    let avg: i64 = average(&items);
    let (lo, hi) = extremes(&items);
    let last: &Txn = &items[n - 1];
    let step: i64 = cadence.period_days() * DAY_SECS;
    Some(
        Series {
            payee: key.clone(),
            display: last.description.clone(),
            cadence,
            count: n,
            first_seen: items[0].posted_at,
            last_seen: last.posted_at,
            last_amount: Cents(last.amount_cents),
            min_amount: Cents(lo),
            max_amount: Cents(hi),
            avg_amount: Cents(avg),
            predicted_next: last.posted_at + step,
        },
    )
}

fn is_due_before(a: &Series, b: &Series) -> (r: bool)
    ensures
        r == due_before(*a, *b),
{
    a.predicted_next < b.predicted_next || (a.predicted_next == b.predicted_next && str_lt(
        a.payee.as_str(),
        b.payee.as_str(),
    ))
}

proof fn lemma_due_before(a: Series, b: Series, c: Series)
    ensures
        due_before(a, b) && due_before(b, c) ==> due_before(a, c),
        due_before(a, b) || due_before(b, a) || a.payee@ == b.payee@,
{
    if due_before(a, b) && due_before(b, c) && a.predicted_next == c.predicted_next {
        lemma_lex_transitive(a.payee@, b.payee@, c.payee@);
    }
    lemma_lex_total(a.payee@, b.payee@);
}

/// Puts a row where it belongs among rows that are in order.
fn put_in_order(rows: &mut Vec<Series>, row: Series)
    requires
        forall|i: int, j: int|
            0 <= i < j < old(rows)@.len() ==> due_before(
                #[trigger] old(rows)@[i],
                #[trigger] old(rows)@[j],
            ),
        forall|i: int| 0 <= i < old(rows)@.len() ==> (#[trigger] old(rows)@[i]).payee@ != row.payee@,
    ensures
        forall|i: int, j: int|
            0 <= i < j < final(rows)@.len() ==> due_before(
                #[trigger] final(rows)@[i],
                #[trigger] final(rows)@[j],
            ),
        exists|p: int|
            0 <= p <= old(rows)@.len() && final(rows)@ == #[trigger] old(rows)@.insert(p, row),
{
    let ghost before = rows@;
    let mut pos: usize = 0;
    while pos < rows.len() && is_due_before(&rows[pos], &row)
        invariant
            pos <= rows.len(),
            rows@ == before,
            forall|i: int| 0 <= i < pos ==> due_before(#[trigger] before[i], row),
        decreases rows.len() - pos,
    {
        pos = pos + 1;
    }
    rows.insert(pos, row);
    proof {
        let after = rows@;
        assert forall|i: int, j: int| 0 <= i < j < after.len() implies due_before(
            #[trigger] after[i],
            #[trigger] after[j],
        ) by {
            if i == pos {
                lemma_due_before(row, before[pos as int], before[j - 1]);
            } else if j == pos {
                assert(due_before(before[i], row));
            } else {
                let a = if i < pos { i } else { i - 1 };
                let b = if j < pos { j } else { j - 1 };
                assert(due_before(before[a], before[b]));
            }
        }
    }
}

spec fn rows_ok(rows: Seq<Series>, txns: Seq<Txn>, min: nat) -> bool {
    &&& forall|k: int| 0 <= k < rows.len() ==> is_series(#[trigger] rows[k], txns, min)
    &&& forall|a: int, b: int|
        0 <= a < b < rows.len() ==> due_before(#[trigger] rows[a], #[trigger] rows[b])
}

/// Every row's payee is among the first `n` keys.
spec fn rows_known(rows: Seq<Series>, keys: Seq<String>, n: int) -> bool {
    forall|k: int| 0 <= k < rows.len() ==> is_used(keys, n, (#[trigger] rows[k]).payee@)
}

spec fn is_used(keys: Seq<String>, n: int, key: Seq<char>) -> bool {
    exists|j: int| 0 <= j < n && (#[trigger] keys[j])@ == key
}

spec fn has_row(rows: Seq<Series>, key: Seq<char>) -> bool {
    exists|k: int| 0 <= k < rows.len() && (#[trigger] rows[k]).payee@ == key
}

/// Every recurring payee among the first `n` keys has a row.
spec fn rows_cover(rows: Seq<Series>, txns: Seq<Txn>, keys: Seq<String>, n: int, min: nat) -> bool {
    forall|j: int|
        0 <= j < n && recurs(txns, (#[trigger] keys[j])@, min) is Some ==> has_row(rows, keys[j]@)
}

fn used_before(keys: &Vec<String>, i: usize) -> (r: bool)
    requires
        i < keys@.len(),
    ensures
        r == is_used(keys@, i as int, keys@[i as int]@),
{
    let mut j: usize = 0;
    while j < i
        invariant
            j <= i < keys@.len(),
            forall|k: int| 0 <= k < j ==> (#[trigger] keys@[k])@ != keys@[i as int]@,
        decreases i - j,
    {
        if keys[j] == keys[i] {
            return true;
        }
        j = j + 1;
    }
    false
}

proof fn lemma_row_added(
    before: Seq<Series>,
    row: Series,
    p: int,
    txns: Seq<Txn>,
    keys: Seq<String>,
    i: int,
    min: nat,
)
    requires
        0 <= p <= before.len(),
        0 <= i < keys.len(),
        keys[i]@ == row.payee@,
        is_series(row, txns, min),
        rows_ok(before, txns, min),
        rows_known(before, keys, i),
        rows_cover(before, txns, keys, i, min),
    ensures
        ({
            let after = before.insert(p, row);
            &&& forall|k: int| 0 <= k < after.len() ==> is_series(#[trigger] after[k], txns, min)
            &&& rows_known(after, keys, i + 1)
            &&& rows_cover(after, txns, keys, i + 1, min)
        }),
{
    let after = before.insert(p, row);
    assert(after[p] == row);
    assert forall|k: int| 0 <= k < after.len() implies is_series(#[trigger] after[k], txns, min)
        && is_used(keys, i + 1, after[k].payee@) by {
        if k == p {
            assert(keys[i]@ == after[k].payee@);
        } else {
            let a = if k < p { k } else { k - 1 };
            assert(after[k] == before[a]);
            assert(is_used(keys, i, before[a].payee@));
        }
    }
    assert forall|j: int| 0 <= j < i + 1 && recurs(txns, (#[trigger] keys[j])@, min) is Some implies has_row(
        after,
        keys[j]@,
    ) by {
        if j < i {
            assert(has_row(before, keys[j]@));
            let k = choose|k: int| 0 <= k < before.len() && (#[trigger] before[k]).payee@ == keys[j]@;
            assert(after[if k < p { k } else { k + 1 }] == before[k]);
        } else {
            assert(after[p].payee@ == keys[j]@);
        }
    }
}

/// Adds the row of the payee of charge `i`, unless it has one or does not recur.
fn consider(txns: &[Txn], keys: &Vec<String>, i: usize, min_occurrences: usize, out: &mut Vec<Series>)
    requires
        i < txns@.len(),
        keys@.len() == txns@.len(),
        forall|k: int|
            0 <= k < keys@.len() ==> (#[trigger] keys@[k])@ == normalized(txns@[k].description@),
        all_in_range(txns@, min_occurrences as nat),
        rows_ok(old(out)@, txns@, min_occurrences as nat),
        rows_known(old(out)@, keys@, i as int),
        rows_cover(old(out)@, txns@, keys@, i as int, min_occurrences as nat),
    ensures
        rows_ok(final(out)@, txns@, min_occurrences as nat),
        rows_known(final(out)@, keys@, i + 1),
        rows_cover(final(out)@, txns@, keys@, i + 1, min_occurrences as nat),
{
    let ghost min = min_occurrences as nat;
    let ghost before = out@;
    assert(rows_known(before, keys@, i + 1)) by {
        assert forall|k: int| 0 <= k < before.len() implies is_used(
            keys@,
            i + 1,
            (#[trigger] before[k]).payee@,
        ) by {
            assert(is_used(keys@, i as int, before[k].payee@));
        }
    }
    if keys[i].as_str().is_empty() {
        assert(recurs(txns@, keys@[i as int]@, min) is None);
        return;
    }
    if used_before(keys, i) {
        proof {
            let j = choose|j: int| 0 <= j < i && (#[trigger] keys@[j])@ == keys@[i as int]@;
            assert(recurs(txns@, keys@[i as int]@, min) is Some ==> has_row(before, keys@[j]@));
        }
        return;
    }
    match series_of(txns, keys, &keys[i], min_occurrences) {
        Some(row) => {
            assert forall|k: int| 0 <= k < before.len() implies (#[trigger] before[k]).payee@
                != row.payee@ by {
                assert(is_used(keys@, i as int, before[k].payee@));
            }
            put_in_order(out, row);
            proof {
                let p = choose|p: int|
                    0 <= p <= before.len() && out@ == #[trigger] before.insert(p, row);
                lemma_row_added(before, row, p, txns@, keys@, i as int, min);
            }
        },
        None => {},
    }
}

/// Detects the recurring series in a set of charges. A payee must show at least
/// `min_occurrences` charges, and never fewer than two.
pub fn detect(txns: &[Txn], min_occurrences: usize) -> (r: Vec<Series>)
    requires
        all_in_range(txns@, min_occurrences as nat),
    ensures
        is_detection(r@, txns@, min_occurrences as nat),
{
    let ghost min = min_occurrences as nat;
    let keys: Vec<String> = keys_of(txns);
    let mut out: Vec<Series> = Vec::new();
    let mut i: usize = 0;
    while i < txns.len()
        invariant
            min == min_occurrences as nat,
            all_in_range(txns@, min),
            i <= txns.len(),
            keys@.len() == txns@.len(),
            forall|k: int|
                0 <= k < keys@.len() ==> (#[trigger] keys@[k])@ == normalized(
                    txns@[k].description@,
                ),
            rows_ok(out@, txns@, min),
            rows_known(out@, keys@, i as int),
            rows_cover(out@, txns@, keys@, i as int, min),
        decreases txns.len() - i,
    {
        consider(txns, &keys, i, min_occurrences, &mut out);
        i = i + 1;
    }
    proof {
        assert forall|key: Seq<char>| #[trigger] recurs(txns@, key, min) is Some implies exists|
            k: int,
        | 0 <= k < out@.len() && (#[trigger] out@[k]).payee@ == key by {
            if forall|j: int| 0 <= j < txns@.len() ==> normalized(
                (#[trigger] txns@[j]).description@,
            ) != key {
                lemma_charges_absent(txns@, key);
            }
            let j = choose|j: int|
                0 <= j < txns@.len() && normalized((#[trigger] txns@[j]).description@) == key;
            assert(keys@[j]@ == key);
            assert(has_row(out@, key));
        }
    }
    out
}

// ---------------------------------------------------------------------------
// Labels
// ---------------------------------------------------------------------------

/// The label row of a payee; of several rows the last counts.
pub open spec fn label_for(labels: Seq<RecurringLabel>, key: Seq<char>) -> Option<RecurringLabel>
    decreases labels.len(),
{
    if labels.len() == 0 {
        None
    } else if labels.last().match_key@ == key {
        Some(labels.last())
    } else {
        label_for(labels.drop_last(), key)
    }
}

/// Whether the operator marked the payee as not recurring.
pub open spec fn is_ignored(labels: Seq<RecurringLabel>, key: Seq<char>) -> bool {
    match label_for(labels, key) {
        Some(l) => opt_text(l.label) == Some(SeriesLabel::Ignore.word()),
        None => false,
    }
}

/// A detected series with its label row.
pub open spec fn joined_one(s: Series, lbl: Option<RecurringLabel>) -> LabeledSeries {
    LabeledSeries {
        series: s,
        label: match lbl {
            Some(l) => l.label,
            None => None,
        },
        display_name: match lbl {
            Some(l) => l.display_name,
            None => None,
        },
        confirmed_at: match lbl {
            Some(l) => Some(l.confirmed_at),
            None => None,
        },
    }
}

/// The detected series with their labels, in order: those that are ignored, or those
/// that are not.
pub open spec fn joined(
    detected: Seq<Series>,
    labels: Seq<RecurringLabel>,
    ignored: bool,
) -> Seq<LabeledSeries>
    decreases detected.len(),
{
    if detected.len() == 0 {
        Seq::empty()
    } else {
        let rest = joined(detected.drop_last(), labels, ignored);
        let s = detected.last();
        if is_ignored(labels, s.payee@) == ignored {
            rest.push(joined_one(s, label_for(labels, s.payee@)))
        } else {
            rest
        }
    }
}

/// Joins a detected series with its label row, if there is one.
pub fn join_label(series: Series, lbl: Option<&RecurringLabel>) -> (r: LabeledSeries)
    ensures
        r == joined_one(
            series,
            match lbl {
                Some(l) => Some(*l),
                None => None,
            },
        ),
{
    match lbl {
        Some(l) => LabeledSeries {
            label: clone_opt(&l.label),
            display_name: clone_opt(&l.display_name),
            confirmed_at: Some(l.confirmed_at),
            series,
        },
        None => LabeledSeries { label: None, display_name: None, confirmed_at: None, series },
    }
}

fn find_label<'a>(labels: &'a Vec<RecurringLabel>, key: &str) -> (r: Option<&'a RecurringLabel>)
    ensures
        match r {
            Some(l) => label_for(labels@, key@) == Some(*l),
            None => label_for(labels@, key@) is None,
        },
{
    let mut i: usize = labels.len();
    assert(labels@.take(i as int) == labels@);
    while i > 0
        invariant
            i <= labels.len(),
            label_for(labels@, key@) == label_for(labels@.take(i as int), key@),
        decreases i,
    {
        assert(labels@.take(i as int).drop_last() == labels@.take(i - 1));
        if str_eq(labels[i - 1].match_key.as_str(), key) {
            return Some(&labels[i - 1]);
        }
        i = i - 1;
    }
    None
}

/// The detected series with their labels, in order: the ignored ones, or the others.
pub fn join_series(detected: &Vec<Series>, labels: &Vec<RecurringLabel>, ignored: bool) -> (r: Vec<
    LabeledSeries,
>)
    ensures
        r@ == joined(detected@, labels@, ignored),
{
    let mut out: Vec<LabeledSeries> = Vec::new();
    let mut i: usize = 0;
    while i < detected.len()
        invariant
            i <= detected.len(),
            out@ == joined(detected@.take(i as int), labels@, ignored),
        decreases detected.len() - i,
    {
        assert(detected@.take(i + 1).drop_last() == detected@.take(i as int));
        let lbl: Option<&RecurringLabel> = find_label(labels, detected[i].payee.as_str());
        let hidden: bool = match lbl {
            Some(l) => match &l.label {
                Some(w) => str_eq(w.as_str(), SeriesLabel::Ignore.as_str()),
                None => false,
            },
            None => false,
        };
        if hidden == ignored {
            out.push(join_label(detected[i].clone(), lbl));
        }
        i = i + 1;
    }
    assert(detected@.take(detected@.len() as int) == detected@);
    out
}

/// The transactions that took money out.
pub open spec fn outflows(rows: Seq<Transaction>) -> Seq<Transaction>
    decreases rows.len(),
{
    if rows.len() == 0 {
        rows
    } else if rows.last().amount_cents.0 < 0 {
        outflows(rows.drop_last()).push(rows.last())
    } else {
        outflows(rows.drop_last())
    }
}

/// What detection reads of the outflows; a missing description counts as empty.
pub open spec fn are_charges(txns: Seq<Txn>, rows: Seq<Transaction>) -> bool {
    let out = outflows(rows);
    &&& txns.len() == out.len()
    &&& forall|i: int|
        0 <= i < txns.len() ==> {
            &&& (#[trigger] txns[i]).posted_at == out[i].posted_at
            &&& txns[i].amount_cents == out[i].amount_cents.0
            &&& txns[i].description@ == match out[i].description {
                Some(d) => d@,
                None => Seq::<char>::empty(),
            }
        }
}

/// The charges among the transactions: the outflows only.
pub fn charges(rows: &Vec<Transaction>) -> (r: Vec<Txn>)
    ensures
        are_charges(r@, rows@),
{
    let mut out: Vec<Txn> = Vec::new();
    let mut i: usize = 0;
    while i < rows.len()
        invariant
            i <= rows.len(),
            are_charges(out@, rows@.take(i as int)),
        decreases rows.len() - i,
    {
        assert(rows@.take(i + 1).drop_last() == rows@.take(i as int));
        let t: &Transaction = &rows[i];
        if t.amount_cents.as_i64() < 0 {
            let description: String = match &t.description {
                Some(d) => d.clone(),
                None => String::new(),
            };
            out.push(Txn { posted_at: t.posted_at, amount_cents: t.amount_cents.0, description });
        }
        i = i + 1;
    }
    assert(rows@.take(rows@.len() as int) == rows@);
    out
}

/// The labelled (or the ignored) series of a transaction history.
pub open spec fn is_listing(
    out: Seq<LabeledSeries>,
    rows: Seq<Transaction>,
    labels: Seq<RecurringLabel>,
    min_occurrences: nat,
    ignored: bool,
) -> bool {
    exists|txns: Seq<Txn>, detected: Seq<Series>|
        #![trigger is_detection(detected, txns, min_occurrences)]
        are_charges(txns, rows) && is_detection(detected, txns, min_occurrences) && out == joined(
            detected,
            labels,
            ignored,
        )
}

/// The arithmetic on every payee's history stays within 64 bits.
pub open spec fn rows_in_range(rows: Seq<Transaction>, min_occurrences: nat) -> bool {
    forall|txns: Seq<Txn>| #[trigger]
        are_charges(txns, rows) ==> all_in_range(txns, min_occurrences)
}

/// Charges that say the same: the same instants and amounts, and the same words.
spec fn alike(a: Seq<Txn>, b: Seq<Txn>) -> bool {
    &&& a.len() == b.len()
    &&& forall|i: int|
        0 <= i < a.len() ==> {
            &&& (#[trigger] a[i]).posted_at == b[i].posted_at
            &&& a[i].amount_cents == b[i].amount_cents
            &&& a[i].description@ == b[i].description@
        }
}

proof fn lemma_charges_alike(a: Seq<Txn>, b: Seq<Txn>, key: Seq<char>)
    requires
        alike(a, b),
    ensures
        alike(charges_with(a, key), charges_with(b, key)),
    decreases a.len(),
{
    if a.len() > 0 {
        let n = a.len() - 1;
        assert(a[n].description@ == b[n].description@);
        assert forall|i: int| 0 <= i < n implies (#[trigger] a.drop_last()[i]).posted_at
            == b.drop_last()[i].posted_at && a.drop_last()[i].amount_cents
            == b.drop_last()[i].amount_cents && a.drop_last()[i].description@
            == b.drop_last()[i].description@ by {
            assert(a[i].posted_at == b[i].posted_at);
        }
        lemma_charges_alike(a.drop_last(), b.drop_last(), key);
    }
}

proof fn lemma_sums_alike(a: Seq<Txn>, b: Seq<Txn>)
    requires
        alike(a, b),
    ensures
        amount_sum(a) == amount_sum(b),
    decreases a.len(),
{
    if a.len() > 0 {
        let n = a.len() - 1;
        assert(a[n].amount_cents == b[n].amount_cents);
        assert(alike(a.drop_last(), b.drop_last())) by {
            assert forall|i: int| 0 <= i < n implies (#[trigger] a.drop_last()[i]).posted_at
                == b.drop_last()[i].posted_at && a.drop_last()[i].amount_cents
                == b.drop_last()[i].amount_cents && a.drop_last()[i].description@
                == b.drop_last()[i].description@ by {
                assert(a[i].posted_at == b[i].posted_at);
            }
        }
        lemma_sums_alike(a.drop_last(), b.drop_last());
    }
}

proof fn lemma_history_alike(a: Seq<Txn>, b: Seq<Txn>, key: Seq<char>)
    requires
        alike(a, b),
    ensures
        alike(history(a, key), history(b, key)),
{
    let x = charges_with(a, key);
    let y = charges_with(b, key);
    lemma_charges_alike(a, b, key);
    assert(dates(x) =~= dates(y)) by {
        assert forall|i: int| 0 <= i < x.len() implies dates(x)[i] == dates(y)[i] by {
            assert(x[i].posted_at == y[i].posted_at);
        }
    }
    law_stable_order(dates(x), x.len());
    let p = stable_order(dates(x), x.len());
    assert forall|i: int| 0 <= i < x.len() implies (#[trigger] history(a, key)[i]).posted_at
        == history(b, key)[i].posted_at && history(a, key)[i].amount_cents
        == history(b, key)[i].amount_cents && history(a, key)[i].description@ == history(
        b,
        key,
    )[i].description@ by {
        assert(0 <= p[i] < x.len());
        assert(x[p[i]].posted_at == y[p[i]].posted_at);
    }
}

proof fn lemma_range_alike(a: Seq<Txn>, b: Seq<Txn>)
    requires
        alike(a, b),
        a.len() >= 2,
        in_range(a),
    ensures
        in_range(b),
{
    assert forall|i: int, j: int| 0 <= i && j == i + 1 && j < b.len() implies (
    #[trigger] b[j]).posted_at - (#[trigger] b[i]).posted_at <= i64::MAX by {
        assert(a[j].posted_at == b[j].posted_at && a[i].posted_at == b[i].posted_at);
    }
    assert(gaps_of(a) =~= gaps_of(b)) by {
        assert forall|i: int| 0 <= i < gaps_of(a).len() implies gaps_of(a)[i] == gaps_of(b)[i] by {
            assert(a[i].posted_at == b[i].posted_at && a[i + 1].posted_at == b[i + 1].posted_at);
        }
    }
    if cadence_of(gaps_of(b)) is Some {
        assert(a[a.len() - 1].posted_at == b[b.len() - 1].posted_at);
        assert forall|k: int| 0 <= k <= b.len() implies i64::MIN <= #[trigger] amount_sum(b.take(k))
            <= i64::MAX by {
            assert(alike(a.take(k), b.take(k))) by {
                assert forall|i: int| 0 <= i < k implies (#[trigger] a.take(k)[i]).posted_at
                    == b.take(k)[i].posted_at && a.take(k)[i].amount_cents
                    == b.take(k)[i].amount_cents && a.take(k)[i].description@
                    == b.take(k)[i].description@ by {
                    assert(a[i].posted_at == b[i].posted_at);
                }
            }
            lemma_sums_alike(a.take(k), b.take(k));
            assert(i64::MIN <= amount_sum(a.take(k)) <= i64::MAX);
        }
    }
}

/// Whether a history stays within 64 bits.
fn fits(items: &Vec<Txn>) -> (r: bool)
    requires
        items@.len() >= 2,
        forall|i: int, j: int|
            0 <= i < j < items@.len() ==> (#[trigger] items@[i]).posted_at <= (
            #[trigger] items@[j]).posted_at,
    ensures
        r == in_range(items@),
{
    let n: usize = items.len();
    let mut i: usize = 1;
    while i < n
        invariant
            1 <= i <= n == items@.len(),
            forall|a: int, b: int|
                0 <= a < b < items@.len() ==> (#[trigger] items@[a]).posted_at <= (
                #[trigger] items@[b]).posted_at,
            forall|a: int, b: int|
                0 <= a && b == a + 1 && b < i ==> (#[trigger] items@[b]).posted_at - (
                #[trigger] items@[a]).posted_at <= i64::MAX,
        decreases n - i,
    {
        if items[i].posted_at.checked_sub(items[i - 1].posted_at).is_none() {
            proof {
                assert(items@[i - 1].posted_at <= items@[i as int].posted_at);
                assert(items@[i as int].posted_at - items@[i - 1].posted_at > i64::MAX);
            }
            return false;
        }
        i = i + 1;
    }
    let gaps: Vec<i64> = gaps_between(items);
    let cadence: Cadence = match classify(&gaps) {
        Some(c) => c,
        None => {
            return true;
        },
    };
    let step: i64 = cadence.period_days() * DAY_SECS;
    if items[n - 1].posted_at > i64::MAX - step {
        return false;
    }
    let mut total: i64 = 0;
    i = 0;
    assert(items@.take(0) =~= Seq::<Txn>::empty());
    while i < n
        invariant
            i <= n == items@.len(),
            total == amount_sum(items@.take(i as int)),
            cadence_of(gaps_of(items@)) is Some,
            forall|k: int|
                0 <= k <= i ==> i64::MIN <= #[trigger] amount_sum(items@.take(k)) <= i64::MAX,
        decreases n - i,
    {
        assert(items@.take(i + 1).drop_last() =~= items@.take(i as int));
        match total.checked_add(items[i].amount_cents) {
            Some(t) => {
                total = t;
            },
            None => {
                assert(!(i64::MIN <= amount_sum(items@.take(i + 1)) <= i64::MAX));
                return false;
            },
        }
        i = i + 1;
    }
    true
}

/// Whether the arithmetic on every payee's history stays within 64 bits.
pub fn can_detect(txns: &[Txn], min_occurrences: usize) -> (r: bool)
    ensures
        r == all_in_range(txns@, min_occurrences as nat),
{
    let ghost min = min_occurrences as nat;
    let keys: Vec<String> = keys_of(txns);
    let mut i: usize = 0;
    while i < txns.len()
        invariant
            min == min_occurrences as nat,
            i <= txns.len(),
            keys@.len() == txns@.len(),
            forall|k: int|
                0 <= k < keys@.len() ==> (#[trigger] keys@[k])@ == normalized(
                    txns@[k].description@,
                ),
            forall|k: int|
                0 <= k < i && (#[trigger] keys@[k])@.len() > 0 && history(txns@, keys@[k]@).len()
                    >= floor_of(min) ==> in_range(history(txns@, keys@[k]@)),
        decreases txns.len() - i,
    {
        if !keys[i].as_str().is_empty() {
            let items: Vec<Txn> = history_of(txns, &keys, &keys[i]);
            if items.len() >= min_occurrences && items.len() >= 2 {
                assert forall|a: int, b: int| 0 <= a < b < items@.len() implies (
                #[trigger] items@[a]).posted_at <= (#[trigger] items@[b]).posted_at by {
                    lemma_history_sorted(txns@, keys@[i as int]@, a, b);
                }
                if !fits(&items) {
                    return false;
                }
            }
        }
        i = i + 1;
    }
    assert forall|key: Seq<char>|
        key.len() > 0 && (#[trigger] history(txns@, key)).len() >= floor_of(min) implies in_range(
        history(txns@, key),
    ) by {
        if forall|j: int| 0 <= j < txns@.len() ==> normalized((#[trigger] txns@[j]).description@)
            != key {
            lemma_charges_absent(txns@, key);
            lemma_history_len(txns@, key);
        }
        let j = choose|j: int|
            0 <= j < txns@.len() && normalized((#[trigger] txns@[j]).description@) == key;
        assert(keys@[j]@ == key);
    }
    true
}

/// Detects the recurring series, unless the arithmetic on a payee's history would leave
/// 64 bits.
pub fn try_detect(txns: &[Txn], min_occurrences: usize) -> (r: Option<Vec<Series>>)
    ensures
        r is Some == all_in_range(txns@, min_occurrences as nat),
        r is Some ==> is_detection(r->0@, txns@, min_occurrences as nat),
{
    if can_detect(txns, min_occurrences) {
        Some(detect(txns, min_occurrences))
    } else {
        None
    }
}

/// Whether the arithmetic on every payee's history stays within 64 bits.
pub fn can_list(rows: &Vec<Transaction>, min_occurrences: usize) -> (r: bool)
    ensures
        r == rows_in_range(rows@, min_occurrences as nat),
{
    let txns: Vec<Txn> = charges(rows);
    let r: bool = can_detect(txns.as_slice(), min_occurrences);
    proof {
        let min = min_occurrences as nat;
        if r {
            assert forall|other: Seq<Txn>| #[trigger] are_charges(other, rows@) implies all_in_range(
                other,
                min,
            ) by {
                assert(alike(txns@, other));
                assert forall|key: Seq<char>|
                    key.len() > 0 && (#[trigger] history(other, key)).len() >= floor_of(
                        min,
                    ) implies in_range(history(other, key)) by {
                    lemma_history_alike(txns@, other, key);
                    assert(history(txns@, key).len() >= floor_of(min));
                    lemma_range_alike(history(txns@, key), history(other, key));
                }
            }
        } else {
            assert(are_charges(txns@, rows@));
        }
    }
    r
}

/// The recurring series of the outflows with the operator's labels, without those that
/// the operator ignores. The one source for lists, calendar and report.
pub fn labeled_series(
    rows: &Vec<Transaction>,
    labels: &Vec<RecurringLabel>,
    min_occurrences: usize,
) -> (r: Vec<LabeledSeries>)
    requires
        rows_in_range(rows@, min_occurrences as nat),
    ensures
        is_listing(r@, rows@, labels@, min_occurrences as nat, false),
{
    let txns: Vec<Txn> = charges(rows);
    let detected: Vec<Series> = detect(txns.as_slice(), min_occurrences);
    join_series(&detected, labels, false)
}

/// The recurring series that the operator ignores.
pub fn ignored_series(
    rows: &Vec<Transaction>,
    labels: &Vec<RecurringLabel>,
    min_occurrences: usize,
) -> (r: Vec<LabeledSeries>)
    requires
        rows_in_range(rows@, min_occurrences as nat),
    ensures
        is_listing(r@, rows@, labels@, min_occurrences as nat, true),
{
    let txns: Vec<Txn> = charges(rows);
    let detected: Vec<Series> = detect(txns.as_slice(), min_occurrences);
    join_series(&detected, labels, true)
}

/// Each detected series is either listed or ignored, never both: together the two lists
/// hold every series once, the ignored list only ignored ones and the other none.
pub proof fn law_listed_or_ignored(detected: Seq<Series>, labels: Seq<RecurringLabel>)
    ensures
        joined(detected, labels, false).len() + joined(detected, labels, true).len()
            == detected.len(),
        forall|i: int|
            0 <= i < joined(detected, labels, false).len() ==> !is_ignored(
                labels,
                (#[trigger] joined(detected, labels, false)[i]).series.payee@,
            ),
        forall|i: int|
            0 <= i < joined(detected, labels, true).len() ==> is_ignored(
                labels,
                (#[trigger] joined(detected, labels, true)[i]).series.payee@,
            ) && opt_text(joined(detected, labels, true)[i].label) == Some("ignore"@),
        forall|i: int|
            0 <= i < joined(detected, labels, false).len() ==> opt_text(
                (#[trigger] joined(detected, labels, false)[i]).label,
            ) != Some("ignore"@),
        forall|i: int|
            0 <= i < detected.len() ==> joined(
                detected,
                labels,
                is_ignored(labels, detected[i].payee@),
            ).contains(#[trigger] joined_one(detected[i], label_for(labels, detected[i].payee@))),
    decreases detected.len(),
{
    if detected.len() > 0 {
        let d = detected.drop_last();
        law_listed_or_ignored(d, labels);
        let s = detected.last();
        let row = joined_one(s, label_for(labels, s.payee@));
        let ign = is_ignored(labels, s.payee@);
        let a = joined(d, labels, ign);
        assert(joined(detected, labels, ign) == a.push(row));
        assert(joined(detected, labels, ign)[a.len() as int] == row);
        assert forall|i: int| 0 <= i < detected.len() implies joined(
            detected,
            labels,
            is_ignored(labels, detected[i].payee@),
        ).contains(#[trigger] joined_one(detected[i], label_for(labels, detected[i].payee@))) by {
            if i < d.len() {
                let one = joined_one(d[i], label_for(labels, d[i].payee@));
                let which = is_ignored(labels, d[i].payee@);
                assert(joined(d, labels, which).contains(one));
                let k = choose|k: int| 0 <= k < joined(d, labels, which).len() && joined(d, labels, which)[k] == one;
                assert(joined(detected, labels, which)[k] == one);
            }
        }
    }
}

/// Listing keeps the order of detection: the soonest due first.
pub proof fn law_listing_is_soonest_first(
    detected: Seq<Series>,
    labels: Seq<RecurringLabel>,
    ignored: bool,
)
    requires
        forall|i: int, j: int|
            0 <= i < j < detected.len() ==> due_before(
                #[trigger] detected[i],
                #[trigger] detected[j],
            ),
    ensures
        forall|i: int, j: int|
            0 <= i < j < joined(detected, labels, ignored).len() ==> due_before(
                (#[trigger] joined(detected, labels, ignored)[i]).series,
                (#[trigger] joined(detected, labels, ignored)[j]).series,
            ),
        forall|i: int|
            0 <= i < joined(detected, labels, ignored).len() ==> detected.contains(
                (#[trigger] joined(detected, labels, ignored)[i]).series,
            ),
    decreases detected.len(),
{
    if detected.len() > 0 {
        let d = detected.drop_last();
        law_listing_is_soonest_first(d, labels, ignored);
        let a = joined(d, labels, ignored);
        let b = joined(detected, labels, ignored);
        let s = detected.last();
        assert forall|i: int| 0 <= i < b.len() implies detected.contains((#[trigger] b[i]).series) by {
            if i < a.len() {
                assert(d.contains(a[i].series));
                let k = choose|k: int| 0 <= k < d.len() && d[k] == a[i].series;
                assert(detected[k] == b[i].series);
            } else {
                assert(detected[detected.len() - 1] == s);
            }
        }
        assert forall|i: int, j: int| 0 <= i < j < b.len() implies due_before(
            (#[trigger] b[i]).series,
            (#[trigger] b[j]).series,
        ) by {
            assert(a[i].series == b[i].series);
            if j >= a.len() {
                assert(d.contains(a[i].series));
                let k = choose|k: int| 0 <= k < d.len() && d[k] == a[i].series;
                assert(due_before(detected[k], detected[detected.len() - 1]));
            } else {
                assert(due_before(a[i].series, a[j].series));
            }
        }
    }
}

/// Detection lists the soonest due first, no payee twice, and no payee with fewer charges
/// than asked for.
pub proof fn law_soonest_due_first(out: Seq<Series>, txns: Seq<Txn>, min_occurrences: nat)
    requires
        is_detection(out, txns, min_occurrences),
    ensures
        forall|i: int, j: int|
            0 <= i < j < out.len() ==> (#[trigger] out[i]).predicted_next <= (
            #[trigger] out[j]).predicted_next,
        forall|i: int, j: int|
            0 <= i < j < out.len() ==> (#[trigger] out[i]).payee@ != (#[trigger] out[j]).payee@,
        forall|i: int| 0 <= i < out.len() ==> (#[trigger] out[i]).count >= floor_of(min_occurrences),
{
    assert forall|i: int, j: int| 0 <= i < j < out.len() implies (#[trigger] out[i]).payee@ != (
    #[trigger] out[j]).payee@ by {
        assert(due_before(out[i], out[j]));
        if out[i].payee@ == out[j].payee@ {
            assert(is_series(out[i], txns, min_occurrences) && is_series(out[j], txns, min_occurrences));
            crate::text::lemma_lex_irreflexive(out[i].payee@);
        }
    }
    assert forall|i: int| 0 <= i < out.len() implies (#[trigger] out[i]).count >= floor_of(
        min_occurrences,
    ) by {
        assert(is_series(out[i], txns, min_occurrences));
    }
}

// ---------------------------------------------------------------------------
// Laws over several detections
// ---------------------------------------------------------------------------

/// Whether two series say the same.
pub open spec fn same_series(a: Series, b: Series) -> bool {
    &&& a.payee@ == b.payee@
    &&& a.display@ == b.display@
    &&& a.cadence == b.cadence
    &&& a.count == b.count
    &&& a.first_seen == b.first_seen
    &&& a.last_seen == b.last_seen
    &&& a.last_amount == b.last_amount
    &&& a.min_amount == b.min_amount
    &&& a.max_amount == b.max_amount
    &&& a.avg_amount == b.avg_amount
    &&& a.predicted_next == b.predicted_next
}

/// Whether two lists of series say the same, row by row.
pub open spec fn same_list(a: Seq<Series>, b: Seq<Series>) -> bool {
    &&& a.len() == b.len()
    &&& forall|i: int| 0 <= i < a.len() ==> same_series(#[trigger] a[i], b[i])
}

/// Whether a list is in the order of detection.
pub open spec fn in_due_order(out: Seq<Series>) -> bool {
    forall|i: int, j: int|
        0 <= i < j < out.len() ==> due_before(#[trigger] out[i], #[trigger] out[j])
}

/// Whether every series of a list is in another.
spec fn covered(a: Seq<Series>, b: Seq<Series>) -> bool {
    forall|i: int| 0 <= i < a.len() ==> has_same(b, #[trigger] a[i])
}

#[verifier::opaque]
spec fn has_same(b: Seq<Series>, s: Series) -> bool {
    exists|j: int| 0 <= j < b.len() && same_series(s, #[trigger] b[j])
}

proof fn lemma_has_same(b: Seq<Series>, s: Series, j: int)
    requires
        0 <= j < b.len(),
        same_series(s, b[j]),
    ensures
        has_same(b, s),
{
    reveal(has_same);
}

proof fn lemma_place_of(b: Seq<Series>, s: Series) -> (j: int)
    requires
        has_same(b, s),
    ensures
        0 <= j < b.len(),
        same_series(s, b[j]),
{
    reveal(has_same);
    choose|j: int| 0 <= j < b.len() && same_series(s, #[trigger] b[j])
}

/// A payee's history makes one series, whatever list it was found in.
proof fn lemma_series_determined(
    a: Series,
    x: Seq<Txn>,
    m: nat,
    b: Series,
    y: Seq<Txn>,
    n: nat,
)
    requires
        is_series(a, x, m),
        is_series(b, y, n),
        a.payee@ == b.payee@,
        alike(history(x, a.payee@), history(y, a.payee@)),
    ensures
        same_series(a, b),
{
    let h = history(x, a.payee@);
    let k = history(y, a.payee@);
    assert(h.len() >= 2);
    assert(gaps_of(h) =~= gaps_of(k)) by {
        assert forall|i: int| 0 <= i < gaps_of(h).len() implies gaps_of(h)[i] == gaps_of(k)[i] by {
            assert(h[i].posted_at == k[i].posted_at && h[i + 1].posted_at == k[i + 1].posted_at);
        }
    }
    lemma_sums_alike(h, k);
    assert(h[0].posted_at == k[0].posted_at);
    assert(h[h.len() - 1].posted_at == k[k.len() - 1].posted_at);
    let i = choose|i: int| 0 <= i < h.len() && (#[trigger] h[i]).amount_cents == a.min_amount.0;
    let j = choose|j: int| 0 <= j < k.len() && (#[trigger] k[j]).amount_cents == b.min_amount.0;
    assert(h[i].amount_cents == k[i].amount_cents && h[j].amount_cents == k[j].amount_cents);
    let i = choose|i: int| 0 <= i < h.len() && (#[trigger] h[i]).amount_cents == a.max_amount.0;
    let j = choose|j: int| 0 <= j < k.len() && (#[trigger] k[j]).amount_cents == b.max_amount.0;
    assert(h[i].amount_cents == k[i].amount_cents && h[j].amount_cents == k[j].amount_cents);
}

proof fn lemma_due_asymmetric(a: Series, b: Series)
    requires
        due_before(a, b),
    ensures
        !due_before(b, a),
        !same_series(a, b),
{
    crate::text::lemma_lex_irreflexive(a.payee@);
    if due_before(b, a) {
        lemma_lex_transitive(a.payee@, b.payee@, a.payee@);
    }
}

proof fn lemma_order_of_rest(out: Seq<Series>)
    requires
        in_due_order(out),
        out.len() > 0,
    ensures
        in_due_order(out.drop_last()),
{
    let d = out.drop_last();
    assert forall|i: int, j: int| 0 <= i < j < d.len() implies due_before(
        #[trigger] d[i],
        #[trigger] d[j],
    ) by {
        assert(due_before(out[i], out[j]));
    }
}

/// The last of two lists in order with the same series say the same.
proof fn lemma_last_is_same(a: Seq<Series>, b: Seq<Series>)
    requires
        in_due_order(a),
        in_due_order(b),
        covered(a, b),
        covered(b, a),
        a.len() > 0,
        b.len() > 0,
    ensures
        same_series(a.last(), b.last()),
{
    let n = a.len() - 1;
    let m = b.len() - 1;
    assert(has_same(b, a[n]));
    let j = lemma_place_of(b, a[n]);
    assert(has_same(a, b[m]));
    let i = lemma_place_of(a, b[m]);
    if j < m {
        assert(due_before(b[j], b[m]));
        lemma_due_asymmetric(b[j], b[m]);
        if i < n {
            assert(due_before(a[i], a[n]));
        }
        assert(false);
    }
}

proof fn lemma_rest_is_covered(a: Seq<Series>, b: Seq<Series>)
    requires
        in_due_order(a),
        covered(a, b),
        a.len() > 0,
        b.len() > 0,
        same_series(a.last(), b.last()),
    ensures
        covered(a.drop_last(), b.drop_last()),
{
    let x = a.drop_last();
    let y = b.drop_last();
    assert forall|p: int| 0 <= p < x.len() implies has_same(y, #[trigger] x[p]) by {
        assert(has_same(b, a[p]));
        let q = lemma_place_of(b, a[p]);
        assert(due_before(a[p], a[a.len() - 1]));
        lemma_due_asymmetric(a[p], a[a.len() - 1]);
        assert(q < b.len() - 1);
        lemma_has_same(y, x[p], q);
    }
}

/// Two lists in order with the same series are the same list.
proof fn lemma_same_rows_same_list(a: Seq<Series>, b: Seq<Series>)
    requires
        in_due_order(a),
        in_due_order(b),
        covered(a, b),
        covered(b, a),
    ensures
        same_list(a, b),
    decreases a.len(),
{
    if a.len() == 0 {
        if b.len() > 0 {
            let i = lemma_place_of(a, b[0]);
        }
    } else {
        let j = lemma_place_of(b, a[0]);
        lemma_last_is_same(a, b);
        lemma_order_of_rest(a);
        lemma_order_of_rest(b);
        lemma_rest_is_covered(a, b);
        lemma_rest_is_covered(b, a);
        let x = a.drop_last();
        let y = b.drop_last();
        lemma_same_rows_same_list(x, y);
        assert forall|p: int| 0 <= p < a.len() implies same_series(#[trigger] a[p], b[p]) by {
            if p < x.len() {
                assert(same_series(x[p], y[p]));
            }
        }
    }
}

/// Detections of charges with the same histories cover each other.
proof fn lemma_covered(
    a: Seq<Series>,
    x: Seq<Txn>,
    b: Seq<Series>,
    y: Seq<Txn>,
    min_occurrences: nat,
)
    requires
        is_detection(a, x, min_occurrences),
        is_detection(b, y, min_occurrences),
        forall|key: Seq<char>| key.len() > 0 ==> alike(#[trigger] history(x, key), history(y, key)),
    ensures
        covered(a, b),
{
    assert forall|i: int| 0 <= i < a.len() implies has_same(b, #[trigger] a[i]) by {
        let s = a[i];
        assert(is_series(s, x, min_occurrences));
        let h = history(x, s.payee@);
        let k = history(y, s.payee@);
        assert(alike(h, k));
        assert(gaps_of(h) =~= gaps_of(k)) by {
            assert forall|i: int| 0 <= i < gaps_of(h).len() implies gaps_of(h)[i] == gaps_of(
                k,
            )[i] by {
                assert(h[i].posted_at == k[i].posted_at && h[i + 1].posted_at == k[i
                    + 1].posted_at);
            }
        }
        assert(recurs(y, s.payee@, min_occurrences) is Some);
        let j = choose|j: int| 0 <= j < b.len() && (#[trigger] b[j]).payee@ == s.payee@;
        assert(is_series(b[j], y, min_occurrences));
        lemma_series_determined(s, x, min_occurrences, b[j], y, min_occurrences);
        lemma_has_same(b, a[i], j);
    }
}

proof fn lemma_alike_symmetric(a: Seq<Txn>, b: Seq<Txn>)
    requires
        alike(a, b),
    ensures
        alike(b, a),
{
    assert forall|i: int| 0 <= i < b.len() implies (#[trigger] b[i]).posted_at == a[i].posted_at
        && b[i].amount_cents == a[i].amount_cents && b[i].description@ == a[i].description@ by {
        assert(a[i].posted_at == b[i].posted_at);
    }
}

proof fn lemma_same_histories_same_list(
    a: Seq<Series>,
    x: Seq<Txn>,
    b: Seq<Series>,
    y: Seq<Txn>,
    min_occurrences: nat,
)
    requires
        is_detection(a, x, min_occurrences),
        is_detection(b, y, min_occurrences),
        forall|key: Seq<char>| key.len() > 0 ==> alike(#[trigger] history(x, key), history(y, key)),
    ensures
        same_list(a, b),
{
    assert forall|key: Seq<char>| key.len() > 0 implies alike(
        #[trigger] history(y, key),
        history(x, key),
    ) by {
        assert(alike(history(x, key), history(y, key)));
        lemma_alike_symmetric(history(x, key), history(y, key));
    }
    lemma_covered(a, x, b, y, min_occurrences);
    lemma_covered(b, y, a, x, min_occurrences);
    lemma_same_rows_same_list(a, b);
}

/// Two detections of the charges of the same transactions agree.
pub proof fn law_detection_is_determined(
    a: Seq<Series>,
    x: Seq<Txn>,
    b: Seq<Series>,
    y: Seq<Txn>,
    rows: Seq<Transaction>,
    min_occurrences: nat,
)
    requires
        are_charges(x, rows),
        are_charges(y, rows),
        is_detection(a, x, min_occurrences),
        is_detection(b, y, min_occurrences),
    ensures
        same_list(a, b),
{
    assert(alike(x, y));
    assert forall|key: Seq<char>| key.len() > 0 implies alike(
        #[trigger] history(x, key),
        history(y, key),
    ) by {
        lemma_history_alike(x, y, key);
    }
    lemma_same_histories_same_list(a, x, b, y, min_occurrences);
}

proof fn lemma_kept_in_order(out: Seq<Series>, p: spec_fn(Series) -> bool)
    requires
        in_due_order(out),
    ensures
        in_due_order(kept(out, p)),
    decreases out.len(),
{
    if out.len() > 0 {
        let d = out.drop_last();
        lemma_order_of_rest(out);
        lemma_kept_in_order(d, p);
        lemma_kept_from(d, p);
        let k = kept(d, p);
        let all = kept(out, p);
        assert forall|i: int, j: int| 0 <= i < j < all.len() implies due_before(
            #[trigger] all[i],
            #[trigger] all[j],
        ) by {
            assert(all[i] == k[i]);
            if j < k.len() {
                assert(all[j] == k[j]);
            } else {
                assert(d.contains(k[i]));
                let q = choose|q: int| 0 <= q < d.len() && d[q] == k[i];
                assert(due_before(out[q], out[out.len() - 1]));
            }
        }
    }
}

/// A higher floor on the occurrences gives the part of the list that has so many, in its
/// order. Below two the floor is two, so that a floor of none, one or two gives the same list.
pub proof fn law_higher_floor(
    x: Seq<Series>,
    y: Seq<Series>,
    txns: Seq<Txn>,
    low: nat,
    high: nat,
)
    requires
        low <= high,
        is_detection(x, txns, low),
        is_detection(y, txns, high),
    ensures
        same_list(kept(x, |s: Series| s.count >= high), y),
        high <= 2 ==> same_list(x, y),
{
    let p = |s: Series| s.count >= high;
    let z = kept(x, p);
    lemma_kept(x, p);
    lemma_kept_from(x, p);
    lemma_kept_in_order(x, p);
    assert forall|key: Seq<char>| alike(#[trigger] history(txns, key), history(txns, key)) by {}
    assert(covered(z, y)) by {
        assert forall|i: int| 0 <= i < z.len() implies has_same(y, #[trigger] z[i]) by {
            let s = z[i];
            assert(p(z[i]));
            assert(x.contains(z[i]));
            assert(is_series(s, txns, low));
            assert(recurs(txns, s.payee@, high) is Some);
            let j = choose|j: int| 0 <= j < y.len() && (#[trigger] y[j]).payee@ == s.payee@;
            assert(is_series(y[j], txns, high));
            assert(alike(history(txns, s.payee@), history(txns, s.payee@)));
            lemma_series_determined(s, txns, low, y[j], txns, high);
            lemma_has_same(y, z[i], j);
        }
    }
    assert(covered(y, z)) by {
        assert forall|i: int| 0 <= i < y.len() implies has_same(z, #[trigger] y[i]) by {
            let s = y[i];
            assert(is_series(s, txns, high));
            assert(recurs(txns, s.payee@, low) is Some);
            let j = choose|j: int| 0 <= j < x.len() && (#[trigger] x[j]).payee@ == s.payee@;
            assert(is_series(x[j], txns, low));
            assert(alike(history(txns, s.payee@), history(txns, s.payee@)));
            lemma_series_determined(s, txns, high, x[j], txns, low);
            assert(p(x[j]));
            let k = choose|k: int| 0 <= k < z.len() && z[k] == x[j];
            lemma_has_same(z, y[i], k);
        }
    }
    lemma_same_rows_same_list(z, y);
    if high <= 2 {
        assert forall|i: int| 0 <= i < x.len() implies p(#[trigger] x[i]) by {
            assert(is_series(x[i], txns, low));
        }
        lemma_kept_all(x, p);
    }
}

/// Whether no payee has two charges at one instant.
pub open spec fn no_ties(txns: Seq<Txn>) -> bool {
    forall|i: int, j: int|
        0 <= i < j < txns.len() && normalized((#[trigger] txns[i]).description@) == normalized(
            (#[trigger] txns[j]).description@,
        ) ==> txns[i].posted_at != txns[j].posted_at
}

pub proof fn lemma_counted_twice<T>(s: Seq<T>, i: int, j: int)
    requires
        0 <= i < j < s.len(),
        s[i] == s[j],
    ensures
        s.to_multiset().count(s[i]) >= 2,
    decreases s.len(),
{
    broadcast use vstd::multiset::group_multiset_axioms;

    let d = s.drop_last();
    assert(d.push(s.last()) =~= s);
    d.to_multiset_ensures();
    assert(s.to_multiset() =~= d.to_multiset().insert(s.last()));
    if j == s.len() - 1 {
        assert(d[i] == s[i]);
        assert(d.contains(s[i]));
    } else {
        lemma_counted_twice(d, i, j);
        assert(d[i] == s[i]);
    }
}

pub proof fn lemma_two_places<T>(s: Seq<T>, x: T)
    requires
        s.to_multiset().count(x) >= 2,
    ensures
        exists|i: int, j: int| 0 <= i < j < s.len() && #[trigger] s[i] == x && #[trigger] s[j] == x,
    decreases s.len(),
{
    broadcast use vstd::multiset::group_multiset_axioms;

    s.to_multiset_ensures();
    if s.len() == 0 {
        assert(s.contains(x));
    } else {
        let d = s.drop_last();
        assert(d.push(s.last()) =~= s);
        d.to_multiset_ensures();
        assert(s.to_multiset() =~= d.to_multiset().insert(s.last()));
        if s.last() == x {
            assert(d.to_multiset().count(x) >= 1);
            assert(d.contains(x));
            let i = choose|i: int| 0 <= i < d.len() && d[i] == x;
            assert(s[i] == x && s[s.len() - 1] == x);
        } else {
            lemma_two_places(d, x);
            let (i, j) = choose|i: int, j: int|
                0 <= i < j < d.len() && #[trigger] d[i] == x && #[trigger] d[j] == x;
            assert(s[i] == x && s[j] == x);
        }
    }
}

proof fn lemma_ties_travel(a: Seq<Txn>, b: Seq<Txn>)
    requires
        a.to_multiset() == b.to_multiset(),
        no_ties(a),
    ensures
        no_ties(b),
{
    a.to_multiset_ensures();
    b.to_multiset_ensures();
    assert forall|i: int, j: int|
        0 <= i < j < b.len() && normalized((#[trigger] b[i]).description@) == normalized(
            (#[trigger] b[j]).description@,
        ) implies b[i].posted_at != b[j].posted_at by {
        if b[i] == b[j] {
            lemma_counted_twice(b, i, j);
            lemma_two_places(a, b[i]);
            let (p, q) = choose|p: int, q: int|
                0 <= p < q < a.len() && #[trigger] a[p] == b[i] && #[trigger] a[q] == b[i];
            assert(a[p].posted_at != a[q].posted_at);
        } else {
            assert(b.contains(b[i]) && b.contains(b[j]));
            assert(a.to_multiset().count(b[i]) > 0 && a.to_multiset().count(b[j]) > 0);
            let p = choose|p: int| 0 <= p < a.len() && a[p] == b[i];
            let q = choose|q: int| 0 <= q < a.len() && a[q] == b[j];
            if p < q {
                assert(a[p].posted_at != a[q].posted_at);
            } else {
                assert(a[q].posted_at != a[p].posted_at);
            }
        }
    }
}

/// The charges of a payee are those among all charges that have its key.
proof fn lemma_charges_are_those(txns: Seq<Txn>, key: Seq<char>)
    ensures
        forall|k: int|
            0 <= k < charges_with(txns, key).len() ==> txns.contains(
                #[trigger] charges_with(txns, key)[k],
            ) && normalized(charges_with(txns, key)[k].description@) == key,
        forall|i: int|
            0 <= i < txns.len() && normalized((#[trigger] txns[i]).description@) == key
                ==> charges_with(txns, key).contains(txns[i]),
    decreases txns.len(),
{
    if txns.len() > 0 {
        let d = txns.drop_last();
        lemma_charges_are_those(d, key);
        let c = charges_with(d, key);
        let all = charges_with(txns, key);
        assert forall|k: int| 0 <= k < all.len() implies txns.contains(#[trigger] all[k])
            && normalized(all[k].description@) == key by {
            if k < c.len() {
                assert(all[k] == c[k]);
                let i = choose|i: int| 0 <= i < d.len() && d[i] == c[k];
                assert(txns[i] == all[k]);
            } else {
                assert(txns[txns.len() - 1] == all[k]);
            }
        }
        assert forall|i: int|
            0 <= i < txns.len() && normalized((#[trigger] txns[i]).description@) == key implies all.contains(
            txns[i],
        ) by {
            if i < d.len() {
                assert(d[i] == txns[i]);
                let k = choose|k: int| 0 <= k < c.len() && c[k] == txns[i];
                assert(all[k] == txns[i]);
            } else {
                assert(all[c.len() as int] == txns[i]);
            }
        }
    }
}

proof fn lemma_charges_apart(txns: Seq<Txn>, key: Seq<char>)
    requires
        no_ties(txns),
    ensures
        forall|k: int, l: int|
            0 <= k < l < charges_with(txns, key).len() ==> (#[trigger] charges_with(
                txns,
                key,
            )[k]).posted_at != (#[trigger] charges_with(txns, key)[l]).posted_at,
    decreases txns.len(),
{
    if txns.len() > 0 {
        let d = txns.drop_last();
        assert(no_ties(d)) by {
            assert forall|i: int, j: int|
                0 <= i < j < d.len() && normalized((#[trigger] d[i]).description@) == normalized(
                    (#[trigger] d[j]).description@,
                ) implies d[i].posted_at != d[j].posted_at by {
                assert(txns[i].posted_at != txns[j].posted_at);
            }
        }
        lemma_charges_apart(d, key);
        lemma_charges_are_those(d, key);
        let c = charges_with(d, key);
        let all = charges_with(txns, key);
        assert forall|k: int, l: int| 0 <= k < l < all.len() implies (
        #[trigger] all[k]).posted_at != (#[trigger] all[l]).posted_at by {
            assert(all[k] == c[k]);
            if l < c.len() {
                assert(all[l] == c[l]);
            } else {
                let i = choose|i: int| 0 <= i < d.len() && d[i] == c[k];
                assert(txns[i] == c[k]);
                assert(txns[txns.len() - 1] == all[l]);
            }
        }
    }
}

/// Whether charges are strictly in the order of their dates.
pub open spec fn strictly_dated(h: Seq<Txn>) -> bool {
    forall|k: int, l: int|
        0 <= k < l < h.len() ==> (#[trigger] h[k]).posted_at < (#[trigger] h[l]).posted_at
}

proof fn lemma_history_is_those(txns: Seq<Txn>, key: Seq<char>)
    requires
        no_ties(txns),
    ensures
        strictly_dated(history(txns, key)),
        forall|k: int|
            0 <= k < history(txns, key).len() ==> txns.contains(#[trigger] history(txns, key)[k])
                && normalized(history(txns, key)[k].description@) == key,
        forall|i: int|
            0 <= i < txns.len() && normalized((#[trigger] txns[i]).description@) == key ==> history(
                txns,
                key,
            ).contains(txns[i]),
{
    let c = charges_with(txns, key);
    let ds = dates(c);
    let h = history(txns, key);
    let p = stable_order(ds, ds.len());
    law_stable_order(ds, ds.len());
    lemma_charges_are_those(txns, key);
    lemma_charges_apart(txns, key);
    assert forall|k: int, l: int| 0 <= k < l < h.len() implies (#[trigger] h[k]).posted_at < (
    #[trigger] h[l]).posted_at by {
        assert(comes_before(ds, p[k], p[l]));
        assert(c[p[k]] == h[k] && c[p[l]] == h[l]);
        if p[k] < p[l] {
            assert(c[p[k]].posted_at != c[p[l]].posted_at);
        }
    }
    assert forall|k: int| 0 <= k < h.len() implies txns.contains(#[trigger] h[k]) && normalized(
        h[k].description@,
    ) == key by {
        assert(c[p[k]] == h[k]);
    }
    assert forall|i: int|
        0 <= i < txns.len() && normalized((#[trigger] txns[i]).description@) == key implies h.contains(
        txns[i],
    ) by {
        let k = choose|k: int| 0 <= k < c.len() && c[k] == txns[i];
        assert(p.contains(k));
        let q = choose|q: int| 0 <= q < p.len() && p[q] == k;
        assert(h[q] == txns[i]);
    }
}

/// Strictly dated charges with the same members are the same.
pub proof fn lemma_dated_same(a: Seq<Txn>, b: Seq<Txn>)
    requires
        strictly_dated(a),
        strictly_dated(b),
        forall|i: int| 0 <= i < a.len() ==> b.contains(#[trigger] a[i]),
        forall|i: int| 0 <= i < b.len() ==> a.contains(#[trigger] b[i]),
    ensures
        a == b,
    decreases a.len(),
{
    if a.len() == 0 {
        if b.len() > 0 {
            assert(a.contains(b[0]));
        }
        assert(a =~= b);
    } else {
        let n = a.len() - 1;
        assert(b.contains(a[0]));
        let m = b.len() - 1;
        let j = choose|j: int| 0 <= j < b.len() && b[j] == a[n];
        let i = choose|i: int| 0 <= i < a.len() && a[i] == b[m];
        assert(j == m) by {
            if j < m {
                assert(b[j].posted_at < b[m].posted_at);
                if i < n {
                    assert(a[i].posted_at < a[n].posted_at);
                }
            }
        }
        let x = a.drop_last();
        let y = b.drop_last();
        assert forall|k: int| 0 <= k < x.len() implies y.contains(#[trigger] x[k]) by {
            assert(b.contains(a[k]));
            let q = choose|q: int| 0 <= q < b.len() && b[q] == a[k];
            assert(a[k].posted_at < a[n].posted_at);
            assert(y[q] == x[k]);
        }
        assert forall|k: int| 0 <= k < y.len() implies x.contains(#[trigger] y[k]) by {
            assert(a.contains(b[k]));
            let q = choose|q: int| 0 <= q < a.len() && a[q] == b[k];
            assert(b[k].posted_at < b[m].posted_at);
            assert(x[q] == y[k]);
        }
        assert(strictly_dated(x)) by {
            assert forall|k: int, l: int| 0 <= k < l < x.len() implies (
            #[trigger] x[k]).posted_at < (#[trigger] x[l]).posted_at by {
                assert(a[k].posted_at < a[l].posted_at);
            }
        }
        assert(strictly_dated(y)) by {
            assert forall|k: int, l: int| 0 <= k < l < y.len() implies (
            #[trigger] y[k]).posted_at < (#[trigger] y[l]).posted_at by {
                assert(b[k].posted_at < b[l].posted_at);
            }
        }
        lemma_dated_same(x, y);
        assert(a =~= x.push(a[n]) && b =~= y.push(b[m]));
    }
}

/// Detection does not depend on the order of its input, where no payee has two charges at one
/// instant.
pub proof fn law_order_does_not_matter(
    a: Seq<Series>,
    x: Seq<Txn>,
    b: Seq<Series>,
    y: Seq<Txn>,
    min_occurrences: nat,
)
    requires
        x.to_multiset() == y.to_multiset(),
        no_ties(x),
        is_detection(a, x, min_occurrences),
        is_detection(b, y, min_occurrences),
    ensures
        same_list(a, b),
{
    lemma_ties_travel(x, y);
    x.to_multiset_ensures();
    y.to_multiset_ensures();
    assert forall|key: Seq<char>| key.len() > 0 implies alike(
        #[trigger] history(x, key),
        history(y, key),
    ) by {
        let h = history(x, key);
        let k = history(y, key);
        lemma_history_is_those(x, key);
        lemma_history_is_those(y, key);
        assert forall|i: int| 0 <= i < h.len() implies k.contains(#[trigger] h[i]) by {
            assert(x.to_multiset().count(h[i]) > 0);
            let j = choose|j: int| 0 <= j < y.len() && y[j] == h[i];
            assert(normalized(y[j].description@) == key);
        }
        assert forall|i: int| 0 <= i < k.len() implies h.contains(#[trigger] k[i]) by {
            assert(y.to_multiset().count(k[i]) > 0);
            let j = choose|j: int| 0 <= j < x.len() && x[j] == k[i];
            assert(normalized(x[j].description@) == key);
        }
        lemma_dated_same(h, k);
    }
    lemma_same_histories_same_list(a, x, b, y, min_occurrences);
}

/// Whether two listed series say the same.
pub open spec fn same_row(a: LabeledSeries, b: LabeledSeries) -> bool {
    &&& same_series(a.series, b.series)
    &&& a.label == b.label
    &&& a.display_name == b.display_name
    &&& a.confirmed_at == b.confirmed_at
}

/// Whether two listings say the same, row by row.
pub open spec fn same_listing(a: Seq<LabeledSeries>, b: Seq<LabeledSeries>) -> bool {
    &&& a.len() == b.len()
    &&& forall|i: int| 0 <= i < a.len() ==> same_row(#[trigger] a[i], b[i])
}

proof fn lemma_joined_same(
    a: Seq<Series>,
    b: Seq<Series>,
    labels: Seq<RecurringLabel>,
    ignored: bool,
)
    requires
        same_list(a, b),
    ensures
        same_listing(joined(a, labels, ignored), joined(b, labels, ignored)),
    decreases a.len(),
{
    if a.len() > 0 {
        let x = a.drop_last();
        let y = b.drop_last();
        assert(same_series(a[a.len() - 1], b[b.len() - 1]));
        assert(same_list(x, y)) by {
            assert forall|i: int| 0 <= i < x.len() implies same_series(#[trigger] x[i], y[i]) by {
                assert(same_series(a[i], b[i]));
            }
        }
        lemma_joined_same(x, y, labels, ignored);
        let p = joined(x, labels, ignored);
        let q = joined(y, labels, ignored);
        let all = joined(a, labels, ignored);
        assert forall|i: int| 0 <= i < all.len() implies same_row(
            #[trigger] all[i],
            joined(b, labels, ignored)[i],
        ) by {
            if i < p.len() {
                assert(same_row(p[i], q[i]));
            }
        }
    }
}

proof fn lemma_listing_of(
    out: Seq<LabeledSeries>,
    rows: Seq<Transaction>,
    labels: Seq<RecurringLabel>,
    min_occurrences: nat,
    ignored: bool,
    txns: Seq<Txn>,
    detected: Seq<Series>,
)
    requires
        is_listing(out, rows, labels, min_occurrences, ignored),
        are_charges(txns, rows),
        is_detection(detected, txns, min_occurrences),
    ensures
        same_listing(out, joined(detected, labels, ignored)),
{
    let (x, d) = choose|x: Seq<Txn>, d: Seq<Series>|
        #![trigger is_detection(d, x, min_occurrences)]
        are_charges(x, rows) && is_detection(d, x, min_occurrences) && out == joined(
            d,
            labels,
            ignored,
        );
    law_detection_is_determined(d, x, detected, txns, rows, min_occurrences);
    lemma_joined_same(d, detected, labels, ignored);
}

proof fn lemma_outflows_are_negative(rows: Seq<Transaction>)
    ensures
        forall|i: int| 0 <= i < outflows(rows).len() ==> (#[trigger] outflows(rows)[i]).amount_cents.0 < 0,
    decreases rows.len(),
{
    if rows.len() > 0 {
        lemma_outflows_are_negative(rows.drop_last());
        let d = outflows(rows.drop_last());
        assert forall|i: int| 0 <= i < outflows(rows).len() implies (
        #[trigger] outflows(rows)[i]).amount_cents.0 < 0 by {
            if i < d.len() {
                assert(outflows(rows)[i] == d[i]);
            }
        }
    }
}

/// Whether a series is listed.
pub open spec fn lists(out: Seq<LabeledSeries>, s: Series) -> bool {
    exists|i: int| 0 <= i < out.len() && same_series((#[trigger] out[i]).series, s)
}

/// The listed and the ignored series of the same transactions part what is detected in them:
/// together they hold every detected series, each list in the order of detection, and no payee
/// is in both. Every ignored row carries the label `ignore`, and no listed row does. Only
/// outflows count: a transaction of zero never does.
pub proof fn law_listings_part_the_detected(
    v: Seq<LabeledSeries>,
    h: Seq<LabeledSeries>,
    rows: Seq<Transaction>,
    labels: Seq<RecurringLabel>,
    min_occurrences: nat,
    txns: Seq<Txn>,
    detected: Seq<Series>,
)
    requires
        is_listing(v, rows, labels, min_occurrences, false),
        is_listing(h, rows, labels, min_occurrences, true),
        are_charges(txns, rows),
        is_detection(detected, txns, min_occurrences),
    ensures
        same_listing(v, joined(detected, labels, false)),
        same_listing(h, joined(detected, labels, true)),
        v.len() + h.len() == detected.len(),
        forall|k: int|
            0 <= k < detected.len() ==> lists(v, #[trigger] detected[k]) || lists(h, detected[k]),
        forall|i: int, j: int|
            0 <= i < v.len() && 0 <= j < h.len() ==> (#[trigger] v[i]).series.payee@ != (
            #[trigger] h[j]).series.payee@,
        forall|i: int, j: int|
            0 <= i < j < v.len() ==> due_before((#[trigger] v[i]).series, (#[trigger] v[j]).series),
        forall|i: int, j: int|
            0 <= i < j < h.len() ==> due_before((#[trigger] h[i]).series, (#[trigger] h[j]).series),
        forall|i: int| 0 <= i < v.len() ==> opt_text((#[trigger] v[i]).label) != Some("ignore"@),
        forall|i: int| 0 <= i < h.len() ==> opt_text((#[trigger] h[i]).label) == Some("ignore"@),
        forall|i: int| 0 <= i < txns.len() ==> (#[trigger] txns[i]).amount_cents < 0,
{
    let a = joined(detected, labels, false);
    let b = joined(detected, labels, true);
    lemma_listing_of(v, rows, labels, min_occurrences, false, txns, detected);
    lemma_listing_of(h, rows, labels, min_occurrences, true, txns, detected);
    law_listed_or_ignored(detected, labels);
    law_listing_is_soonest_first(detected, labels, false);
    law_listing_is_soonest_first(detected, labels, true);
    lemma_outflows_are_negative(rows);
    assert forall|k: int| 0 <= k < detected.len() implies lists(v, #[trigger] detected[k]) || lists(
        h,
        detected[k],
    ) by {
        let one = joined_one(detected[k], label_for(labels, detected[k].payee@));
        if is_ignored(labels, detected[k].payee@) {
            let i = choose|i: int| 0 <= i < b.len() && b[i] == one;
            assert(same_row(h[i], b[i]));
            assert(same_series(h[i].series, detected[k]));
        } else {
            let i = choose|i: int| 0 <= i < a.len() && a[i] == one;
            assert(same_row(v[i], a[i]));
            assert(same_series(v[i].series, detected[k]));
        }
    }
    assert forall|i: int, j: int| 0 <= i < v.len() && 0 <= j < h.len() implies (
    #[trigger] v[i]).series.payee@ != (#[trigger] h[j]).series.payee@ by {
        assert(same_row(v[i], a[i]) && same_row(h[j], b[j]));
    }
    assert forall|i: int, j: int| 0 <= i < j < v.len() implies due_before(
        (#[trigger] v[i]).series,
        (#[trigger] v[j]).series,
    ) by {
        assert(same_row(v[i], a[i]) && same_row(v[j], a[j]));
        assert(due_before(a[i].series, a[j].series));
    }
    assert forall|i: int, j: int| 0 <= i < j < h.len() implies due_before(
        (#[trigger] h[i]).series,
        (#[trigger] h[j]).series,
    ) by {
        assert(same_row(h[i], b[i]) && same_row(h[j], b[j]));
        assert(due_before(b[i].series, b[j].series));
    }
    assert forall|i: int| 0 <= i < v.len() implies opt_text((#[trigger] v[i]).label) != Some(
        "ignore"@,
    ) by {
        assert(same_row(v[i], a[i]));
    }
    assert forall|i: int| 0 <= i < h.len() implies opt_text((#[trigger] h[i]).label) == Some(
        "ignore"@,
    ) by {
        assert(same_row(h[i], b[i]));
    }
    assert forall|i: int| 0 <= i < txns.len() implies (#[trigger] txns[i]).amount_cents < 0 by {
        assert(outflows(rows)[i].amount_cents.0 < 0);
    }
}

} // verus!
