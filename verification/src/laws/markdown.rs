//! Laws of the rendered monthly report.

use vstd::prelude::*;

verus! {

use crate::money::{clamp, shown};
use crate::pp::{Allocation, Backbone, DriftRow};
use crate::report::{
    business_line, date_in_ast, drift_head, drift_line, drift_title, expense_line, line, markdown,
    pair_line, recurring_line, usage_line, with_backbone, with_business_lines, with_businesses,
    with_drift, with_drift_lines, with_expense_lines, with_expenses, with_net_worth, with_paydown,
    with_recurring, with_recurring_lines, with_usage, with_usage_lines, ApiUsageRow, BusinessFlow,
    CategorySpend, DriftShare, MonthlyReport, RecurringReportRow,
};

/// Whether a text has a line: it begins where the text does or behind a line break, and ends
/// with a line break.
pub open spec fn shows_line(text: Seq<char>, l: Seq<char>) -> bool {
    exists|i: int| #[trigger] line_at(text, l, i)
}

/// Whether a line stands at a place of a text.
pub open spec fn line_at(text: Seq<char>, l: Seq<char>, i: int) -> bool {
    &&& 0 <= i
    &&& i + l.len() < text.len()
    &&& i == 0 || text[i - 1] == '\n'
    &&& text.subrange(i, i + l.len()) == l
    &&& text[i + l.len()] == '\n'
}

/// Whether a text is empty or ends with a line break.
spec fn is_whole(t: Seq<char>) -> bool {
    t.len() == 0 || t.last() == '\n'
}

/// A text with some lines behind it.
spec fn lined(out: Seq<char>, ls: Seq<Seq<char>>) -> Seq<char>
    decreases ls.len(),
{
    if ls.len() == 0 {
        out
    } else {
        line(lined(out, ls.drop_last()), ls.last())
    }
}

proof fn lemma_next(out: Seq<char>, ls: Seq<Seq<char>>, l: Seq<char>) -> (r: Seq<Seq<char>>)
    ensures
        r == ls.push(l),
        lined(out, r) == line(lined(out, ls), l),
{
    let r = ls.push(l);
    assert(r.drop_last() =~= ls);
    r
}

proof fn lemma_lined_twice(out: Seq<char>, a: Seq<Seq<char>>, b: Seq<Seq<char>>)
    ensures
        lined(lined(out, a), b) == lined(out, a + b),
    decreases b.len(),
{
    if b.len() == 0 {
        assert(a + b =~= a);
    } else {
        lemma_lined_twice(out, a, b.drop_last());
        assert((a + b).drop_last() =~= a + b.drop_last());
    }
}

proof fn lemma_line_shows(out: Seq<char>, l: Seq<char>)
    requires
        is_whole(out),
    ensures
        is_whole(line(out, l)),
        out.is_prefix_of(line(out, l)),
        shows_line(line(out, l), l),
{
    reveal_strlit("\n");
    let t = line(out, l);
    let i = out.len() as int;
    assert(t.subrange(i, i + l.len()) =~= l);
    assert(t[i + l.len()] == '\n');
    if i > 0 {
        assert(t[i - 1] == out.last());
    }
    assert(line_at(t, l, i));
    assert(out =~= t.subrange(0, i));
}

proof fn lemma_shows_more(a: Seq<char>, b: Seq<char>, l: Seq<char>)
    requires
        a.is_prefix_of(b),
        shows_line(a, l),
    ensures
        shows_line(b, l),
{
    let i = choose|i: int| #[trigger] line_at(a, l, i);
    assert forall|k: int| 0 <= k < a.len() implies a[k] == b[k] by {
        assert(a[k] == b.subrange(0, a.len() as int)[k]);
    }
    assert(b.subrange(i, i + l.len()) =~= a.subrange(i, i + l.len()));
    assert(line_at(b, l, i));
}

proof fn lemma_all_shown(out: Seq<char>, ls: Seq<Seq<char>>)
    requires
        is_whole(out),
    ensures
        is_whole(lined(out, ls)),
        out.is_prefix_of(lined(out, ls)),
        forall|i: int| 0 <= i < ls.len() ==> shows_line(lined(out, ls), #[trigger] ls[i]),
    decreases ls.len(),
{
    if ls.len() == 0 {
        assert(out =~= out.subrange(0, out.len() as int));
    } else {
        let d = ls.drop_last();
        lemma_all_shown(out, d);
        let t = lined(out, d);
        lemma_line_shows(t, ls.last());
        assert(out =~= line(t, ls.last()).subrange(0, out.len() as int)) by {
            assert(out =~= t.subrange(0, out.len() as int));
            assert(t =~= line(t, ls.last()).subrange(0, t.len() as int));
        }
        assert forall|i: int| 0 <= i < ls.len() implies shows_line(
            lined(out, ls),
            #[trigger] ls[i],
        ) by {
            if i < d.len() {
                assert(d[i] == ls[i]);
                lemma_shows_more(t, line(t, ls.last()), ls[i]);
            }
        }
    }
}

// ---------------------------------------------------------------------------
// The sections as lines
// ---------------------------------------------------------------------------

proof fn lemma_net_worth_lines(out: Seq<char>, r: MonthlyReport) -> (ls: Seq<Seq<char>>)
    ensures
        with_net_worth(out, r) == lined(out, ls),
        ls.len() >= 11,
        ls[0] == "# arca monthly report — "@ + r.label@,
        ls[2] == "Window: "@ + date_in_ast(r.since) + " → "@ + date_in_ast(r.until)
            + " (AST midnight boundaries)."@,
        ls[8] == "| Now | "@ + shown(r.net_worth_now.0 as int) + " |"@,
        match r.net_worth_prior {
            Some(p) => ls[9] == "| Start of "@ + r.label@ + " | "@ + shown(p.0 as int) + " |"@
                && ls.len() >= 12 && ls[10] == "| Delta | "@ + shown(
                clamp(r.net_worth_now.0 - p.0) as int,
            ) + " |"@,
            None => ls[9] == "| Start of "@ + r.label@
                + " | _no snapshot before window start_ |"@,
        },
{
    let s0 = Seq::<Seq<char>>::empty();
    let s1 = lemma_next(out, s0, "# arca monthly report — "@ + r.label@);
    let s2 = lemma_next(out, s1, ""@);
    let s3 = lemma_next(out, s2, "Window: "@ + date_in_ast(r.since) + " → "@ + date_in_ast(r.until)
            + " (AST midnight boundaries)."@);
    let s4 = lemma_next(out, s3, ""@);
    let s5 = lemma_next(out, s4, "## Net worth"@);
    let s6 = lemma_next(out, s5, ""@);
    let s7 = lemma_next(out, s6, "| | amount |"@);
    let s8 = lemma_next(out, s7, "|---|---:|"@);
    let s9 = lemma_next(out, s8, "| Now | "@ + shown(r.net_worth_now.0 as int) + " |"@);
    match r.net_worth_prior {
        Some(p) => {
            let s10 = lemma_next(
                out,
                s9,
                "| Start of "@ + r.label@ + " | "@ + shown(p.0 as int) + " |"@,
            );
            let s11 = lemma_next(
                out,
                s10,
                "| Delta | "@ + shown(clamp(r.net_worth_now.0 - p.0) as int) + " |"@,
            );
            lemma_next(out, s11, ""@)
        },
        None => {
            let s10 = lemma_next(
                out,
                s9,
                "| Start of "@ + r.label@ + " | _no snapshot before window start_ |"@,
            );
            lemma_next(out, s10, ""@)
        },
    }
}

proof fn lemma_business_rows(out: Seq<char>, bs: Seq<BusinessFlow>)
    ensures
        with_business_lines(out, bs) == lined(out, bs.map_values(|b: BusinessFlow| business_line(b))),
    decreases bs.len(),
{
    let f = |b: BusinessFlow| business_line(b);
    if bs.len() > 0 {
        lemma_business_rows(out, bs.drop_last());
        assert(bs.map_values(f).drop_last() =~= bs.drop_last().map_values(f));
    }
}

proof fn lemma_businesses_lines(out: Seq<char>, bs: Seq<BusinessFlow>) -> (ls: Seq<Seq<char>>)
    ensures
        with_businesses(out, bs) == lined(out, ls),
        forall|i: int| 0 <= i < bs.len() ==> ls.contains(business_line(#[trigger] bs[i])),
        bs.len() == 0 ==> ls.contains("_No businesses configured._"@),
{
    let s0 = Seq::<Seq<char>>::empty();
    let s1 = lemma_next(out, s0, "## Cash flow by business"@);
    let s2 = lemma_next(out, s1, ""@);
    if bs.len() == 0 {
        let s3 = lemma_next(out, s2, "_No businesses configured._"@);
        let ls = lemma_next(out, s3, ""@);
        assert(ls[2] == s3[2]);
        ls
    } else {
        let s3 = lemma_next(out, s2, "| Business | Income | Expenses | Net |"@);
        let s4 = lemma_next(out, s3, "|---|---:|---:|---:|"@);
        let rows = bs.map_values(|b: BusinessFlow| business_line(b));
        lemma_business_rows(lined(out, s4), bs);
        lemma_lined_twice(out, s4, rows);
        let ls = lemma_next(out, s4 + rows, ""@);
        assert forall|i: int| 0 <= i < bs.len() implies ls.contains(
            business_line(#[trigger] bs[i]),
        ) by {
            assert(ls[s4.len() + i] == rows[i]);
        }
        ls
    }
}

proof fn lemma_drift_rows(out: Seq<char>, rows: Seq<DriftRow>, shares: Seq<DriftShare>, n: nat)
    requires
        n <= rows.len(),
    ensures
        with_drift_lines(out, rows, shares, n) == lined(
            out,
            Seq::new(n, |i: int| drift_line(rows[i], shares[i])),
        ),
    decreases n,
{
    let f = |i: int| drift_line(rows[i], shares[i]);
    if n > 0 {
        lemma_drift_rows(out, rows, shares, (n - 1) as nat);
        assert(Seq::new(n, f).drop_last() =~= Seq::new((n - 1) as nat, f));
    }
}

proof fn lemma_drift_lines(
    out: Seq<char>,
    a: Allocation,
    rows: Seq<DriftRow>,
    shares: Seq<DriftShare>,
) -> (ls: Seq<Seq<char>>)
    ensures
        with_drift(out, a, rows, shares) == lined(out, ls),
        ls.contains("T2 total: **"@ + shown(a.total.0 as int) + "**"@),
        a.total.0 != 0 ==> forall|i: int|
            0 <= i < rows.len() ==> ls.contains(drift_line(#[trigger] rows[i], shares[i])),
        a.total.0 == 0 ==> ls.contains("_No Tier-2 balances recorded._"@),
{
    let s0 = Seq::<Seq<char>>::empty();
    let s1 = lemma_next(out, s0, "## Investment performance (Tier 2)"@);
    let s2 = lemma_next(out, s1, ""@);
    let s3 = lemma_next(out, s2, "T2 total: **"@ + shown(a.total.0 as int) + "**"@);
    let s4 = lemma_next(out, s3, ""@);
    assert(lined(out, s4) == drift_head(out, a));
    let s5 = lemma_next(out, s4, drift_title());
    let s6 = lemma_next(out, s5, ""@);
    if rows.len() == 0 || a.total.0 == 0 {
        let s7 = lemma_next(out, s6, "_No Tier-2 balances recorded._"@);
        let ls = lemma_next(out, s7, ""@);
        assert(ls[2] == s3[2]);
        assert(ls[6] == s7[6]);
        ls
    } else {
        let s7 = lemma_next(
            out,
            s6,
            "| Sleeve | Actual | % | Target % | Drift pp | Band | Status |"@,
        );
        let s8 = lemma_next(out, s7, "|---|---:|---:|---:|---:|---:|:--|"@);
        let lines = Seq::new(rows.len(), |i: int| drift_line(rows[i], shares[i]));
        lemma_drift_rows(lined(out, s8), rows, shares, rows.len());
        lemma_lined_twice(out, s8, lines);
        let ls = lemma_next(out, s8 + lines, ""@);
        assert(ls[2] == s3[2]);
        assert forall|i: int| 0 <= i < rows.len() implies ls.contains(
            drift_line(#[trigger] rows[i], shares[i]),
        ) by {
            assert(ls[s8.len() + i] == lines[i]);
        }
        ls
    }
}

proof fn lemma_backbone_lines(out: Seq<char>, b: Backbone) -> (ls: Seq<Seq<char>>)
    ensures
        with_backbone(out, b) == lined(out, ls),
        ls.contains(pair_line("Gold"@, b.gold)),
        ls.contains(pair_line("Silver"@, b.silver)),
        ls.contains(pair_line("XMR"@, b.xmr)),
        ls.contains(pair_line("Land"@, b.land)),
        ls.contains(pair_line("SFR"@, b.sfr)),
        b.other.0 != 0 ==> ls.contains(pair_line("Other"@, b.other)),
        ls.contains("| **Total** | **"@ + shown(b.total.0 as int) + "** |"@),
{
    let s0 = Seq::<Seq<char>>::empty();
    let s1 = lemma_next(out, s0, "## Tier 1 backbone (hold-forever, info only)"@);
    let s2 = lemma_next(out, s1, ""@);
    let s3 = lemma_next(out, s2, "| Asset | Latest |"@);
    let s4 = lemma_next(out, s3, "|---|---:|"@);
    let s5 = lemma_next(out, s4, pair_line("Gold"@, b.gold));
    let s6 = lemma_next(out, s5, pair_line("Silver"@, b.silver));
    let s7 = lemma_next(out, s6, pair_line("XMR"@, b.xmr));
    let s8 = lemma_next(out, s7, pair_line("Land"@, b.land));
    let s9 = lemma_next(out, s8, pair_line("SFR"@, b.sfr));
    let s10 = if b.other.0 != 0 {
        lemma_next(out, s9, pair_line("Other"@, b.other))
    } else {
        s9
    };
    let s11 = lemma_next(out, s10, "| **Total** | **"@ + shown(b.total.0 as int) + "** |"@);
    let ls = lemma_next(out, s11, ""@);
    assert(ls[4] == s5[4] && ls[5] == s6[5] && ls[6] == s7[6] && ls[7] == s8[7] && ls[8] == s9[8]);
    assert(ls[s10.len() as int] == s11.last());
    if b.other.0 != 0 {
        assert(ls[9] == s10[9]);
    }
    ls
}

proof fn lemma_paydown_lines(out: Seq<char>, label: Seq<char>, paid: crate::money::Cents) -> (ls: Seq<
    Seq<char>,
>)
    ensures
        with_paydown(out, label, paid) == lined(out, ls),
        ls.contains(
            "Principal reduced in "@ + label + ": **"@ + shown(paid.0 as int)
                + "** (positive = paid down)."@,
        ),
{
    let s0 = Seq::<Seq<char>>::empty();
    let s1 = lemma_next(out, s0, "## Debt paydown"@);
    let s2 = lemma_next(out, s1, ""@);
    let s3 = lemma_next(
        out,
        s2,
        "Principal reduced in "@ + label + ": **"@ + shown(paid.0 as int)
            + "** (positive = paid down)."@,
    );
    let ls = lemma_next(out, s3, ""@);
    assert(ls[2] == s3[2]);
    ls
}

proof fn lemma_expense_rows(out: Seq<char>, xs: Seq<CategorySpend>)
    ensures
        with_expense_lines(out, xs) == lined(out, xs.map_values(|x: CategorySpend| expense_line(x))),
    decreases xs.len(),
{
    let f = |x: CategorySpend| expense_line(x);
    if xs.len() > 0 {
        lemma_expense_rows(out, xs.drop_last());
        assert(xs.map_values(f).drop_last() =~= xs.drop_last().map_values(f));
    }
}

proof fn lemma_expenses_lines(out: Seq<char>, xs: Seq<CategorySpend>) -> (ls: Seq<Seq<char>>)
    ensures
        line(with_expenses(out, xs), ""@) == lined(out, ls),
        forall|i: int| 0 <= i < xs.len() ==> ls.contains(expense_line(#[trigger] xs[i])),
        xs.len() == 0 ==> ls.contains("_No expense rows in window._"@),
{
    let s0 = Seq::<Seq<char>>::empty();
    let s1 = lemma_next(out, s0, "## Top expense categories"@);
    let s2 = lemma_next(out, s1, ""@);
    if xs.len() == 0 {
        let s3 = lemma_next(out, s2, "_No expense rows in window._"@);
        let ls = lemma_next(out, s3, ""@);
        assert(ls[2] == s3[2]);
        ls
    } else {
        let s3 = lemma_next(out, s2, "| Category | Spend |"@);
        let s4 = lemma_next(out, s3, "|---|---:|"@);
        let rows = xs.map_values(|x: CategorySpend| expense_line(x));
        lemma_expense_rows(lined(out, s4), xs);
        lemma_lined_twice(out, s4, rows);
        let ls = lemma_next(out, s4 + rows, ""@);
        assert forall|i: int| 0 <= i < xs.len() implies ls.contains(
            expense_line(#[trigger] xs[i]),
        ) by {
            assert(ls[s4.len() + i] == rows[i]);
        }
        ls
    }
}

proof fn lemma_usage_rows(out: Seq<char>, xs: Seq<ApiUsageRow>)
    ensures
        with_usage_lines(out, xs) == lined(out, xs.map_values(|x: ApiUsageRow| usage_line(x))),
    decreases xs.len(),
{
    let f = |x: ApiUsageRow| usage_line(x);
    if xs.len() > 0 {
        lemma_usage_rows(out, xs.drop_last());
        assert(xs.map_values(f).drop_last() =~= xs.drop_last().map_values(f));
    }
}

proof fn lemma_usages_lines(out: Seq<char>, xs: Seq<ApiUsageRow>) -> (ls: Seq<Seq<char>>)
    ensures
        line(with_usage(out, xs), ""@) == lined(out, ls),
        forall|i: int| 0 <= i < xs.len() ==> ls.contains(usage_line(#[trigger] xs[i])),
        xs.len() == 0 ==> ls.contains("_None active._"@),
{
    let s0 = Seq::<Seq<char>>::empty();
    let s1 = lemma_next(out, s0, "## API & subscriptions"@);
    let s2 = lemma_next(out, s1, ""@);
    if xs.len() == 0 {
        let s3 = lemma_next(out, s2, "_None active._"@);
        let ls = lemma_next(out, s3, ""@);
        assert(ls[2] == s3[2]);
        ls
    } else {
        let s3 = lemma_next(out, s2, "| Name | Kind | Latest | Cadence |"@);
        let s4 = lemma_next(out, s3, "|---|---|---:|---|"@);
        let rows = xs.map_values(|x: ApiUsageRow| usage_line(x));
        lemma_usage_rows(lined(out, s4), xs);
        lemma_lined_twice(out, s4, rows);
        let ls = lemma_next(out, s4 + rows, ""@);
        assert forall|i: int| 0 <= i < xs.len() implies ls.contains(
            usage_line(#[trigger] xs[i]),
        ) by {
            assert(ls[s4.len() + i] == rows[i]);
        }
        ls
    }
}

proof fn lemma_recurring_row_lines(out: Seq<char>, xs: Seq<RecurringReportRow>)
    ensures
        with_recurring_lines(out, xs) == lined(
            out,
            xs.map_values(|x: RecurringReportRow| recurring_line(x)),
        ),
    decreases xs.len(),
{
    let f = |x: RecurringReportRow| recurring_line(x);
    if xs.len() > 0 {
        lemma_recurring_row_lines(out, xs.drop_last());
        assert(xs.map_values(f).drop_last() =~= xs.drop_last().map_values(f));
    }
}

proof fn lemma_recurring_lines(out: Seq<char>, xs: Seq<RecurringReportRow>) -> (ls: Seq<Seq<char>>)
    ensures
        with_recurring(out, xs) == lined(out, ls),
        forall|i: int| 0 <= i < xs.len() ==> ls.contains(recurring_line(#[trigger] xs[i])),
        xs.len() == 0 ==> ls.contains("_No confirmed recurring series._"@),
{
    let s0 = Seq::<Seq<char>>::empty();
    let s1 = lemma_next(out, s0, "## Recurring (confirmed)"@);
    let s2 = lemma_next(out, s1, ""@);
    if xs.len() == 0 {
        let ls = lemma_next(out, s2, "_No confirmed recurring series._"@);
        assert(ls[2] == "_No confirmed recurring series._"@);
        ls
    } else {
        let s3 = lemma_next(
            out,
            s2,
            "_Amounts are observed history; next charge is an estimate._"@,
        );
        let s4 = lemma_next(out, s3, ""@);
        let s5 = lemma_next(out, s4, "| Name | Label | Cadence | Last | Avg | Next (est) |"@);
        let s6 = lemma_next(out, s5, "|---|---|---|---:|---:|---|"@);
        let rows = xs.map_values(|x: RecurringReportRow| recurring_line(x));
        lemma_recurring_row_lines(lined(out, s6), xs);
        lemma_lined_twice(out, s6, rows);
        let ls = s6 + rows;
        assert forall|i: int| 0 <= i < xs.len() implies ls.contains(
            recurring_line(#[trigger] xs[i]),
        ) by {
            assert(ls[s6.len() + i] == rows[i]);
        }
        ls
    }
}

/// The report up to a section.
spec fn stage(r: MonthlyReport, shares: Seq<DriftShare>, k: nat) -> Seq<char>
    decreases k,
{
    if k == 0 {
        Seq::<char>::empty()
    } else {
        let out = stage(r, shares, (k - 1) as nat);
        if k == 1 {
            with_net_worth(out, r)
        } else if k == 2 {
            with_businesses(out, r.businesses@)
        } else if k == 3 {
            with_drift(out, r.pp_allocation, r.pp_drift@, shares)
        } else if k == 4 {
            with_backbone(out, r.backbone)
        } else if k == 5 {
            with_paydown(out, r.label@, r.debt_paydown)
        } else if k == 6 {
            line(with_expenses(out, r.top_expenses@), ""@)
        } else if k == 7 {
            line(with_usage(out, r.api_usage@), ""@)
        } else {
            with_recurring(out, r.recurring@)
        }
    }
}

#[verifier::spinoff_prover]
proof fn lemma_stages_end(r: MonthlyReport, shares: Seq<DriftShare>)
    ensures
        stage(r, shares, 8) == markdown(r, shares),
{
    let s0 = stage(r, shares, 0);
    let s1 = stage(r, shares, 1);
    assert(s1 == with_net_worth(s0, r));
    let s2 = stage(r, shares, 2);
    assert(s2 == with_businesses(s1, r.businesses@));
    let s3 = stage(r, shares, 3);
    assert(s3 == with_drift(s2, r.pp_allocation, r.pp_drift@, shares));
    let s4 = stage(r, shares, 4);
    assert(s4 == with_backbone(s3, r.backbone));
    let s5 = stage(r, shares, 5);
    assert(s5 == with_paydown(s4, r.label@, r.debt_paydown));
    let s6 = stage(r, shares, 6);
    assert(s6 == line(with_expenses(s5, r.top_expenses@), ""@));
    let s7 = stage(r, shares, 7);
    assert(s7 == line(with_usage(s6, r.api_usage@), ""@));
    let s8 = stage(r, shares, 8);
    assert(s8 == with_recurring(s7, r.recurring@));
}

/// Every section adds whole lines.
proof fn lemma_stage_adds(r: MonthlyReport, shares: Seq<DriftShare>, k: nat)
    requires
        k < 8,
        is_whole(stage(r, shares, k)),
    ensures
        is_whole(stage(r, shares, k + 1)),
        stage(r, shares, k).is_prefix_of(stage(r, shares, k + 1)),
{
    let out = stage(r, shares, k);
    let ls = if k == 0 {
        lemma_net_worth_lines(out, r)
    } else if k == 1 {
        lemma_businesses_lines(out, r.businesses@)
    } else if k == 2 {
        lemma_drift_lines(out, r.pp_allocation, r.pp_drift@, shares)
    } else if k == 3 {
        lemma_backbone_lines(out, r.backbone)
    } else if k == 4 {
        lemma_paydown_lines(out, r.label@, r.debt_paydown)
    } else if k == 5 {
        lemma_expenses_lines(out, r.top_expenses@)
    } else if k == 6 {
        lemma_usages_lines(out, r.api_usage@)
    } else {
        lemma_recurring_lines(out, r.recurring@)
    };
    assert(stage(r, shares, k + 1) == lined(out, ls));
    lemma_all_shown(out, ls);
}

proof fn lemma_stage_whole(r: MonthlyReport, shares: Seq<DriftShare>, k: nat)
    requires
        k <= 8,
    ensures
        is_whole(stage(r, shares, k)),
    decreases k,
{
    if k > 0 {
        lemma_stage_whole(r, shares, (k - 1) as nat);
        lemma_stage_adds(r, shares, (k - 1) as nat);
    }
}

proof fn lemma_stage_stays(r: MonthlyReport, shares: Seq<DriftShare>, k: nat, l: Seq<char>)
    requires
        k <= 8,
        shows_line(stage(r, shares, k), l),
    ensures
        shows_line(markdown(r, shares), l),
    decreases 8 - k,
{
    if k == 8 {
        lemma_stages_end(r, shares);
    } else {
        lemma_stage_whole(r, shares, k);
        lemma_stage_adds(r, shares, k);
        lemma_shows_more(stage(r, shares, k), stage(r, shares, k + 1), l);
        lemma_stage_stays(r, shares, k + 1, l);
    }
}

/// The lines of a section are lines of the report.
proof fn lemma_section_shown(
    r: MonthlyReport,
    shares: Seq<DriftShare>,
    k: nat,
    ls: Seq<Seq<char>>,
    l: Seq<char>,
)
    requires
        k < 8,
        stage(r, shares, k + 1) == lined(stage(r, shares, k), ls),
        ls.contains(l),
    ensures
        shows_line(markdown(r, shares), l),
{
    lemma_stage_whole(r, shares, k);
    lemma_all_shown(stage(r, shares, k), ls);
    let i = choose|i: int| 0 <= i < ls.len() && ls[i] == l;
    assert(shows_line(stage(r, shares, k + 1), ls[i]));
    lemma_stage_stays(r, shares, k + 1, l);
}

// ---------------------------------------------------------------------------
// The laws
// ---------------------------------------------------------------------------

/// The report shows the net worth now and at the start of the month, and their difference: the
/// amount that added to the earlier one gives the later one. A gain is shown without a minus
/// sign.
pub proof fn law_report_shows_change(r: MonthlyReport, shares: Seq<DriftShare>, d: int)
    requires
        shares.len() == r.pp_drift@.len(),
        i64::MIN <= d <= i64::MAX,
        match r.net_worth_prior {
            Some(p) => p.0 + d == r.net_worth_now.0,
            None => false,
        },
    ensures
        shows_line(markdown(r, shares), "# arca monthly report — "@ + r.label@),
        shows_line(markdown(r, shares), "| Now | "@ + shown(r.net_worth_now.0 as int) + " |"@),
        shows_line(
            markdown(r, shares),
            "| Start of "@ + r.label@ + " | "@ + shown(
                match r.net_worth_prior {
                    Some(p) => p.0 as int,
                    None => 0,
                },
            ) + " |"@,
        ),
        shows_line(markdown(r, shares), "| Delta | "@ + shown(d) + " |"@),
        d >= 0 ==> shown(d)[0] == '$',
        d < 0 ==> shown(d)[0] == '-',
{
    let ls = lemma_net_worth_lines(stage(r, shares, 0), r);
    reveal_with_fuel(stage, 2);
    assert(ls.contains(ls[0]) && ls.contains(ls[8]) && ls.contains(ls[9]) && ls.contains(ls[10]));
    lemma_section_shown(r, shares, 0, ls, ls[0]);
    lemma_section_shown(r, shares, 0, ls, ls[8]);
    lemma_section_shown(r, shares, 0, ls, ls[9]);
    lemma_section_shown(r, shares, 0, ls, ls[10]);
}

/// The report shows the window that it covers, the total of tier 2, every class of the
/// backbone with its total, and what was paid off the debts.
pub proof fn law_report_shows_totals(r: MonthlyReport, shares: Seq<DriftShare>)
    requires
        shares.len() == r.pp_drift@.len(),
    ensures
        shows_line(
            markdown(r, shares),
            "Window: "@ + date_in_ast(r.since) + " → "@ + date_in_ast(r.until)
                + " (AST midnight boundaries)."@,
        ),
        shows_line(
            markdown(r, shares),
            "T2 total: **"@ + shown(r.pp_allocation.total.0 as int) + "**"@,
        ),
        shows_line(markdown(r, shares), "| Gold | "@ + shown(r.backbone.gold.0 as int) + " |"@),
        shows_line(markdown(r, shares), "| Silver | "@ + shown(r.backbone.silver.0 as int) + " |"@),
        shows_line(markdown(r, shares), "| XMR | "@ + shown(r.backbone.xmr.0 as int) + " |"@),
        shows_line(markdown(r, shares), "| Land | "@ + shown(r.backbone.land.0 as int) + " |"@),
        shows_line(markdown(r, shares), "| SFR | "@ + shown(r.backbone.sfr.0 as int) + " |"@),
        r.backbone.other.0 != 0 ==> shows_line(
            markdown(r, shares),
            "| Other | "@ + shown(r.backbone.other.0 as int) + " |"@,
        ),
        shows_line(
            markdown(r, shares),
            "| **Total** | **"@ + shown(r.backbone.total.0 as int) + "** |"@,
        ),
        shows_line(
            markdown(r, shares),
            "Principal reduced in "@ + r.label@ + ": **"@ + shown(r.debt_paydown.0 as int)
                + "** (positive = paid down)."@,
        ),
{
    let l0 = lemma_net_worth_lines(stage(r, shares, 0), r);
    assert(l0.contains(l0[2]));
    assert(stage(r, shares, 1) == lined(stage(r, shares, 0), l0));
    lemma_section_shown(r, shares, 0, l0, l0[2]);
    let l2 = lemma_drift_lines(stage(r, shares, 2), r.pp_allocation, r.pp_drift@, shares);
    assert(stage(r, shares, 3) == lined(stage(r, shares, 2), l2));
    lemma_section_shown(
        r,
        shares,
        2,
        l2,
        "T2 total: **"@ + shown(r.pp_allocation.total.0 as int) + "**"@,
    );
    let l4 = lemma_paydown_lines(stage(r, shares, 4), r.label@, r.debt_paydown);
    assert(stage(r, shares, 5) == lined(stage(r, shares, 4), l4));
    lemma_section_shown(
        r,
        shares,
        4,
        l4,
        "Principal reduced in "@ + r.label@ + ": **"@ + shown(r.debt_paydown.0 as int)
            + "** (positive = paid down)."@,
    );
    lemma_backbone_shown(r, shares);
}

proof fn lemma_backbone_shown(r: MonthlyReport, shares: Seq<DriftShare>)
    ensures
        shows_line(markdown(r, shares), "| Gold | "@ + shown(r.backbone.gold.0 as int) + " |"@),
        shows_line(markdown(r, shares), "| Silver | "@ + shown(r.backbone.silver.0 as int) + " |"@),
        shows_line(markdown(r, shares), "| XMR | "@ + shown(r.backbone.xmr.0 as int) + " |"@),
        shows_line(markdown(r, shares), "| Land | "@ + shown(r.backbone.land.0 as int) + " |"@),
        shows_line(markdown(r, shares), "| SFR | "@ + shown(r.backbone.sfr.0 as int) + " |"@),
        r.backbone.other.0 != 0 ==> shows_line(
            markdown(r, shares),
            "| Other | "@ + shown(r.backbone.other.0 as int) + " |"@,
        ),
        shows_line(
            markdown(r, shares),
            "| **Total** | **"@ + shown(r.backbone.total.0 as int) + "** |"@,
        ),
{
    let b = r.backbone;
    let ls = lemma_backbone_lines(stage(r, shares, 3), b);
    assert(stage(r, shares, 4) == lined(stage(r, shares, 3), ls));
    lemma_names();
    lemma_section_shown(r, shares, 3, ls, pair_line("Gold"@, b.gold));
    lemma_section_shown(r, shares, 3, ls, pair_line("Silver"@, b.silver));
    lemma_section_shown(r, shares, 3, ls, pair_line("XMR"@, b.xmr));
    lemma_section_shown(r, shares, 3, ls, pair_line("Land"@, b.land));
    lemma_section_shown(r, shares, 3, ls, pair_line("SFR"@, b.sfr));
    if b.other.0 != 0 {
        lemma_section_shown(r, shares, 3, ls, pair_line("Other"@, b.other));
    }
    lemma_section_shown(
        r,
        shares,
        3,
        ls,
        "| **Total** | **"@ + shown(b.total.0 as int) + "** |"@,
    );
}

proof fn lemma_names()
    ensures
        "| Gold | "@ == "| "@ + "Gold"@ + " | "@,
        "| Silver | "@ == "| "@ + "Silver"@ + " | "@,
        "| XMR | "@ == "| "@ + "XMR"@ + " | "@,
        "| Land | "@ == "| "@ + "Land"@ + " | "@,
        "| SFR | "@ == "| "@ + "SFR"@ + " | "@,
        "| Other | "@ == "| "@ + "Other"@ + " | "@,
{
    reveal_strlit("| ");
    reveal_strlit(" | ");
    reveal_strlit("Gold");
    reveal_strlit("Silver");
    reveal_strlit("XMR");
    reveal_strlit("Land");
    reveal_strlit("SFR");
    reveal_strlit("Other");
    reveal_strlit("| Gold | ");
    reveal_strlit("| Silver | ");
    reveal_strlit("| XMR | ");
    reveal_strlit("| Land | ");
    reveal_strlit("| SFR | ");
    reveal_strlit("| Other | ");
    assert("| Gold | "@ =~= "| "@ + "Gold"@ + " | "@);
    assert("| Silver | "@ =~= "| "@ + "Silver"@ + " | "@);
    assert("| XMR | "@ =~= "| "@ + "XMR"@ + " | "@);
    assert("| Land | "@ =~= "| "@ + "Land"@ + " | "@);
    assert("| SFR | "@ =~= "| "@ + "SFR"@ + " | "@);
    assert("| Other | "@ =~= "| "@ + "Other"@ + " | "@);
}

/// The report has a line for every business with what it took in, what it paid and what
/// remains, in this order; for every sleeve with what it holds and whether it breaches; for
/// every category with what was spent; for every subscription; and for every confirmed series.
pub proof fn law_report_shows_rows(r: MonthlyReport, shares: Seq<DriftShare>)
    requires
        shares.len() == r.pp_drift@.len(),
    ensures
        forall|i: int|
            0 <= i < r.businesses@.len() ==> shows_line(
                markdown(r, shares),
                "| "@ + (#[trigger] r.businesses@[i]).display_name@ + " ("@ + r.businesses@[i].tag@
                    + ") | "@ + shown(r.businesses@[i].income.0 as int) + " | "@ + shown(
                    r.businesses@[i].expenses.0 as int,
                ) + " | "@ + shown(r.businesses@[i].net.0 as int) + " |"@,
            ),
        r.pp_allocation.total.0 != 0 ==> forall|i: int|
            0 <= i < r.pp_drift@.len() ==> shows_line(
                markdown(r, shares),
                "| "@ + (#[trigger] r.pp_drift@[i]).asset_class@ + " | "@ + shown(
                    r.pp_drift@[i].actual_cents.0 as int,
                ) + " | "@ + shares[i].actual_pct@ + "% | "@ + (if r.pp_drift@[i].targeted {
                    "33.33"@
                } else {
                    "0.00"@
                }) + "% | "@ + shares[i].drift_pp@ + " | "@ + (if r.pp_drift@[i].targeted {
                    "22–44%"@
                } else {
                    "—"@
                }) + " | "@ + (if r.pp_drift@[i].band_breach {
                    "**BREACH**"@
                } else if r.pp_drift@[i].targeted {
                    "ok"@
                } else {
                    "—"@
                }) + " |"@,
            ),
        forall|i: int|
            0 <= i < r.top_expenses@.len() ==> shows_line(
                markdown(r, shares),
                "| "@ + (#[trigger] r.top_expenses@[i]).category@ + " | "@ + shown(
                    r.top_expenses@[i].amount.0 as int,
                ) + " |"@,
            ),
        forall|i: int|
            0 <= i < r.api_usage@.len() ==> shows_line(
                markdown(r, shares),
                "| "@ + (#[trigger] r.api_usage@[i]).name@ + " | "@ + r.api_usage@[i].provider_kind@
                    + " | "@ + (match r.api_usage@[i].amount {
                    Some(c) => shown(c.0 as int),
                    None => "—"@,
                }) + " | "@ + (match r.api_usage@[i].cadence {
                    Some(c) => c@,
                    None => "—"@,
                }) + " |"@,
            ),
        forall|i: int|
            0 <= i < r.recurring@.len() ==> shows_line(
                markdown(r, shares),
                "| "@ + (#[trigger] r.recurring@[i]).name@ + " | "@ + r.recurring@[i].label@ + " | "@
                    + r.recurring@[i].cadence@ + " | "@ + shown(
                    r.recurring@[i].last_amount.0 as int,
                ) + " | "@ + shown(r.recurring@[i].avg_amount.0 as int) + " | "@ + date_in_ast(
                    r.recurring@[i].predicted_next,
                ) + " |"@,
            ),
{
    let text = markdown(r, shares);
    let l1 = lemma_businesses_lines(stage(r, shares, 1), r.businesses@);
    assert(stage(r, shares, 2) == lined(stage(r, shares, 1), l1));
    assert forall|i: int| 0 <= i < r.businesses@.len() implies shows_line(
        text,
        business_line(#[trigger] r.businesses@[i]),
    ) by {
        lemma_section_shown(r, shares, 1, l1, business_line(r.businesses@[i]));
    }
    let l2 = lemma_drift_lines(stage(r, shares, 2), r.pp_allocation, r.pp_drift@, shares);
    assert(stage(r, shares, 3) == lined(stage(r, shares, 2), l2));
    if r.pp_allocation.total.0 != 0 {
        assert forall|i: int| 0 <= i < r.pp_drift@.len() implies shows_line(
            text,
            drift_line(#[trigger] r.pp_drift@[i], shares[i]),
        ) by {
            lemma_section_shown(r, shares, 2, l2, drift_line(r.pp_drift@[i], shares[i]));
        }
    }
    let l5 = lemma_expenses_lines(stage(r, shares, 5), r.top_expenses@);
    assert(stage(r, shares, 6) == lined(stage(r, shares, 5), l5));
    assert forall|i: int| 0 <= i < r.top_expenses@.len() implies shows_line(
        text,
        expense_line(#[trigger] r.top_expenses@[i]),
    ) by {
        lemma_section_shown(r, shares, 5, l5, expense_line(r.top_expenses@[i]));
    }
    let l6 = lemma_usages_lines(stage(r, shares, 6), r.api_usage@);
    assert(stage(r, shares, 7) == lined(stage(r, shares, 6), l6));
    assert forall|i: int| 0 <= i < r.api_usage@.len() implies shows_line(
        text,
        usage_line(#[trigger] r.api_usage@[i]),
    ) by {
        lemma_section_shown(r, shares, 6, l6, usage_line(r.api_usage@[i]));
    }
    let l7 = lemma_recurring_lines(stage(r, shares, 7), r.recurring@);
    assert(stage(r, shares, 8) == lined(stage(r, shares, 7), l7));
    assert forall|i: int| 0 <= i < r.recurring@.len() implies shows_line(
        text,
        recurring_line(#[trigger] r.recurring@[i]),
    ) by {
        lemma_section_shown(r, shares, 7, l7, recurring_line(r.recurring@[i]));
    }
}

/// Where there is nothing to show, the report says so: no net worth at the start of the month, no
/// business, nothing held in tier 2, nothing spent, no subscription, no confirmed series.
pub proof fn law_report_says_none(r: MonthlyReport, shares: Seq<DriftShare>)
    requires
        shares.len() == r.pp_drift@.len(),
    ensures
        r.net_worth_prior is None ==> shows_line(
            markdown(r, shares),
            "| Start of "@ + r.label@ + " | _no snapshot before window start_ |"@,
        ),
        r.businesses@.len() == 0 ==> shows_line(
            markdown(r, shares),
            "_No businesses configured._"@,
        ),
        r.pp_allocation.total.0 == 0 ==> shows_line(
            markdown(r, shares),
            "_No Tier-2 balances recorded._"@,
        ),
        r.top_expenses@.len() == 0 ==> shows_line(
            markdown(r, shares),
            "_No expense rows in window._"@,
        ),
        r.api_usage@.len() == 0 ==> shows_line(markdown(r, shares), "_None active._"@),
        r.recurring@.len() == 0 ==> shows_line(
            markdown(r, shares),
            "_No confirmed recurring series._"@,
        ),
{
    let l0 = lemma_net_worth_lines(stage(r, shares, 0), r);
    assert(stage(r, shares, 1) == lined(stage(r, shares, 0), l0));
    assert(l0.contains(l0[9]));
    lemma_section_shown(r, shares, 0, l0, l0[9]);
    let l1 = lemma_businesses_lines(stage(r, shares, 1), r.businesses@);
    assert(stage(r, shares, 2) == lined(stage(r, shares, 1), l1));
    if r.businesses@.len() == 0 {
        lemma_section_shown(r, shares, 1, l1, "_No businesses configured._"@);
    }
    let l2 = lemma_drift_lines(stage(r, shares, 2), r.pp_allocation, r.pp_drift@, shares);
    assert(stage(r, shares, 3) == lined(stage(r, shares, 2), l2));
    if r.pp_allocation.total.0 == 0 {
        lemma_section_shown(r, shares, 2, l2, "_No Tier-2 balances recorded._"@);
    }
    let l5 = lemma_expenses_lines(stage(r, shares, 5), r.top_expenses@);
    assert(stage(r, shares, 6) == lined(stage(r, shares, 5), l5));
    if r.top_expenses@.len() == 0 {
        lemma_section_shown(r, shares, 5, l5, "_No expense rows in window._"@);
    }
    let l6 = lemma_usages_lines(stage(r, shares, 6), r.api_usage@);
    assert(stage(r, shares, 7) == lined(stage(r, shares, 6), l6));
    if r.api_usage@.len() == 0 {
        lemma_section_shown(r, shares, 6, l6, "_None active._"@);
    }
    let l7 = lemma_recurring_lines(stage(r, shares, 7), r.recurring@);
    assert(stage(r, shares, 8) == lined(stage(r, shares, 7), l7));
    if r.recurring@.len() == 0 {
        lemma_section_shown(r, shares, 7, l7, "_No confirmed recurring series._"@);
    }
}

} // verus!
