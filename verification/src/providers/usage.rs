//! The usage providers: OpenAI, OpenRouter, ScrapeCreators and Postmark. Each keeps one
//! figure per poll on a subscription account.

use super::plaid::push_items;
use super::{
    add_up, can_add_up, either_member, number_member, report, str_or, usage_account, Reading,
};
use crate::db::Account;
use crate::error::{CoreError, Result};
use crate::ids::ProviderId;
use crate::json::Json;
use crate::money::Cents;
use crate::provider::RefreshReport;
use crate::text::{dec2_string, dec_string, int_string};
use crate::time::{display_iso_date, midnight_utc, utc_clock, year_string, Clock};
use vstd::prelude::*;

verus! {

use super::plaid::{pointed_to, texts};
use super::{
    adds_up, first_member, is_complaint, is_provider_account, is_report, items_or_none, number_at,
    sum, text_or,
};
use crate::text::{dec, dec2, dec_int, opt_text};
use crate::time::{clock_of, utc_fields, utc_midnight, utc_text, valid_instant, year_text};

// ---------------------------------------------------------------------------
// OpenAI
// ---------------------------------------------------------------------------

/// A limit on the pages that are followed, against a cursor that never ends.
pub const MAX_PAGES: usize = 40;

/// The first instant of the month of an instant in UTC.
pub fn month_start_unix(now: i64) -> (r: i64)
    requires
        valid_instant(now),
    ensures
        Some(r) == utc_midnight(
            clock_of(utc_fields(now)).year,
            clock_of(utc_fields(now)).month,
            1,
        ),
{
    let clock: Clock = utc_clock(now).unwrap();
    midnight_utc(clock.year, clock.month, 1).unwrap()
}

/// The amount of one cost result, as the text of a number: absent, a number, or no number.
pub open spec fn amount_of(r: Json) -> Option<Option<Seq<char>>> {
    match r.at("amount"@) {
        Some(a) => match a.at("value"@) {
            Some(v) => Some(v.number()),
            None => None,
        },
        None => None,
    }
}

/// The amounts of some results; `None` if one that is there is no number.
pub open spec fn result_amounts(results: Seq<Json>) -> Option<Seq<Seq<char>>>
    decreases results.len(),
{
    if results.len() == 0 {
        Some(Seq::empty())
    } else {
        match result_amounts(results.drop_last()) {
            None => None,
            Some(before) => match amount_of(results.last()) {
                None => Some(before),
                Some(None) => None,
                Some(Some(n)) => Some(before.push(n)),
            },
        }
    }
}

/// The results in some buckets, in their order.
pub open spec fn results_in(buckets: Seq<Json>) -> Seq<Json>
    decreases buckets.len(),
{
    if buckets.len() == 0 {
        Seq::empty()
    } else {
        results_in(buckets.drop_last()) + items_or_none(buckets.last(), "results"@)
    }
}

proof fn lemma_amounts_fail(results: Seq<Json>, k: int)
    requires
        0 <= k <= results.len(),
        result_amounts(results.take(k)) is None,
    ensures
        result_amounts(results) is None,
    decreases results.len() - k,
{
    if k < results.len() {
        assert(results.take(k + 1).drop_last() =~= results.take(k));
        lemma_amounts_fail(results, k + 1);
    } else {
        assert(results.take(k) =~= results);
    }
}

fn flatten(buckets: &Vec<Json>) -> (r: Vec<&Json>)
    ensures
        pointed_to(r@) == results_in(buckets@),
{
    let mut out: Vec<&Json> = Vec::new();
    let mut i: usize = 0;
    assert(buckets@.take(0) =~= Seq::<Json>::empty());
    assert(pointed_to(out@) =~= Seq::<Json>::empty());
    while i < buckets.len()
        invariant
            i <= buckets.len(),
            pointed_to(out@) == results_in(buckets@.take(i as int)),
        decreases buckets.len() - i,
    {
        assert(buckets@.take(i + 1).drop_last() =~= buckets@.take(i as int));
        assert(buckets@.take(i + 1).last() == buckets@[i as int]);
        push_items(&mut out, &buckets[i], "results");
        i = i + 1;
    }
    assert(buckets@.take(i as int) =~= buckets@);
    out
}

/// The amounts of a page of costs, in dollars. A result without an amount is passed over;
/// one whose amount is no number fails the whole refresh, for else the month would be
/// understated.
pub fn page_amounts(page: &Json) -> (r: core::result::Result<Vec<String>, String>)
    ensures
        match (r, result_amounts(results_in(items_or_none(*page, "data"@)))) {
            (Ok(v), Some(s)) => texts(v@) == s,
            (Err(e), None) => e@ == "openai cost bucket has non-numeric amount.value"@,
            _ => false,
        },
{
    let mut out: Vec<String> = Vec::new();
    assert(texts(out@) =~= Seq::<Seq<char>>::empty());
    let buckets: &Vec<Json> = match page.get_array("data") {
        Some(b) => b,
        None => return Ok(out),
    };
    let results: Vec<&Json> = flatten(buckets);
    let ghost all = results_in(buckets@);
    let mut i: usize = 0;
    assert(all.take(0) =~= Seq::<Json>::empty());
    while i < results.len()
        invariant
            i <= results.len(),
            all == pointed_to(results@),
            all == results_in(items_or_none(*page, "data"@)),
            result_amounts(all.take(i as int)) == Some(texts(out@)),
        decreases results.len() - i,
    {
        assert(all.take(i + 1).drop_last() =~= all.take(i as int));
        assert(all.take(i + 1).last() == *results@[i as int]);
        match results[i].get("amount") {
            Some(a) => match a.get("value") {
                Some(v) => match v.as_number() {
                    Some(n) => {
                        let ghost last = out@;
                        out.push(n);
                        assert(texts(out@) =~= texts(last).push(n@));
                    },
                    None => {
                        proof {
                            lemma_amounts_fail(all, i + 1);
                        }
                        return Err("openai cost bucket has non-numeric amount.value".to_owned());
                    },
                },
                None => {},
            },
            None => {},
        }
        i = i + 1;
    }
    assert(all.take(i as int) =~= all);
    Ok(out)
}

/// The page that follows, as long as there is more and the limit is not reached. `pages`
/// counts the pages read, this one included.
pub open spec fn goes_on(page: Json, pages: int) -> Option<Seq<char>> {
    if page.is_set("has_more"@) && pages < MAX_PAGES {
        page.text_at("next_page"@)
    } else {
        None
    }
}

/// The page that follows, as long as there is more and the limit is not reached. `pages`
/// counts the pages read, this one included.
pub fn next_page(page: &Json, pages: usize) -> (r: Option<String>)
    ensures
        opt_text(r) == goes_on(*page, pages as int),
{
    if page.flag("has_more") && pages < MAX_PAGES {
        match page.get_str("next_page") {
            Some(p) => Some(p.to_owned()),
            None => None,
        }
    } else {
        None
    }
}

/// Whether costs were read page by page: `asked[i]` is the page that was asked for (nothing for
/// the first), `pages[i]` what came, and the last of `asked` what follows now.
pub open spec fn is_run(asked: Seq<Option<Seq<char>>>, pages: Seq<Json>) -> bool {
    &&& asked.len() == pages.len() + 1
    &&& asked[0] is None
    &&& forall|i: int|
        0 <= i < pages.len() ==> #[trigger] asked[i + 1] == goes_on(pages[i], i + 1) && (i > 0
            ==> asked[i] is Some)
}

/// Whether a page is the last, whatever the limit: it does not say that there is more, or not
/// which page that is.
pub open spec fn ends_costs(page: Json) -> bool {
    !page.is_set("has_more"@) || page.text_at("next_page"@) is None
}

/// Costs that are read page by page are asked for each time with the page that the one before
/// names. They end with the first page that names none or says that there is no more, or with
/// the last that the limit allows, and not before.
pub proof fn law_whole_costs(asked: Seq<Option<Seq<char>>>, pages: Seq<Json>)
    requires
        is_run(asked, pages),
    ensures
        pages.len() <= MAX_PAGES,
        forall|i: int|
            0 < i < pages.len() ==> #[trigger] asked[i] is Some && asked[i] == pages[i
                - 1].text_at("next_page"@),
        forall|i: int| 0 <= i < pages.len() - 1 ==> !ends_costs(#[trigger] pages[i]),
        pages.len() > 0 ==> (asked.last() is None <==> ends_costs(pages.last()) || pages.len()
            == MAX_PAGES),
{
    let n = pages.len() as int;
    if n > 0 {
        assert(asked[(n - 1) + 1] == goes_on(pages[n - 1], n));
    }
    if n > 1 {
        assert(asked[(n - 2) + 1] == goes_on(pages[n - 2], n - 1));
        assert(asked[n - 1] is Some);
    }
    assert forall|i: int| 0 < i < n implies #[trigger] asked[i] is Some && asked[i] == pages[i
        - 1].text_at("next_page"@) by {
        assert(asked[(i - 1) + 1] == goes_on(pages[i - 1], i));
        assert(asked[i + 1] == goes_on(pages[i], i + 1));
    }
    assert forall|i: int| 0 <= i < n - 1 implies !ends_costs(#[trigger] pages[i]) by {
        assert(asked[i + 1] == goes_on(pages[i], i + 1));
        assert(asked[(i + 1) + 1] == goes_on(pages[i + 1], i + 2));
    }
}

/// The account that holds the cost of the month.
pub fn openai_account(label: &str, provider_id: ProviderId) -> (r: Account)
    ensures
        is_provider_account(
            r,
            "OpenAI API — "@ + label@,
            "subscription"@,
            None,
            None,
            "USD"@,
            provider_id,
            None,
            Some("mtd_cost"@),
        ),
{
    usage_account("OpenAI API — ".to_owned().concat(label), "USD", provider_id, "mtd_cost")
}

/// The report of a refresh; `dollars` is the cost as it is shown.
pub fn openai_report(dollars: &str) -> (r: RefreshReport)
    ensures
        is_report(r, "openai_usage"@, 1, Some("MTD cost $"@ + dollars@)),
{
    report("openai_usage", 1, Some("MTD cost $".to_owned().concat(dollars)))
}

/// There is no feed of transactions.
pub fn openai_no_feed() -> (r: RefreshReport)
    ensures
        is_report(r, "openai_usage"@, 0, Some("openai_usage: aggregate only, no per-tx feed"@)),
{
    report("openai_usage", 0, Some("openai_usage: aggregate only, no per-tx feed".to_owned()))
}

// ---------------------------------------------------------------------------
// OpenRouter
// ---------------------------------------------------------------------------

/// The spending so far, in dollars. A reply without the number is an error: a zero would
/// look like a large refund next to the figure before it.
pub fn read_usage(reply: &Json) -> (r: Result<String>)
    ensures
        match reply.at("data"@) {
            None => r is Err && is_complaint(r->Err_0, "openrouter: no data field"@),
            Some(d) => match (r, number_at(d, "total_usage"@)) {
                (Ok(s), Some(n)) => s@ == n,
                (Err(e), None) => is_complaint(
                    e,
                    "openrouter: missing/non-numeric total_usage"@,
                ),
                _ => false,
            },
        },
{
    match reply.get("data") {
        Some(d) => match number_member(d, "total_usage") {
            Some(n) => Ok(n),
            None => Err(CoreError::Rpc("openrouter: missing/non-numeric total_usage".to_owned())),
        },
        None => Err(CoreError::Rpc("openrouter: no data field".to_owned())),
    }
}

/// The account that holds the spending.
pub fn openrouter_account(label: &str, provider_id: ProviderId) -> (r: Account)
    ensures
        is_provider_account(
            r,
            "OpenRouter — "@ + label@,
            "subscription"@,
            None,
            None,
            "USD"@,
            provider_id,
            None,
            Some("credits"@),
        ),
{
    usage_account("OpenRouter — ".to_owned().concat(label), "USD", provider_id, "credits")
}

/// The report of a refresh; `dollars` is the spending as it is shown.
pub fn openrouter_report(dollars: &str) -> (r: RefreshReport)
    ensures
        is_report(r, "openrouter"@, 1, Some("cumulative usage $"@ + dollars@)),
{
    report("openrouter", 1, Some("cumulative usage $".to_owned().concat(dollars)))
}

/// There is no feed of transactions.
pub fn openrouter_no_feed() -> (r: RefreshReport)
    ensures
        is_report(r, "openrouter"@, 0, Some("openrouter: no per-tx feed in v1"@)),
{
    report("openrouter", 0, Some("openrouter: no per-tx feed in v1".to_owned()))
}

// ---------------------------------------------------------------------------
// ScrapeCreators
// ---------------------------------------------------------------------------

/// The credits that a reply tells of.
pub open spec fn credits_of(reply: Json) -> Option<i64> {
    match first_member(reply, "creditCount"@, "credits"@) {
        Some(v) => v.integer(),
        None => None,
    }
}

/// The credits that are left, or the complaint that the reply does not say.
pub fn read_credits(reply: &Json) -> (r: Result<i64>)
    ensures
        match (r, credits_of(*reply)) {
            (Ok(n), Some(c)) => n == c,
            (Err(e), None) => is_complaint(e, "scrapecreators: no creditCount/credits field"@),
            _ => false,
        },
{
    let found: Option<i64> = match either_member(reply, "creditCount", "credits") {
        Some(v) => v.as_i64(),
        None => None,
    };
    match found {
        Some(n) => Ok(n),
        None => Err(CoreError::Rpc("scrapecreators: no creditCount/credits field".to_owned())),
    }
}

/// The account that holds the credits. They stand where cents do; the currency says that
/// they are none.
pub open spec fn is_credits_account(a: Account, label: Seq<char>, provider_id: ProviderId) -> bool {
    is_provider_account(
        a,
        "ScrapeCreators — "@ + label + " (credits)"@,
        "subscription"@,
        None,
        None,
        "CREDITS"@,
        provider_id,
        None,
        Some("credit-balance"@),
    )
}

/// The account that holds the credits.
pub fn credits_account(label: &str, provider_id: ProviderId) -> (r: Account)
    ensures
        is_credits_account(r, label@, provider_id),
{
    usage_account(
        "ScrapeCreators — ".to_owned().concat(label).concat(" (credits)"),
        "CREDITS",
        provider_id,
        "credit-balance",
    )
}

/// The report of a refresh.
pub fn credits_report(credits: i64) -> (r: RefreshReport)
    ensures
        is_report(
            r,
            "scrapecreators"@,
            1,
            Some(dec_int(credits as int) + " credits remaining"@),
        ),
{
    report("scrapecreators", 1, Some(int_string(credits).concat(" credits remaining")))
}

/// What a refresh comes to: the credits, stored and reported, or the complaint.
pub fn read_credit_balance(reply: &Json, label: &str, provider_id: ProviderId) -> (r: Result<Reading>)
    ensures
        match credits_of(*reply) {
            Some(n) => r is Ok && is_credits_account(r->Ok_0.account, label@, provider_id)
                && r->Ok_0.balance.0 == n && is_report(
                r->Ok_0.report,
                "scrapecreators"@,
                1,
                Some(dec_int(n as int) + " credits remaining"@),
            ),
            None => r is Err && is_complaint(
                r->Err_0,
                "scrapecreators: no creditCount/credits field"@,
            ),
        },
{
    match read_credits(reply) {
        Ok(n) => Ok(
            Reading {
                account: credits_account(label, provider_id),
                balance: Cents(n),
                report: credits_report(n),
            },
        ),
        Err(e) => Err(e),
    }
}

/// There is no feed of transactions.
pub fn credits_no_feed() -> (r: RefreshReport)
    ensures
        is_report(r, "scrapecreators"@, 0, Some("scrapecreators: no per-call feed exposed"@)),
{
    report("scrapecreators", 0, Some("scrapecreators: no per-call feed exposed".to_owned()))
}

// ---------------------------------------------------------------------------
// Postmark
// ---------------------------------------------------------------------------

/// The servers of a reply, or the complaint that it has none.
pub fn reply_servers(reply: &Json) -> (r: Result<&Vec<Json>>)
    ensures
        match (r, reply.items_at("Servers"@)) {
            (Ok(v), Some(items)) => v@ == items,
            (Err(e), None) => is_complaint(e, "postmark: no Servers array"@),
            _ => false,
        },
{
    match reply.get_array("Servers") {
        Some(v) => Ok(v),
        None => Err(CoreError::Rpc("postmark: no Servers array".to_owned())),
    }
}

/// The token of a server: the first of its tokens, if that is a text.
pub open spec fn token_of(server: Json) -> Option<Seq<char>> {
    match server.items_at("ApiTokens"@) {
        Some(items) => if items.len() > 0 {
            items[0].text()
        } else {
            None
        },
        None => None,
    }
}

/// The token of a server; one without is passed over.
pub fn server_token(server: &Json) -> (r: Option<String>)
    ensures
        opt_text(r) == token_of(*server),
{
    match server.get_array("ApiTokens") {
        Some(items) => if items.len() > 0 {
            match items[0].as_str() {
                Some(s) => Some(s.to_owned()),
                None => None,
            }
        } else {
            None
        },
        None => None,
    }
}

/// The name of a server, empty where it has none.
pub fn server_name(server: &Json) -> (r: String)
    ensures
        r@ == text_or(*server, "Name"@, ""@),
{
    str_or(server, "Name", "")
}

/// The path of the statistics from the first of the month to the day of an instant.
pub fn stats_path(now: i64) -> (r: String)
    requires
        valid_instant(now),
    ensures
        r@ == "/stats/outbound?fromdate="@ + year_text(clock_of(utc_fields(now)).year as int) + "-"@
            + dec2(clock_of(utc_fields(now)).month as nat) + "-01"@ + "&todate="@ + utc_text(
            now,
            "%Y-%m-%d"@,
        ),
{
    let clock: Clock = utc_clock(now).unwrap();
    "/stats/outbound?fromdate=".to_owned().concat(year_string(clock.year).as_str()).concat(
        "-",
    ).concat(dec2_string(clock.month as u64).as_str()).concat("-01").concat("&todate=").concat(
        display_iso_date(now).as_str(),
    )
}

/// The messages that a reply says were sent; none where it does not say.
pub open spec fn sent_of(stats: Json) -> i64 {
    match stats.int_at("Sent"@) {
        Some(n) => n,
        None => 0,
    }
}

/// The messages of the servers that answered, in the servers' order.
pub open spec fn sent_counts(answers: Seq<Option<Json>>) -> Seq<i64>
    decreases answers.len(),
{
    if answers.len() == 0 {
        Seq::empty()
    } else {
        match answers.last() {
            Some(stats) => sent_counts(answers.drop_last()).push(sent_of(stats)),
            None => sent_counts(answers.drop_last()),
        }
    }
}

/// How many servers did not answer.
pub open spec fn failures(answers: Seq<Option<Json>>) -> nat
    decreases answers.len(),
{
    if answers.len() == 0 {
        0
    } else {
        failures(answers.drop_last()) + (if answers.last() is None {
            1nat
        } else {
            0nat
        })
    }
}

/// The messages of the servers that answered, and how many did not. `answers` has one entry
/// for each server with a token: its statistics, or nothing.
pub fn tally(answers: &Vec<Option<Json>>) -> (r: (Vec<i64>, u32))
    requires
        answers@.len() <= u32::MAX,
    ensures
        r.0@ == sent_counts(answers@),
        r.1 == failures(answers@),
{
    let mut sent: Vec<i64> = Vec::new();
    let mut failed: u32 = 0;
    let mut i: usize = 0;
    assert(answers@.take(0) =~= Seq::<Option<Json>>::empty());
    while i < answers.len()
        invariant
            i <= answers.len(),
            answers@.len() <= u32::MAX,
            failed <= i,
            sent@ == sent_counts(answers@.take(i as int)),
            failed == failures(answers@.take(i as int)),
        decreases answers.len() - i,
    {
        assert(answers@.take(i + 1).drop_last() =~= answers@.take(i as int));
        assert(answers@.take(i + 1).last() == answers@[i as int]);
        match &answers[i] {
            Some(stats) => {
                let n: i64 = match stats.get_i64("Sent") {
                    Some(n) => n,
                    None => 0,
                };
                sent.push(n);
            },
            None => {
                failed = failed + 1;
            },
        }
        i = i + 1;
    }
    assert(answers@.take(i as int) =~= answers@);
    (sent, failed)
}

/// The account that holds the count of messages.
pub open spec fn is_postmark_account(a: Account, label: Seq<char>, provider_id: ProviderId) -> bool {
    is_provider_account(
        a,
        "Postmark — "@ + label + " (msgs)"@,
        "subscription"@,
        None,
        None,
        "MESSAGES"@,
        provider_id,
        None,
        Some("mtd_sent"@),
    )
}

/// The account that holds the count of messages.
pub fn postmark_account(label: &str, provider_id: ProviderId) -> (r: Account)
    ensures
        is_postmark_account(r, label@, provider_id),
{
    usage_account(
        "Postmark — ".to_owned().concat(label).concat(" (msgs)"),
        "MESSAGES",
        provider_id,
        "mtd_sent",
    )
}

/// The message of the report. A server that did not answer is not passed over in silence.
pub open spec fn postmark_message(sent: int, failed: nat) -> Seq<char> {
    "MTD sent: "@ + dec_int(sent) + (if failed > 0 {
        " messages ("@ + dec(failed) + " server(s) errored — count understated)"@
    } else {
        " messages"@
    })
}

/// The report of a refresh.
pub fn postmark_report(total_sent: i64, failed: u32) -> (r: RefreshReport)
    ensures
        is_report(
            r,
            "postmark"@,
            1,
            Some(postmark_message(total_sent as int, failed as nat)),
        ),
{
    let sent: String = "MTD sent: ".to_owned().concat(int_string(total_sent).as_str());
    let message: String = if failed > 0 {
        let rest: String = " messages (".to_owned().concat(
            dec_string(failed as u64).as_str(),
        ).concat(" server(s) errored — count understated)");
        sent.concat(rest.as_str())
    } else {
        sent.concat(" messages")
    };
    report("postmark", 1, Some(message))
}

/// What a refresh comes to, from the answers of the servers with a token: the messages of
/// those that answered, stored and reported. None where there are too many servers to count
/// or the messages cannot be added up.
pub fn read_outbound(answers: &Vec<Option<Json>>, label: &str, provider_id: ProviderId) -> (r:
    Option<Reading>)
    ensures
        r is Some == (answers@.len() <= u32::MAX && adds_up(sent_counts(answers@))),
        r is Some ==> is_postmark_account(r->0.account, label@, provider_id),
        r is Some ==> r->0.balance.0 == sum(sent_counts(answers@)),
        r is Some ==> is_report(
            r->0.report,
            "postmark"@,
            1,
            Some(postmark_message(sum(sent_counts(answers@)), failures(answers@))),
        ),
{
    if answers.len() as u64 > u32::MAX as u64 {
        return None;
    }
    let (sent, failed): (Vec<i64>, u32) = tally(answers);
    if !can_add_up(&sent) {
        return None;
    }
    let total: i64 = add_up(&sent);
    Some(
        Reading {
            account: postmark_account(label, provider_id),
            balance: Cents(total),
            report: postmark_report(total, failed),
        },
    )
}

/// There is no feed of transactions: single messages are too many.
pub fn postmark_no_feed() -> (r: RefreshReport)
    ensures
        is_report(r, "postmark"@, 0, Some("postmark: per-message feed not enabled in v1"@)),
{
    report("postmark", 0, Some("postmark: per-message feed not enabled in v1".to_owned()))
}

} // verus!
