//! The spot prices: gold as a reference, and a held quantity of Monero.

use super::{number_member, report};
use crate::db::Account;
use crate::ids::ProviderId;
use crate::json::Json;
use crate::provider::RefreshReport;
use vstd::prelude::*;

verus! {

use super::{is_report, number_at};

/// The price of an ounce of gold in dollars, or the complaint that the reply has none.
pub fn gold_price(reply: &Json) -> (r: core::result::Result<String, String>)
    ensures
        match (r, number_at(*reply, "price"@)) {
            (Ok(s), Some(n)) => s@ == n,
            (Err(e), None) => e@ == "gold_spot: no numeric price field in response"@,
            _ => false,
        },
{
    match number_member(reply, "price") {
        Some(n) => Ok(n),
        None => Err("gold_spot: no numeric price field in response".to_owned()),
    }
}

/// The report of a refresh; `dollars` is the price as it is shown.
pub fn gold_report(dollars: &str) -> (r: RefreshReport)
    ensures
        is_report(r, "gold_spot"@, 1, Some("XAU/USD $"@ + dollars@ + "/oz"@)),
{
    report("gold_spot", 1, Some("XAU/USD $".to_owned().concat(dollars).concat("/oz")))
}

/// There is no feed of transactions.
pub fn gold_no_feed() -> (r: RefreshReport)
    ensures
        is_report(r, "gold_spot"@, 0, Some("gold_spot: reference price, no per-tx feed"@)),
{
    report("gold_spot", 0, Some("gold_spot: reference price, no per-tx feed".to_owned()))
}

/// The account that the Monero holding stands on where the settings name none.
pub fn default_account_name() -> (r: String)
    ensures
        r@ == "xmr_wallet"@,
{
    "xmr_wallet".to_owned()
}

/// What is wrong with a ticker.
#[derive(Clone, Copy, Debug, PartialEq, Eq, Structural)]
pub enum TickerFault {
    /// The exchange reports errors.
    Exchange,
    NoResult,
    EmptyResult,
    NoPrice,
}

impl TickerFault {
    /// The complaint. That about the exchange goes on with the errors that it reports.
    pub open spec fn words(self) -> Seq<char> {
        match self {
            TickerFault::Exchange => "xmr_spot kraken error: "@,
            TickerFault::NoResult => "xmr_spot: response missing `result` object"@,
            TickerFault::EmptyResult => "xmr_spot: empty `result` object"@,
            TickerFault::NoPrice => "xmr_spot: no last-trade price (`c[0]`) in ticker"@,
        }
    }

    /// What is said of the fault.
    pub fn text(self) -> (r: &'static str)
        ensures
            r@ == self.words(),
    {
        match self {
            TickerFault::Exchange => "xmr_spot kraken error: ",
            TickerFault::NoResult => "xmr_spot: response missing `result` object",
            TickerFault::EmptyResult => "xmr_spot: empty `result` object",
            TickerFault::NoPrice => "xmr_spot: no last-trade price (`c[0]`) in ticker",
        }
    }
}

/// Whether the exchange reports errors.
pub open spec fn reports_errors(reply: Json) -> bool {
    match reply.items_at("error"@) {
        Some(items) => items.len() > 0,
        None => false,
    }
}

/// The price of the last trade in an entry of a ticker.
pub open spec fn last_trade(entry: Json) -> Option<Seq<char>> {
    match entry.items_at("c"@) {
        Some(items) => if items.len() > 0 {
            items[0].text()
        } else {
            None
        },
        None => None,
    }
}

/// The entries of a ticker.
pub open spec fn ticker_entries(reply: Json) -> Option<Seq<(String, Json)>> {
    match reply.at("result"@) {
        Some(v) => v.members(),
        None => None,
    }
}

/// The price in a ticker: the last trade of its first entry, whatever the entry is called.
pub open spec fn is_price(r: core::result::Result<String, TickerFault>, reply: Json) -> bool {
    if reports_errors(reply) {
        r == Err::<String, TickerFault>(TickerFault::Exchange)
    } else {
        match ticker_entries(reply) {
            None => r == Err::<String, TickerFault>(TickerFault::NoResult),
            Some(ms) => if ms.len() == 0 {
                r == Err::<String, TickerFault>(TickerFault::EmptyResult)
            } else {
                match last_trade(ms[0].1) {
                    Some(price) => r is Ok && r->Ok_0@ == price,
                    None => r == Err::<String, TickerFault>(TickerFault::NoPrice),
                }
            },
        }
    }
}

/// The price in a ticker, as the exchange writes it.
pub fn read_price(reply: &Json) -> (r: core::result::Result<String, TickerFault>)
    ensures
        is_price(r, *reply),
{
    match reply.get_array("error") {
        Some(items) => {
            if items.len() > 0 {
                return Err(TickerFault::Exchange);
            }
        },
        None => {},
    }
    let entries: &Vec<(String, Json)> = match reply.get("result") {
        Some(v) => match v.as_object() {
            Some(ms) => ms,
            None => return Err(TickerFault::NoResult),
        },
        None => return Err(TickerFault::NoResult),
    };
    if entries.len() == 0 {
        return Err(TickerFault::EmptyResult);
    }
    match entries[0].1.get_array("c") {
        Some(items) => if items.len() > 0 {
            match items[0].as_str() {
                Some(s) => Ok(s.to_owned()),
                None => Err(TickerFault::NoPrice),
            }
        } else {
            Err(TickerFault::NoPrice)
        },
        None => Err(TickerFault::NoPrice),
    }
}

/// The account of the holding: a backbone asset. It has no external id, so it takes over an
/// account of the same name.
pub fn xmr_account(name: String, provider_id: ProviderId) -> (r: Account)
    ensures
        super::is_provider_account(
            r,
            name@,
            "asset"@,
            Some("xmr"@),
            Some("t1"@),
            "USD"@,
            provider_id,
            None,
            None,
        ),
{
    Account {
        id: None,
        name,
        kind: "asset".to_owned(),
        asset_class: Some("xmr".to_owned()),
        tier: Some("t1".to_owned()),
        currency: "USD".to_owned(),
        provider_id: Some(provider_id),
        business_id: None,
        external_id: None,
        active: true,
    }
}

/// The report of a refresh; the three figures are given as they are shown.
pub fn xmr_report(quantity: &str, price: &str, value: &str) -> (r: RefreshReport)
    ensures
        is_report(
            r,
            "xmr_spot"@,
            1,
            Some(quantity@ + " XMR × $"@ + price@ + " = $"@ + value@),
        ),
{
    report(
        "xmr_spot",
        1,
        Some(quantity.to_owned().concat(" XMR × $").concat(price).concat(" = $").concat(value)),
    )
}

/// There is no feed of transactions.
pub fn xmr_no_feed() -> (r: RefreshReport)
    ensures
        is_report(r, "xmr_spot"@, 0, Some("xmr_spot: spot-valued holding, no per-tx feed"@)),
{
    report("xmr_spot", 0, Some("xmr_spot: spot-valued holding, no per-tx feed".to_owned()))
}

} // verus!
