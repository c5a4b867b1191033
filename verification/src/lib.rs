//! Personal-finance core: money, recurring-charge detection, reports, alerts and
//! the provider and request rules of the arca daemon.

pub mod alerts;
pub mod calendar;
pub mod config;
pub mod db;
pub mod debt;
pub mod demo;
pub mod digest;
pub mod error;
pub mod feed;
pub mod handler;
pub mod ids;
pub mod json;
pub mod laws;
pub mod ledger;
pub mod money;
pub mod order;
pub mod pp;
pub mod provider;
pub mod providers;
pub mod recurring;
pub mod registry;
pub mod report;
pub mod reports;
pub mod rpc;
pub mod scheduler;
pub mod secrets;
pub mod server;
pub mod store;
pub mod text;
pub mod time;
pub mod watch;
