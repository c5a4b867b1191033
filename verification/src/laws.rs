//! What the operations are for, stated of what goes in and what comes out.
//!
//! Each law takes the result of an operation, as its contract gives it, and says in plain terms
//! what must hold of it, or how the results of two calls relate.

pub mod alerting;
pub mod amounts;
pub mod balances;
pub mod dates;
pub mod engines;
pub mod feeds;
pub mod flows;
pub mod lists;
pub mod markdown;
pub mod monthly;
pub mod obligations;
pub mod payees;
pub mod replies;
pub mod sample;
pub mod series;
pub mod service;
pub mod texts;
pub mod tiers;
pub mod transactions;
pub mod upcoming;
pub mod views;
pub mod wire;
pub mod writes;
