//! The logic of a market making bot: factors that quotes are made from, scores of
//! fills, and the steps of its cleanup, its price feed and its notifier.
use vstd::prelude::*;

pub mod account_cleanup;
pub mod average;
pub mod binance_feed;
pub mod book;
pub mod config;
pub mod decimal;
pub mod domain;
pub mod factors;
pub mod fill_analytics;
pub mod rounding;
pub mod state;
pub mod table;
pub mod telegram;
pub mod text;
pub mod time;

verus! {

} // verus!
