//! What the bot knows of the markets and of its account.
use vstd::prelude::*;

use crate::decimal::Decimal;
use crate::domain::{Position, RecentTrade};
use crate::table::SymbolMap;
use crate::time::Timestamp;

verus! {

/// What is known of the market of a symbol.
pub struct SymbolMarket {
    /// The price between the best bid and the best ask.
    pub mid_price: Option<Decimal>,
    /// The distance from the best bid to the best ask, in basis points.
    pub bbo_spread_bps: Option<Decimal>,
    pub mark_price: Option<Decimal>,
    pub spot_price: Option<Decimal>,
    pub last_updated: Option<Timestamp>,
    pub recent_trades: Vec<RecentTrade>,
}

/// What is known of all markets.
pub struct MarketState {
    pub symbols: SymbolMap<SymbolMarket>,
}

/// What is known of the markets and of the account.
pub struct BotState {
    pub market: MarketState,
    pub positions: SymbolMap<Position>,
}

} // verus!
