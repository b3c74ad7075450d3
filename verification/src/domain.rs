//! The vocabulary of the bot: instruments, orders, fills, positions, events
//! and factors.
use vstd::prelude::*;

use crate::book::PriceLevels;
use crate::decimal::{Decimal, ONE};
use crate::time::Timestamp;

verus! {

/// What is known of an instrument of a venue.
#[derive(Clone, Debug)]
pub struct InstrumentMeta {
    pub symbol: String,
    pub contract_id: u32,
    pub underlying_decimals: u32,
    pub settlement_decimals: u32,
    pub min_order_size: Decimal,
    pub tick_size: Option<Decimal>,
}

/// A side of the book.
#[derive(Clone, Copy, Debug, PartialEq, Eq, Structural, Hash)]
pub enum Side {
    Ask,
    Bid,
}

impl Side {
    /// One for a buyer, and minus one for a seller, in units.
    pub open spec fn direction(self) -> int {
        match self {
            Side::Bid => ONE as int,
            Side::Ask => -ONE,
        }
    }

    /// The side across the book.
    pub open spec fn across(self) -> Side {
        match self {
            Side::Bid => Side::Ask,
            Side::Ask => Side::Bid,
        }
    }

    /// The sign of a position that a fill on this side adds to.
    pub fn sign(self) -> (r: Decimal)
        ensures
            r@ == self.direction(),
            r@ == (if self == Side::Bid {
                ONE as int
            } else {
                -ONE
            }),
    {
        match self {
            Side::Bid => Decimal::one(),
            Side::Ask => Decimal::one().negated(),
        }
    }

    /// The other side.
    pub fn opposite(self) -> (r: Self)
        ensures
            r == self.across(),
            r == Side::Bid <==> self == Side::Ask,
    {
        match self {
            Side::Bid => Side::Ask,
            Side::Ask => Side::Bid,
        }
    }
}

/// The opposite of the opposite is the side itself, no side is its own
/// opposite, and opposite sides have opposite signs.
pub proof fn law_opposite_sides(side: Side)
    ensures
        side.across().across() == side,
        side.across() != side,
        side.across().direction() == -side.direction(),
{
}

impl Default for Side {
    fn default() -> (r: Self)
        ensures
            r == Side::Bid,
    {
        Side::Bid
    }
}

/// How an order is executed.
#[derive(Clone, Copy, Debug, PartialEq, Eq, Structural)]
pub enum OrderType {
    Limit,
    Market,
}

/// The state that a market is in.
#[derive(Clone, Copy, Debug, PartialEq, Eq, Structural)]
pub enum MarketRegime {
    Quiet,
    VolatileBalanced,
    TrendingToxic,
}

impl Default for MarketRegime {
    fn default() -> (r: Self)
        ensures
            r == MarketRegime::Quiet,
    {
        MarketRegime::Quiet
    }
}

/// A quote that the bot wants to have in the book.
#[derive(Clone, Debug)]
pub struct QuoteIntent {
    pub symbol: String,
    pub level_index: usize,
    pub side: Side,
    pub price: Decimal,
    pub quantity: Decimal,
    pub post_only: bool,
}

/// An order to be sent to a venue.
#[derive(Clone, Debug)]
pub struct OrderRequest {
    pub symbol: String,
    pub contract_id: u32,
    pub level_index: usize,
    pub side: Side,
    pub order_type: OrderType,
    pub price: Option<Decimal>,
    pub quantity: Decimal,
    pub post_only: bool,
}

/// An order that rests at a venue.
#[derive(Clone, Debug)]
pub struct OpenOrder {
    pub order_id: Option<String>,
    pub nonce: u64,
    pub level_index: Option<usize>,
    pub symbol: String,
    pub side: Side,
    pub price: Option<Decimal>,
    pub remaining_quantity: Decimal,
}

impl Default for OpenOrder {
    fn default() -> (r: Self)
        ensures
            r.order_id is None,
            r.nonce == 0,
            r.level_index is None,
            r.symbol@ == Seq::<char>::empty(),
            r.side == Side::Bid,
            r.price is None,
            r.remaining_quantity@ == 0,
    {
        OpenOrder {
            order_id: None,
            nonce: 0,
            level_index: None,
            symbol: String::new(),
            side: Side::Bid,
            price: None,
            remaining_quantity: Decimal::zero(),
        }
    }
}

/// An execution of one of the bot's orders.
#[derive(Clone, Debug)]
pub struct Fill {
    pub symbol: String,
    pub side: Side,
    pub price: Decimal,
    pub quantity: Decimal,
    pub timestamp: Timestamp,
}

/// A position in an instrument. A short one has a negative quantity.
#[derive(Debug)]
pub struct Position {
    pub symbol: String,
    pub quantity: Decimal,
    pub entry_price: Decimal,
    pub realized_pnl: Decimal,
    pub unrealized_pnl: Decimal,
}

impl Clone for Position {
    fn clone(&self) -> (r: Self)
        ensures
            r == *self,
    {
        Position {
            symbol: self.symbol.clone(),
            quantity: self.quantity,
            entry_price: self.entry_price,
            realized_pnl: self.realized_pnl,
            unrealized_pnl: self.unrealized_pnl,
        }
    }
}

impl Default for Position {
    fn default() -> (r: Self)
        ensures
            r.symbol@ == Seq::<char>::empty(),
            r.quantity@ == 0,
            r.entry_price@ == 0,
            r.realized_pnl@ == 0,
            r.unrealized_pnl@ == 0,
    {
        Position {
            symbol: String::new(),
            quantity: Decimal::zero(),
            entry_price: Decimal::zero(),
            realized_pnl: Decimal::zero(),
            unrealized_pnl: Decimal::zero(),
        }
    }
}

/// An event of a market data stream.
#[derive(Clone, Debug)]
pub enum MarketEvent {
    StreamReconnected { symbols: Vec<String> },
    MarkPrice { symbol: String, price: Decimal, timestamp: Timestamp },
    SpotPrice { symbol: String, price: Decimal, timestamp: Timestamp },
    BestBidAsk { symbol: String, bid: Decimal, ask: Decimal, timestamp: Timestamp },
    Trade {
        symbol: String,
        price: Decimal,
        quantity: Decimal,
        taker_side: Option<Side>,
        timestamp: Timestamp,
    },
    OrderBookSnapshot {
        symbol: String,
        bids: PriceLevels,
        asks: PriceLevels,
        timestamp: Timestamp,
    },
    OrderBookUpdate {
        symbol: String,
        bids: PriceLevels,
        asks: PriceLevels,
        timestamp: Timestamp,
    },
}

/// An event of an account stream.
#[derive(Clone, Debug)]
pub enum PrivateEvent {
    StreamReconnected,
    OpenOrders(Vec<OpenOrder>),
    UpsertOpenOrder(OpenOrder),
    RemoveOpenOrder { order_id: Option<String>, nonce: Option<u64> },
    Fill(Fill),
    Position(Position),
    AccountEquity { equity: Decimal },
}

/// The factors of a symbol at one time.
#[derive(Clone, Copy, Debug)]
pub struct FactorSnapshot {
    pub price_index: Decimal,
    pub raw_volatility: Decimal,
    pub volatility: Decimal,
    /// A scalar for order sizes, from the traded volume. Never negative.
    pub volume_imbalance: Decimal,
    /// The direction of the flow, from -1 to 1: positive where buyers press,
    /// negative where sellers do.
    pub flow_direction: Decimal,
    pub inventory_skew: Decimal,
    pub recent_trade_count: usize,
    pub regime: MarketRegime,
    /// How strongly the market is in its regime, from 0, fully quiet, to 1,
    /// fully toxic.
    pub regime_intensity: Decimal,
}

/// The factors of a symbol at one time, in units.
pub struct Factors {
    pub price_index: int,
    pub raw_volatility: int,
    pub volatility: int,
    pub volume_imbalance: int,
    pub flow_direction: int,
    pub inventory_skew: int,
    pub recent_trade_count: nat,
    pub regime: MarketRegime,
    pub regime_intensity: int,
}

impl Factors {
    /// The ranges that the factors keep.
    pub open spec fn in_bounds(self) -> bool {
        &&& self.volume_imbalance >= 0
        &&& -ONE <= self.flow_direction <= ONE
        &&& 0 <= self.regime_intensity <= ONE
    }
}

impl View for FactorSnapshot {
    type V = Factors;

    open spec fn view(&self) -> Factors {
        Factors {
            price_index: self.price_index@,
            raw_volatility: self.raw_volatility@,
            volatility: self.volatility@,
            volume_imbalance: self.volume_imbalance@,
            flow_direction: self.flow_direction@,
            inventory_skew: self.inventory_skew@,
            recent_trade_count: self.recent_trade_count as nat,
            regime: self.regime,
            regime_intensity: self.regime_intensity@,
        }
    }
}

impl Default for FactorSnapshot {
    fn default() -> (r: Self)
        ensures
            r@ == (Factors {
                price_index: 0,
                raw_volatility: 0,
                volatility: 0,
                volume_imbalance: 0,
                flow_direction: 0,
                inventory_skew: 0,
                recent_trade_count: 0,
                regime: MarketRegime::Quiet,
                regime_intensity: 0,
            }),
    {
        FactorSnapshot {
            price_index: Decimal::zero(),
            raw_volatility: Decimal::zero(),
            volatility: Decimal::zero(),
            volume_imbalance: Decimal::zero(),
            flow_direction: Decimal::zero(),
            inventory_skew: Decimal::zero(),
            recent_trade_count: 0,
            regime: MarketRegime::Quiet,
            regime_intensity: Decimal::zero(),
        }
    }
}

/// A trade of the market.
#[derive(Clone, Copy, Debug)]
pub struct RecentTrade {
    pub quantity: Decimal,
    pub timestamp: Timestamp,
    pub taker_side: Option<Side>,
}

} // verus!
