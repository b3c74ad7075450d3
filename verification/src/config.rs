//! The settings that the factors and the notifier read.
use vstd::prelude::*;

use crate::decimal::Decimal;
use crate::table::SymbolMap;

verus! {

/// The windows over which trades are counted.
#[derive(Clone, Copy, Debug)]
pub struct FactorConfig {
    pub volume_window_secs: i64,
    pub n_trade_window_secs: i64,
}

/// The settings as they are written.
#[derive(Clone, Copy, Debug)]
pub struct AppConfig {
    pub factors: FactorConfig,
}

/// The weights of the factors.
#[derive(Clone, Copy, Debug)]
pub struct ParsedFactors {
    pub volatility_ewma_alpha: Decimal,
    pub flow_imbalance_weight: Decimal,
    pub trade_velocity_alpha: Decimal,
    pub cross_symbol_vol_weight: Decimal,
    pub bbo_spread_vol_weight: Decimal,
    pub inventory_skew_convexity: Decimal,
    pub volatility_floor: Decimal,
    pub inventory_risk_constant: Decimal,
    pub volatility_spread_weight: Decimal,
    pub volume_size_weight: Decimal,
    pub regime_min_dwell_secs: u64,
}

/// The limits of a pair.
#[derive(Clone, Copy, Debug)]
pub struct ParsedPair {
    pub max_position_base: Decimal,
}

/// The settings with their numbers read.
pub struct ParsedConfig {
    pub factors: ParsedFactors,
    pub pairs: SymbolMap<ParsedPair>,
}

impl ParsedConfig {
    /// The limits of a symbol.
    pub fn pair(&self, symbol: &String) -> (r: Option<&ParsedPair>)
        ensures
            match r {
                Some(pair) => crate::table::find(self.pairs@, symbol@) == Some(*pair),
                None => crate::table::find(self.pairs@, symbol@) is None,
            },
    {
        self.pairs.get(symbol)
    }
}

/// The price that a pair is quoted around.
#[derive(Clone, Copy, Debug, PartialEq, Eq, Structural)]
pub enum PriceSource {
    Mark,
    Spot,
    Mid,
}

/// The settings of a pair.
#[derive(Clone, Debug)]
pub struct PairConfig {
    pub symbol: String,
    pub price_source: PriceSource,
}

/// The settings of the notifier.
#[derive(Clone, Debug)]
pub struct TelegramConfig {
    pub enabled: bool,
    pub bot_token: String,
    pub chat_id: String,
}

} // verus!
