//! What the factors are, as functions on numbers of units.
//!
//! Where a number of a computation leaves the range of the decimals, a time
//! that of the instants, or the guesses at a root do not come to rest, the whole
//! computation has no result.
use vstd::prelude::*;

use crate::average::{blend, ewma};
use crate::config::{AppConfig, PairConfig, ParsedConfig, ParsedFactors, ParsedPair, PriceSource};
use crate::decimal::{
    bounded, dec, difference, larger, log_of, magnitude, product, quotient, root_of, smaller, sum,
    ONE,
};
use crate::domain::{Factors, MarketRegime, RecentTrade, Side};
use crate::state::{BotState, SymbolMarket};
use crate::table::{find, put};
use crate::time::{earlier, Moment, MAX_SPAN_SECS, NANOS};

verus! {

/// The number of log returns that are kept.
pub const HISTORY: usize = 512;

/// How the quotients of a computation are rounded where they lie in the middle
/// between two decimals: up, or to even. The quotients of the other markets are
/// counted from one, and so are the rounds of the guesses at a root, backwards.
pub struct Halves {
    pub moved: bool,
    pub guesses: spec_fn(nat) -> bool,
    pub flow: bool,
    pub ratio: bool,
    pub elsewhere: spec_fn(nat) -> bool,
    pub share: bool,
}

/// What is kept of a symbol from one computation to the next.
pub struct SymbolFactors {
    pub ewma_mean: Option<int>,
    pub ewma_variance: int,
    pub last_mid: Option<int>,
    pub last_mid_timestamp: Option<Moment>,
    pub vol_history: Seq<int>,
    pub smoothed_flow: int,
    pub regime: MarketRegime,
    pub regime_intensity: int,
    pub regime_entered_at: Option<Moment>,
    pub trade_velocity_ewma: int,
    pub bbo_spread_ewma: Option<int>,
}

impl SymbolFactors {
    /// What is kept of a symbol that has not been seen yet.
    pub open spec fn unseen() -> SymbolFactors {
        SymbolFactors {
            ewma_mean: None,
            ewma_variance: 0,
            last_mid: None,
            last_mid_timestamp: None,
            vol_history: Seq::empty(),
            smoothed_flow: 0,
            regime: MarketRegime::Quiet,
            regime_intensity: 0,
            regime_entered_at: None,
            trade_velocity_ewma: 0,
            bbo_spread_ewma: None,
        }
    }

    /// What holds of every symbol at all times.
    pub open spec fn wf(self) -> bool {
        &&& self.ewma_variance >= 0
        &&& self.vol_history.len() <= HISTORY
        &&& forall|i: int| 0 <= i < self.vol_history.len() ==> #[trigger] self.vol_history[i] >= 0
        &&& self.last_mid is Some <==> self.last_mid_timestamp is Some
        &&& 0 <= self.regime_intensity <= ONE
    }
}

/// A weight, raised to a hundredth and lowered to one.
pub open spec fn weight_in_bounds(weight: int) -> int {
    smaller(larger(weight, dec(1, 2)), ONE as int)
}

/// The last `n` entries, and all of them where there are fewer.
pub open spec fn last_entries(entries: Seq<int>, n: nat) -> Seq<int> {
    if entries.len() <= n {
        entries
    } else {
        entries.skip(entries.len() - n)
    }
}

/// A symbol after a log return: the averages of the return and of its squared
/// distance from the average before, and the size of the return.
pub open spec fn after_return(state: SymbolFactors, log_return: int, alpha: int) -> Option<
    SymbolFactors,
> {
    let mean_before = match state.ewma_mean {
        Some(mean) => mean,
        None => log_return,
    };
    let mean = ewma(alpha, Some(log_return), mean_before);
    let diff = difference(Some(log_return), Some(mean_before));
    let variance = blend(
        product(Some(alpha), diff),
        diff,
        difference(Some(ONE as int), Some(alpha)),
        Some(state.ewma_variance),
    );
    match (mean, variance) {
        (Some(mean), Some(variance)) => Some(
            SymbolFactors {
                ewma_mean: Some(mean),
                ewma_variance: larger(variance, 0),
                vol_history: last_entries(
                    state.vol_history.push(magnitude(log_return)),
                    HISTORY as nat,
                ),
                ..state
            },
        ),
        _ => None,
    }
}

/// A symbol after a mid price. There is a log return where both this price and
/// the one before are positive.
pub open spec fn after_mid(
    state: SymbolFactors,
    mid: int,
    now: Moment,
    alpha: int,
    up: bool,
) -> Option<SymbolFactors> {
    let moved = match state.last_mid {
        Some(before) => if before > 0 && mid > 0 {
            match log_of(quotient(Some(mid), Some(before), up)) {
                Some(log_return) => after_return(state, log_return, alpha),
                None => None,
            }
        } else {
            Some(state)
        },
        None => Some(state),
    };
    match moved {
        Some(moved) => Some(
            SymbolFactors { last_mid: Some(mid), last_mid_timestamp: Some(now), ..moved },
        ),
        None => None,
    }
}

/// The volatility of a symbol: the root of the variance, where the guesses at
/// it come to rest.
pub open spec fn volatility(state: SymbolFactors, ups: spec_fn(nat) -> bool) -> Option<int> {
    root_of(state.ewma_variance, ups)
}

/// Whether a trade is not before the start of a window.
pub open spec fn in_window(trade: RecentTrade, start: Moment) -> bool {
    trade.timestamp@.at_or_after(start)
}

/// Whether a trade has that taker, or any where none is given.
pub open spec fn taken_by(trade: RecentTrade, taker: Option<Side>) -> bool {
    taker is None || trade.taker_side == taker
}

/// The quantity of the trades in a window that have that taker, or any where
/// none is given.
pub open spec fn volume(trades: Seq<RecentTrade>, start: Moment, taker: Option<Side>) -> Option<int>
    decreases trades.len(),
{
    if trades.len() == 0 {
        Some(0)
    } else {
        let before = volume(trades.drop_last(), start, taker);
        if in_window(trades.last(), start) && taken_by(trades.last(), taker) {
            sum(before, Some(trades.last().quantity@))
        } else {
            before
        }
    }
}

/// The number of trades in a window.
pub open spec fn trade_count(trades: Seq<RecentTrade>, start: Moment) -> nat
    decreases trades.len(),
{
    if trades.len() == 0 {
        0
    } else {
        trade_count(trades.drop_last(), start) + (if in_window(trades.last(), start) {
            1nat
        } else {
            0nat
        })
    }
}

/// The surplus of the bought over the sold quantity, as a share of both.
pub open spec fn flow_ratio(bought: Option<int>, sold: Option<int>, up: bool) -> Option<int> {
    match sum(bought, sold) {
        Some(total) => if total == 0 {
            Some(0)
        } else {
            quotient(difference(bought, sold), Some(total), up)
        },
        None => None,
    }
}

/// The sum of the flow ratios of the markets of all symbols but one, in the
/// order of the markets, and the number of markets that have a flow.
pub open spec fn flow_elsewhere(
    markets: Seq<(Seq<char>, SymbolMarket)>,
    symbol: Seq<char>,
    start: Moment,
    ups: spec_fn(nat) -> bool,
) -> Option<(int, nat)>
    decreases markets.len(),
{
    if markets.len() == 0 {
        Some((0, 0))
    } else {
        let before = flow_elsewhere(markets.drop_last(), symbol, start, ups);
        if markets.last().0 == symbol {
            before
        } else {
            let trades = markets.last().1.recent_trades@;
            let bought = volume(trades, start, Some(Side::Bid));
            let sold = volume(trades, start, Some(Side::Ask));
            match (before, sum(bought, sold)) {
                (Some((total, count)), Some(both)) => if both > 0 {
                    match sum(
                        Some(total),
                        quotient(difference(bought, sold), Some(both), ups(markets.len())),
                    ) {
                        Some(total) => Some((total, count + 1)),
                        None => None,
                    }
                } else {
                    before
                },
                _ => None,
            }
        }
    }
}

/// The average flow ratio of the other markets that have a flow, times a
/// weight, and zero where none has.
pub open spec fn cross_flow(
    markets: Seq<(Seq<char>, SymbolMarket)>,
    symbol: Seq<char>,
    start: Moment,
    weight: int,
    ups: spec_fn(nat) -> bool,
) -> Option<int> {
    match flow_elsewhere(markets, symbol, start, ups) {
        Some((total, count)) => if count == 0 {
            Some(0)
        } else {
            product(quotient(Some(total), Some(dec(count as int, 0)), false), Some(weight))
        },
        None => None,
    }
}

/// The regime that the signals of a moment speak for.
pub open spec fn regime_for(
    flow_size: int,
    volatility: int,
    velocity_ratio: int,
    velocity: int,
) -> MarketRegime {
    if flow_size > dec(6, 1) {
        MarketRegime::TrendingToxic
    } else if volatility > dec(8, 4) || velocity_ratio > dec(15, 1) || velocity > dec(15, 1) {
        MarketRegime::VolatileBalanced
    } else {
        MarketRegime::Quiet
    }
}

/// The spread multiplier of an hour.
pub open spec fn hour_multiplier(hour: int) -> int {
    if hour < 8 {
        dec(8, 1)
    } else if hour < 12 {
        dec(1, 0)
    } else if hour < 20 {
        dec(13, 1)
    } else {
        dec(11, 1)
    }
}

/// Whether an instant lies in a funding window. There is a funding every eight
/// hours, at 0, 8 and 16 o'clock, and its window goes from a quarter of an hour
/// before it to the end of the hour that it opens.
pub open spec fn near_funding(at: Moment) -> bool {
    at.hour() % 8 == 0 || (at.hour() % 8 == 7 && at.minute() >= 45)
}

/// The spread multiplier of an instant: that of its hour, and one and a half
/// times that in a funding window.
pub open spec fn time_multiplier(at: Moment) -> int {
    if near_funding(at) {
        hour_multiplier(at.hour()) * 3 / 2
    } else {
        hour_multiplier(at.hour())
    }
}

/// How far quotes are skewed for a position: the share that it is of the limit,
/// raised with its size by the convexity, times floor and risk constant.
pub open spec fn skew(position: int, limit: int, weights: ParsedFactors, up: bool) -> Option<
    int,
> {
    let share = if limit == 0 {
        Some(0)
    } else {
        quotient(Some(position), Some(limit), up)
    };
    match share {
        Some(share) => product(
            product(
                Some(share),
                sum(
                    Some(ONE as int),
                    product(Some(weights.inventory_skew_convexity@), Some(magnitude(share))),
                ),
            ),
            product(
                Some(weights.volatility_floor@),
                Some(weights.inventory_risk_constant@),
            ),
        ),
        None => None,
    }
}

/// The number that a `u64` becomes as an `i64`.
pub open spec fn as_signed(n: u64) -> int {
    if n <= i64::MAX {
        n as int
    } else {
        n - 0x1_0000_0000_0000_0000
    }
}

/// Whether the regime may change: none was entered, or it was long enough ago.
pub open spec fn may_change(entered: Option<Moment>, now: Moment, dwell: int) -> bool {
    match entered {
        Some(at) => now.nanos_since(at) >= dwell * NANOS,
        None => true,
    }
}

/// A symbol after a regime has been spoken for.
pub open spec fn after_regime(
    state: SymbolFactors,
    target: MarketRegime,
    now: Moment,
    dwell: int,
) -> SymbolFactors {
    if may_change(state.regime_entered_at, now, dwell) && target != state.regime {
        SymbolFactors { regime: target, regime_entered_at: Some(now), ..state }
    } else if state.regime_entered_at is None {
        SymbolFactors { regime_entered_at: Some(now), ..state }
    } else {
        state
    }
}

/// The smoothed intensity of the regime.
pub open spec fn next_intensity(before: int, flow_size: int, volatility: int) -> Option<int> {
    match quotient(Some(volatility), Some(dec(8, 4)), false) {
        Some(scaled) => blend(
            Some(dec(2, 1)),
            Some(larger(smaller(flow_size, ONE as int), smaller(scaled, ONE as int))),
            Some(dec(8, 1)),
            Some(before),
        ),
        None => None,
    }
}

/// The smoothed spread between the best bid and the best ask.
pub open spec fn next_spread(before: Option<int>, spread: Option<int>) -> Option<Option<int>> {
    match (spread, before) {
        (Some(spread), Some(before)) => match blend(
            Some(dec(2, 1)),
            Some(spread),
            Some(dec(8, 1)),
            Some(before),
        ) {
            Some(average) => Some(Some(average)),
            None => None,
        },
        (Some(spread), None) => Some(Some(spread)),
        (None, _) => Some(before),
    }
}

/// The price that a pair is quoted around: the one that is asked for, and the
/// mid price where that is not known.
pub open spec fn index_price(market: SymbolMarket, mid: int, source: PriceSource) -> int {
    match source {
        PriceSource::Mark => match market.mark_price {
            Some(price) => price@,
            None => mid,
        },
        PriceSource::Spot => match market.spot_price {
            Some(price) => price@,
            None => mid,
        },
        PriceSource::Mid => mid,
    }
}

/// The trades of a market, as the factors see them.
pub struct Activity {
    pub rolling_volume: int,
    pub flow: int,
    pub trade_count: nat,
    pub velocity: int,
    pub window_start: Moment,
}

/// The trades of a market in the windows that end at `now`.
pub open spec fn activity(
    trades: Seq<RecentTrade>,
    config: AppConfig,
    now: Moment,
    up: bool,
) -> Option<Activity> {
    let window = config.factors.n_trade_window_secs as int;
    match (
        earlier(now, config.factors.volume_window_secs as int),
        earlier(now, window),
    ) {
        (Some(volume_start), Some(count_start)) => {
            let count = trade_count(trades, count_start);
            match (
                volume(trades, volume_start, None),
                flow_ratio(
                    volume(trades, volume_start, Some(Side::Bid)),
                    volume(trades, volume_start, Some(Side::Ask)),
                    up,
                ),
                quotient(
                    Some(dec(count as int, 0)),
                    Some(dec(larger(window, 1), 0)),
                    false,
                ),
            ) {
                (Some(rolling_volume), Some(flow), Some(velocity)) => Some(
                    Activity {
                        rolling_volume,
                        flow,
                        trade_count: count,
                        velocity,
                        window_start: volume_start,
                    },
                ),
                _ => None,
            }
        },
        _ => None,
    }
}

/// The signals that a market gives at a moment.
pub struct Signals {
    pub volatility: int,
    pub rolling_volume: int,
    pub trade_count: nat,
    pub velocity: int,
    pub velocity_ratio: int,
    pub cross_flow: int,
    pub spread_addon: int,
}

/// A symbol after the trades and the spread of a moment, and the velocity of
/// the trades against its average.
pub open spec fn after_activity(
    state: SymbolFactors,
    seen: Activity,
    spread: Option<int>,
    weights: ParsedFactors,
    up: bool,
) -> Option<(SymbolFactors, int)> {
    let flow = ewma(
        weight_in_bounds(weights.flow_imbalance_weight@),
        Some(seen.flow),
        state.smoothed_flow,
    );
    let velocity = if state.trade_velocity_ewma == 0 {
        Some(seen.velocity)
    } else {
        ewma(
            weight_in_bounds(weights.trade_velocity_alpha@),
            Some(seen.velocity),
            state.trade_velocity_ewma,
        )
    };
    match (flow, next_spread(state.bbo_spread_ewma, spread), velocity) {
        (Some(flow), Some(spread), Some(velocity)) => {
            let ratio = if velocity == 0 {
                Some(ONE as int)
            } else {
                quotient(Some(seen.velocity), Some(velocity), up)
            };
            match ratio {
                Some(ratio) => Some(
                    (
                        SymbolFactors {
                            smoothed_flow: flow,
                            bbo_spread_ewma: spread,
                            trade_velocity_ewma: velocity,
                            ..state
                        },
                        ratio,
                    ),
                ),
                None => None,
            }
        },
        _ => None,
    }
}

/// A symbol after a moment of its market, and the signals of that moment.
pub open spec fn after_market(
    state: SymbolFactors,
    symbol: Seq<char>,
    markets: Seq<(Seq<char>, SymbolMarket)>,
    market: SymbolMarket,
    mid: int,
    now: Moment,
    config: AppConfig,
    weights: ParsedFactors,
    ups: Halves,
) -> Option<(SymbolFactors, Signals)> {
    let spread = crate::decimal::value(market.bbo_spread_bps);
    match (
        after_mid(state, mid, now, weights.volatility_ewma_alpha@, ups.moved),
        activity(market.recent_trades@, config, now, ups.flow),
    ) {
        (Some(priced), Some(seen)) => match after_activity(
            priced,
            seen,
            spread,
            weights,
            ups.ratio,
        ) {
            Some((next, velocity_ratio)) => {
                let smoothed_spread = match next.bbo_spread_ewma {
                    Some(spread) => spread,
                    None => 0,
                };
                match (
                    volatility(priced, ups.guesses),
                    cross_flow(
                        markets,
                        symbol,
                        seen.window_start,
                        weights.cross_symbol_vol_weight@,
                        ups.elsewhere,
                    ),
                    product(Some(smoothed_spread), Some(weights.bbo_spread_vol_weight@)),
                ) {
                    (Some(volatility), Some(cross_flow), Some(spread_addon)) => Some(
                        (
                            next,
                            Signals {
                                volatility,
                                rolling_volume: seen.rolling_volume,
                                trade_count: seen.trade_count,
                                velocity: seen.velocity,
                                velocity_ratio,
                                cross_flow,
                                spread_addon,
                            },
                        ),
                    ),
                    _ => None,
                }
            },
            None => None,
        },
        _ => None,
    }
}

/// A symbol after the signals of a moment, and its factors where the spread of
/// its market is known.
pub open spec fn after_signals(
    state: SymbolFactors,
    signals: Signals,
    position: int,
    limit: int,
    price_index: int,
    now: Moment,
    weights: ParsedFactors,
    up: bool,
) -> Option<(SymbolFactors, Option<Factors>)> {
    let dwell = as_signed(weights.regime_min_dwell_secs);
    match (
        skew(position, limit, weights, up),
        sum(Some(state.smoothed_flow), Some(signals.cross_flow)),
    ) {
        (Some(inventory_skew), Some(flow)) => {
            let target = regime_for(
                magnitude(flow),
                signals.volatility,
                signals.velocity_ratio,
                signals.velocity,
            );
            let settled = after_regime(state, target, now, dwell);
            match (
                next_intensity(state.regime_intensity, magnitude(flow), signals.volatility),
                product(
                    sum(
                        sum(
                            product(
                                Some(signals.volatility),
                                Some(weights.volatility_spread_weight@),
                            ),
                            Some(signals.spread_addon),
                        ),
                        Some(magnitude(signals.cross_flow)),
                    ),
                    Some(time_multiplier(now)),
                ),
            ) {
                (Some(intensity), Some(volatility)) => if !(-MAX_SPAN_SECS <= dwell
                    <= MAX_SPAN_SECS) {
                    None
                } else {
                    let next = SymbolFactors { regime_intensity: intensity, ..settled };
                    if next.bbo_spread_ewma is None {
                        Some((next, None))
                    } else {
                        match product(
                            Some(signals.rolling_volume),
                            Some(weights.volume_size_weight@),
                        ) {
                            Some(size) => Some(
                                (
                                    next,
                                    Some(
                                        Factors {
                                            price_index,
                                            raw_volatility: signals.volatility,
                                            volatility,
                                            volume_imbalance: larger(size, 0),
                                            flow_direction: bounded(flow, -ONE, ONE as int),
                                            inventory_skew,
                                            recent_trade_count: signals.trade_count,
                                            regime: next.regime,
                                            regime_intensity: larger(
                                                smaller(intensity, ONE as int),
                                                0,
                                            ),
                                        },
                                    ),
                                ),
                            ),
                            None => None,
                        }
                    }
                },
                _ => None,
            }
        },
        _ => None,
    }
}

/// A symbol after a computation, and its factors. There are none where the
/// limits of the pair or the spread of its market are not known.
pub open spec fn after_compute(
    state: SymbolFactors,
    symbol: Seq<char>,
    markets: Seq<(Seq<char>, SymbolMarket)>,
    market: SymbolMarket,
    mid: int,
    now: Moment,
    position: int,
    pair: Option<ParsedPair>,
    source: PriceSource,
    config: AppConfig,
    weights: ParsedFactors,
    ups: Halves,
) -> Option<(SymbolFactors, Option<Factors>)> {
    match after_market(state, symbol, markets, market, mid, now, config, weights, ups) {
        Some((next, signals)) => match pair {
            Some(pair) => after_signals(
                next,
                signals,
                position,
                pair.max_position_base@,
                index_price(market, mid, source),
                now,
                weights,
                ups.share,
            ),
            None => Some((next, None)),
        },
        None => None,
    }
}

/// What is kept of a symbol, and what would be if it had just come.
pub open spec fn kept_under(
    entries: Seq<(Seq<char>, SymbolFactors)>,
    symbol: Seq<char>,
) -> SymbolFactors {
    match find(entries, symbol) {
        Some(state) => state,
        None => SymbolFactors::unseen(),
    }
}

/// What is kept of all symbols after a computation for a pair, and the factors
/// of the pair. Nothing changes where the market of the pair, its mid price or
/// the time of its last update is not known.
pub open spec fn outcome(
    entries: Seq<(Seq<char>, SymbolFactors)>,
    config: AppConfig,
    parsed: ParsedConfig,
    pair: PairConfig,
    state: BotState,
    ups: Halves,
) -> Option<(Seq<(Seq<char>, SymbolFactors)>, Option<Factors>)> {
    let symbol = pair.symbol@;
    let markets = state.market.symbols@;
    match find(markets, symbol) {
        Some(market) => match (market.mid_price, market.last_updated) {
            (Some(mid), Some(now)) => match after_compute(
                kept_under(entries, symbol),
                symbol,
                markets,
                market,
                mid@,
                now@,
                match find(state.positions@, symbol) {
                    Some(position) => position.quantity@,
                    None => 0,
                },
                find(parsed.pairs@, symbol),
                pair.price_source,
                config,
                parsed.factors,
                ups,
            ) {
                Some((next, factors)) => Some((put(entries, symbol, next), factors)),
                None => None,
            },
            _ => Some((entries, None)),
        },
        None => Some((entries, None)),
    }
}

} // verus!
