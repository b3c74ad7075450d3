//! The signals of the markets at a moment, each from plain values.
use vstd::pervasive::unreached;
use vstd::prelude::*;

use super::model::{
    activity, as_signed, cross_flow, flow_elsewhere, flow_ratio, index_price, regime_for, skew,
    taken_by, time_multiplier, trade_count, volume, weight_in_bounds, Activity,
};
use crate::config::{AppConfig, ParsedConfig, ParsedFactors, PriceSource};
use crate::decimal::{
    dec, difference, lemma_pow10_values, minus, over, over_small, plus, product, quotient, times,
    value, Decimal, ONE,
};
use crate::domain::{MarketRegime, RecentTrade, Side};
use crate::rounding::lemma_fit_exact;
use crate::state::{BotState, SymbolMarket};
use crate::time::{hour, minute, Moment, Timestamp};

verus! {

/// A weight, raised to a hundredth and lowered to one.
pub(crate) fn bounded_weight(weight: Decimal) -> (r: Decimal)
    ensures
        r@ == weight_in_bounds(weight@),
{
    weight.max(Decimal::new(1, 2)).min(Decimal::one())
}

fn is_taken_by(trade: &RecentTrade, taker: Option<Side>) -> (r: bool)
    ensures
        r == taken_by(*trade, taker),
{
    match (taker, trade.taker_side) {
        (None, _) => true,
        (Some(wanted), Some(side)) => wanted == side,
        (Some(_), None) => false,
    }
}

/// The quantity of the trades in a window that have that taker, or any where
/// none is given.
pub(crate) fn traded_volume(
    trades: &Vec<RecentTrade>,
    start: Timestamp,
    taker: Option<Side>,
) -> (r: Option<Decimal>)
    ensures
        value(r) == volume(trades@, start@, taker),
{
    let mut total: Option<Decimal> = Some(Decimal::zero());
    let mut i: usize = 0;
    while i < trades.len()
        invariant
            i <= trades@.len(),
            value(total) == volume(trades@.take(i as int), start@, taker),
        decreases trades.len() - i,
    {
        assert(trades@.take(i + 1).drop_last() =~= trades@.take(i as int));
        if trades[i].timestamp.at_or_after(start) && is_taken_by(&trades[i], taker) {
            total = plus(total, Some(trades[i].quantity));
        }
        i = i + 1;
    }
    assert(trades@.take(i as int) =~= trades@);
    total
}

/// The number of trades in a window.
pub(crate) fn traded_count(trades: &Vec<RecentTrade>, start: Timestamp) -> (r: usize)
    ensures
        r == trade_count(trades@, start@),
{
    let mut count: usize = 0;
    let mut i: usize = 0;
    while i < trades.len()
        invariant
            count <= i <= trades@.len(),
            count == trade_count(trades@.take(i as int), start@),
        decreases trades.len() - i,
    {
        assert(trades@.take(i + 1).drop_last() =~= trades@.take(i as int));
        if trades[i].timestamp.at_or_after(start) {
            count = count + 1;
        }
        i = i + 1;
    }
    assert(trades@.take(i as int) =~= trades@);
    count
}

/// The surplus of the bought over the sold quantity, as a share of both.
pub(crate) fn surplus_ratio(bought: Option<Decimal>, sold: Option<Decimal>) -> (r: Option<Decimal>)
    ensures
        exists|up: bool| value(r) == #[trigger] flow_ratio(value(bought), value(sold), up),
{
    let r = match plus(bought, sold) {
        Some(total) => if total.is_zero() {
            Some(Decimal::zero())
        } else {
            over(minus(bought, sold), Some(total))
        },
        None => None,
    };
    proof {
        let even = flow_ratio(value(bought), value(sold), false);
        let away = flow_ratio(value(bought), value(sold), true);
        assert(value(r) == even || value(r) == away);
    }
    r
}

proof fn lemma_flow_of_prefix(
    markets: Seq<(Seq<char>, SymbolMarket)>,
    n: int,
    symbol: Seq<char>,
    start: Moment,
    ups: spec_fn(nat) -> bool,
)
    requires
        0 <= n <= markets.len(),
    ensures
        flow_elsewhere(markets.take(n), symbol, start, ups) is None ==> flow_elsewhere(
            markets,
            symbol,
            start,
            ups,
        ) is None,
    decreases markets.len(),
{
    if n < markets.len() {
        lemma_flow_of_prefix(markets.drop_last(), n, symbol, start, ups);
        assert(markets.drop_last().take(n) =~= markets.take(n));
    } else {
        assert(markets.take(n) =~= markets);
    }
}

/// The flow of some markets rests on how the quotients of those markets are
/// rounded alone.
proof fn lemma_later_markets(
    markets: Seq<(Seq<char>, SymbolMarket)>,
    symbol: Seq<char>,
    start: Moment,
    ups: spec_fn(nat) -> bool,
    others: spec_fn(nat) -> bool,
)
    requires
        forall|n: nat| n <= markets.len() ==> #[trigger] ups(n) == others(n),
    ensures
        flow_elsewhere(markets, symbol, start, ups) == flow_elsewhere(
            markets,
            symbol,
            start,
            others,
        ),
    decreases markets.len(),
{
    if markets.len() > 0 {
        lemma_later_markets(markets.drop_last(), symbol, start, ups, others);
        assert(ups(markets.len()) == others(markets.len()));
    }
}

/// The average flow of the markets of the other symbols, times a weight, or
/// nothing where a number leaves the range of the decimals.
pub fn try_cross_symbol_flow(
    symbol: &String,
    state: &BotState,
    window_start: Timestamp,
    weight: Decimal,
) -> (r: Option<Decimal>)
    ensures
        exists|ups: spec_fn(nat) -> bool|
            value(r) == #[trigger] cross_flow(
                state.market.symbols@,
                symbol@,
                window_start@,
                weight@,
                ups,
            ),
{
    let ghost markets = state.market.symbols@;
    let ghost mut ups: spec_fn(nat) -> bool = |n: nat| false;
    let mut total: Decimal = Decimal::zero();
    let mut count: u64 = 0;
    let mut i: usize = 0;
    while i < state.market.symbols.len()
        invariant
            markets == state.market.symbols@,
            count <= i <= markets.len(),
            flow_elsewhere(markets.take(i as int), symbol@, window_start@, ups) == Some(
                (total@, count as nat),
            ),
        decreases markets.len() - i,
    {
        assert(markets.take(i + 1).drop_last() =~= markets.take(i as int));
        let other: &String = state.market.symbols.key_at(i);
        let market: &SymbolMarket = state.market.symbols.value_at(i);
        if *other != *symbol {
            let bought = traded_volume(&market.recent_trades, window_start, Some(Side::Bid));
            let sold = traded_volume(&market.recent_trades, window_start, Some(Side::Ask));
            let both = match plus(bought, sold) {
                Some(both) => both,
                None => {
                    proof {
                        lemma_flow_of_prefix(markets, i + 1, symbol@, window_start@, ups);
                        assert(cross_flow(
                            markets,
                            symbol@,
                            window_start@,
                            weight@,
                            ups,
                        ) is None);
                    }
                    return None;
                },
            };
            if both.is_positive() {
                let share = over(minus(bought, sold), Some(both));
                proof {
                    let up = choose|up: bool|
                        value(share) == #[trigger] quotient(
                            difference(value(bought), value(sold)),
                            Some(both@),
                            up,
                        );
                    let earlier = ups;
                    ups = |n: nat|
                        if n == i + 1 {
                            up
                        } else {
                            earlier(n)
                        };
                    lemma_later_markets(
                        markets.take(i as int),
                        symbol@,
                        window_start@,
                        ups,
                        earlier,
                    );
                    assert(ups(markets.take(i + 1).len()) == up);
                }
                match plus(Some(total), share) {
                    Some(sum) => {
                        total = sum;
                        count = count + 1;
                    },
                    None => {
                        proof {
                            lemma_flow_of_prefix(markets, i + 1, symbol@, window_start@, ups);
                            assert(cross_flow(
                                markets,
                                symbol@,
                                window_start@,
                                weight@,
                                ups,
                            ) is None);
                        }
                        return None;
                    },
                }
            }
        }
        i = i + 1;
    }
    assert(markets.take(i as int) =~= markets);
    let r = if count == 0 {
        Some(Decimal::zero())
    } else {
        times(over_small(Some(total), Decimal::from_u64(count)), Some(weight))
    };
    assert(value(r) == cross_flow(markets, symbol@, window_start@, weight@, ups));
    r
}

/// The average flow of the markets of the other symbols, times a weight.
pub fn cross_symbol_flow(
    symbol: &String,
    state: &BotState,
    window_start: Timestamp,
    weight: Decimal,
) -> (r: Decimal)
    requires
        forall|ups: spec_fn(nat) -> bool|
            #[trigger] cross_flow(
                state.market.symbols@,
                symbol@,
                window_start@,
                weight@,
                ups,
            ) is Some,
    ensures
        exists|ups: spec_fn(nat) -> bool|
            Some(r@) == #[trigger] cross_flow(
                state.market.symbols@,
                symbol@,
                window_start@,
                weight@,
                ups,
            ),
{
    match try_cross_symbol_flow(symbol, state, window_start, weight) {
        Some(r) => r,
        None => unreached(),
    }
}

/// The regime that the signals of a moment speak for, whatever the regime was.
pub fn candidate_regime(
    flow_abs: Decimal,
    volatility: Decimal,
    trade_velocity_ratio: Decimal,
    trade_velocity: Decimal,
) -> (r: MarketRegime)
    ensures
        r == regime_for(flow_abs@, volatility@, trade_velocity_ratio@, trade_velocity@),
{
    // Net imbalance of more than 60% of the volume: a toxic trend.
    if flow_abs.exceeds(Decimal::new(6, 1)) {
        return MarketRegime::TrendingToxic;
    }
    // The velocity itself catches a busy market whose buyers and sellers are
    // in balance.
    if volatility.exceeds(Decimal::new(8, 4)) || trade_velocity_ratio.exceeds(Decimal::new(15, 1))
        || trade_velocity.exceeds(Decimal::new(15, 1)) {
        return MarketRegime::VolatileBalanced;
    }
    MarketRegime::Quiet
}

/// The spread multiplier of an instant: spreads are narrow while Asia trades,
/// wide while it sleeps, and wider in a funding window.
pub fn time_of_day_multiplier(now: Timestamp) -> (r: Decimal)
    ensures
        r@ == time_multiplier(now@),
{
    let h: u32 = hour(now);
    let m: u32 = minute(now);
    let base = if h < 8 {
        Decimal::new(8, 1)
    } else if h < 12 {
        Decimal::one()
    } else if h < 20 {
        Decimal::new(13, 1)
    } else {
        Decimal::new(11, 1)
    };
    proof {
        lemma_pow10_values();
    }
    let funding: bool = h == 0 || h == 8 || h == 16;
    let funding_next: bool = m >= 45 && (h == 7 || h == 15 || h == 23);
    if funding || funding_next {
        proof {
            lemma_funding_multiplier(base@);
        }
        match times(Some(base), Some(Decimal::new(15, 1))) {
            Some(r) => r,
            None => unreached(),
        }
    } else {
        base
    }
}

proof fn lemma_funding_multiplier(base: int)
    requires
        base == dec(8, 1) || base == ONE || base == dec(13, 1) || base == dec(11, 1),
    ensures
        product(Some(base), Some(dec(15, 1))) == Some(base * 3 / 2),
{
    lemma_pow10_values();
    let tenths = if base == dec(8, 1) {
        120int
    } else if base == ONE {
        150
    } else if base == dec(13, 1) {
        195
    } else {
        165
    };
    assert(dec(tenths, 2) == base * 3 / 2);
    assert(base * dec(15, 1) == ONE * (base * 3 / 2));
    lemma_fit_exact(base * dec(15, 1), ONE as int, dec(tenths, 2));
}

/// What a volatility adds to the spread, or nothing where the product leaves
/// the range of the decimals.
pub fn try_factor_spread_addon(parsed: &ParsedConfig, volatility: Decimal) -> (r: Option<Decimal>)
    ensures
        value(r) == product(Some(volatility@), Some(parsed.factors.volatility_spread_weight@)),
{
    times(Some(volatility), Some(parsed.factors.volatility_spread_weight))
}

/// What a volatility adds to the spread.
pub fn factor_spread_addon(parsed: &ParsedConfig, volatility: Decimal) -> (r: Decimal)
    requires
        product(Some(volatility@), Some(parsed.factors.volatility_spread_weight@)) is Some,
    ensures
        Some(r@) == product(
            Some(volatility@),
            Some(parsed.factors.volatility_spread_weight@),
        ),
{
    match try_factor_spread_addon(parsed, volatility) {
        Some(r) => r,
        None => unreached(),
    }
}

/// How far quotes are skewed for a position, or nothing where a number leaves
/// the range of the decimals.
pub fn inventory_skew(position: Decimal, limit: Decimal, weights: &ParsedFactors) -> (r: Option<
    Decimal,
>)
    ensures
        exists|up: bool| value(r) == #[trigger] skew(position@, limit@, *weights, up),
{
    let share = if limit.is_zero() {
        Some(Decimal::zero())
    } else {
        over(Some(position), Some(limit))
    };
    let r = match share {
        Some(share) => {
            let convex = plus(
                Some(Decimal::one()),
                times(Some(weights.inventory_skew_convexity), Some(share.abs())),
            );
            let base = times(
                Some(weights.volatility_floor),
                Some(weights.inventory_risk_constant),
            );
            times(times(Some(share), convex), base)
        },
        None => None,
    };
    proof {
        let even = skew(position@, limit@, *weights, false);
        let away = skew(position@, limit@, *weights, true);
        assert(value(r) == even || value(r) == away);
    }
    r
}

/// The number that a `u64` becomes as an `i64`.
pub(crate) fn to_signed(n: u64) -> (r: i64)
    ensures
        r == as_signed(n),
{
    if n <= i64::MAX as u64 {
        n as i64
    } else {
        -((u64::MAX - n) as i64) - 1
    }
}

/// The price that a pair is quoted around: the one that is asked for, and the
/// mid price where that is not known.
pub(crate) fn price_to_quote(market: &SymbolMarket, mid: Decimal, source: PriceSource) -> (r:
    Decimal)
    ensures
        r@ == index_price(*market, mid@, source),
{
    match source {
        PriceSource::Mark => match market.mark_price {
            Some(price) => price,
            None => mid,
        },
        PriceSource::Spot => match market.spot_price {
            Some(price) => price,
            None => mid,
        },
        PriceSource::Mid => mid,
    }
}

/// The trades of a market, as the factors see them.
pub struct TradeActivity {
    pub rolling_volume: Decimal,
    pub flow: Decimal,
    pub trade_count: usize,
    pub velocity: Decimal,
    pub window_start: Timestamp,
}

impl View for TradeActivity {
    type V = Activity;

    open spec fn view(&self) -> Activity {
        Activity {
            rolling_volume: self.rolling_volume@,
            flow: self.flow@,
            trade_count: self.trade_count as nat,
            velocity: self.velocity@,
            window_start: self.window_start@,
        }
    }
}

/// The trades of a market in the windows that end at `now`, or nothing where a
/// number leaves the range of the decimals or a window that of the instants.
pub fn trade_activity(trades: &Vec<RecentTrade>, config: &AppConfig, now: Timestamp) -> (r: Option<
    TradeActivity,
>)
    ensures
        exists|up: bool| seen_in(r) == #[trigger] activity(trades@, *config, now@, up),
{
    let window: i64 = config.factors.n_trade_window_secs;
    let r = match (now.earlier(config.factors.volume_window_secs), now.earlier(window)) {
        (Some(window_start), Some(count_start)) => {
            let trade_count: usize = traded_count(trades, count_start);
            let bought = traded_volume(trades, window_start, Some(Side::Bid));
            let sold = traded_volume(trades, window_start, Some(Side::Ask));
            let secs: i64 = if window < 1 {
                1
            } else {
                window
            };
            let velocity = over_small(
                Some(Decimal::from_u64(trade_count as u64)),
                Decimal::from_u64(secs as u64),
            );
            let rolling_volume = traded_volume(trades, window_start, None);
            match (rolling_volume, surplus_ratio(bought, sold), velocity) {
                (Some(rolling_volume), Some(flow), Some(velocity)) => Some(
                    TradeActivity { rolling_volume, flow, trade_count, velocity, window_start },
                ),
                _ => None,
            }
        },
        _ => None,
    };
    proof {
        let even = activity(trades@, *config, now@, false);
        let away = activity(trades@, *config, now@, true);
        assert(seen_in(r) == even || seen_in(r) == away);
    }
    r
}

/// The view of the trades of a market, where there is one.
pub open spec fn seen_in(seen: Option<TradeActivity>) -> Option<Activity> {
    match seen {
        Some(seen) => Some(seen@),
        None => None,
    }
}

} // verus!
