//! What holds of the factors whatever the markets do.
use vstd::prelude::*;

use super::model::{
    activity, after_compute, after_market, after_mid, after_return, after_signals, as_signed,
    cross_flow, flow_elsewhere, flow_ratio, hour_multiplier, kept_under, last_entries, near_funding,
    next_intensity, outcome, regime_for, skew, time_multiplier, volume, weight_in_bounds, Halves,
    Signals, SymbolFactors, HISTORY,
};
use crate::average::{ewma, lemma_blend_in_bounds, lemma_ewma_in_bounds, lemma_ewma_not_negative};
use crate::config::{AppConfig, PairConfig, ParsedConfig, ParsedFactors, ParsedPair, PriceSource};
use crate::decimal::{
    dec, difference, fit, larger, lemma_dec_sign, lemma_dec_whole, lemma_pow10_values, log_of,
    magnitude, negated, product, quotient, representable, smaller, sum, LIMIT, ONE,
};
use crate::domain::{Factors, RecentTrade, Side};
use crate::rounding::{
    lemma_fit_above, lemma_fit_below, lemma_fit_exact, lemma_fit_negated, lemma_fit_order,
    lemma_fit_sign, lemma_product_negated, lemma_quotient_exact, lemma_quotient_negated,
    lemma_quotient_sign, lemma_quotient_small, lemma_quotient_within, lemma_representable_negated,
    lemma_units_representable,
};
use crate::state::{BotState, SymbolMarket};
use crate::table::{find, lemma_find_after_put};
use crate::time::{Moment, NANOS};

verus! {

proof fn lemma_weight_in_bounds(weight: int)
    ensures
        0 < weight_in_bounds(weight) <= ONE,
{
    lemma_pow10_values();
}

/// The intensity of a regime stays between zero and one.
pub proof fn law_intensity_in_bounds(before: int, flow_size: int, volatility: int)
    requires
        0 <= before <= ONE,
        0 <= flow_size,
    ensures
        next_intensity(before, flow_size, volatility) matches Some(r) ==> 0 <= r <= ONE,
{
    lemma_pow10_values();
    let scaled = quotient(Some(volatility), Some(dec(8, 4)), false);
    if scaled is Some {
        let raw = larger(smaller(flow_size, ONE as int), smaller(scaled->0, ONE as int));
        lemma_blend_in_bounds(dec(2, 1), raw, dec(8, 1), before);
    }
}

/// The flow ratio of quantities that are not negative lies between -1 and 1, is
/// not negative where buyers press and not positive where sellers do, and there
/// is one where the total is in range. It is the same however halves are rounded.
pub proof fn law_flow_ratio_in_bounds(bought: int, sold: int, up: bool)
    requires
        0 <= bought,
        0 <= sold,
    ensures
        flow_ratio(Some(bought), Some(sold), up) is Some <==> sum(
            Some(bought),
            Some(sold),
        ) is Some,
        flow_ratio(Some(bought), Some(sold), up) matches Some(r) ==> {
            &&& -ONE <= r <= ONE
            &&& bought >= sold ==> r >= 0
            &&& bought <= sold ==> r <= 0
        },
        flow_ratio(Some(bought), Some(sold), up) == flow_ratio(Some(bought), Some(sold), false),
{
    let one = ONE as int;
    let total = sum(Some(bought), Some(sold));
    if total is Some {
        let t = total->0;
        lemma_fit_sign(bought + sold, 1, 0);
        lemma_units_representable(one);
        let surplus = magnitude(bought - sold);
        lemma_fit_order(surplus, bought + sold, 1);
        let d = fit(surplus, 1, 0)->0;
        if t > 0 {
            assert(0 <= d * one <= t * one) by (nonlinear_arith)
                requires
                    0 <= d <= t,
                    one > 0,
            ;
            assert(t * one < t * (LIMIT - 1)) by (nonlinear_arith)
                requires
                    t > 0,
                    one < LIMIT - 1,
            ;
            lemma_fit_negated(surplus, 1, 0);
            let moved = difference(Some(bought), Some(sold))->0;
            lemma_quotient_within(moved, t, one, up);
            lemma_quotient_sign(moved, t, up);
            lemma_quotient_small(moved, t, up);
        }
    }
}

/// The flow ratio changes its sign where buyers and sellers change places.
pub proof fn law_flow_ratio_mirrored(bought: int, sold: int, up: bool)
    ensures
        flow_ratio(Some(sold), Some(bought), up) == negated(
            flow_ratio(Some(bought), Some(sold), up),
        ),
{
    let total = sum(Some(bought), Some(sold));
    assert(sold + bought == bought + sold);
    if total is Some && total->0 != 0 {
        lemma_fit_negated(bought - sold, 1, 0);
        assert(-(bought - sold) == sold - bought);
        lemma_quotient_negated(difference(Some(bought), Some(sold)), total->0, up);
    }
}

/// Bought and sold quantities that are equal have no flow.
pub proof fn law_balanced_flow(quantity: int, up: bool)
    requires
        sum(Some(quantity), Some(quantity)) is Some,
    ensures
        flow_ratio(Some(quantity), Some(quantity), up) == Some(0int),
{
    let total = sum(Some(quantity), Some(quantity))->0;
    lemma_units_representable(0);
    lemma_fit_exact(0, 1, 0);
    if total != 0 {
        lemma_zero_divided(total, up);
    }
}

/// Zero is zero however often it is divided.
proof fn lemma_zero_divided(divisor: int, up: bool)
    requires
        divisor != 0,
    ensures
        quotient(Some(0int), Some(divisor), up) == Some(0int),
{
    let size = magnitude(divisor);
    lemma_units_representable(0);
    assert(0 * ONE == size * 0) by (nonlinear_arith);
    lemma_quotient_exact(0, size, 0, up);
}

/// The spread multiplier lies between 0.8 and 1.95.
pub proof fn law_time_multiplier_in_bounds(at: Moment)
    ensures
        dec(8, 1) <= time_multiplier(at) <= dec(195, 2),
{
    lemma_pow10_values();
}

/// Spreads are never wider than in the eight hours from noon and never narrower
/// than in the first eight hours of the day, where neither instant is near a
/// funding.
pub proof fn law_spreads_follow_the_hours(at: Moment, other: Moment)
    requires
        !near_funding(at),
        !near_funding(other),
    ensures
        12 <= at.hour() < 20 ==> time_multiplier(other) <= time_multiplier(at),
        at.hour() < 8 ==> time_multiplier(at) <= time_multiplier(other),
{
    lemma_pow10_values();
}

/// In a funding window the spread is half as wide again as its hour asks for.
pub proof fn law_funding_widens_spreads(at: Moment)
    requires
        near_funding(at),
    ensures
        2 * time_multiplier(at) == 3 * hour_multiplier(at.hour()),
        time_multiplier(at) > hour_multiplier(at.hour()),
{
    lemma_pow10_values();
}

/// Every funding, at 0, 8 and 16 o'clock, lies in a funding window, and so do the
/// fifteen minutes before it.
pub proof fn law_fundings_are_in_their_window(at: Moment)
    requires
        at.second_of_day() % 28_800 == 0 || at.second_of_day() % 28_800 >= 27_900,
    ensures
        near_funding(at),
{
}

/// Without a position there is no skew, whatever the limit.
pub proof fn law_flat_is_not_skewed(limit: int, weights: ParsedFactors, up: bool)
    requires
        product(
            Some(weights.volatility_floor@),
            Some(weights.inventory_risk_constant@),
        ) is Some,
    ensures
        skew(0, limit, weights, up) == Some(0int),
{
    let one = ONE as int;
    let convexity = weights.inventory_skew_convexity@;
    let base = product(
        Some(weights.volatility_floor@),
        Some(weights.inventory_risk_constant@),
    )->0;
    lemma_units_representable(0);
    lemma_units_representable(one);
    if limit != 0 {
        lemma_zero_divided(limit, up);
    }
    assert(convexity * 0 == one * 0) by (nonlinear_arith);
    lemma_fit_exact(0, one, 0);
    lemma_fit_exact(one, 1, one);
    assert(0 * one == one * 0) by (nonlinear_arith);
    assert(0 * base == one * 0) by (nonlinear_arith);
}

/// A short position is skewed as far as the long one of that size, in the other
/// direction.
pub proof fn law_skew_mirrored(position: int, limit: int, weights: ParsedFactors, up: bool)
    ensures
        skew(-position, limit, weights, up) == negated(skew(position, limit, weights, up)),
{
    let share = if limit == 0 {
        Some(0)
    } else {
        quotient(Some(position), Some(limit), up)
    };
    lemma_quotient_negated(Some(position), limit, up);
    if share is Some {
        let x = share->0;
        let convex = sum(
            Some(ONE as int),
            product(Some(weights.inventory_skew_convexity@), Some(magnitude(x))),
        );
        let base = product(
            Some(weights.volatility_floor@),
            Some(weights.inventory_risk_constant@),
        );
        lemma_product_negated(Some(x), convex);
        lemma_product_negated(product(Some(x), convex), base);
    }
}

/// Until a regime has lasted for the dwell time it stays, whatever the market
/// does.
pub proof fn law_regime_dwells(
    state: SymbolFactors,
    symbol: Seq<char>,
    markets: Seq<(Seq<char>, SymbolMarket)>,
    market: SymbolMarket,
    mid: int,
    now: Moment,
    position: int,
    pair: Option<ParsedPair>,
    source: PriceSource,
    config: AppConfig,
    weights: ParsedFactors,
    ups: Halves,
)
    requires
        state.regime_entered_at matches Some(at) && now.nanos_since(at) < as_signed(
            weights.regime_min_dwell_secs,
        ) * NANOS,
    ensures
        after_compute(
            state,
            symbol,
            markets,
            market,
            mid,
            now,
            position,
            pair,
            source,
            config,
            weights,
            ups,
        ) matches Some((next, factors)) ==> {
            &&& next.regime == state.regime
            &&& next.regime_entered_at == state.regime_entered_at
            &&& factors matches Some(f) ==> f.regime == state.regime
        },
{
}

/// Once a regime has lasted for the dwell time, the symbol is in the regime
/// that the signals speak for.
pub proof fn law_regime_follows(
    state: SymbolFactors,
    signals: Signals,
    position: int,
    limit: int,
    price_index: int,
    now: Moment,
    weights: ParsedFactors,
    up: bool,
)
    requires
        state.regime_entered_at matches Some(at) ==> now.nanos_since(at) >= as_signed(
            weights.regime_min_dwell_secs,
        ) * NANOS,
    ensures
        after_signals(state, signals, position, limit, price_index, now, weights, up) matches Some(
            (next, factors),
        ) ==> {
            let flow = sum(Some(state.smoothed_flow), Some(signals.cross_flow))->0;
            &&& next.regime == regime_for(
                magnitude(flow),
                signals.volatility,
                signals.velocity_ratio,
                signals.velocity,
            )
            &&& next.regime != state.regime ==> next.regime_entered_at == Some(now)
            &&& factors matches Some(f) ==> f.regime == next.regime
        },
{
}

/// The factors keep their ranges, and the intensity that is reported is the one
/// that is kept.
pub proof fn law_factors_in_bounds(
    state: SymbolFactors,
    signals: Signals,
    position: int,
    limit: int,
    price_index: int,
    now: Moment,
    weights: ParsedFactors,
    up: bool,
)
    requires
        state.wf(),
    ensures
        after_signals(state, signals, position, limit, price_index, now, weights, up) matches Some(
            (next, Some(f)),
        ) ==> f.in_bounds() && f.regime_intensity == next.regime_intensity && f.regime
            == next.regime,
{
    let flow = sum(Some(state.smoothed_flow), Some(signals.cross_flow));
    if flow is Some {
        law_intensity_in_bounds(state.regime_intensity, magnitude(flow->0), signals.volatility);
    }
}

proof fn lemma_return_keeps_wf(state: SymbolFactors, log_return: int, alpha: int)
    requires
        state.wf(),
    ensures
        after_return(state, log_return, alpha) matches Some(next) ==> next.wf(),
{
    let pushed = state.vol_history.push(magnitude(log_return));
    assert forall|i: int|
        0 <= i < last_entries(pushed, HISTORY as nat).len() implies #[trigger] last_entries(
        pushed,
        HISTORY as nat,
    )[i] >= 0 by {
        assert(forall|j: int| 0 <= j < pushed.len() ==> #[trigger] pushed[j] >= 0);
    }
}

proof fn lemma_market_keeps_wf(
    state: SymbolFactors,
    symbol: Seq<char>,
    markets: Seq<(Seq<char>, SymbolMarket)>,
    market: SymbolMarket,
    mid: int,
    now: Moment,
    config: AppConfig,
    weights: ParsedFactors,
    ups: Halves,
)
    requires
        state.wf(),
    ensures
        after_market(state, symbol, markets, market, mid, now, config, weights, ups) matches Some(
            (next, _),
        ) ==> next.wf(),
{
    let alpha = weights.volatility_ewma_alpha@;
    if state.last_mid is Some {
        let log_return = log_of(quotient(Some(mid), state.last_mid, ups.moved));
        if log_return is Some {
            lemma_return_keeps_wf(state, log_return->0, alpha);
        }
    }
    assert(after_mid(state, mid, now, alpha, ups.moved) matches Some(priced) ==> priced.wf());
}

/// A computation keeps what holds of a symbol: the variance and the sizes of
/// the returns are not negative, no more than [`HISTORY`] returns are kept, and
/// the intensity lies between zero and one. It holds of a symbol that has not
/// been seen yet.
pub proof fn law_compute_keeps_wf(
    state: SymbolFactors,
    symbol: Seq<char>,
    markets: Seq<(Seq<char>, SymbolMarket)>,
    market: SymbolMarket,
    mid: int,
    now: Moment,
    position: int,
    pair: Option<ParsedPair>,
    source: PriceSource,
    config: AppConfig,
    weights: ParsedFactors,
    ups: Halves,
)
    requires
        state.wf(),
    ensures
        after_compute(
            state,
            symbol,
            markets,
            market,
            mid,
            now,
            position,
            pair,
            source,
            config,
            weights,
            ups,
        ) matches Some((next, factors)) ==> next.wf() && (factors matches Some(f)
            ==> f.in_bounds()),
        SymbolFactors::unseen().wf(),
{
    lemma_market_keeps_wf(state, symbol, markets, market, mid, now, config, weights, ups);
    let observed = after_market(state, symbol, markets, market, mid, now, config, weights, ups);
    if observed is Some && pair is Some {
        let (next, signals) = observed->0;
        let flow = sum(Some(next.smoothed_flow), Some(signals.cross_flow));
        if flow is Some {
            law_intensity_in_bounds(next.regime_intensity, magnitude(flow->0), signals.volatility);
        }
        law_factors_in_bounds(
            next,
            signals,
            position,
            pair->0.max_position_base@,
            super::model::index_price(market, mid, source),
            now,
            weights,
            ups.share,
        );
    }
}

/// A computation for a pair leaves what is kept of every other symbol, and
/// keeps what holds of all symbols. The factors that it gives keep their
/// ranges.
pub proof fn law_symbols_are_independent(
    entries: Seq<(Seq<char>, SymbolFactors)>,
    config: AppConfig,
    parsed: ParsedConfig,
    pair: PairConfig,
    state: BotState,
    other: Seq<char>,
    ups: Halves,
)
    requires
        kept_under(entries, pair.symbol@).wf(),
    ensures
        outcome(entries, config, parsed, pair, state, ups) matches Some((next, factors)) ==> {
            &&& other != pair.symbol@ ==> find(next, other) == find(entries, other)
            &&& kept_under(next, pair.symbol@).wf()
            &&& factors matches Some(f) ==> f.in_bounds()
        },
{
    let symbol = pair.symbol@;
    let markets = state.market.symbols@;
    if find(markets, symbol) is Some {
        let market = find(markets, symbol)->0;
        if market.mid_price is Some && market.last_updated is Some {
            let position = match find(state.positions@, symbol) {
                Some(position) => position.quantity@,
                None => 0,
            };
            let kept = kept_under(entries, symbol);
            let mid = market.mid_price->0@;
            let now = market.last_updated->0@;
            let limits = find(parsed.pairs@, symbol);
            law_compute_keeps_wf(
                kept,
                symbol,
                markets,
                market,
                mid,
                now,
                position,
                limits,
                pair.price_source,
                config,
                parsed.factors,
                ups,
            );
            let result = after_compute(
                kept,
                symbol,
                markets,
                market,
                mid,
                now,
                position,
                limits,
                pair.price_source,
                config,
                parsed.factors,
                ups,
            );
            if result is Some {
                let (next, _) = result->0;
                lemma_find_after_put(entries, symbol, next, other);
                lemma_find_after_put(entries, symbol, next, symbol);
            }
        }
    }
}

/// Where the market of a pair, its mid price or the time of its last update is
/// not known, there are no factors and nothing changes.
pub proof fn law_unknown_market_changes_nothing(
    entries: Seq<(Seq<char>, SymbolFactors)>,
    config: AppConfig,
    parsed: ParsedConfig,
    pair: PairConfig,
    state: BotState,
    ups: Halves,
)
    requires
        find(state.market.symbols@, pair.symbol@) matches Some(market) ==> market.mid_price is None
            || market.last_updated is None,
    ensures
        outcome(entries, config, parsed, pair, state, ups) == Some((entries, None::<Factors>)),
{
}

proof fn lemma_volume_not_negative(trades: Seq<RecentTrade>, start: Moment, taker: Option<Side>)
    requires
        forall|i: int| 0 <= i < trades.len() ==> (#[trigger] trades[i]).quantity@ >= 0,
    ensures
        volume(trades, start, taker) matches Some(r) ==> r >= 0,
    decreases trades.len(),
{
    if trades.len() > 0 {
        let before = trades.drop_last();
        assert forall|i: int| 0 <= i < before.len() implies (#[trigger] before[i]).quantity@
            >= 0 by {
            assert(before[i] == trades[i]);
        }
        lemma_volume_not_negative(before, start, taker);
        if volume(before, start, taker) is Some {
            lemma_fit_sign(volume(before, start, taker)->0 + trades.last().quantity@, 1, 0);
        }
    }
}

/// Whether all trades of a market have quantities that are not negative.
pub open spec fn trades_are_sound(market: SymbolMarket) -> bool {
    forall|i: int|
        0 <= i < market.recent_trades@.len() ==> (#[trigger] market.recent_trades@[i]).quantity@
            >= 0
}

proof fn lemma_flow_elsewhere_in_bounds(
    markets: Seq<(Seq<char>, SymbolMarket)>,
    symbol: Seq<char>,
    start: Moment,
    ups: spec_fn(nat) -> bool,
)
    requires
        forall|i: int| 0 <= i < markets.len() ==> trades_are_sound((#[trigger] markets[i]).1),
        markets.len() < LIMIT,
    ensures
        flow_elsewhere(markets, symbol, start, ups) matches Some((total, count)) ==> count
            <= markets.len() && -dec(count as int, 0) <= total <= dec(count as int, 0),
    decreases markets.len(),
{
    lemma_pow10_values();
    if markets.len() > 0 {
        let rest = markets.drop_last();
        assert forall|i: int| 0 <= i < rest.len() implies trades_are_sound(
            (#[trigger] rest[i]).1,
        ) by {
            assert(rest[i] == markets[i]);
        }
        lemma_flow_elsewhere_in_bounds(rest, symbol, start, ups);
        let before = flow_elsewhere(rest, symbol, start, ups);
        if markets.last().0 != symbol && before is Some {
            let (total, count) = before->0;
            assert(markets.last() == markets[markets.len() - 1]);
            let trades = markets.last().1.recent_trades@;
            lemma_volume_not_negative(trades, start, Some(Side::Bid));
            lemma_volume_not_negative(trades, start, Some(Side::Ask));
            let bought = volume(trades, start, Some(Side::Bid));
            let sold = volume(trades, start, Some(Side::Ask));
            if bought is Some && sold is Some {
                law_flow_ratio_in_bounds(bought->0, sold->0, ups(markets.len()));
                let ratio = flow_ratio(bought, sold, ups(markets.len()));
                if ratio is Some {
                    let bound = dec(count as int + 1, 0);
                    let next = total + ratio->0;
                    lemma_dec_whole(count as int);
                    lemma_dec_whole(count as int + 1);
                    assert(dec(count as int, 0) == count
                        * 10_000_000_000_000_000_000_000_000_000);
                    assert(bound == (count + 1) * 10_000_000_000_000_000_000_000_000_000);
                    assert(-bound <= next <= bound);
                    assert(representable(bound));
                    lemma_representable_negated(bound);
                    if next >= 0 {
                        lemma_fit_below(next, 1, bound);
                    } else {
                        lemma_fit_above(next, 1, -bound);
                    }
                }
            }
        }
    }
}

/// While the quantities of the trades are not negative, the flow of the other
/// markets is no larger than its weight.
pub proof fn law_cross_flow_in_bounds(
    markets: Seq<(Seq<char>, SymbolMarket)>,
    symbol: Seq<char>,
    start: Moment,
    weight: int,
    ups: spec_fn(nat) -> bool,
)
    requires
        forall|i: int| 0 <= i < markets.len() ==> trades_are_sound((#[trigger] markets[i]).1),
        markets.len() < LIMIT,
        representable(weight),
    ensures
        cross_flow(markets, symbol, start, weight, ups) matches Some(r) ==> magnitude(r)
            <= magnitude(weight),
{
    lemma_pow10_values();
    lemma_flow_elsewhere_in_bounds(markets, symbol, start, ups);
    let elsewhere = flow_elsewhere(markets, symbol, start, ups);
    if elsewhere is Some {
        let one = ONE as int;
        let (total, count) = elsewhere->0;
        if count > 0 {
            let divisor = dec(count as int, 0);
            lemma_dec_whole(count as int);
            assert(divisor == count * 10_000_000_000_000_000_000_000_000_000);
            lemma_units_representable(one);
            let share = magnitude(total);
            assert(share * one <= divisor * one) by (nonlinear_arith)
                requires
                    share <= divisor,
                    one > 0,
            ;
            lemma_quotient_within(total, divisor, one, false);
            let average = quotient(Some(total), Some(divisor), false)->0;
            lemma_representable_negated(weight);
            let size = magnitude(weight);
            assert(-(one * size) <= average * weight <= one * size) by (nonlinear_arith)
                requires
                    -one <= average <= one,
                    size == weight || size == -weight,
                    size >= 0,
                    one > 0,
            ;
            assert(one * (-size) == -(one * size)) by (nonlinear_arith);
            if average * weight >= 0 {
                lemma_fit_below(average * weight, one, size);
            } else {
                lemma_fit_above(average * weight, one, -size);
            }
        }
    }
}

/// While the quantities of the trades are not negative, the smoothed flow stays
/// between -1 and 1 and the average velocity does not become negative.
pub proof fn law_averages_in_bounds(
    state: SymbolFactors,
    symbol: Seq<char>,
    markets: Seq<(Seq<char>, SymbolMarket)>,
    market: SymbolMarket,
    mid: int,
    now: Moment,
    config: AppConfig,
    weights: ParsedFactors,
    ups: Halves,
)
    requires
        -ONE <= state.smoothed_flow <= ONE,
        state.trade_velocity_ewma >= 0,
        trades_are_sound(market),
    ensures
        after_market(state, symbol, markets, market, mid, now, config, weights, ups) matches Some(
            (next, signals),
        ) ==> {
            &&& -ONE <= next.smoothed_flow <= ONE
            &&& next.trade_velocity_ewma >= 0
            &&& signals.velocity >= 0
            &&& signals.velocity_ratio >= 0
            &&& signals.rolling_volume >= 0
        },
{
    let trades = market.recent_trades@;
    let alpha = weights.volatility_ewma_alpha@;
    let priced = after_mid(state, mid, now, alpha, ups.moved);
    let seen = activity(trades, config, now, ups.flow);
    if priced is Some && seen is Some {
        let seen = seen->0;
        let start = seen.window_start;
        lemma_volume_not_negative(trades, start, None);
        lemma_volume_not_negative(trades, start, Some(Side::Bid));
        lemma_volume_not_negative(trades, start, Some(Side::Ask));
        law_flow_ratio_in_bounds(
            volume(trades, start, Some(Side::Bid))->0,
            volume(trades, start, Some(Side::Ask))->0,
            ups.flow,
        );
        let count = dec(seen.trade_count as int, 0);
        let secs = dec(larger(config.factors.n_trade_window_secs as int, 1), 0);
        lemma_dec_sign(seen.trade_count as int, 0);
        lemma_dec_sign(larger(config.factors.n_trade_window_secs as int, 1), 0);
        lemma_quotient_sign(count, secs, false);
        lemma_weight_in_bounds(weights.flow_imbalance_weight@);
        lemma_weight_in_bounds(weights.trade_velocity_alpha@);
        lemma_ewma_in_bounds(
            weight_in_bounds(weights.flow_imbalance_weight@),
            seen.flow,
            state.smoothed_flow,
        );
        lemma_ewma_not_negative(
            weight_in_bounds(weights.trade_velocity_alpha@),
            seen.velocity,
            state.trade_velocity_ewma,
        );
        let velocity = if state.trade_velocity_ewma == 0 {
            Some(seen.velocity)
        } else {
            ewma(
                weight_in_bounds(weights.trade_velocity_alpha@),
                Some(seen.velocity),
                state.trade_velocity_ewma,
            )
        };
        if velocity is Some && velocity->0 > 0 {
            lemma_quotient_sign(seen.velocity, velocity->0, ups.ratio);
        }
    }
}

proof fn lemma_zeros(a: int)
    ensures
        product(Some(a), Some(0int)) == Some(0int),
        product(Some(0int), Some(a)) == Some(0int),
        sum(Some(0int), Some(0int)) == Some(0int),
        difference(Some(a), Some(a)) == Some(0int),
{
    let one = ONE as int;
    lemma_units_representable(0);
    assert(a * 0 == one * 0) by (nonlinear_arith);
    assert(0 * a == one * 0) by (nonlinear_arith);
    lemma_fit_exact(0, one, 0);
    lemma_fit_exact(0, 1, 0);
}

/// Whether a symbol has had no return yet.
pub open spec fn has_no_return(state: SymbolFactors) -> bool {
    state.ewma_mean is None && state.ewma_variance == 0
}

/// Whether a symbol has seen no mid price but this one.
pub open spec fn is_still(state: SymbolFactors, mid: int) -> bool {
    &&& state.ewma_variance == 0
    &&& state.ewma_mean is None || state.ewma_mean == Some(0int)
    &&& state.last_mid is None || state.last_mid == Some(mid)
}

proof fn lemma_first_return(state: SymbolFactors, mid: int, now: Moment, alpha: int, up: bool)
    requires
        has_no_return(state),
    ensures
        after_mid(state, mid, now, alpha, up) matches Some(next) ==> next.ewma_variance == 0,
        state.last_mid is None ==> (after_mid(state, mid, now, alpha, up) matches Some(next)
            ==> has_no_return(next)),
{
    if state.last_mid is Some {
        let log_return = log_of(quotient(Some(mid), state.last_mid, up));
        if log_return is Some {
            lemma_zeros(log_return->0);
            lemma_zeros(alpha);
            lemma_zeros(0);
            let beta = difference(Some(ONE as int), Some(alpha));
            if beta is Some {
                lemma_zeros(beta->0);
            }
        }
    }
}

proof fn lemma_still_return(state: SymbolFactors, mid: int, now: Moment, alpha: int, up: bool)
    requires
        is_still(state, mid),
    ensures
        after_mid(state, mid, now, alpha, up) matches Some(next) ==> is_still(next, mid),
{
    if state.last_mid is Some && mid > 0 {
        let one = ONE as int;
        lemma_units_representable(one);
        lemma_quotient_exact(mid, mid, one, up);
        lemma_zeros(0);
        lemma_zeros(alpha);
        let beta = difference(Some(one), Some(alpha));
        if beta is Some {
            lemma_zeros(beta->0);
        }
    }
}

/// Without variance a computation gives no volatility, and what it keeps of the
/// returns is what the mid price has left.
proof fn lemma_outcome_of_mid(
    entries: Seq<(Seq<char>, SymbolFactors)>,
    config: AppConfig,
    parsed: ParsedConfig,
    pair: PairConfig,
    state: BotState,
    ups: Halves,
)
    ensures
        outcome(entries, config, parsed, pair, state, ups) matches Some((next, factors)) ==> {
            let kept = kept_under(entries, pair.symbol@);
            let after = kept_under(next, pair.symbol@);
            ||| next == entries && factors is None
            ||| exists|mid: int, now: Moment, up: bool|
                {
                    &&& find(state.market.symbols@, pair.symbol@) matches Some(market)
                        && market.mid_price matches Some(price) && price@ == mid
                    &&& #[trigger] after_mid(
                        kept,
                        mid,
                        now,
                        parsed.factors.volatility_ewma_alpha@,
                        up,
                    ) matches Some(priced) && priced.ewma_mean == after.ewma_mean
                        && priced.ewma_variance == after.ewma_variance && priced.last_mid
                        == after.last_mid && (priced.ewma_variance == 0 ==> (
                    factors matches Some(f) ==> f.raw_volatility == 0))
                }
        },
{
    let symbol = pair.symbol@;
    let markets = state.market.symbols@;
    if find(markets, symbol) is Some {
        let market = find(markets, symbol)->0;
        if market.mid_price is Some && market.last_updated is Some && outcome(
            entries,
            config,
            parsed,
            pair,
            state,
            ups,
        ) is Some {
            let position = match find(state.positions@, symbol) {
                Some(position) => position.quantity@,
                None => 0,
            };
            let kept = kept_under(entries, symbol);
            let mid = market.mid_price->0@;
            let now = market.last_updated->0@;
            let result = after_compute(
                kept,
                symbol,
                markets,
                market,
                mid,
                now,
                position,
                find(parsed.pairs@, symbol),
                pair.price_source,
                config,
                parsed.factors,
                ups,
            );
            let (next, _) = result->0;
            lemma_find_after_put(entries, symbol, next, symbol);
            let priced = after_mid(
                kept,
                mid,
                now,
                parsed.factors.volatility_ewma_alpha@,
                ups.moved,
            );
            assert(priced is Some);
        }
    }
}

/// The first two computations for a symbol give no volatility, whatever the mid
/// prices are: there is no return at the first, and the first return is its own
/// average.
pub proof fn law_first_results_have_no_volatility(
    entries: Seq<(Seq<char>, SymbolFactors)>,
    config: AppConfig,
    parsed: ParsedConfig,
    pair: PairConfig,
    state: BotState,
    next_config: AppConfig,
    next_parsed: ParsedConfig,
    next_pair: PairConfig,
    next_state: BotState,
    ups: Halves,
    next_ups: Halves,
)
    requires
        kept_under(entries, pair.symbol@) == SymbolFactors::unseen(),
        next_pair.symbol@ == pair.symbol@,
    ensures
        outcome(entries, config, parsed, pair, state, ups) matches Some((next, factors)) ==> {
            &&& factors matches Some(f) ==> f.raw_volatility == 0
            &&& outcome(
                next,
                next_config,
                next_parsed,
                next_pair,
                next_state,
                next_ups,
            ) matches Some((_, later)) ==> (later matches Some(f) ==> f.raw_volatility == 0)
        },
{
    let symbol = pair.symbol@;
    let first = outcome(entries, config, parsed, pair, state, ups);
    lemma_outcome_of_mid(entries, config, parsed, pair, state, ups);
    assert forall|mid: int, now: Moment, up: bool| true implies (#[trigger] after_mid(
        SymbolFactors::unseen(),
        mid,
        now,
        parsed.factors.volatility_ewma_alpha@,
        up,
    ) matches Some(priced) ==> has_no_return(priced)) by {
        lemma_first_return(
            SymbolFactors::unseen(),
            mid,
            now,
            parsed.factors.volatility_ewma_alpha@,
            up,
        );
    }
    if first is Some {
        let (next, _) = first->0;
        let kept = kept_under(next, symbol);
        assert(has_no_return(kept));
        lemma_outcome_of_mid(
            next,
            next_config,
            next_parsed,
            next_pair,
            next_state,
            next_ups,
        );
        assert forall|mid: int, now: Moment, up: bool| true implies (#[trigger] after_mid(
            kept,
            mid,
            now,
            next_parsed.factors.volatility_ewma_alpha@,
            up,
        ) matches Some(priced) ==> priced.ewma_variance == 0) by {
            lemma_first_return(kept, mid, now, next_parsed.factors.volatility_ewma_alpha@, up);
        }
    }
}

/// As long as the mid price of a symbol has never changed there is no
/// volatility: it holds of a symbol that has not been seen yet that it has seen
/// no other price, and a computation at that price keeps it.
pub proof fn law_still_mid_has_no_volatility(
    entries: Seq<(Seq<char>, SymbolFactors)>,
    config: AppConfig,
    parsed: ParsedConfig,
    pair: PairConfig,
    state: BotState,
    mid: int,
    ups: Halves,
)
    requires
        is_still(kept_under(entries, pair.symbol@), mid),
        find(state.market.symbols@, pair.symbol@) matches Some(market) ==> (
        market.mid_price matches Some(price) ==> price@ == mid),
    ensures
        outcome(entries, config, parsed, pair, state, ups) matches Some((next, factors)) ==> {
            &&& is_still(kept_under(next, pair.symbol@), mid)
            &&& factors matches Some(f) ==> f.raw_volatility == 0
        },
        is_still(SymbolFactors::unseen(), mid),
{
    let kept = kept_under(entries, pair.symbol@);
    lemma_outcome_of_mid(entries, config, parsed, pair, state, ups);
    assert forall|now: Moment, up: bool| true implies (#[trigger] after_mid(
        kept,
        mid,
        now,
        parsed.factors.volatility_ewma_alpha@,
        up,
    ) matches Some(priced) ==> is_still(priced, mid)) by {
        lemma_still_return(kept, mid, now, parsed.factors.volatility_ewma_alpha@, up);
    }
}

} // verus!
