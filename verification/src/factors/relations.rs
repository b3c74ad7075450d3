//! How the factors relate to what they are computed from.
use vstd::prelude::*;

use super::laws::{law_compute_keeps_wf, law_intensity_in_bounds};
use super::model::{
    activity, after_activity, after_compute, after_market, after_mid, after_signals, as_signed,
    cross_flow, flow_elsewhere, flow_ratio, hour_multiplier, kept_under, near_funding,
    next_intensity, outcome, regime_for, skew, time_multiplier, trade_count, volume, Activity,
    Halves, Signals, SymbolFactors,
};
use crate::config::{AppConfig, PairConfig, ParsedConfig, ParsedFactors, PriceSource};
use crate::decimal::{
    dec, difference, fit, lemma_dec_sign, lemma_pow10_values, log_of, magnitude, product, quotient,
    representable, root_of, sum, value, ONE,
};
use crate::domain::{Factors, MarketRegime, RecentTrade, Side};
use crate::rounding::{
    lemma_fit_exact, lemma_fit_order, lemma_fit_representable, lemma_quotient_exact,
    lemma_units_representable,
};
use crate::state::{BotState, SymbolMarket};
use crate::table::{find, lemma_find_after_put, put};
use crate::time::{earlier, Moment, MAX_SPAN_SECS};

verus! {

/// The volume of a window is the sum of the quantities of the trades from its start
/// on that have the taker, or of all of them where none is asked for. The count is the
/// number of trades from its start on.
pub proof fn law_volume_sums_quantities(
    trades: Seq<RecentTrade>,
    start: Moment,
    taker: Option<Side>,
)
    ensures
        volume(trades, start, taker) == trades.filter(
            |trade: RecentTrade|
                trade.timestamp@.at_or_after(start) && (taker is None || trade.taker_side
                    == taker),
        ).fold_left(
            Some(0int),
            |total: Option<int>, trade: RecentTrade| sum(total, Some(trade.quantity@)),
        ),
        trade_count(trades, start) == trades.filter(
            |trade: RecentTrade| trade.timestamp@.at_or_after(start),
        ).len(),
    decreases trades.len(),
{
    reveal(Seq::filter);
    let counted = |trade: RecentTrade|
        trade.timestamp@.at_or_after(start) && (taker is None || trade.taker_side == taker);
    let added = |total: Option<int>, trade: RecentTrade| sum(total, Some(trade.quantity@));
    if trades.len() > 0 {
        law_volume_sums_quantities(trades.drop_last(), start, taker);
        let before = trades.drop_last().filter(counted);
        if counted(trades.last()) {
            let all = trades.filter(counted);
            assert(all == before.push(trades.last()));
            assert(all.drop_last() =~= before);
            assert(all.fold_left(Some(0int), added) == added(
                before.fold_left(Some(0int), added),
                trades.last(),
            ));
        }
    }
}

/// Trades before a window do not count, and those in it count with their whole
/// quantity, whatever stands around them.
pub proof fn law_one_more_trade(
    trades: Seq<RecentTrade>,
    trade: RecentTrade,
    start: Moment,
    taker: Option<Side>,
)
    ensures
        !trade.timestamp@.at_or_after(start) ==> volume(trades.push(trade), start, taker)
            == volume(trades, start, taker) && trade_count(trades.push(trade), start)
            == trade_count(trades, start),
        trade.timestamp@.at_or_after(start) ==> trade_count(trades.push(trade), start)
            == trade_count(trades, start) + 1,
        trade.timestamp@.at_or_after(start) && (taker is None || trade.taker_side == taker)
            ==> volume(trades.push(trade), start, taker) == sum(
            volume(trades, start, taker),
            Some(trade.quantity@),
        ),
        taker is Some && trade.taker_side != taker ==> volume(trades.push(trade), start, taker)
            == volume(trades, start, taker),
{
    assert(trades.push(trade).drop_last() =~= trades);
}

/// The flow ratio, multiplied with all that was bought or sold, gives what was bought
/// more than sold, and it is zero where nothing was bought or sold.
pub proof fn law_flow_ratio_is_a_share(
    bought: int,
    sold: int,
    surplus: int,
    total: int,
    ratio: int,
    up: bool,
)
    requires
        sum(Some(bought), Some(sold)) == Some(total),
        difference(Some(bought), Some(sold)) == Some(surplus),
    ensures
        total == 0 ==> flow_ratio(Some(bought), Some(sold), up) == Some(0int),
        total != 0 ==> flow_ratio(Some(bought), Some(sold), up) == quotient(
            Some(surplus),
            Some(total),
            up,
        ),
        total > 0 && representable(ratio) && ratio * total == surplus * ONE ==> flow_ratio(
            Some(bought),
            Some(sold),
            up,
        ) == Some(ratio),
{
    if total > 0 && representable(ratio) && ratio * total == surplus * ONE {
        assert(surplus * ONE == total * ratio) by (nonlinear_arith)
            requires
                ratio * total == surplus * ONE,
        ;
        lemma_quotient_exact(surplus, total, ratio, up);
    }
}

/// The trades of a market are read in two windows that end at the instant: volume and
/// flow in that of the volume, count and velocity in that of the count. The velocity is
/// the number of trades for each second of the window, which counts as one second at
/// least.
pub proof fn law_windows_of_the_trades(
    trades: Seq<RecentTrade>,
    config: AppConfig,
    now: Moment,
    up: bool,
    start: Moment,
    count_start: Moment,
    rolling_volume: int,
    flow: int,
    velocity: int,
)
    requires
        earlier(now, config.factors.volume_window_secs as int) == Some(start),
        earlier(now, config.factors.n_trade_window_secs as int) == Some(count_start),
        volume(trades, start, None) == Some(rolling_volume),
        flow_ratio(
            volume(trades, start, Some(Side::Bid)),
            volume(trades, start, Some(Side::Ask)),
            up,
        ) == Some(flow),
        quotient(
            Some(dec(trade_count(trades, count_start) as int, 0)),
            Some(
                dec(
                    if config.factors.n_trade_window_secs >= 1 {
                        config.factors.n_trade_window_secs as int
                    } else {
                        1
                    },
                    0,
                ),
            ),
            false,
        ) == Some(velocity),
    ensures
        activity(trades, config, now, up) == Some(
            Activity {
                rolling_volume,
                flow,
                trade_count: trade_count(trades, count_start),
                velocity,
                window_start: start,
            },
        ),
{
}

/// What a mid price leaves of a symbol: without a positive price before it, or where
/// it is not positive itself, the price and its time alone. Else the log return `r` of
/// the two prices is taken in with the weight `alpha`, into the average, and with its
/// squared distance from the average before into the variance, which is kept from
/// falling below zero. Its size comes behind those of the last 511 returns.
pub proof fn law_return_of_a_mid(
    state: SymbolFactors,
    mid: int,
    now: Moment,
    alpha: int,
    up: bool,
    r: int,
    before: int,
    distance: int,
    mean: int,
    variance: int,
)
    requires
        state.wf(),
    ensures
        !(state.last_mid matches Some(last) && last > 0 && mid > 0) ==> after_mid(
            state,
            mid,
            now,
            alpha,
            up,
        ) == Some(
            SymbolFactors { last_mid: Some(mid), last_mid_timestamp: Some(now), ..state },
        ),
        state.last_mid matches Some(last) && last > 0 && mid > 0 && log_of(
            quotient(Some(mid), Some(last), up),
        ) == Some(r) && before == (match state.ewma_mean {
            Some(average) => average,
            None => r,
        }) && difference(Some(r), Some(before)) == Some(distance) && sum(
            product(Some(alpha), Some(r)),
            product(difference(Some(ONE as int), Some(alpha)), Some(before)),
        ) == Some(mean) && sum(
            product(product(Some(alpha), Some(distance)), Some(distance)),
            product(difference(Some(ONE as int), Some(alpha)), Some(state.ewma_variance)),
        ) == Some(variance) ==> (after_mid(state, mid, now, alpha, up) matches Some(next) && {
            &&& next.ewma_mean == Some(mean)
            &&& next.ewma_variance == (if variance < 0 {
                0
            } else {
                variance
            })
            &&& next.last_mid == Some(mid)
            &&& next.last_mid_timestamp == Some(now)
            &&& next.vol_history == (if state.vol_history.len() < 512 {
                state.vol_history.push(magnitude(r))
            } else {
                state.vol_history.drop_first().push(magnitude(r))
            })
            &&& next.smoothed_flow == state.smoothed_flow
            &&& next.regime == state.regime
            &&& next.regime_intensity == state.regime_intensity
            &&& next.regime_entered_at == state.regime_entered_at
            &&& next.trade_velocity_ewma == state.trade_velocity_ewma
            &&& next.bbo_spread_ewma == state.bbo_spread_ewma
        }),
{
    let pushed = state.vol_history.push(magnitude(r));
    if state.vol_history.len() == 512 {
        assert(pushed.skip(1) =~= state.vol_history.drop_first().push(magnitude(r)));
    }
}

/// What the trades and the spread of a moment leave of a symbol. The flow is smoothed
/// with the weight of the flow, from a hundredth to one, the velocity with the weight of
/// the velocity, from a hundredth to one, and the spread with a fifth. A velocity that
/// was zero, and a spread that was not known, start with what is seen. The velocity is
/// also given as a share of its average.
pub proof fn law_averages_take_their_weights(
    state: SymbolFactors,
    seen: Activity,
    spread: Option<int>,
    weights: ParsedFactors,
    up: bool,
    flow_weight: int,
    velocity_weight: int,
    flow: int,
    average_spread: Option<int>,
    velocity: int,
    ratio: int,
)
    requires
        flow_weight == (if weights.flow_imbalance_weight@ < 100_000_000_000_000_000_000_000_000 {
            100_000_000_000_000_000_000_000_000
        } else if weights.flow_imbalance_weight@ > ONE {
            ONE as int
        } else {
            weights.flow_imbalance_weight@
        }),
        velocity_weight == (if weights.trade_velocity_alpha@
            < 100_000_000_000_000_000_000_000_000 {
            100_000_000_000_000_000_000_000_000
        } else if weights.trade_velocity_alpha@ > ONE {
            ONE as int
        } else {
            weights.trade_velocity_alpha@
        }),
        sum(
            product(Some(flow_weight), Some(seen.flow)),
            product(difference(Some(ONE as int), Some(flow_weight)), Some(state.smoothed_flow)),
        ) == Some(flow),
        match (spread, state.bbo_spread_ewma) {
            (Some(new), Some(old)) => average_spread is Some && average_spread == sum(
                product(Some(2_000_000_000_000_000_000_000_000_000), Some(new)),
                product(Some(8_000_000_000_000_000_000_000_000_000), Some(old)),
            ),
            (Some(new), None) => average_spread == Some(new),
            (None, old) => average_spread == old,
        },
        if state.trade_velocity_ewma == 0 {
            velocity == seen.velocity
        } else {
            sum(
                product(Some(velocity_weight), Some(seen.velocity)),
                product(
                    difference(Some(ONE as int), Some(velocity_weight)),
                    Some(state.trade_velocity_ewma),
                ),
            ) == Some(velocity)
        },
        if velocity == 0 {
            ratio == ONE
        } else {
            quotient(Some(seen.velocity), Some(velocity), up) == Some(ratio)
        },
    ensures
        after_activity(state, seen, spread, weights, up) == Some(
            (
                SymbolFactors {
                    smoothed_flow: flow,
                    bbo_spread_ewma: average_spread,
                    trade_velocity_ewma: velocity,
                    ..state
                },
                ratio,
            ),
        ),
{
    lemma_pow10_values();
}

/// The flow elsewhere: the market of the symbol itself does not count, nor does one in
/// which nothing was bought or sold. Every other one adds its flow ratio, and one to the
/// count.
pub proof fn law_flow_elsewhere_adds_ratios(
    markets: Seq<(Seq<char>, SymbolMarket)>,
    other: Seq<char>,
    market: SymbolMarket,
    symbol: Seq<char>,
    start: Moment,
    ups: spec_fn(nat) -> bool,
    total: int,
    count: nat,
    bought: int,
    sold: int,
    both: int,
    ratio: int,
)
    requires
        flow_elsewhere(markets, symbol, start, ups) == Some((total, count)),
    ensures
        flow_elsewhere(Seq::empty(), symbol, start, ups) == Some((0int, 0nat)),
        other == symbol ==> flow_elsewhere(markets.push((other, market)), symbol, start, ups)
            == Some((total, count)),
        other != symbol && volume(market.recent_trades@, start, Some(Side::Bid)) == Some(bought)
            && volume(market.recent_trades@, start, Some(Side::Ask)) == Some(sold) && sum(
            Some(bought),
            Some(sold),
        ) == Some(both) ==> {
            &&& both <= 0 ==> flow_elsewhere(
                markets.push((other, market)),
                symbol,
                start,
                ups,
            ) == Some((total, count))
            &&& both > 0 && flow_ratio(Some(bought), Some(sold), ups(markets.len() + 1)) == Some(
                ratio,
            ) ==> flow_elsewhere(markets.push((other, market)), symbol, start, ups) == (match sum(
                Some(total),
                Some(ratio),
            ) {
                Some(total) => Some((total, count + 1)),
                None => None,
            })
        },
{
    assert(markets.push((other, market)).drop_last() =~= markets);
}

/// The cross flow is the average of the flow ratios of the other markets that have a
/// flow, times its weight, and zero where none has. With one such market it is that
/// market's ratio times the weight.
pub proof fn law_cross_flow_is_an_average(
    markets: Seq<(Seq<char>, SymbolMarket)>,
    symbol: Seq<char>,
    start: Moment,
    weight: int,
    ups: spec_fn(nat) -> bool,
    total: int,
    count: nat,
    average: int,
)
    requires
        flow_elsewhere(markets, symbol, start, ups) == Some((total, count)),
    ensures
        count == 0 ==> cross_flow(markets, symbol, start, weight, ups) == Some(0int),
        count > 0 ==> cross_flow(markets, symbol, start, weight, ups) == product(
            quotient(Some(total), Some(dec(count as int, 0)), false),
            Some(weight),
        ),
        count > 0 && representable(average) && average * count == total ==> cross_flow(
            markets,
            symbol,
            start,
            weight,
            ups,
        ) == product(Some(average), Some(weight)),
{
    if count > 0 && representable(average) && average * count == total {
        let divisor = dec(count as int, 0);
        lemma_dec_sign(count as int, 0);
        lemma_pow10_values();
        assert(divisor == count * ONE);
        assert(total * ONE == divisor * average) by (nonlinear_arith)
            requires
                average * count == total,
                divisor == count * ONE,
        ;
        lemma_quotient_exact(total, divisor, average, false);
    }
}

/// The market of a symbol has no part in the cross flow of the symbol.
pub proof fn law_own_market_has_no_cross_flow(
    markets: Seq<(Seq<char>, SymbolMarket)>,
    others: Seq<(Seq<char>, SymbolMarket)>,
    symbol: Seq<char>,
    start: Moment,
    weight: int,
    ups: spec_fn(nat) -> bool,
)
    requires
        markets.len() == others.len(),
        forall|i: int|
            0 <= i < markets.len() ==> (#[trigger] markets[i]).0 == (#[trigger] others[i]).0 && (
            markets[i].0 == symbol || markets[i].1 == others[i].1),
    ensures
        flow_elsewhere(markets, symbol, start, ups) == flow_elsewhere(others, symbol, start, ups),
        cross_flow(markets, symbol, start, weight, ups) == cross_flow(
            others,
            symbol,
            start,
            weight,
            ups,
        ),
    decreases markets.len(),
{
    if markets.len() > 0 {
        let a = markets.drop_last();
        let b = others.drop_last();
        assert forall|i: int| 0 <= i < a.len() implies (#[trigger] a[i]).0 == (
        #[trigger] b[i]).0 && (a[i].0 == symbol || a[i].1 == b[i].1) by {
            assert(markets[i].0 == others[i].0);
        }
        law_own_market_has_no_cross_flow(a, b, symbol, start, weight, ups);
        assert(markets[markets.len() - 1].0 == others[others.len() - 1].0);
    }
}

/// Without trades in other markets there is no cross flow.
pub proof fn law_quiet_markets_have_no_cross_flow(
    markets: Seq<(Seq<char>, SymbolMarket)>,
    symbol: Seq<char>,
    start: Moment,
    weight: int,
    ups: spec_fn(nat) -> bool,
)
    requires
        forall|i: int|
            0 <= i < markets.len() && (#[trigger] markets[i]).0 != symbol
                ==> markets[i].1.recent_trades@.len() == 0,
    ensures
        flow_elsewhere(markets, symbol, start, ups) == Some((0int, 0nat)),
        cross_flow(markets, symbol, start, weight, ups) == Some(0int),
    decreases markets.len(),
{
    if markets.len() > 0 {
        let rest = markets.drop_last();
        assert forall|i: int| 0 <= i < rest.len() && (#[trigger] rest[i]).0 != symbol implies
            rest[i].1.recent_trades@.len() == 0 by {
            assert(rest[i] == markets[i]);
        }
        law_quiet_markets_have_no_cross_flow(rest, symbol, start, weight, ups);
        assert(markets[markets.len() - 1] == markets.last());
        lemma_units_representable(0);
        lemma_fit_exact(0, 1, 0);
    }
}

/// What a moment of a market leaves of a symbol, and its signals, from the steps that
/// it is made of: the mid price with the weight of the volatility, the trades and the
/// spread of this market, the flow of the other markets in the window of the volume, the
/// root of the variance, and the smoothed spread times its weight, which is zero where
/// no spread was seen yet.
pub proof fn law_moment_of_a_market(
    state: SymbolFactors,
    symbol: Seq<char>,
    markets: Seq<(Seq<char>, SymbolMarket)>,
    market: SymbolMarket,
    mid: int,
    now: Moment,
    config: AppConfig,
    weights: ParsedFactors,
    ups: Halves,
    priced: SymbolFactors,
    seen: Activity,
    next: SymbolFactors,
    velocity_ratio: int,
    root: int,
    cross: int,
    spread_addon: int,
)
    requires
        after_mid(state, mid, now, weights.volatility_ewma_alpha@, ups.moved) == Some(priced),
        activity(market.recent_trades@, config, now, ups.flow) == Some(seen),
        after_activity(
            priced,
            seen,
            match market.bbo_spread_bps {
                Some(spread) => Some(spread@),
                None => None,
            },
            weights,
            ups.ratio,
        ) == Some((next, velocity_ratio)),
        root_of(priced.ewma_variance, ups.guesses) == Some(root),
        cross_flow(
            markets,
            symbol,
            seen.window_start,
            weights.cross_symbol_vol_weight@,
            ups.elsewhere,
        ) == Some(cross),
        product(
            Some(
                match next.bbo_spread_ewma {
                    Some(spread) => spread,
                    None => 0,
                },
            ),
            Some(weights.bbo_spread_vol_weight@),
        ) == Some(spread_addon),
    ensures
        after_market(state, symbol, markets, market, mid, now, config, weights, ups) == Some(
            (
                next,
                Signals {
                    volatility: root,
                    rolling_volume: seen.rolling_volume,
                    trade_count: seen.trade_count,
                    velocity: seen.velocity,
                    velocity_ratio,
                    cross_flow: cross,
                    spread_addon,
                },
            ),
        ),
{
}

/// The skew of a position: its share of the limit, raised by the convexity for each
/// unit of its size, times floor and risk constant. Without a limit there is none.
pub proof fn law_skew_of_a_position(
    position: int,
    limit: int,
    weights: ParsedFactors,
    up: bool,
    share: int,
    size: int,
    raised: int,
    base: int,
    bent: int,
)
    requires
        if limit == 0 {
            share == 0
        } else {
            quotient(Some(position), Some(limit), up) == Some(share)
        },
        size == share || size == -share,
        size >= 0,
        sum(
            Some(ONE as int),
            product(Some(weights.inventory_skew_convexity@), Some(size)),
        ) == Some(raised),
        product(Some(share), Some(raised)) == Some(bent),
        product(
            Some(weights.volatility_floor@),
            Some(weights.inventory_risk_constant@),
        ) == Some(base),
    ensures
        skew(position, limit, weights, up) == product(Some(bent), Some(base)),
{
}

/// The regime that signals speak for: a toxic trend where the flow is above 0.6 in
/// either direction. Else a volatile balance where the volatility is above 0.0008, or
/// the velocity above one and a half, by itself or as a share of its average. Else a
/// quiet market.
pub proof fn law_regimes_have_thresholds(
    flow_size: int,
    volatility: int,
    velocity_ratio: int,
    velocity: int,
)
    ensures
        regime_for(flow_size, volatility, velocity_ratio, velocity)
            == MarketRegime::TrendingToxic <==> flow_size
            > 6_000_000_000_000_000_000_000_000_000,
        regime_for(flow_size, volatility, velocity_ratio, velocity) == MarketRegime::Quiet
            <==> flow_size <= 6_000_000_000_000_000_000_000_000_000 && volatility
            <= 8_000_000_000_000_000_000_000_000 && velocity_ratio
            <= 15_000_000_000_000_000_000_000_000_000 && velocity
            <= 15_000_000_000_000_000_000_000_000_000,
{
    lemma_pow10_values();
}

/// The intensity goes a fifth of the way to the stronger of two signals, each kept from
/// being more than one: the size of the flow, and the volatility as a share of 0.0008.
pub proof fn law_intensity_follows_the_stronger_signal(
    before: int,
    flow_size: int,
    volatility: int,
    scaled: int,
    stronger: int,
)
    requires
        quotient(Some(volatility), Some(8_000_000_000_000_000_000_000_000), false) == Some(
            scaled,
        ),
        stronger <= ONE,
        stronger == ONE ==> flow_size >= ONE || scaled >= ONE,
        stronger < ONE ==> stronger >= flow_size && stronger >= scaled && (stronger == flow_size
            || stronger == scaled),
    ensures
        next_intensity(before, flow_size, volatility) == sum(
            product(Some(2_000_000_000_000_000_000_000_000_000), Some(stronger)),
            product(Some(8_000_000_000_000_000_000_000_000_000), Some(before)),
        ),
{
    lemma_pow10_values();
}

/// The spread multiplier of each hour, and the instants in which it is raised by half:
/// those in the first hour of every eight of the day and in the fifteen minutes before.
pub proof fn law_multipliers_of_the_hours(at: Moment)
    ensures
        near_funding(at) <==> at.second_of_day() % 28_800 < 3_600 || at.second_of_day() % 28_800
            >= 27_900,
        at.second_of_day() < 28_800 ==> hour_multiplier(at.hour())
            == 8_000_000_000_000_000_000_000_000_000,
        28_800 <= at.second_of_day() < 43_200 ==> hour_multiplier(at.hour())
            == 10_000_000_000_000_000_000_000_000_000,
        43_200 <= at.second_of_day() < 72_000 ==> hour_multiplier(at.hour())
            == 13_000_000_000_000_000_000_000_000_000,
        72_000 <= at.second_of_day() ==> hour_multiplier(at.hour())
            == 11_000_000_000_000_000_000_000_000_000,
        near_funding(at) ==> 2 * time_multiplier(at) == 3 * hour_multiplier(at.hour()),
        !near_funding(at) ==> time_multiplier(at) == hour_multiplier(at.hour()),
{
    lemma_pow10_values();
}

/// What the signals of a moment leave of a symbol whose spread is known, and its
/// factors, from the numbers that they are made of. The flow is the smoothed one and the
/// cross flow together, in the factors between -1 and 1. The volatility of the spread is
/// made of the volatility, the spread and the size of the cross flow, and multiplied for
/// the time of day. The regime changes to the one that the signals speak for once the
/// one before has lasted.
pub proof fn law_factors_of_a_moment(
    state: SymbolFactors,
    signals: Signals,
    position: int,
    limit: int,
    price_index: int,
    now: Moment,
    weights: ParsedFactors,
    up: bool,
    inventory_skew: int,
    flow: int,
    intensity: int,
    spread_volatility: int,
    size: int,
)
    requires
        state.wf(),
        state.bbo_spread_ewma is Some,
        -MAX_SPAN_SECS <= as_signed(weights.regime_min_dwell_secs) <= MAX_SPAN_SECS,
        skew(position, limit, weights, up) == Some(inventory_skew),
        sum(Some(state.smoothed_flow), Some(signals.cross_flow)) == Some(flow),
        next_intensity(state.regime_intensity, magnitude(flow), signals.volatility) == Some(
            intensity,
        ),
        product(
            sum(
                sum(
                    product(Some(signals.volatility), Some(weights.volatility_spread_weight@)),
                    Some(signals.spread_addon),
                ),
                Some(magnitude(signals.cross_flow)),
            ),
            Some(time_multiplier(now)),
        ) == Some(spread_volatility),
        product(Some(signals.rolling_volume), Some(weights.volume_size_weight@)) == Some(size),
    ensures
        after_signals(state, signals, position, limit, price_index, now, weights, up) matches Some(
            (next, Some(f)),
        ) && {
            let target = regime_for(
                magnitude(flow),
                signals.volatility,
                signals.velocity_ratio,
                signals.velocity,
            );
            let lasted = state.regime_entered_at matches Some(at) ==> now.nanos_since(at)
                >= as_signed(weights.regime_min_dwell_secs) * 1_000_000_000;
            let regime = if lasted {
                target
            } else {
                state.regime
            };
            &&& f.price_index == price_index
            &&& f.raw_volatility == signals.volatility
            &&& f.volatility == spread_volatility
            &&& f.volume_imbalance == (if size < 0 {
                0
            } else {
                size
            })
            &&& f.flow_direction == (if flow < -ONE {
                -ONE
            } else if flow > ONE {
                ONE as int
            } else {
                flow
            })
            &&& f.inventory_skew == inventory_skew
            &&& f.recent_trade_count == signals.trade_count
            &&& f.regime == regime
            &&& f.regime_intensity == intensity
            &&& next == (SymbolFactors {
                regime,
                regime_intensity: intensity,
                regime_entered_at: if regime != state.regime || state.regime_entered_at is None {
                    Some(now)
                } else {
                    state.regime_entered_at
                },
                ..state
            })
        },
{
    law_intensity_in_bounds(
        state.regime_intensity,
        magnitude(flow),
        signals.volatility,
    );
}

/// Without a known spread the same is left of a symbol, and there are no factors.
pub proof fn law_no_factors_without_a_spread(
    state: SymbolFactors,
    signals: Signals,
    position: int,
    limit: int,
    price_index: int,
    now: Moment,
    weights: ParsedFactors,
    up: bool,
    average: int,
)
    requires
        state.bbo_spread_ewma is None,
    ensures
        after_signals(state, signals, position, limit, price_index, now, weights, up) matches Some(
            (next, factors),
        ) ==> factors is None && next.bbo_spread_ewma is None,
        after_signals(
            SymbolFactors { bbo_spread_ewma: Some(average), ..state },
            signals,
            position,
            limit,
            price_index,
            now,
            weights,
            up,
        ) matches Some((next, _)) ==> after_signals(
            state,
            signals,
            position,
            limit,
            price_index,
            now,
            weights,
            up,
        ) == Some(
            (SymbolFactors { bbo_spread_ewma: None, ..next }, None::<Factors>),
        ),
{
}

/// A computation for a pair whose market is known is made of the moment of that market
/// and, where the limits of the pair are known, of its signals, the position in the pair
/// and the price that is asked for. It is kept under the symbol of the pair, and where
/// the limits are not known there are no factors.
pub proof fn law_computation_of_a_pair(
    entries: Seq<(Seq<char>, SymbolFactors)>,
    config: AppConfig,
    parsed: ParsedConfig,
    pair: PairConfig,
    state: BotState,
    ups: Halves,
    market: SymbolMarket,
    mid: int,
    now: Moment,
    next: SymbolFactors,
    signals: Signals,
    limit: Option<int>,
    position: int,
    price: int,
)
    requires
        find(state.market.symbols@, pair.symbol@) == Some(market),
        value(market.mid_price) == Some(mid),
        market.last_updated is Some,
        market.last_updated->0@ == now,
        after_market(
            match find(entries, pair.symbol@) {
                Some(kept) => kept,
                None => SymbolFactors {
                    ewma_mean: None,
                    ewma_variance: 0,
                    last_mid: None,
                    last_mid_timestamp: None,
                    vol_history: Seq::empty(),
                    smoothed_flow: 0,
                    regime: MarketRegime::Quiet,
                    regime_intensity: 0,
                    regime_entered_at: None,
                    trade_velocity_ewma: 0,
                    bbo_spread_ewma: None,
                },
            },
            pair.symbol@,
            state.market.symbols@,
            market,
            mid,
            now,
            config,
            parsed.factors,
            ups,
        ) == Some((next, signals)),
        limit == (match find(parsed.pairs@, pair.symbol@) {
            Some(limits) => Some(limits.max_position_base@),
            None => None,
        }),
        position == (match find(state.positions@, pair.symbol@) {
            Some(position) => position.quantity@,
            None => 0,
        }),
        price == (match (pair.price_source, market.mark_price, market.spot_price) {
            (PriceSource::Mark, Some(mark), _) => mark@,
            (PriceSource::Spot, _, Some(spot)) => spot@,
            _ => mid,
        }),
    ensures
        limit is None ==> outcome(entries, config, parsed, pair, state, ups) == Some(
            (put(entries, pair.symbol@, next), None::<Factors>),
        ),
        limit matches Some(limit) ==> outcome(entries, config, parsed, pair, state, ups) == (
        match after_signals(
            next,
            signals,
            position,
            limit,
            price,
            now,
            parsed.factors,
            ups.share,
        ) {
            Some((last, factors)) => Some((put(entries, pair.symbol@, last), factors)),
            None => None,
        }),
{
}

/// The smoothed flow after a computation is the flow ratio of the trades in the window
/// of the volume, with the weight of the flow, and the smoothed flow before it, with the
/// rest of one. That weight is the one that is set, from a hundredth to one. The flow
/// direction is this flow and the cross flow together, between -1 and 1.
pub proof fn law_flow_is_smoothed_with_its_weight(
    entries: Seq<(Seq<char>, SymbolFactors)>,
    config: AppConfig,
    parsed: ParsedConfig,
    pair: PairConfig,
    state: BotState,
    ups: Halves,
    market: SymbolMarket,
    now: Moment,
    start: Moment,
    raw: int,
    weight: int,
    before: int,
    cross: int,
)
    requires
        find(state.market.symbols@, pair.symbol@) == Some(market),
        market.mid_price is Some,
        market.last_updated is Some,
        market.last_updated->0@ == now,
        earlier(now, config.factors.volume_window_secs as int) == Some(start),
        flow_ratio(
            volume(market.recent_trades@, start, Some(Side::Bid)),
            volume(market.recent_trades@, start, Some(Side::Ask)),
            ups.flow,
        ) == Some(raw),
        weight == (if parsed.factors.flow_imbalance_weight@
            < 100_000_000_000_000_000_000_000_000 {
            100_000_000_000_000_000_000_000_000
        } else if parsed.factors.flow_imbalance_weight@ > ONE {
            ONE as int
        } else {
            parsed.factors.flow_imbalance_weight@
        }),
        before == (match find(entries, pair.symbol@) {
            Some(kept) => kept.smoothed_flow,
            None => 0,
        }),
        cross_flow(
            state.market.symbols@,
            pair.symbol@,
            start,
            parsed.factors.cross_symbol_vol_weight@,
            ups.elsewhere,
        ) == Some(cross),
    ensures
        outcome(entries, config, parsed, pair, state, ups) matches Some((next, factors)) ==> (find(
            next,
            pair.symbol@,
        ) matches Some(after) && {
            &&& sum(
                product(Some(weight), Some(raw)),
                product(difference(Some(ONE as int), Some(weight)), Some(before)),
            ) == Some(after.smoothed_flow)
            &&& factors matches Some(f) ==> (sum(
                Some(after.smoothed_flow),
                Some(cross),
            ) matches Some(flow) && f.flow_direction == (if flow < -ONE {
                -ONE
            } else if flow > ONE {
                ONE as int
            } else {
                flow
            }))
        }),
{
    lemma_pow10_values();
    let result = outcome(entries, config, parsed, pair, state, ups);
    if result is Some {
        let after = lemma_outcome_kept(entries, config, parsed, pair, state, ups, market);
        lemma_find_after_put(entries, pair.symbol@, after, pair.symbol@);
    }
}

/// What a computation keeps of the symbol of its pair, where the market is known.
proof fn lemma_outcome_kept(
    entries: Seq<(Seq<char>, SymbolFactors)>,
    config: AppConfig,
    parsed: ParsedConfig,
    pair: PairConfig,
    state: BotState,
    ups: Halves,
    market: SymbolMarket,
) -> (after: SymbolFactors)
    requires
        find(state.market.symbols@, pair.symbol@) == Some(market),
        market.mid_price is Some,
        market.last_updated is Some,
        outcome(entries, config, parsed, pair, state, ups) is Some,
    ensures
        outcome(entries, config, parsed, pair, state, ups) matches Some((next, factors)) && next
            == put(entries, pair.symbol@, after) && after_compute(
            kept_under(entries, pair.symbol@),
            pair.symbol@,
            state.market.symbols@,
            market,
            market.mid_price->0@,
            market.last_updated->0@,
            match find(state.positions@, pair.symbol@) {
                Some(position) => position.quantity@,
                None => 0,
            },
            find(parsed.pairs@, pair.symbol@),
            pair.price_source,
            config,
            parsed.factors,
            ups,
        ) == Some((after, factors)),
{
    let result = after_compute(
        kept_under(entries, pair.symbol@),
        pair.symbol@,
        state.market.symbols@,
        market,
        market.mid_price->0@,
        market.last_updated->0@,
        match find(state.positions@, pair.symbol@) {
            Some(position) => position.quantity@,
            None => 0,
        },
        find(parsed.pairs@, pair.symbol@),
        pair.price_source,
        config,
        parsed.factors,
        ups,
    );
    let (after, _) = result->0;
    after
}

proof fn lemma_all_bought(trades: Seq<RecentTrade>, start: Moment)
    requires
        forall|i: int|
            0 <= i < trades.len() && (#[trigger] trades[i]).timestamp@.at_or_after(start)
                ==> trades[i].taker_side == Some(Side::Bid) && trades[i].quantity@ > 0,
    ensures
        volume(trades, start, Some(Side::Ask)) == Some(0int),
        volume(trades, start, Some(Side::Bid)) matches Some(bought) ==> bought >= 0 && fit(
            bought,
            1,
            0,
        ) == Some(bought) && ((exists|i: int|
            0 <= i < trades.len() && (#[trigger] trades[i]).timestamp@.at_or_after(start))
            ==> bought > 0),
    decreases trades.len(),
{
    if trades.len() > 0 {
        let rest = trades.drop_last();
        assert forall|i: int|
            0 <= i < rest.len() && (#[trigger] rest[i]).timestamp@.at_or_after(start) implies
            rest[i].taker_side == Some(Side::Bid) && rest[i].quantity@ > 0 by {
            assert(rest[i] == trades[i]);
        }
        lemma_all_bought(rest, start);
        let last = trades.last();
        assert(trades[trades.len() - 1] == last);
        let before = volume(rest, start, Some(Side::Bid));
        if last.timestamp@.at_or_after(start) {
            if before is Some {
                lemma_sum_grows(before->0, last.quantity@);
            }
        } else if exists|i: int|
            0 <= i < trades.len() && (#[trigger] trades[i]).timestamp@.at_or_after(start) {
            let i = choose|i: int|
                0 <= i < trades.len() && (#[trigger] trades[i]).timestamp@.at_or_after(start);
            assert(rest[i] == trades[i]);
        }
    } else {
        lemma_units_representable(0);
        lemma_fit_exact(0, 1, 0);
    }
}

/// The sum of a number that is not negative and a positive one is positive, and a
/// decimal.
proof fn lemma_sum_grows(a: int, b: int)
    requires
        a >= 0,
        b > 0,
    ensures
        sum(Some(a), Some(b)) matches Some(r) ==> r > 0 && fit(r, 1, 0) == Some(r),
{
    if sum(Some(a), Some(b)) is Some {
        let r = sum(Some(a), Some(b))->0;
        lemma_fit_representable(a + b, 1, 0);
        lemma_fit_exact(r, 1, r);
        lemma_units_representable(1);
        lemma_fit_exact(1, 1, 1);
        lemma_fit_order(1, a + b, 1);
    }
}

/// A symbol that has not been seen yet, without trades in other markets, whose trades
/// in the window of the volume are all buys: its flow direction is the weight of the
/// flow, from a hundredth to one.
pub proof fn law_first_buys_show_the_weight_of_the_flow(
    entries: Seq<(Seq<char>, SymbolFactors)>,
    config: AppConfig,
    parsed: ParsedConfig,
    pair: PairConfig,
    state: BotState,
    ups: Halves,
    market: SymbolMarket,
    now: Moment,
    start: Moment,
    i: int,
)
    requires
        find(entries, pair.symbol@) is None,
        find(state.market.symbols@, pair.symbol@) == Some(market),
        market.last_updated is Some,
        market.last_updated->0@ == now,
        earlier(now, config.factors.volume_window_secs as int) == Some(start),
        forall|j: int|
            0 <= j < state.market.symbols@.len() && (#[trigger] state.market.symbols@[j]).0
                != pair.symbol@ ==> state.market.symbols@[j].1.recent_trades@.len() == 0,
        forall|j: int|
            0 <= j < market.recent_trades@.len() && (
            #[trigger] market.recent_trades@[j]).timestamp@.at_or_after(start)
                ==> market.recent_trades@[j].taker_side == Some(Side::Bid)
                && market.recent_trades@[j].quantity@ > 0,
        0 <= i < market.recent_trades@.len(),
        market.recent_trades@[i].timestamp@.at_or_after(start),
    ensures
        outcome(entries, config, parsed, pair, state, ups) matches Some((_, Some(f)))
            ==> f.flow_direction == (if parsed.factors.flow_imbalance_weight@
            < 100_000_000_000_000_000_000_000_000 {
            100_000_000_000_000_000_000_000_000
        } else if parsed.factors.flow_imbalance_weight@ > ONE {
            ONE as int
        } else {
            parsed.factors.flow_imbalance_weight@
        }),
{
    if let Some((next, Some(f))) = outcome(entries, config, parsed, pair, state, ups) {
        let one = ONE as int;
        let trades = market.recent_trades@;
        lemma_all_bought(trades, start);
        assert(trades[i].timestamp@.at_or_after(start));
        let after = lemma_outcome_kept(entries, config, parsed, pair, state, ups, market);
        let bought = volume(trades, start, Some(Side::Bid));
        assert(bought is Some);
        let b = bought->0;
        assert(b + 0 == b && b - 0 == b);
        lemma_units_representable(one);
        lemma_quotient_exact(b, b, one, ups.flow);
        assert(flow_ratio(bought, Some(0int), ups.flow) == Some(one));
        let weight = if parsed.factors.flow_imbalance_weight@
            < 100_000_000_000_000_000_000_000_000 {
            100_000_000_000_000_000_000_000_000
        } else if parsed.factors.flow_imbalance_weight@ > ONE {
            one
        } else {
            parsed.factors.flow_imbalance_weight@
        };
        law_quiet_markets_have_no_cross_flow(
            state.market.symbols@,
            pair.symbol@,
            start,
            parsed.factors.cross_symbol_vol_weight@,
            ups.elsewhere,
        );
        law_flow_is_smoothed_with_its_weight(
            entries,
            config,
            parsed,
            pair,
            state,
            ups,
            market,
            now,
            start,
            one,
            weight,
            0,
            0,
        );
        lemma_units_representable(weight);
        lemma_units_representable(one - weight);
        lemma_units_representable(0);
        assert(weight * one == one * weight) by (nonlinear_arith);
        lemma_fit_exact(weight * one, one, weight);
        lemma_fit_exact(one - weight, 1, one - weight);
        assert((one - weight) * 0 == one * 0) by (nonlinear_arith);
        lemma_fit_exact(0, one, 0);
        lemma_fit_exact(weight, 1, weight);
    }
}

/// Each factor rests on its own weights. Where two settings give factors for the same
/// state of all markets, those are the same that the weights which differ have no part
/// in: the number of trades and the price have none, the volatility of the mid price has
/// its own, and so have the flow, the size, the skew, the intensity, the regime and the
/// volatility of the spread.
pub proof fn law_factors_rest_on_their_own_weights(
    entries: Seq<(Seq<char>, SymbolFactors)>,
    config: AppConfig,
    parsed: ParsedConfig,
    other: ParsedConfig,
    pair: PairConfig,
    state: BotState,
    ups: Halves,
    f: Factors,
    g: Factors,
)
    requires
        parsed.pairs@ == other.pairs@,
        outcome(entries, config, parsed, pair, state, ups) matches Some((_, Some(r))) && r == f,
        outcome(entries, config, other, pair, state, ups) matches Some((_, Some(r))) && r == g,
    ensures
        f.price_index == g.price_index,
        f.recent_trade_count == g.recent_trade_count,
        parsed.factors.volatility_ewma_alpha@ == other.factors.volatility_ewma_alpha@
            ==> f.raw_volatility == g.raw_volatility,
        parsed.factors.volume_size_weight@ == other.factors.volume_size_weight@
            ==> f.volume_imbalance == g.volume_imbalance,
        parsed.factors.inventory_skew_convexity@ == other.factors.inventory_skew_convexity@
            && parsed.factors.volatility_floor@ == other.factors.volatility_floor@
            && parsed.factors.inventory_risk_constant@ == other.factors.inventory_risk_constant@
            ==> f.inventory_skew == g.inventory_skew,
        parsed.factors.flow_imbalance_weight@ == other.factors.flow_imbalance_weight@
            && parsed.factors.cross_symbol_vol_weight@ == other.factors.cross_symbol_vol_weight@
            ==> f.flow_direction == g.flow_direction,
        parsed.factors.volatility_ewma_alpha@ == other.factors.volatility_ewma_alpha@
            && parsed.factors.volatility_spread_weight@ == other.factors.volatility_spread_weight@
            && parsed.factors.bbo_spread_vol_weight@ == other.factors.bbo_spread_vol_weight@
            && parsed.factors.cross_symbol_vol_weight@ == other.factors.cross_symbol_vol_weight@
            ==> f.volatility == g.volatility,
        parsed.factors.volatility_ewma_alpha@ == other.factors.volatility_ewma_alpha@
            && parsed.factors.flow_imbalance_weight@ == other.factors.flow_imbalance_weight@
            && parsed.factors.cross_symbol_vol_weight@ == other.factors.cross_symbol_vol_weight@
            ==> f.regime_intensity == g.regime_intensity && (
        parsed.factors.trade_velocity_alpha@ == other.factors.trade_velocity_alpha@
            && parsed.factors.regime_min_dwell_secs == other.factors.regime_min_dwell_secs
            ==> f.regime == g.regime),
{
    let market = find(state.market.symbols@, pair.symbol@)->0;
    let _ = lemma_outcome_kept(entries, config, parsed, pair, state, ups, market);
    let _ = lemma_outcome_kept(entries, config, other, pair, state, ups, market);
}

/// The windows have their own parts too: the number of trades rests on the window of the
/// count alone, and size and flow on that of the volume.
pub proof fn law_factors_rest_on_their_own_windows(
    entries: Seq<(Seq<char>, SymbolFactors)>,
    config: AppConfig,
    other: AppConfig,
    parsed: ParsedConfig,
    pair: PairConfig,
    state: BotState,
    ups: Halves,
    f: Factors,
    g: Factors,
)
    requires
        outcome(entries, config, parsed, pair, state, ups) matches Some((_, Some(r))) && r == f,
        outcome(entries, other, parsed, pair, state, ups) matches Some((_, Some(r))) && r == g,
    ensures
        f.price_index == g.price_index,
        f.raw_volatility == g.raw_volatility,
        f.inventory_skew == g.inventory_skew,
        config.factors.n_trade_window_secs == other.factors.n_trade_window_secs
            ==> f.recent_trade_count == g.recent_trade_count,
        config.factors.volume_window_secs == other.factors.volume_window_secs
            ==> f.volume_imbalance == g.volume_imbalance && f.flow_direction == g.flow_direction
            && f.volatility == g.volatility && f.regime_intensity == g.regime_intensity,
{
    let market = find(state.market.symbols@, pair.symbol@)->0;
    let _ = lemma_outcome_kept(entries, config, parsed, pair, state, ups, market);
    let _ = lemma_outcome_kept(entries, other, parsed, pair, state, ups, market);
}

/// A computation for a pair whose market and limits are known gives factors as soon as
/// a spread has been seen.
pub proof fn law_known_markets_have_factors(
    entries: Seq<(Seq<char>, SymbolFactors)>,
    config: AppConfig,
    parsed: ParsedConfig,
    pair: PairConfig,
    state: BotState,
    ups: Halves,
    market: SymbolMarket,
)
    requires
        find(state.market.symbols@, pair.symbol@) == Some(market),
        market.mid_price is Some,
        market.last_updated is Some,
        find(parsed.pairs@, pair.symbol@) is Some,
        market.bbo_spread_bps is Some || (find(entries, pair.symbol@) matches Some(kept)
            && kept.bbo_spread_ewma is Some),
    ensures
        outcome(entries, config, parsed, pair, state, ups) matches Some((next, factors)) ==> factors
            is Some && find(next, pair.symbol@) is Some,
{
    if outcome(entries, config, parsed, pair, state, ups) is Some {
        let after = lemma_outcome_kept(entries, config, parsed, pair, state, ups, market);
        lemma_find_after_put(entries, pair.symbol@, after, pair.symbol@);
    }
}

/// The factors of a pair and what is kept of its symbol, together: the mid price and
/// its time are the ones of the market, the intensity and the regime that are kept are
/// the ones that are told, and the volatility is the root of the variance that is kept.
pub proof fn law_factors_tell_what_is_kept(
    entries: Seq<(Seq<char>, SymbolFactors)>,
    config: AppConfig,
    parsed: ParsedConfig,
    pair: PairConfig,
    state: BotState,
    ups: Halves,
    market: SymbolMarket,
)
    requires
        find(state.market.symbols@, pair.symbol@) == Some(market),
        market.mid_price is Some,
        market.last_updated is Some,
        kept_under(entries, pair.symbol@).wf(),
    ensures
        outcome(entries, config, parsed, pair, state, ups) matches Some((next, factors)) ==> (find(
            next,
            pair.symbol@,
        ) matches Some(after) && {
            &&& after.last_mid == Some(market.mid_price->0@)
            &&& after.last_mid_timestamp == Some(market.last_updated->0@)
            &&& factors matches Some(f) ==> {
                &&& f.regime == after.regime
                &&& f.regime_intensity == after.regime_intensity
                &&& Some(f.raw_volatility) == root_of(after.ewma_variance, ups.guesses)
            }
        }),
{
    if outcome(entries, config, parsed, pair, state, ups) is Some {
        let after = lemma_outcome_kept(entries, config, parsed, pair, state, ups, market);
        lemma_find_after_put(entries, pair.symbol@, after, pair.symbol@);
        law_compute_keeps_wf(
            kept_under(entries, pair.symbol@),
            pair.symbol@,
            state.market.symbols@,
            market,
            market.mid_price->0@,
            market.last_updated->0@,
            match find(state.positions@, pair.symbol@) {
                Some(position) => position.quantity@,
                None => 0,
            },
            find(parsed.pairs@, pair.symbol@),
            pair.price_source,
            config,
            parsed.factors,
            ups,
        );
    }
}

/// A mid price leaves nothing where one of the numbers of its return is out of range.
pub proof fn law_returns_out_of_range(
    state: SymbolFactors,
    mid: int,
    now: Moment,
    alpha: int,
    up: bool,
)
    requires
        state.last_mid matches Some(last) && last > 0 && mid > 0,
        after_mid(state, mid, now, alpha, up) is Some,
    ensures
        state.last_mid matches Some(last) && (log_of(
            quotient(Some(mid), Some(last), up),
        ) matches Some(r) && {
            let before = match state.ewma_mean {
                Some(average) => average,
                None => r,
            };
            let distance = difference(Some(r), Some(before));
            &&& sum(
                product(Some(alpha), Some(r)),
                product(difference(Some(ONE as int), Some(alpha)), Some(before)),
            ) is Some
            &&& sum(
                product(product(Some(alpha), distance), distance),
                product(difference(Some(ONE as int), Some(alpha)), Some(state.ewma_variance)),
            ) is Some
        }),
{
}

/// A moment of a market leaves nothing where a window, a volume, a share, an average,
/// the root or the cross flow is out of range.
pub proof fn law_moments_out_of_range(
    state: SymbolFactors,
    symbol: Seq<char>,
    markets: Seq<(Seq<char>, SymbolMarket)>,
    market: SymbolMarket,
    mid: int,
    now: Moment,
    config: AppConfig,
    weights: ParsedFactors,
    ups: Halves,
)
    requires
        after_market(state, symbol, markets, market, mid, now, config, weights, ups) is Some,
    ensures
        after_mid(
            state,
            mid,
            now,
            weights.volatility_ewma_alpha@,
            ups.moved,
        ) matches Some(priced) && root_of(priced.ewma_variance, ups.guesses) is Some,
        earlier(now, config.factors.n_trade_window_secs as int) is Some,
        earlier(now, config.factors.volume_window_secs as int) matches Some(start) && {
            let trades = market.recent_trades@;
            &&& volume(trades, start, None) is Some
            &&& volume(trades, start, Some(Side::Bid)) is Some
            &&& volume(trades, start, Some(Side::Ask)) is Some
            &&& flow_ratio(
                volume(trades, start, Some(Side::Bid)),
                volume(trades, start, Some(Side::Ask)),
                ups.flow,
            ) is Some
            &&& cross_flow(
                markets,
                symbol,
                start,
                weights.cross_symbol_vol_weight@,
                ups.elsewhere,
            ) is Some
        },
{
}

/// The averages of a moment leave nothing where one of them is out of range.
pub proof fn law_averages_out_of_range(
    state: SymbolFactors,
    seen: Activity,
    spread: Option<int>,
    weights: ParsedFactors,
    up: bool,
)
    requires
        after_activity(state, seen, spread, weights, up) is Some,
    ensures
        after_activity(state, seen, spread, weights, up) matches Some((next, ratio)) && {
            &&& state.bbo_spread_ewma is None && spread is None ==> next.bbo_spread_ewma is None
            &&& next.trade_velocity_ewma == 0 ==> ratio == ONE
            &&& next.trade_velocity_ewma != 0 ==> quotient(
                Some(seen.velocity),
                Some(next.trade_velocity_ewma),
                up,
            ) == Some(ratio)
        },
        spread matches Some(new) ==> (state.bbo_spread_ewma matches Some(old) ==> sum(
            product(Some(2_000_000_000_000_000_000_000_000_000), Some(new)),
            product(Some(8_000_000_000_000_000_000_000_000_000), Some(old)),
        ) is Some),
{
    lemma_pow10_values();
}

/// The signals of a moment leave nothing where the skew, the flow, the intensity or
/// the volatility of the spread is out of range, nor where the dwell time, read as a
/// number with a sign, is longer than a span of time.
pub proof fn law_signals_out_of_range(
    state: SymbolFactors,
    signals: Signals,
    position: int,
    limit: int,
    price_index: int,
    now: Moment,
    weights: ParsedFactors,
    up: bool,
)
    ensures
        after_signals(
            state,
            signals,
            position,
            limit,
            price_index,
            now,
            weights,
            up,
        ) is Some ==> {
            &&& skew(position, limit, weights, up) is Some
            &&& sum(Some(state.smoothed_flow), Some(signals.cross_flow)) matches Some(flow)
                && next_intensity(
                state.regime_intensity,
                magnitude(flow),
                signals.volatility,
            ) is Some
            &&& product(
                sum(
                    sum(
                        product(
                            Some(signals.volatility),
                            Some(weights.volatility_spread_weight@),
                        ),
                        Some(signals.spread_addon),
                    ),
                    Some(magnitude(signals.cross_flow)),
                ),
                Some(time_multiplier(now)),
            ) is Some
            &&& state.bbo_spread_ewma is Some ==> product(
                Some(signals.rolling_volume),
                Some(weights.volume_size_weight@),
            ) is Some
            &&& -MAX_SPAN_SECS <= as_signed(weights.regime_min_dwell_secs) <= MAX_SPAN_SECS
        },
        limit != 0 && quotient(Some(position), Some(limit), up) is None ==> skew(
            position,
            limit,
            weights,
            up,
        ) is None,
        quotient(
            Some(signals.volatility),
            Some(8_000_000_000_000_000_000_000_000),
            false,
        ) is None ==> next_intensity(state.regime_intensity, position, signals.volatility) is None,
{
    lemma_pow10_values();
}

/// A dwell time is read as a number of 64 bits with a sign.
pub proof fn law_dwell_times_have_a_sign(n: u64)
    ensures
        -0x8000_0000_0000_0000 <= as_signed(n) < 0x8000_0000_0000_0000,
        n < 0x8000_0000_0000_0000 ==> as_signed(n) == n,
        n >= 0x8000_0000_0000_0000 ==> as_signed(n) == n - 0x1_0000_0000_0000_0000,
{
}

/// A computation gives nothing where the moment of its market does not.
pub proof fn law_computations_out_of_range(
    entries: Seq<(Seq<char>, SymbolFactors)>,
    config: AppConfig,
    parsed: ParsedConfig,
    pair: PairConfig,
    state: BotState,
    ups: Halves,
    market: SymbolMarket,
)
    requires
        find(state.market.symbols@, pair.symbol@) == Some(market),
        market.mid_price is Some,
        market.last_updated is Some,
        outcome(entries, config, parsed, pair, state, ups) is Some,
    ensures
        after_market(
            kept_under(entries, pair.symbol@),
            pair.symbol@,
            state.market.symbols@,
            market,
            market.mid_price->0@,
            market.last_updated->0@,
            config,
            parsed.factors,
            ups,
        ) is Some,
{
}

} // verus!
