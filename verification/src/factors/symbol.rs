//! What is kept of a symbol from one computation of its factors to the next.
use std::collections::VecDeque;

use vstd::prelude::*;

use super::laws::law_intensity_in_bounds;
use super::model::{
    activity, after_activity, after_market, after_mid, after_regime, after_return, after_signals,
    last_entries, may_change, next_intensity, next_spread, volatility, Halves, Signals,
    SymbolFactors, HISTORY,
};
use super::signals::{
    bounded_weight, candidate_regime, inventory_skew, seen_in, time_of_day_multiplier, to_signed,
    trade_activity, try_cross_symbol_flow, try_factor_spread_addon, TradeActivity,
};
use crate::average::{averaged, weighted};
use crate::config::{AppConfig, ParsedConfig, ParsedFactors};
use crate::decimal::{
    ln, magnitude, minus, over, over_small, plus, root_of, sqrt, times, units_of, value, Decimal,
};
use crate::domain::{FactorSnapshot, Factors, MarketRegime};
use crate::rounding::lemma_root_not_negative;
use crate::state::{BotState, SymbolMarket};
use crate::time::{Moment, Timestamp, MAX_SPAN_SECS};

verus! {

/// What is kept of a symbol.
pub struct SymbolFactorState {
    ewma_mean: Option<Decimal>,
    ewma_variance: Decimal,
    last_mid: Option<Decimal>,
    last_mid_timestamp: Option<Timestamp>,
    vol_history: VecDeque<Decimal>,
    smoothed_flow: Decimal,
    regime: MarketRegime,
    regime_intensity: Decimal,
    regime_entered_at: Option<Timestamp>,
    trade_velocity_ewma: Decimal,
    bbo_spread_ewma: Option<Decimal>,
}

/// The moment of an instant, where there is one.
pub open spec fn moment_of(at: Option<Timestamp>) -> Option<Moment> {
    match at {
        Some(at) => Some(at@),
        None => None,
    }
}

impl View for SymbolFactorState {
    type V = SymbolFactors;

    closed spec fn view(&self) -> SymbolFactors {
        SymbolFactors {
            ewma_mean: value(self.ewma_mean),
            ewma_variance: self.ewma_variance@,
            last_mid: value(self.last_mid),
            last_mid_timestamp: moment_of(self.last_mid_timestamp),
            vol_history: units_of(self.vol_history@),
            smoothed_flow: self.smoothed_flow@,
            regime: self.regime,
            regime_intensity: self.regime_intensity@,
            regime_entered_at: moment_of(self.regime_entered_at),
            trade_velocity_ewma: self.trade_velocity_ewma@,
            bbo_spread_ewma: value(self.bbo_spread_ewma),
        }
    }
}

/// The view of what is kept of a symbol, where there is any.
pub open spec fn kept(state: Option<SymbolFactorState>) -> Option<SymbolFactors> {
    match state {
        Some(state) => Some(state@),
        None => None,
    }
}

/// The last entries of a list, up to [`HISTORY`] of them.
fn trimmed(history: VecDeque<Decimal>) -> (r: VecDeque<Decimal>)
    ensures
        units_of(r@) == last_entries(units_of(history@), HISTORY as nat),
{
    let mut rest = history;
    while rest.len() > HISTORY
        invariant
            last_entries(units_of(rest@), HISTORY as nat) == last_entries(
                units_of(history@),
                HISTORY as nat,
            ),
        decreases rest@.len(),
    {
        let ghost before = units_of(rest@);
        let _ = rest.pop_front();
        assert(units_of(rest@) =~= before.skip(1));
        assert(last_entries(units_of(rest@), HISTORY as nat) =~= last_entries(
            before,
            HISTORY as nat,
        ));
    }
    rest
}

impl Clone for SymbolFactorState {
    fn clone(&self) -> (r: Self)
        ensures
            r@ == self@,
            r@.wf(),
    {
        proof {
            use_type_invariant(self);
        }
        let history = self.vol_history.clone();
        assert(history@ =~= self.vol_history@);
        SymbolFactorState {
            ewma_mean: self.ewma_mean,
            ewma_variance: self.ewma_variance,
            last_mid: self.last_mid,
            last_mid_timestamp: self.last_mid_timestamp,
            vol_history: history,
            smoothed_flow: self.smoothed_flow,
            regime: self.regime,
            regime_intensity: self.regime_intensity,
            regime_entered_at: self.regime_entered_at,
            trade_velocity_ewma: self.trade_velocity_ewma,
            bbo_spread_ewma: self.bbo_spread_ewma,
        }
    }
}

impl SymbolFactorState {
    #[verifier::type_invariant]
    spec fn consistent(self) -> bool {
        self@.wf()
    }

    /// What is kept of a symbol that has not been seen yet.
    pub fn new() -> (r: Self)
        ensures
            r@ == SymbolFactors::unseen(),
            r@.wf(),
    {
        let r = SymbolFactorState {
            ewma_mean: None,
            ewma_variance: Decimal::zero(),
            last_mid: None,
            last_mid_timestamp: None,
            vol_history: VecDeque::new(),
            smoothed_flow: Decimal::zero(),
            regime: MarketRegime::Quiet,
            regime_intensity: Decimal::zero(),
            regime_entered_at: None,
            trade_velocity_ewma: Decimal::zero(),
            bbo_spread_ewma: None,
        };
        assert(r@.vol_history =~= Seq::<int>::empty());
        r
    }

    /// The symbol after a log return, or nothing where a number leaves the
    /// range of the decimals.
    pub fn with_return(self, log_return: Decimal, alpha: Decimal) -> (r: Option<Self>)
        ensures
            kept(r) == after_return(self@, log_return@, alpha@),
    {
        proof {
            use_type_invariant(&self);
        }
        let mean_before = match self.ewma_mean {
            Some(mean) => mean,
            None => log_return,
        };
        let mean = averaged(alpha, log_return, mean_before);
        let diff = minus(Some(log_return), Some(mean_before));
        let variance = weighted(
            times(Some(alpha), diff),
            diff,
            minus(Some(Decimal::one()), Some(alpha)),
            Some(self.ewma_variance),
        );
        match (mean, variance) {
            (Some(mean), Some(variance)) => {
                let ghost before = self.vol_history@;
                let mut history = self.vol_history;
                history.push_back(log_return.abs());
                assert(units_of(history@) =~= units_of(before).push(magnitude(log_return@)));
                let next = SymbolFactorState {
                    ewma_mean: Some(mean),
                    ewma_variance: variance.max(Decimal::zero()),
                    vol_history: trimmed(history),
                    ..self
                };
                Some(next)
            },
            _ => None,
        }
    }

    /// The symbol after a mid price, or nothing where a number leaves the range
    /// of the decimals.
    pub fn with_mid(self, mid: Decimal, now: Timestamp, alpha: Decimal) -> (r: Option<Self>)
        ensures
            exists|up: bool| kept(r) == #[trigger] after_mid(self@, mid@, now@, alpha@, up),
    {
        let ghost before = self@;
        let moved = match self.last_mid {
            Some(before) => if before.is_positive() && mid.is_positive() {
                match ln(over(Some(mid), Some(before))) {
                    Some(log_return) => self.with_return(log_return, alpha),
                    None => None,
                }
            } else {
                Some(self)
            },
            None => Some(self),
        };
        let r = match moved {
            Some(moved) => {
                proof {
                    use_type_invariant(&moved);
                }
                Some(
                    SymbolFactorState {
                        last_mid: Some(mid),
                        last_mid_timestamp: Some(now),
                        ..moved
                    },
                )
            },
            None => None,
        };
        proof {
            let even = after_mid(before, mid@, now@, alpha@, false);
            let away = after_mid(before, mid@, now@, alpha@, true);
            assert(kept(r) == even || kept(r) == away);
        }
        r
    }

    /// The volatility of the symbol: the root of the variance, or nothing where
    /// the guesses at it do not come to rest.
    pub fn volatility(&self) -> (r: Option<Decimal>)
        ensures
            exists|ups: spec_fn(nat) -> bool| value(r) == #[trigger] volatility(self@, ups),
            r matches Some(root) ==> root@ >= 0,
            self@.ewma_variance == 0 ==> value(r) == Some(0int),
    {
        let r = sqrt(self.ewma_variance);
        proof {
            let ups = choose|ups: spec_fn(nat) -> bool|
                value(r) == #[trigger] root_of(self.ewma_variance@, ups);
            lemma_root_not_negative(self.ewma_variance@, ups);
            assert(value(r) == volatility(self@, ups));
        }
        r
    }

    /// The symbol after the trades and the spread of a moment, and the velocity
    /// of the trades against its average, or nothing where a number leaves the
    /// range of the decimals.
    pub fn with_activity(
        self,
        seen: &TradeActivity,
        spread: Option<Decimal>,
        weights: &ParsedFactors,
    ) -> (r: Option<(Self, Decimal)>)
        ensures
            exists|up: bool|
                with_ratio(r) == #[trigger] after_activity(
                    self@,
                    seen@,
                    value(spread),
                    *weights,
                    up,
                ),
    {
        proof {
            use_type_invariant(&self);
        }
        let ghost before = self@;
        let flow = averaged(
            bounded_weight(weights.flow_imbalance_weight),
            seen.flow,
            self.smoothed_flow,
        );
        let next_spread = match (spread, self.bbo_spread_ewma) {
            (Some(spread), Some(before)) => match weighted(
                Some(Decimal::new(2, 1)),
                Some(spread),
                Some(Decimal::new(8, 1)),
                Some(before),
            ) {
                Some(average) => Some(Some(average)),
                None => None,
            },
            (Some(spread), None) => Some(Some(spread)),
            (None, before) => Some(before),
        };
        let velocity = if self.trade_velocity_ewma.is_zero() {
            Some(seen.velocity)
        } else {
            averaged(
                bounded_weight(weights.trade_velocity_alpha),
                seen.velocity,
                self.trade_velocity_ewma,
            )
        };
        let r = match (flow, next_spread, velocity) {
            (Some(flow), Some(next_spread), Some(velocity)) => {
                let ratio = if velocity.is_zero() {
                    Some(Decimal::one())
                } else {
                    over(Some(seen.velocity), Some(velocity))
                };
                match ratio {
                    Some(ratio) => Some(
                        (
                            SymbolFactorState {
                                smoothed_flow: flow,
                                bbo_spread_ewma: next_spread,
                                trade_velocity_ewma: velocity,
                                ..self
                            },
                            ratio,
                        ),
                    ),
                    None => None,
                }
            },
            _ => None,
        };
        proof {
            let even = after_activity(before, seen@, value(spread), *weights, false);
            let away = after_activity(before, seen@, value(spread), *weights, true);
            assert(with_ratio(r) == even || with_ratio(r) == away);
        }
        r
    }

    /// The symbol after a moment of its market, and the signals of that moment,
    /// or nothing where a number leaves the range of the decimals.
    pub fn with_market(
        self,
        symbol: &String,
        state: &BotState,
        market: &SymbolMarket,
        mid: Decimal,
        now: Timestamp,
        config: &AppConfig,
        weights: &ParsedFactors,
    ) -> (r: Option<(Self, MarketSignals)>)
        ensures
            exists|ups: Halves|
                with_signals_of(r) == #[trigger] after_market(
                    self@,
                    symbol@,
                    state.market.symbols@,
                    *market,
                    mid@,
                    now@,
                    *config,
                    *weights,
                    ups,
                ),
            r matches Some((_, signals)) ==> signals.volatility@ >= 0,
    {
        let ghost before = self@;
        let ghost markets = state.market.symbols@;
        let ghost none = Halves {
            moved: false,
            guesses: |n: nat| false,
            flow: false,
            ratio: false,
            elsewhere: |n: nat| false,
            share: false,
        };
        let priced = self.with_mid(mid, now, weights.volatility_ewma_alpha);
        let ghost moved: bool = choose|up: bool|
            kept(priced) == #[trigger] after_mid(
                before,
                mid@,
                now@,
                weights.volatility_ewma_alpha@,
                up,
            );
        let seen = trade_activity(&market.recent_trades, config, now);
        let ghost flow: bool = choose|up: bool|
            seen_in(seen) == #[trigger] activity(market.recent_trades@, *config, now@, up);
        let ghost ups = Halves { moved, flow, ..none };
        let (priced, seen) = match (priced, seen) {
            (Some(priced), Some(seen)) => (priced, seen),
            _ => {
                assert(after_market(
                    before,
                    symbol@,
                    markets,
                    *market,
                    mid@,
                    now@,
                    *config,
                    *weights,
                    ups,
                ) is None);
                return None;
            },
        };
        let ghost after_price = priced@;
        let volatility = priced.volatility();
        let ghost guesses = choose|ups: spec_fn(nat) -> bool|
            value(volatility) == #[trigger] super::model::volatility(after_price, ups);
        let cross_flow = try_cross_symbol_flow(
            symbol,
            state,
            seen.window_start,
            weights.cross_symbol_vol_weight,
        );
        let ghost elsewhere = choose|ups: spec_fn(nat) -> bool|
            value(cross_flow) == #[trigger] super::model::cross_flow(
                markets,
                symbol@,
                seen.window_start@,
                weights.cross_symbol_vol_weight@,
                ups,
            );
        let observed = priced.with_activity(&seen, market.bbo_spread_bps, weights);
        let ghost ratio: bool = choose|up: bool|
            with_ratio(observed) == #[trigger] after_activity(
                after_price,
                seen@,
                value(market.bbo_spread_bps),
                *weights,
                up,
            );
        let ghost ups = Halves { guesses, ratio, elsewhere, ..ups };
        let r = match observed {
            Some((next, velocity_ratio)) => {
                let spread = match next.bbo_spread_ewma {
                    Some(spread) => spread,
                    None => Decimal::zero(),
                };
                let spread_addon = times(Some(spread), Some(weights.bbo_spread_vol_weight));
                match (volatility, cross_flow, spread_addon) {
                    (Some(volatility), Some(cross_flow), Some(spread_addon)) => Some(
                        (
                            next,
                            MarketSignals {
                                volatility,
                                rolling_volume: seen.rolling_volume,
                                trade_count: seen.trade_count,
                                velocity: seen.velocity,
                                velocity_ratio,
                                cross_flow,
                                spread_addon,
                            },
                        ),
                    ),
                    _ => None,
                }
            },
            None => None,
        };
        assert(with_signals_of(r) == after_market(
            before,
            symbol@,
            markets,
            *market,
            mid@,
            now@,
            *config,
            *weights,
            ups,
        ));
        r
    }

    /// The symbol after a regime has been spoken for.
    pub fn with_regime(self, target: MarketRegime, now: Timestamp, dwell: i64) -> (r: Self)
        ensures
            r@ == after_regime(self@, target, now@, dwell as int),
    {
        proof {
            use_type_invariant(&self);
        }
        let may_change: bool = match self.regime_entered_at {
            Some(at) => now.is_later_by(at, dwell),
            None => true,
        };
        if may_change && target != self.regime {
            SymbolFactorState { regime: target, regime_entered_at: Some(now), ..self }
        } else if self.regime_entered_at.is_none() {
            SymbolFactorState { regime_entered_at: Some(now), ..self }
        } else {
            self
        }
    }

    /// The smoothed intensity of the regime, or nothing where a number leaves
    /// the range of the decimals.
    pub fn intensity_after(&self, flow_size: Decimal, volatility: Decimal) -> (r: Option<Decimal>)
        ensures
            value(r) == next_intensity(self@.regime_intensity, flow_size@, volatility@),
    {
        match over_small(Some(volatility), Decimal::new(8, 4)) {
            Some(scaled) => {
                let raw = flow_size.min(Decimal::one()).max(scaled.min(Decimal::one()));
                weighted(
                    Some(Decimal::new(2, 1)),
                    Some(raw),
                    Some(Decimal::new(8, 1)),
                    Some(self.regime_intensity),
                )
            },
            None => None,
        }
    }

    /// The symbol after the signals of a moment, and its factors where the
    /// spread of its market is known, or nothing where a number leaves the
    /// range of the decimals or the dwell time that of a span of time.
    pub fn with_signals(
        self,
        signals: &MarketSignals,
        position: Decimal,
        limit: Decimal,
        price_index: Decimal,
        now: Timestamp,
        parsed: &ParsedConfig,
    ) -> (r: Option<(Self, Option<FactorSnapshot>)>)
        ensures
            exists|up: bool|
                with_factors(r) == #[trigger] after_signals(
                    self@,
                    signals@,
                    position@,
                    limit@,
                    price_index@,
                    now@,
                    parsed.factors,
                    up,
                ),
    {
        proof {
            use_type_invariant(&self);
        }
        let ghost before = self@;
        let dwell: i64 = to_signed(parsed.factors.regime_min_dwell_secs);
        let skew = inventory_skew(position, limit, &parsed.factors);
        let flow = plus(Some(self.smoothed_flow), Some(signals.cross_flow));
        let ghost up: bool = choose|up: bool|
            value(skew) == #[trigger] super::model::skew(position@, limit@, parsed.factors, up);
        let ghost result = after_signals(
            before,
            signals@,
            position@,
            limit@,
            price_index@,
            now@,
            parsed.factors,
            up,
        );
        let r = match (skew, flow) {
            (Some(inventory_skew), Some(flow)) => {
                let target = candidate_regime(
                    flow.abs(),
                    signals.volatility,
                    signals.velocity_ratio,
                    signals.velocity,
                );
                let intensity = self.intensity_after(flow.abs(), signals.volatility);
                let addon = try_factor_spread_addon(parsed, signals.volatility);
                let volatility = times(
                    plus(
                        plus(addon, Some(signals.spread_addon)),
                        Some(signals.cross_flow.abs()),
                    ),
                    Some(time_of_day_multiplier(now)),
                );
                let settled = self.with_regime(target, now, dwell);
                match (intensity, volatility) {
                    (Some(intensity), Some(volatility)) => {
                        if dwell < -MAX_SPAN_SECS || dwell > MAX_SPAN_SECS {
                            assert(result is None);
                            return None;
                        }
                        proof {
                            use_type_invariant(&settled);
                            law_intensity_in_bounds(
                                before.regime_intensity,
                                magnitude(flow@),
                                signals.volatility@,
                            );
                        }
                        let next = SymbolFactorState { regime_intensity: intensity, ..settled };
                        if next.bbo_spread_ewma.is_none() {
                            let r = Some((next, None));
                            assert(with_factors(r) == result);
                            return r;
                        }
                        let size = times(
                            Some(signals.rolling_volume),
                            Some(parsed.factors.volume_size_weight),
                        );
                        match size {
                            Some(size) => {
                                let one = Decimal::one();
                                let snapshot = FactorSnapshot {
                                    price_index,
                                    raw_volatility: signals.volatility,
                                    volatility,
                                    volume_imbalance: size.max(Decimal::zero()),
                                    flow_direction: flow.clamp(one.negated(), one),
                                    inventory_skew,
                                    recent_trade_count: signals.trade_count,
                                    regime: next.regime,
                                    regime_intensity: intensity.min(one).max(Decimal::zero()),
                                };
                                Some((next, Some(snapshot)))
                            },
                            None => None,
                        }
                    },
                    _ => None,
                }
            },
            _ => None,
        };
        assert(with_factors(r) == result);
        r
    }
}

/// The views of a symbol and of the velocity ratio, where there are such.
pub open spec fn with_ratio(r: Option<(SymbolFactorState, Decimal)>) -> Option<
    (SymbolFactors, int),
> {
    match r {
        Some((next, ratio)) => Some((next@, ratio@)),
        None => None,
    }
}

/// The views of a symbol and of the signals of its market, where there are such.
pub open spec fn with_signals_of(r: Option<(SymbolFactorState, MarketSignals)>) -> Option<
    (SymbolFactors, Signals),
> {
    match r {
        Some((next, signals)) => Some((next@, signals@)),
        None => None,
    }
}

/// The views of a symbol and of its factors, where there are such.
pub open spec fn with_factors(r: Option<(SymbolFactorState, Option<FactorSnapshot>)>) -> Option<
    (SymbolFactors, Option<Factors>),
> {
    match r {
        Some((next, snapshot)) => Some((next@, factors_of(snapshot))),
        None => None,
    }
}

/// The signals that a market gives at a moment.
pub struct MarketSignals {
    pub volatility: Decimal,
    pub rolling_volume: Decimal,
    pub trade_count: usize,
    pub velocity: Decimal,
    pub velocity_ratio: Decimal,
    pub cross_flow: Decimal,
    pub spread_addon: Decimal,
}

impl View for MarketSignals {
    type V = Signals;

    open spec fn view(&self) -> Signals {
        Signals {
            volatility: self.volatility@,
            rolling_volume: self.rolling_volume@,
            trade_count: self.trade_count as nat,
            velocity: self.velocity@,
            velocity_ratio: self.velocity_ratio@,
            cross_flow: self.cross_flow@,
            spread_addon: self.spread_addon@,
        }
    }
}

/// The view of a snapshot, where there is one.
pub open spec fn factors_of(snapshot: Option<FactorSnapshot>) -> Option<Factors> {
    match snapshot {
        Some(snapshot) => Some(snapshot@),
        None => None,
    }
}

} // verus!
