use market_maker::config::{
    AppConfig, FactorConfig, PairConfig, ParsedConfig, ParsedFactors, ParsedPair, PriceSource,
};
use market_maker::decimal::Decimal;
use market_maker::domain::{FactorSnapshot, MarketRegime, Position, RecentTrade, Side};
use market_maker::factors::signals::{
    inventory_skew, trade_activity, try_cross_symbol_flow, try_factor_spread_addon,
};
use market_maker::factors::symbol::SymbolFactorState;
use market_maker::factors::{
    candidate_regime, cross_symbol_flow, factor_spread_addon, FactorEngine,
};
use market_maker::state::{BotState, MarketState, SymbolMarket};
use market_maker::table::SymbolMap;
use market_maker::time::Timestamp;
use rust_decimal::MathematicalOps;

/// Ten o'clock, where the spread multiplier is one.
const TEN: i64 = 1_704_103_200;

fn d(num: i64, scale: u32) -> Decimal {
    Decimal::new(num, scale)
}

fn equal(a: Decimal, b: Decimal) -> bool {
    !a.exceeds(b) && !b.exceeds(a)
}

fn outside(a: Decimal) -> rust_decimal::Decimal {
    rust_decimal::Decimal::from_i128_with_scale(a.mantissa(), a.scale())
}

fn at(secs: i64) -> Timestamp {
    Timestamp::new(TEN + secs, 0).unwrap()
}

fn trade(num: i64, scale: u32, side: Option<Side>, secs: i64) -> RecentTrade {
    RecentTrade { quantity: d(num, scale), timestamp: at(secs), taker_side: side }
}

fn market(mid: Decimal, secs: i64, trades: Vec<RecentTrade>) -> SymbolMarket {
    SymbolMarket {
        mid_price: Some(mid),
        bbo_spread_bps: Some(d(10, 0)),
        mark_price: None,
        spot_price: None,
        last_updated: Some(at(secs)),
        recent_trades: trades,
    }
}

fn state_of(market: SymbolMarket) -> BotState {
    let mut symbols = SymbolMap::new();
    symbols.insert("A".to_string(), market);
    let mut positions = SymbolMap::new();
    positions.insert(
        "A".to_string(),
        Position { symbol: "A".to_string(), quantity: d(5, 0), ..Position::default() },
    );
    BotState { market: MarketState { symbols }, positions }
}

fn config() -> AppConfig {
    AppConfig { factors: FactorConfig { volume_window_secs: 60, n_trade_window_secs: 10 } }
}

fn weights() -> ParsedFactors {
    ParsedFactors {
        volatility_ewma_alpha: d(5, 1),
        flow_imbalance_weight: d(5, 1),
        trade_velocity_alpha: d(5, 1),
        cross_symbol_vol_weight: d(5, 1),
        bbo_spread_vol_weight: d(1, 1),
        inventory_skew_convexity: d(2, 0),
        volatility_floor: d(1, 2),
        inventory_risk_constant: d(5, 1),
        volatility_spread_weight: d(100, 0),
        volume_size_weight: d(1, 2),
        regime_min_dwell_secs: 30,
    }
}

fn parsed() -> ParsedConfig {
    let mut pairs = SymbolMap::new();
    pairs.insert("A".to_string(), ParsedPair { max_position_base: d(10, 0) });
    ParsedConfig { factors: weights(), pairs }
}

fn pair(source: PriceSource) -> PairConfig {
    PairConfig { symbol: "A".to_string(), price_source: source }
}

fn run(engine: &mut FactorEngine, state: &BotState) -> Option<FactorSnapshot> {
    match engine.compute(&config(), &parsed(), &pair(PriceSource::Mid), state) {
        Ok(snapshot) => snapshot,
        Err(_) => panic!("out of range"),
    }
}

#[test]
fn a_first_quiet_computation() {
    let mut engine = FactorEngine::new();
    let snapshot = run(&mut engine, &state_of(market(d(100, 0), 0, vec![]))).unwrap();
    assert!(equal(snapshot.price_index, d(100, 0)));
    assert!(snapshot.raw_volatility.is_zero());
    // 10 basis points of spread, weighted by 0.1.
    assert!(equal(snapshot.volatility, d(1, 0)));
    assert!(snapshot.volume_imbalance.is_zero());
    assert!(snapshot.flow_direction.is_zero());
    // 0.5 * (1 + 2 * 0.5) * (0.01 * 0.5)
    assert!(equal(snapshot.inventory_skew, d(5, 3)));
    assert_eq!(snapshot.recent_trade_count, 0);
    assert_eq!(snapshot.regime, MarketRegime::Quiet);
    assert!(snapshot.regime_intensity.is_zero());
}

#[test]
fn flow_volume_and_regime_come_from_the_trades() {
    let trades = vec![
        trade(50, 0, Some(Side::Bid), -61),
        trade(3, 0, Some(Side::Bid), -60),
        trade(1, 0, Some(Side::Ask), -20),
        trade(4, 0, None, -5),
        trade(4, 0, Some(Side::Bid), -1),
    ];
    let mut engine = FactorEngine::default();
    let snapshot = run(&mut engine, &state_of(market(d(100, 0), 0, trades))).unwrap();
    // (3 + 1 + 4 + 4) * 0.01
    assert!(equal(snapshot.volume_imbalance, d(12, 2)));
    // 0.5 * (7 - 1) / 8
    assert!(equal(snapshot.flow_direction, d(375, 3)));
    assert_eq!(snapshot.recent_trade_count, 2);
    assert_eq!(snapshot.regime, MarketRegime::Quiet);
    // 0.2 * 0.375
    assert!(equal(snapshot.regime_intensity, d(75, 3)));
}

#[test]
fn volatility_follows_the_log_returns() {
    let mids = vec![d(100, 0), d(101, 0), d(100, 0), d(1025, 1)];
    let mut engine = FactorEngine::new();
    let mut snapshot = None;
    let mut secs = 0;
    for mid in &mids {
        snapshot = run(&mut engine, &state_of(market(*mid, secs, vec![])));
        secs += 1;
    }
    let half = rust_decimal::Decimal::new(5, 1);
    let mut mean: Option<rust_decimal::Decimal> = None;
    let mut variance = rust_decimal::Decimal::ZERO;
    for i in 1..mids.len() {
        let log_return = (outside(mids[i]) / outside(mids[i - 1])).ln();
        let before = mean.unwrap_or(log_return);
        let diff = log_return - before;
        mean = Some(half * log_return + half * before);
        variance = half * diff * diff + half * variance;
    }
    let expected = variance.sqrt().unwrap();
    assert!(expected > rust_decimal::Decimal::new(1, 2));
    let snapshot = snapshot.unwrap();
    assert_eq!(outside(snapshot.raw_volatility), expected);
    assert_eq!(snapshot.regime, MarketRegime::Quiet);
    assert_eq!(
        outside(snapshot.volatility),
        expected * rust_decimal::Decimal::ONE_HUNDRED + rust_decimal::Decimal::ONE
    );
}

#[test]
fn a_regime_dwells_before_it_changes() {
    let busy = |secs: i64| -> SymbolMarket {
        let mut trades = vec![];
        for _ in 0..10 {
            trades.push(trade(1, 0, Some(Side::Bid), secs));
            trades.push(trade(1, 0, Some(Side::Ask), secs));
        }
        market(d(100, 0), secs, trades)
    };
    let mut engine = FactorEngine::new();
    let first = run(&mut engine, &state_of(market(d(100, 0), 0, vec![]))).unwrap();
    assert_eq!(first.regime, MarketRegime::Quiet);
    let early = run(&mut engine, &state_of(busy(29))).unwrap();
    assert_eq!(early.recent_trade_count, 20);
    assert_eq!(early.regime, MarketRegime::Quiet);
    let late = run(&mut engine, &state_of(busy(30))).unwrap();
    assert_eq!(late.regime, MarketRegime::VolatileBalanced);
    assert!(late.flow_direction.is_zero());
}

#[test]
fn regimes_have_thresholds() {
    let zero = Decimal::zero();
    let one = Decimal::one();
    assert_eq!(candidate_regime(d(6, 1), zero, one, zero), MarketRegime::Quiet);
    assert_eq!(candidate_regime(d(61, 2), zero, one, zero), MarketRegime::TrendingToxic);
    assert_eq!(candidate_regime(zero, d(8, 4), one, zero), MarketRegime::Quiet);
    assert_eq!(candidate_regime(zero, d(81, 5), one, zero), MarketRegime::VolatileBalanced);
    assert_eq!(candidate_regime(zero, zero, d(15, 1), zero), MarketRegime::Quiet);
    assert_eq!(candidate_regime(zero, zero, d(16, 1), zero), MarketRegime::VolatileBalanced);
    assert_eq!(candidate_regime(zero, zero, one, d(15, 1)), MarketRegime::Quiet);
    assert_eq!(candidate_regime(zero, zero, one, d(16, 1)), MarketRegime::VolatileBalanced);
    assert_eq!(candidate_regime(one, one, one, one), MarketRegime::TrendingToxic);
}

#[test]
fn what_is_not_known_gives_no_factors() {
    let mut engine = FactorEngine::new();
    let empty = BotState {
        market: MarketState { symbols: SymbolMap::new() },
        positions: SymbolMap::new(),
    };
    assert!(run(&mut engine, &empty).is_none());
    let mut unpriced = market(d(100, 0), 0, vec![]);
    unpriced.mid_price = None;
    assert!(run(&mut engine, &state_of(unpriced)).is_none());
    let mut stale = market(d(100, 0), 0, vec![]);
    stale.last_updated = None;
    assert!(run(&mut engine, &state_of(stale)).is_none());
    let mut spreadless = market(d(100, 0), 0, vec![]);
    spreadless.bbo_spread_bps = None;
    assert!(run(&mut engine, &state_of(spreadless)).is_none());
    let unlimited = ParsedConfig { factors: weights(), pairs: SymbolMap::new() };
    let known = state_of(market(d(100, 0), 0, vec![]));
    assert!(engine
        .compute(&config(), &unlimited, &pair(PriceSource::Mid), &known)
        .unwrap()
        .is_none());
    assert!(run(&mut engine, &known).is_some());
}

#[test]
fn a_spread_once_known_is_remembered() {
    let mut engine = FactorEngine::new();
    run(&mut engine, &state_of(market(d(100, 0), 0, vec![])));
    let mut spreadless = market(d(100, 0), 1, vec![]);
    spreadless.bbo_spread_bps = None;
    let snapshot = run(&mut engine, &state_of(spreadless)).unwrap();
    assert!(equal(snapshot.volatility, d(1, 0)));
    let mut wide = market(d(100, 0), 2, vec![]);
    wide.bbo_spread_bps = Some(d(20, 0));
    // (0.2 * 20 + 0.8 * 10) * 0.1
    let snapshot = run(&mut engine, &state_of(wide)).unwrap();
    assert!(equal(snapshot.volatility, d(12, 1)));
}

#[test]
fn prices_come_from_their_source() {
    let mut both = market(d(100, 0), 0, vec![]);
    both.mark_price = Some(d(101, 0));
    both.spot_price = Some(d(102, 0));
    let both = state_of(both);
    let neither = state_of(market(d(100, 0), 0, vec![]));
    let index = |source: PriceSource, state: &BotState| -> Decimal {
        let mut engine = FactorEngine::new();
        let result = engine.compute(&config(), &parsed(), &pair(source), state);
        result.unwrap().unwrap().price_index
    };
    assert!(equal(index(PriceSource::Mark, &both), d(101, 0)));
    assert!(equal(index(PriceSource::Spot, &both), d(102, 0)));
    assert!(equal(index(PriceSource::Mid, &both), d(100, 0)));
    assert!(equal(index(PriceSource::Mark, &neither), d(100, 0)));
    assert!(equal(index(PriceSource::Spot, &neither), d(100, 0)));
}

#[test]
fn a_number_out_of_range_leaves_the_engine_as_it_was() {
    let mut engine = FactorEngine::new();
    run(&mut engine, &state_of(market(d(100, 0), 0, vec![])));
    let large = Decimal::from_parts(70_000_000_000_000_000_000_000_000_000, 0).unwrap();
    let mut huge = vec![];
    for _ in 0..2 {
        huge.push(RecentTrade { quantity: large, timestamp: at(1), taker_side: None });
    }
    let state = state_of(market(d(101, 0), 1, huge));
    assert!(engine
        .compute(&config(), &parsed(), &pair(PriceSource::Mid), &state)
        .is_err());
    // The second price is the first again: there is no return yet.
    let snapshot = run(&mut engine, &state_of(market(d(100, 0), 2, vec![]))).unwrap();
    assert!(snapshot.raw_volatility.is_zero());
    let mut far = parsed();
    far.factors.regime_min_dwell_secs = u64::MAX / 2;
    let state = state_of(market(d(100, 0), 3, vec![]));
    assert!(engine.compute(&config(), &far, &pair(PriceSource::Mid), &state).is_err());
    let endless = AppConfig {
        factors: FactorConfig { volume_window_secs: i64::MAX, n_trade_window_secs: 10 },
    };
    assert!(engine.compute(&endless, &parsed(), &pair(PriceSource::Mid), &state).is_err());
}

#[test]
fn the_flow_of_other_markets_is_averaged() {
    let mut symbols = SymbolMap::new();
    symbols.insert("A".to_string(), market(d(1, 0), 0, vec![trade(9, 0, Some(Side::Ask), 0)]));
    symbols.insert(
        "B".to_string(),
        market(
            d(1, 0),
            0,
            vec![trade(3, 0, Some(Side::Bid), 0), trade(1, 0, Some(Side::Ask), 0)],
        ),
    );
    symbols.insert("C".to_string(), market(d(1, 0), 0, vec![trade(1, 0, Some(Side::Bid), 0)]));
    symbols.insert("D".to_string(), market(d(1, 0), 0, vec![trade(1, 0, None, 0)]));
    symbols.insert("E".to_string(), market(d(1, 0), 0, vec![trade(7, 0, Some(Side::Ask), -9)]));
    let state = BotState { market: MarketState { symbols }, positions: SymbolMap::new() };
    // (0.5 + 1) / 2 * 0.5
    let flow = cross_symbol_flow(&"A".to_string(), &state, at(-1), d(5, 1));
    assert!(equal(flow, d(375, 3)));
    let none = try_cross_symbol_flow(&"A".to_string(), &state, at(1), d(5, 1)).unwrap();
    assert!(none.is_zero());
}

#[test]
fn the_spread_addon_is_a_product() {
    assert!(equal(factor_spread_addon(&parsed(), d(15, 4)), d(15, 2)));
    let large = Decimal::from_parts(7_000_000_000_000_000_000_000_000_000, 0).unwrap();
    assert!(try_factor_spread_addon(&parsed(), large).is_none());
}

#[test]
fn skew_is_convex_and_odd() {
    let long = inventory_skew(d(10, 0), d(10, 0), &weights()).unwrap();
    let short = inventory_skew(d(-10, 0), d(10, 0), &weights()).unwrap();
    // 1 * (1 + 2) * 0.005
    assert!(equal(long, d(15, 3)));
    assert!(equal(short, d(-15, 3)));
    assert!(inventory_skew(Decimal::zero(), d(10, 0), &weights()).unwrap().is_zero());
    assert!(inventory_skew(d(10, 0), Decimal::zero(), &weights()).unwrap().is_zero());
}

#[test]
fn a_share_between_two_decimals_is_one_of_them() {
    let plain = ParsedFactors {
        inventory_skew_convexity: Decimal::zero(),
        volatility_floor: Decimal::one(),
        inventory_risk_constant: Decimal::one(),
        ..weights()
    };
    // The share is 79.228162514264337593543950345, with a digit too many.
    let position = Decimal::from_parts(15_845_632_502_852_867_518_708_790_069, 0).unwrap();
    let limit = Decimal::from_parts(200_000_000_000_000_000_000_000_000, 0).unwrap();
    let share = inventory_skew(position, limit, &plain).unwrap();
    let below = Decimal::from_parts(7_922_816_251_426_433_759_354_395_034, 26).unwrap();
    let above = Decimal::from_parts(7_922_816_251_426_433_759_354_395_035, 26).unwrap();
    assert!(equal(share, below) || equal(share, above));
    assert_eq!(outside(share), outside(position) / outside(limit));
    // A short divisor always rounds to the even one.
    let position = Decimal::from_parts(31_691_265_005_705_735_037_417_580_138, 27).unwrap();
    let share = inventory_skew(position, d(4, 1), &plain).unwrap();
    assert!(equal(share, below));
}

#[test]
fn activity_is_counted_in_its_windows() {
    let trades = vec![
        trade(2, 0, Some(Side::Bid), -30),
        trade(2, 0, Some(Side::Ask), -10),
        trade(1, 0, None, 0),
    ];
    let seen = trade_activity(&trades, &config(), at(0)).unwrap();
    assert!(equal(seen.rolling_volume, d(5, 0)));
    assert!(seen.flow.is_zero());
    assert_eq!(seen.trade_count, 2);
    assert!(equal(seen.velocity, d(2, 1)));
    assert_eq!(seen.window_start.secs(), TEN - 60);
    let narrow = AppConfig {
        factors: FactorConfig { volume_window_secs: 0, n_trade_window_secs: -5 },
    };
    let seen = trade_activity(&trades, &narrow, at(0)).unwrap();
    assert!(equal(seen.rolling_volume, d(1, 0)));
    assert_eq!(seen.trade_count, 0);
}

#[test]
fn a_return_changes_mean_and_variance() {
    // The first return is its own mean.
    let first = SymbolFactorState::new().with_return(d(2, 2), d(5, 1)).unwrap();
    assert!(first.volatility().unwrap().is_zero());
    // The second lies 0.04 from the mean: the variance is 0.0008.
    let second = first.with_return(d(6, 2), d(5, 1)).unwrap();
    let expected = rust_decimal::Decimal::new(8, 4).sqrt().unwrap();
    assert_eq!(outside(second.volatility().unwrap()), expected);
}

#[test]
fn volatility_is_the_root_of_the_variance() {
    let variances = [
        d(2, 0),
        d(1, 28),
        d(8, 4),
        d(123_456_789, 3),
        d(i64::MAX, 0),
        Decimal::from_parts(79_228_162_514_264_337_593_543_950_335, 28).unwrap(),
    ];
    for variance in variances {
        // With this weight the variance after a return of one is the weight.
        let quiet = SymbolFactorState::new().with_return(Decimal::zero(), variance).unwrap();
        let moved = quiet.with_return(Decimal::one(), variance).unwrap();
        let expected = outside(variance).sqrt().unwrap();
        assert_eq!(outside(moved.volatility().unwrap()), expected);
    }
}

#[test]
fn the_root_of_the_variance_may_not_be_found() {
    // With this weight the variance after a return of one is the weight.
    let weight = Decimal::from_parts(39_720_354_828_415_177_818_323_744_671, 28).unwrap();
    let quiet = SymbolFactorState::new().with_return(Decimal::zero(), weight).unwrap();
    assert!(quiet.volatility().unwrap().is_zero());
    let moved = quiet.with_return(Decimal::one(), weight).unwrap();
    assert!(moved.volatility().is_none());
    let calm = SymbolFactorState::new().with_return(Decimal::zero(), Decimal::one()).unwrap();
    let moved = calm.with_return(d(2, 0), Decimal::one()).unwrap();
    assert!(equal(moved.volatility().unwrap(), d(2, 0)));
}

#[test]
fn flow_changes_its_sign_with_the_takers() {
    let flow = |first: Side, second: Side| -> Decimal {
        let trades = vec![trade(7, 0, Some(first), 0), trade(3, 0, Some(second), 0)];
        trade_activity(&trades, &config(), at(0)).unwrap().flow
    };
    assert!(equal(flow(Side::Bid, Side::Ask), d(4, 1)));
    assert!(equal(flow(Side::Ask, Side::Bid), d(-4, 1)));
    assert!(equal(flow(Side::Bid, Side::Bid), Decimal::one()));
    assert!(equal(flow(Side::Ask, Side::Ask), d(-1, 0)));
}

#[test]
fn the_flow_of_other_markets_is_no_larger_than_its_weight() {
    let mut symbols = SymbolMap::new();
    for name in vec!["B", "C", "D"] {
        symbols.insert(
            name.to_string(),
            market(d(1, 0), 0, vec![trade(1, 3, Some(Side::Ask), 0)]),
        );
    }
    let state = BotState { market: MarketState { symbols }, positions: SymbolMap::new() };
    let flow = cross_symbol_flow(&"A".to_string(), &state, at(0), d(7, 1));
    assert!(equal(flow, d(-7, 1)));
}

#[test]
fn symbols_are_computed_apart() {
    let mut both = state_of(market(d(100, 0), 0, vec![]));
    both.market.symbols.insert("B".to_string(), market(d(5, 0), 0, vec![]));
    let mut limits = parsed();
    limits.pairs.insert("B".to_string(), ParsedPair { max_position_base: d(1, 0) });
    let other = PairConfig { symbol: "B".to_string(), price_source: PriceSource::Mid };
    let mut engine = FactorEngine::new();
    let mut alone = FactorEngine::new();
    let first = pair(PriceSource::Mid);
    for mid in vec![d(100, 0), d(103, 0), d(99, 0)] {
        both.market.symbols.insert("A".to_string(), market(mid, 0, vec![]));
        let apart = alone.compute(&config(), &limits, &first, &both).unwrap().unwrap();
        let mixed = engine.compute(&config(), &limits, &first, &both).unwrap().unwrap();
        assert_eq!(outside(apart.raw_volatility), outside(mixed.raw_volatility));
        let flat = engine.compute(&config(), &limits, &other, &both).unwrap().unwrap();
        assert!(flat.raw_volatility.is_zero());
        assert!(flat.inventory_skew.is_zero());
    }
}

#[test]
fn intensity_approaches_one_under_toxic_flow() {
    let mut engine = FactorEngine::new();
    let mut last = Decimal::zero();
    for secs in 0..60 {
        let trades = vec![trade(1, 0, Some(Side::Ask), secs)];
        let snapshot = run(&mut engine, &state_of(market(d(100, 0), secs, trades))).unwrap();
        assert!(!last.exceeds(snapshot.regime_intensity));
        assert!(!snapshot.regime_intensity.exceeds(Decimal::one()));
        assert!(!d(-1, 0).exceeds(snapshot.flow_direction));
        last = snapshot.regime_intensity;
        if secs >= 31 {
            assert_eq!(snapshot.regime, MarketRegime::TrendingToxic);
        }
    }
    assert!(last.exceeds(d(99, 2)));
}

#[test]
fn a_still_mid_has_no_volatility() {
    let mut engine = FactorEngine::new();
    for secs in 0..20 {
        let snapshot = run(&mut engine, &state_of(market(d(12345, 2), secs, vec![]))).unwrap();
        assert!(snapshot.raw_volatility.is_zero());
    }
    let moved = run(&mut engine, &state_of(market(d(12346, 2), 20, vec![]))).unwrap();
    assert!(moved.raw_volatility.is_positive());
}

#[test]
fn the_first_two_results_have_no_volatility() {
    let mut engine = FactorEngine::new();
    for mid in vec![d(100, 0), d(250, 0)] {
        let snapshot = run(&mut engine, &state_of(market(mid, 0, vec![]))).unwrap();
        assert!(snapshot.raw_volatility.is_zero());
    }
    let third = run(&mut engine, &state_of(market(d(100, 0), 1, vec![]))).unwrap();
    assert!(third.raw_volatility.is_positive());
}

#[test]
fn mirrored_takers_turn_the_flow_alone() {
    let step = |engine: &mut FactorEngine, secs: i64, mirror: bool| -> FactorSnapshot {
        let side = |side: Side| -> Option<Side> {
            Some(if mirror { side.opposite() } else { side })
        };
        let own = vec![
            trade(7, 0, side(Side::Bid), secs),
            trade(2 + secs, 1, side(Side::Ask), secs),
            trade(1, 0, None, secs),
        ];
        let others = vec![trade(3, 0, side(Side::Ask), secs), trade(1, 0, side(Side::Bid), secs)];
        let mut state = state_of(market(d(100 + secs, 0), secs, own));
        state.market.symbols.insert("B".to_string(), market(d(1, 0), secs, others));
        run(engine, &state).unwrap()
    };
    let mut engine = FactorEngine::new();
    let mut mirrored = FactorEngine::new();
    for secs in 0..40 {
        let a = step(&mut engine, secs, false);
        let b = step(&mut mirrored, secs, true);
        assert!(equal(b.flow_direction, a.flow_direction.negated()));
        assert!(!a.flow_direction.is_zero());
        assert!(equal(b.volatility, a.volatility));
        assert!(equal(b.raw_volatility, a.raw_volatility));
        assert!(equal(b.volume_imbalance, a.volume_imbalance));
        assert!(equal(b.inventory_skew, a.inventory_skew));
        assert!(equal(b.regime_intensity, a.regime_intensity));
        assert_eq!(b.regime, a.regime);
        assert_eq!(b.recent_trade_count, a.recent_trade_count);
    }
}
