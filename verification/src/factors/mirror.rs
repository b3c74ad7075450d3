//! Buyers and sellers change places: the flow changes its sign, and nothing else
//! changes.
use vstd::prelude::*;

use super::laws::law_flow_ratio_mirrored;
use super::model::{
    activity, after_activity, after_compute, after_market, after_mid, after_signals, cross_flow,
    flow_elsewhere, flow_ratio, index_price, kept_under, outcome, trade_count, volume,
    weight_in_bounds, Activity, Halves, Signals, SymbolFactors,
};
use crate::average::ewma;
use crate::config::{AppConfig, PairConfig, ParsedConfig, ParsedFactors, ParsedPair, PriceSource};
use crate::decimal::{dec, difference, negated, product, quotient, sum, ONE};
use crate::domain::{Factors, RecentTrade, Side};
use crate::rounding::{lemma_product_negated, lemma_quotient_negated, lemma_sum_negated};
use crate::state::{BotState, SymbolMarket};
use crate::table::{find, put};
use crate::time::Moment;

verus! {

/// The taker across the book, where there is one.
pub open spec fn other_taker(taker: Option<Side>) -> Option<Side> {
    match taker {
        Some(side) => Some(side.across()),
        None => None,
    }
}

/// Whether two trades differ in their takers alone, which stand across the book.
pub open spec fn trades_mirrored(a: RecentTrade, b: RecentTrade) -> bool {
    &&& a.quantity == b.quantity
    &&& a.timestamp == b.timestamp
    &&& b.taker_side == other_taker(a.taker_side)
}

/// Whether two lists of trades differ in the takers alone.
pub open spec fn lists_mirrored(a: Seq<RecentTrade>, b: Seq<RecentTrade>) -> bool {
    a.len() == b.len() && forall|i: int|
        0 <= i < a.len() ==> trades_mirrored(#[trigger] a[i], #[trigger] b[i])
}

/// Whether two markets differ in the takers of their trades alone.
pub open spec fn market_mirrored(a: SymbolMarket, b: SymbolMarket) -> bool {
    &&& a.mid_price == b.mid_price
    &&& a.bbo_spread_bps == b.bbo_spread_bps
    &&& a.mark_price == b.mark_price
    &&& a.spot_price == b.spot_price
    &&& a.last_updated == b.last_updated
    &&& lists_mirrored(a.recent_trades@, b.recent_trades@)
}

/// Whether the markets of the same symbols differ in the takers alone.
pub open spec fn markets_mirrored(
    a: Seq<(Seq<char>, SymbolMarket)>,
    b: Seq<(Seq<char>, SymbolMarket)>,
) -> bool {
    a.len() == b.len() && forall|i: int|
        0 <= i < a.len() ==> (#[trigger] a[i]).0 == (#[trigger] b[i]).0 && market_mirrored(
            a[i].1,
            b[i].1,
        )
}

/// What is kept of a symbol, with the flow in the other direction.
pub open spec fn mirrored(state: SymbolFactors) -> SymbolFactors {
    SymbolFactors { smoothed_flow: -state.smoothed_flow, ..state }
}

/// Whether what is kept of the same symbols differs in the direction of the flow
/// alone.
pub open spec fn entries_mirrored(
    a: Seq<(Seq<char>, SymbolFactors)>,
    b: Seq<(Seq<char>, SymbolFactors)>,
) -> bool {
    a.len() == b.len() && forall|i: int|
        0 <= i < a.len() ==> (#[trigger] a[i]).0 == (#[trigger] b[i]).0 && b[i].1 == mirrored(
            a[i].1,
        )
}

/// Factors with the flow in the other direction.
pub open spec fn factors_mirrored(factors: Option<Factors>) -> Option<Factors> {
    match factors {
        Some(f) => Some(Factors { flow_direction: -f.flow_direction, ..f }),
        None => None,
    }
}

proof fn lemma_ewma_mirrored(alpha: int, new: Option<int>, old: int)
    ensures
        ewma(alpha, negated(new), -old) == negated(ewma(alpha, new, old)),
{
    let beta = difference(Some(ONE as int), Some(alpha));
    lemma_product_negated(Some(alpha), new);
    lemma_product_negated(beta, Some(old));
    lemma_sum_negated(product(Some(alpha), new), product(beta, Some(old)));
}

proof fn lemma_volume_mirrored(
    a: Seq<RecentTrade>,
    b: Seq<RecentTrade>,
    start: Moment,
    taker: Option<Side>,
)
    requires
        lists_mirrored(a, b),
    ensures
        volume(b, start, other_taker(taker)) == volume(a, start, taker),
        trade_count(b, start) == trade_count(a, start),
    decreases a.len(),
{
    if a.len() > 0 {
        assert forall|i: int| 0 <= i < a.drop_last().len() implies trades_mirrored(
            #[trigger] a.drop_last()[i],
            #[trigger] b.drop_last()[i],
        ) by {
            assert(trades_mirrored(a[i], b[i]));
        }
        lemma_volume_mirrored(a.drop_last(), b.drop_last(), start, taker);
        assert(trades_mirrored(a[a.len() - 1], b[b.len() - 1]));
    }
}

proof fn lemma_flow_ratio_mirrored(bought: Option<int>, sold: Option<int>, up: bool)
    ensures
        flow_ratio(sold, bought, up) == negated(flow_ratio(bought, sold, up)),
        sum(sold, bought) == sum(bought, sold),
{
    if bought is Some && sold is Some {
        law_flow_ratio_mirrored(bought->0, sold->0, up);
        assert(sold->0 + bought->0 == bought->0 + sold->0);
    }
}

proof fn lemma_activity_mirrored(
    a: Seq<RecentTrade>,
    b: Seq<RecentTrade>,
    config: AppConfig,
    now: Moment,
    up: bool,
)
    requires
        lists_mirrored(a, b),
    ensures
        activity(b, config, now, up) == (match activity(a, config, now, up) {
            Some(seen) => Some(Activity { flow: -seen.flow, ..seen }),
            None => None,
        }),
{
    let start = crate::time::earlier(now, config.factors.volume_window_secs as int);
    let count_start = crate::time::earlier(now, config.factors.n_trade_window_secs as int);
    if start is Some && count_start is Some {
        lemma_volume_mirrored(a, b, start->0, None);
        lemma_volume_mirrored(a, b, start->0, Some(Side::Bid));
        lemma_volume_mirrored(a, b, start->0, Some(Side::Ask));
        lemma_volume_mirrored(a, b, count_start->0, None);
        lemma_flow_ratio_mirrored(
            volume(a, start->0, Some(Side::Bid)),
            volume(a, start->0, Some(Side::Ask)),
            up,
        );
    }
}

proof fn lemma_flow_elsewhere_mirrored(
    a: Seq<(Seq<char>, SymbolMarket)>,
    b: Seq<(Seq<char>, SymbolMarket)>,
    symbol: Seq<char>,
    start: Moment,
    ups: spec_fn(nat) -> bool,
)
    requires
        markets_mirrored(a, b),
    ensures
        flow_elsewhere(b, symbol, start, ups) == (match flow_elsewhere(a, symbol, start, ups) {
            Some((total, count)) => Some((-total, count)),
            None => None,
        }),
    decreases a.len(),
{
    if a.len() > 0 {
        assert forall|i: int| 0 <= i < a.drop_last().len() implies (
        #[trigger] a.drop_last()[i]).0 == (#[trigger] b.drop_last()[i]).0 && market_mirrored(
            a.drop_last()[i].1,
            b.drop_last()[i].1,
        ) by {
            assert(a[i].0 == b[i].0);
        }
        lemma_flow_elsewhere_mirrored(a.drop_last(), b.drop_last(), symbol, start, ups);
        assert(a[a.len() - 1].0 == b[b.len() - 1].0);
        let x = a.last().1.recent_trades@;
        let y = b.last().1.recent_trades@;
        assert(lists_mirrored(x, y));
        lemma_volume_mirrored(x, y, start, Some(Side::Bid));
        lemma_volume_mirrored(x, y, start, Some(Side::Ask));
        let bought = volume(x, start, Some(Side::Bid));
        let sold = volume(x, start, Some(Side::Ask));
        let up = ups(a.len());
        lemma_flow_ratio_mirrored(bought, sold, up);
        let both = sum(bought, sold);
        let before = flow_elsewhere(a.drop_last(), symbol, start, ups);
        if both is Some && before is Some && both->0 > 0 {
            let (total, _) = before->0;
            assert(quotient(difference(bought, sold), both, up) == flow_ratio(bought, sold, up));
            assert(quotient(difference(sold, bought), both, up) == flow_ratio(sold, bought, up));
            lemma_sum_negated(Some(total), flow_ratio(bought, sold, up));
        }
    }
}

proof fn lemma_cross_flow_mirrored(
    a: Seq<(Seq<char>, SymbolMarket)>,
    b: Seq<(Seq<char>, SymbolMarket)>,
    symbol: Seq<char>,
    start: Moment,
    weight: int,
    ups: spec_fn(nat) -> bool,
)
    requires
        markets_mirrored(a, b),
    ensures
        cross_flow(b, symbol, start, weight, ups) == negated(
            cross_flow(a, symbol, start, weight, ups),
        ),
{
    lemma_flow_elsewhere_mirrored(a, b, symbol, start, ups);
    let elsewhere = flow_elsewhere(a, symbol, start, ups);
    if elsewhere is Some {
        let (total, count) = elsewhere->0;
        if count > 0 {
            let divisor = dec(count as int, 0);
            lemma_quotient_negated(Some(total), divisor, false);
            lemma_product_negated(quotient(Some(total), Some(divisor), false), Some(weight));
        }
    }
}

proof fn lemma_market_mirrored(
    state: SymbolFactors,
    symbol: Seq<char>,
    markets: Seq<(Seq<char>, SymbolMarket)>,
    others: Seq<(Seq<char>, SymbolMarket)>,
    market: SymbolMarket,
    other: SymbolMarket,
    mid: int,
    now: Moment,
    config: AppConfig,
    weights: ParsedFactors,
    ups: Halves,
)
    requires
        markets_mirrored(markets, others),
        market_mirrored(market, other),
    ensures
        after_market(mirrored(state), symbol, others, other, mid, now, config, weights, ups) == (
        match after_market(state, symbol, markets, market, mid, now, config, weights, ups) {
            Some((next, signals)) => Some(
                (mirrored(next), Signals { cross_flow: -signals.cross_flow, ..signals }),
            ),
            None => None,
        }),
{
    let alpha = weights.volatility_ewma_alpha@;
    let priced = after_mid(state, mid, now, alpha, ups.moved);
    assert(after_mid(mirrored(state), mid, now, alpha, ups.moved) == (match priced {
        Some(next) => Some(mirrored(next)),
        None => None,
    }));
    lemma_activity_mirrored(market.recent_trades@, other.recent_trades@, config, now, ups.flow);
    let seen = activity(market.recent_trades@, config, now, ups.flow);
    if priced is Some && seen is Some {
        let seen = seen->0;
        let spread = crate::decimal::value(market.bbo_spread_bps);
        lemma_ewma_mirrored(
            weight_in_bounds(weights.flow_imbalance_weight@),
            Some(seen.flow),
            priced->0.smoothed_flow,
        );
        assert(after_activity(
            mirrored(priced->0),
            Activity { flow: -seen.flow, ..seen },
            spread,
            weights,
            ups.ratio,
        ) == (match after_activity(priced->0, seen, spread, weights, ups.ratio) {
            Some((next, ratio)) => Some((mirrored(next), ratio)),
            None => None,
        }));
        lemma_cross_flow_mirrored(
            markets,
            others,
            symbol,
            seen.window_start,
            weights.cross_symbol_vol_weight@,
            ups.elsewhere,
        );
    }
}

proof fn lemma_signals_mirrored(
    state: SymbolFactors,
    signals: Signals,
    position: int,
    limit: int,
    price_index: int,
    now: Moment,
    weights: ParsedFactors,
    up: bool,
)
    ensures
        after_signals(
            mirrored(state),
            Signals { cross_flow: -signals.cross_flow, ..signals },
            position,
            limit,
            price_index,
            now,
            weights,
            up,
        ) == (match after_signals(
            state,
            signals,
            position,
            limit,
            price_index,
            now,
            weights,
            up,
        ) {
            Some((next, factors)) => Some((mirrored(next), factors_mirrored(factors))),
            None => None,
        }),
{
    lemma_sum_negated(Some(state.smoothed_flow), Some(signals.cross_flow));
}

proof fn lemma_compute_mirrored(
    state: SymbolFactors,
    symbol: Seq<char>,
    markets: Seq<(Seq<char>, SymbolMarket)>,
    others: Seq<(Seq<char>, SymbolMarket)>,
    market: SymbolMarket,
    other: SymbolMarket,
    mid: int,
    now: Moment,
    position: int,
    pair: Option<ParsedPair>,
    source: PriceSource,
    config: AppConfig,
    weights: ParsedFactors,
    ups: Halves,
)
    requires
        markets_mirrored(markets, others),
        market_mirrored(market, other),
    ensures
        after_compute(
            mirrored(state),
            symbol,
            others,
            other,
            mid,
            now,
            position,
            pair,
            source,
            config,
            weights,
            ups,
        ) == (match after_compute(
            state,
            symbol,
            markets,
            market,
            mid,
            now,
            position,
            pair,
            source,
            config,
            weights,
            ups,
        ) {
            Some((next, factors)) => Some((mirrored(next), factors_mirrored(factors))),
            None => None,
        }),
{
    lemma_market_mirrored(
        state,
        symbol,
        markets,
        others,
        market,
        other,
        mid,
        now,
        config,
        weights,
        ups,
    );
    let observed = after_market(state, symbol, markets, market, mid, now, config, weights, ups);
    if observed is Some && pair is Some {
        let (next, signals) = observed->0;
        lemma_signals_mirrored(
            next,
            signals,
            position,
            pair->0.max_position_base@,
            index_price(market, mid, source),
            now,
            weights,
            ups.share,
        );
    }
}

proof fn lemma_find_market_mirrored(
    a: Seq<(Seq<char>, SymbolMarket)>,
    b: Seq<(Seq<char>, SymbolMarket)>,
    key: Seq<char>,
)
    requires
        markets_mirrored(a, b),
    ensures
        match (find(a, key), find(b, key)) {
            (Some(x), Some(y)) => market_mirrored(x, y),
            (None, None) => true,
            _ => false,
        },
    decreases a.len(),
{
    if a.len() > 0 {
        assert(a[0].0 == b[0].0);
        assert forall|i: int| 0 <= i < a.drop_first().len() implies (
        #[trigger] a.drop_first()[i]).0 == (#[trigger] b.drop_first()[i]).0 && market_mirrored(
            a.drop_first()[i].1,
            b.drop_first()[i].1,
        ) by {
            assert(a[i + 1].0 == b[i + 1].0);
        }
        lemma_find_market_mirrored(a.drop_first(), b.drop_first(), key);
    }
}

proof fn lemma_kept_mirrored(
    a: Seq<(Seq<char>, SymbolFactors)>,
    b: Seq<(Seq<char>, SymbolFactors)>,
    key: Seq<char>,
    state: SymbolFactors,
)
    requires
        entries_mirrored(a, b),
    ensures
        kept_under(b, key) == mirrored(kept_under(a, key)),
        entries_mirrored(put(a, key, state), put(b, key, mirrored(state))),
    decreases a.len(),
{
    if a.len() > 0 {
        assert(a[0].0 == b[0].0);
        let x = a.drop_first();
        let y = b.drop_first();
        assert forall|i: int| 0 <= i < x.len() implies (#[trigger] x[i]).0 == (
        #[trigger] y[i]).0 && y[i].1 == mirrored(x[i].1) by {
            assert(a[i + 1].0 == b[i + 1].0);
        }
        lemma_kept_mirrored(x, y, key, state);
        let p = put(a, key, state);
        let q = put(b, key, mirrored(state));
        assert forall|i: int| 0 <= i < p.len() implies (#[trigger] p[i]).0 == (
        #[trigger] q[i]).0 && q[i].1 == mirrored(p[i].1) by {
            if a[0].0 == key {
                if i > 0 {
                    assert(a[i].0 == b[i].0);
                }
            } else if i > 0 {
                let r = put(x, key, state);
                let t = put(y, key, mirrored(state));
                assert(p[i] == r[i - 1] && q[i] == t[i - 1]);
            }
        }
    }
}

/// Where the taker of every trade of every market stands across the book, the
/// flow direction of the factors is the other one, and nothing else changes:
/// neither volume, volatility, skew, regime nor intensity. What is kept differs in
/// the direction of the flow alone, so that this holds of every later computation
/// too. It holds of two engines that keep nothing.
pub proof fn law_takers_mirrored(
    entries: Seq<(Seq<char>, SymbolFactors)>,
    others: Seq<(Seq<char>, SymbolFactors)>,
    config: AppConfig,
    parsed: ParsedConfig,
    pair: PairConfig,
    state: BotState,
    other_state: BotState,
    ups: Halves,
)
    requires
        entries_mirrored(entries, others),
        markets_mirrored(state.market.symbols@, other_state.market.symbols@),
        state.positions@ == other_state.positions@,
    ensures
        match (
            outcome(entries, config, parsed, pair, state, ups),
            outcome(others, config, parsed, pair, other_state, ups),
        ) {
            (Some((next, factors)), Some((other_next, other_factors))) => entries_mirrored(
                next,
                other_next,
            ) && other_factors == factors_mirrored(factors),
            (None, None) => true,
            _ => false,
        },
        entries_mirrored(Seq::empty(), Seq::empty()),
{
    let symbol = pair.symbol@;
    let a = state.market.symbols@;
    let b = other_state.market.symbols@;
    lemma_find_market_mirrored(a, b, symbol);
    if find(a, symbol) is Some {
        let market = find(a, symbol)->0;
        let other = find(b, symbol)->0;
        if market.mid_price is Some && market.last_updated is Some {
            let position = match find(state.positions@, symbol) {
                Some(position) => position.quantity@,
                None => 0,
            };
            let kept = kept_under(entries, symbol);
            let mid = market.mid_price->0@;
            let now = market.last_updated->0@;
            let limits = find(parsed.pairs@, symbol);
            lemma_kept_mirrored(entries, others, symbol, kept);
            lemma_compute_mirrored(
                kept,
                symbol,
                a,
                b,
                market,
                other,
                mid,
                now,
                position,
                limits,
                pair.price_source,
                config,
                parsed.factors,
                ups,
            );
            let result = after_compute(
                kept,
                symbol,
                a,
                market,
                mid,
                now,
                position,
                limits,
                pair.price_source,
                config,
                parsed.factors,
                ups,
            );
            if result is Some {
                let (next, _) = result->0;
                lemma_kept_mirrored(entries, others, symbol, next);
            }
        }
    }
}

/// What a computation is made from.
pub struct Input {
    pub config: AppConfig,
    pub parsed: ParsedConfig,
    pub pair: PairConfig,
    pub state: BotState,
}

/// Whether two computations differ in the takers of the trades alone.
pub open spec fn inputs_mirrored(a: Input, b: Input) -> bool {
    &&& a.config == b.config
    &&& a.parsed == b.parsed
    &&& a.pair == b.pair
    &&& markets_mirrored(a.state.market.symbols@, b.state.market.symbols@)
    &&& a.state.positions@ == b.state.positions@
}

/// What an engine that kept nothing keeps after some computations, and the
/// factors that each of them gave. `ups` says how the quotients of each
/// computation, counted from one, are rounded.
pub open spec fn outcomes(inputs: Seq<Input>, ups: spec_fn(nat) -> Halves) -> Option<
    (Seq<(Seq<char>, SymbolFactors)>, Seq<Option<Factors>>),
>
    decreases inputs.len(),
{
    if inputs.len() == 0 {
        Some((Seq::empty(), Seq::empty()))
    } else {
        let last = inputs.last();
        match outcomes(inputs.drop_last(), ups) {
            Some((entries, results)) => match outcome(
                entries,
                last.config,
                last.parsed,
                last.pair,
                last.state,
                ups(inputs.len()),
            ) {
                Some((next, factors)) => Some((next, results.push(factors))),
                None => None,
            },
            None => None,
        }
    }
}

/// Two new engines that are given the same computations, but for the takers,
/// which stand across the book for the second, give the same factors throughout,
/// but for the direction of the flow, which is the other one.
pub proof fn law_takers_mirrored_throughout(
    inputs: Seq<Input>,
    others: Seq<Input>,
    ups: spec_fn(nat) -> Halves,
)
    requires
        inputs.len() == others.len(),
        forall|i: int|
            0 <= i < inputs.len() ==> inputs_mirrored(#[trigger] inputs[i], #[trigger] others[i]),
    ensures
        match (outcomes(inputs, ups), outcomes(others, ups)) {
            (Some((entries, results)), Some((other_entries, other_results))) => {
                &&& entries_mirrored(entries, other_entries)
                &&& results.len() == inputs.len() == other_results.len()
                &&& forall|i: int|
                    0 <= i < results.len() ==> #[trigger] other_results[i] == factors_mirrored(
                        results[i],
                    )
            },
            (None, None) => true,
            _ => false,
        },
    decreases inputs.len(),
{
    if inputs.len() > 0 {
        let a = inputs.drop_last();
        let b = others.drop_last();
        assert forall|i: int| 0 <= i < a.len() implies inputs_mirrored(
            #[trigger] a[i],
            #[trigger] b[i],
        ) by {
            assert(inputs_mirrored(inputs[i], others[i]));
        }
        law_takers_mirrored_throughout(a, b, ups);
        let x = inputs.last();
        let y = others.last();
        assert(inputs_mirrored(inputs[inputs.len() - 1], others[others.len() - 1]));
        if outcomes(a, ups) is Some {
            let (entries, _) = outcomes(a, ups)->0;
            let (other_entries, _) = outcomes(b, ups)->0;
            law_takers_mirrored(
                entries,
                other_entries,
                x.config,
                x.parsed,
                x.pair,
                x.state,
                y.state,
                ups(inputs.len()),
            );
        }
    }
}

} // verus!
