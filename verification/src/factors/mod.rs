//! The factors that quotes are made from: volatility, flow, inventory skew and
//! the regime of the market.
use vstd::prelude::*;

use crate::config::{AppConfig, PairConfig, ParsedConfig};
use crate::decimal::Decimal;
use crate::domain::{FactorSnapshot, Factors};
use crate::state::BotState;
use crate::table::{lemma_find_mapped, lemma_put_mapped, mapped, put, SymbolMap};

use self::laws::law_compute_keeps_wf;
use self::model::{after_market, after_signals, kept_under, outcome, Halves, SymbolFactors};
use self::signals::price_to_quote;
use self::symbol::{factors_of, with_factors, with_signals_of, SymbolFactorState};

pub use self::signals::{
    candidate_regime, cross_symbol_flow, factor_spread_addon, time_of_day_multiplier,
};

pub mod laws;
pub mod mirror;
pub mod model;
pub mod relations;
pub mod signals;
pub mod symbol;

verus! {

/// A number of a computation left the range of the decimals, a time that of the
/// instants, or the guesses at a root did not come to rest.
#[derive(Clone, Copy, Debug)]
pub struct OutOfRange;

/// Computes the factors of pairs, and keeps what the next computation needs.
pub struct FactorEngine {
    symbol_state: SymbolMap<SymbolFactorState>,
}

/// The view of what is kept of a symbol.
pub open spec fn view_of() -> spec_fn(SymbolFactorState) -> SymbolFactors {
    |state: SymbolFactorState| state@
}

impl View for FactorEngine {
    type V = Seq<(Seq<char>, SymbolFactors)>;

    closed spec fn view(&self) -> Seq<(Seq<char>, SymbolFactors)> {
        mapped(self.symbol_state@, view_of())
    }
}

impl FactorEngine {
    /// An engine that keeps nothing yet.
    pub fn new() -> (r: Self)
        ensures
            r@ == Seq::<(Seq<char>, SymbolFactors)>::empty(),
    {
        let r = FactorEngine { symbol_state: SymbolMap::new() };
        assert(r@ =~= Seq::<(Seq<char>, SymbolFactors)>::empty());
        r
    }

    fn kept_of(&self, symbol: &String) -> (r: SymbolFactorState)
        ensures
            r@ == kept_under(self@, symbol@),
            r@.wf(),
    {
        proof {
            lemma_find_mapped(self.symbol_state@, view_of(), symbol@);
        }
        match self.symbol_state.get(symbol) {
            Some(state) => state.clone(),
            None => SymbolFactorState::new(),
        }
    }

    /// What would be kept of the symbol of a pair after a computation, where
    /// that changes, and the factors of the pair.
    fn attempt(
        &self,
        config: &AppConfig,
        parsed: &ParsedConfig,
        pair: &PairConfig,
        state: &BotState,
    ) -> (r: Result<(Option<SymbolFactorState>, Option<FactorSnapshot>), OutOfRange>)
        ensures
            exists|ups: Halves|
                #[trigger] outcome(self@, *config, *parsed, *pair, *state, ups) == (match r {
                    Ok((Some(next), snapshot)) => Some(
                        (put(self@, pair.symbol@, next@), factors_of(snapshot)),
                    ),
                    Ok((None, snapshot)) => Some((self@, factors_of(snapshot))),
                    Err(_) => None,
                }),
            r matches Ok((_, Some(snapshot))) ==> snapshot@.in_bounds()
                && snapshot.raw_volatility@ >= 0,
    {
        let ghost none = Halves {
            moved: false,
            guesses: |n: nat| false,
            flow: false,
            ratio: false,
            elsewhere: |n: nat| false,
            share: false,
        };
        let ghost quiet = outcome(self@, *config, *parsed, *pair, *state, none);
        let market = match state.market.symbols.get(&pair.symbol) {
            Some(market) => market,
            None => {
                assert(quiet == Some((self@, None::<Factors>)));
                return Ok((None, None));
            },
        };
        let (mid, now) = match (market.mid_price, market.last_updated) {
            (Some(mid), Some(now)) => (mid, now),
            _ => {
                assert(quiet == Some((self@, None::<Factors>)));
                return Ok((None, None));
            },
        };
        let kept = self.kept_of(&pair.symbol);
        let ghost before = kept@;
        let observed = kept.with_market(
            &pair.symbol,
            state,
            market,
            mid,
            now,
            config,
            &parsed.factors,
        );
        let ghost ups: Halves = choose|ups: Halves|
            with_signals_of(observed) == #[trigger] after_market(
                before,
                pair.symbol@,
                state.market.symbols@,
                *market,
                mid@,
                now@,
                *config,
                parsed.factors,
                ups,
            );
        let ghost result = outcome(self@, *config, *parsed, *pair, *state, ups);
        let (next, signals) = match observed {
            Some(observed) => observed,
            None => {
                assert(result is None);
                return Err(OutOfRange);
            },
        };
        let limits = match parsed.pair(&pair.symbol) {
            Some(limits) => limits,
            None => {
                assert(result == Some((put(self@, pair.symbol@, next@), None::<Factors>)));
                return Ok((Some(next), None));
            },
        };
        let position = match state.positions.get(&pair.symbol) {
            Some(position) => position.quantity,
            None => Decimal::zero(),
        };
        let price_index = price_to_quote(market, mid, pair.price_source);
        let ghost after_observed = next@;
        let decided = next.with_signals(
            &signals,
            position,
            limits.max_position_base,
            price_index,
            now,
            parsed,
        );
        proof {
            let share: bool = choose|up: bool|
                with_factors(decided) == #[trigger] after_signals(
                    after_observed,
                    signals@,
                    position@,
                    limits.max_position_base@,
                    price_index@,
                    now@,
                    parsed.factors,
                    up,
                );
            let all = Halves { share, ..ups };
            assert(after_market(
                before,
                pair.symbol@,
                state.market.symbols@,
                *market,
                mid@,
                now@,
                *config,
                parsed.factors,
                all,
            ) == Some((after_observed, signals@)));
            let result = outcome(self@, *config, *parsed, *pair, *state, all);
            assert(result == (match with_factors(decided) {
                Some((next, factors)) => Some((put(self@, pair.symbol@, next), factors)),
                None => None,
            }));
            law_compute_keeps_wf(
                before,
                pair.symbol@,
                state.market.symbols@,
                *market,
                mid@,
                now@,
                position@,
                Some(*limits),
                pair.price_source,
                *config,
                parsed.factors,
                all,
            );
        }
        match decided {
            Some((next, snapshot)) => Ok((Some(next), snapshot)),
            None => Err(OutOfRange),
        }
    }

    /// Computes the factors of a pair. There are none where its market is not
    /// known well enough, and nothing changes where a number leaves its range.
    pub fn compute(
        &mut self,
        config: &AppConfig,
        parsed: &ParsedConfig,
        pair: &PairConfig,
        state: &BotState,
    ) -> (r: Result<Option<FactorSnapshot>, OutOfRange>)
        ensures
            exists|ups: Halves|
                #[trigger] outcome(old(self)@, *config, *parsed, *pair, *state, ups) == (match r {
                    Ok(snapshot) => Some((final(self)@, factors_of(snapshot))),
                    Err(_) => None,
                }),
            r is Err ==> final(self)@ == old(self)@,
            r matches Ok(Some(snapshot)) ==> snapshot@.in_bounds()
                && snapshot.raw_volatility@ >= 0,
    {
        match self.attempt(config, parsed, pair, state) {
            Ok((Some(next), snapshot)) => {
                proof {
                    lemma_put_mapped(self.symbol_state@, view_of(), pair.symbol@, next);
                }
                self.symbol_state.insert(pair.symbol.clone(), next);
                Ok(snapshot)
            },
            Ok((None, snapshot)) => Ok(snapshot),
            Err(e) => Err(e),
        }
    }
}

impl Default for FactorEngine {
    fn default() -> (r: Self)
        ensures
            r@ == Seq::<(Seq<char>, SymbolFactors)>::empty(),
    {
        FactorEngine::new()
    }
}

} // verus!
