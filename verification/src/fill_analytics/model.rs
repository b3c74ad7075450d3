//! What the scores of the fills are, as functions on numbers of units.
//!
//! Where a number of a computation leaves the range of the decimals, the whole
//! computation has no result.
use vstd::prelude::*;

use crate::average::ewma;
use crate::decimal::{bounded, dec, difference, half_even, larger, product, quotient, sum, ONE};
use crate::domain::Side;
use crate::time::{whole_seconds, Moment, NANOS};

verus! {

/// The seconds after which a fill is scored.
pub const OBSERVATION_WINDOW_SECS: i64 = 15;

/// A level of the ladder on one side of the book of a symbol.
pub struct Level {
    pub symbol: Seq<char>,
    pub side: Side,
    pub index: nat,
}

/// The score of a level, and when it was last changed.
pub struct Score {
    pub value: int,
    pub updated: Option<Moment>,
}

impl Score {
    /// The score of a level without a fill.
    pub open spec fn fresh() -> Score {
        Score { value: 0, updated: None }
    }

    /// The whole seconds since the score was changed, and zero where it never
    /// was or that lies ahead.
    pub open spec fn age(self, now: Moment) -> int {
        match self.updated {
            Some(at) => larger(whole_seconds(now.nanos_since(at)), 0),
            None => 0,
        }
    }
}

/// A fill that waits for its score.
pub struct PendingFill {
    pub level: Level,
    pub price: int,
    pub spread: int,
    pub at: Moment,
}

/// The score of a level of which nothing is known.
pub open spec fn neutral() -> int {
    dec(5, 1)
}

/// The least spread that a score is measured against, in basis points.
pub open spec fn least_spread() -> int {
    dec(1, 6)
}

/// A value drawn toward the neutral one: `factor` is the share of the distance
/// that is left.
pub open spec fn drawn_to_neutral(value: int, factor: int) -> Option<int> {
    sum(
        Some(neutral()),
        product(difference(Some(value), Some(neutral())), Some(factor)),
    )
}

/// A score that has aged until `now`. At the age of zero the whole distance is
/// left, and else the share `factor` of it.
pub open spec fn decayed(score: Score, now: Moment, factor: int) -> Option<Score> {
    match score.updated {
        Some(_) => match drawn_to_neutral(
            score.value,
            if score.age(now) == 0 {
                ONE as int
            } else {
                factor
            },
        ) {
            Some(value) => Some(Score { value, updated: Some(now) }),
            None => None,
        },
        None => Some(
            Score {
                value: if score.value == 0 {
                    neutral()
                } else {
                    score.value
                },
                updated: None,
            },
        ),
    }
}

/// A score that has aged until `now` and taken a toxicity ratio in.
pub open spec fn applied(score: Score, ratio: int, now: Moment, factor: int) -> Option<Score> {
    match decayed(score, now, factor) {
        Some(aged) => if aged.updated is None || aged.value == 0 {
            Some(Score { value: ratio, updated: Some(now) })
        } else {
            match ewma(dec(25, 2), Some(ratio), aged.value) {
                Some(value) => Some(Score { value, updated: Some(now) }),
                None => None,
            }
        },
        None => None,
    }
}

/// How far the price has moved against a fill, in basis points, and zero where
/// it has not or the fill had no price.
pub open spec fn adverse_move(side: Side, fill_price: int, observed: int, up: bool) -> Option<
    int,
> {
    if fill_price <= 0 {
        Some(0)
    } else {
        let moved = match side {
            Side::Bid => difference(Some(fill_price), Some(observed)),
            Side::Ask => difference(Some(observed), Some(fill_price)),
        };
        match quotient(moved, Some(fill_price), up) {
            Some(raw) => product(Some(larger(raw, 0)), Some(dec(10_000, 0))),
            None => None,
        }
    }
}

/// How the two quotients of a fill are rounded where they lie in the middle
/// between two decimals: that of its adverse move, and that of its ratio.
pub struct Halves {
    pub moved: bool,
    pub ratio: bool,
}

/// The adverse move of a fill, measured against the spread that it earned.
pub open spec fn toxicity_ratio(fill: PendingFill, observed: int, ups: Halves) -> Option<int> {
    quotient(
        adverse_move(fill.level.side, fill.price, observed, ups.moved),
        Some(larger(fill.spread, least_spread())),
        ups.ratio,
    )
}

/// The place of a level among the scores, and the number of scores where it
/// has none.
pub open spec fn slot(scores: Seq<(Level, Score)>, level: Level) -> nat
    decreases scores.len(),
{
    if scores.len() == 0 || scores[0].0 == level {
        0
    } else {
        1 + slot(scores.drop_first(), level)
    }
}

/// The score of a level.
pub open spec fn score_of(scores: Seq<(Level, Score)>, level: Level) -> Score {
    let i = slot(scores, level);
    if i < scores.len() {
        scores[i as int].1
    } else {
        Score::fresh()
    }
}

/// How toxic the fills of a level have been: neutral where it has none.
pub open spec fn toxicity_of(scores: Seq<(Level, Score)>, level: Level) -> int {
    if slot(scores, level) < scores.len() {
        score_of(scores, level).value
    } else {
        neutral()
    }
}

/// The factor for a level: the one at its place, and one where there is none.
pub open spec fn factor_of(
    scores: Seq<(Level, Score)>,
    factors: Seq<int>,
    level: Level,
) -> int {
    let i = slot(scores, level);
    if i < factors.len() {
        factors[i as int]
    } else {
        ONE as int
    }
}

/// The scores after that of one level has been set: in its place, or behind
/// all others.
pub open spec fn with_score(
    scores: Seq<(Level, Score)>,
    level: Level,
    score: Score,
) -> Seq<(Level, Score)> {
    let i = slot(scores, level);
    if i < scores.len() {
        scores.update(i as int, (level, score))
    } else {
        scores.push((level, score))
    }
}

/// The scores after a fill has been scored.
pub open spec fn after_fill(
    scores: Seq<(Level, Score)>,
    fill: PendingFill,
    observed: int,
    now: Moment,
    factors: Seq<int>,
    ups: Halves,
) -> Option<Seq<(Level, Score)>> {
    match toxicity_ratio(fill, observed, ups) {
        Some(ratio) => match applied(
            score_of(scores, fill.level),
            ratio,
            now,
            factor_of(scores, factors, fill.level),
        ) {
            Some(score) => Some(with_score(scores, fill.level, score)),
            None => None,
        },
        None => None,
    }
}

/// The scores after some fills have been scored, one after the other. `ups` says
/// how the quotients of each fill, counted from one, are rounded.
pub open spec fn after_fills(
    scores: Seq<(Level, Score)>,
    fills: Seq<PendingFill>,
    observed: int,
    now: Moment,
    factors: Seq<int>,
    ups: spec_fn(nat) -> Halves,
) -> Option<Seq<(Level, Score)>>
    decreases fills.len(),
{
    if fills.len() == 0 {
        Some(scores)
    } else {
        match after_fills(scores, fills.drop_last(), observed, now, factors, ups) {
            Some(before) => after_fill(
                before,
                fills.last(),
                observed,
                now,
                factors,
                ups(fills.len()),
            ),
            None => None,
        }
    }
}

/// Whether a price of a symbol scores a fill: it is a fill of the symbol, and
/// old enough.
pub open spec fn is_due(symbol: Seq<char>, now: Moment) -> spec_fn(PendingFill) -> bool {
    |fill: PendingFill|
        fill.level.symbol == symbol && now.nanos_since(fill.at) >= OBSERVATION_WINDOW_SECS * NANOS
}

/// Whether a price of a symbol leaves a fill waiting.
pub open spec fn is_not_due(symbol: Seq<char>, now: Moment) -> spec_fn(PendingFill) -> bool {
    |fill: PendingFill| !is_due(symbol, now)(fill)
}

/// The waiting fills and the scores of all levels.
pub struct Fills {
    pub pending: Seq<PendingFill>,
    pub scores: Seq<(Level, Score)>,
}

/// The fills after a price of a symbol. One that is not positive changes
/// nothing.
pub open spec fn after_price(
    fills: Fills,
    symbol: Seq<char>,
    observed: int,
    now: Moment,
    factors: Seq<int>,
    ups: spec_fn(nat) -> Halves,
) -> Option<Fills> {
    if observed <= 0 {
        Some(fills)
    } else {
        match after_fills(
            fills.scores,
            fills.pending.filter(is_due(symbol, now)),
            observed,
            now,
            factors,
            ups,
        ) {
            Some(scores) => Some(
                Fills { pending: fills.pending.filter(is_not_due(symbol, now)), scores },
            ),
            None => None,
        }
    }
}

/// The multiplier of the order size for a score: one at the neutral score. Below
/// it grows by what the score lacks, and above it falls by half of what the score
/// has more, rounded to a unit, so that one bad fill costs little. It stays
/// between a half and one and a half.
pub open spec fn volume_multiplier(score: int) -> int {
    bounded(
        if score <= neutral() {
            dec(15, 1) - score
        } else {
            ONE - half_even(score - neutral(), 2)
        },
        dec(5, 1),
        dec(15, 1),
    )
}

impl Fills {
    /// What holds of the fills at all times.
    pub open spec fn wf(self) -> bool {
        &&& forall|i: int, j: int|
            0 <= i < j < self.scores.len() ==> (#[trigger] self.scores[i]).0 != (
            #[trigger] self.scores[j]).0
        &&& forall|i: int|
            0 <= i < self.scores.len() ==> (#[trigger] self.scores[i]).1.value >= 0
                && self.scores[i].1.updated is Some
        &&& forall|i: int|
            0 <= i < self.pending.len() ==> (#[trigger] self.pending[i]).spread >= least_spread()
    }
}

} // verus!
