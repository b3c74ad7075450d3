//! How toxic the fills of each level of the ladder have been.
use std::collections::VecDeque;

use vstd::pervasive::unreached;
use vstd::prelude::*;

use crate::average::averaged;
use crate::decimal::{
    larger, lemma_pow10_values, minus, over, over_small, plus, quotient, times, units_of, value,
    Decimal, ONE,
};
use crate::domain::Side;
use crate::text::same;
use crate::time::{Moment, Timestamp};

use self::laws::{
    law_score_moves_to_neutral, law_score_not_negative, law_toxicity_not_negative,
    lemma_multiplier_rounded,
};
use self::model::{
    adverse_move, after_fill, after_fills, after_price, applied, decayed, is_due, is_not_due,
    least_spread, neutral, slot, toxicity_of, toxicity_ratio, volume_multiplier, with_score, Fills,
    Halves, Level, PendingFill, Score, OBSERVATION_WINDOW_SECS,
};

pub mod laws;
pub mod model;

verus! {

/// The score of a level of which nothing is known.
pub fn neutral_score() -> (r: Decimal)
    ensures
        r@ == neutral(),
{
    Decimal::new(5, 1)
}

/// How far the price has moved against a fill, in basis points, or nothing
/// where a number leaves the range of the decimals.
pub fn adverse_bps(side: Side, fill_price: Decimal, observed_price: Decimal) -> (r: Option<Decimal>)
    ensures
        exists|up: bool|
            value(r) == #[trigger] adverse_move(side, fill_price@, observed_price@, up),
{
    if !fill_price.is_positive() {
        assert(adverse_move(side, fill_price@, observed_price@, false) == Some(0int));
        return Some(Decimal::zero());
    }
    let moved = match side {
        Side::Bid => minus(Some(fill_price), Some(observed_price)),
        Side::Ask => minus(Some(observed_price), Some(fill_price)),
    };
    let share = over(moved, Some(fill_price));
    let r = match share {
        Some(raw) => times(Some(raw.max(Decimal::zero())), Some(Decimal::from_u64(10_000))),
        None => None,
    };
    proof {
        let up = choose|up: bool|
            value(share) == #[trigger] quotient(value(moved), Some(fill_price@), up);
        assert(value(r) == adverse_move(side, fill_price@, observed_price@, up));
    }
    r
}

/// The score of a level, and when it was last changed.
#[derive(Clone, Copy)]
pub struct LevelToxicityScore {
    value: Decimal,
    last_updated: Option<Timestamp>,
}

impl View for LevelToxicityScore {
    type V = Score;

    closed spec fn view(&self) -> Score {
        Score {
            value: self.value@,
            updated: match self.last_updated {
                Some(at) => Some(at@),
                None => None,
            },
        }
    }
}

impl LevelToxicityScore {
    #[verifier::type_invariant]
    spec fn is_not_negative(self) -> bool {
        self.value@ >= 0
    }

    /// The score of a level without a fill.
    pub fn new() -> (r: Self)
        ensures
            r@ == Score::fresh(),
            r@.value == 0,
            r@.updated is None,
    {
        LevelToxicityScore { value: Decimal::zero(), last_updated: None }
    }

    /// The score itself.
    pub fn value(self) -> (r: Decimal)
        ensures
            r@ == self@.value,
            r@ >= 0,
    {
        proof {
            use_type_invariant(&self);
        }
        self.value
    }

    /// The whole seconds since the score was changed, and zero where it never
    /// was or that lies ahead.
    pub fn age(self, now: Timestamp) -> (r: i64)
        ensures
            r == self@.age(now@),
    {
        match self.last_updated {
            Some(at) => {
                let secs: i64 = now.seconds_since(at);
                if secs < 0 {
                    0
                } else {
                    secs
                }
            },
            None => 0,
        }
    }

    /// The score as it is at `now`, where `factor` is the share of its distance
    /// from the neutral score that its age has left.
    pub fn decay(self, now: Timestamp, factor: Decimal) -> (r: Self)
        requires
            0 <= factor@ <= ONE,
        ensures
            Some(r@) == decayed(self@, now@, factor@),
    {
        proof {
            use_type_invariant(&self);
            lemma_pow10_values();
        }
        if self.last_updated.is_none() {
            if self.value.is_zero() {
                return LevelToxicityScore { value: neutral_score(), last_updated: None };
            }
            return self;
        }
        let left = if self.age(now) == 0 {
            Decimal::one()
        } else {
            factor
        };
        self.value.in_representation();
        proof {
            law_score_moves_to_neutral(self.value@, left@);
        }
        let distance = minus(Some(self.value), Some(neutral_score()));
        match plus(Some(neutral_score()), times(distance, Some(left))) {
            Some(value) => LevelToxicityScore { value, last_updated: Some(now) },
            None => unreached(),
        }
    }

    /// The score after it has aged until `now` and taken a toxicity ratio in, or
    /// nothing where a number leaves the range of the decimals.
    pub fn apply(self, toxicity_ratio: Decimal, now: Timestamp, factor: Decimal) -> (r: Option<
        Self,
    >)
        requires
            toxicity_ratio@ >= 0,
            0 <= factor@ <= ONE,
        ensures
            (match r {
                Some(next) => Some(next@),
                None => None,
            }) == applied(self@, toxicity_ratio@, now@, factor@),
    {
        proof {
            use_type_invariant(&self);
        }
        self.value.in_representation();
        proof {
            law_score_not_negative(self@, toxicity_ratio@, now@, factor@);
        }
        let aged = self.decay(now, factor);
        if aged.last_updated.is_none() || aged.value.is_zero() {
            return Some(
                LevelToxicityScore { value: toxicity_ratio, last_updated: Some(now) },
            );
        }
        match averaged(Decimal::new(25, 2), toxicity_ratio, aged.value) {
            Some(value) => Some(LevelToxicityScore { value, last_updated: Some(now) }),
            None => None,
        }
    }
}

/// A level of the ladder on one side of the book of a symbol.
struct LadderLevel {
    symbol: String,
    side: Side,
    index: usize,
}

impl View for LadderLevel {
    type V = Level;

    closed spec fn view(&self) -> Level {
        Level { symbol: self.symbol@, side: self.side, index: self.index as nat }
    }
}

impl Clone for LadderLevel {
    fn clone(&self) -> (r: Self)
        ensures
            r == *self,
    {
        LadderLevel { symbol: self.symbol.clone(), side: self.side, index: self.index }
    }
}

/// The scores of levels, each level once.
struct ScoreTable {
    levels: Vec<LadderLevel>,
    scores: Vec<LevelToxicityScore>,
}

impl View for ScoreTable {
    type V = Seq<(Level, Score)>;

    closed spec fn view(&self) -> Seq<(Level, Score)> {
        Seq::new(self.levels@.len(), |i: int| (self.levels@[i]@, self.scores@[i]@))
    }
}

impl Clone for ScoreTable {
    fn clone(&self) -> (r: Self)
        ensures
            r@ == self@,
    {
        proof {
            use_type_invariant(self);
        }
        let levels = self.levels.clone();
        let scores = self.scores.clone();
        assert(levels@ =~= self.levels@);
        assert(scores@ =~= self.scores@);
        ScoreTable { levels, scores }
    }
}

proof fn lemma_slot(scores: Seq<(Level, Score)>, level: Level, n: int)
    requires
        0 <= n <= scores.len(),
        forall|i: int| 0 <= i < n ==> (#[trigger] scores[i]).0 != level,
        n < scores.len() ==> scores[n].0 == level,
    ensures
        slot(scores, level) == n,
    decreases scores.len(),
{
    if n > 0 {
        let rest = scores.drop_first();
        assert forall|i: int| 0 <= i < n - 1 implies (#[trigger] rest[i]).0 != level by {
            assert(rest[i] == scores[i + 1]);
        }
        lemma_slot(rest, level, n - 1);
    }
}

impl ScoreTable {
    #[verifier::type_invariant]
    spec fn consistent(self) -> bool {
        &&& self.levels@.len() == self.scores@.len()
        &&& (Fills { pending: Seq::empty(), scores: self@ }).wf()
    }

    fn new() -> (r: Self)
        ensures
            r@ == Seq::<(Level, Score)>::empty(),
    {
        let r = ScoreTable { levels: Vec::new(), scores: Vec::new() };
        assert(r@ =~= Seq::<(Level, Score)>::empty());
        r
    }

    /// The place of a level, and the number of scores where it has none.
    fn place_of(&self, symbol: &str, side: Side, index: usize) -> (r: usize)
        ensures
            r == slot(self@, Level { symbol: symbol@, side, index: index as nat }),
            r <= self@.len(),
            r < self@.len() ==> self@[r as int].0 == (Level {
                symbol: symbol@,
                side,
                index: index as nat,
            }),
            forall|i: int|
                0 <= i < r ==> (#[trigger] self@[i]).0 != (Level {
                    symbol: symbol@,
                    side,
                    index: index as nat,
                }),
    {
        let ghost level = Level { symbol: symbol@, side, index: index as nat };
        let mut i: usize = 0;
        while i < self.levels.len()
            invariant
                i <= self.levels@.len(),
                self.levels@.len() == self@.len(),
                level == (Level { symbol: symbol@, side, index: index as nat }),
                forall|j: int| 0 <= j < i ==> (#[trigger] self@[j]).0 != level,
            decreases self.levels.len() - i,
        {
            let other = &self.levels[i];
            assert(self@[i as int].0 == other@);
            if other.side == side && other.index == index && same(other.symbol.as_str(), symbol) {
                proof {
                    lemma_slot(self@, level, i as int);
                }
                return i;
            }
            i = i + 1;
        }
        proof {
            lemma_slot(self@, level, i as int);
        }
        i
    }

    /// The table with the score of one level set.
    fn with(self, level: LadderLevel, place: usize, score: LevelToxicityScore) -> (r: Self)
        requires
            place == slot(self@, level@),
            place < self@.len() ==> self@[place as int].0 == level@,
            forall|i: int| 0 <= i < place ==> (#[trigger] self@[i]).0 != level@,
            place <= self@.len(),
            score@.updated is Some,
        ensures
            r@ == with_score(self@, level@, score@),
    {
        proof {
            use_type_invariant(&self);
            use_type_invariant(&score);
        }
        let ghost before = self@;
        let ScoreTable { mut levels, mut scores } = self;
        if place < scores.len() {
            scores.set(place, score);
        } else {
            levels.push(level);
            scores.push(score);
        }
        let ghost after = with_score(before, level@, score@);
        assert(Seq::new(levels@.len(), |i: int| (levels@[i]@, scores@[i]@)) =~= after);
        ScoreTable { levels, scores }
    }

    /// The table with every score aged until `now`.
    fn aged(&self, now: Timestamp, factors: &Vec<Decimal>) -> (r: Self)
        requires
            factors@.len() == self@.len(),
            forall|i: int| 0 <= i < factors@.len() ==> 0 <= (#[trigger] factors@[i])@ <= ONE,
        ensures
            r@.len() == self@.len(),
            forall|i: int|
                0 <= i < r@.len() ==> (#[trigger] r@[i]).0 == self@[i].0 && decayed(
                    self@[i].1,
                    now@,
                    factors@[i]@,
                ) == Some(r@[i].1),
    {
        proof {
            use_type_invariant(self);
        }
        let mut scores: Vec<LevelToxicityScore> = Vec::new();
        let mut i: usize = 0;
        while i < self.scores.len()
            invariant
                i <= self.scores@.len(),
                self.scores@.len() == self@.len(),
                factors@.len() == self@.len(),
                scores@.len() == i,
                forall|j: int|
                    0 <= j < factors@.len() ==> 0 <= (#[trigger] factors@[j])@ <= ONE,
                forall|j: int|
                    0 <= j < i ==> decayed(self@[j].1, now@, factors@[j]@) == Some(
                        (#[trigger] scores@[j])@,
                    ) && scores@[j]@.value >= 0,
            decreases self.scores.len() - i,
        {
            assert(self@[i as int].1 == self.scores@[i as int]@);
            let next = self.scores[i].decay(now, factors[i]);
            proof {
                use_type_invariant(&next);
            }
            scores.push(next);
            i = i + 1;
        }
        let levels = self.levels.clone();
        assert(levels@ =~= self.levels@);
        let ghost after = Seq::new(levels@.len(), |j: int| (levels@[j]@, scores@[j]@));
        proof {
            assert forall|j: int| 0 <= j < after.len() implies (#[trigger] after[j]).1.updated
                is Some by {
                assert(self@[j].1.updated is Some);
            }
            assert forall|j: int, k: int| 0 <= j < k < after.len() implies (
            #[trigger] after[j]).0 != (#[trigger] after[k]).0 by {
                assert(after[j].0 == self@[j].0);
                assert(after[k].0 == self@[k].0);
            }
        }
        ScoreTable { levels, scores }
    }

    /// The table after a fill has been scored.
    fn score_fill(
        self,
        fill: &TrackedFill,
        observed: Decimal,
        now: Timestamp,
        factors: &Vec<Decimal>,
    ) -> (r: Option<Self>)
        requires
            forall|i: int| 0 <= i < factors@.len() ==> 0 <= (#[trigger] factors@[i])@ <= ONE,
        ensures
            exists|ups: Halves|
                scores_in(r) == #[trigger] after_fill(
                    self@,
                    fill@,
                    observed@,
                    now@,
                    units_of(factors@),
                    ups,
                ),
    {
        proof {
            use_type_invariant(&self);
            lemma_pow10_values();
        }
        let adverse = adverse_bps(fill.level.side, fill.fill_price, observed);
        let least = fill.spread_earned_bps.max(Decimal::new(1, 6));
        let measured = over(adverse, Some(least));
        let ghost moved: bool = choose|up: bool|
            value(adverse) == #[trigger] adverse_move(
                fill@.level.side,
                fill@.price,
                observed@,
                up,
            );
        let ghost divided: bool = choose|up: bool|
            value(measured) == #[trigger] quotient(value(adverse), Some(least@), up);
        let ghost ups = Halves { moved, ratio: divided };
        proof {
            law_toxicity_not_negative(fill@, observed@, ups);
            assert(value(measured) == toxicity_ratio(fill@, observed@, ups));
        }
        let ghost before = self@;
        let ratio = match measured {
            Some(ratio) => ratio,
            None => {
                assert(after_fill(
                    before,
                    fill@,
                    observed@,
                    now@,
                    units_of(factors@),
                    ups,
                ) is None);
                return None;
            },
        };
        let place: usize = self.place_of(
            fill.level.symbol.as_str(),
            fill.level.side,
            fill.level.index,
        );
        let score = if place < self.scores.len() {
            self.scores[place]
        } else {
            LevelToxicityScore::new()
        };
        let factor = if place < factors.len() {
            factors[place]
        } else {
            Decimal::one()
        };
        let r = match score.apply(ratio, now, factor) {
            Some(next) => Some(self.with(fill.level.clone(), place, next)),
            None => None,
        };
        assert(scores_in(r) == after_fill(
            before,
            fill@,
            observed@,
            now@,
            units_of(factors@),
            ups,
        ));
        r
    }
}

/// The scores of a table, where there is one.
spec fn scores_in(table: Option<ScoreTable>) -> Option<Seq<(Level, Score)>> {
    match table {
        Some(table) => Some(table@),
        None => None,
    }
}

/// The scores after some fills rest on how the quotients of those fills are
/// rounded alone.
proof fn lemma_later_fills(
    scores: Seq<(Level, Score)>,
    fills: Seq<PendingFill>,
    observed: int,
    now: Moment,
    factors: Seq<int>,
    ups: spec_fn(nat) -> Halves,
    others: spec_fn(nat) -> Halves,
)
    requires
        forall|n: nat| n <= fills.len() ==> #[trigger] ups(n) == others(n),
    ensures
        after_fills(scores, fills, observed, now, factors, ups) == after_fills(
            scores,
            fills,
            observed,
            now,
            factors,
            others,
        ),
    decreases fills.len(),
{
    if fills.len() > 0 {
        lemma_later_fills(scores, fills.drop_last(), observed, now, factors, ups, others);
        assert(ups(fills.len()) == others(fills.len()));
    }
}

/// A fill that waits for its score.
struct TrackedFill {
    level: LadderLevel,
    fill_price: Decimal,
    spread_earned_bps: Decimal,
    timestamp: Timestamp,
}

impl View for TrackedFill {
    type V = PendingFill;

    closed spec fn view(&self) -> PendingFill {
        PendingFill {
            level: self.level@,
            price: self.fill_price@,
            spread: self.spread_earned_bps@,
            at: self.timestamp@,
        }
    }
}

/// Whether a fill is to be scored by a price of a symbol.
fn is_fill_due(fill: &TrackedFill, symbol: &str, now: Timestamp) -> (r: bool)
    ensures
        r == is_due(symbol@, now@)(fill@),
{
    same(fill.level.symbol.as_str(), symbol) && now.is_later_by(
        fill.timestamp,
        OBSERVATION_WINDOW_SECS,
    )
}

spec fn waiting(pending: Seq<TrackedFill>) -> Seq<PendingFill> {
    pending.map_values(|fill: TrackedFill| fill@)
}

/// One more element is kept by a filter where it passes it.
proof fn lemma_filter_step(
    fills: Seq<PendingFill>,
    n: int,
    keep: spec_fn(PendingFill) -> bool,
)
    requires
        0 <= n < fills.len(),
    ensures
        fills.take(n + 1).filter(keep) == (if keep(fills[n]) {
            fills.take(n).filter(keep).push(fills[n])
        } else {
            fills.take(n).filter(keep)
        }),
{
    reveal(Seq::filter);
    assert(fills.take(n + 1).drop_last() =~= fills.take(n));
}

proof fn lemma_filter_keeps_spreads(fills: Seq<PendingFill>, keep: spec_fn(PendingFill) -> bool)
    requires
        forall|i: int| 0 <= i < fills.len() ==> (#[trigger] fills[i]).spread >= least_spread(),
    ensures
        forall|i: int|
            0 <= i < fills.filter(keep).len() ==> (#[trigger] fills.filter(keep)[i]).spread
                >= least_spread(),
    decreases fills.len(),
{
    reveal(Seq::filter);
    if fills.len() > 0 {
        let before = fills.drop_last();
        assert(forall|i: int| 0 <= i < before.len() ==> #[trigger] before[i] == fills[i]);
        lemma_filter_keeps_spreads(before, keep);
    }
}

/// Follows the bot's fills: a while after each it looks where the price went,
/// and scores the level of the ladder that was filled.
pub struct FillTracker {
    pending: VecDeque<TrackedFill>,
    table: ScoreTable,
}

impl View for FillTracker {
    type V = Fills;

    closed spec fn view(&self) -> Fills {
        Fills { pending: waiting(self.pending@), scores: self.table@ }
    }
}

impl FillTracker {
    #[verifier::type_invariant]
    spec fn consistent(self) -> bool {
        self@.wf()
    }

    /// A tracker without fills.
    pub fn new() -> (r: Self)
        ensures
            r@.pending == Seq::<PendingFill>::empty(),
            r@.scores == Seq::<(Level, Score)>::empty(),
            r@.wf(),
    {
        let pending: VecDeque<TrackedFill> = VecDeque::new();
        assert(waiting(pending@) =~= Seq::<PendingFill>::empty());
        FillTracker { pending, table: ScoreTable::new() }
    }

    /// Adds a fill to those that wait for their score.
    pub fn record_fill(
        &mut self,
        symbol: String,
        side: Side,
        level_index: usize,
        fill_price: Decimal,
        spread_earned_bps: Decimal,
        timestamp: Timestamp,
    )
        ensures
            final(self)@.scores == old(self)@.scores,
            final(self)@.pending == old(self)@.pending.push(
                PendingFill {
                    level: Level { symbol: symbol@, side, index: level_index as nat },
                    price: fill_price@,
                    spread: larger(spread_earned_bps@, least_spread()),
                    at: timestamp@,
                },
            ),
            final(self)@.wf(),
    {
        proof {
            use_type_invariant(&*self);
        }
        let mut pending: VecDeque<TrackedFill> = VecDeque::new();
        assert(waiting(pending@) =~= Seq::<PendingFill>::empty());
        std::mem::swap(&mut pending, &mut self.pending);
        let fill = TrackedFill {
            level: LadderLevel { symbol, side, index: level_index },
            fill_price,
            spread_earned_bps: spread_earned_bps.max(Decimal::new(1, 6)),
            timestamp,
        };
        let ghost before = pending@;
        pending.push_back(fill);
        assert(waiting(pending@) =~= waiting(before).push(fill@));
        self.pending = pending;
    }

    /// The whole seconds since each score was changed, in the order of the
    /// scores. The factors that [`FillTracker::decay`] and
    /// [`FillTracker::observe_price`] take are the shares that these ages leave
    /// of a distance from the neutral score.
    pub fn ages(&self, now: Timestamp) -> (r: Vec<i64>)
        ensures
            r@.len() == self@.scores.len(),
            forall|i: int|
                0 <= i < r@.len() ==> #[trigger] r@[i] == self@.scores[i].1.age(now@),
    {
        proof {
            use_type_invariant(&self.table);
        }
        let mut ages: Vec<i64> = Vec::new();
        let mut i: usize = 0;
        while i < self.table.scores.len()
            invariant
                i <= self.table.scores@.len(),
                self.table.scores@.len() == self@.scores.len(),
                ages@.len() == i,
                forall|j: int| 0 <= j < i ==> #[trigger] ages@[j] == self@.scores[j].1.age(now@),
            decreases self.table.scores.len() - i,
        {
            assert(self@.scores[i as int].1 == self.table.scores@[i as int]@);
            ages.push(self.table.scores[i].age(now));
            i = i + 1;
        }
        ages
    }

    /// The scores after the fills that are due have been scored.
    fn scored(
        &self,
        symbol: &str,
        observed: Decimal,
        now: Timestamp,
        factors: &Vec<Decimal>,
    ) -> (r: Option<ScoreTable>)
        requires
            forall|i: int| 0 <= i < factors@.len() ==> 0 <= (#[trigger] factors@[i])@ <= ONE,
        ensures
            exists|ups: spec_fn(nat) -> Halves|
                scores_in(r) == #[trigger] after_fills(
                    self@.scores,
                    self@.pending.filter(is_due(symbol@, now@)),
                    observed@,
                    now@,
                    units_of(factors@),
                    ups,
                ),
    {
        let ghost fills = self@.pending;
        let ghost due = is_due(symbol@, now@);
        let mut table: Option<ScoreTable> = Some(self.table.clone());
        let mut i: usize = 0;
        let ghost mut ups: spec_fn(nat) -> Halves = |n: nat| Halves { moved: false, ratio: false };
        proof {
            reveal(Seq::filter);
            assert(fills.take(0).filter(due) =~= Seq::<PendingFill>::empty());
        }
        while i < self.pending.len()
            invariant
                fills == self@.pending,
                due == is_due(symbol@, now@),
                i <= self.pending@.len(),
                self.pending@.len() == fills.len(),
                forall|j: int|
                    0 <= j < factors@.len() ==> 0 <= (#[trigger] factors@[j])@ <= ONE,
                scores_in(table) == after_fills(
                    self@.scores,
                    fills.take(i as int).filter(due),
                    observed@,
                    now@,
                    units_of(factors@),
                    ups,
                ),
            decreases self.pending@.len() - i,
        {
            let fill = &self.pending[i];
            proof {
                assert(fills[i as int] == fill@);
                lemma_filter_step(fills, i as int, due);
                let before = fills.take(i as int).filter(due);
                assert(before.push(fill@).drop_last() =~= before);
            }
            if is_fill_due(fill, symbol, now) {
                let ghost before = scores_in(table);
                table = match table {
                    Some(table) => table.score_fill(fill, observed, now, factors),
                    None => None,
                };
                proof {
                    let scored = fills.take(i as int).filter(due);
                    let this = choose|this: Halves|
                        scores_in(table) == #[trigger] after_fill(
                            before->0,
                            fill@,
                            observed@,
                            now@,
                            units_of(factors@),
                            this,
                        );
                    let earlier = ups;
                    ups = |n: nat|
                        if n == scored.len() + 1 {
                            this
                        } else {
                            earlier(n)
                        };
                    lemma_later_fills(
                        self@.scores,
                        scored,
                        observed@,
                        now@,
                        units_of(factors@),
                        ups,
                        earlier,
                    );
                    assert(ups(scored.push(fill@).len()) == this);
                }
            }
            i = i + 1;
        }
        assert(fills.take(i as int) =~= fills);
        table
    }

    /// Scores the fills of a symbol that are old enough by a price of it, and
    /// lets the others wait on. A price that is not positive is ignored. Where a
    /// number leaves the range of the decimals nothing changes, and the answer
    /// is no.
    pub fn try_observe_price(
        &mut self,
        symbol: &str,
        reference_price: Decimal,
        timestamp: Timestamp,
        factors: &Vec<Decimal>,
    ) -> (r: bool)
        requires
            factors@.len() == old(self)@.scores.len(),
            forall|i: int| 0 <= i < factors@.len() ==> 0 <= (#[trigger] factors@[i])@ <= ONE,
        ensures
            exists|ups: spec_fn(nat) -> Halves|
                match #[trigger] after_price(
                    old(self)@,
                    symbol@,
                    reference_price@,
                    timestamp@,
                    units_of(factors@),
                    ups,
                ) {
                    Some(fills) => r && final(self)@ == fills,
                    None => !r && final(self)@ == old(self)@,
                },
            final(self)@.wf(),
    {
        proof {
            use_type_invariant(&*self);
        }
        let ghost before = self@;
        if !reference_price.is_positive() {
            proof {
                let ups = |n: nat| Halves { moved: false, ratio: false };
                assert(after_price(
                    before,
                    symbol@,
                    reference_price@,
                    timestamp@,
                    units_of(factors@),
                    ups,
                ) == Some(before));
            }
            return true;
        }
        let scored = self.scored(symbol, reference_price, timestamp, factors);
        let ghost ups = choose|ups: spec_fn(nat) -> Halves|
            scores_in(scored) == #[trigger] after_fills(
                before.scores,
                before.pending.filter(is_due(symbol@, timestamp@)),
                reference_price@,
                timestamp@,
                units_of(factors@),
                ups,
            );
        let ghost result = after_price(
            before,
            symbol@,
            reference_price@,
            timestamp@,
            units_of(factors@),
            ups,
        );
        let table = match scored {
            Some(table) => table,
            None => {
                assert(result is None);
                return false;
            },
        };
        proof {
            use_type_invariant(&*self);
            use_type_invariant(&table);
            lemma_filter_keeps_spreads(self@.pending, is_not_due(symbol@, timestamp@));
        }
        let mut pending: VecDeque<TrackedFill> = VecDeque::new();
        assert(waiting(pending@) =~= Seq::<PendingFill>::empty());
        std::mem::swap(&mut pending, &mut self.pending);
        self.table = table;
        let rest = without_due(pending, symbol, timestamp);
        self.pending = rest;
        assert(result == Some(self@));
        true
    }

    /// Scores the fills of a symbol that are old enough by a price of it, and
    /// lets the others wait on. A price that is not positive is ignored.
    pub fn observe_price(
        &mut self,
        symbol: &str,
        reference_price: Decimal,
        timestamp: Timestamp,
        factors: &Vec<Decimal>,
    )
        requires
            factors@.len() == old(self)@.scores.len(),
            forall|i: int| 0 <= i < factors@.len() ==> 0 <= (#[trigger] factors@[i])@ <= ONE,
            forall|ups: spec_fn(nat) -> Halves|
                #[trigger] after_price(
                    old(self)@,
                    symbol@,
                    reference_price@,
                    timestamp@,
                    units_of(factors@),
                    ups,
                ) is Some,
        ensures
            exists|ups: spec_fn(nat) -> Halves|
                #[trigger] after_price(
                    old(self)@,
                    symbol@,
                    reference_price@,
                    timestamp@,
                    units_of(factors@),
                    ups,
                ) == Some(final(self)@),
            final(self)@.wf(),
    {
        let _ = self.try_observe_price(symbol, reference_price, timestamp, factors);
    }

    /// Lets every score age until `now`.
    pub fn decay(&mut self, now: Timestamp, factors: &Vec<Decimal>)
        requires
            factors@.len() == old(self)@.scores.len(),
            forall|i: int| 0 <= i < factors@.len() ==> 0 <= (#[trigger] factors@[i])@ <= ONE,
        ensures
            final(self)@.pending == old(self)@.pending,
            final(self)@.scores.len() == old(self)@.scores.len(),
            forall|i: int|
                0 <= i < final(self)@.scores.len() ==> (#[trigger] final(self)@.scores[i]).0
                    == old(self)@.scores[i].0 && decayed(
                    old(self)@.scores[i].1,
                    now@,
                    factors@[i]@,
                ) == Some(final(self)@.scores[i].1),
            final(self)@.wf(),
    {
        proof {
            use_type_invariant(&*self);
            use_type_invariant(&self.table);
        }
        let table = self.table.aged(now, factors);
        proof {
            use_type_invariant(&table);
        }
        self.table = table;
    }

    /// How toxic the fills of a level have been: neutral where it has none.
    pub fn toxicity_score(&self, symbol: &str, side: Side, level_index: usize) -> (r: Decimal)
        ensures
            r@ == toxicity_of(
                self@.scores,
                Level { symbol: symbol@, side, index: level_index as nat },
            ),
            r@ >= 0,
    {
        proof {
            use_type_invariant(&self.table);
            lemma_pow10_values();
        }
        let place: usize = self.table.place_of(symbol, side, level_index);
        if place < self.table.scores.len() {
            self.table.scores[place].value()
        } else {
            neutral_score()
        }
    }

    /// The multiplier of the order size of a level, the smaller the more toxic
    /// its fills have been.
    pub fn level_volume_multiplier(&self, symbol: &str, side: Side, level_index: usize) -> (r:
        Decimal)
        ensures
            r@ == volume_multiplier(
                toxicity_of(
                    self@.scores,
                    Level { symbol: symbol@, side, index: level_index as nat },
                ),
            ),
    {
        let score = self.toxicity_score(symbol, side, level_index);
        score.in_representation();
        proof {
            lemma_multiplier_rounded(score@);
            lemma_pow10_values();
        }
        let least = Decimal::new(5, 1);
        let most = Decimal::new(15, 1);
        let wanted = if score.exceeds(neutral_score()) {
            let more = minus(Some(score), Some(neutral_score()));
            minus(Some(Decimal::one()), over_small(more, Decimal::new(2, 0)))
        } else {
            minus(Some(most), Some(score))
        };
        match wanted {
            Some(wanted) => wanted.clamp(least, most),
            None => unreached(),
        }
    }
}

impl Default for FillTracker {
    fn default() -> (r: Self)
        ensures
            r@.pending == Seq::<PendingFill>::empty(),
            r@.scores == Seq::<(Level, Score)>::empty(),
    {
        FillTracker::new()
    }
}

/// The fills that are not to be scored by a price of a symbol.
fn without_due(pending: VecDeque<TrackedFill>, symbol: &str, now: Timestamp) -> (r: VecDeque<
    TrackedFill,
>)
    ensures
        waiting(r@) == waiting(pending@).filter(is_not_due(symbol@, now@)),
{
    let ghost fills = waiting(pending@);
    let ghost keep = is_not_due(symbol@, now@);
    let mut left = pending;
    let mut rest: VecDeque<TrackedFill> = VecDeque::new();
    let ghost mut n: int = 0;
    proof {
        reveal(Seq::filter);
        assert(waiting(rest@) =~= fills.take(0).filter(keep));
        assert(waiting(left@) =~= fills.skip(0));
    }
    while left.len() > 0
        invariant
            keep == is_not_due(symbol@, now@),
            0 <= n <= fills.len(),
            waiting(left@) == fills.skip(n),
            waiting(rest@) == fills.take(n).filter(keep),
        decreases left@.len(),
    {
        let ghost before = left@;
        if let Some(fill) = left.pop_front() {
            proof {
                assert(waiting(before) == fills.skip(n) && before.len() > 0);
                assert(fills.skip(n).len() == before.len());
                assert(fill@ == fills.skip(n)[0]);
                assert forall|i: int| 0 <= i < left@.len() implies #[trigger] waiting(left@)[i]
                    == fills.skip(n + 1)[i] by {
                    assert(left@[i] == before[i + 1]);
                    assert(waiting(before)[i + 1] == fills.skip(n)[i + 1]);
                }
                assert(waiting(left@) =~= fills.skip(n + 1));
                lemma_filter_step(fills, n, keep);
                n = n + 1;
            }
            if !is_fill_due(&fill, symbol, now) {
                let ghost kept = rest@;
                rest.push_back(fill);
                assert(waiting(rest@) =~= waiting(kept).push(fill@));
            }
        }
    }
    assert(fills.take(n) =~= fills);
    rest
}

} // verus!
