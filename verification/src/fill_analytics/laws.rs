//! What holds of the scores whatever the prices do.
use vstd::arithmetic::div_mod::lemma_fundamental_div_mod_converse;
use vstd::prelude::*;

use super::model::{
    adverse_move, after_fill, after_fills, after_price, applied, decayed, drawn_to_neutral,
    factor_of, is_due, is_not_due, least_spread, neutral, score_of, slot, toxicity_of,
    toxicity_ratio, volume_multiplier, with_score, Fills, Halves, Level, PendingFill, Score,
};
use crate::average::lemma_ewma_not_negative;
use crate::decimal::{
    bounded, dec, difference, fit, half_even, larger, lemma_dec_sign, lemma_pow10_positive,
    lemma_pow10_values, magnitude, pow10, product, quotient, representable, sum, LIMIT, MAX_SCALE,
    ONE,
};
use crate::domain::Side;
use crate::rounding::{
    lemma_fit_above, lemma_fit_below, lemma_fit_coarse, lemma_fit_exact, lemma_fit_near,
    lemma_fit_negated, lemma_fit_order, lemma_fit_representable, lemma_fit_sign,
    lemma_half_even_monotone, lemma_pow10_split, lemma_quotient_exact, lemma_quotient_order,
    lemma_quotient_sign, lemma_representable_negated, lemma_units_representable,
};
use crate::time::Moment;

verus! {

/// A decimal that is too large for digits behind the point is whole.
proof fn lemma_large_is_whole(units: int) -> (whole: int)
    requires
        representable(units),
        units >= LIMIT * pow10(27),
    ensures
        units == whole * ONE,
        0 < whole < LIMIT,
{
    let (mantissa, scale) = choose|mantissa: int, scale: nat|
        -LIMIT < mantissa < LIMIT && scale <= MAX_SCALE && units == #[trigger] dec(mantissa, scale);
    let p = pow10((MAX_SCALE - scale) as nat);
    let limit = LIMIT as int;
    lemma_pow10_values();
    if scale >= 1 {
        let rest = (scale - 1) as nat;
        lemma_pow10_split((MAX_SCALE - scale) as nat, rest);
        lemma_pow10_positive(rest);
        lemma_pow10_positive((MAX_SCALE - scale) as nat);
        let q = pow10(rest);
        assert(mantissa * p < limit * (p * q)) by (nonlinear_arith)
            requires
                mantissa < limit,
                limit > 0,
                p > 0,
                q >= 1,
        ;
        assert(false);
    }
    mantissa
}

/// The difference of a decimal from the neutral score is one too, unless it is
/// a whole number that is too large for a digit behind the point.
proof fn lemma_distance_exact(value: int) -> (whole: int)
    requires
        representable(value),
        value >= neutral(),
        fit(value - neutral(), 1, 0) != Some(value - neutral()),
    ensures
        value == whole * ONE,
        0 < whole < LIMIT,
        10 * whole - 5 >= LIMIT,
{
    let (mantissa, scale) = choose|mantissa: int, scale: nat|
        -LIMIT < mantissa < LIMIT && scale <= MAX_SCALE && value == #[trigger] dec(mantissa, scale);
    let d = value - neutral();
    lemma_pow10_values();
    lemma_dec_sign(mantissa, scale);
    if scale >= 1 {
        let rest = (scale - 1) as nat;
        let tail = (MAX_SCALE - scale) as nat;
        lemma_pow10_split(rest, tail);
        let p = pow10(tail);
        let q = pow10(rest);
        lemma_pow10_positive(rest);
        lemma_pow10_positive(tail);
        assert(5 * (q * p) == (5 * q) * p) by (nonlinear_arith);
        assert(mantissa * p - (5 * q) * p == (mantissa - 5 * q) * p) by (nonlinear_arith);
        assert(d == dec(mantissa - 5 * q, scale));
        assert(mantissa - 5 * q >= 0) by (nonlinear_arith)
            requires
                (mantissa - 5 * q) * p >= 0,
                p > 0,
        ;
        lemma_fit_exact(d, 1, d);
        assert(false);
    }
    assert(pow10((MAX_SCALE - scale) as nat) == ONE);
    assert(value == mantissa * ONE);
    if 10 * mantissa - 5 < LIMIT {
        assert((10 * mantissa - 5) * pow10(27) == mantissa * ONE - neutral());
        assert(d == dec(10 * mantissa - 5, 1));
        lemma_fit_exact(d, 1, d);
        assert(false);
    }
    mantissa
}

/// A whole number that ends in a half is rounded to the even neighbour, where it
/// is too large for a digit behind the point.
proof fn lemma_fit_half(whole: int)
    requires
        0 <= whole,
        whole + 1 < LIMIT,
        10 * whole + 5 >= LIMIT,
    ensures
        fit(whole * ONE + neutral(), 1, 0) == Some(
            if whole % 2 == 0 {
                whole * ONE
            } else {
                (whole + 1) * ONE
            },
        ),
{
    lemma_pow10_values();
    let one = ONE as int;
    let num = whole * one + neutral();
    assert(num == (10 * whole + 5) * pow10(27));
    lemma_fit_coarse(num, 0);
    assert(num / one == whole && num % one == neutral());
    assert(1 * pow10(28) == one);
}

/// With age a score moves toward the neutral one, never past it, and never out
/// of range.
pub proof fn law_score_moves_to_neutral(value: int, factor: int)
    requires
        representable(value),
        value >= 0,
        0 <= factor <= ONE,
    ensures
        drawn_to_neutral(value, factor) matches Some(r) && (value <= neutral() ==> value <= r
            <= neutral()) && (value >= neutral() ==> neutral() <= r <= value),
{
    lemma_pow10_values();
    let one = ONE as int;
    let n = neutral();
    let d = value - n;
    lemma_units_representable(n);
    if value <= n {
        lemma_units_representable(d);
        lemma_fit_exact(d, 1, d);
        assert(one * d <= d * factor <= 0) by (nonlinear_arith)
            requires
                d <= 0,
                0 <= factor <= one,
        ;
        lemma_fit_above(d * factor, one, d);
        let p = fit(d * factor, one, 0)->0;
        lemma_units_representable(n + p);
        lemma_fit_exact(n + p, 1, n + p);
    } else {
        lemma_fit_below(d, 1, value);
        lemma_fit_representable(d, 1, 0);
        let e = fit(d, 1, 0)->0;
        assert(0 <= e * factor <= one * e) by (nonlinear_arith)
            requires
                0 <= e,
                0 <= factor <= one,
        ;
        lemma_fit_below(e * factor, one, e);
        lemma_fit_representable(e * factor, one, 0);
        let p = fit(e * factor, one, 0)->0;
        if n + p <= value {
            lemma_fit_below(n + p, 1, value);
        } else {
            let whole = lemma_distance_exact(value);
            lemma_fit_half(whole - 1);
            assert(d == (whole - 1) * one + n);
            assert(whole % 2 == 0);
            let k = lemma_large_is_whole(p);
            assert(k == whole);
            if whole + 1 < LIMIT {
                lemma_fit_half(whole);
            } else {
                assert(whole == LIMIT - 1);
                assert(false);
            }
        }
        lemma_fit_exact(n, 1, n);
        lemma_fit_order(n, n + p, 1);
    }
}

/// Without age a score stays as it is, unless it is an odd whole number that is
/// too large for a digit behind the point.
pub proof fn law_score_without_age_stays(value: int)
    requires
        representable(value),
        value >= 0,
        forall|whole: int|
            value == #[trigger] (whole * ONE) && 10 * whole - 5 >= LIMIT ==> whole % 2 == 0,
    ensures
        drawn_to_neutral(value, ONE as int) == Some(value),
{
    lemma_pow10_values();
    let one = ONE as int;
    let n = neutral();
    let d = value - n;
    if fit(d, 1, 0) == Some(d) {
        lemma_fit_representable(d, 1, 0);
        assert(d * one == one * d) by (nonlinear_arith);
        lemma_fit_exact(d * one, one, d);
        lemma_fit_exact(value, 1, value);
        assert(n + d == value);
    } else if value < n {
        lemma_units_representable(d);
        lemma_fit_exact(d, 1, d);
    } else {
        let whole = lemma_distance_exact(value);
        assert(value == whole * ONE);
        assert(whole % 2 == 0);
        assert(d == (whole - 1) * one + n);
        lemma_fit_half(whole - 1);
        assert(value * one == one * value) by (nonlinear_arith);
        lemma_fit_exact(value * one, one, value);
        lemma_fit_half(whole);
    }
}

/// An adverse move is not negative.
pub proof fn law_adverse_move_not_negative(side: Side, fill_price: int, observed: int, up: bool)
    ensures
        adverse_move(side, fill_price, observed, up) matches Some(r) ==> r >= 0,
{
    lemma_pow10_values();
    let moved = match side {
        Side::Bid => difference(Some(fill_price), Some(observed)),
        Side::Ask => difference(Some(observed), Some(fill_price)),
    };
    if fill_price > 0 && quotient(moved, Some(fill_price), up) is Some {
        let raw = larger(quotient(moved, Some(fill_price), up)->0, 0);
        assert(raw * dec(10_000, 0) >= 0) by (nonlinear_arith)
            requires
                raw >= 0,
                dec(10_000, 0) >= 0,
        ;
        lemma_fit_sign(raw * dec(10_000, 0), ONE as int, 0);
    }
}

/// A buyer whose price has not fallen, and a seller whose price has not risen,
/// has no adverse move.
pub proof fn law_favourable_move_is_not_adverse(
    side: Side,
    fill_price: int,
    observed: int,
    up: bool,
)
    requires
        side == Side::Bid ==> observed >= fill_price,
        side == Side::Ask ==> observed <= fill_price,
    ensures
        adverse_move(side, fill_price, observed, up) matches Some(r) ==> r == 0,
{
    lemma_pow10_values();
    let one = ONE as int;
    let moved = match side {
        Side::Bid => difference(Some(fill_price), Some(observed)),
        Side::Ask => difference(Some(observed), Some(fill_price)),
    };
    if fill_price > 0 && moved is Some {
        lemma_fit_sign(fill_price - observed, 1, 0);
        lemma_fit_sign(observed - fill_price, 1, 0);
        lemma_quotient_sign(moved->0, fill_price, up);
        lemma_units_representable(0);
        assert(0 * dec(10_000, 0) == one * 0) by (nonlinear_arith);
        lemma_fit_exact(0, one, 0);
    }
}

/// The further the price falls, the larger the adverse move of a buyer, and the
/// further it rises, that of a seller, where halves are rounded the same way.
pub proof fn law_worse_price_is_more_adverse(
    side: Side,
    fill_price: int,
    observed: int,
    worse: int,
    up: bool,
)
    requires
        side == Side::Bid ==> worse <= observed,
        side == Side::Ask ==> worse >= observed,
    ensures
        adverse_move(side, fill_price, worse, up) matches Some(r) ==> adverse_move(
            side,
            fill_price,
            observed,
            up,
        ) matches Some(s) ==> s <= r,
{
    lemma_pow10_values();
    let one = ONE as int;
    law_adverse_move_not_negative(side, fill_price, worse, up);
    let (near, far) = match side {
        Side::Bid => (fill_price - observed, fill_price - worse),
        Side::Ask => (observed - fill_price, worse - fill_price),
    };
    if fill_price > 0 {
        if near <= 0 {
            law_favourable_move_is_not_adverse(side, fill_price, observed, up);
        } else if adverse_move(side, fill_price, worse, up) is Some {
            lemma_fit_order(near, far, 1);
            let a = fit(near, 1, 0)->0;
            let b = fit(far, 1, 0)->0;
            lemma_quotient_order(a, b, fill_price, up);
            let x = quotient(Some(a), Some(fill_price), up)->0;
            let y = quotient(Some(b), Some(fill_price), up)->0;
            let k = dec(10_000, 0);
            assert(0 <= x * k <= y * k) by (nonlinear_arith)
                requires
                    0 <= x <= y,
                    k > 0,
            ;
            lemma_fit_order(x * k, y * k, one);
        }
    }
}

/// A toxicity ratio is not negative.
pub proof fn law_toxicity_not_negative(fill: PendingFill, observed: int, ups: Halves)
    ensures
        toxicity_ratio(fill, observed, ups) matches Some(r) ==> r >= 0,
{
    lemma_pow10_values();
    law_adverse_move_not_negative(fill.level.side, fill.price, observed, ups.moved);
    let adverse = adverse_move(fill.level.side, fill.price, observed, ups.moved);
    if adverse is Some {
        lemma_quotient_sign(adverse->0, larger(fill.spread, least_spread()), ups.ratio);
    }
}

/// A score that takes a ratio in stays a score that is not negative.
pub proof fn law_score_not_negative(score: Score, ratio: int, now: Moment, factor: int)
    requires
        representable(score.value),
        score.value >= 0,
        ratio >= 0,
        0 <= factor <= ONE,
    ensures
        applied(score, ratio, now, factor) matches Some(next) ==> next.value >= 0,
{
    lemma_pow10_values();
    law_score_moves_to_neutral(score.value, factor);
    law_score_moves_to_neutral(score.value, ONE as int);
    if decayed(score, now, factor) is Some {
        lemma_ewma_not_negative(dec(25, 2), ratio, decayed(score, now, factor)->0.value);
    }
}

/// The first fill of a level sets its score to its toxicity ratio.
pub proof fn law_first_fill_sets_score(ratio: int, now: Moment, factor: int)
    ensures
        applied(Score::fresh(), ratio, now, factor) == Some(
            Score { value: ratio, updated: Some(now) },
        ),
{
}

/// A more toxic level never gets the larger orders, and every multiplier lies
/// between a half and one and a half.
pub proof fn law_volume_multiplier(score: int, more_toxic: int)
    requires
        score <= more_toxic,
    ensures
        dec(5, 1) <= volume_multiplier(more_toxic) <= volume_multiplier(score) <= dec(15, 1),
{
    lemma_pow10_values();
    lemma_half_even_monotone(score - neutral(), more_toxic - neutral(), 2);
    if more_toxic >= neutral() {
        lemma_half_even_monotone(0, more_toxic - neutral(), 2);
    }
}

/// The points that fix the curve of the multipliers: a level of which nothing bad
/// is known gets its full size, one without toxicity half as much again, one bad
/// fill costs an eighth, and from a score of one and a half on half is left.
pub proof fn law_volume_multiplier_points(score: int)
    ensures
        volume_multiplier(neutral()) == ONE,
        volume_multiplier(0) == dec(15, 1),
        volume_multiplier(dec(75, 2)) == dec(875, 3),
        score >= dec(15, 1) ==> volume_multiplier(score) == dec(5, 1),
        score > neutral() ==> volume_multiplier(score) <= ONE,
        score < neutral() ==> volume_multiplier(score) > ONE,
{
    lemma_pow10_values();
    reveal_with_fuel(pow10, 30);
    if score >= dec(15, 1) {
        lemma_half_even_monotone(ONE as int, score - neutral(), 2);
    }
    if score > neutral() {
        lemma_half_even_monotone(0, score - neutral(), 2);
    }
}

/// The multiplier that is wanted for a score, rounded to a decimal and kept in
/// the range of a multiplier, is the multiplier.
pub(crate) proof fn lemma_multiplier_rounded(score: int)
    requires
        representable(score),
        score >= 0,
    ensures
        score <= neutral() ==> difference(Some(dec(15, 1)), Some(score)) == Some(
            dec(15, 1) - score,
        ),
        score > neutral() ==> (difference(
            Some(ONE as int),
            quotient(difference(Some(score), Some(neutral())), Some(dec(2, 0)), false),
        ) matches Some(r) && bounded(r, dec(5, 1), dec(15, 1)) == volume_multiplier(score)),
{
    lemma_pow10_values();
    let one = ONE as int;
    let n = neutral();
    let two = dec(2, 0);
    if score <= n {
        lemma_units_representable(dec(15, 1) - score);
        lemma_fit_exact(dec(15, 1) - score, 1, dec(15, 1) - score);
    } else {
        let d = score - n;
        lemma_fit_below(d, 1, score);
        lemma_fit_representable(d, 1, 0);
        let e = fit(d, 1, 0)->0;
        assert(two == 2 * one);
        assert(0 <= e * one <= two * e) by (nonlinear_arith)
            requires
                0 <= e,
                one > 0,
                two == 2 * one,
        ;
        lemma_fit_below(e * one, two, e);
        lemma_fit_representable(e * one, two, 0);
        let h = fit(e * one, two, 0)->0;
        if score <= dec(15, 1) {
            lemma_units_representable(d);
            lemma_fit_exact(d, 1, d);
            lemma_half_of_units(d);
            lemma_half_even_monotone(0, d, 2);
            lemma_half_even_monotone(d, one, 2);
            lemma_units_representable(one - h);
            lemma_fit_exact(one - h, 1, one - h);
        } else {
            lemma_half_even_monotone(one, d, 2);
            lemma_units_representable(one);
            lemma_fit_exact(one, 1, one);
            lemma_fit_order(one, d, 1);
            assert(one * one <= e * one) by (nonlinear_arith)
                requires
                    one <= e,
                    one > 0,
            ;
            lemma_units_representable(n);
            assert(one * one == two * n);
            lemma_fit_exact(one * one, two, n);
            lemma_fit_order(one * one, e * one, two);
            lemma_representable_negated(h);
            if one - h >= 0 {
                lemma_units_representable(one - h);
                lemma_fit_exact(one - h, 1, one - h);
            } else {
                lemma_fit_above(one - h, 1, -h);
            }
        }
    }
}

/// Half of a small number of units is rounded to a whole one.
proof fn lemma_half_of_units(units: int)
    requires
        0 <= units < LIMIT,
    ensures
        fit(units * ONE, dec(2, 0), 0) == Some(half_even(units, 2)),
{
    lemma_pow10_values();
    let one = ONE as int;
    let num = units * one;
    let den = dec(2, 0) * pow10(0);
    assert(den == 2 * one);
    let q = units / 2;
    let r = units % 2;
    assert(units == 2 * q + r);
    assert(num == q * den + r * one) by (nonlinear_arith)
        requires
            units == 2 * q + r,
            num == units * one,
            den == 2 * one,
    ;
    assert(0 <= r * one < den);
    lemma_fundamental_div_mod_converse(num, den, q, r * one);
    lemma_half_even_monotone(0, units, 2);
}

/// Whether a fill is one of a symbol.
pub open spec fn belongs_to(symbol: Seq<char>) -> spec_fn(PendingFill) -> bool {
    |fill: PendingFill| fill.level.symbol == symbol
}

proof fn lemma_waiting_of_other(
    pending: Seq<PendingFill>,
    symbol: Seq<char>,
    now: Moment,
    other: Seq<char>,
)
    requires
        other != symbol,
    ensures
        pending.filter(is_not_due(symbol, now)).filter(belongs_to(other)) == pending.filter(
            belongs_to(other),
        ),
    decreases pending.len(),
{
    reveal(Seq::filter);
    if pending.len() > 0 {
        let before = pending.drop_last();
        lemma_waiting_of_other(before, symbol, now, other);
        let kept = before.filter(is_not_due(symbol, now));
        let last = pending.last();
        if is_not_due(symbol, now)(last) {
            assert(kept.push(last).drop_last() =~= kept);
        }
    }
}

/// The place of a level stays as it is when the score of another is set.
proof fn lemma_slot_of_other(
    scores: Seq<(Level, Score)>,
    level: Level,
    score: Score,
    other: Level,
)
    requires
        other != level,
    ensures
        score_of(with_score(scores, level, score), other) == score_of(scores, other),
        toxicity_of(with_score(scores, level, score), other) == toxicity_of(scores, other),
    decreases scores.len(),
{
    let after = with_score(scores, level, score);
    if scores.len() == 0 {
        reveal_with_fuel(slot, 2);
    } else {
        let rest = scores.drop_first();
        lemma_slot_of_other(rest, level, score, other);
        lemma_slot_bound(scores, level);
        lemma_slot_bound(rest, level);
        if scores[0].0 == level {
            assert(after.drop_first() =~= rest);
        } else {
            assert(after.drop_first() =~= with_score(rest, level, score));
        }
        lemma_slot_bound(rest, other);
        lemma_slot_bound(after.drop_first(), other);
    }
}

proof fn lemma_slot_bound(scores: Seq<(Level, Score)>, level: Level)
    ensures
        slot(scores, level) <= scores.len(),
        slot(scores, level) < scores.len() ==> scores[slot(scores, level) as int].0 == level,
    decreases scores.len(),
{
    if scores.len() > 0 && scores[0].0 != level {
        lemma_slot_bound(scores.drop_first(), level);
    }
}

proof fn lemma_fills_of_other(
    scores: Seq<(Level, Score)>,
    fills: Seq<PendingFill>,
    observed: int,
    now: Moment,
    factors: Seq<int>,
    other: Level,
    ups: spec_fn(nat) -> Halves,
)
    requires
        forall|i: int| 0 <= i < fills.len() ==> (#[trigger] fills[i]).level != other,
    ensures
        after_fills(scores, fills, observed, now, factors, ups) matches Some(next)
            ==> toxicity_of(next, other) == toxicity_of(scores, other),
    decreases fills.len(),
{
    if fills.len() > 0 {
        let before = fills.drop_last();
        assert forall|i: int| 0 <= i < before.len() implies (#[trigger] before[i]).level
            != other by {
            assert(before[i] == fills[i]);
        }
        lemma_fills_of_other(scores, before, observed, now, factors, other, ups);
        let middle = after_fills(scores, before, observed, now, factors, ups);
        assert(fills.last() == fills[fills.len() - 1]);
        let fill = fills.last();
        let this = ups(fills.len());
        if middle is Some && after_fill(middle->0, fill, observed, now, factors, this) is Some {
            let score = applied(
                score_of(middle->0, fill.level),
                toxicity_ratio(fill, observed, this)->0,
                now,
                factor_of(middle->0, factors, fill.level),
            )->0;
            lemma_slot_of_other(middle->0, fill.level, score, other);
        }
    }
}

proof fn lemma_due_are_due(pending: Seq<PendingFill>, symbol: Seq<char>, now: Moment)
    ensures
        pending.filter(is_due(symbol, now)).len() + pending.filter(is_not_due(symbol, now)).len()
            == pending.len(),
        forall|i: int|
            0 <= i < pending.filter(is_due(symbol, now)).len() ==> is_due(symbol, now)(
                #[trigger] pending.filter(is_due(symbol, now))[i],
            ),
        forall|i: int|
            0 <= i < pending.filter(is_not_due(symbol, now)).len() ==> !is_due(symbol, now)(
                #[trigger] pending.filter(is_not_due(symbol, now))[i],
            ),
    decreases pending.len(),
{
    reveal(Seq::filter);
    if pending.len() > 0 {
        lemma_due_are_due(pending.drop_last(), symbol, now);
    }
}

/// What a filter keeps was there before.
proof fn lemma_filter_members(fills: Seq<PendingFill>, keep: spec_fn(PendingFill) -> bool)
    ensures
        forall|i: int|
            0 <= i < fills.filter(keep).len() ==> keep(#[trigger] fills.filter(keep)[i])
                && fills.contains(fills.filter(keep)[i]),
    decreases fills.len(),
{
    reveal(Seq::filter);
    if fills.len() > 0 {
        let before = fills.drop_last();
        lemma_filter_members(before, keep);
        assert forall|i: int| 0 <= i < fills.filter(keep).len() implies keep(
            #[trigger] fills.filter(keep)[i],
        ) && fills.contains(fills.filter(keep)[i]) by {
            if i < before.filter(keep).len() {
                let fill = before.filter(keep)[i];
                assert(before.contains(fill));
                let j = choose|j: int| 0 <= j < before.len() && before[j] == fill;
                assert(fills[j] == fill);
            } else {
                assert(fills[fills.len() - 1] == fills.last());
            }
        }
    }
}

/// A price of a symbol leaves the score of every level as it is that has no fill
/// which the price scores, on whichever side or symbol it is.
pub proof fn law_levels_are_separate(
    fills: Fills,
    symbol: Seq<char>,
    observed: int,
    now: Moment,
    factors: Seq<int>,
    other: Level,
    ups: spec_fn(nat) -> Halves,
)
    requires
        forall|i: int|
            0 <= i < fills.pending.len() && is_due(symbol, now)(#[trigger] fills.pending[i])
                ==> fills.pending[i].level != other,
    ensures
        after_price(fills, symbol, observed, now, factors, ups) matches Some(next)
            ==> toxicity_of(next.scores, other) == toxicity_of(fills.scores, other),
{
    if observed > 0 {
        let due = fills.pending.filter(is_due(symbol, now));
        lemma_filter_members(fills.pending, is_due(symbol, now));
        assert forall|i: int| 0 <= i < due.len() implies (#[trigger] due[i]).level != other by {
            assert(fills.pending.contains(due[i]));
            let j = choose|j: int| 0 <= j < fills.pending.len() && fills.pending[j] == due[i];
            assert(is_due(symbol, now)(fills.pending[j]));
        }
        lemma_fills_of_other(fills.scores, due, observed, now, factors, other, ups);
    }
}

/// A price of one symbol leaves the waiting fills and the scores of every other
/// symbol as they are.
pub proof fn law_symbols_are_separate(
    fills: Fills,
    symbol: Seq<char>,
    observed: int,
    now: Moment,
    factors: Seq<int>,
    other: Level,
    ups: spec_fn(nat) -> Halves,
)
    requires
        other.symbol != symbol,
    ensures
        after_price(fills, symbol, observed, now, factors, ups) matches Some(next) ==> {
            &&& toxicity_of(next.scores, other) == toxicity_of(fills.scores, other)
            &&& next.pending.filter(belongs_to(other.symbol)) == fills.pending.filter(
                belongs_to(other.symbol),
            )
        },
{
    law_levels_are_separate(fills, symbol, observed, now, factors, other, ups);
    lemma_waiting_of_other(fills.pending, symbol, now, other.symbol);
}

/// After a positive price of a symbol no fill of it is left that is old enough,
/// and every fill that has gone was old enough and is one of the symbol.
pub proof fn law_due_fills_are_scored(
    fills: Fills,
    symbol: Seq<char>,
    observed: int,
    now: Moment,
    factors: Seq<int>,
    ups: spec_fn(nat) -> Halves,
)
    requires
        observed > 0,
    ensures
        after_price(fills, symbol, observed, now, factors, ups) matches Some(next) ==> {
            &&& forall|i: int|
                0 <= i < next.pending.len() ==> !is_due(symbol, now)(#[trigger] next.pending[i])
            &&& next.pending.len() + fills.pending.filter(is_due(symbol, now)).len()
                == fills.pending.len()
        },
{
    lemma_due_are_due(fills.pending, symbol, now);
}

proof fn lemma_filter_of_all(
    fills: Seq<PendingFill>,
    keep: spec_fn(PendingFill) -> bool,
    drop: spec_fn(PendingFill) -> bool,
)
    requires
        forall|i: int|
            0 <= i < fills.len() ==> keep(#[trigger] fills[i]) && !drop(fills[i]),
    ensures
        fills.filter(keep) == fills,
        fills.filter(drop) == Seq::<PendingFill>::empty(),
    decreases fills.len(),
{
    reveal(Seq::filter);
    if fills.len() > 0 {
        let before = fills.drop_last();
        assert forall|i: int| 0 <= i < before.len() implies keep(#[trigger] before[i]) && !drop(
            before[i],
        ) by {
            assert(before[i] == fills[i]);
        }
        lemma_filter_of_all(before, keep, drop);
        assert(fills[fills.len() - 1] == fills.last());
        assert(before.push(fills.last()) =~= fills);
    } else {
        assert(fills =~= Seq::<PendingFill>::empty());
    }
}

/// Without leap seconds, the earlier of two instants is no longer after a third
/// one than the later is.
proof fn lemma_spans_grow(later: Moment, sooner: Moment, at: Moment)
    requires
        later.at_or_after(sooner),
        !later.leaps(),
        !sooner.leaps(),
        !at.leaps(),
        later.nanos >= 0,
        sooner.nanos >= 0,
    ensures
        sooner.nanos_since(at) <= later.nanos_since(at),
{
}

/// A second price of a symbol, no later than the first, changes nothing, whatever
/// it is: each fill is scored once, and a price alone lets no score age. In a leap
/// second the earlier of two instants may count as the later one after a third,
/// and a fill that is due at the earlier one alone is left out.
pub proof fn law_second_price_changes_nothing(
    fills: Fills,
    symbol: Seq<char>,
    observed: int,
    now: Moment,
    factors: Seq<int>,
    second: int,
    sooner: Moment,
    second_factors: Seq<int>,
    ups: spec_fn(nat) -> Halves,
    second_ups: spec_fn(nat) -> Halves,
)
    requires
        observed > 0,
        now.valid(),
        sooner.valid(),
        now.at_or_after(sooner),
        forall|i: int|
            0 <= i < fills.pending.len() && (now.leaps() || sooner.leaps() || (
            #[trigger] fills.pending[i]).at.leaps()) && is_due(symbol, sooner)(fills.pending[i])
                ==> is_due(symbol, now)(fills.pending[i]),
    ensures
        after_price(fills, symbol, observed, now, factors, ups) matches Some(next)
            ==> after_price(next, symbol, second, sooner, second_factors, second_ups) == Some(
            next,
        ),
{
    let first = after_price(fills, symbol, observed, now, factors, ups);
    if first is Some {
        let next = first->0;
        lemma_filter_members(fills.pending, is_not_due(symbol, now));
        assert forall|i: int| 0 <= i < next.pending.len() implies is_not_due(symbol, sooner)(
            #[trigger] next.pending[i],
        ) && !is_due(symbol, sooner)(next.pending[i]) by {
            let fill = next.pending[i];
            assert(fills.pending.contains(fill));
            let j = choose|j: int| 0 <= j < fills.pending.len() && fills.pending[j] == fill;
            assert(fills.pending[j] == fill);
            if !(now.leaps() || sooner.leaps() || fill.at.leaps()) {
                lemma_spans_grow(now, sooner, fill.at);
            }
            assert(is_not_due(symbol, now)(fill));
        }
        lemma_filter_of_all(next.pending, is_not_due(symbol, sooner), is_due(symbol, sooner));
    }
}

/// A fill that comes to a level with a score moves the score, as it has aged, a
/// quarter of the way to its toxicity ratio, up or down: four times the new score is
/// the ratio and three times the aged one, but for the rounding of two products to
/// the nearest unit. Where neither is large, there is a new score. At an aged score
/// of zero, and at a level that never had a fill, the ratio is the new score.
pub proof fn law_fill_moves_score_a_quarter(
    score: Score,
    ratio: int,
    now: Moment,
    factor: int,
    aged: Score,
)
    requires
        decayed(score, now, factor) == Some(aged),
        ratio >= 0,
        aged.value >= 0,
    ensures
        score.updated is None || aged.value == 0 ==> applied(score, ratio, now, factor) == Some(
            Score { value: ratio, updated: Some(now) },
        ),
        score.updated is Some && aged.value > 0 ==> applied(score, ratio, now, factor) == (
        match sum(
            product(Some(dec(25, 2)), Some(ratio)),
            product(Some(dec(75, 2)), Some(aged.value)),
        ) {
            Some(value) => Some(Score { value, updated: Some(now) }),
            None => None,
        }),
        score.updated is Some && 0 < aged.value && ratio + 3 * aged.value <= 4 * (LIMIT - 2) ==> (
        applied(score, ratio, now, factor) matches Some(next) && {
            &&& next.updated == Some(now)
            &&& -4 <= 4 * next.value - (ratio + 3 * aged.value) <= 4
            &&& ratio % 4 == 0 && aged.value % 4 == 0 ==> 4 * next.value == ratio + 3 * aged.value
            &&& ratio + 4 < aged.value ==> next.value < aged.value
            &&& aged.value + 4 < ratio ==> aged.value < next.value
        }),
{
    lemma_pow10_values();
    let one = ONE as int;
    let quarter = dec(25, 2);
    let rest = dec(75, 2);
    let old = aged.value;
    lemma_units_representable(rest);
    lemma_fit_exact(one - quarter, 1, rest);
    if old > 0 && ratio + 3 * old <= 4 * (LIMIT - 2) {
        assert(4 * quarter == one);
        assert(4 * rest == 3 * one);
        assert(4 * (quarter * ratio) == one * ratio) by (nonlinear_arith)
            requires
                4 * quarter == one,
        ;
        assert(4 * (rest * old) == one * (3 * old)) by (nonlinear_arith)
            requires
                4 * rest == 3 * one,
        ;
        lemma_quarter(ratio, quarter * ratio);
        lemma_quarter(3 * old, rest * old);
        let p = fit(quarter * ratio, one, 0)->0;
        let q = fit(rest * old, one, 0)->0;
        lemma_units_representable(p + q);
        lemma_fit_exact(p + q, 1, p + q);
    }
}

/// A quarter of a small number of units is rounded to the nearest unit.
proof fn lemma_quarter(n: int, num: int)
    requires
        0 <= n,
        n <= 4 * (LIMIT - 2),
        4 * num == ONE * n,
    ensures
        fit(num, ONE as int, 0) matches Some(r) && 0 <= r && -2 <= 4 * r - n <= 2 && (n % 4 == 0
            ==> 4 * r == n),
{
    let one = ONE as int;
    assert(0 <= num <= one * (LIMIT - 1)) by (nonlinear_arith)
        requires
            0 <= n,
            n <= 4 * (LIMIT - 2),
            4 * num == one * n,
            one > 0,
    ;
    lemma_fit_near(num, one);
    let r = fit(num, one, 0)->0;
    assert(2 * (2 * r - 1) <= n <= 2 * (2 * r + 1)) by (nonlinear_arith)
        requires
            (2 * r - 1) * one <= 2 * num,
            2 * num <= (2 * r + 1) * one,
            4 * num == one * n,
            one > 0,
    ;
    if n % 4 == 0 {
        let k = n / 4;
        lemma_units_representable(k);
        assert(num == one * k) by (nonlinear_arith)
            requires
                4 * num == one * n,
                n == 4 * k,
        ;
        lemma_fit_exact(num, one, k);
    }
}

/// How a score ages: one that never had a fill stays as it is, with the neutral
/// score in place of zero. Any other is drawn toward the neutral score, of which the
/// share `factor` of its distance is left once a whole second has gone by and all of it
/// before. The time of the change is the new one. Where the score is not large, the
/// distance that is left is rounded to the nearest unit.
pub proof fn law_how_scores_age(score: Score, now: Moment, factor: int)
    requires
        representable(score.value),
        score.value >= 0,
        0 <= factor <= ONE,
    ensures
        score.updated is None ==> decayed(score, now, factor) == Some(
            Score {
                value: if score.value == 0 {
                    5_000_000_000_000_000_000_000_000_000
                } else {
                    score.value
                },
                updated: None,
            },
        ),
        score.updated matches Some(at) ==> (decayed(score, now, factor) matches Some(aged) && {
            let left = if now.nanos_since(at) >= 1_000_000_000 {
                factor
            } else {
                ONE as int
            };
            let far = score.value - 5_000_000_000_000_000_000_000_000_000;
            let near = aged.value - 5_000_000_000_000_000_000_000_000_000;
            &&& aged.updated == Some(now)
            &&& Some(aged.value) == sum(
                Some(5_000_000_000_000_000_000_000_000_000),
                product(
                    difference(
                        Some(score.value),
                        Some(5_000_000_000_000_000_000_000_000_000),
                    ),
                    Some(left),
                ),
            )
            &&& score.value < LIMIT - 1 ==> (2 * near - 1) * ONE <= 2 * (far * left) <= (2 * near
                + 1) * ONE
        }),
{
    lemma_pow10_values();
    let one = ONE as int;
    let n = neutral();
    law_score_moves_to_neutral(score.value, factor);
    law_score_moves_to_neutral(score.value, one);
    if let Some(at) = score.updated {
        let span = now.nanos_since(at);
        assert(score.age(now) == 0 <==> span < 1_000_000_000);
        let left = if span >= 1_000_000_000 {
            factor
        } else {
            one
        };
        if score.value < LIMIT - 1 {
            let d = score.value - n;
            let size = magnitude(d);
            lemma_units_representable(d);
            lemma_fit_exact(d, 1, d);
            assert(0 <= size * left <= one * (LIMIT - 1)) by (nonlinear_arith)
                requires
                    0 <= size <= LIMIT - 1,
                    0 <= left <= one,
            ;
            lemma_fit_near(size * left, one);
            lemma_fit_negated(size * left, one, 0);
            assert((-size) * left == -(size * left)) by (nonlinear_arith);
            let r = fit(size * left, one, 0)->0;
            assert(r <= size) by (nonlinear_arith)
                requires
                    (2 * r - 1) * one <= 2 * (size * left),
                    0 <= left <= one,
                    one > 0,
                    size >= 0,
            ;
            let p = fit(d * left, one, 0)->0;
            assert(d * left == (if d < 0 {
                -(size * left)
            } else {
                size * left
            }));
            assert(p == (if d < 0 {
                -r
            } else {
                r
            }));
            lemma_units_representable(n + p);
            lemma_fit_exact(n + p, 1, n + p);
            assert((2 * p - 1) * one <= 2 * (d * left) <= (2 * p + 1) * one) by (nonlinear_arith)
                requires
                    (2 * r - 1) * one <= 2 * (size * left),
                    2 * (size * left) <= (2 * r + 1) * one,
                    (d * left == size * left && p == r) || (d * left == -(size * left) && p == -r),
            ;
        }
    }
}

/// The age of a score is the number of whole seconds since its last change, and zero
/// where there was none or it lies ahead.
pub proof fn law_age_counts_whole_seconds(score: Score, now: Moment, n: int)
    requires
        n > 0,
    ensures
        score.age(now) >= 0,
        score.updated is None ==> score.age(now) == 0,
        score.updated matches Some(at) ==> (score.age(now) >= n <==> now.nanos_since(at) >= n
            * 1_000_000_000),
{
}

/// The adverse move of a fill is the part of its price by which the price has fallen
/// for a buyer, or risen for a seller, in basis points. It is exact where these are
/// decimals, and else rounded with the quotient and the product. A fill without a price
/// has none, and nor has one that the price has moved in favour of.
pub proof fn law_adverse_move_in_basis_points(
    side: Side,
    fill_price: int,
    moved: int,
    share: int,
    up: bool,
)
    ensures
        fill_price <= 0 ==> adverse_move(side, fill_price, moved, up) == Some(0int),
        fill_price > 0 && moved >= 0 && representable(moved) && representable(share)
            && representable(10_000 * share) && share * fill_price == moved * ONE ==> adverse_move(
            Side::Bid,
            fill_price,
            fill_price - moved,
            up,
        ) == Some(10_000 * share) && adverse_move(
            Side::Ask,
            fill_price,
            fill_price + moved,
            up,
        ) == Some(10_000 * share),
        fill_price > 0 && moved <= 0 && representable(moved) && quotient(
            Some(moved),
            Some(fill_price),
            up,
        ) is Some ==> adverse_move(Side::Bid, fill_price, fill_price - moved, up) == Some(0int)
            && adverse_move(Side::Ask, fill_price, fill_price + moved, up) == Some(0int),
        fill_price > 0 && moved >= 0 ==> adverse_move(
            Side::Bid,
            fill_price,
            fill_price - moved,
            up,
        ) == product(
            quotient(fit(moved, 1, 0), Some(fill_price), up),
            Some(100_000_000_000_000_000_000_000_000_000_000),
        ),
        fill_price > 0 ==> adverse_move(Side::Bid, fill_price, fill_price - moved, up)
            == adverse_move(Side::Ask, fill_price, fill_price + moved, up),
{
    lemma_pow10_values();
    let one = ONE as int;
    let k = dec(10_000, 0);
    assert(k == 10_000 * one);
    assert(fill_price - (fill_price - moved) == moved);
    assert((fill_price + moved) - fill_price == moved);
    if fill_price > 0 {
        let seen = fit(moved, 1, 0);
        if seen is Some {
            lemma_fit_sign(moved, 1, 0);
            lemma_quotient_sign(seen->0, fill_price, up);
        }
        if representable(moved) {
            lemma_fit_exact(moved, 1, moved);
            if moved <= 0 {
                lemma_quotient_sign(moved, fill_price, up);
                lemma_units_representable(0);
                assert(0 * k == one * 0) by (nonlinear_arith);
                lemma_fit_exact(0, one, 0);
            }
            if moved >= 0 && representable(share) && representable(10_000 * share) && share
                * fill_price == moved * ONE {
                assert(moved * one == fill_price * share) by (nonlinear_arith)
                    requires
                        share * fill_price == moved * one,
                ;
                lemma_quotient_exact(moved, fill_price, share, up);
                assert(share >= 0) by (nonlinear_arith)
                    requires
                        share * fill_price == moved * one,
                        moved >= 0,
                        fill_price > 0,
                        one > 0,
                ;
                assert(share * k == one * (10_000 * share)) by (nonlinear_arith)
                    requires
                        k == 10_000 * one,
                ;
                lemma_fit_exact(share * k, one, 10_000 * share);
            }
        }
    }
}

/// The toxicity ratio of a fill is what has to be multiplied with the spread that it
/// earned to give its adverse move. No spread counts less than a millionth of a basis
/// point.
pub proof fn law_ratio_measures_against_the_spread(
    fill: PendingFill,
    observed: int,
    ups: Halves,
    adverse: int,
    ratio: int,
)
    requires
        adverse_move(fill.level.side, fill.price, observed, ups.moved) == Some(adverse),
    ensures
        fill.spread >= 10_000_000_000_000_000_000_000 ==> toxicity_ratio(fill, observed, ups)
            == quotient(Some(adverse), Some(fill.spread), ups.ratio),
        fill.spread < 10_000_000_000_000_000_000_000 ==> toxicity_ratio(fill, observed, ups)
            == quotient(Some(adverse), Some(10_000_000_000_000_000_000_000), ups.ratio),
        fill.spread >= 10_000_000_000_000_000_000_000 && representable(ratio) && ratio
            * fill.spread == adverse * ONE ==> toxicity_ratio(fill, observed, ups) == Some(ratio),
{
    lemma_pow10_values();
    let spread = fill.spread;
    if ratio * spread == adverse * ONE {
        assert(adverse * ONE == spread * ratio) by (nonlinear_arith)
            requires
                ratio * spread == adverse * ONE,
        ;
        if spread >= 10_000_000_000_000_000_000_000 && representable(ratio) {
            lemma_quotient_exact(adverse, spread, ratio, ups.ratio);
        }
    }
}

/// A positive price of a symbol scores the fills of that symbol that are at least
/// fifteen seconds old, and lets all others wait, in their order. A price that is not
/// positive changes nothing.
pub proof fn law_fills_wait_for_fifteen_seconds(
    fills: Fills,
    symbol: Seq<char>,
    observed: int,
    now: Moment,
    factors: Seq<int>,
    ups: spec_fn(nat) -> Halves,
)
    ensures
        observed <= 0 ==> after_price(fills, symbol, observed, now, factors, ups) == Some(fills),
        observed > 0 ==> after_price(fills, symbol, observed, now, factors, ups) == (
        match after_fills(
            fills.scores,
            fills.pending.filter(
                |fill: PendingFill|
                    fill.level.symbol == symbol && now.nanos_since(fill.at) >= 15_000_000_000,
            ),
            observed,
            now,
            factors,
            ups,
        ) {
            Some(scores) => Some(
                Fills {
                    pending: fills.pending.filter(
                        |fill: PendingFill|
                            fill.level.symbol != symbol || now.nanos_since(fill.at)
                                < 15_000_000_000,
                    ),
                    scores,
                },
            ),
            None => None,
        }),
{
    assert(is_due(symbol, now) =~= (|fill: PendingFill|
        fill.level.symbol == symbol && now.nanos_since(fill.at) >= 15_000_000_000));
    assert(is_not_due(symbol, now) =~= (|fill: PendingFill|
        fill.level.symbol != symbol || now.nanos_since(fill.at) < 15_000_000_000));
}

/// Fills are scored one after the other: the last one meets the scores that the others
/// have left. Without a fill the scores stay.
pub proof fn law_fills_are_scored_in_turn(
    scores: Seq<(Level, Score)>,
    fills: Seq<PendingFill>,
    fill: PendingFill,
    observed: int,
    now: Moment,
    factors: Seq<int>,
    ups: spec_fn(nat) -> Halves,
)
    ensures
        after_fills(scores, Seq::empty(), observed, now, factors, ups) == Some(scores),
        after_fills(scores, fills.push(fill), observed, now, factors, ups) == (match after_fills(
            scores,
            fills,
            observed,
            now,
            factors,
            ups,
        ) {
            Some(left) => after_fills(
                left,
                seq![fill],
                observed,
                now,
                factors,
                |n: nat| ups(fills.len() + 1),
            ),
            None => None,
        }),
{
    reveal_with_fuel(after_fills, 2);
    assert(fills.push(fill).drop_last() =~= fills);
    assert(seq![fill].drop_last() =~= Seq::<PendingFill>::empty());
}

/// A fill changes the score of its own level alone, in its place: it takes the fill's
/// toxicity ratio in, with the factor that stands at that place, or none of its
/// distance lost where there is no factor. A level without a score gets the ratio as
/// its score, behind all others.
pub proof fn law_fill_is_scored_on_its_level(
    scores: Seq<(Level, Score)>,
    fill: PendingFill,
    observed: int,
    now: Moment,
    factors: Seq<int>,
    ups: Halves,
    i: int,
    ratio: int,
)
    requires
        toxicity_ratio(fill, observed, ups) == Some(ratio),
        0 <= i <= scores.len(),
        forall|j: int| 0 <= j < i ==> (#[trigger] scores[j]).0 != fill.level,
        i < scores.len() ==> scores[i].0 == fill.level,
    ensures
        i == scores.len() ==> after_fill(scores, fill, observed, now, factors, ups) == Some(
            scores.push((fill.level, Score { value: ratio, updated: Some(now) })),
        ),
        i < scores.len() ==> after_fill(scores, fill, observed, now, factors, ups) == (
        match applied(
            scores[i].1,
            ratio,
            now,
            if i < factors.len() {
                factors[i]
            } else {
                ONE as int
            },
        ) {
            Some(score) => Some(scores.update(i, (fill.level, score))),
            None => None,
        }),
{
    lemma_slot_is_first(scores, fill.level, i);
}

proof fn lemma_slot_is_first(scores: Seq<(Level, Score)>, level: Level, i: int)
    requires
        0 <= i <= scores.len(),
        forall|j: int| 0 <= j < i ==> (#[trigger] scores[j]).0 != level,
        i < scores.len() ==> scores[i].0 == level,
    ensures
        slot(scores, level) == i,
    decreases scores.len(),
{
    if i > 0 {
        let rest = scores.drop_first();
        assert(scores[0].0 != level);
        assert forall|j: int| 0 <= j < i - 1 implies (#[trigger] rest[j]).0 != level by {
            assert(rest[j] == scores[j + 1]);
        }
        lemma_slot_is_first(rest, level, i - 1);
    }
}

/// The toxicity of a level is the value of its score, and a half where it has none.
pub proof fn law_toxicity_of_a_level(scores: Seq<(Level, Score)>, level: Level, i: int)
    requires
        0 <= i <= scores.len(),
        forall|j: int| 0 <= j < i ==> (#[trigger] scores[j]).0 != level,
        i < scores.len() ==> scores[i].0 == level,
    ensures
        i < scores.len() ==> toxicity_of(scores, level) == scores[i].1.value,
        i == scores.len() ==> toxicity_of(scores, level)
            == 5_000_000_000_000_000_000_000_000_000,
{
    lemma_pow10_values();
    lemma_slot_is_first(scores, level, i);
}

/// The curve of the multipliers: up to a score of a half the multiplier and the score
/// add up to one and a half, from there to a score of one and a half it falls by half of
/// what the score grows, rounded to a unit, and beyond that it is a half.
pub proof fn law_volume_multiplier_curve(score: int)
    requires
        score >= 0,
    ensures
        score <= 5_000_000_000_000_000_000_000_000_000 ==> volume_multiplier(score) + score
            == 15_000_000_000_000_000_000_000_000_000,
        5_000_000_000_000_000_000_000_000_000 <= score
            <= 15_000_000_000_000_000_000_000_000_000 ==> -1 <= 2 * (
        10_000_000_000_000_000_000_000_000_000 - volume_multiplier(score)) - (score
            - 5_000_000_000_000_000_000_000_000_000) <= 1,
        score >= 15_000_000_000_000_000_000_000_000_000 ==> volume_multiplier(score)
            == 5_000_000_000_000_000_000_000_000_000,
{
    lemma_pow10_values();
    if score >= 15_000_000_000_000_000_000_000_000_000 {
        law_volume_multiplier_points(score);
    }
}

/// A price that scores one fill of a level with a score moves that score a quarter of
/// the way from what it has aged to toward the ratio of the fill: a fill that was less
/// toxic lowers it, and a fill that was more toxic raises it.
pub proof fn law_price_moves_the_score_of_a_fill(
    fills: Fills,
    fill: PendingFill,
    observed: int,
    now: Moment,
    factors: Seq<int>,
    ups: spec_fn(nat) -> Halves,
    i: int,
    ratio: int,
    aged: Score,
)
    requires
        observed > 0,
        fills.pending == seq![fill],
        now.nanos_since(fill.at) >= 15_000_000_000,
        toxicity_ratio(fill, observed, ups(1)) == Some(ratio),
        0 <= i < fills.scores.len(),
        i < factors.len(),
        forall|j: int| 0 <= j < i ==> (#[trigger] fills.scores[j]).0 != fill.level,
        fills.scores[i].0 == fill.level,
        fills.scores[i].1.updated is Some,
        decayed(fills.scores[i].1, now, factors[i]) == Some(aged),
        ratio >= 0,
        aged.value > 0,
        ratio + 3 * aged.value <= 4 * (LIMIT - 2),
    ensures
        after_price(fills, fill.level.symbol, observed, now, factors, ups) matches Some(next) && {
            let score = toxicity_of(next.scores, fill.level);
            &&& next.pending.len() == 0
            &&& -4 <= 4 * score - (ratio + 3 * aged.value) <= 4
            &&& ratio + 4 < aged.value ==> score < aged.value
            &&& aged.value + 4 < ratio ==> aged.value < score
        },
{
    reveal_with_fuel(after_fills, 2);
    reveal_with_fuel(Seq::filter, 3);
    let symbol = fill.level.symbol;
    assert(fills.pending.drop_last() =~= Seq::<PendingFill>::empty());
    assert(fills.pending.filter(is_due(symbol, now)) =~= seq![fill]);
    assert(seq![fill].drop_last() =~= Seq::<PendingFill>::empty());
    law_fill_is_scored_on_its_level(
        fills.scores,
        fill,
        observed,
        now,
        factors,
        ups(1),
        i,
        ratio,
    );
    law_fill_moves_score_a_quarter(fills.scores[i].1, ratio, now, factors[i], aged);
    let score = applied(fills.scores[i].1, ratio, now, factors[i])->0;
    let after = fills.scores.update(i, (fill.level, score));
    assert forall|j: int| 0 <= j < i implies (#[trigger] after[j]).0 != fill.level by {
        assert(after[j] == fills.scores[j]);
    }
    law_toxicity_of_a_level(after, fill.level, i);
}

/// A fill whose toxicity ratio is out of range leaves no scores, nor does a list of
/// fills of which one leaves none.
pub proof fn law_fills_out_of_range(
    scores: Seq<(Level, Score)>,
    fills: Seq<PendingFill>,
    fill: PendingFill,
    observed: int,
    now: Moment,
    factors: Seq<int>,
    ups: spec_fn(nat) -> Halves,
)
    ensures
        toxicity_ratio(fill, observed, ups(fills.len() + 1)) is None ==> after_fills(
            scores,
            fills.push(fill),
            observed,
            now,
            factors,
            ups,
        ) is None,
        after_fills(scores, fills, observed, now, factors, ups) is None ==> after_fills(
            scores,
            fills.push(fill),
            observed,
            now,
            factors,
            ups,
        ) is None,
        adverse_move(
            fill.level.side,
            fill.price,
            observed,
            ups(fills.len() + 1).moved,
        ) is None ==> toxicity_ratio(fill, observed, ups(fills.len() + 1)) is None,
        fill.price > 0 && fill.level.side == Side::Bid && difference(
            Some(fill.price),
            Some(observed),
        ) is None ==> toxicity_ratio(fill, observed, ups(fills.len() + 1)) is None,
        fill.price > 0 && fill.level.side == Side::Ask && difference(
            Some(observed),
            Some(fill.price),
        ) is None ==> toxicity_ratio(fill, observed, ups(fills.len() + 1)) is None,
{
    assert(fills.push(fill).drop_last() =~= fills);
}

} // verus!
