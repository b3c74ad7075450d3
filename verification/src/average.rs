//! Weighted averages of decimals.
use vstd::prelude::*;

use crate::decimal::{difference, minus, plus, product, sum, times, value, Decimal, ONE};
use crate::rounding::{
    lemma_fit_above, lemma_fit_below, lemma_fit_exact, lemma_fit_sign, lemma_units_representable,
};

verus! {

/// The weighted sum of a new and an old number.
pub open spec fn blend(
    new_weight: Option<int>,
    new: Option<int>,
    old_weight: Option<int>,
    old: Option<int>,
) -> Option<int> {
    sum(product(new_weight, new), product(old_weight, old))
}

/// A moving average that gives the new number the weight `alpha`.
pub open spec fn ewma(alpha: int, new: Option<int>, old: int) -> Option<int> {
    blend(Some(alpha), new, difference(Some(ONE as int), Some(alpha)), Some(old))
}

/// The weighted sum of a new and an old number.
pub(crate) fn weighted(
    new_weight: Option<Decimal>,
    new: Option<Decimal>,
    old_weight: Option<Decimal>,
    old: Option<Decimal>,
) -> (r: Option<Decimal>)
    ensures
        value(r) == blend(value(new_weight), value(new), value(old_weight), value(old)),
{
    plus(times(new_weight, new), times(old_weight, old))
}

/// A moving average that gives the new number the weight `alpha`.
pub(crate) fn averaged(alpha: Decimal, new: Decimal, old: Decimal) -> (r: Option<Decimal>)
    ensures
        value(r) == ewma(alpha@, Some(new@), old@),
{
    weighted(Some(alpha), Some(new), minus(Some(Decimal::one()), Some(alpha)), Some(old))
}

/// A product with a weight of up to one is no larger than the weight, where the
/// other factor is no larger than one.
proof fn lemma_weighted(weight: int, number: int)
    requires
        0 <= weight <= ONE,
        -ONE <= number <= ONE,
    ensures
        product(Some(weight), Some(number)) matches Some(r) && -weight <= r <= weight && (number
            >= 0 ==> r >= 0),
{
    let one = ONE as int;
    lemma_units_representable(weight);
    lemma_units_representable(-weight);
    if number >= 0 {
        assert(0 <= weight * number <= one * weight) by (nonlinear_arith)
            requires
                0 <= weight,
                0 <= number <= one,
        ;
        lemma_fit_below(weight * number, one, weight);
    } else {
        assert(one * (-weight) <= weight * number <= 0) by (nonlinear_arith)
            requires
                0 <= weight,
                -one <= number <= 0,
        ;
        lemma_fit_above(weight * number, one, -weight);
    }
}

/// The weighted sum of two numbers from -1 to 1 is such a number, where the
/// weights are not negative and are no more than one together.
pub proof fn lemma_blend_in_bounds(new_weight: int, new: int, old_weight: int, old: int)
    requires
        0 <= new_weight,
        0 <= old_weight,
        new_weight + old_weight <= ONE,
        -ONE <= new <= ONE,
        -ONE <= old <= ONE,
    ensures
        blend(Some(new_weight), Some(new), Some(old_weight), Some(old)) matches Some(r) && -ONE <= r
            <= ONE && (new >= 0 && old >= 0 ==> r >= 0),
{
    lemma_weighted(new_weight, new);
    lemma_weighted(old_weight, old);
    let a = product(Some(new_weight), Some(new))->0;
    let b = product(Some(old_weight), Some(old))->0;
    lemma_units_representable(a + b);
    lemma_fit_exact(a + b, 1, a + b);
}

/// A moving average with a weight from zero to one of numbers from -1 to 1 is
/// such a number.
pub proof fn lemma_ewma_in_bounds(alpha: int, new: int, old: int)
    requires
        0 <= alpha <= ONE,
        -ONE <= new <= ONE,
        -ONE <= old <= ONE,
    ensures
        ewma(alpha, Some(new), old) matches Some(r) && -ONE <= r <= ONE,
{
    let one = ONE as int;
    lemma_units_representable(one - alpha);
    lemma_fit_exact(one - alpha, 1, one - alpha);
    lemma_blend_in_bounds(alpha, new, one - alpha, old);
}

/// A moving average with a weight from zero to one of numbers that are not
/// negative is not negative.
pub proof fn lemma_ewma_not_negative(alpha: int, new: int, old: int)
    requires
        0 <= alpha <= ONE,
        0 <= new,
        0 <= old,
    ensures
        ewma(alpha, Some(new), old) matches Some(r) ==> r >= 0,
{
    let one = ONE as int;
    let beta = one - alpha;
    lemma_units_representable(beta);
    lemma_fit_exact(beta, 1, beta);
    assert(alpha * new >= 0) by (nonlinear_arith)
        requires
            alpha >= 0,
            new >= 0,
    ;
    assert(beta * old >= 0) by (nonlinear_arith)
        requires
            beta >= 0,
            old >= 0,
    ;
    lemma_fit_sign(alpha * new, one, 0);
    lemma_fit_sign(beta * old, one, 0);
    let a = product(Some(alpha), Some(new));
    let b = product(Some(beta), Some(old));
    if a is Some && b is Some {
        lemma_fit_sign(a->0 + b->0, 1, 0);
    }
}

} // verus!
