//! What rounding to a decimal keeps: signs, order against a decimal, and
//! decimals themselves. And that roots are not negative.
use vstd::prelude::*;

use crate::decimal::{
    dec, first_guess, fit, fit_toward, half_even, lemma_pow10_positive, lemma_pow10_values,
    magnitude, nearest, negated, next_guess, pow10, product, quotient, representable, root_of,
    settled_guess, sum, LIMIT, MAX_SCALE, ONE,
};

verus! {

pub proof fn lemma_pow10_split(a: nat, b: nat)
    ensures
        pow10(a + b) == pow10(a) * pow10(b),
    decreases a,
{
    if a > 0 {
        lemma_pow10_split((a - 1) as nat, b);
        let x = pow10((a - 1) as nat);
        let y = pow10(b);
        assert(10 * (x * y) == (10 * x) * y) by (nonlinear_arith);
        assert((a + b - 1) as nat == (a - 1) as nat + b);
    }
}

/// Rounding to a whole number keeps the order against a whole number.
proof fn lemma_nearest_order(num: int, den: int, up: bool, k: int)
    requires
        den > 0,
    ensures
        num <= k * den ==> nearest(num, den, up) <= k,
        num >= k * den ==> nearest(num, den, up) >= k,
{
    let q = num / den;
    let r = num % den;
    assert(num == q * den + r && 0 <= r < den) by (nonlinear_arith)
        requires
            den > 0,
            q == num / den,
            r == num % den,
    ;
    if num <= k * den {
        assert(q < k || (q == k && r == 0)) by (nonlinear_arith)
            requires
                den > 0,
                0 <= r < den,
                q * den + r <= k * den,
        ;
    }
    if num >= k * den {
        assert(q >= k) by (nonlinear_arith)
            requires
                den > 0,
                0 <= r < den,
                q * den + r >= k * den,
        ;
    }
}

/// Which numbers are rounded to `k` or more.
proof fn lemma_nearest_from(num: int, den: int, up: bool, k: int)
    requires
        den > 0,
    ensures
        nearest(num, den, up) >= k ==> 2 * num >= (2 * k - 1) * den,
        2 * num > (2 * k - 1) * den ==> nearest(num, den, up) >= k,
{
    let q = num / den;
    let r = num % den;
    assert(num == q * den + r && 0 <= r < den) by (nonlinear_arith)
        requires
            den > 0,
            q == num / den,
            r == num % den,
    ;
    if q >= k {
        assert(2 * num >= (2 * k - 1) * den) by (nonlinear_arith)
            requires
                den > 0,
                q >= k,
                num == q * den + r,
                0 <= r,
        ;
    } else if q == k - 1 {
        assert(2 * num == (2 * k - 2) * den + 2 * r) by (nonlinear_arith)
            requires
                num == q * den + r,
                q == k - 1,
        ;
        assert((2 * k - 1) * den == (2 * k - 2) * den + den) by (nonlinear_arith);
    } else {
        assert(2 * num <= (2 * k - 1) * den) by (nonlinear_arith)
            requires
                den > 0,
                q <= k - 2,
                num == q * den + r,
                r < den,
        ;
    }
}

/// Rounding to a whole number keeps the order of two numbers.
proof fn lemma_nearest_monotone(low: int, high: int, den: int, up: bool)
    requires
        den > 0,
        low <= high,
    ensures
        nearest(low, den, up) <= nearest(high, den, up),
{
    let a = low / den;
    let b = high / den;
    assert(low == a * den + low % den && 0 <= low % den < den) by (nonlinear_arith)
        requires
            den > 0,
            a == low / den,
    ;
    assert(high == b * den + high % den && 0 <= high % den < den) by (nonlinear_arith)
        requires
            den > 0,
            b == high / den,
    ;
    let r = low % den;
    let t = high % den;
    assert(a <= b) by (nonlinear_arith)
        requires
            den > 0,
            a * den + r <= b * den + t,
            0 <= r,
            t < den,
    ;
    if a == b {
        assert(r <= t);
    }
}

/// Rounding half to even keeps the order of two numbers.
pub proof fn lemma_half_even_monotone(low: int, high: int, den: int)
    requires
        den > 0,
        low <= high,
    ensures
        half_even(low, den) <= half_even(high, den),
{
    lemma_nearest_monotone(low, high, den, false);
}

proof fn lemma_half_even_negated(num: int, den: int)
    requires
        den > 0,
    ensures
        half_even(-num, den) == -half_even(num, den),
{
    let q = num / den;
    let r = num % den;
    assert(num == q * den + r && 0 <= r < den) by (nonlinear_arith)
        requires
            den > 0,
            q == num / den,
            r == num % den,
    ;
    if r == 0 {
        assert((-num) / den == -q && (-num) % den == 0) by (nonlinear_arith)
            requires
                den > 0,
                num == q * den,
        ;
    } else {
        assert((-num) / den == -q - 1 && (-num) % den == den - r) by (nonlinear_arith)
            requires
                den > 0,
                0 < r < den,
                num == q * den + r,
        ;
    }
}

proof fn lemma_scaled_den(den: int, dropped: nat)
    requires
        den > 0,
    ensures
        den * pow10(dropped) > 0,
{
    lemma_pow10_positive(dropped);
    let p = pow10(dropped);
    assert(den * p > 0) by (nonlinear_arith)
        requires
            den > 0,
            p > 0,
    ;
}

/// Rounding a number and the number with the other sign gives results that
/// differ in their sign alone.
pub proof fn lemma_fit_negated(num: int, den: int, dropped: nat)
    requires
        den > 0,
        dropped <= MAX_SCALE,
    ensures
        fit(-num, den, dropped) == (match fit(num, den, dropped) {
            Some(r) => Some(-r),
            None => None,
        }),
    decreases MAX_SCALE - dropped,
{
    lemma_scaled_den(den, dropped);
    lemma_half_even_negated(num, den * pow10(dropped));
    let m = half_even(num, den * pow10(dropped));
    let p = pow10(dropped);
    assert((-m) * p == -(m * p)) by (nonlinear_arith);
    if dropped < MAX_SCALE {
        lemma_fit_negated(num, den, dropped + 1);
    }
}

/// Rounding keeps the sign, or gives zero.
proof fn lemma_toward_sign(num: int, den: int, dropped: nat, up: bool)
    requires
        den > 0,
        dropped <= MAX_SCALE,
    ensures
        fit_toward(num, den, dropped, up) matches Some(r) ==> (num >= 0 ==> r >= 0) && (num <= 0
            ==> r <= 0),
    decreases MAX_SCALE - dropped,
{
    lemma_scaled_den(den, dropped);
    lemma_pow10_positive(dropped);
    lemma_nearest_order(num, den * pow10(dropped), up && dropped > 0, 0);
    let m = nearest(num, den * pow10(dropped), up && dropped > 0);
    let p = pow10(dropped);
    assert((m >= 0 ==> m * p >= 0) && (m <= 0 ==> m * p <= 0)) by (nonlinear_arith)
        requires
            p > 0,
    ;
    if dropped < MAX_SCALE {
        lemma_toward_sign(num, den, dropped + 1, up);
    }
}

/// Rounding keeps the sign, or gives zero.
pub proof fn lemma_fit_sign(num: int, den: int, dropped: nat)
    requires
        den > 0,
        dropped <= MAX_SCALE,
    ensures
        fit(num, den, dropped) matches Some(r) ==> (num >= 0 ==> r >= 0) && (num <= 0 ==> r <= 0),
{
    lemma_toward_sign(num, den, dropped, false);
}

/// A rounded number is a decimal.
proof fn lemma_toward_representable(num: int, den: int, dropped: nat, up: bool)
    requires
        dropped <= MAX_SCALE,
    ensures
        fit_toward(num, den, dropped, up) matches Some(r) ==> representable(r),
    decreases MAX_SCALE - dropped,
{
    let m = nearest(num, den * pow10(dropped), up && dropped > 0);
    if -LIMIT < m < LIMIT {
        assert((MAX_SCALE - (MAX_SCALE - dropped) as nat) as nat == dropped);
        assert(m * pow10(dropped) == dec(m, (MAX_SCALE - dropped) as nat));
    } else if dropped < MAX_SCALE {
        lemma_toward_representable(num, den, dropped + 1, up);
    }
}

/// A rounded number is a decimal.
pub proof fn lemma_fit_representable(num: int, den: int, dropped: nat)
    requires
        dropped <= MAX_SCALE,
    ensures
        fit(num, den, dropped) matches Some(r) ==> representable(r),
{
    lemma_toward_representable(num, den, dropped, false);
}

proof fn lemma_toward_below_from(
    num: int,
    den: int,
    mantissa: int,
    extra: nat,
    dropped: nat,
    up: bool,
)
    requires
        den > 0,
        0 <= mantissa < LIMIT,
        dropped <= extra <= MAX_SCALE,
        0 <= num <= den * (mantissa * pow10(extra)),
    ensures
        fit_toward(num, den, dropped, up) matches Some(r) && 0 <= r <= mantissa * pow10(extra),
    decreases extra - dropped,
{
    let rest = (extra - dropped) as nat;
    lemma_pow10_split(dropped, rest);
    lemma_scaled_den(den, dropped);
    lemma_pow10_positive(dropped);
    lemma_pow10_positive(rest);
    let p = pow10(dropped);
    let q = pow10(rest);
    let k = mantissa * q;
    assert(den * (mantissa * (p * q)) == k * (den * p)) by (nonlinear_arith)
        requires
            k == mantissa * q,
    ;
    assert(mantissa * (p * q) == k * p) by (nonlinear_arith)
        requires
            k == mantissa * q,
    ;
    lemma_nearest_order(num, den * p, up && dropped > 0, k);
    lemma_nearest_order(num, den * p, up && dropped > 0, 0);
    let m = nearest(num, den * p, up && dropped > 0);
    assert(0 <= m * p <= k * p) by (nonlinear_arith)
        requires
            0 <= m <= k,
            p > 0,
    ;
    if m >= LIMIT {
        if dropped == extra {
            assert(q == 1);
            assert(k == mantissa) by (nonlinear_arith)
                requires
                    k == mantissa * q,
                    q == 1,
            ;
            assert(false);
        }
        lemma_toward_below_from(num, den, mantissa, extra, dropped + 1, up);
    }
}

proof fn lemma_toward_below(num: int, den: int, bound: int, up: bool)
    requires
        den > 0,
        representable(bound),
        0 <= num <= den * bound,
    ensures
        fit_toward(num, den, 0, up) matches Some(r) && 0 <= r <= bound,
{
    let (mantissa, scale) = choose|mantissa: int, scale: nat|
        -LIMIT < mantissa < LIMIT && scale <= MAX_SCALE && bound == #[trigger] dec(mantissa, scale);
    let extra = (MAX_SCALE - scale) as nat;
    lemma_pow10_positive(extra);
    let p = pow10(extra);
    assert(mantissa >= 0) by (nonlinear_arith)
        requires
            den > 0,
            p > 0,
            0 <= den * (mantissa * p),
    ;
    lemma_toward_below_from(num, den, mantissa, extra, 0, up);
}

/// A number from zero up to a decimal is rounded to one from zero up to that
/// decimal.
pub proof fn lemma_fit_below(num: int, den: int, bound: int)
    requires
        den > 0,
        representable(bound),
        0 <= num <= den * bound,
    ensures
        fit(num, den, 0) matches Some(r) && 0 <= r <= bound,
{
    lemma_toward_below(num, den, bound, false);
}

/// A number from a decimal that is not positive up to zero is rounded to one
/// from that decimal up to zero.
pub proof fn lemma_fit_above(num: int, den: int, bound: int)
    requires
        den > 0,
        representable(bound),
        den * bound <= num <= 0,
    ensures
        fit(num, den, 0) matches Some(r) && bound <= r <= 0,
{
    lemma_representable_negated(bound);
    assert(den * (-bound) == -(den * bound)) by (nonlinear_arith);
    lemma_fit_below(-num, den, -bound);
    lemma_fit_negated(num, den, 0);
}

pub proof fn lemma_representable_negated(units: int)
    requires
        representable(units),
    ensures
        representable(-units),
{
    let (mantissa, scale) = choose|mantissa: int, scale: nat|
        -LIMIT < mantissa < LIMIT && scale <= MAX_SCALE && units == #[trigger] dec(mantissa, scale);
    crate::decimal::lemma_dec_negated(mantissa, scale);
    assert(-units == dec(-mantissa, scale));
}

/// A number whose mantissa would be too large is rounded to a number that no
/// mantissa of so many digits reaches.
proof fn lemma_toward_past_limit(num: int, den: int, dropped: nat, up: bool)
    requires
        den > 0,
        dropped < MAX_SCALE,
        nearest(num, den * pow10(dropped), up && dropped > 0) >= LIMIT,
    ensures
        fit_toward(num, den, dropped + 1, up) matches Some(r) ==> r >= LIMIT * pow10(dropped),
    decreases MAX_SCALE - dropped,
{
    lemma_scaled_den(den, dropped);
    lemma_scaled_den(den, dropped + 1);
    lemma_pow10_positive(dropped);
    let p = pow10(dropped);
    let d = den * p;
    assert(pow10(dropped + 1) == 10 * p);
    assert(den * (10 * p) == 10 * d) by (nonlinear_arith)
        requires
            d == den * p,
    ;
    let limit = LIMIT as int;
    let k = (limit + 4) / 10;
    assert(10 * k == limit + 4);
    lemma_nearest_from(num, d, up && dropped > 0, limit);
    assert((2 * limit - 1) * d > (2 * k - 1) * (10 * d)) by (nonlinear_arith)
        requires
            10 * k == limit + 4,
            d > 0,
    ;
    lemma_nearest_from(num, 10 * d, up, k);
    let m = nearest(num, 10 * d, up);
    if m < limit {
        assert(m * (10 * p) >= limit * p) by (nonlinear_arith)
            requires
                m >= k,
                10 * k == limit + 4,
                p > 0,
        ;
    } else if dropped + 1 < MAX_SCALE {
        lemma_toward_past_limit(num, den, dropped + 1, up);
        assert(limit * (10 * p) >= limit * p) by (nonlinear_arith)
            requires
                limit > 0,
                p > 0,
        ;
    }
}

proof fn lemma_toward_order_from(low: int, high: int, den: int, dropped: nat, up: bool)
    requires
        den > 0,
        dropped <= MAX_SCALE,
        0 <= low <= high,
    ensures
        fit_toward(high, den, dropped, up) matches Some(r) ==> fit_toward(
            low,
            den,
            dropped,
            up,
        ) matches Some(s) && 0 <= s <= r,
    decreases MAX_SCALE - dropped,
{
    lemma_scaled_den(den, dropped);
    lemma_pow10_positive(dropped);
    let p = pow10(dropped);
    let d = den * p;
    lemma_nearest_monotone(low, high, d, up && dropped > 0);
    lemma_nearest_order(low, d, up && dropped > 0, 0);
    let a = nearest(low, d, up && dropped > 0);
    let b = nearest(high, d, up && dropped > 0);
    assert(0 <= a * p <= b * p) by (nonlinear_arith)
        requires
            0 <= a <= b,
            p > 0,
    ;
    if b >= LIMIT && dropped < MAX_SCALE {
        if a >= LIMIT {
            lemma_toward_order_from(low, high, den, dropped + 1, up);
        } else {
            lemma_toward_past_limit(high, den, dropped, up);
            let limit = LIMIT as int;
            assert(a * p <= limit * p) by (nonlinear_arith)
                requires
                    a <= limit,
                    p > 0,
            ;
        }
    }
}

/// Rounding keeps the order of two numbers that are not negative, and the
/// smaller is in range where the larger is.
pub proof fn lemma_fit_order(low: int, high: int, den: int)
    requires
        den > 0,
        0 <= low <= high,
    ensures
        fit(high, den, 0) matches Some(r) ==> fit(low, den, 0) matches Some(s) && 0 <= s <= r,
{
    lemma_toward_order_from(low, high, den, 0, false);
}

/// A number of so many digits before the point keeps none behind it.
pub proof fn lemma_fit_coarse(num: int, dropped: nat)
    requires
        dropped <= MAX_SCALE,
        num >= LIMIT * pow10(27),
    ensures
        fit(num, 1, dropped) == fit(num, 1, MAX_SCALE as nat),
    decreases MAX_SCALE - dropped,
{
    if dropped < MAX_SCALE {
        let rest = (27 - dropped) as nat;
        lemma_pow10_split(dropped, rest);
        lemma_pow10_positive(dropped);
        lemma_pow10_positive(rest);
        let p = pow10(dropped);
        let q = pow10(rest);
        let limit = LIMIT as int;
        assert(limit * (p * q) >= limit * (1 * p)) by (nonlinear_arith)
            requires
                limit > 0,
                p > 0,
                q >= 1,
        ;
        lemma_nearest_order(num, 1 * p, false, limit);
        lemma_fit_coarse(num, dropped + 1);
    }
}

/// Every whole number of units with a mantissa that is not too large is a
/// decimal.
pub proof fn lemma_units_representable(units: int)
    requires
        -LIMIT < units < LIMIT,
    ensures
        representable(units),
{
    assert(pow10(0) == 1);
    assert(units == dec(units, MAX_SCALE as nat));
}

proof fn lemma_toward_exact_from(den: int, mantissa: int, extra: nat, dropped: nat, up: bool)
    requires
        den > 0,
        -LIMIT < mantissa < LIMIT,
        dropped <= extra <= MAX_SCALE,
    ensures
        fit_toward(den * (mantissa * pow10(extra)), den, dropped, up) == Some(
            mantissa * pow10(extra),
        ),
    decreases extra - dropped,
{
    let rest = (extra - dropped) as nat;
    lemma_pow10_split(dropped, rest);
    lemma_scaled_den(den, dropped);
    let p = pow10(dropped);
    let q = pow10(rest);
    let k = mantissa * q;
    let num = den * (mantissa * pow10(extra));
    assert(num == k * (den * p)) by (nonlinear_arith)
        requires
            k == mantissa * q,
            num == den * (mantissa * (p * q)),
    ;
    assert(mantissa * (p * q) == k * p) by (nonlinear_arith)
        requires
            k == mantissa * q,
    ;
    lemma_nearest_order(num, den * p, up && dropped > 0, k);
    if dropped == extra {
        assert(k == mantissa) by (nonlinear_arith)
            requires
                k == mantissa * q,
                q == 1,
        ;
    } else {
        lemma_toward_exact_from(den, mantissa, extra, dropped + 1, up);
    }
}

proof fn lemma_toward_exact(num: int, den: int, units: int, up: bool)
    requires
        den > 0,
        representable(units),
        num == den * units,
    ensures
        fit_toward(num, den, 0, up) == Some(units),
{
    let (mantissa, scale) = choose|mantissa: int, scale: nat|
        -LIMIT < mantissa < LIMIT && scale <= MAX_SCALE && units == #[trigger] dec(mantissa, scale);
    lemma_toward_exact_from(den, mantissa, (MAX_SCALE - scale) as nat, 0, up);
}

/// A number that is a decimal is rounded to itself.
pub proof fn lemma_fit_exact(num: int, den: int, units: int)
    requires
        den > 0,
        representable(units),
        num == den * units,
    ensures
        fit(num, den, 0) == Some(units),
{
    lemma_toward_exact(num, den, units, false);
}

/// A quotient has the sign that its operands give it, or is zero.
pub proof fn lemma_quotient_sign(a: int, b: int, up: bool)
    requires
        b > 0,
    ensures
        quotient(Some(a), Some(b), up) matches Some(r) ==> (a >= 0 ==> r >= 0) && (a <= 0 ==> r
            <= 0),
{
    let size = magnitude(a);
    let num = size * ONE;
    assert(num >= 0) by (nonlinear_arith)
        requires
            size >= 0,
            num == size * 10_000_000_000_000_000_000_000_000_000,
    ;
    assert(a == 0 ==> num == 0);
    lemma_toward_sign(num, b, 0, up);
}

/// A quotient is no larger than a decimal where the operands say so, and then it
/// is in range.
pub proof fn lemma_quotient_within(a: int, b: int, bound: int, up: bool)
    requires
        b > 0,
        representable(bound),
        magnitude(a) * ONE <= b * bound,
    ensures
        quotient(Some(a), Some(b), up) matches Some(r) && -bound <= r <= bound,
{
    let size = magnitude(a);
    let num = size * ONE;
    assert(num >= 0) by (nonlinear_arith)
        requires
            size >= 0,
            num == size * 10_000_000_000_000_000_000_000_000_000,
    ;
    lemma_toward_below(num, b, bound, up);
}

/// A quotient that is a decimal is not rounded.
pub proof fn lemma_quotient_exact(a: int, b: int, units: int, up: bool)
    requires
        b > 0,
        representable(units),
        a * ONE == b * units,
    ensures
        quotient(Some(a), Some(b), up) == Some(units),
{
    let one = ONE as int;
    if a < 0 {
        lemma_representable_negated(units);
        assert((-a) * one == b * (-units)) by (nonlinear_arith)
            requires
                a * one == b * units,
        ;
        lemma_toward_exact((-a) * one, b, -units, up);
    } else {
        lemma_toward_exact(a * one, b, units, up);
    }
}

/// A quotient keeps the order of two dividends that are not negative, and that of
/// the smaller is in range where that of the larger is.
pub proof fn lemma_quotient_order(low: int, high: int, b: int, up: bool)
    requires
        b > 0,
        0 <= low <= high,
    ensures
        quotient(Some(high), Some(b), up) matches Some(r) ==> quotient(
            Some(low),
            Some(b),
            up,
        ) matches Some(s) && 0 <= s <= r,
{
    let one = ONE as int;
    assert(0 <= low * one <= high * one) by (nonlinear_arith)
        requires
            0 <= low <= high,
            one > 0,
    ;
    lemma_toward_order_from(low * one, high * one, b, 0, up);
}

proof fn lemma_toward_range(num: int, den: int, dropped: nat)
    requires
        num >= 0,
        den > 0,
        dropped <= MAX_SCALE,
    ensures
        fit_toward(num, den, dropped, true) is Some <==> fit_toward(
            num,
            den,
            dropped,
            false,
        ) is Some,
    decreases MAX_SCALE - dropped,
{
    lemma_scaled_den(den, dropped);
    let scaled = den * pow10(dropped);
    lemma_nearest_order(num, scaled, true, 0);
    lemma_nearest_order(num, scaled, false, 0);
    assert(LIMIT % 2 == 0);
    assert(nearest(num, scaled, true) >= LIMIT <==> nearest(num, scaled, false) >= LIMIT);
    if dropped < MAX_SCALE {
        lemma_toward_range(num, den, dropped + 1);
    }
}

/// Whether two numbers have a quotient does not rest on how halves are rounded.
pub proof fn law_quotient_range(a: int, b: int, up: bool)
    ensures
        quotient(Some(a), Some(b), up) is Some <==> quotient(Some(a), Some(b), false) is Some,
{
    if b != 0 {
        let size = magnitude(a);
        let num = size * ONE;
        assert(num >= 0) by (nonlinear_arith)
            requires
                size >= 0,
                num == size * 10_000_000_000_000_000_000_000_000_000,
        ;
        lemma_toward_range(num, magnitude(b), 0);
    }
}

/// A quotient that has no digits too many is rounded in one way only.
pub proof fn lemma_quotient_small(a: int, b: int, up: bool)
    requires
        b > 0,
        magnitude(a) * ONE < b * (LIMIT - 1),
    ensures
        quotient(Some(a), Some(b), up) == quotient(Some(a), Some(b), false),
{
    let num = magnitude(a) * ONE;
    lemma_nearest_order(num, b * pow10(0), false, LIMIT - 1);
    let size = magnitude(a);
    assert(num >= 0) by (nonlinear_arith)
        requires
            size >= 0,
            num == size * 10_000_000_000_000_000_000_000_000_000,
    ;
    lemma_nearest_order(num, b * pow10(0), false, 0);
    assert(b * pow10(0) == b);
    assert((LIMIT - 1) * b == b * (LIMIT - 1)) by (nonlinear_arith);
}

/// Quotients of opposite dividends are opposite.
pub proof fn lemma_quotient_negated(a: Option<int>, b: int, up: bool)
    ensures
        quotient(negated(a), Some(b), up) == negated(quotient(a, Some(b), up)),
{
    if a == Some(0int) && b != 0 {
        lemma_units_representable(0);
        let size = magnitude(b);
        assert(0 * ONE == size * 0) by (nonlinear_arith);
        lemma_toward_exact(0, size, 0, up);
    }
}

/// Sums of opposite numbers are opposite.
pub proof fn lemma_sum_negated(a: Option<int>, b: Option<int>)
    ensures
        sum(negated(a), negated(b)) == negated(sum(a, b)),
{
    if a is Some && b is Some {
        lemma_fit_negated(a->0 + b->0, 1, 0);
        assert(-(a->0 + b->0) == -(a->0) + -(b->0));
    }
}

/// Products with opposite factors are opposite.
pub proof fn lemma_product_negated(a: Option<int>, b: Option<int>)
    ensures
        product(a, negated(b)) == negated(product(a, b)),
        product(negated(a), b) == negated(product(a, b)),
{
    if a is Some && b is Some {
        let x = a->0;
        let y = b->0;
        assert(x * (-y) == -(x * y)) by (nonlinear_arith);
        assert((-x) * y == -(x * y)) by (nonlinear_arith);
        lemma_fit_negated(x * y, ONE as int, 0);
    }
}

proof fn lemma_settled_not_negative(
    units: int,
    guess: int,
    last: int,
    rounds: nat,
    ups: spec_fn(nat) -> bool,
)
    requires
        units >= 0,
        guess >= 0,
    ensures
        settled_guess(units, guess, last, rounds, ups) matches Some(r) ==> r >= 0,
    decreases rounds,
{
    if guess != last && rounds > 0 && next_guess(units, guess, ups(rounds)) is Some {
        lemma_pow10_values();
        lemma_quotient_sign(units, guess, ups(rounds));
        let other = quotient(Some(units), Some(guess), ups(rounds))->0;
        lemma_fit_sign(guess + other, 1, 0);
        lemma_quotient_sign(sum(Some(guess), Some(other))->0, dec(2, 0), false);
        lemma_settled_not_negative(
            units,
            next_guess(units, guess, ups(rounds))->0,
            guess,
            (rounds - 1) as nat,
            ups,
        );
    }
}

/// A root is not negative.
pub proof fn lemma_root_not_negative(units: int, ups: spec_fn(nat) -> bool)
    ensures
        root_of(units, ups) matches Some(r) ==> r >= 0,
{
    if units > 0 {
        lemma_pow10_values();
        lemma_quotient_sign(units, dec(2, 0), false);
        if first_guess(units) is Some {
            let guess = first_guess(units)->0;
            if sum(Some(guess), Some(ONE as int)) is Some {
                lemma_settled_not_negative(
                    units,
                    guess,
                    sum(Some(guess), Some(ONE as int))->0,
                    999,
                    ups,
                );
            }
        }
    }
}

/// A quotient that fits with all its digits is rounded to the nearest unit.
pub proof fn lemma_fit_near(num: int, den: int)
    requires
        den > 0,
        0 <= num <= den * (LIMIT - 1),
    ensures
        fit(num, den, 0) matches Some(r) && 0 <= r < LIMIT && (2 * r - 1) * den <= 2 * num <= (2
            * r + 1) * den,
{
    let r = half_even(num, den);
    assert(den * (LIMIT - 1) == (LIMIT - 1) * den) by (nonlinear_arith);
    assert(0 * den == 0) by (nonlinear_arith);
    assert(den * pow10(0) == den) by (nonlinear_arith)
        requires
            pow10(0) == 1,
    ;
    lemma_nearest_order(num, den, false, LIMIT - 1);
    lemma_nearest_order(num, den, false, 0);
    lemma_nearest_from(num, den, false, r);
    lemma_nearest_from(num, den, false, r + 1);
    assert((2 * (r + 1) - 1) == (2 * r + 1));
    assert(r * pow10(0) == r) by (nonlinear_arith)
        requires
            pow10(0) == 1,
    ;
}

} // verus!
