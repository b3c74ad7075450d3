//! Decimal numbers of at most 28 fractional digits, and arithmetic on them
//! that tells when a result leaves their range.
//!
//! The value of a [`Decimal`] is a whole number of units, where one unit is
//! ten to the power of minus 28. All contracts speak of that whole number.
use vstd::prelude::*;

verus! {

/// One more than the largest mantissa: two to the power of 96.
pub const LIMIT: i128 = 79_228_162_514_264_337_593_543_950_336;

/// The number one, in units.
pub const ONE: i128 = 10_000_000_000_000_000_000_000_000_000;

/// One more than the largest mantissa of 64 bits.
pub const SMALL: i128 = 18_446_744_073_709_551_616;

/// The largest number of fractional digits.
pub const MAX_SCALE: u32 = 28;

/// Ten to the power of `n`.
pub open spec fn pow10(n: nat) -> int
    decreases n,
{
    if n == 0 {
        1
    } else {
        10 * pow10((n - 1) as nat)
    }
}

/// The units of the number that is written as `mantissa` with the last
/// `scale` digits behind the point: `dec(15, 1)` is one and a half.
pub open spec fn dec(mantissa: int, scale: nat) -> int {
    mantissa * pow10((MAX_SCALE - scale) as nat)
}

/// The whole number nearest to `num / den`. Of two that are equally near it is
/// the even one, or the larger one where `up` says so.
pub open spec fn nearest(num: int, den: int, up: bool) -> int {
    let floor = num / den;
    let twice_rest = 2 * (num % den);
    if twice_rest < den || (twice_rest == den && floor % 2 == 0 && !up) {
        floor
    } else {
        floor + 1
    }
}

/// The whole number nearest to `num / den`, and the even one of two that are
/// equally near.
pub open spec fn half_even(num: int, den: int) -> int {
    nearest(num, den, false)
}

/// `num / den` units with the last `dropped` digits rounded away, or with as
/// many more digits rounded away as it takes for the mantissa to stay below
/// [`LIMIT`]. There is no such number when the integer part is too large. Halves
/// are rounded to even, or, where `up` says so and digits are rounded away, up.
pub open spec fn fit_toward(num: int, den: int, dropped: nat, up: bool) -> Option<int>
    decreases MAX_SCALE - dropped,
{
    let mantissa = nearest(num, den * pow10(dropped), up && dropped > 0);
    if -LIMIT < mantissa < LIMIT {
        Some(mantissa * pow10(dropped))
    } else if dropped >= MAX_SCALE {
        None
    } else {
        fit_toward(num, den, dropped + 1, up)
    }
}

/// `num / den` units with the last `dropped` digits rounded away, half to even,
/// or with as many more digits rounded away as it takes for the mantissa to stay
/// below [`LIMIT`]. There is no such number when the integer part is too large.
pub open spec fn fit(num: int, den: int, dropped: nat) -> Option<int> {
    fit_toward(num, den, dropped, false)
}

/// The units of a decimal, where there is one.
pub open spec fn value(d: Option<Decimal>) -> Option<int> {
    match d {
        Some(d) => Some(d@),
        None => None,
    }
}

/// The units of each of some decimals.
pub open spec fn units_of(numbers: Seq<Decimal>) -> Seq<int> {
    numbers.map_values(|d: Decimal| d@)
}

/// The sum of two numbers of units, rounded to a decimal.
pub open spec fn sum(a: Option<int>, b: Option<int>) -> Option<int> {
    match (a, b) {
        (Some(a), Some(b)) => fit(a + b, 1, 0),
        _ => None,
    }
}

/// The difference of two numbers of units, rounded to a decimal.
pub open spec fn difference(a: Option<int>, b: Option<int>) -> Option<int> {
    match (a, b) {
        (Some(a), Some(b)) => fit(a - b, 1, 0),
        _ => None,
    }
}

/// The product of two numbers of units, rounded to a decimal.
pub open spec fn product(a: Option<int>, b: Option<int>) -> Option<int> {
    match (a, b) {
        (Some(a), Some(b)) => fit(a * b, ONE as int, 0),
        _ => None,
    }
}

/// A number that may be missing, with the other sign.
pub open spec fn negated(number: Option<int>) -> Option<int> {
    match number {
        Some(n) => Some(-n),
        None => None,
    }
}

/// The quotient of two numbers of units, rounded to a decimal. There is none
/// for the divisor zero. A quotient that lies in the middle between two decimals,
/// since its mantissa has a digit too many, is rounded to the even one, or away
/// from zero where `up` says so. For every other quotient `up` says nothing.
pub open spec fn quotient(a: Option<int>, b: Option<int>, up: bool) -> Option<int> {
    match (a, b) {
        (Some(a), Some(b)) => if b == 0 {
            None
        } else if (a < 0) == (b < 0) {
            fit_toward(magnitude(a) * ONE, magnitude(b), 0, up)
        } else {
            negated(fit_toward(magnitude(a) * ONE, magnitude(b), 0, up))
        },
        _ => None,
    }
}

/// The larger of two numbers of units.
pub open spec fn larger(a: int, b: int) -> int {
    if a < b {
        b
    } else {
        a
    }
}

/// The smaller of two numbers of units.
pub open spec fn smaller(a: int, b: int) -> int {
    if a > b {
        b
    } else {
        a
    }
}

/// `a` where it lies between `low` and `high`, and the nearer bound elsewhere.
pub open spec fn bounded(a: int, low: int, high: int) -> int {
    if a < low {
        low
    } else if a > high {
        high
    } else {
        a
    }
}

/// A number without its sign.
pub open spec fn magnitude(a: int) -> int {
    if a < 0 {
        -a
    } else {
        a
    }
}

/// Whether a decimal has the value of `units`.
pub open spec fn representable(units: int) -> bool {
    exists|mantissa: int, scale: nat|
        -LIMIT < mantissa < LIMIT && scale <= MAX_SCALE && units == #[trigger] dec(mantissa, scale)
}

/// The natural logarithm of a positive number of units other than one, rounded
/// as `rust_decimal::MathematicalOps::checked_ln` rounds it.
pub uninterp spec fn natural_log(units: int) -> Option<int>;

/// The sum of two decimals, each given by its mantissa and its scale, with the
/// mantissa and the scale that `rust_decimal::Decimal::checked_add` gives it.
pub uninterp spec fn added(a: int, a_scale: int, b: int, b_scale: int) -> Option<(int, int)>;

/// The quotient of two decimals, each given by its mantissa and its scale, with
/// the mantissa and the scale that `rust_decimal::Decimal::checked_div` gives it.
pub uninterp spec fn divided(a: int, a_scale: int, b: int, b_scale: int) -> Option<(int, int)>;

/// The mantissa and the scale of a decimal.
pub open spec fn written(d: Decimal) -> (int, int) {
    (d.digits(), d.places() as int)
}

/// The mantissa and the scale of a decimal, where there is one.
pub open spec fn written_of(d: Option<Decimal>) -> Option<(int, int)> {
    match d {
        Some(d) => Some(written(d)),
        None => None,
    }
}

/// The units of a decimal that is given by its mantissa and its scale.
pub open spec fn units_written(d: (int, int)) -> int {
    dec(d.0, d.1 as nat)
}

/// The guess at the root of a number that is the same as the one before, where
/// there is one in that many rounds. The next guess is the middle between a guess
/// and what it has to be multiplied with. All are given by mantissa and scale.
pub open spec fn settled_written(
    number: (int, int),
    guess: (int, int),
    last: (int, int),
    rounds: nat,
) -> Option<(int, int)>
    decreases rounds,
{
    if units_written(guess) == units_written(last) {
        Some(guess)
    } else if rounds == 0 {
        None
    } else {
        match divided(number.0, number.1, guess.0, guess.1) {
            Some(share) => match added(guess.0, guess.1, share.0, share.1) {
                Some(both) => match divided(both.0, both.1, 2, 0) {
                    Some(next) => settled_written(number, next, guess, (rounds - 1) as nat),
                    None => None,
                },
                None => None,
            },
            None => None,
        }
    }
}

/// The square root of a positive number: the guess at which the guesses come to
/// rest before the thousandth round. The first one is half of the number, and the
/// number itself where the half is rounded away. Both are given by mantissa and
/// scale.
pub open spec fn root_written(number: (int, int)) -> Option<(int, int)> {
    match divided(number.0, number.1, 2, 0) {
        Some(half) => {
            let first = if half.0 == 0 {
                number
            } else {
                half
            };
            match added(first.0, first.1, 1, 0) {
                Some(last) => settled_written(number, first, last, 999),
                None => None,
            }
        },
        None => None,
    }
}

/// The guess at the root of `units` that follows a guess: the middle between it
/// and what it has to be multiplied with.
pub open spec fn next_guess(units: int, guess: int, up: bool) -> Option<int> {
    quotient(sum(Some(guess), quotient(Some(units), Some(guess), up)), Some(dec(2, 0)), false)
}

/// The guess at the root of `units` that is the same as the one before, where
/// there is one in that many rounds. `ups` says how the quotient of each round is
/// rounded.
pub open spec fn settled_guess(
    units: int,
    guess: int,
    last: int,
    rounds: nat,
    ups: spec_fn(nat) -> bool,
) -> Option<int>
    decreases rounds,
{
    if guess == last {
        Some(guess)
    } else if rounds == 0 {
        None
    } else {
        match next_guess(units, guess, ups(rounds)) {
            Some(next) => settled_guess(units, next, guess, (rounds - 1) as nat, ups),
            None => None,
        }
    }
}

/// The first guess at a root: half of the number, and the number itself where
/// the half is rounded away.
pub open spec fn first_guess(units: int) -> Option<int> {
    match quotient(Some(units), Some(dec(2, 0)), false) {
        Some(half) => Some(
            if half == 0 {
                units
            } else {
                half
            },
        ),
        None => None,
    }
}

/// The square root of a number of units: the guess at which the guesses come to
/// rest before the thousandth round. A negative number has none.
pub open spec fn root_of(units: int, ups: spec_fn(nat) -> bool) -> Option<int> {
    if units < 0 {
        None
    } else if units == 0 {
        Some(0)
    } else {
        match (first_guess(units), sum(first_guess(units), Some(ONE as int))) {
            (Some(guess), Some(last)) => settled_guess(units, guess, last, 999, ups),
            _ => None,
        }
    }
}

/// The mantissa and the scale that `rust_decimal` reads from a text.
pub uninterp spec fn parsed_decimal(text: Seq<char>) -> Option<(int, int)>;

/// The text by which `rust_decimal` displays a mantissa with a scale.
pub uninterp spec fn decimal_text(mantissa: int, scale: int) -> Seq<char>;

/// A decimal number: a mantissa of less than 96 bits and a sign, and the
/// number of its digits that stand behind the point. Zero has no sign.
#[derive(Clone, Copy, Debug)]
pub struct Decimal {
    mantissa: i128,
    scale: u32,
}

impl View for Decimal {
    type V = int;

    open spec fn view(&self) -> int {
        dec(self.digits(), self.places())
    }
}

impl Decimal {
    /// The mantissa.
    pub closed spec fn digits(self) -> int {
        self.mantissa as int
    }

    /// The scale.
    pub closed spec fn places(self) -> nat {
        self.scale as nat
    }

    #[verifier::type_invariant]
    spec fn in_range(self) -> bool {
        &&& -LIMIT < self.mantissa < LIMIT
        &&& self.scale <= MAX_SCALE
    }

    /// The number `num` with the last `scale` digits behind the point.
    pub fn new(num: i64, scale: u32) -> (d: Decimal)
        requires
            scale <= MAX_SCALE,
        ensures
            d@ == dec(num as int, scale as nat),
            d.digits() == num,
            d.places() == scale,
    {
        Decimal { mantissa: num as i128, scale }
    }

    /// The number with that mantissa and scale, where both are in range.
    pub fn from_parts(mantissa: i128, scale: u32) -> (d: Option<Decimal>)
        ensures
            d is Some <==> -LIMIT < mantissa < LIMIT && scale <= MAX_SCALE,
            d matches Some(d) ==> d.digits() == mantissa && d.places() == scale,
    {
        if -LIMIT < mantissa && mantissa < LIMIT && scale <= MAX_SCALE {
            Some(Decimal { mantissa, scale })
        } else {
            None
        }
    }

    /// The mantissa of the number.
    pub fn mantissa(self) -> (m: i128)
        ensures
            m == self.digits(),
            -LIMIT < m < LIMIT,
    {
        proof {
            use_type_invariant(&self);
        }
        self.mantissa
    }

    /// States that the value is one that a decimal can have.
    pub(crate) fn in_representation(self)
        ensures
            representable(self@),
    {
        proof {
            use_type_invariant(&self);
            assert(self@ == dec(self.mantissa as int, self.scale as nat));
        }
    }

    /// The number of digits behind the point.
    pub fn scale(self) -> (s: u32)
        ensures
            s == self.places(),
            s <= MAX_SCALE,
    {
        proof {
            use_type_invariant(&self);
        }
        self.scale
    }

    /// The whole number `n`.
    pub fn from_u64(n: u64) -> (d: Decimal)
        ensures
            d@ == dec(n as int, 0),
            d.digits() == n,
    {
        Decimal { mantissa: n as i128, scale: 0 }
    }

    /// The number zero.
    pub fn zero() -> (d: Decimal)
        ensures
            d@ == 0,
            d.digits() == 0,
            d.places() == 0,
    {
        Decimal { mantissa: 0, scale: 0 }
    }

    /// The number one.
    pub fn one() -> (d: Decimal)
        ensures
            d@ == ONE,
            d.digits() == 1,
            d.places() == 0,
    {
        proof {
            lemma_pow10_values();
        }
        Decimal { mantissa: 1, scale: 0 }
    }

    /// Whether the number is zero.
    pub fn is_zero(self) -> (r: bool)
        ensures
            r == (self@ == 0),
    {
        proof {
            use_type_invariant(&self);
            lemma_dec_sign(self.mantissa as int, self.scale as nat);
        }
        self.mantissa == 0
    }

    /// Whether the number is greater than zero.
    pub fn is_positive(self) -> (r: bool)
        ensures
            r == (self@ > 0),
    {
        proof {
            use_type_invariant(&self);
            lemma_dec_sign(self.mantissa as int, self.scale as nat);
        }
        self.mantissa > 0
    }

    /// The number with the other sign.
    pub fn negated(self) -> (r: Decimal)
        ensures
            r@ == -self@,
            r.digits() == -self.digits(),
            r.places() == self.places(),
    {
        proof {
            use_type_invariant(&self);
            lemma_dec_negated(self.mantissa as int, self.scale as nat);
        }
        Decimal { mantissa: -self.mantissa, scale: self.scale }
    }

    /// The number without its sign.
    pub fn abs(self) -> (r: Decimal)
        ensures
            r@ == magnitude(self@),
    {
        proof {
            use_type_invariant(&self);
            lemma_dec_sign(self.mantissa as int, self.scale as nat);
        }
        if self.mantissa < 0 {
            self.negated()
        } else {
            self
        }
    }

    /// The larger of two numbers.
    pub fn max(self, other: Decimal) -> (r: Decimal)
        ensures
            r@ == larger(self@, other@),
            r == self || r == other,
    {
        if less_than(self, other) {
            other
        } else {
            self
        }
    }

    /// The smaller of two numbers.
    pub fn min(self, other: Decimal) -> (r: Decimal)
        ensures
            r@ == smaller(self@, other@),
            r == self || r == other,
    {
        if less_than(other, self) {
            other
        } else {
            self
        }
    }

    /// The number where it lies between two bounds, and the nearer bound
    /// elsewhere.
    pub fn clamp(self, low: Decimal, high: Decimal) -> (r: Decimal)
        requires
            low@ <= high@,
        ensures
            r@ == bounded(self@, low@, high@),
    {
        if less_than(self, low) {
            low
        } else if less_than(high, self) {
            high
        } else {
            self
        }
    }

    /// Whether the number is greater than another.
    pub fn exceeds(self, other: Decimal) -> (r: bool)
        ensures
            r == (self@ > other@),
    {
        less_than(other, self)
    }
}

impl Default for Decimal {
    fn default() -> (d: Decimal)
        ensures
            d@ == 0,
            d.digits() == 0,
            d.places() == 0,
    {
        Decimal::zero()
    }
}

/// Calls `<` of `rust_decimal::Decimal`, which compares the two values.
#[verifier::external_body]
fn less_than(a: Decimal, b: Decimal) -> (r: bool)
    ensures
        r == (a@ < b@),
{
    let a = rust_decimal::Decimal::from_i128_with_scale(a.mantissa, a.scale);
    let b = rust_decimal::Decimal::from_i128_with_scale(b.mantissa, b.scale);
    a < b
}

/// Calls `rust_decimal::Decimal::checked_add`: the exact sum, with as many
/// digits rounded away, half to even, as it takes to fit the mantissa, and
/// nothing where the integer part does not fit. Which of several ways to write
/// that value comes back is left to the name of the result.
#[verifier::external_body]
fn checked_add(a: Decimal, b: Decimal) -> (r: Option<Decimal>)
    ensures
        value(r) == fit(a@ + b@, 1, 0),
        written_of(r) == added(a.digits(), a.places() as int, b.digits(), b.places() as int),
{
    let a = rust_decimal::Decimal::from_i128_with_scale(a.mantissa, a.scale);
    let b = rust_decimal::Decimal::from_i128_with_scale(b.mantissa, b.scale);
    match a.checked_add(b) {
        Some(r) => Some(Decimal { mantissa: r.mantissa(), scale: r.scale() }),
        None => None,
    }
}

/// Calls `rust_decimal::Decimal::checked_sub`: the exact difference, rounded
/// as [`checked_add`] rounds a sum.
#[verifier::external_body]
fn checked_sub(a: Decimal, b: Decimal) -> (r: Option<Decimal>)
    ensures
        value(r) == fit(a@ - b@, 1, 0),
{
    let a = rust_decimal::Decimal::from_i128_with_scale(a.mantissa, a.scale);
    let b = rust_decimal::Decimal::from_i128_with_scale(b.mantissa, b.scale);
    match a.checked_sub(b) {
        Some(r) => Some(Decimal { mantissa: r.mantissa(), scale: r.scale() }),
        None => None,
    }
}

/// Calls `rust_decimal::Decimal::checked_mul`: the exact product, rounded half
/// to even to the 28 digits behind the point or to the fewer that fit the
/// mantissa, and nothing where the integer part does not fit.
#[verifier::external_body]
fn checked_mul(a: Decimal, b: Decimal) -> (r: Option<Decimal>)
    ensures
        value(r) == fit(a@ * b@, ONE as int, 0),
{
    let a = rust_decimal::Decimal::from_i128_with_scale(a.mantissa, a.scale);
    let b = rust_decimal::Decimal::from_i128_with_scale(b.mantissa, b.scale);
    match a.checked_mul(b) {
        Some(r) => Some(Decimal { mantissa: r.mantissa(), scale: r.scale() }),
        None => None,
    }
}

/// Calls `rust_decimal::Decimal::checked_div`: nothing for the divisor zero,
/// and else the exact quotient, rounded as [`checked_mul`] rounds a product, but
/// for one case. A quotient in the middle between two decimals, since its
/// mantissa has a digit too many, may also be rounded away from zero, unless the
/// mantissa of the divisor has no more than 64 bits. Which of the two it is rests
/// on how the operands are written, and is left to the name of the result.
#[verifier::external_body]
fn checked_div(a: Decimal, b: Decimal) -> (r: Option<Decimal>)
    ensures
        value(r) == quotient(Some(a@), Some(b@), false) || value(r) == quotient(
            Some(a@),
            Some(b@),
            true,
        ),
        -SMALL < b.digits() < SMALL ==> value(r) == quotient(Some(a@), Some(b@), false),
        written_of(r) == divided(a.digits(), a.places() as int, b.digits(), b.places() as int),
{
    let a = rust_decimal::Decimal::from_i128_with_scale(a.mantissa, a.scale);
    let b = rust_decimal::Decimal::from_i128_with_scale(b.mantissa, b.scale);
    match a.checked_div(b) {
        Some(r) => Some(Decimal { mantissa: r.mantissa(), scale: r.scale() }),
        None => None,
    }
}

/// Calls `rust_decimal::MathematicalOps::sqrt`, which makes guesses at the root
/// with `/` and `+` until two are equal. It panics where the thousandth round comes
/// or a guess leaves the range of the decimals, and that is left out.
#[verifier::external_body]
fn settled_root(a: Decimal) -> (r: Option<Decimal>)
    requires
        a.digits() > 0,
        root_written(written(a)) is Some,
    ensures
        written_of(r) == root_written(written(a)),
{
    let a = rust_decimal::Decimal::from_i128_with_scale(a.mantissa, a.scale);
    match rust_decimal::MathematicalOps::sqrt(&a) {
        Some(r) => Some(Decimal { mantissa: r.mantissa(), scale: r.scale() }),
        None => None,
    }
}

/// Calls `rust_decimal::MathematicalOps::checked_ln`. It depends on the value
/// alone, gives nothing for a number that is not positive and zero for one, and
/// is left to the name of the result for every other number.
#[verifier::external_body]
fn checked_ln(a: Decimal) -> (r: Option<Decimal>)
    ensures
        value(r) == (if a@ <= 0 {
            None
        } else if a@ == ONE {
            Some(0int)
        } else {
            natural_log(a@)
        }),
{
    let a = rust_decimal::Decimal::from_i128_with_scale(a.mantissa, a.scale);
    match rust_decimal::MathematicalOps::checked_ln(&a) {
        Some(r) => Some(Decimal { mantissa: r.mantissa(), scale: r.scale() }),
        None => None,
    }
}

/// Calls `from_str` of `rust_decimal::Decimal`, which gives a number or an
/// error. Which texts are numbers is left to the name of the result.
#[verifier::external_body]
pub(crate) fn parse_decimal(text: &str) -> (r: Option<Decimal>)
    ensures
        parsed_decimal(text@) == (match r {
            Some(d) => Some((d.digits(), d.places() as int)),
            None => None,
        }),
{
    match <rust_decimal::Decimal as core::str::FromStr>::from_str(text) {
        Ok(d) => Some(Decimal { mantissa: d.mantissa(), scale: d.scale() }),
        Err(_) => None,
    }
}

/// Calls `to_string` of `rust_decimal::Decimal`.
#[verifier::external_body]
pub(crate) fn format_decimal(d: Decimal) -> (text: String)
    ensures
        text@ == decimal_text(d.digits(), d.places() as int),
{
    rust_decimal::Decimal::from_i128_with_scale(d.mantissa, d.scale).to_string()
}

/// Adds two numbers that may be missing.
pub(crate) fn plus(a: Option<Decimal>, b: Option<Decimal>) -> (r: Option<Decimal>)
    ensures
        value(r) == sum(value(a), value(b)),
{
    match (a, b) {
        (Some(a), Some(b)) => checked_add(a, b),
        _ => None,
    }
}

/// Subtracts two numbers that may be missing.
pub(crate) fn minus(a: Option<Decimal>, b: Option<Decimal>) -> (r: Option<Decimal>)
    ensures
        value(r) == difference(value(a), value(b)),
{
    match (a, b) {
        (Some(a), Some(b)) => checked_sub(a, b),
        _ => None,
    }
}

/// Multiplies two numbers that may be missing.
pub(crate) fn times(a: Option<Decimal>, b: Option<Decimal>) -> (r: Option<Decimal>)
    ensures
        value(r) == product(value(a), value(b)),
{
    match (a, b) {
        (Some(a), Some(b)) => checked_mul(a, b),
        _ => None,
    }
}

/// Divides two numbers that may be missing.
pub(crate) fn over(a: Option<Decimal>, b: Option<Decimal>) -> (r: Option<Decimal>)
    ensures
        exists|up: bool| value(r) == #[trigger] quotient(value(a), value(b), up),
{
    let r = match (a, b) {
        (Some(a), Some(b)) => checked_div(a, b),
        _ => None,
    };
    proof {
        let even = quotient(value(a), value(b), false);
        let away = quotient(value(a), value(b), true);
        assert(value(r) == even || value(r) == away);
    }
    r
}

/// Divides a number that may be missing by one of few digits.
pub(crate) fn over_small(a: Option<Decimal>, b: Decimal) -> (r: Option<Decimal>)
    requires
        -SMALL < b.digits() < SMALL,
    ensures
        value(r) == quotient(value(a), Some(b@), false),
{
    match a {
        Some(a) => checked_div(a, b),
        None => None,
    }
}

proof fn lemma_later_rounds(
    units: int,
    guess: int,
    last: int,
    rounds: nat,
    ups: spec_fn(nat) -> bool,
    others: spec_fn(nat) -> bool,
)
    requires
        forall|n: nat| n <= rounds ==> #[trigger] ups(n) == others(n),
    ensures
        settled_guess(units, guess, last, rounds, ups) == settled_guess(
            units,
            guess,
            last,
            rounds,
            others,
        ),
    decreases rounds,
{
    if guess != last && rounds > 0 {
        assert(ups(rounds) == others(rounds));
        let next = next_guess(units, guess, ups(rounds));
        if next is Some {
            lemma_later_rounds(units, next->0, guess, (rounds - 1) as nat, ups, others);
        }
    }
}

/// The guess at the root of a number that is the same as the one before, where
/// there is one in that many rounds.
fn settle(number: Decimal, guess: Decimal, last: Decimal, rounds: usize) -> (r: Option<Decimal>)
    ensures
        exists|ups: spec_fn(nat) -> bool|
            value(r) == #[trigger] settled_guess(number@, guess@, last@, rounds as nat, ups),
        written_of(r) == settled_written(
            written(number),
            written(guess),
            written(last),
            rounds as nat,
        ),
    decreases rounds,
{
    let ghost none = |n: nat| false;
    if !less_than(guess, last) && !less_than(last, guess) {
        assert(settled_guess(number@, guess@, last@, rounds as nat, none) == Some(guess@));
        return Some(guess);
    }
    if rounds == 0 {
        assert(settled_guess(number@, guess@, last@, rounds as nat, none) is None);
        return None;
    }
    let share = checked_div(number, guess);
    let ghost up: bool = value(share) == quotient(Some(number@), Some(guess@), true);
    let ghost ups = |n: nat| up;
    assert(ups(rounds as nat) == up);
    let both = match share {
        Some(share) => checked_add(guess, share),
        None => None,
    };
    let next = match both {
        Some(both) => checked_div(both, Decimal::new(2, 0)),
        None => None,
    };
    assert(value(next) == next_guess(number@, guess@, up));
    match next {
        Some(next) => {
            let r = settle(number, next, guess, rounds - 1);
            proof {
                let later = choose|ups: spec_fn(nat) -> bool|
                    value(r) == #[trigger] settled_guess(
                        number@,
                        next@,
                        guess@,
                        (rounds - 1) as nat,
                        ups,
                    );
                let ups = |n: nat|
                    if n == rounds {
                        up
                    } else {
                        later(n)
                    };
                lemma_later_rounds(
                    number@,
                    next@,
                    guess@,
                    (rounds - 1) as nat,
                    ups,
                    later,
                );
                assert(ups(rounds as nat) == up);
                assert(value(r) == settled_guess(
                    number@,
                    guess@,
                    last@,
                    rounds as nat,
                    ups,
                ));
            }
            r
        },
        None => {
            assert(settled_guess(number@, guess@, last@, rounds as nat, ups) is None);
            None
        },
    }
}

/// The guess at the root of a positive number at which the guesses come to rest,
/// or nothing where they do not.
fn guessed_root(number: Decimal) -> (r: Option<Decimal>)
    requires
        number@ > 0,
    ensures
        exists|ups: spec_fn(nat) -> bool| value(r) == #[trigger] root_of(number@, ups),
        written_of(r) == root_written(written(number)),
{
    let ghost none = |n: nat| false;
    let guess = match checked_div(number, Decimal::new(2, 0)) {
        Some(half) => {
            proof {
                use_type_invariant(&half);
                lemma_dec_sign(half.digits(), half.places());
            }
            if half.mantissa == 0 {
                number
            } else {
                half
            }
        },
        None => {
            assert(root_of(number@, none) is None);
            return None;
        },
    };
    let last = match checked_add(guess, Decimal::one()) {
        Some(last) => last,
        None => {
            assert(root_of(number@, none) is None);
            return None;
        },
    };
    let r = settle(number, guess, last, 999);
    proof {
        let ups = choose|ups: spec_fn(nat) -> bool|
            value(r) == #[trigger] settled_guess(number@, guess@, last@, 999, ups);
        assert(value(r) == root_of(number@, ups));
    }
    r
}

/// The square root of a number, or nothing where the number is negative or the
/// guesses at its root do not come to rest.
pub(crate) fn sqrt(number: Decimal) -> (r: Option<Decimal>)
    ensures
        exists|ups: spec_fn(nat) -> bool| value(r) == #[trigger] root_of(number@, ups),
{
    let ghost none = |n: nat| false;
    if number.is_zero() {
        assert(root_of(number@, none) == Some(0int));
        return Some(Decimal::zero());
    }
    if !number.is_positive() {
        assert(root_of(number@, none) is None);
        return None;
    }
    proof {
        use_type_invariant(&number);
        lemma_dec_sign(number.digits(), number.places());
    }
    match guessed_root(number) {
        Some(guess) => {
            let r = settled_root(number);
            assert(value(r) == Some(guess@));
            r
        },
        None => None,
    }
}

/// The natural logarithm of a number that may be missing.
pub(crate) fn ln(a: Option<Decimal>) -> (r: Option<Decimal>)
    ensures
        value(r) == log_of(value(a)),
{
    match a {
        Some(a) => checked_ln(a),
        None => None,
    }
}

/// The natural logarithm of a number of units that may be missing. A number that
/// is not positive has none, and that of one is zero.
pub open spec fn log_of(a: Option<int>) -> Option<int> {
    match a {
        Some(a) => if a <= 0 {
            None
        } else if a == ONE {
            Some(0)
        } else {
            natural_log(a)
        },
        None => None,
    }
}

pub proof fn lemma_pow10_values()
    ensures
        pow10(28) == ONE,
        pow10(27) == 1_000_000_000_000_000_000_000_000_000,
        pow10(26) == 100_000_000_000_000_000_000_000_000,
        pow10(24) == 1_000_000_000_000_000_000_000_000,
        pow10(22) == 10_000_000_000_000_000_000_000,
        pow10(0) == 1,
{
    reveal_with_fuel(pow10, 30);
}

pub proof fn lemma_pow10_positive(n: nat)
    ensures
        pow10(n) > 0,
    decreases n,
{
    if n > 0 {
        lemma_pow10_positive((n - 1) as nat);
    }
}

pub proof fn lemma_dec_sign(mantissa: int, scale: nat)
    requires
        scale <= MAX_SCALE,
    ensures
        dec(mantissa, scale) > 0 <==> mantissa > 0,
        dec(mantissa, scale) < 0 <==> mantissa < 0,
{
    let power = pow10((MAX_SCALE - scale) as nat);
    lemma_pow10_positive((MAX_SCALE - scale) as nat);
    assert(mantissa * power > 0 <==> mantissa > 0) by (nonlinear_arith)
        requires
            power > 0,
    ;
    assert(mantissa * power < 0 <==> mantissa < 0) by (nonlinear_arith)
        requires
            power > 0,
    ;
}

pub proof fn lemma_dec_whole(n: int)
    ensures
        dec(n, 0) == n * 10_000_000_000_000_000_000_000_000_000,
{
    lemma_pow10_values();
    assert(pow10((MAX_SCALE - 0) as nat) == 10_000_000_000_000_000_000_000_000_000);
}

pub proof fn lemma_dec_negated(mantissa: int, scale: nat)
    ensures
        dec(-mantissa, scale) == -dec(mantissa, scale),
{
    let power = pow10((MAX_SCALE - scale) as nat);
    assert((-mantissa) * power == -(mantissa * power)) by (nonlinear_arith);
}

/// The larger of two numbers is one of them and no smaller than either, the
/// smaller one is one of them and no larger than either. A number between bounds
/// is kept, and one outside is moved to the bound that it is beyond. A magnitude
/// is the number or its opposite, and not negative.
pub proof fn law_choices(a: int, b: int, low: int, high: int)
    ensures
        larger(a, b) >= a && larger(a, b) >= b && (larger(a, b) == a || larger(a, b) == b),
        smaller(a, b) <= a && smaller(a, b) <= b && (smaller(a, b) == a || smaller(a, b) == b),
        low <= a <= high ==> bounded(a, low, high) == a,
        a < low ==> bounded(a, low, high) == low,
        low <= high < a ==> bounded(a, low, high) == high,
        magnitude(a) >= 0 && (magnitude(a) == a || magnitude(a) == -a),
{
}

} // verus!
