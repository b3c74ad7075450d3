use market_maker::decimal::{Decimal, LIMIT};

fn d(num: i64, scale: u32) -> Decimal {
    Decimal::new(num, scale)
}

fn equal(a: Decimal, b: Decimal) -> bool {
    !a.exceeds(b) && !b.exceeds(a)
}

#[test]
fn decimals_are_compared_by_value() {
    assert!(equal(d(150, 2), d(15, 1)));
    assert!(d(151, 2).exceeds(d(15, 1)));
    assert!(!d(15, 1).exceeds(d(150, 2)));
    assert!(d(-1, 0).negated().exceeds(Decimal::zero()));
}

#[test]
fn parts_out_of_range_are_refused() {
    assert!(Decimal::from_parts(LIMIT - 1, 28).is_some());
    assert!(Decimal::from_parts(1 - LIMIT, 0).is_some());
    assert!(Decimal::from_parts(LIMIT, 0).is_none());
    assert!(Decimal::from_parts(-LIMIT, 0).is_none());
    assert!(Decimal::from_parts(1, 29).is_none());
}

#[test]
fn bounds_are_taken_by_value() {
    assert!(equal(d(7, 0).clamp(d(-1, 0), d(1, 0)), Decimal::one()));
    assert!(equal(d(-7, 0).clamp(d(-1, 0), d(1, 0)), d(-1, 0)));
    assert!(equal(d(5, 1).clamp(d(-1, 0), d(1, 0)), d(50, 2)));
    assert!(equal(d(3, 1).max(d(31, 2)), d(31, 2)));
    assert!(equal(d(3, 1).min(d(31, 2)), d(3, 1)));
    assert!(equal(d(-25, 1).abs(), d(25, 1)));
}

#[test]
fn whole_numbers_become_decimals() {
    let n = Decimal::from_u64(u64::MAX);
    assert_eq!(n.mantissa(), u64::MAX as i128);
    assert_eq!(n.scale(), 0);
    assert!(Decimal::default().is_zero());
    assert!(!Decimal::zero().is_positive());
    assert!(Decimal::one().is_positive());
}
