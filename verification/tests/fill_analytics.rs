use market_maker::decimal::Decimal;
use market_maker::domain::Side;
use market_maker::fill_analytics::{adverse_bps, neutral_score, FillTracker, LevelToxicityScore};
use market_maker::time::Timestamp;

fn d(num: i64, scale: u32) -> Decimal {
    Decimal::new(num, scale)
}

fn equal(a: Decimal, b: Decimal) -> bool {
    !a.exceeds(b) && !b.exceeds(a)
}

fn at(secs: i64) -> Timestamp {
    Timestamp::new(secs, 0).unwrap()
}

/// A tracker with one buy at 100 on level 0 that earned 10 basis points.
fn tracker() -> FillTracker {
    let mut fills = FillTracker::new();
    fills.record_fill("S".to_string(), Side::Bid, 0, d(100, 0), d(10, 0), at(0));
    fills
}

#[test]
fn an_unknown_level_is_neutral() {
    let fills = FillTracker::default();
    assert!(equal(neutral_score(), d(5, 1)));
    assert!(equal(fills.toxicity_score("S", Side::Bid, 0), d(5, 1)));
    assert!(equal(fills.level_volume_multiplier("S", Side::Bid, 0), d(1, 0)));
}

#[test]
fn adverse_moves_are_in_basis_points() {
    assert!(equal(adverse_bps(Side::Bid, d(100, 0), d(999, 1)).unwrap(), d(10, 0)));
    assert!(equal(adverse_bps(Side::Ask, d(100, 0), d(1005, 1)).unwrap(), d(50, 0)));
    assert!(adverse_bps(Side::Bid, d(100, 0), d(101, 0)).unwrap().is_zero());
    assert!(adverse_bps(Side::Ask, d(100, 0), d(99, 0)).unwrap().is_zero());
    assert!(adverse_bps(Side::Bid, Decimal::zero(), d(99, 0)).unwrap().is_zero());
    assert!(adverse_bps(Side::Bid, d(-1, 0), d(99, 0)).unwrap().is_zero());
    let large = Decimal::from_parts(7_000_000_000_000_000_000_000_000_000, 0).unwrap();
    assert!(adverse_bps(Side::Ask, d(1, 28), large).is_none());
}

#[test]
fn a_fill_is_scored_after_fifteen_seconds() {
    let mut fills = tracker();
    fills.observe_price("S", d(999, 1), at(14), &vec![]);
    assert!(equal(fills.toxicity_score("S", Side::Bid, 0), d(5, 1)));
    assert!(fills.ages(at(14)).is_empty());
    fills.observe_price("S", d(999, 1), at(15), &vec![]);
    assert!(equal(fills.toxicity_score("S", Side::Bid, 0), d(1, 0)));
    assert!(equal(fills.level_volume_multiplier("S", Side::Bid, 0), d(75, 2)));
    assert_eq!(fills.ages(at(20)), vec![5]);
    assert_eq!(fills.ages(at(10)), vec![0]);
}

#[test]
fn a_price_that_is_not_positive_is_ignored() {
    let mut fills = tracker();
    fills.observe_price("S", Decimal::zero(), at(60), &vec![]);
    fills.observe_price("S", d(-1, 0), at(60), &vec![]);
    assert!(fills.ages(at(60)).is_empty());
    fills.observe_price("S", d(999, 1), at(60), &vec![]);
    assert_eq!(fills.ages(at(60)), vec![0]);
}

#[test]
fn symbols_sides_and_levels_are_separate() {
    let mut fills = tracker();
    fills.record_fill("T".to_string(), Side::Bid, 0, d(100, 0), d(10, 0), at(0));
    fills.record_fill("S".to_string(), Side::Ask, 0, d(100, 0), d(10, 0), at(0));
    fills.record_fill("S".to_string(), Side::Bid, 1, d(100, 0), d(5, 0), at(0));
    fills.observe_price("S", d(999, 1), at(15), &vec![]);
    assert!(equal(fills.toxicity_score("S", Side::Bid, 0), d(1, 0)));
    assert!(fills.toxicity_score("S", Side::Ask, 0).is_zero());
    assert!(equal(fills.toxicity_score("S", Side::Bid, 1), d(2, 0)));
    assert!(equal(fills.toxicity_score("T", Side::Bid, 0), d(5, 1)));
    assert_eq!(fills.ages(at(15)).len(), 3);
    let ones = vec![Decimal::one(), Decimal::one(), Decimal::one()];
    fills.observe_price("T", d(998, 1), at(15), &ones);
    assert!(equal(fills.toxicity_score("T", Side::Bid, 0), d(2, 0)));
    assert!(equal(fills.toxicity_score("S", Side::Bid, 0), d(1, 0)));
}

#[test]
fn later_fills_are_averaged_in() {
    let mut fills = tracker();
    fills.record_fill("S".to_string(), Side::Bid, 0, d(100, 0), d(5, 0), at(0));
    fills.observe_price("S", d(999, 1), at(15), &vec![]);
    // 0.25 * 2 + 0.75 * 1
    assert!(equal(fills.toxicity_score("S", Side::Bid, 0), d(125, 2)));
    fills.record_fill("S".to_string(), Side::Bid, 0, d(100, 0), d(10, 0), at(1200));
    // The distance from neutral is halved first: 0.5 + 0.75 / 2 = 0.875.
    fills.observe_price("S", d(999, 1), at(1215), &vec![d(5, 1)]);
    // 0.25 * 1 + 0.75 * 0.875
    assert!(equal(fills.toxicity_score("S", Side::Bid, 0), d(90625, 5)));
}

#[test]
fn age_draws_scores_to_neutral() {
    let mut fills = tracker();
    fills.observe_price("S", d(999, 1), at(15), &vec![]);
    fills.decay(at(15), &vec![d(5, 1)]);
    assert!(equal(fills.toxicity_score("S", Side::Bid, 0), d(1, 0)));
    fills.decay(at(1215), &vec![d(5, 1)]);
    assert!(equal(fills.toxicity_score("S", Side::Bid, 0), d(75, 2)));
    assert_eq!(fills.ages(at(1216)), vec![1]);
    fills.decay(at(2000), &vec![Decimal::zero()]);
    assert!(equal(fills.toxicity_score("S", Side::Bid, 0), d(5, 1)));
}

#[test]
fn multipliers_stay_between_their_bounds() {
    let mut toxic = tracker();
    toxic.observe_price("S", d(90, 0), at(15), &vec![]);
    assert!(equal(toxic.toxicity_score("S", Side::Bid, 0), d(100, 0)));
    assert!(equal(toxic.level_volume_multiplier("S", Side::Bid, 0), d(5, 1)));
    let mut kind = tracker();
    kind.observe_price("S", d(110, 0), at(15), &vec![]);
    assert!(kind.toxicity_score("S", Side::Bid, 0).is_zero());
    assert!(equal(kind.level_volume_multiplier("S", Side::Bid, 0), d(15, 1)));
}

#[test]
fn a_spread_of_nothing_is_raised() {
    let mut fills = FillTracker::new();
    fills.record_fill("S".to_string(), Side::Bid, 0, d(100, 0), d(-3, 0), at(0));
    fills.observe_price("S", d(999, 1), at(15), &vec![]);
    assert!(equal(fills.toxicity_score("S", Side::Bid, 0), d(10_000_000, 0)));
}

#[test]
fn a_number_out_of_range_changes_nothing() {
    let mut fills = FillTracker::new();
    fills.record_fill("S".to_string(), Side::Ask, 0, d(1, 28), d(10, 0), at(0));
    let large = Decimal::from_parts(7_000_000_000_000_000_000_000_000_000, 0).unwrap();
    assert!(!fills.try_observe_price("S", large, at(15), &vec![]));
    assert!(fills.ages(at(15)).is_empty());
    assert!(fills.try_observe_price("S", d(1, 28), at(15), &vec![]));
    assert!(fills.toxicity_score("S", Side::Ask, 0).is_zero());
}

#[test]
fn a_fresh_score_takes_the_first_ratio() {
    let fresh = LevelToxicityScore::new();
    assert!(equal(fresh.decay(at(9), d(5, 1)).value(), d(5, 1)));
    assert_eq!(fresh.age(at(9)), 0);
    let first = fresh.apply(d(3, 0), at(9), d(5, 1)).unwrap();
    assert!(equal(first.value(), d(3, 0)));
    assert_eq!(first.age(at(11)), 2);
    let aged = first.decay(at(11), d(2, 1));
    assert!(equal(aged.value(), d(1, 0)));
    let zero = fresh.apply(Decimal::zero(), at(9), Decimal::one()).unwrap();
    assert!(equal(zero.apply(d(7, 0), at(9), Decimal::one()).unwrap().value(), d(7, 0)));
}

#[test]
fn a_worse_price_is_more_adverse() {
    let mut last = Decimal::zero();
    for price in vec![d(101, 0), d(100, 0), d(999, 1), d(90, 0), d(1, 0)] {
        let adverse = adverse_bps(Side::Bid, d(100, 0), price).unwrap();
        assert!(!last.exceeds(adverse));
        last = adverse;
    }
    assert!(equal(last, d(9900, 0)));
}

#[test]
fn a_score_above_or_below_neutral_never_passes_it() {
    let high = LevelToxicityScore::new().apply(d(9, 1), at(0), Decimal::one()).unwrap();
    let low = LevelToxicityScore::new().apply(d(1, 1), at(0), Decimal::one()).unwrap();
    for factor in vec![d(0, 0), d(3, 1), d(1, 0)] {
        let above = high.decay(at(60), factor).value();
        let below = low.decay(at(60), factor).value();
        assert!(!d(5, 1).exceeds(above) && !above.exceeds(d(9, 1)));
        assert!(!d(1, 1).exceeds(below) && !below.exceeds(d(5, 1)));
    }
    assert!(equal(high.decay(at(60), d(3, 1)).value(), d(62, 2)));
    assert!(equal(low.decay(at(60), d(3, 1)).value(), d(38, 2)));
    assert!(equal(high.decay(at(0), d(3, 1)).value(), d(9, 1)));
}

#[test]
fn the_curve_of_the_multipliers() {
    // The score is the fall of the price from 100, in hundredths, against a
    // spread of 100 basis points.
    let multiplier = |observed: Decimal| -> Decimal {
        let mut fills = FillTracker::new();
        fills.record_fill("S".to_string(), Side::Bid, 0, d(100, 0), d(100, 0), at(0));
        fills.observe_price("S", observed, at(15), &vec![]);
        fills.level_volume_multiplier("S", Side::Bid, 0)
    };
    assert!(equal(multiplier(d(100, 0)), d(15, 1)));
    assert!(equal(multiplier(d(9975, 2)), d(125, 2)));
    assert!(equal(multiplier(d(995, 1)), d(1, 0)));
    assert!(equal(multiplier(d(9925, 2)), d(875, 3)));
    assert!(equal(multiplier(d(985, 1)), d(5, 1)));
    assert!(equal(multiplier(d(90, 0)), d(5, 1)));
}

#[test]
fn a_second_price_no_later_changes_nothing() {
    let mut fills = tracker();
    fills.record_fill("S".to_string(), Side::Bid, 1, d(100, 0), d(10, 0), at(10));
    fills.observe_price("S", d(999, 1), at(20), &vec![]);
    let halves = vec![d(5, 1)];
    fills.observe_price("S", d(1, 0), at(20), &halves);
    fills.observe_price("S", d(1, 0), at(16), &halves);
    assert!(equal(fills.toxicity_score("S", Side::Bid, 0), d(1, 0)));
    assert!(equal(fills.toxicity_score("S", Side::Bid, 1), d(5, 1)));
    assert_eq!(fills.ages(at(21)), vec![1]);
}
