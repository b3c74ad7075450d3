use chrono::{DateTime, TimeDelta, Timelike, Utc};
use market_maker::factors::time_of_day_multiplier;
use market_maker::decimal::Decimal;
use market_maker::time::{Timestamp, MAX_SECS, MAX_SPAN_SECS, MIN_SECS};

fn at(secs: i64, nanos: u32) -> Timestamp {
    Timestamp::new(secs, nanos).unwrap()
}

#[test]
fn instants_have_the_range_of_utc_times() {
    assert_eq!(DateTime::<Utc>::MIN_UTC.timestamp(), MIN_SECS);
    assert_eq!(DateTime::<Utc>::MAX_UTC.timestamp(), MAX_SECS);
    assert!(Timestamp::new(MIN_SECS, 0).is_some());
    assert!(Timestamp::new(MAX_SECS, 999_999_999).is_some());
    assert!(Timestamp::new(MIN_SECS - 1, 0).is_none());
    assert!(Timestamp::new(MAX_SECS + 1, 0).is_none());
    assert!(Timestamp::new(0, 1_000_000_000).is_none());
    assert!(Timestamp::new(59, 1_000_000_000).is_some());
    assert!(Timestamp::new(59, 2_000_000_000).is_none());
}

#[test]
fn instants_are_ordered() {
    assert!(at(5, 0).at_or_after(at(5, 0)));
    assert!(at(5, 1).at_or_after(at(5, 0)));
    assert!(!at(4, 999_999_999).at_or_after(at(5, 0)));
}

#[test]
fn earlier_instants_keep_their_nanoseconds() {
    let t = at(1_000, 7).earlier(60).unwrap();
    assert_eq!((t.secs(), t.nanos()), (940, 7));
    let later = at(1_000, 7).earlier(-60).unwrap();
    assert_eq!((later.secs(), later.nanos()), (1_060, 7));
    assert!(at(MIN_SECS, 0).earlier(1).is_none());
    assert!(at(0, 0).earlier(MAX_SPAN_SECS).is_none());
    assert!(at(0, 0).earlier(i64::MAX).is_none());
}

#[test]
fn spans_are_counted_toward_zero() {
    assert_eq!(at(20, 0).seconds_since(at(5, 1)), 14);
    assert_eq!(at(20, 0).seconds_since(at(5, 0)), 15);
    assert_eq!(at(5, 1).seconds_since(at(20, 0)), -14);
    assert!(at(20, 0).is_later_by(at(5, 0), 15));
    assert!(!at(20, 0).is_later_by(at(5, 1), 15));
}

#[test]
fn leap_seconds_count_as_the_calendar_counts_them() {
    let leap = at(59, 1_500_000_000);
    let before = leap.earlier(1).unwrap();
    let expected = DateTime::<Utc>::from_timestamp(59, 1_500_000_000)
        .unwrap()
        .checked_sub_signed(TimeDelta::seconds(1))
        .unwrap();
    assert_eq!(before.secs(), expected.timestamp());
    assert_eq!(before.nanos(), expected.timestamp_subsec_nanos());
    let span = DateTime::<Utc>::from_timestamp(100, 0)
        .unwrap()
        .signed_duration_since(DateTime::<Utc>::from_timestamp(59, 1_500_000_000).unwrap());
    assert_eq!(at(100, 0).seconds_since(leap), span.num_seconds());
}

#[test]
fn the_spread_multiplier_follows_the_hours() {
    let midnight: i64 = 1_704_067_200;
    let mut minute: i64 = 0;
    while minute < 24 * 60 {
        let now = DateTime::<Utc>::from_timestamp(midnight + minute * 60, 0).unwrap();
        let base: i64 = match now.hour() {
            0..=7 => 80,
            8..=11 => 100,
            12..=19 => 130,
            _ => 110,
        };
        let near = matches!(now.hour(), 0 | 8 | 16)
            || (matches!(now.hour(), 7 | 15 | 23) && now.minute() >= 45);
        let expected = if near { Decimal::new(base * 15, 3) } else { Decimal::new(base, 2) };
        let got = time_of_day_multiplier(at(midnight + minute * 60, 0));
        assert!(!got.exceeds(expected) && !expected.exceeds(got), "{}", now);
        assert!(!Decimal::new(8, 1).exceeds(got) && !got.exceeds(Decimal::new(195, 2)));
        minute += 1;
    }
}

#[test]
fn spreads_are_wider_at_a_funding() {
    let four: i64 = 1_704_124_800;
    let funding = time_of_day_multiplier(at(four, 0));
    assert!(funding.exceeds(Decimal::new(13, 1)));
    assert!(!funding.exceeds(Decimal::new(195, 2)));
    let before = time_of_day_multiplier(at(four - 15 * 60, 0));
    assert!(before.exceeds(Decimal::new(13, 1)));
    let long_before = time_of_day_multiplier(at(four - 15 * 60 - 1, 0));
    assert!(!long_before.exceeds(Decimal::new(13, 1)));
}
