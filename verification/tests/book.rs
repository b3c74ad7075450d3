use market_maker::book::PriceLevels;
use market_maker::decimal::Decimal;

fn d(num: i64, scale: u32) -> Decimal {
    Decimal::new(num, scale)
}

fn equal(a: Decimal, b: Decimal) -> bool {
    !a.exceeds(b) && !b.exceeds(a)
}

#[test]
fn levels_are_kept_in_order_of_price() {
    let mut levels = PriceLevels::new();
    for price in vec![30, 10, 40, 20] {
        levels.insert(d(price, 0), d(price, 1));
    }
    assert_eq!(levels.len(), 4);
    for i in 0..4 {
        let (price, quantity) = levels.level_at(i);
        assert!(equal(price, d(10 * (i as i64 + 1), 0)));
        assert!(equal(quantity, d(i as i64 + 1, 0)));
    }
}

#[test]
fn a_price_occurs_once() {
    let mut levels = PriceLevels::default();
    levels.insert(d(15, 1), d(1, 0));
    levels.insert(d(150, 2), d(2, 0));
    levels.insert(d(2, 0), d(3, 0));
    assert_eq!(levels.len(), 2);
    assert!(equal(levels.get(d(15, 1)).unwrap(), d(2, 0)));
    assert!(equal(levels.get(d(200, 2)).unwrap(), d(3, 0)));
    assert!(levels.get(d(1, 0)).is_none());
    assert!(levels.get(d(3, 0)).is_none());
    let copy = levels.clone();
    levels.insert(d(1, 0), d(9, 0));
    assert_eq!(copy.len(), 2);
}
