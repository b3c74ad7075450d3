use market_maker::decimal::Decimal;
use market_maker::domain::{FactorSnapshot, MarketRegime, OpenOrder, Position, Side};
use market_maker::table::SymbolMap;

fn equal(a: Decimal, b: Decimal) -> bool {
    !a.exceeds(b) && !b.exceeds(a)
}

#[test]
fn sides_have_signs_and_opposites() {
    assert!(equal(Side::Bid.sign(), Decimal::new(1, 0)));
    assert!(equal(Side::Ask.sign(), Decimal::new(-1, 0)));
    assert_eq!(Side::Bid.opposite(), Side::Ask);
    assert_eq!(Side::Ask.opposite(), Side::Bid);
    assert_eq!(Side::Ask.opposite().opposite(), Side::Ask);
    assert_eq!(Side::default(), Side::Bid);
}

#[test]
fn defaults_are_empty() {
    assert_eq!(MarketRegime::default(), MarketRegime::Quiet);
    let order = OpenOrder::default();
    assert!(order.order_id.is_none() && order.level_index.is_none() && order.price.is_none());
    assert_eq!((order.nonce, order.symbol.as_str(), order.side), (0, "", Side::Bid));
    let position = Position::default();
    assert!(position.quantity.is_zero() && position.realized_pnl.is_zero());
    let snapshot = FactorSnapshot::default();
    assert!(snapshot.volatility.is_zero() && snapshot.regime_intensity.is_zero());
    assert_eq!(snapshot.regime, MarketRegime::Quiet);
}

#[test]
fn a_table_gives_back_what_was_put() {
    let mut table: SymbolMap<u64> = SymbolMap::new();
    table.insert("a".to_string(), 1);
    table.insert("b".to_string(), 2);
    table.insert("a".to_string(), 3);
    assert_eq!(table.len(), 2);
    assert_eq!(table.get(&"a".to_string()), Some(&3));
    assert_eq!(table.get(&"b".to_string()), Some(&2));
    assert_eq!(table.get(&"c".to_string()), None);
    assert_eq!(table.key_at(0).as_str(), "a");
    assert_eq!(*table.value_at(1), 2);
}
