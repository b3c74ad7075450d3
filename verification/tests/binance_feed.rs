use market_maker::binance_feed::{
    parse_mark_price, quote, reverse_map, stream_url, Batch, BinanceEnvelope,
    BinanceMarkPriceData, FeedAction, FeedEvent, FeedPhase, Frame,
};
use market_maker::decimal::Decimal;
use market_maker::domain::MarketEvent;
use market_maker::table::SymbolMap;
use market_maker::time::Timestamp;

fn symbols() -> SymbolMap<String> {
    let mut map = SymbolMap::new();
    map.insert("RESOLV/USDT-P".to_string(), "RESOLVUSDT".to_string());
    map.insert("BTC/USDT-P".to_string(), "btcusdt".to_string());
    map
}

fn envelope(stream: &str, price: &str) -> BinanceEnvelope {
    BinanceEnvelope {
        stream: stream.to_string(),
        data: BinanceMarkPriceData { mark_price: price.to_string() },
    }
}

fn text(stream: &str, price: &str) -> FeedEvent {
    FeedEvent::Frame(Frame::Text(Some(envelope(stream, price))))
}

fn now() -> Timestamp {
    Timestamp::new(1_704_103_200, 5).unwrap()
}

fn prices(events: &Vec<MarketEvent>) -> Vec<(String, i128, u32)> {
    let mut all = Vec::new();
    for event in events {
        match event {
            MarketEvent::SpotPrice { symbol, price, timestamp } => {
                assert_eq!((timestamp.secs(), timestamp.nanos()), (1_704_103_200, 5));
                all.push((symbol.clone(), price.mantissa(), price.scale()));
            }
            _ => panic!("no spot price"),
        }
    }
    all
}

#[test]
fn the_address_names_all_streams() {
    assert_eq!(
        stream_url(&symbols()),
        "wss://fstream.binance.com/stream?streams=resolvusdt@markPrice@1s/btcusdt@markPrice@1s"
    );
    assert_eq!(stream_url(&SymbolMap::new()), "wss://fstream.binance.com/stream?streams=");
}

#[test]
fn symbols_stand_under_lower_case_names() {
    let names = reverse_map(&symbols());
    assert_eq!(names.get(&"resolvusdt".to_string()).unwrap(), "RESOLV/USDT-P");
    assert_eq!(names.get(&"btcusdt".to_string()).unwrap(), "BTC/USDT-P");
    assert!(names.get(&"RESOLVUSDT".to_string()).is_none());
    let mut twice = symbols();
    twice.insert("BTC-2".to_string(), "BTCUSDT".to_string());
    assert_eq!(reverse_map(&twice).get(&"btcusdt".to_string()).unwrap(), "BTC-2");
}

#[test]
fn mark_prices_are_read_from_envelopes() {
    let names = reverse_map(&symbols());
    let (symbol, price) =
        parse_mark_price(&envelope("resolvusdt@markPrice", "0.1500"), &names).unwrap();
    assert_eq!(symbol, "RESOLV/USDT-P");
    assert_eq!((price.mantissa(), price.scale()), (1500, 4));
    assert!(parse_mark_price(&envelope("resolvusdt", "1"), &names).is_some());
    assert!(parse_mark_price(&envelope("ethusdt@markPrice", "1"), &names).is_none());
    assert!(parse_mark_price(&envelope("RESOLVUSDT@markPrice", "1"), &names).is_none());
    assert!(parse_mark_price(&envelope("resolvusdt@markPrice", "0.0"), &names).is_none());
    assert!(parse_mark_price(&envelope("resolvusdt@markPrice", "-1"), &names).is_none());
    assert!(parse_mark_price(&envelope("resolvusdt@markPrice", "n/a"), &names).is_none());
}

#[test]
fn a_quote_needs_a_symbol_and_a_positive_price() {
    let symbol = "S".to_string();
    assert!(quote(Some(&symbol), Some(Decimal::new(1, 3))).is_some());
    assert!(quote(Some(&symbol), Some(Decimal::zero())).is_none());
    assert!(quote(Some(&symbol), None).is_none());
    assert!(quote(None, Some(Decimal::one())).is_none());
}

#[test]
fn the_latest_price_of_each_symbol_is_passed_on() {
    let names = reverse_map(&symbols());
    let phase = FeedPhase::first(&symbols())
        .next(FeedEvent::Done, &names)
        .next(text("resolvusdt@markPrice", "1.5"), &names)
        .next(text("btcusdt@markPrice", "60000"), &names)
        .next(text("resolvusdt@markPrice", "1.6"), &names)
        .next(text("btcusdt@markPrice", "-1"), &names)
        .next(FeedEvent::Frame(Frame::Other), &names)
        .next(FeedEvent::Frame(Frame::Text(None)), &names);
    assert!(matches!(phase.action(now()), FeedAction::PollFrame));
    let phase = phase.next(FeedEvent::Failed, &names);
    match phase.action(now()) {
        FeedAction::Publish(events) => assert_eq!(
            prices(&events),
            vec![
                ("RESOLV/USDT-P".to_string(), 16, 1),
                ("BTC/USDT-P".to_string(), 60000, 0),
            ]
        ),
        _ => panic!("nothing is passed on"),
    }
    assert!(matches!(phase.next(FeedEvent::Done, &names).action(now()), FeedAction::AwaitFrame));
}

#[test]
fn the_last_ping_is_answered_first() {
    let names = reverse_map(&symbols());
    let phase = FeedPhase::Awaiting
        .next(FeedEvent::Frame(Frame::Ping(vec![1])), &names)
        .next(text("btcusdt@markPrice", "2"), &names)
        .next(FeedEvent::Frame(Frame::Ping(vec![2, 3])), &names)
        .next(FeedEvent::Failed, &names);
    match phase.action(now()) {
        FeedAction::SendPong(payload) => assert_eq!(payload, vec![2, 3]),
        _ => panic!("the ping is not answered"),
    }
    match phase.next(FeedEvent::Done, &names).action(now()) {
        FeedAction::Publish(events) => assert_eq!(events.len(), 1),
        _ => panic!("nothing is passed on"),
    }
}

#[test]
fn a_ping_that_cannot_be_answered_ends_the_connection() {
    let names = reverse_map(&symbols());
    let phase = FeedPhase::Awaiting
        .next(FeedEvent::Frame(Frame::Ping(vec![1])), &names)
        .next(FeedEvent::Failed, &names)
        .next(FeedEvent::Failed, &names);
    assert!(matches!(phase.action(now()), FeedAction::Pause(2)));
}

#[test]
fn a_closed_stream_is_connected_again() {
    let names = reverse_map(&symbols());
    let phase = FeedPhase::Awaiting
        .next(text("btcusdt@markPrice", "2"), &names)
        .next(FeedEvent::Frame(Frame::Close), &names)
        .next(text("btcusdt@markPrice", "3"), &names)
        .next(FeedEvent::Failed, &names);
    assert!(matches!(phase.action(now()), FeedAction::Pause(2)));
    let phase = phase.next(FeedEvent::Done, &names);
    assert!(matches!(phase.action(now()), FeedAction::Connect));
    let phase = phase.next(FeedEvent::Failed, &names);
    assert!(matches!(phase.action(now()), FeedAction::Pause(2)));
    let lost = FeedPhase::Awaiting.next(FeedEvent::Failed, &names);
    assert!(matches!(lost.action(now()), FeedAction::Pause(2)));
}

#[test]
fn a_feed_without_symbols_does_nothing() {
    let none: SymbolMap<String> = SymbolMap::new();
    let phase = FeedPhase::first(&none);
    assert!(matches!(phase.action(now()), FeedAction::Idle));
    assert!(matches!(phase.next(FeedEvent::Done, &none).action(now()), FeedAction::Idle));
}

#[test]
fn a_batch_starts_empty() {
    assert!(Batch::new().events(now()).is_empty());
}
