use market_maker::account_cleanup::{
    active_positions, failure, flatten_account_state, limit_notice, market_notice, position_line,
    summary, Cleanup, CleanupAction, CleanupEvent, Venue,
};
use market_maker::decimal::Decimal;
use market_maker::domain::Position;

fn position(symbol: &str, num: i64, scale: u32) -> Position {
    Position {
        symbol: symbol.to_string(),
        quantity: Decimal::new(num, scale),
        entry_price: Decimal::zero(),
        realized_pnl: Decimal::zero(),
        unrealized_pnl: Decimal::zero(),
    }
}

fn book() -> Vec<Position> {
    vec![position("A", 150, 2), position("B", 0, 3), position("C", -2, 0)]
}

fn held() -> CleanupEvent {
    CleanupEvent::Positions(book())
}

fn flat() -> CleanupEvent {
    CleanupEvent::Positions(vec![position("A", 0, 0)])
}

fn start() -> Cleanup {
    flatten_account_state("shutdown".to_string())
}

/// A cleanup whose orders are canceled, at a venue that takes limit orders.
fn canceled() -> Cleanup {
    start().next(CleanupEvent::Done).next(CleanupEvent::LimitSupport(true))
}

fn names(positions: &Vec<Position>) -> Vec<String> {
    positions.iter().map(|p| p.symbol.clone()).collect()
}

/// One whole attempt that fills nothing.
fn fruitless(cleanup: Cleanup) -> Cleanup {
    assert!(matches!(cleanup.action(), CleanupAction::FetchPositions));
    let mut cleanup = cleanup.next(held());
    match cleanup.action() {
        CleanupAction::SubmitLimit(positions) => assert_eq!(names(&positions), vec!["A", "C"]),
        _ => panic!("no limit orders"),
    }
    cleanup = cleanup.next(CleanupEvent::Done);
    for _ in 0..8 {
        assert!(matches!(cleanup.action(), CleanupAction::Sleep(2_000)));
        cleanup = cleanup.next(CleanupEvent::Done);
        assert!(matches!(cleanup.action(), CleanupAction::FetchPositions));
        cleanup = cleanup.next(held());
    }
    assert!(matches!(cleanup.action(), CleanupAction::CancelOrders));
    cleanup = cleanup.next(CleanupEvent::Done);
    assert!(matches!(cleanup.action(), CleanupAction::Sleep(300)));
    cleanup.next(CleanupEvent::Done)
}

fn exhausted() -> Cleanup {
    let mut cleanup = canceled();
    for _ in 0..10 {
        cleanup = fruitless(cleanup);
    }
    cleanup
}

#[test]
fn open_positions_are_those_with_a_quantity() {
    assert_eq!(names(&active_positions(&book())), vec!["A", "C"]);
    assert!(active_positions(&vec![position("B", 0, 5)]).is_empty());
    assert!(active_positions(&Vec::new()).is_empty());
}

#[test]
fn only_one_venue_takes_limit_orders() {
    assert!(Venue::Grvt.supports_limit_cleanup());
    assert!(!Venue::Hibachi.supports_limit_cleanup());
    assert!(!Venue::Extended.supports_limit_cleanup());
}

#[test]
fn orders_are_canceled_first() {
    assert!(matches!(start().action(), CleanupAction::CancelOrders));
    let asking = start().next(CleanupEvent::Done);
    assert!(matches!(asking.action(), CleanupAction::AskLimitSupport));
    let support = Venue::Hibachi.supports_limit_cleanup();
    let other = asking.next(CleanupEvent::LimitSupport(support));
    assert!(matches!(other.action(), CleanupAction::Succeed));
}

#[test]
fn a_flat_account_is_left_alone() {
    let cleanup = canceled();
    assert!(matches!(cleanup.action(), CleanupAction::FetchPositions));
    assert!(matches!(cleanup.next(flat()).action(), CleanupAction::Succeed));
}

#[test]
fn a_fill_ends_the_cleanup() {
    let cleanup = canceled()
        .next(held())
        .next(CleanupEvent::Done)
        .next(CleanupEvent::Done)
        .next(flat());
    assert!(matches!(cleanup.action(), CleanupAction::Succeed));
}

#[test]
fn a_step_that_fails_ends_the_cleanup() {
    assert!(matches!(start().next(CleanupEvent::Failed).action(), CleanupAction::Abort));
    let cleanup = canceled().next(held()).next(CleanupEvent::Failed);
    assert!(matches!(cleanup.action(), CleanupAction::Abort));
    assert!(matches!(cleanup.next(CleanupEvent::Done).action(), CleanupAction::Abort));
    assert!(matches!(start().next(held()).action(), CleanupAction::Abort));
}

#[test]
fn residual_positions_that_are_gone_need_no_market_orders() {
    assert!(matches!(exhausted().next(flat()).action(), CleanupAction::Succeed));
}

#[test]
fn market_orders_come_last() {
    let cleanup = exhausted().next(held());
    match cleanup.action() {
        CleanupAction::Notify(text) => assert_eq!(
            text,
            "cleanup: limit orders failed after 10 attempts; closing by market (shutdown): A 1.50, C -2"
        ),
        _ => panic!("no notice"),
    }
    let cleanup = cleanup.next(CleanupEvent::Done);
    assert!(matches!(cleanup.action(), CleanupAction::CancelOrders));
    let cleanup = cleanup.next(CleanupEvent::Done);
    match cleanup.action() {
        CleanupAction::SubmitMarket(positions) => assert_eq!(names(&positions), vec!["A", "C"]),
        _ => panic!("no market orders"),
    }
    let cleanup = cleanup.next(CleanupEvent::Done);
    assert!(matches!(cleanup.action(), CleanupAction::Sleep(2_000)));
    let cleanup = cleanup.next(CleanupEvent::Done);
    assert!(matches!(cleanup.action(), CleanupAction::FetchPositions));
    assert!(matches!(cleanup.next(flat()).action(), CleanupAction::Succeed));
}

#[test]
fn positions_that_stay_open_are_reported() {
    let cleanup = exhausted()
        .next(held())
        .next(CleanupEvent::Done)
        .next(CleanupEvent::Done)
        .next(CleanupEvent::Done)
        .next(CleanupEvent::Done)
        .next(CleanupEvent::Positions(vec![position("C", -2, 0)]));
    match cleanup.action() {
        CleanupAction::Notify(text) => {
            assert_eq!(text, "cleanup: market close also failed (shutdown): C -2")
        }
        _ => panic!("no notice"),
    }
    match cleanup.next(CleanupEvent::Done).action() {
        CleanupAction::Fail(reason) => assert_eq!(
            reason,
            "cleanup could not close positions even with market orders: C -2"
        ),
        _ => panic!("no failure"),
    }
}

#[test]
fn a_cleanup_takes_a_bounded_number_of_steps() {
    let mut cleanup = start();
    let mut steps = 0;
    loop {
        let event = match cleanup.action() {
            CleanupAction::FetchPositions => held(),
            CleanupAction::AskLimitSupport => CleanupEvent::LimitSupport(true),
            CleanupAction::Succeed | CleanupAction::Fail(_) | CleanupAction::Abort => break,
            _ => CleanupEvent::Done,
        };
        cleanup = cleanup.next(event);
        steps += 1;
    }
    assert_eq!(steps, 209);
    assert!(matches!(cleanup.action(), CleanupAction::Fail(_)));
}

#[test]
fn texts_name_the_positions() {
    assert_eq!(position_line("A", "1.5"), "A 1.5");
    assert_eq!(summary(&book()), "A 1.50, B 0.000, C -2");
    assert_eq!(summary(&Vec::new()), "");
    assert_eq!(
        limit_notice("p", "s"),
        "cleanup: limit orders failed after 10 attempts; closing by market (p): s"
    );
    assert_eq!(market_notice("p", "s"), "cleanup: market close also failed (p): s");
    assert_eq!(failure("s"), "cleanup could not close positions even with market orders: s");
}
