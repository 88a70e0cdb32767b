use apex_core::prelude::{
    DefaultMatchingEngine, DefaultOrderBook, EmptyOrderBookSyncer, MatchStrategy, Order, OrderID,
    OrderType, Price, Quantity, Side, SlippageTolerance,
};
use crossbeam::epoch;

fn make_limit_order(id: u64, side: Side, price: u64, qty: u64, ts: u64) -> Order {
    Order {
        id,
        user_id: 1,
        side,
        price: Price::from(price),
        quantity: Quantity::from(qty),
        created_at: ts,
        updated_at: ts,
        ..Order::default()
    }
}

fn make_market_order(id: u64, side: Side, qty: u64, ts: u64) -> Order {
    let mut value = make_limit_order(id, side, 0, qty, ts);
    value.order_type = OrderType::Market;
    value
}

fn get_book_state(
    book: &DefaultOrderBook<EmptyOrderBookSyncer>,
    side: Side,
) -> Vec<(OrderID, Quantity)> {
    let guard = &epoch::pin();
    book.get_book(side)
        .iter(guard)
        .map(|entry| (entry.value().id, entry.value().quantity()))
        .collect()
}

fn new_engine() -> DefaultMatchingEngine<EmptyOrderBookSyncer> {
    let syncer = EmptyOrderBookSyncer {};
    let book = DefaultOrderBook::new(1, syncer);
    DefaultMatchingEngine::new(book)
}

#[test]
fn test_market_order_ioc_full_fill() {
    let mut engine = new_engine();

    let mut sell = make_limit_order(1, Side::Sell, 100, 10, 1000);
    engine.create_order(&mut sell).unwrap();

    let mut buy = make_market_order(2, Side::Buy, 10, 1001);
    engine.create_order(&mut buy).unwrap();

    engine.match_orders(0);

    let remaining = get_book_state(engine.order_book(), Side::Sell);
    assert_eq!(remaining.len(), 0);
}

#[test]
fn test_market_order_ioc_partial_fill_and_cancel() {
    let mut engine = new_engine();

    let mut sell = make_limit_order(1, Side::Sell, 100, 5, 1000);
    engine.create_order(&mut sell).unwrap();

    let mut buy = make_market_order(2, Side::Buy, 10, 1001);
    engine.create_order(&mut buy).unwrap();

    engine.match_orders(0);

    let remaining = get_book_state(engine.order_book(), Side::Buy);
    assert_eq!(remaining.len(), 0);
}

#[test]
fn test_market_order_ioc_no_fill() {
    let mut engine = new_engine();

    let mut buy = make_market_order(1, Side::Buy, 10, 1000);
    engine.create_order(&mut buy).unwrap();

    engine.match_orders(0);

    let remaining = get_book_state(engine.order_book(), Side::Buy);
    assert_eq!(remaining.len(), 0);
}

#[test]
fn test_market_order_fok_full_fill() {
    let mut engine = new_engine();

    let mut sell = make_limit_order(1, Side::Sell, 100, 10, 1000);
    engine.create_order(&mut sell).unwrap();

    let mut buy = make_market_order(2, Side::Buy, 10, 1001);
    buy.match_strategy = MatchStrategy::FillOrKill;
    engine.create_order(&mut buy).unwrap();

    engine.match_orders(0);

    let remaining = get_book_state(engine.order_book(), Side::Sell);
    assert_eq!(remaining.len(), 0);
}

#[test]
fn test_market_order_fok_partial_not_enough_and_cancel() {
    let mut engine = new_engine();

    let mut sell = make_limit_order(1, Side::Sell, 100, 5, 1000);
    engine.create_order(&mut sell).unwrap();

    let mut buy = make_market_order(2, Side::Buy, 10, 1001);
    buy.match_strategy = MatchStrategy::FillOrKill;
    engine.create_order(&mut buy).unwrap();

    engine.match_orders(0);

    let remaining_sell = get_book_state(engine.order_book(), Side::Sell);
    assert_eq!(remaining_sell.len(), 1);
}

#[test]
fn test_market_order_slippage_pass() {
    let mut engine = new_engine();

    let mut sell = make_limit_order(1, Side::Sell, 100, 10, 1000);
    engine.create_order(&mut sell).unwrap();

    let mut buy = make_market_order(2, Side::Buy, 10, 1001);
    buy.slippage_tolerance = Some(SlippageTolerance(5));
    engine.create_order(&mut buy).unwrap();

    engine.match_orders(0);

    let remaining = get_book_state(engine.order_book(), Side::Sell);
    assert_eq!(remaining.len(), 0);
}

#[test]
fn test_market_order_slippage_exceeded_cancel() {
    let mut engine = new_engine();

    // Insert two sell orders
    let mut sell1 = make_limit_order(1, Side::Sell, 100, 5, 1000); // Good price
    let mut sell2 = make_limit_order(2, Side::Sell, 120, 10, 1001); // Bad price (beyond slippage)
    engine.create_order(&mut sell1).unwrap();
    engine.create_order(&mut sell2).unwrap();

    // Create a market buy order with tight slippage
    let mut buy = make_market_order(3, Side::Buy, 10, 1002); // Wants 10 units
    buy.slippage_tolerance = Some(SlippageTolerance(10)); // 0.10% slippage allowed
    engine.create_order(&mut buy).unwrap();

    engine.match_orders(0);

    // Only Sell 1 should be matched, Sell 2 should remain
    let remaining_sell = get_book_state(engine.order_book(), Side::Sell);

    assert_eq!(
        remaining_sell.len(),
        1,
        "Sell2 should remain because slippage was exceeded"
    );
    assert_eq!(
        remaining_sell[0].0, 2,
        "Remaining sell order should be sell2 (id=2)"
    );
    assert_eq!(
        remaining_sell[0].1,
        Quantity::from(10u64),
        "Sell2 should have full quantity left"
    );
}

#[test]
fn test_market_order_on_empty_book() {
    let mut engine = new_engine();

    let mut buy = make_market_order(1, Side::Buy, 10, 1000);
    engine.create_order(&mut buy).unwrap();

    engine.match_orders(0);

    let remaining = get_book_state(engine.order_book(), Side::Buy);
    assert_eq!(remaining.len(), 0);
}
