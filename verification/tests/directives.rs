use apex_core::prelude::{
    DefaultMatchingEngine, DefaultOrderBook, EmptyOrderBookSyncer, LiquidityDirective, Order,
    OrderID, Price, Quantity, Side,
};
use crossbeam::epoch;

fn make_limit_order(id: u64, side: Side, price: u64, qty: u64, ts: u64) -> Order {
    Order {
        id,
        user_id: 1,
        side,
        price: Price::from(price),
        quantity: Quantity::from(qty),
        created_at: ts,
        updated_at: ts,
        ..Order::default()
    }
}

fn get_book_state(
    book: &DefaultOrderBook<EmptyOrderBookSyncer>,
    side: Side,
) -> Vec<(OrderID, Quantity)> {
    let guard = &epoch::pin();
    book.get_book(side)
        .iter(guard)
        .map(|entry| (entry.value().id, entry.value().quantity()))
        .collect()
}

fn new_engine() -> DefaultMatchingEngine<EmptyOrderBookSyncer> {
    let syncer = EmptyOrderBookSyncer {};
    let book = DefaultOrderBook::new(1, syncer);
    DefaultMatchingEngine::new(book)
}

#[test]
fn test_maker_only_skip_match_when_cross() {
    let mut engine = new_engine();

    // Insert a sell order with MakerOnly (important!)
    let mut sell = make_limit_order(1, Side::Sell, 100, 10, 1000);
    sell.liquidity_directive = LiquidityDirective::MakerOnly;
    engine.create_order(&mut sell).unwrap();

    // Insert a buy order with MakerOnly at price crossing sell
    let mut buy = make_limit_order(2, Side::Buy, 110, 10, 1001);
    buy.liquidity_directive = LiquidityDirective::MakerOnly;
    engine.create_order(&mut buy).unwrap();

    engine.match_orders(0);

    // Buy should not match, should stay in book
    let remaining_buy = get_book_state(engine.order_book(), Side::Buy);
    assert_eq!(remaining_buy.len(), 1);
    assert_eq!(remaining_buy[0].0, 2);
}

#[test]
fn test_maker_only_hangs_when_no_cross() {
    let mut engine = new_engine();

    // No sell orders
    // Insert a buy order with MakerOnly
    let mut buy = make_limit_order(1, Side::Buy, 100, 10, 1000);
    buy.liquidity_directive = LiquidityDirective::MakerOnly;
    engine.create_order(&mut buy).unwrap();

    engine.match_orders(0);

    let remaining_buy = get_book_state(engine.order_book(), Side::Buy);
    assert_eq!(remaining_buy.len(), 1);
    assert_eq!(remaining_buy[0].0, 1);
}

#[test]
fn test_taker_only_match_when_cross() {
    let mut engine = new_engine();

    // Insert a sell order with AllowTaker
    let mut sell = make_limit_order(1, Side::Sell, 100, 10, 1000);
    sell.liquidity_directive = LiquidityDirective::AllowTaker;
    engine.create_order(&mut sell).unwrap();

    // Insert a buy order with TakerOnly
    let mut buy = make_limit_order(2, Side::Buy, 110, 10, 1001);
    buy.liquidity_directive = LiquidityDirective::TakerOnly;
    engine.create_order(&mut buy).unwrap();

    engine.match_orders(0);

    // Both buy and sell orders should be gone after match
    let remaining_buy = get_book_state(engine.order_book(), Side::Buy);
    let remaining_sell = get_book_state(engine.order_book(), Side::Sell);

    assert_eq!(
        remaining_buy.len(),
        0,
        "Buy side should be empty after match"
    );
    assert_eq!(
        remaining_sell.len(),
        0,
        "Sell side should be empty after match"
    );
}

#[test]
fn test_taker_only_stays_when_no_cross() {
    let mut engine = new_engine();

    // No sell orders
    // Insert a buy order with TakerOnly
    let mut buy = make_limit_order(1, Side::Buy, 100, 10, 1000);
    buy.liquidity_directive = LiquidityDirective::TakerOnly;
    engine.create_order(&mut buy).unwrap();

    engine.match_orders(0);

    let remaining_buy = get_book_state(engine.order_book(), Side::Buy);
    assert_eq!(remaining_buy.len(), 1);
    assert_eq!(remaining_buy[0].0, 1);
}
