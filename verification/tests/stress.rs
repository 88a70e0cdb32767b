use apex_core::prelude::{
    DefaultMatchingEngine, DefaultOrderBook, EmptyOrderBookSyncer, Order, OrderID, Price,
    Quantity, Side,
};
use crossbeam::epoch;
use rand::Rng;

fn make_limit_order(id: u64, side: Side, price: u64, qty: u64, ts: u64) -> Order {
    Order {
        id,
        user_id: 1,
        side,
        price: Price::from(price),
        quantity: Quantity::from(qty),
        created_at: ts,
        updated_at: ts,
        ..Order::default()
    }
}

fn get_book_state(
    book: &DefaultOrderBook<EmptyOrderBookSyncer>,
    side: Side,
) -> Vec<(OrderID, Quantity)> {
    let guard = &epoch::pin();
    book.get_book(side)
        .iter(guard)
        .map(|entry| (entry.value().id, entry.value().quantity()))
        .collect()
}

fn new_engine() -> DefaultMatchingEngine<EmptyOrderBookSyncer> {
    let syncer = EmptyOrderBookSyncer {};
    let book = DefaultOrderBook::new(1, syncer);
    DefaultMatchingEngine::new(book)
}

#[test]
fn test_massive_order_insertion() {
    let mut engine = new_engine();

    for i in 0..100_000 {
        let mut order = make_limit_order(i, Side::Buy, 1000 - (i % 1000), 10, 1000 + i);
        engine.create_order(&mut order).unwrap();
    }

    let buy_book_state = get_book_state(engine.order_book(), Side::Buy);
    assert_eq!(buy_book_state.len(), 100_000);
}

#[test]
fn test_massive_order_cancellation() {
    let mut engine = new_engine();

    for i in 0..50_000 {
        let mut order = make_limit_order(i, Side::Sell, 1000 + (i % 500), 10, 2000 + i);
        engine.create_order(&mut order).unwrap();
    }

    // Randomly cancel half of them
    let mut rng = rand::rng();
    for _i in 0..25_000 {
        let id_to_cancel = rng.random_range(0..50_000);
        let _ = engine.cancel_order(id_to_cancel);
    }

    // No assertion: just ensure no panic
}

#[test]
fn test_massive_order_matching() {
    let mut engine = new_engine();

    // Insert many sell orders
    for i in 0..30_000 {
        let mut sell = make_limit_order(i, Side::Sell, 1000 + (i % 500), 10, 3000 + i);
        engine.create_order(&mut sell).unwrap();
    }

    // Insert many buy orders that will aggressively cross sell orders
    for i in 30_000..60_000 {
        let mut buy = make_limit_order(i, Side::Buy, 2000, 10, 4000 + i);
        engine.create_order(&mut buy).unwrap();
    }

    // Trigger matching
    engine.match_orders(0);

    // Verify no panic during matching
}
