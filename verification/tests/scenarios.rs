use apex_core::prelude::{
    DefaultMatchingEngine, DefaultOrderBook, EmptyOrderBookSyncer, LiquidityDirective,
    MatchStrategy, Order, OrderLifecycle, OrderStatus, OrderType, Price, Quantity, RejectReason,
    Side, SlippageTolerance, TimeInForce, Trade, TradeRole,
};

fn limit(id: u64, side: Side, price: u64, qty: u64, ts: u64) -> Order {
    Order {
        id,
        user_id: 1,
        side,
        price: Price::from(price),
        quantity: Quantity::from(qty),
        time_in_force: TimeInForce::GoodTillCancelled,
        created_at: ts,
        updated_at: ts,
        ..Order::default()
    }
}

fn market(id: u64, side: Side, qty: u64, ts: u64) -> Order {
    Order {
        order_type: OrderType::Market,
        match_strategy: MatchStrategy::ImmediateOrCancel,
        time_in_force: TimeInForce::Immediate,
        ..limit(id, side, 0, qty, ts)
    }
}

fn new_engine() -> DefaultMatchingEngine<EmptyOrderBookSyncer> {
    DefaultMatchingEngine::new(DefaultOrderBook::new(1, EmptyOrderBookSyncer {}))
}

fn side_state(
    engine: &DefaultMatchingEngine<EmptyOrderBookSyncer>,
    side: Side,
) -> Vec<(u64, u64, Option<u64>)> {
    let book = engine.order_book();
    let mut state = Vec::new();
    let mut after = None;
    while let Some((key, order)) = book.walking_book_maker(side, None, after) {
        let quantity = order.quantity();
        assert_eq!((quantity.w1, quantity.w2, quantity.w3), (0, 0, 0));
        state.push((order.id, quantity.w0, Some(order.priority())));
        after = Some(key);
    }
    state
}

fn trade(role: TradeRole, order_id: u64, price: u64, qty: u64, at: u64) -> Trade {
    Trade {
        role,
        order_id,
        price: Price::from(price),
        quantity: Quantity::from(qty),
        created_at: at,
    }
}

#[test]
fn full_fill_removes_both_orders() {
    let mut engine = new_engine();
    engine.create_order(&mut limit(1, Side::Sell, 100, 10, 1000)).unwrap();
    engine.create_order(&mut limit(2, Side::Buy, 100, 10, 1001)).unwrap();
    let report = engine.match_orders(5);
    assert_eq!(side_state(&engine, Side::Sell), vec![]);
    assert_eq!(side_state(&engine, Side::Buy), vec![]);
    assert_eq!(engine.order_book().find(1), None);
    assert_eq!(engine.order_book().find(2), None);
    // the sell order is the earlier one and takes; the trade is at the maker's price
    assert_eq!(
        report.trades,
        vec![trade(TradeRole::Maker, 2, 100, 10, 5), trade(TradeRole::Taker, 1, 100, 10, 5)]
    );
    assert_eq!(report.updated.len(), 2);
    for order in &report.updated {
        assert_eq!(order.status(), OrderStatus::Filled);
        assert_eq!(order.quantity(), Quantity::from(0u64));
        assert_eq!(order.filled_quantity(), Quantity::from(10u64));
        assert_eq!(order.lifecycle, OrderLifecycle::Finished);
    }
    assert_eq!((report.updated[0].id, report.updated[1].id), (2, 1));
}

#[test]
fn earlier_maker_at_the_same_price_is_matched_first() {
    let mut engine = new_engine();
    engine.create_order(&mut limit(1, Side::Sell, 100, 10, 1000)).unwrap();
    engine.create_order(&mut limit(2, Side::Sell, 100, 10, 1005)).unwrap();
    engine.create_order(&mut limit(3, Side::Buy, 100, 10, 1010)).unwrap();
    let report = engine.match_orders(0);
    assert_eq!(side_state(&engine, Side::Sell), vec![(2, 10, Some(100_502))]);
    assert_eq!(side_state(&engine, Side::Buy), vec![]);
    assert_eq!(report.trades.len(), 2);
    assert_eq!(report.trades[0].quantity, Quantity::from(10u64));
    let mut traded: Vec<u64> = report.trades.iter().map(|t| t.order_id).collect();
    traded.sort();
    assert_eq!(traded, vec![1, 3]);
}

#[test]
fn partial_maker_keeps_its_priority() {
    let mut engine = new_engine();
    engine.create_order(&mut limit(1, Side::Sell, 100, 10, 1000)).unwrap();
    engine.create_order(&mut limit(2, Side::Buy, 100, 4, 1001)).unwrap();
    let report = engine.match_orders(0);
    assert_eq!(side_state(&engine, Side::Sell), vec![(1, 6, Some(100_001))]);
    assert_eq!(side_state(&engine, Side::Buy), vec![]);
    assert_eq!(report.trades.len(), 2);
    assert_eq!(report.trades[0].quantity, Quantity::from(4u64));
    assert_eq!(report.trades[1].quantity, Quantity::from(4u64));
    let rest = engine.order_book().find(1).unwrap();
    assert_eq!(rest.status(), OrderStatus::PartiallyFilled);
    assert_eq!(rest.filled_quantity(), Quantity::from(4u64));
    assert_eq!(rest.lifecycle, OrderLifecycle::Active);
}

#[test]
fn maker_with_a_remainder_stays_in_front() {
    let mut engine = new_engine();
    engine.create_order(&mut limit(1, Side::Buy, 100, 10, 1000)).unwrap();
    engine.create_order(&mut limit(2, Side::Buy, 100, 10, 1001)).unwrap();
    engine.create_order(&mut limit(3, Side::Sell, 100, 4, 1002)).unwrap();
    let report = engine.match_orders(9);
    // the buy order 1 is elected taker, as the earliest, and fills from the sell order
    assert_eq!(
        report.trades,
        vec![trade(TradeRole::Maker, 3, 100, 4, 9), trade(TradeRole::Taker, 1, 100, 4, 9)]
    );
    assert_eq!(
        side_state(&engine, Side::Buy),
        vec![(1, 6, Some(100_001)), (2, 10, Some(100_102))]
    );
    // a later taker meets the order 1 first
    engine.create_order(&mut market(4, Side::Sell, 3, 1003)).unwrap();
    let report = engine.match_orders(10);
    assert_eq!(
        report.trades,
        vec![trade(TradeRole::Maker, 1, 100, 3, 10), trade(TradeRole::Taker, 4, 100, 3, 10)]
    );
    assert_eq!(
        side_state(&engine, Side::Buy),
        vec![(1, 3, Some(100_001)), (2, 10, Some(100_102))]
    );
}

#[test]
fn fill_or_kill_without_enough_liquidity_is_rejected() {
    let mut engine = new_engine();
    engine.create_order(&mut limit(1, Side::Sell, 100, 5, 1000)).unwrap();
    let mut buy = market(2, Side::Buy, 10, 1001);
    buy.match_strategy = MatchStrategy::FillOrKill;
    engine.create_order(&mut buy).unwrap();
    let report = engine.match_orders(0);
    assert_eq!(report.trades, vec![]);
    assert_eq!(report.updated.len(), 1);
    let rejected = report.updated[0];
    assert_eq!(rejected.id, 2);
    assert_eq!(rejected.status(), OrderStatus::Rejected);
    assert_eq!(rejected.reject_reason, Some(RejectReason::InsufficientLiquidity));
    assert_eq!(rejected.lifecycle, OrderLifecycle::Finished);
    assert_eq!(rejected.quantity(), Quantity::from(10u64));
    assert_eq!(side_state(&engine, Side::Sell), vec![(1, 5, Some(100_001))]);
    let sell = engine.order_book().find(1).unwrap();
    assert_eq!(sell.lifecycle, OrderLifecycle::Active);
    assert_eq!(sell.status(), OrderStatus::Placed);
    assert_eq!(sell.filled_quantity(), Quantity::from(0u64));
    assert_eq!(engine.order_book().find(2), None);
    assert_eq!(engine.order_book().walking_market_book(None), None);
}

#[test]
fn fill_or_kill_with_enough_liquidity_fills_in_full() {
    let mut engine = new_engine();
    engine.create_order(&mut limit(1, Side::Sell, 100, 5, 1000)).unwrap();
    engine.create_order(&mut limit(2, Side::Sell, 101, 5, 1001)).unwrap();
    engine.create_order(&mut limit(3, Side::Sell, 102, 5, 1002)).unwrap();
    let mut buy = market(4, Side::Buy, 8, 1003);
    buy.match_strategy = MatchStrategy::FillOrKill;
    engine.create_order(&mut buy).unwrap();
    let report = engine.match_orders(1);
    assert_eq!(
        report.trades,
        vec![
            trade(TradeRole::Maker, 1, 100, 5, 1),
            trade(TradeRole::Taker, 4, 100, 5, 1),
            trade(TradeRole::Maker, 2, 101, 3, 1),
            trade(TradeRole::Taker, 4, 101, 3, 1),
        ]
    );
    assert_eq!(
        side_state(&engine, Side::Sell),
        vec![(2, 2, Some(100_102)), (3, 5, Some(100_203))]
    );
    for id in [2, 3] {
        assert_eq!(engine.order_book().find(id).unwrap().lifecycle, OrderLifecycle::Active);
    }
    let taker = report.updated[2];
    assert_eq!(taker.id, 4);
    assert_eq!(taker.status(), OrderStatus::Filled);
    assert_eq!(taker.lifecycle, OrderLifecycle::Finished);
    assert_eq!(engine.order_book().walking_market_book(None), None);
}

#[test]
fn fill_or_kill_sell_locks_the_buy_side() {
    let mut engine = new_engine();
    engine.create_order(&mut limit(1, Side::Buy, 100, 5, 1000)).unwrap();
    engine.create_order(&mut limit(2, Side::Sell, 200, 50, 1001)).unwrap();
    let mut sell = market(3, Side::Sell, 5, 1002);
    sell.match_strategy = MatchStrategy::FillOrKill;
    engine.create_order(&mut sell).unwrap();
    let report = engine.match_orders(1);
    assert_eq!(
        report.trades,
        vec![trade(TradeRole::Maker, 1, 100, 5, 1), trade(TradeRole::Taker, 3, 100, 5, 1)]
    );
    assert_eq!(side_state(&engine, Side::Buy), vec![]);
    assert_eq!(side_state(&engine, Side::Sell), vec![(2, 50, Some(100_102))]);
}

#[test]
fn slippage_bound_cuts_the_walk_off() {
    let mut engine = new_engine();
    engine.create_order(&mut limit(1, Side::Sell, 100, 5, 1000)).unwrap();
    engine.create_order(&mut limit(2, Side::Sell, 120, 10, 1001)).unwrap();
    let mut buy = market(3, Side::Buy, 10, 1002);
    buy.slippage_tolerance = Some(SlippageTolerance(10));
    engine.create_order(&mut buy).unwrap();
    let report = engine.match_orders(3);
    assert_eq!(
        report.trades,
        vec![trade(TradeRole::Maker, 1, 100, 5, 3), trade(TradeRole::Taker, 3, 100, 5, 3)]
    );
    assert_eq!(side_state(&engine, Side::Sell), vec![(2, 10, Some(100_102))]);
    let taker = report.updated[1];
    assert_eq!(taker.id, 3);
    assert_eq!(taker.quantity(), Quantity::from(5u64));
    assert_eq!(taker.filled_quantity(), Quantity::from(5u64));
    assert_eq!(taker.status(), OrderStatus::PartiallyFilled);
    assert_eq!(taker.lifecycle, OrderLifecycle::Finished);
    assert_eq!(taker.reject_reason, None);
    assert_eq!(engine.order_book().find(3), None);
}

#[test]
fn maker_only_orders_that_cross_both_stay() {
    let mut engine = new_engine();
    let mut sell = limit(1, Side::Sell, 100, 10, 1000);
    sell.liquidity_directive = LiquidityDirective::MakerOnly;
    let mut buy = limit(2, Side::Buy, 110, 10, 1001);
    buy.liquidity_directive = LiquidityDirective::MakerOnly;
    engine.create_order(&mut sell).unwrap();
    engine.create_order(&mut buy).unwrap();
    let report = engine.match_orders(0);
    assert_eq!(report.trades, vec![]);
    assert_eq!(report.updated, vec![]);
    assert_eq!(side_state(&engine, Side::Sell), vec![(1, 10, Some(100_001))]);
    assert_eq!(side_state(&engine, Side::Buy), vec![(2, 10, Some(100_102))]);
}

#[test]
fn market_order_on_an_empty_book_is_rejected() {
    let mut engine = new_engine();
    engine.create_order(&mut market(1, Side::Buy, 10, 1000)).unwrap();
    let report = engine.match_orders(0);
    assert_eq!(report.trades, vec![]);
    assert_eq!(report.updated.len(), 1);
    assert_eq!(report.updated[0].status(), OrderStatus::Rejected);
    assert_eq!(report.updated[0].reject_reason, Some(RejectReason::InsufficientLiquidity));
    assert_eq!(report.updated[0].lifecycle, OrderLifecycle::Finished);
    assert_eq!(engine.order_book().walking_market_book(None), None);
    assert_eq!(engine.order_book().find(1), None);
    assert_eq!(engine.order_book().sequence(), 3);
}

#[test]
fn limit_order_on_an_empty_book_rests() {
    let mut engine = new_engine();
    let mut order = limit(1, Side::Sell, 100, 10, 1000);
    engine.create_order(&mut order).unwrap();
    let report = engine.match_orders(0);
    assert_eq!(report.trades, vec![]);
    assert_eq!(report.updated, vec![]);
    assert_eq!(engine.order_book().find(1), Some(order));
    assert_eq!(engine.order_book().sequence(), 2);
}

#[test]
fn limit_taker_walks_the_levels_up_to_its_price() {
    let mut engine = new_engine();
    engine.create_order(&mut limit(1, Side::Sell, 100, 5, 1001)).unwrap();
    engine.create_order(&mut limit(2, Side::Sell, 102, 5, 1002)).unwrap();
    engine.create_order(&mut limit(3, Side::Sell, 104, 5, 1003)).unwrap();
    engine.create_order(&mut limit(4, Side::Buy, 103, 20, 1000)).unwrap();
    let report = engine.match_orders(2);
    assert_eq!(
        report.trades,
        vec![
            trade(TradeRole::Maker, 1, 100, 5, 2),
            trade(TradeRole::Taker, 4, 100, 5, 2),
            trade(TradeRole::Maker, 2, 102, 5, 2),
            trade(TradeRole::Taker, 4, 102, 5, 2),
        ]
    );
    assert_eq!(side_state(&engine, Side::Sell), vec![(3, 5, Some(100_303))]);
    assert_eq!(side_state(&engine, Side::Buy), vec![(4, 10, Some(100_004))]);
    let rest = engine.order_book().find(4).unwrap();
    assert_eq!(rest.status(), OrderStatus::PartiallyFilled);
    assert_eq!(rest.lifecycle, OrderLifecycle::Active);
    assert_eq!(rest.filled_quantity(), Quantity::from(10u64));
    assert_eq!(report.updated.len(), 3);
    assert_eq!(report.updated[2], rest);
}

#[test]
fn claimed_and_finished_orders_are_passed() {
    let mut engine = new_engine();
    let mut claimed = limit(1, Side::Sell, 100, 5, 1000);
    claimed.lifecycle = OrderLifecycle::Matched;
    engine.create_order(&mut claimed).unwrap();
    engine.create_order(&mut limit(2, Side::Sell, 101, 5, 1001)).unwrap();
    let mut waiting = market(3, Side::Buy, 5, 1002);
    waiting.lifecycle = OrderLifecycle::Finished;
    engine.create_order(&mut waiting).unwrap();
    engine.create_order(&mut limit(4, Side::Buy, 101, 5, 1003)).unwrap();
    let report = engine.match_orders(0);
    assert_eq!(
        report.trades,
        vec![trade(TradeRole::Maker, 4, 101, 5, 0), trade(TradeRole::Taker, 2, 101, 5, 0)]
    );
    assert_eq!(side_state(&engine, Side::Sell), vec![(1, 5, Some(100_001))]);
    // the market order that is not active stays where it is
    assert_eq!(engine.order_book().find(3), Some(waiting));
}

#[test]
fn matching_again_changes_nothing() {
    let mut engine = new_engine();
    engine.create_order(&mut limit(1, Side::Sell, 100, 10, 1000)).unwrap();
    engine.create_order(&mut limit(2, Side::Sell, 101, 10, 1001)).unwrap();
    engine.create_order(&mut limit(3, Side::Buy, 100, 4, 1002)).unwrap();
    engine.create_order(&mut limit(4, Side::Buy, 99, 4, 1003)).unwrap();
    engine.create_order(&mut market(5, Side::Buy, 3, 1004)).unwrap();
    let first = engine.match_orders(0);
    assert_eq!(first.trades.len(), 4);
    let sells = side_state(&engine, Side::Sell);
    let buys = side_state(&engine, Side::Buy);
    let sequence = engine.order_book().sequence();
    let second = engine.match_orders(1);
    assert_eq!(second.trades, vec![]);
    assert_eq!(second.updated, vec![]);
    assert_eq!(side_state(&engine, Side::Sell), sells);
    assert_eq!(side_state(&engine, Side::Buy), buys);
    assert_eq!(engine.order_book().sequence(), sequence);
    assert_eq!(sells, vec![(1, 3, Some(100_001)), (2, 10, Some(100_102))]);
    assert_eq!(buys, vec![(4, 4, Some(100_304))]);
}

#[test]
fn zero_slippage_fills_at_the_best_price_only() {
    let mut engine = new_engine();
    engine.create_order(&mut limit(1, Side::Sell, 100, 2, 1000)).unwrap();
    engine.create_order(&mut limit(2, Side::Sell, 100, 2, 1001)).unwrap();
    engine.create_order(&mut limit(3, Side::Sell, 101, 9, 1002)).unwrap();
    let mut buy = market(4, Side::Buy, 10, 1003);
    buy.slippage_tolerance = Some(SlippageTolerance(0));
    engine.create_order(&mut buy).unwrap();
    let report = engine.match_orders(0);
    assert_eq!(report.trades.len(), 4);
    for t in &report.trades {
        assert_eq!(t.price, Price::from(100u64));
        assert_eq!(t.quantity, Quantity::from(2u64));
    }
    assert_eq!(side_state(&engine, Side::Sell), vec![(3, 9, Some(100_203))]);
}

#[test]
fn trades_conserve_the_quantities() {
    let mut engine = new_engine();
    let orders = [
        limit(1, Side::Sell, 100, 7, 1000),
        limit(2, Side::Sell, 101, 6, 1001),
        limit(3, Side::Buy, 101, 5, 1002),
        limit(4, Side::Buy, 100, 5, 1003),
        market(5, Side::Sell, 4, 1004),
        market(6, Side::Buy, 20, 1005),
    ];
    for order in orders {
        let mut order = order;
        engine.create_order(&mut order).unwrap();
    }
    let report = engine.match_orders(0);
    assert!(!report.trades.is_empty());
    assert_eq!(report.trades.len() % 2, 0);
    for pair in report.trades.chunks(2) {
        assert_eq!(pair[0].role, TradeRole::Maker);
        assert_eq!(pair[1].role, TradeRole::Taker);
        assert_eq!(pair[0].price, pair[1].price);
        assert_eq!(pair[0].quantity, pair[1].quantity);
        let maker = orders.iter().find(|o| o.id == pair[0].order_id).unwrap();
        let taker = orders.iter().find(|o| o.id == pair[1].order_id).unwrap();
        assert_eq!(maker.order_type, OrderType::Limit);
        assert_eq!(pair[0].price, maker.price);
        assert_ne!(maker.side, taker.side);
    }
    for order in orders {
        let traded: u64 =
            report.trades.iter().filter(|t| t.order_id == order.id).map(|t| t.quantity.w0).sum();
        let remaining = match engine.order_book().find(order.id) {
            Some(rest) => rest.quantity().w0,
            None => {
                let last = report.updated.iter().rev().find(|o| o.id == order.id).unwrap();
                assert_eq!(last.lifecycle, OrderLifecycle::Finished);
                last.quantity().w0
            }
        };
        assert_eq!(order.quantity().w0, remaining + traded);
    }
    for order in &report.updated {
        if order.status() == OrderStatus::Filled {
            assert_eq!(order.quantity(), Quantity::from(0u64));
            assert_eq!(engine.order_book().find(order.id), None);
        }
    }
}
