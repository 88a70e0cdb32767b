use apex_core::prelude::{
    BookKey, LiquidityDirective, MatchStrategy, Order, OrderLifecycle, OrderStatus, OrderType,
    OrderValidationError, Price, Quantity, Side, SlippageTolerance, TimeInForce, Trade, TradeRole,
    MAX_ALLOWED_SLIPPAGE_TOLERANCE, U256,
};

fn limit(id: u64, side: Side, price: u64, qty: u64, ts: u64) -> Order {
    Order {
        id,
        user_id: 1,
        side,
        price: Price::from(price),
        quantity: Quantity::from(qty),
        time_in_force: TimeInForce::GoodTillCancelled,
        created_at: ts,
        updated_at: ts,
        ..Order::default()
    }
}

fn market(id: u64, side: Side, qty: u64, ts: u64) -> Order {
    Order {
        order_type: OrderType::Market,
        match_strategy: MatchStrategy::ImmediateOrCancel,
        time_in_force: TimeInForce::Immediate,
        ..limit(id, side, 0, qty, ts)
    }
}

#[test]
fn default_order_is_a_pending_active_buy_limit() {
    let order = Order::default();
    assert_eq!(order.id, 0);
    assert_eq!(order.side, Side::Buy);
    assert_eq!(order.order_type, OrderType::Limit);
    assert_eq!(order.status(), OrderStatus::Pending);
    assert_eq!(order.lifecycle, OrderLifecycle::Active);
    assert_eq!(order.match_strategy, MatchStrategy::Standard);
    assert_eq!(order.liquidity_directive, LiquidityDirective::AllowTaker);
    assert_eq!(order.time_in_force, TimeInForce::Immediate);
    assert_eq!(order.quantity(), U256::from_u64(0));
    assert_eq!(order.filled_quantity(), U256::from_u64(0));
    assert_eq!(order.slippage_tolerance, None);
    assert!(!order.is_filled());
    assert!(!order.is_finished());
}

#[test]
fn defaults_of_the_enums() {
    assert_eq!(Side::default(), Side::Buy);
    assert_eq!(OrderType::default(), OrderType::Limit);
    assert_eq!(OrderStatus::default(), OrderStatus::Pending);
    assert_eq!(OrderLifecycle::default(), OrderLifecycle::Active);
    assert_eq!(MatchStrategy::default(), MatchStrategy::Standard);
    assert_eq!(LiquidityDirective::default(), LiquidityDirective::AllowTaker);
    assert_eq!(TimeInForce::default(), TimeInForce::Immediate);
    assert_eq!(TradeRole::default(), TradeRole::Maker);
    assert_eq!(Trade::default().quantity, U256::from_u64(0));
    assert_eq!(MAX_ALLOWED_SLIPPAGE_TOLERANCE, 5000);
}

#[test]
fn lifecycle_numbers_round_trip() {
    assert_eq!(OrderLifecycle::Active.to_u8(), 0);
    assert_eq!(OrderLifecycle::Matched.to_u8(), 1);
    assert_eq!(OrderLifecycle::Finished.to_u8(), 2);
    assert_eq!(OrderLifecycle::from_u8(0), OrderLifecycle::Active);
    assert_eq!(OrderLifecycle::from_u8(1), OrderLifecycle::Matched);
    assert_eq!(OrderLifecycle::from_u8(2), OrderLifecycle::Finished);
}

#[test]
fn priority_is_time_times_hundred_plus_id_tail() {
    let order = limit(123, Side::Buy, 100, 10, 1000);
    assert_eq!(order.priority(), 100_023);
    assert_eq!(
        order.book_key(),
        BookKey { price: Price::from(100u64), priority: 100_023, side: Side::Buy }
    );
    let wrapped = limit(7, Side::Buy, 100, 10, u64::MAX);
    assert_eq!(wrapped.priority(), u64::MAX.wrapping_mul(100).wrapping_add(7));
}

#[test]
fn book_keys_order_by_price_then_time() {
    let buy_high = limit(1, Side::Buy, 110, 1, 1000).book_key();
    let buy_low = limit(2, Side::Buy, 100, 1, 900).book_key();
    let buy_low_later = limit(3, Side::Buy, 100, 1, 950).book_key();
    assert!(buy_high.precedes(&buy_low));
    assert!(!buy_low.precedes(&buy_high));
    assert!(buy_low.precedes(&buy_low_later));
    assert!(!buy_low.precedes(&buy_low));
    assert!(buy_high.sort_key() < buy_low.sort_key());
    assert!(buy_low.sort_key() < buy_low_later.sort_key());

    let sell_low = limit(4, Side::Sell, 100, 1, 1000).book_key();
    let sell_high = limit(5, Side::Sell, 110, 1, 900).book_key();
    let sell_low_later = limit(6, Side::Sell, 100, 1, 1001).book_key();
    assert!(sell_low.precedes(&sell_high));
    assert!(!sell_high.precedes(&sell_low));
    assert!(sell_low.precedes(&sell_low_later));
    assert!(sell_low.sort_key() < sell_high.sort_key());
    assert!(sell_low.sort_key() < sell_low_later.sort_key());
}

#[test]
fn book_keys_order_prices_beyond_one_word() {
    let mut big = limit(1, Side::Sell, 0, 1, 1000);
    big.price = U256 { w0: 0, w1: 1, w2: 0, w3: 0 };
    let small = limit(2, Side::Sell, u64::MAX, 1, 1000);
    assert!(small.book_key().precedes(&big.book_key()));
    assert!(small.book_key().sort_key() < big.book_key().sort_key());
    let mut buy_big = big;
    buy_big.side = Side::Buy;
    let mut buy_small = small;
    buy_small.side = Side::Buy;
    assert!(buy_big.book_key().precedes(&buy_small.book_key()));
    assert!(buy_big.book_key().sort_key() < buy_small.book_key().sort_key());
}

#[test]
fn claim_protocol_moves_between_the_three_states() {
    let mut order = limit(1, Side::Buy, 100, 10, 1000);
    assert!(!order.exit_matched());
    assert!(!order.enter_finished_from_matched());
    assert_eq!(order.lifecycle, OrderLifecycle::Active);
    assert!(order.enter_matched());
    assert_eq!(order.lifecycle, OrderLifecycle::Matched);
    assert!(!order.enter_matched());
    assert!(!order.enter_finished_from_active());
    assert!(order.exit_matched());
    assert_eq!(order.lifecycle, OrderLifecycle::Active);
    assert!(order.enter_matched());
    assert!(order.enter_finished_from_matched());
    assert!(order.is_finished());
    assert!(!order.enter_matched());
    assert!(!order.exit_matched());
    assert!(!order.enter_finished_from_active());
    assert!(!order.enter_finished_from_matched());
    let reset = order.clone_reset_lifecycle();
    assert_eq!(reset.lifecycle, OrderLifecycle::Active);
    assert!(order.is_finished());
    order.reset_lifecycle();
    assert_eq!(order.lifecycle, OrderLifecycle::Active);
    assert!(order.enter_finished_from_active());
    assert!(order.is_finished());
}

#[test]
fn quantity_fill_moves_from_remaining_to_filled() {
    let mut order = limit(1, Side::Buy, 100, 10, 1000);
    assert_eq!(order.quantity_fill(U256::from_u64(4)), U256::from_u64(6));
    assert_eq!(order.quantity(), U256::from_u64(6));
    assert_eq!(order.filled_quantity(), U256::from_u64(4));
    assert_eq!(order.quantity_fill(U256::from_u64(9)), U256::from_u64(0));
    assert_eq!(order.filled_quantity(), U256::from_u64(13));
    order.filled_quantity = U256::max_value();
    order.quantity_fill(U256::from_u64(1));
    assert_eq!(order.filled_quantity(), U256::max_value());
}

#[test]
fn status_and_reasons_are_recorded() {
    let mut order = limit(1, Side::Buy, 100, 10, 1000);
    order.update_status(OrderStatus::Cancelled);
    order.update_cancel_reason(apex_core::prelude::CancelReason::TimeInForceExpired);
    order.update_reject_reason(apex_core::prelude::RejectReason::InsufficientLiquidity);
    assert_eq!(order.status(), OrderStatus::Cancelled);
    assert_eq!(
        order.cancel_reason,
        Some(apex_core::prelude::CancelReason::TimeInForceExpired)
    );
    assert_eq!(
        order.reject_reason,
        Some(apex_core::prelude::RejectReason::InsufficientLiquidity)
    );
}

#[test]
fn slippage_bound_is_price_plus_or_minus_the_share() {
    let mut buy = market(1, Side::Buy, 10, 1000);
    assert_eq!(buy.slippage_bound_price(Price::from(20_000u64)), None);
    buy.slippage_tolerance = Some(SlippageTolerance(50));
    assert_eq!(
        buy.slippage_bound_price(Price::from(20_000u64)),
        Some(Price::from(20_100u64))
    );
    let mut sell = market(2, Side::Sell, 10, 1000);
    sell.slippage_tolerance = Some(SlippageTolerance(50));
    assert_eq!(
        sell.slippage_bound_price(Price::from(20_000u64)),
        Some(Price::from(19_900u64))
    );
    // the share is rounded down: 100 * 10 / 10000 is 0
    buy.slippage_tolerance = Some(SlippageTolerance(10));
    assert_eq!(buy.slippage_bound_price(Price::from(100u64)), Some(Price::from(100u64)));
    // no tolerance at all: the bound is the price
    buy.slippage_tolerance = Some(SlippageTolerance(0));
    assert_eq!(buy.slippage_bound_price(Price::from(777u64)), Some(Price::from(777u64)));
}

#[test]
fn slippage_bound_stays_within_the_range_of_a_price() {
    let mut buy = market(1, Side::Buy, 10, 1000);
    buy.slippage_tolerance = Some(SlippageTolerance(5000));
    assert_eq!(buy.slippage_bound_price(U256::max_value()), Some(U256::max_value()));
    let mut sell = market(2, Side::Sell, 10, 1000);
    sell.slippage_tolerance = Some(SlippageTolerance(20_000));
    assert_eq!(sell.slippage_bound_price(Price::from(100u64)), Some(Price::from(0u64)));
    // a price of two words: 2^64 * 5000 / 10000 is 2^63
    sell.slippage_tolerance = Some(SlippageTolerance(5000));
    let two_words = U256 { w0: 0, w1: 1, w2: 0, w3: 0 };
    assert_eq!(
        sell.slippage_bound_price(two_words),
        Some(U256 { w0: 1 << 63, w1: 0, w2: 0, w3: 0 })
    );
    buy.slippage_tolerance = Some(SlippageTolerance(5000));
    assert_eq!(
        buy.slippage_bound_price(two_words),
        Some(U256 { w0: 1 << 63, w1: 1, w2: 0, w3: 0 })
    );
}

#[test]
fn wide_integers_compare_and_saturate() {
    let one = U256::from_u64(1);
    let two_words = U256 { w0: 0, w1: 1, w2: 0, w3: 0 };
    assert!(one.lt(&two_words));
    assert!(!two_words.lt(&one));
    assert!(!one.lt(&one));
    assert!(two_words.gt(&one));
    assert!(U256::zero().is_zero());
    assert!(!two_words.is_zero());
    assert_eq!(one.min(two_words), one);
    assert_eq!(two_words.min(one), one);
    assert_eq!(
        U256::from_u64(u64::MAX).saturating_add(&one),
        two_words
    );
    assert_eq!(U256::max_value().saturating_add(&one), U256::max_value());
    assert_eq!(two_words.saturating_sub(&one), U256::from_u64(u64::MAX));
    assert_eq!(one.saturating_sub(&two_words), U256::from_u64(0));
    assert_eq!(U256::from(5u64), U256::from_u64(5));
}

#[test]
fn basis_points_take_the_share_rounded_down() {
    assert_eq!(U256::from_u64(100).basis_points(10), U256::from_u64(0));
    assert_eq!(U256::from_u64(20_000).basis_points(10), U256::from_u64(20));
    assert_eq!(U256::from_u64(19_999).basis_points(5000), U256::from_u64(9_999));
    assert_eq!(U256::from_u64(7).basis_points(0), U256::from_u64(0));
    // (2^256 - 1) * 10000 / 10000 is the value itself
    assert_eq!(U256::max_value().basis_points(10_000), U256::max_value());
    // a share that does not fit is held at the largest value
    assert_eq!(U256::max_value().basis_points(20_000), U256::max_value());
    // (2^256 - 1) * 5000 / 10000 is 2^255 - 1, rounded down
    assert_eq!(
        U256::max_value().basis_points(5000),
        U256 { w0: u64::MAX, w1: u64::MAX, w2: u64::MAX, w3: u64::MAX >> 1 }
    );
}

#[test]
fn validate_accepts_well_formed_orders() {
    assert_eq!(limit(1, Side::Buy, 100, 10, 1000).validate(), Ok(()));
    let mut till_date = limit(1, Side::Sell, 100, 10, 1000);
    till_date.time_in_force = TimeInForce::GoodTillDate(5000);
    till_date.liquidity_directive = LiquidityDirective::MakerOnly;
    assert_eq!(till_date.validate(), Ok(()));
    assert_eq!(market(2, Side::Buy, 10, 1000).validate(), Ok(()));
    let mut fok = market(3, Side::Sell, 10, 1000);
    fok.match_strategy = MatchStrategy::FillOrKill;
    fok.liquidity_directive = LiquidityDirective::TakerOnly;
    fok.slippage_tolerance = Some(SlippageTolerance(5000));
    assert_eq!(fok.validate(), Ok(()));
}

#[test]
fn validate_rejects_limit_orders_that_do_not_fit() {
    let good = limit(1, Side::Buy, 100, 10, 1000);
    let mut order = good;
    order.match_strategy = MatchStrategy::ImmediateOrCancel;
    assert_eq!(order.validate(), Err(OrderValidationError::InvalidMatchStrategy));
    order.match_strategy = MatchStrategy::FillOrKill;
    assert_eq!(order.validate(), Err(OrderValidationError::InvalidMatchStrategy));
    let mut order = good;
    order.liquidity_directive = LiquidityDirective::TakerOnly;
    assert_eq!(order.validate(), Err(OrderValidationError::InvalidLiquidityDirective));
    let mut order = good;
    order.time_in_force = TimeInForce::Immediate;
    assert_eq!(order.validate(), Err(OrderValidationError::InvalidTimeInForce));
    let mut order = good;
    order.slippage_tolerance = Some(SlippageTolerance(0));
    assert_eq!(order.validate(), Err(OrderValidationError::SlippageNotApplicable));
    // the checks come in this order
    order.time_in_force = TimeInForce::Immediate;
    assert_eq!(order.validate(), Err(OrderValidationError::InvalidTimeInForce));
    order.liquidity_directive = LiquidityDirective::TakerOnly;
    assert_eq!(order.validate(), Err(OrderValidationError::InvalidLiquidityDirective));
    order.match_strategy = MatchStrategy::FillOrKill;
    assert_eq!(order.validate(), Err(OrderValidationError::InvalidMatchStrategy));
}

#[test]
fn validate_rejects_market_orders_that_do_not_fit() {
    let good = market(1, Side::Buy, 10, 1000);
    let mut order = good;
    order.match_strategy = MatchStrategy::Standard;
    assert_eq!(order.validate(), Err(OrderValidationError::InvalidMatchStrategy));
    let mut order = good;
    order.liquidity_directive = LiquidityDirective::MakerOnly;
    assert_eq!(order.validate(), Err(OrderValidationError::InvalidLiquidityDirective));
    let mut order = good;
    order.time_in_force = TimeInForce::GoodTillCancelled;
    assert_eq!(order.validate(), Err(OrderValidationError::InvalidTimeInForce));
    order.time_in_force = TimeInForce::GoodTillDate(1);
    assert_eq!(order.validate(), Err(OrderValidationError::InvalidTimeInForce));
    let mut order = good;
    order.slippage_tolerance = Some(SlippageTolerance(5001));
    assert_eq!(order.validate(), Err(OrderValidationError::SlippageExceedsMaximum));
    order.slippage_tolerance = Some(SlippageTolerance(5000));
    assert_eq!(order.validate(), Ok(()));
}

#[test]
fn matched_trades_the_smaller_quantity_at_the_maker_price() {
    let mut taker = limit(2, Side::Buy, 105, 4, 1001);
    let mut maker = limit(1, Side::Sell, 100, 10, 1000);
    let (maker_trade, taker_trade) = Trade::matched(77, &mut taker, &mut maker).unwrap();
    assert_eq!(
        maker_trade,
        Trade {
            role: TradeRole::Maker,
            order_id: 1,
            price: Price::from(100u64),
            quantity: Quantity::from(4u64),
            created_at: 77,
        }
    );
    assert_eq!(
        taker_trade,
        Trade {
            role: TradeRole::Taker,
            order_id: 2,
            price: Price::from(100u64),
            quantity: Quantity::from(4u64),
            created_at: 77,
        }
    );
    assert_eq!(taker.quantity(), Quantity::from(0u64));
    assert_eq!(taker.filled_quantity(), Quantity::from(4u64));
    assert_eq!(taker.status(), OrderStatus::Filled);
    assert_eq!(maker.quantity(), Quantity::from(6u64));
    assert_eq!(maker.filled_quantity(), Quantity::from(4u64));
    assert_eq!(maker.status(), OrderStatus::PartiallyFilled);
}

#[test]
fn matched_does_nothing_when_one_side_has_nothing_left() {
    let mut taker = limit(2, Side::Buy, 105, 0, 1001);
    let mut maker = limit(1, Side::Sell, 100, 10, 1000);
    let before = (taker, maker);
    assert_eq!(Trade::matched(77, &mut taker, &mut maker), None);
    assert_eq!((taker, maker), before);
}
