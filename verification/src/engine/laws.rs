use crate::engine::book::{
    ahead, lemma_ahead_decreases, lemma_first_after_unique, spec_first_after, spec_next_taker,
    spec_slot, BookState, CrossCursor,
};
use crate::engine::error::CancelOrderError;
use crate::engine::matching::{
    fill_pair, lemma_cross_pass_step, lemma_execute_step, lemma_fill_step, lemma_lock_step,
    lemma_market_pass_step, lemma_release_step, no_active, spec_market_pass,
    spec_market_slip, spec_match_market, spec_match_orders, spec_rejected, FillState, LockState,
    PassState,
};
use crate::engine::priority::{can_make, in_book_order, spent, touched};
use crate::engine::store::is_first_after;
use crate::engine::types::{
    key_lt, LiquidityDirective, MatchStrategy, Order, OrderID, OrderLifecycle, OrderStatus,
    OrderType, Price, Side, SlippageTolerance, SortKey, Trade,
};
use vstd::prelude::*;

verus! {

/// Every identifier of the index leads to an order that the book holds,
/// under the book key that the index gives, and that order has the
/// identifier.
pub proof fn lemma_index_resolves(book: BookState, id: OrderID)
    requires
        book.wf(),
        book.index.dom().contains(id),
    ensures
        book.spec_find(id) matches Some(order) && order.id == id && book.holds(order)
            && order.spec_book_key() == book.index[id],
{
    book.lemma_find(id);
}

/// An order that the book holds is not `Filled`: a filled order has left
/// the book.
pub proof fn lemma_filled_orders_are_gone(book: BookState, order: Order)
    requires
        book.wf(),
        book.holds(order),
    ensures
        order.status != OrderStatus::Filled,
{
    book.lemma_held_is_found(order);
}

/// In a book in which no market order is `Active`, as it is after a
/// matching step, no `Active` order that passes validation is `TakerOnly`:
/// such an order is a market order, and those do not rest.
pub proof fn lemma_taker_only_never_rests(book: BookState, order: Order)
    requires
        book.wf(),
        no_active(book.market),
        book.holds(order),
        order.spec_validate() is Ok,
        order.lifecycle == OrderLifecycle::Active,
    ensures
        order.liquidity_directive != LiquidityDirective::TakerOnly,
{
    if order.order_type == OrderType::Market {
        assert(book.market.dom().contains(spec_slot(order)));
    }
}

/// Cancelling an identifier that the book does not have fails with
/// `OrderNotFound` and leaves the book as it is, so that it fails in the
/// same way however often it is repeated.
pub proof fn lemma_cancel_unknown(book: BookState, id: OrderID)
    requires
        !book.index.dom().contains(id),
    ensures
        book.cancel_result(id) == Err::<(), CancelOrderError>(CancelOrderError::OrderNotFound),
        book.cancelled(id) == book,
        book.cancelled(id).cancel_result(id) == book.cancel_result(id),
{
}

/// Whether the two sides of a book do not cross: the best buy price is
/// below the best sell price, or one side is empty.
pub open spec fn uncrossed(book: BookState) -> bool {
    match (book.best_price(Side::Buy), book.best_price(Side::Sell)) {
        (Some(buy), Some(sell)) => buy@ < sell@,
        _ => true,
    }
}

/// The pass over the market orders changes nothing where no market order
/// is `Active`.
pub proof fn lemma_market_pass_idle(now_microseconds: u64, state: PassState, after: Option<SortKey>)
    requires
        no_active(state.book.market),
    ensures
        spec_market_pass(now_microseconds, state, after) == state,
    decreases ahead(after),
{
    lemma_market_pass_step(now_microseconds, state, after);
    match spec_first_after(state.book.market, after) {
        None => {},
        Some((key, taker)) => {
            assert(is_first_after(state.book.market, after, key));
            lemma_ahead_decreases(after, key);
            let step = spec_match_market(now_microseconds, state.book, taker);
            assert(state.updated + step.updated =~= state.updated);
            assert(state.trades + step.trades =~= state.trades);
            lemma_market_pass_idle(now_microseconds, state, Some(key));
        },
    }
}

/// A matching step on a book at rest, one in which no market order is
/// `Active` and the two sides do not cross, makes no trade, reports
/// nothing and leaves the book as it is.
pub proof fn lemma_book_at_rest_stays(now_microseconds: u64, book: BookState)
    requires
        no_active(book.market),
        uncrossed(book),
    ensures
        spec_match_orders(now_microseconds, book) == (PassState {
            book,
            updated: Seq::empty(),
            trades: Seq::empty(),
        }),
{
    let start = PassState { book, updated: Seq::empty(), trades: Seq::empty() };
    lemma_market_pass_idle(now_microseconds, start, None);
    let cursor = CrossCursor { buy_after: None, sell_after: None };
    lemma_cross_pass_step(now_microseconds, start, cursor);
    assert(spec_next_taker(book.buy, book.sell, cursor) is None);
}

/// The book that holds `order` and nothing else: an empty book with the
/// commit number `seq` that has taken `order` in.
pub open spec fn spec_alone(seq: u64, order: Order) -> BookState {
    BookState::spec_empty(seq).place(Order { status: OrderStatus::Placed, ..order }).bump()
}

/// A limit order that comes into an empty book rests: a matching step
/// makes no trade, reports nothing and leaves the book as it is.
pub proof fn lemma_empty_book_limit_rests(now_microseconds: u64, seq: u64, order: Order)
    requires
        order.order_type == OrderType::Limit,
    ensures
        spec_match_orders(now_microseconds, spec_alone(seq, order)) == (PassState {
            book: spec_alone(seq, order),
            updated: Seq::empty(),
            trades: Seq::empty(),
        }),
        spec_alone(seq, order).holds(Order { status: OrderStatus::Placed, ..order }),
{
    let book = spec_alone(seq, order);
    match order.side {
        Side::Buy => {
            assert(spec_first_after(book.sell, None) is None);
        },
        Side::Sell => {
            assert(spec_first_after(book.buy, None) is None);
        },
    }
    lemma_book_at_rest_stays(now_microseconds, book);
}

/// A market order that comes into an empty book is rejected for want of
/// liquidity: a matching step makes no trade, reports the order as
/// `Rejected` with `InsufficientLiquidity` and `Finished`, and leaves the
/// book empty. (A fill-or-kill order for the quantity zero is filled by
/// nothing and is left out.)
pub proof fn lemma_empty_book_market_rejected(now_microseconds: u64, seq: u64, order: Order)
    requires
        order.order_type == OrderType::Market,
        order.lifecycle == OrderLifecycle::Active,
        order.match_strategy == MatchStrategy::FillOrKill ==> order.quantity@ != 0,
    ensures
        ({
            let after = spec_match_orders(now_microseconds, spec_alone(seq, order));
            &&& after.trades == Seq::<Trade>::empty()
            &&& after.updated == seq![
                spec_rejected(Order { status: OrderStatus::Placed, ..order }).spec_with_lifecycle(
                    OrderLifecycle::Finished,
                ),
            ]
            &&& after.book == BookState::spec_empty(seq).bump().bump()
        }),
{
    let placed = Order { status: OrderStatus::Placed, ..order };
    let claimed = placed.spec_with_lifecycle(OrderLifecycle::Matched);
    let done = spec_rejected(placed).spec_with_lifecycle(OrderLifecycle::Finished);
    let book = spec_alone(seq, order);
    let slot = spec_slot(placed);
    let side = order.side.spec_opposite();
    let start = PassState { book, updated: Seq::empty(), trades: Seq::empty() };
    assert(is_first_after(book.market, None, slot));
    lemma_first_after_unique(book.market, None, slot);
    assert(spec_first_after(book.side(side), None) is None);
    assert(spec_market_slip(book, claimed) is None);
    let none = FillState { book, taker: claimed, updated: Seq::empty(), trades: Seq::empty() };
    lemma_fill_step(now_microseconds, none, side, None, None);
    let lock = LockState { book, remaining: claimed.quantity, ids: Seq::empty() };
    lemma_lock_step(lock, side, None, None);
    lemma_release_step(book, Seq::empty(), 0);
    lemma_execute_step(now_microseconds, none, Seq::empty(), 0);
    let step = spec_match_market(now_microseconds, book, placed);
    assert(step.trades =~= Seq::<Trade>::empty());
    assert(step.updated =~= seq![done]);
    assert(step.book == book.bump());
    lemma_market_pass_step(now_microseconds, start, None);
    let cleared = step.book.unlink(placed);
    assert(cleared.market =~= Map::<SortKey, Order>::empty());
    assert(cleared.index =~= Map::<OrderID, crate::engine::types::BookKey>::empty());
    assert(cleared == BookState::spec_empty(seq).bump().bump());
    let next = PassState {
        book: cleared,
        updated: start.updated + step.updated,
        trades: start.trades + step.trades,
    };
    assert(next.updated =~= seq![done]);
    assert(next.trades =~= Seq::<Trade>::empty());
    lemma_market_pass_step(now_microseconds, next, Some(slot));
    assert(spec_first_after(cleared.market, Some(slot)) is None);
    lemma_cross_pass_step(
        now_microseconds,
        next,
        CrossCursor { buy_after: None, sell_after: None },
    );
    assert(spec_first_after(cleared.buy, None) is None);
    assert(spec_first_after(cleared.sell, None) is None);
}

/// Of two limit orders of one side at one price, the one that was changed
/// earlier comes first in the book, as long as the later time is one that
/// a priority can hold.
pub proof fn lemma_price_time_priority(earlier: Order, later: Order)
    requires
        earlier.order_type == OrderType::Limit,
        later.order_type == OrderType::Limit,
        earlier.side == later.side,
        earlier.price == later.price,
        earlier.updated_at < later.updated_at,
        later.updated_at * 100 + 99 <= u64::MAX,
    ensures
        earlier.spec_book_key().comes_before(later.spec_book_key()),
        key_lt(spec_slot(earlier), spec_slot(later)),
{
    earlier.spec_book_key().lemma_sort_key_order(later.spec_book_key());
}

/// Price-time priority: where a side has been worked on in the order of
/// the book, as the filling of a taker works on it, and of two limit orders
/// at one price the later one has been matched, nothing is left of the
/// earlier one, if a taker could be filled from it.
pub proof fn lemma_earlier_is_matched_first(
    before: Map<SortKey, Order>,
    after: Map<SortKey, Order>,
    earlier: Order,
    later: Order,
)
    requires
        in_book_order(before, after),
        before.dom().contains(spec_slot(earlier)),
        before[spec_slot(earlier)] == earlier,
        earlier.order_type == OrderType::Limit,
        later.order_type == OrderType::Limit,
        earlier.side == later.side,
        earlier.price == later.price,
        earlier.updated_at < later.updated_at,
        later.updated_at * 100 + 99 <= u64::MAX,
        can_make(earlier),
        touched(before, after, spec_slot(later)),
    ensures
        spent(after, spec_slot(earlier)),
{
    lemma_price_time_priority(earlier, later);
    assert(can_make(before[spec_slot(earlier)]));
}

/// A slippage tolerance of zero gives the best price itself as the bound.
pub proof fn lemma_zero_tolerance_bound(order: Order, price: Price)
    requires
        order.slippage_tolerance == Some(SlippageTolerance(0)),
    ensures
        order.spec_slippage_bound_price(price) == Some(price),
{
    price.lemma_from_view();
    price.lemma_bounded();
    assert(crate::engine::wide::basis_point_share(price@, 0) == 0);
    crate::engine::wide::U256::lemma_from_nat(0);
}

/// With a slippage tolerance of zero a market order trades at the best
/// price of the other side only.
pub proof fn lemma_zero_slippage_fills_at_best(
    now_microseconds: u64,
    book: BookState,
    taker: Order,
    best: Price,
    maker_trade: Trade,
    taker_trade: Trade,
)
    requires
        book.wf(),
        taker.slippage_tolerance == Some(SlippageTolerance(0)),
        book.best_price(taker.side.spec_opposite()) == Some(best),
        fill_pair(
            now_microseconds,
            book,
            taker.id,
            taker.side.spec_opposite(),
            spec_market_slip(book, taker),
            maker_trade,
            taker_trade,
        ),
    ensures
        maker_trade.price == best,
        taker_trade.price == best,
{
    let side = taker.side.spec_opposite();
    lemma_zero_tolerance_bound(taker, best);
    let maker = book.spec_find_limit(maker_trade.order_id)->Some_0;
    book.lemma_find_limit(maker_trade.order_id);
    let entries = book.side(side);
    let front_key = spec_first_after(entries, None)->Some_0.0;
    let front = entries[front_key];
    assert(is_first_after(entries, None, front_key));
    book.lemma_side_entry(side, front_key);
    assert(entries.dom().contains(spec_slot(maker)));
    book.lemma_side_entry(side, spec_slot(maker));
    maker.spec_book_key().lemma_sort_key_order(front.spec_book_key());
    maker.price.lemma_view_injective(best);
}

} // verus!
