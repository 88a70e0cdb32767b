use crate::engine::book::{
    ahead, kin, lemma_ahead_decreases, lemma_next_maker, lemma_next_taker, spec_beyond,
    spec_first_after, spec_next_maker, spec_next_taker, spec_slot, BookState, CrossCursor,
    DefaultOrderBook, WalkingResult,
};
use crate::engine::priority::{
    in_book_order, lemma_order_step, passed_are_spent, untouched_ahead,
};
use crate::engine::store::is_after;
use crate::engine::types::Quantity;
use crate::engine::error::{CancelOrderError, UpdateOrderError};
use crate::engine::ledger::{
    conserves, conserves_but, keeps_quantities, known, lemma_conserves_chain,
    lemma_conserves_change, lemma_conserves_start, lemma_keeps_itself, lemma_kept_is_conserved,
    lemma_known_add, lemma_known_descends, lemma_store_keeps, lemma_taker_done_conserves,
    lemma_taker_idle_conserves, lemma_traded_by_add, traded_by,
};
use crate::engine::syncer::OrderBookSyncer;
use crate::engine::types::{
    LiquidityDirective, MatchStrategy, Order, OrderID, OrderLifecycle, OrderStatus, OrderType,
    Price, RejectReason, Side, SortKey, Trade, TradeRole,
};
use vstd::prelude::*;

verus! {

/// What the match of one taker with one maker comes to: the two orders
/// after it, what is reported of the maker, the trades, and whether the
/// maker is filled and leaves the book.
pub struct PairOutcome {
    pub taker: Order,
    pub maker: Order,
    pub updated: Seq<Order>,
    pub trades: Seq<Trade>,
    pub removed: bool,
}

/// The match of a claimed taker with a claimed maker.
///
/// They trade the smaller of what remains of each, at the maker's price. If
/// that is nothing, the maker is released and stays, and nothing is
/// reported. Else a maker that is filled is finished and leaves the book; a
/// maker with a remainder is released and stays, with the priority it had.
/// The maker is reported as it then is, and the two trades, the maker's
/// first.
#[verifier::opaque]
pub open spec fn spec_pair(now_microseconds: u64, taker: Order, maker: Order) -> PairOutcome {
    let traded = Trade::spec_traded(taker, maker);
    if traded@ == 0 {
        PairOutcome {
            taker,
            maker: maker.spec_transition(OrderLifecycle::Matched, OrderLifecycle::Active),
            updated: Seq::empty(),
            trades: Seq::empty(),
            removed: false,
        }
    } else {
        let filled = maker.spec_after_trade(traded);
        let removed = filled.status == OrderStatus::Filled;
        PairOutcome {
            taker: taker.spec_after_trade(traded),
            maker: if removed {
                filled.spec_transition(OrderLifecycle::Matched, OrderLifecycle::Finished)
            } else {
                filled.spec_transition(OrderLifecycle::Matched, OrderLifecycle::Active)
            },
            updated: seq![
                if removed {
                    filled.spec_transition(OrderLifecycle::Matched, OrderLifecycle::Finished)
                } else {
                    filled.spec_with_lifecycle(OrderLifecycle::Active)
                },
            ],
            trades: seq![
                Trade::spec_maker_trade(now_microseconds, taker, maker),
                Trade::spec_taker_trade(now_microseconds, taker, maker),
            ],
            removed,
        }
    }
}

/// Whether two trades are the two records of one match made at
/// `now_microseconds`: the maker's and the taker's, with the same price,
/// the same quantity, which is not zero, and the same time.
pub open spec fn trade_pair(now_microseconds: u64, maker_trade: Trade, taker_trade: Trade) -> bool {
    &&& maker_trade.role == TradeRole::Maker
    &&& taker_trade.role == TradeRole::Taker
    &&& maker_trade.price == taker_trade.price
    &&& maker_trade.quantity == taker_trade.quantity
    &&& maker_trade.quantity@ > 0
    &&& maker_trade.created_at == now_microseconds
    &&& taker_trade.created_at == now_microseconds
}

/// Whether every reported order that is `Filled` has nothing remaining.
pub open spec fn filled_have_nothing_left(updated: Seq<Order>) -> bool {
    forall|at: int|
        0 <= at < updated.len() && (#[trigger] updated[at]).status == OrderStatus::Filled
            ==> updated[at].quantity@ == 0
}

/// What a match does to its two orders.
///
/// Both stay the orders they were. If they trade, the quantity of the
/// trade leaves what remains of each, the two trades are a pair at the
/// maker's price, and the maker is reported. An order comes out `Filled`
/// only with nothing remaining, unless the taker went in `Filled`. The maker
/// leaves the book exactly if it comes out `Filled`. If something remains of
/// the taker, nothing remains of the maker.
pub proof fn lemma_pair(now_microseconds: u64, taker: Order, maker: Order)
    ensures
        ({
            let pair = spec_pair(now_microseconds, taker, maker);
            &&& kin(taker, pair.taker)
            &&& kin(maker, pair.maker)
            &&& pair.taker.lifecycle == taker.lifecycle
            &&& pair.trades.len() == 0 || pair.trades.len() == 2
            &&& pair.updated.len() == 0 <==> pair.trades.len() == 0
            &&& pair.updated.len() <= 1
            &&& pair.trades.len() == 0 ==> pair.taker == taker && !pair.removed
                && pair.maker.quantity == maker.quantity && pair.maker.status == maker.status
            &&& pair.trades.len() == 2 ==> {
                &&& trade_pair(now_microseconds, pair.trades[0], pair.trades[1])
                &&& pair.trades[0].order_id == maker.id
                &&& pair.trades[0].price == maker.price
                &&& pair.trades[1].order_id == taker.id
                &&& taker.quantity@ == pair.taker.quantity@ + pair.trades[0].quantity@
                &&& maker.quantity@ == pair.maker.quantity@ + pair.trades[0].quantity@
                &&& pair.taker.status == OrderStatus::Filled <==> pair.taker.quantity@ == 0
                &&& pair.maker.status == OrderStatus::Filled <==> pair.maker.quantity@ == 0
                &&& kin(maker, pair.updated[0])
                &&& pair.updated[0].quantity == pair.maker.quantity
                &&& pair.updated[0].status == pair.maker.status
            }
            &&& pair.removed <==> pair.trades.len() == 2 && pair.maker.status == OrderStatus::Filled
            &&& maker.status != OrderStatus::Filled && !pair.removed ==> pair.maker.status
                != OrderStatus::Filled
            &&& filled_have_nothing_left(pair.updated)
            &&& pair.taker.quantity@ != 0 ==> pair.maker.quantity@ == 0
            &&& pair.trades.len() == 0 ==> pair.maker == maker.spec_transition(
                OrderLifecycle::Matched,
                OrderLifecycle::Active,
            )
        }),
{
    reveal(spec_pair);
    let traded = Trade::spec_traded(taker, maker);
    if traded@ != 0 {
        crate::engine::wide::U256::lemma_from_nat(
            crate::engine::wide::saturating_difference(taker.quantity@, traded@),
        );
        crate::engine::wide::U256::lemma_from_nat(
            crate::engine::wide::saturating_difference(maker.quantity@, traded@),
        );
    }
}

/// Whether two trades are the two records of one match of the order `taker` with a
/// maker of `side` in the book `origin`: a pair, the taker's trade under
/// the taker's identifier, the maker's under that of a limit order of
/// `side` that is not `TakerOnly`, at that order's price, which is not
/// beyond `slip`.
pub open spec fn fill_pair(
    now_microseconds: u64,
    origin: BookState,
    taker: OrderID,
    side: Side,
    slip: Option<Price>,
    maker_trade: Trade,
    taker_trade: Trade,
) -> bool {
    &&& trade_pair(now_microseconds, maker_trade, taker_trade)
    &&& taker_trade.order_id == taker
    &&& origin.spec_find_limit(maker_trade.order_id) matches Some(maker) && maker.side == side
        && maker.price == maker_trade.price && maker.liquidity_directive
        != LiquidityDirective::TakerOnly && !spec_beyond(side, slip, maker_trade.price)
}

/// Whether `trades` are the trades of one filling of `taker` from the
/// makers of `side` in the book `origin`: pairs, the maker's trade first.
pub open spec fn fill_trades(
    now_microseconds: u64,
    origin: BookState,
    taker: OrderID,
    side: Side,
    slip: Option<Price>,
    trades: Seq<Trade>,
) -> bool {
    &&& trades.len() % 2 == 0
    &&& forall|at: int|
        0 <= at < trades.len() && at % 2 == 0 ==> fill_pair(
            now_microseconds,
            origin,
            taker,
            side,
            slip,
            #[trigger] trades[at],
            trades[at + 1],
        )
}

/// The trades of one more match add to the trades of a filling.
pub proof fn lemma_fill_trades_push(
    now_microseconds: u64,
    origin: BookState,
    taker: OrderID,
    side: Side,
    slip: Option<Price>,
    trades: Seq<Trade>,
    more: Seq<Trade>,
)
    requires
        fill_trades(now_microseconds, origin, taker, side, slip, trades),
        more.len() == 0 || (more.len() == 2 && fill_pair(
            now_microseconds,
            origin,
            taker,
            side,
            slip,
            more[0],
            more[1],
        )),
    ensures
        fill_trades(now_microseconds, origin, taker, side, slip, trades + more),
{
    let all = trades + more;
    if more.len() == 0 {
        assert(all =~= trades);
    } else {
        assert forall|at: int| 0 <= at < all.len() && at % 2 == 0 implies fill_pair(
            now_microseconds,
            origin,
            taker,
            side,
            slip,
            #[trigger] all[at],
            all[at + 1],
        ) by {
            if at < trades.len() {
                assert(all[at] == trades[at]);
                assert(all[at + 1] == trades[at + 1]);
            } else {
                assert(at == trades.len());
                assert(all[at] == more[0]);
                assert(all[at + 1] == more[1]);
            }
        }
    }
}

/// Reports in which the filled have nothing left stay so when more such
/// are added.
pub proof fn lemma_reports_add(updated: Seq<Order>, more: Seq<Order>)
    requires
        filled_have_nothing_left(updated),
        filled_have_nothing_left(more),
    ensures
        filled_have_nothing_left(updated + more),
{
    let all = updated + more;
    assert forall|at: int|
        0 <= at < all.len() && (#[trigger] all[at]).status == OrderStatus::Filled implies all[at].quantity@
        == 0 by {
        if at < updated.len() {
            assert(all[at] == updated[at]);
        } else {
            assert(all[at] == more[at - updated.len()]);
        }
    }
}

/// The match of a taker with a maker that the book holds keeps the
/// conservation of all quantities but the taker's, which is accounted
/// beside the book: what the taker had is what it has and what it traded.
pub proof fn lemma_pair_step_conserves(
    now_microseconds: u64,
    origin: BookState,
    book: BookState,
    taker: Order,
    maker: Order,
    updated: Seq<Order>,
    trades: Seq<Trade>,
)
    requires
        book.wf(),
        book.shelf(maker).dom().contains(spec_slot(maker)),
        kin(book.shelf(maker)[spec_slot(maker)], maker),
        book.shelf(maker)[spec_slot(maker)].quantity == maker.quantity,
        maker.id != taker.id,
        conserves_but(origin, taker.id, book, updated, trades),
        known(origin, updated, trades),
        origin.spec_find(taker.id) is Some,
        origin.spec_find(maker.id) is Some,
    ensures
        ({
            let pair = spec_pair(now_microseconds, taker, maker);
            let after = if pair.removed {
                book.unlink(pair.maker)
            } else {
                book.store(pair.maker)
            };
            &&& conserves_but(
                origin,
                taker.id,
                after,
                updated + pair.updated,
                trades + pair.trades,
            )
            &&& known(origin, updated + pair.updated, trades + pair.trades)
            &&& after.spec_find(taker.id) == book.spec_find(taker.id)
            &&& taker.quantity@ == pair.taker.quantity@ + traded_by(pair.trades, taker.id)
        }),
{
    let pair = spec_pair(now_microseconds, taker, maker);
    let after = if pair.removed {
        book.unlink(pair.maker)
    } else {
        book.store(pair.maker)
    };
    let held = book.shelf(maker)[spec_slot(maker)];
    lemma_pair(now_microseconds, taker, maker);
    book.lemma_held_is_found(held);
    assert forall|id: OrderID| id != maker.id implies after.spec_find(id)
        == #[trigger] book.spec_find(id) by {
        if pair.removed {
            book.lemma_unlink_find(pair.maker, id);
        } else {
            book.lemma_store_find(pair.maker, id);
        }
    }
    if pair.removed {
        book.lemma_unlink_find(pair.maker, maker.id);
    } else {
        book.lemma_store_find(pair.maker, maker.id);
    }
    reveal_with_fuel(traded_by, 3);
    reveal_with_fuel(crate::engine::ledger::last_reported, 2);
    if pair.trades.len() == 2 {
        assert(pair.trades.drop_last() =~= seq![pair.trades[0]]);
        assert(pair.trades.drop_last().drop_last() =~= Seq::<Trade>::empty());
        assert(pair.updated.drop_last() =~= Seq::<Order>::empty());
        assert(pair.updated =~= seq![pair.updated[0]]);
    } else {
        assert(pair.updated.len() == 0);
    }
    lemma_conserves_change(
        origin,
        taker.id,
        book,
        after,
        updated,
        pair.updated,
        trades,
        pair.trades,
        maker.id,
    );
    assert(known(origin, pair.updated, pair.trades));
    lemma_known_add(origin, updated, trades, pair.updated, pair.trades);
}

/// Where the filling of one taker stands: the book, the taker, and what
/// has been reported so far.
pub struct FillState {
    pub book: BookState,
    pub taker: Order,
    pub updated: Seq<Order>,
    pub trades: Seq<Trade>,
}

/// The filling of a taker from the makers of `side`, from the place
/// `after` on.
///
/// The makers are visited from the best price on, as far as `slip`. A maker
/// that is not `Active` is passed. Each other one is claimed and matched
/// with the taker; it leaves the book if it is filled and is written back
/// if not. The filling ends when nothing remains of the taker, or with the
/// last maker.
#[verifier::opaque]
pub open spec fn spec_fill(
    now_microseconds: u64,
    state: FillState,
    side: Side,
    slip: Option<Price>,
    after: Option<SortKey>,
) -> FillState
    decreases ahead(after),
{
    match spec_next_maker(state.book.side(side), side, slip, after) {
        None => state,
        Some((key, maker)) => {
            proof {
                lemma_next_maker(state.book.side(side), side, slip, after);
                lemma_ahead_decreases(after, key);
            }
            if maker.lifecycle != OrderLifecycle::Active {
                spec_fill(now_microseconds, state, side, slip, Some(key))
            } else {
                let pair = spec_pair(
                    now_microseconds,
                    state.taker,
                    maker.spec_with_lifecycle(OrderLifecycle::Matched),
                );
                let next = FillState {
                    book: if pair.removed {
                        state.book.unlink(pair.maker)
                    } else {
                        state.book.store(pair.maker)
                    },
                    taker: pair.taker,
                    updated: state.updated + pair.updated,
                    trades: state.trades + pair.trades,
                };
                if pair.taker.quantity@ == 0 {
                    next
                } else {
                    spec_fill(now_microseconds, next, side, slip, Some(key))
                }
            }
        },
    }
}

/// One step of the filling of a taker.
pub proof fn lemma_fill_step(
    now_microseconds: u64,
    state: FillState,
    side: Side,
    slip: Option<Price>,
    after: Option<SortKey>,
)
    ensures
        spec_fill(now_microseconds, state, side, slip, after) == match spec_next_maker(
            state.book.side(side),
            side,
            slip,
            after,
        ) {
            None => state,
            Some((key, maker)) => if maker.lifecycle != OrderLifecycle::Active {
                spec_fill(now_microseconds, state, side, slip, Some(key))
            } else {
                let pair = spec_pair(
                    now_microseconds,
                    state.taker,
                    maker.spec_with_lifecycle(OrderLifecycle::Matched),
                );
                let next = FillState {
                    book: if pair.removed {
                        state.book.unlink(pair.maker)
                    } else {
                        state.book.store(pair.maker)
                    },
                    taker: pair.taker,
                    updated: state.updated + pair.updated,
                    trades: state.trades + pair.trades,
                };
                if pair.taker.quantity@ == 0 {
                    next
                } else {
                    spec_fill(now_microseconds, next, side, slip, Some(key))
                }
            },
        },
{
    reveal_with_fuel(spec_fill, 2);
}

/// What the match of one taker against the book comes to: the book after
/// it, what the walk that brought the taker is asked to do, and what is
/// reported.
pub struct StepOutcome {
    pub book: BookState,
    pub result: WalkingResult,
    pub updated: Seq<Order>,
    pub trades: Seq<Trade>,
}

/// The outcome of a step that changes nothing.
pub open spec fn spec_no_step(book: BookState) -> StepOutcome {
    StepOutcome {
        book,
        result: WalkingResult { remove: false, exit: false },
        updated: Seq::empty(),
        trades: Seq::empty(),
    }
}

/// The match of a limit order that the walk over the crossing orders has
/// elected as taker.
///
/// A taker that is not `Active` is passed. Else it is claimed and filled
/// from the makers of the other side whose price is not beyond its own. If
/// nothing was traded, it is released and nothing changes. Else a taker of
/// which nothing remains is finished and is to leave the book; one with a
/// remainder is released and written back to its place. The taker is
/// reported behind the makers, and the commit is counted.
pub open spec fn spec_match_limit(now_microseconds: u64, book: BookState, taker: Order) -> StepOutcome {
    if taker.lifecycle != OrderLifecycle::Active {
        spec_no_step(book)
    } else {
        let filled = spec_fill(
            now_microseconds,
            FillState {
                book,
                taker: taker.spec_with_lifecycle(OrderLifecycle::Matched),
                updated: Seq::empty(),
                trades: Seq::empty(),
            },
            taker.side.spec_opposite(),
            Some(taker.price),
            None,
        );
        if filled.updated.len() == 0 && filled.trades.len() == 0 {
            spec_no_step(filled.book)
        } else {
            let removed = filled.taker.status == OrderStatus::Filled;
            let settled = filled.taker.spec_with_lifecycle(
                if removed {
                    OrderLifecycle::Finished
                } else {
                    OrderLifecycle::Active
                },
            );
            StepOutcome {
                book: (if removed {
                    filled.book
                } else {
                    filled.book.store(settled)
                }).bump(),
                result: WalkingResult { remove: removed, exit: false },
                updated: filled.updated.push(settled),
                trades: filled.trades,
            }
        }
    }
}

/// A market order that found too little on the other side.
pub open spec fn spec_rejected(taker: Order) -> Order {
    Order {
        status: OrderStatus::Rejected,
        reject_reason: Some(RejectReason::InsufficientLiquidity),
        ..taker
    }
}

/// The price beyond which a market order does not trade: its slippage
/// bound on the best price of the other side. `None` if that side is empty
/// or the order has no slippage tolerance.
pub open spec fn spec_market_slip(book: BookState, taker: Order) -> Option<Price> {
    match book.best_price(taker.side.spec_opposite()) {
        None => None,
        Some(price) => taker.spec_slippage_bound_price(price),
    }
}

/// Where the locking of liquidity for a fill-or-kill order stands: the
/// book, the quantity still to be found, and the identifiers of the makers
/// that are claimed.
pub struct LockState {
    pub book: BookState,
    pub remaining: Quantity,
    pub ids: Seq<OrderID>,
}

/// The locking of liquidity from the makers of `side`, from the place
/// `after` on: each `Active` maker is claimed and listed, and its quantity
/// taken from what is still to be found, until that is nothing or the last
/// maker is passed.
#[verifier::opaque]
pub open spec fn spec_lock(state: LockState, side: Side, slip: Option<Price>, after: Option<SortKey>) -> LockState
    decreases ahead(after),
{
    match spec_next_maker(state.book.side(side), side, slip, after) {
        None => state,
        Some((key, maker)) => {
            proof {
                lemma_next_maker(state.book.side(side), side, slip, after);
                lemma_ahead_decreases(after, key);
            }
            if maker.lifecycle != OrderLifecycle::Active {
                spec_lock(state, side, slip, Some(key))
            } else {
                let next = LockState {
                    book: state.book.store(maker.spec_with_lifecycle(OrderLifecycle::Matched)),
                    remaining: state.remaining.spec_saturating_sub(maker.quantity),
                    ids: state.ids.push(maker.id),
                };
                if next.remaining@ == 0 {
                    next
                } else {
                    spec_lock(next, side, slip, Some(key))
                }
            }
        },
    }
}

/// One step of the locking of liquidity.
pub proof fn lemma_lock_step(state: LockState, side: Side, slip: Option<Price>, after: Option<SortKey>)
    ensures
        spec_lock(state, side, slip, after) == match spec_next_maker(
            state.book.side(side),
            side,
            slip,
            after,
        ) {
            None => state,
            Some((key, maker)) => if maker.lifecycle != OrderLifecycle::Active {
                spec_lock(state, side, slip, Some(key))
            } else {
                let next = LockState {
                    book: state.book.store(maker.spec_with_lifecycle(OrderLifecycle::Matched)),
                    remaining: state.remaining.spec_saturating_sub(maker.quantity),
                    ids: state.ids.push(maker.id),
                };
                if next.remaining@ == 0 {
                    next
                } else {
                    spec_lock(next, side, slip, Some(key))
                }
            },
        },
{
    reveal_with_fuel(spec_lock, 2);
}

/// The book after the listed limit orders, from the place `start` of the
/// list on, are released from their claim.
#[verifier::opaque]
pub open spec fn spec_release(book: BookState, ids: Seq<OrderID>, start: int) -> BookState
    decreases ids.len() - start,
{
    if start < 0 || start >= ids.len() {
        book
    } else {
        match book.spec_find_limit(ids[start]) {
            None => spec_release(book, ids, start + 1),
            Some(order) => spec_release(
                book.store(
                    order.spec_transition(OrderLifecycle::Matched, OrderLifecycle::Active),
                ),
                ids,
                start + 1,
            ),
        }
    }
}

/// One step of the release.
pub proof fn lemma_release_step(book: BookState, ids: Seq<OrderID>, start: int)
    ensures
        spec_release(book, ids, start) == if start < 0 || start >= ids.len() {
            book
        } else {
            match book.spec_find_limit(ids[start]) {
                None => spec_release(book, ids, start + 1),
                Some(order) => spec_release(
                    book.store(
                        order.spec_transition(OrderLifecycle::Matched, OrderLifecycle::Active),
                    ),
                    ids,
                    start + 1,
                ),
            }
        },
{
    reveal_with_fuel(spec_release, 2);
}

/// The filling of a taker from the listed limit orders, from the place
/// `start` of the list on, until nothing remains of the taker or the list
/// ends.
#[verifier::opaque]
pub open spec fn spec_execute(now_microseconds: u64, state: FillState, ids: Seq<OrderID>, start: int) -> FillState
    decreases ids.len() - start,
{
    if start < 0 || start >= ids.len() {
        state
    } else {
        match state.book.spec_find_limit(ids[start]) {
            None => spec_execute(now_microseconds, state, ids, start + 1),
            Some(maker) => {
                let pair = spec_pair(now_microseconds, state.taker, maker);
                let next = FillState {
                    book: if pair.removed {
                        state.book.unlink(pair.maker)
                    } else {
                        state.book.store(pair.maker)
                    },
                    taker: pair.taker,
                    updated: state.updated + pair.updated,
                    trades: state.trades + pair.trades,
                };
                if pair.taker.quantity@ == 0 {
                    next
                } else {
                    spec_execute(now_microseconds, next, ids, start + 1)
                }
            },
        }
    }
}

/// One step of the filling from a list.
pub proof fn lemma_execute_step(now_microseconds: u64, state: FillState, ids: Seq<OrderID>, start: int)
    ensures
        spec_execute(now_microseconds, state, ids, start) == if start < 0 || start >= ids.len() {
            state
        } else {
            match state.book.spec_find_limit(ids[start]) {
                None => spec_execute(now_microseconds, state, ids, start + 1),
                Some(maker) => {
                    let pair = spec_pair(now_microseconds, state.taker, maker);
                    let next = FillState {
                        book: if pair.removed {
                            state.book.unlink(pair.maker)
                        } else {
                            state.book.store(pair.maker)
                        },
                        taker: pair.taker,
                        updated: state.updated + pair.updated,
                        trades: state.trades + pair.trades,
                    };
                    if pair.taker.quantity@ == 0 {
                        next
                    } else {
                        spec_execute(now_microseconds, next, ids, start + 1)
                    }
                },
            }
        },
{
    reveal_with_fuel(spec_execute, 2);
}

/// The outcome of a market order that is done: it leaves the book, and it
/// is reported, finished, behind the makers.
pub open spec fn spec_market_done(filled: FillState, taker: Order) -> StepOutcome {
    StepOutcome {
        book: filled.book.bump(),
        result: WalkingResult { remove: true, exit: false },
        updated: filled.updated.push(taker.spec_with_lifecycle(OrderLifecycle::Finished)),
        trades: filled.trades,
    }
}

/// The match of a claimed fill-or-kill market order.
///
/// Liquidity is locked on the other side, as far as `slip`, until it
/// covers the order. If it does not, the claimed makers are released and
/// the order is rejected for want of liquidity. If it does, the order is
/// filled from the claimed makers. Either way the order is finished and
/// leaves the book.
pub open spec fn spec_match_fok(now_microseconds: u64, book: BookState, claimed: Order, slip: Option<Price>) -> StepOutcome {
    let locked = spec_lock(
        LockState { book, remaining: claimed.quantity, ids: Seq::empty() },
        claimed.side.spec_opposite(),
        slip,
        None,
    );
    if locked.remaining@ != 0 {
        spec_market_done(
            FillState {
                book: spec_release(locked.book, locked.ids, 0),
                taker: claimed,
                updated: Seq::empty(),
                trades: Seq::empty(),
            },
            spec_rejected(claimed),
        )
    } else {
        let filled = spec_execute(
            now_microseconds,
            FillState { book: locked.book, taker: claimed, updated: Seq::empty(), trades: Seq::empty() },
            locked.ids,
            0,
        );
        spec_market_done(filled, filled.taker)
    }
}

/// The match of a market order.
///
/// An order that is not `Active` is passed and stays. Else it is claimed,
/// and its slippage bound is taken on the best price of the other side. A
/// fill-or-kill order is matched as such. Any other is filled from the
/// makers of the other side as far as the bound; if nothing was traded it
/// is rejected for want of liquidity. Either way the order is finished and
/// leaves the book.
pub open spec fn spec_match_market(now_microseconds: u64, book: BookState, taker: Order) -> StepOutcome {
    if taker.lifecycle != OrderLifecycle::Active {
        spec_no_step(book)
    } else {
        let claimed = taker.spec_with_lifecycle(OrderLifecycle::Matched);
        let slip = spec_market_slip(book, claimed);
        if taker.match_strategy == MatchStrategy::FillOrKill {
            spec_match_fok(now_microseconds, book, claimed, slip)
        } else {
            let filled = spec_fill(
                now_microseconds,
                FillState { book, taker: claimed, updated: Seq::empty(), trades: Seq::empty() },
                taker.side.spec_opposite(),
                slip,
                None,
            );
            spec_market_done(
                filled,
                if filled.trades.len() == 0 {
                    spec_rejected(filled.taker)
                } else {
                    filled.taker
                },
            )
        }
    }
}

/// Where a pass over the book stands: the book, and what has been
/// reported so far.
pub struct PassState {
    pub book: BookState,
    pub updated: Seq<Order>,
    pub trades: Seq<Trade>,
}

/// The book after the step of one taker: the taker has left the book if
/// the step asked for it.
pub open spec fn spec_stepped(step: StepOutcome, taker: Order) -> BookState {
    if step.result.remove {
        step.book.unlink(taker)
    } else {
        step.book
    }
}

/// The state of a pass after one taker: the taker has left the book if the
/// step asked for it, and what the step reported is added.
pub open spec fn spec_after_step(state: PassState, taker: Order, step: StepOutcome) -> PassState {
    PassState {
        book: spec_stepped(step, taker),
        updated: state.updated + step.updated,
        trades: state.trades + step.trades,
    }
}

/// The pass over the market orders, from the place `after` on, in the
/// order of their priority: each is matched, and leaves the book if its
/// match asks for it.
#[verifier::opaque]
pub open spec fn spec_market_pass(now_microseconds: u64, state: PassState, after: Option<SortKey>) -> PassState
    decreases ahead(after),
{
    match spec_first_after(state.book.market, after) {
        None => state,
        Some((key, taker)) => {
            let step = spec_match_market(now_microseconds, state.book, taker);
            let next = spec_after_step(state, taker, step);
            if step.result.exit {
                next
            } else {
                proof {
                    lemma_ahead_decreases(after, key);
                }
                spec_market_pass(now_microseconds, next, Some(key))
            }
        },
    }
}

/// One step of the pass over the market orders.
pub proof fn lemma_market_pass_step(now_microseconds: u64, state: PassState, after: Option<SortKey>)
    ensures
        spec_market_pass(now_microseconds, state, after) == match spec_first_after(
            state.book.market,
            after,
        ) {
            None => state,
            Some((key, taker)) => {
                let step = spec_match_market(now_microseconds, state.book, taker);
                let next = spec_after_step(state, taker, step);
                if step.result.exit {
                    next
                } else {
                    spec_market_pass(now_microseconds, next, Some(key))
                }
            },
        },
{
    reveal_with_fuel(spec_market_pass, 2);
}

/// The pass over the limit orders that cross, from the place `cursor` on:
/// each elected taker is matched, and leaves the book if its match asks
/// for it.
#[verifier::opaque]
pub open spec fn spec_cross_pass(now_microseconds: u64, state: PassState, cursor: CrossCursor) -> PassState
    decreases ahead(cursor.buy_after) + ahead(cursor.sell_after),
{
    match spec_next_taker(state.book.buy, state.book.sell, cursor) {
        None => state,
        Some((taker, next_cursor)) => {
            let step = spec_match_limit(now_microseconds, state.book, taker);
            let next = spec_after_step(state, taker, step);
            if step.result.exit {
                next
            } else {
                proof {
                    lemma_next_taker(state.book.buy, state.book.sell, cursor);
                }
                spec_cross_pass(now_microseconds, next, next_cursor)
            }
        },
    }
}

/// One step of the pass over the crossing limit orders.
pub proof fn lemma_cross_pass_step(now_microseconds: u64, state: PassState, cursor: CrossCursor)
    ensures
        spec_cross_pass(now_microseconds, state, cursor) == match spec_next_taker(
            state.book.buy,
            state.book.sell,
            cursor,
        ) {
            None => state,
            Some((taker, next_cursor)) => {
                let step = spec_match_limit(now_microseconds, state.book, taker);
                let next = spec_after_step(state, taker, step);
                if step.result.exit {
                    next
                } else {
                    spec_cross_pass(now_microseconds, next, next_cursor)
                }
            },
        },
{
    reveal_with_fuel(spec_cross_pass, 2);
}

/// One matching step on a book: the pass over the market orders, then the
/// pass over the limit orders that cross.
pub open spec fn spec_match_orders(now_microseconds: u64, book: BookState) -> PassState {
    spec_cross_pass(
        now_microseconds,
        spec_market_pass(
            now_microseconds,
            PassState { book, updated: Seq::empty(), trades: Seq::empty() },
            None,
        ),
        CrossCursor { buy_after: None, sell_after: None },
    )
}

/// Whether two trades are the two records of one match between two orders
/// of the book `origin`.
///
/// They are a pair. The maker's trade is that of a limit order of the book
/// that is not `TakerOnly`, at that order's price. The taker's trade is
/// that of an order of the other side that is not a `MakerOnly` limit
/// order; if it is a limit order, the price of the trade is not beyond its
/// own, so that the buy price is not below the sell price.
pub open spec fn sound_pair(
    now_microseconds: u64,
    origin: BookState,
    maker_trade: Trade,
    taker_trade: Trade,
) -> bool {
    &&& trade_pair(now_microseconds, maker_trade, taker_trade)
    &&& origin.spec_find_limit(maker_trade.order_id) matches Some(maker) && origin.spec_find(
        taker_trade.order_id,
    ) matches Some(taker) && {
        &&& maker.price == maker_trade.price
        &&& maker.liquidity_directive != LiquidityDirective::TakerOnly
        &&& taker.side == maker.side.spec_opposite()
        &&& !(taker.order_type == OrderType::Limit && taker.liquidity_directive
            == LiquidityDirective::MakerOnly)
        &&& taker.order_type == OrderType::Limit ==> match taker.side {
            Side::Buy => maker.price@ <= taker.price@,
            Side::Sell => taker.price@ <= maker.price@,
        }
    }
}

/// Whether `trades` are pairs of trades between orders of the book
/// `origin`, the maker's trade first.
pub open spec fn sound_trades(now_microseconds: u64, origin: BookState, trades: Seq<Trade>) -> bool {
    &&& trades.len() % 2 == 0
    &&& forall|at: int|
        0 <= at < trades.len() && at % 2 == 0 ==> sound_pair(
            now_microseconds,
            origin,
            #[trigger] trades[at],
            trades[at + 1],
        )
}

/// The trades of the filling of a taker that a book holds are trades
/// between orders of the book that the book descends from.
pub proof fn lemma_fill_is_sound(
    now_microseconds: u64,
    origin: BookState,
    book: BookState,
    held: Order,
    taker: Order,
    slip: Option<Price>,
    trades: Seq<Trade>,
)
    requires
        origin.wf(),
        book.wf(),
        book.descends(origin),
        book.holds(held),
        kin(held, taker),
        held.order_type == OrderType::Limit ==> slip == Some(held.price)
            && held.liquidity_directive != LiquidityDirective::MakerOnly,
        fill_trades(now_microseconds, book, taker.id, taker.side.spec_opposite(), slip, trades),
    ensures
        sound_trades(now_microseconds, origin, trades),
{
    book.lemma_held_is_found(held);
    book.lemma_found_descends(origin, held.id);
    assert forall|at: int| 0 <= at < trades.len() && at % 2 == 0 implies sound_pair(
        now_microseconds,
        origin,
        #[trigger] trades[at],
        trades[at + 1],
    ) by {
        assert(fill_pair(
            now_microseconds,
            book,
            taker.id,
            taker.side.spec_opposite(),
            slip,
            trades[at],
            trades[at + 1],
        ));
        book.lemma_found_descends(origin, trades[at].order_id);
    }
}

/// Pairs of trades between orders of a book stay so when more such are
/// added.
pub proof fn lemma_sound_trades_add(
    now_microseconds: u64,
    origin: BookState,
    trades: Seq<Trade>,
    more: Seq<Trade>,
)
    requires
        sound_trades(now_microseconds, origin, trades),
        sound_trades(now_microseconds, origin, more),
    ensures
        sound_trades(now_microseconds, origin, trades + more),
{
    let all = trades + more;
    assert forall|at: int| 0 <= at < all.len() && at % 2 == 0 implies sound_pair(
        now_microseconds,
        origin,
        #[trigger] all[at],
        all[at + 1],
    ) by {
        if at < trades.len() {
            assert(all[at] == trades[at]);
            assert(all[at + 1] == trades[at + 1]);
        } else {
            let back = at - trades.len();
            assert(all[at] == more[back]);
            assert(all[at + 1] == more[back + 1]);
        }
    }
}

/// Whether the order `id` is a maker of `side` in the book: a limit order
/// of that side that is not `TakerOnly`, at a price not beyond `slip`.
pub open spec fn listed_maker(book: BookState, side: Side, slip: Option<Price>, id: OrderID) -> bool {
    book.spec_find_limit(id) matches Some(maker) && maker.side == side
        && maker.liquidity_directive != LiquidityDirective::TakerOnly && !spec_beyond(
        side,
        slip,
        maker.price,
    )
}

/// Whether no market order of `market` that does not lie behind the place
/// `upto` is `Active`.
pub open spec fn no_active_upto(market: Map<SortKey, Order>, upto: Option<SortKey>) -> bool {
    forall|key: SortKey| #[trigger]
        market.dom().contains(key) && !is_after(upto, key) ==> market[key].lifecycle
            != OrderLifecycle::Active
}

/// Whether no market order of `market` is `Active`.
pub open spec fn no_active(market: Map<SortKey, Order>) -> bool {
    forall|key: SortKey| #[trigger]
        market.dom().contains(key) ==> market[key].lifecycle != OrderLifecycle::Active
}

/// What the engine has reported of a matching step: the orders it changed
/// and the trades it made, in the order in which it made them.
pub struct MatchReport {
    pub updated: Vec<Order>,
    pub trades: Vec<Trade>,
}

/// The engine: an order book, and the rules by which its orders are
/// matched.
pub struct DefaultMatchingEngine<S: OrderBookSyncer> {
    order_book: DefaultOrderBook<S>,
}

impl<S: OrderBookSyncer> View for DefaultMatchingEngine<S> {
    type V = BookState;

    closed spec fn view(&self) -> BookState {
        self.order_book@
    }
}

impl<S: OrderBookSyncer> DefaultMatchingEngine<S> {
    /// An engine over `order_book`.
    pub fn new(order_book: DefaultOrderBook<S>) -> (r: Self)
        ensures
            r@ == order_book@,
    {
        Self { order_book }
    }

    /// The book of the engine.
    pub fn order_book(&self) -> (r: &DefaultOrderBook<S>)
        ensures
            r@ == self@,
    {
        &self.order_book
    }

    /// Matches a claimed taker with a claimed maker, and reports the maker
    /// and the two trades where they trade.
    pub fn process_order_pair(
        now_microseconds: u64,
        taker: &mut Order,
        maker: &mut Order,
        updated: &mut Vec<Order>,
        matched: &mut Vec<Trade>,
    ) -> (r: bool)
        ensures
            *final(taker) == spec_pair(now_microseconds, *old(taker), *old(maker)).taker,
            *final(maker) == spec_pair(now_microseconds, *old(taker), *old(maker)).maker,
            final(updated)@ == old(updated)@ + spec_pair(
                now_microseconds,
                *old(taker),
                *old(maker),
            ).updated,
            final(matched)@ == old(matched)@ + spec_pair(
                now_microseconds,
                *old(taker),
                *old(maker),
            ).trades,
            r == spec_pair(now_microseconds, *old(taker), *old(maker)).removed,
    {
        proof {
            reveal(spec_pair);
        }
        let trades = Trade::matched(now_microseconds, taker, maker);
        let pair = match trades {
            None => {
                maker.exit_matched();
                assert(updated@ =~= old(updated)@ + Seq::<Order>::empty());
                assert(matched@ =~= old(matched)@ + Seq::<Trade>::empty());
                return false;
            },
            Some(pair) => pair,
        };
        let cloned_order;
        let removed = maker.is_filled();
        if !removed {
            cloned_order = maker.clone_reset_lifecycle();
            maker.exit_matched();
        } else {
            maker.enter_finished_from_matched();
            cloned_order = *maker;
        }
        updated.push(cloned_order);
        matched.push(pair.0);
        matched.push(pair.1);
        proof {
            let p = spec_pair(now_microseconds, *old(taker), *old(maker));
            assert(updated@ =~= old(updated)@ + p.updated);
            assert(matched@ =~= old(matched)@ + p.trades);
        }
        removed
    }

    /// Fills a claimed taker from the makers of `side`, from the best price
    /// on and as far as `slip_price`. Returns the makers that traded, as
    /// they are after it, and the trades.
    pub fn walk_makers(
        &mut self,
        now_microseconds: u64,
        side: Side,
        slip_price: Option<Price>,
        taker: &mut Order,
    ) -> (r: (Vec<Order>, Vec<Trade>))
        requires
            old(self)@.wf(),
            old(self)@.spec_find(old(taker).id) matches Some(held) && kin(held, *old(taker)) && (
            held.order_type == OrderType::Limit ==> held.side != side),
        ensures
            final(self)@.wf(),
            (FillState {
                book: final(self)@,
                taker: *final(taker),
                updated: r.0@,
                trades: r.1@,
            }) == spec_fill(
                now_microseconds,
                FillState {
                    book: old(self)@,
                    taker: *old(taker),
                    updated: Seq::empty(),
                    trades: Seq::empty(),
                },
                side,
                slip_price,
                None,
            ),
            final(self)@.market == old(self)@.market,
            final(self)@.side(side.spec_opposite()) == old(self)@.side(side.spec_opposite()),
            final(self)@.seq == old(self)@.seq,
            final(self)@.descends(old(self)@),
            kin(*old(taker), *final(taker)),
            final(taker).lifecycle == old(taker).lifecycle,
            r.1@.len() == 0 ==> *final(taker) == *old(taker),
            r.0@.len() == 0 <==> r.1@.len() == 0,
            final(taker).status == OrderStatus::Filled && old(taker).status != OrderStatus::Filled
                ==> final(taker).quantity@ == 0,
            old(taker).quantity@ == final(taker).quantity@ + traded_by(r.1@, old(taker).id),
            conserves_but(old(self)@, old(taker).id, final(self)@, r.0@, r.1@),
            known(old(self)@, r.0@, r.1@),
            final(self)@.spec_find(old(taker).id) == old(self)@.spec_find(old(taker).id),
            fill_trades(now_microseconds, old(self)@, old(taker).id, side, slip_price, r.1@),
            filled_have_nothing_left(r.0@),
            in_book_order(old(self)@.side(side), final(self)@.side(side)),
            r.0@.len() == 0 ==> final(self)@ == old(self)@,
    {
        let ghost start = FillState {
            book: self@,
            taker: *taker,
            updated: Seq::empty(),
            trades: Seq::empty(),
        };
        let mut updated: Vec<Order> = Vec::new();
        let mut matched: Vec<Trade> = Vec::new();
        let mut cursor: Option<SortKey> = None;
        proof {
            self@.lemma_descends(self@, self@);
            lemma_conserves_start(self@);
        }
        loop
            invariant_except_break
                spec_fill(
                    now_microseconds,
                    FillState { book: self@, taker: *taker, updated: updated@, trades: matched@ },
                    side,
                    slip_price,
                    cursor,
                ) == spec_fill(now_microseconds, start, side, slip_price, None),
                passed_are_spent(start.book.side(side), self@.side(side), cursor),
            invariant
                updated@.len() == 0 ==> self@ == start.book,
                in_book_order(start.book.side(side), self@.side(side)),
                untouched_ahead(start.book.side(side), self@.side(side), cursor),
                forall|other: SortKey| #[trigger]
                    self@.side(side).dom().contains(other) ==> start.book.side(
                        side,
                    ).dom().contains(other),
                start.book.wf(),
                self@.wf(),
                self@.market == start.book.market,
                self@.side(side.spec_opposite()) == start.book.side(side.spec_opposite()),
                self@.seq == start.book.seq,
                self@.descends(start.book),
                kin(start.taker, *taker),
                taker.lifecycle == start.taker.lifecycle,
                matched@.len() == 0 ==> *taker == start.taker,
                updated@.len() == 0 <==> matched@.len() == 0,
                taker.status == OrderStatus::Filled && start.taker.status != OrderStatus::Filled
                    ==> taker.quantity@ == 0,
                start.taker.quantity@ == taker.quantity@ + traded_by(matched@, start.taker.id),
                conserves_but(start.book, start.taker.id, self@, updated@, matched@),
                known(start.book, updated@, matched@),
                self@.spec_find(start.taker.id) == start.book.spec_find(start.taker.id),
                start.book.spec_find(start.taker.id) matches Some(held) && (held.order_type
                    == OrderType::Limit ==> held.side != side),
                fill_trades(now_microseconds, start.book, start.taker.id, side, slip_price, matched@),
                filled_have_nothing_left(updated@),
            ensures
                (FillState { book: self@, taker: *taker, updated: updated@, trades: matched@ })
                    == spec_fill(now_microseconds, start, side, slip_price, None),
            decreases ahead(cursor),
        {
            let ghost here = FillState {
                book: self@,
                taker: *taker,
                updated: updated@,
                trades: matched@,
            };
            let (key, mut maker) = match self.order_book.walking_book_maker(
                side,
                slip_price,
                cursor,
            ) {
                Some(entry) => entry,
                None => {
                    proof {
                        lemma_fill_step(now_microseconds, here, side, slip_price, cursor);
                    }
                    break ;
                },
            };
            proof {
                lemma_fill_step(now_microseconds, here, side, slip_price, cursor);
                lemma_next_maker(self@.side(side), side, slip_price, cursor);
                lemma_ahead_decreases(cursor, key);
                self@.lemma_side_entry(side, key);
                start.book.lemma_side_entry(side, key);
            }
            let ghost was = cursor;
            cursor = Some(key);
            if !maker.enter_matched() {
                proof {
                    lemma_order_step(
                        start.book.side(side),
                        here.book.side(side),
                        here.book.side(side),
                        side,
                        slip_price,
                        was,
                        key,
                    );
                }
                continue ;
            }
            proof {
                lemma_pair(now_microseconds, *taker, maker);
                let pair = spec_pair(now_microseconds, *taker, maker);
                lemma_fill_trades_push(
                    now_microseconds,
                    start.book,
                    start.taker.id,
                    side,
                    slip_price,
                    here.trades,
                    pair.trades,
                );
                lemma_reports_add(here.updated, pair.updated);
                self@.lemma_found_descends(start.book, maker.id);
                lemma_traded_by_add(here.trades, pair.trades, start.taker.id);
                lemma_pair_step_conserves(
                    now_microseconds,
                    start.book,
                    here.book,
                    *taker,
                    maker,
                    here.updated,
                    here.trades,
                );
                if pair.trades.len() == 0 {
                    here.book.lemma_store_same(pair.maker);
                }
            }
            let removed = Self::process_order_pair(
                now_microseconds,
                taker,
                &mut maker,
                &mut updated,
                &mut matched,
            );
            if removed {
                self.order_book.unlink(&maker);
            } else {
                self.order_book.store(&maker);
            }
            proof {
                assert(self@.side(side.spec_opposite()) =~= here.book.side(side.spec_opposite()));
                self@.lemma_descends(here.book, start.book);
                lemma_order_step(
                    start.book.side(side),
                    here.book.side(side),
                    self@.side(side),
                    side,
                    slip_price,
                    was,
                    key,
                );
            }
            if taker.quantity().is_zero() {
                break ;
            }
        }
        (updated, matched)
    }

    /// Matches a limit order that the walk over the crossing orders has
    /// elected as taker, and adds what is reported to `report`.
    pub fn match_limit_order(
        &mut self,
        now_microseconds: u64,
        taker: &Order,
        report: &mut MatchReport,
    ) -> (r: WalkingResult)
        requires
            old(self)@.wf(),
            old(self)@.holds(*taker),
            taker.order_type == OrderType::Limit,
        ensures
            final(self)@.wf(),
            final(self)@ == spec_match_limit(now_microseconds, old(self)@, *taker).book,
            r == spec_match_limit(now_microseconds, old(self)@, *taker).result,
            final(report).updated@ == old(report).updated@ + spec_match_limit(
                now_microseconds,
                old(self)@,
                *taker,
            ).updated,
            final(report).trades@ == old(report).trades@ + spec_match_limit(
                now_microseconds,
                old(self)@,
                *taker,
            ).trades,
            final(self)@.shelf(*taker).dom().contains(spec_slot(*taker)),
            kin(final(self)@.shelf(*taker)[spec_slot(*taker)], *taker),
            final(self)@.market == old(self)@.market,
            final(self)@.descends(old(self)@),
            fill_trades(
                now_microseconds,
                old(self)@,
                taker.id,
                taker.side.spec_opposite(),
                Some(taker.price),
                spec_match_limit(now_microseconds, old(self)@, *taker).trades,
            ),
            filled_have_nothing_left(
                spec_match_limit(now_microseconds, old(self)@, *taker).updated,
            ),
            !r.exit,
            conserves(
                old(self)@,
                spec_stepped(spec_match_limit(now_microseconds, old(self)@, *taker), *taker),
                spec_match_limit(now_microseconds, old(self)@, *taker).updated,
                spec_match_limit(now_microseconds, old(self)@, *taker).trades,
            ),
            known(
                old(self)@,
                spec_match_limit(now_microseconds, old(self)@, *taker).updated,
                spec_match_limit(now_microseconds, old(self)@, *taker).trades,
            ),
            spec_match_limit(now_microseconds, old(self)@, *taker).updated.len() == 0 ==> !r.remove
                && final(self)@ == old(self)@,
    {
        proof {
            self@.lemma_descends(self@, self@);
            self@.lemma_held_is_found(*taker);
            lemma_conserves_start(self@);
        }
        let mut claimed = *taker;
        if !claimed.enter_matched() {
            assert(report.updated@ =~= old(report).updated@ + Seq::<Order>::empty());
            assert(report.trades@ =~= old(report).trades@ + Seq::<Trade>::empty());
            return WalkingResult::next();
        }
        let opposite_side = taker.side.opposite();
        let (mut updated, mut matched) = self.walk_makers(
            now_microseconds,
            opposite_side,
            Some(taker.price),
            &mut claimed,
        );
        if updated.len() == 0 && matched.len() == 0 {
            claimed.exit_matched();
            assert(report.updated@ =~= old(report).updated@ + Seq::<Order>::empty());
            assert(report.trades@ =~= old(report).trades@ + Seq::<Trade>::empty());
            proof {
                assert(updated@ =~= Seq::<Order>::empty());
                assert(matched@ =~= Seq::<Trade>::empty());
                lemma_taker_idle_conserves(old(self)@, self@, taker.id, updated@, matched@);
            }
            return WalkingResult::next();
        }
        let ghost filled = self@;
        let ghost makers = updated@;
        let cloned_order;
        let removed = claimed.is_filled();
        if !removed {
            cloned_order = claimed.clone_reset_lifecycle();
            claimed.exit_matched();
            self.order_book.store(&cloned_order);
        } else {
            claimed.enter_finished_from_matched();
            cloned_order = claimed;
        }
        updated.push(cloned_order);
        proof {
            assert(filled_have_nothing_left(seq![cloned_order]));
            lemma_reports_add(makers, seq![cloned_order]);
            assert(updated@ =~= makers + seq![cloned_order]);
            self@.lemma_descends(filled, old(self)@);
        }
        let ghost stored = self@;
        self.order_book.sync_matched(&updated, &matched);
        proof {
            self@.lemma_descends(stored, old(self)@);
            let step = spec_match_limit(now_microseconds, old(self)@, *taker);
            let after = spec_stepped(step, *taker);
            assert forall|id: OrderID| id != taker.id implies after.spec_find(id)
                == #[trigger] filled.spec_find(id) by {
                if removed {
                    self@.lemma_unlink_find(*taker, id);
                } else {
                    filled.lemma_store_find(cloned_order, id);
                }
            }
            if removed {
                self@.lemma_unlink_find(*taker, taker.id);
            } else {
                filled.lemma_store_find(cloned_order, taker.id);
            }
            lemma_taker_done_conserves(
                old(self)@,
                filled,
                after,
                cloned_order,
                makers,
                matched@,
            );
        }
        report.updated.append(&mut updated);
        report.trades.append(&mut matched);
        WalkingResult::new(removed, false)
    }

    /// Locks liquidity for a fill-or-kill order of the quantity `quantity`
    /// on the makers of `side`, as far as `slippage_price`.
    ///
    /// Each `Active` maker is claimed until the claimed makers cover the
    /// quantity. Returns their identifiers if they do. If they do not, the
    /// claimed makers are released again and `None` is returned.
    pub fn lock_book_liquidity(
        &mut self,
        side: Side,
        quantity: Quantity,
        slippage_price: Option<Price>,
    ) -> (r: Option<Vec<OrderID>>)
        requires
            old(self)@.wf(),
        ensures
            final(self)@.wf(),
            final(self)@.market == old(self)@.market,
            final(self)@.seq == old(self)@.seq,
            final(self)@.descends(old(self)@),
            keeps_quantities(old(self)@, final(self)@),
            r matches Some(ids) ==> forall|at: int|
                0 <= at < ids@.len() ==> listed_maker(
                    old(self)@,
                    side,
                    slippage_price,
                    #[trigger] ids@[at],
                ),
            ({
                let locked = spec_lock(
                    LockState { book: old(self)@, remaining: quantity, ids: Seq::empty() },
                    side,
                    slippage_price,
                    None,
                );
                if locked.remaining@ == 0 {
                    r matches Some(ids) && ids@ == locked.ids && final(self)@ == locked.book
                } else {
                    r is None && final(self)@ == spec_release(locked.book, locked.ids, 0)
                }
            }),
    {
        let ghost start = LockState { book: self@, remaining: quantity, ids: Seq::empty() };
        let mut order_id_list: Vec<OrderID> = Vec::new();
        let mut remaining_qty = quantity;
        let mut cursor: Option<SortKey> = None;
        proof {
            self@.lemma_descends(self@, self@);
            lemma_keeps_itself(self@);
        }
        loop
            invariant_except_break
                spec_lock(
                    LockState { book: self@, remaining: remaining_qty, ids: order_id_list@ },
                    side,
                    slippage_price,
                    cursor,
                ) == spec_lock(start, side, slippage_price, None),
            invariant
                start.book.wf(),
                self@.wf(),
                self@.market == start.book.market,
                self@.seq == start.book.seq,
                self@.descends(start.book),
                keeps_quantities(start.book, self@),
                forall|at: int|
                    0 <= at < order_id_list@.len() ==> listed_maker(
                        start.book,
                        side,
                        slippage_price,
                        #[trigger] order_id_list@[at],
                    ),
            ensures
                (LockState { book: self@, remaining: remaining_qty, ids: order_id_list@ })
                    == spec_lock(start, side, slippage_price, None),
            decreases ahead(cursor),
        {
            let ghost here = LockState {
                book: self@,
                remaining: remaining_qty,
                ids: order_id_list@,
            };
            proof {
                lemma_lock_step(here, side, slippage_price, cursor);
            }
            let (key, mut maker) = match self.order_book.walking_book_maker(
                side,
                slippage_price,
                cursor,
            ) {
                Some(entry) => entry,
                None => {
                    break ;
                },
            };
            proof {
                lemma_next_maker(self@.side(side), side, slippage_price, cursor);
                lemma_ahead_decreases(cursor, key);
                self@.lemma_side_entry(side, key);
                self@.lemma_found_descends(start.book, maker.id);
            }
            let ghost before = self@;
            let ghost listed = order_id_list@;
            cursor = Some(key);
            if !maker.enter_matched() {
                continue ;
            }
            proof {
                lemma_store_keeps(start.book, self@, maker);
            }
            self.order_book.store(&maker);
            remaining_qty = remaining_qty.saturating_sub(&maker.quantity());
            order_id_list.push(maker.id);
            proof {
                self@.lemma_descends(before, start.book);
                assert forall|at: int| 0 <= at < order_id_list@.len() implies listed_maker(
                    start.book,
                    side,
                    slippage_price,
                    #[trigger] order_id_list@[at],
                ) by {
                    if at < listed.len() {
                        assert(order_id_list@[at] == listed[at]);
                    }
                }
            }
            if remaining_qty.is_zero() {
                break ;
            }
        }
        if remaining_qty.is_zero() {
            return Some(order_id_list);
        }
        let ghost locked = self@;
        let mut i: usize = 0;
        while i < order_id_list.len()
            invariant
                i <= order_id_list.len(),
                start.book.wf(),
                self@.wf(),
                self@.market == start.book.market,
                self@.seq == start.book.seq,
                self@.descends(start.book),
                keeps_quantities(start.book, self@),
                spec_release(self@, order_id_list@, i as int) == spec_release(
                    locked,
                    order_id_list@,
                    0,
                ),
            decreases order_id_list.len() - i,
        {
            let ghost before = self@;
            proof {
                lemma_release_step(self@, order_id_list@, i as int);
                self@.lemma_find_limit(order_id_list@[i as int]);
            }
            if let Some(mut order) = self.order_book.find_limit(order_id_list[i]) {
                order.exit_matched();
                proof {
                    lemma_store_keeps(start.book, self@, order);
                }
                self.order_book.store(&order);
            }
            proof {
                self@.lemma_descends(before, start.book);
            }
            i += 1;
        }
        proof {
            lemma_release_step(self@, order_id_list@, i as int);
        }
        None
    }

    /// Matches a claimed fill-or-kill market order, and adds what is
    /// reported to `report`.
    pub fn match_market_order_fok(
        &mut self,
        now_microseconds: u64,
        slippage_price: Option<Price>,
        taker: &Order,
        report: &mut MatchReport,
    ) -> (r: WalkingResult)
        requires
            old(self)@.wf(),
            taker.status != OrderStatus::Filled,
            old(self)@.spec_find(taker.id) matches Some(held) && kin(held, *taker)
                && held.quantity == taker.quantity && held.order_type == OrderType::Market,
        ensures
            final(self)@.wf(),
            final(self)@.descends(old(self)@),
            conserves(
                old(self)@,
                final(self)@.unlink(*taker),
                spec_match_fok(now_microseconds, old(self)@, *taker, slippage_price).updated,
                spec_match_fok(now_microseconds, old(self)@, *taker, slippage_price).trades,
            ),
            known(
                old(self)@,
                spec_match_fok(now_microseconds, old(self)@, *taker, slippage_price).updated,
                spec_match_fok(now_microseconds, old(self)@, *taker, slippage_price).trades,
            ),
            fill_trades(
                now_microseconds,
                old(self)@,
                taker.id,
                taker.side.spec_opposite(),
                slippage_price,
                spec_match_fok(now_microseconds, old(self)@, *taker, slippage_price).trades,
            ),
            filled_have_nothing_left(
                spec_match_fok(now_microseconds, old(self)@, *taker, slippage_price).updated,
            ),
            final(self)@ == spec_match_fok(now_microseconds, old(self)@, *taker, slippage_price).book,
            r == spec_match_fok(now_microseconds, old(self)@, *taker, slippage_price).result,
            final(report).updated@ == old(report).updated@ + spec_match_fok(
                now_microseconds,
                old(self)@,
                *taker,
                slippage_price,
            ).updated,
            final(report).trades@ == old(report).trades@ + spec_match_fok(
                now_microseconds,
                old(self)@,
                *taker,
                slippage_price,
            ).trades,
            final(self)@.market == old(self)@.market,
    {
        let mut taker = *taker;
        let ghost claimed = taker;
        let ghost held = self@.spec_find(taker.id)->Some_0;
        proof {
            self@.lemma_find(taker.id);
        }
        let mut updated: Vec<Order> = Vec::new();
        let mut matched: Vec<Trade> = Vec::new();
        let order_id_list = match self.lock_book_liquidity(
            taker.side.opposite(),
            taker.quantity(),
            slippage_price,
        ) {
            None => {
                taker.update_status(OrderStatus::Rejected);
                taker.update_reject_reason(RejectReason::InsufficientLiquidity);
                taker.lifecycle = OrderLifecycle::Finished;
                updated.push(taker);
                let ghost released = self@;
                self.order_book.sync_matched(&updated, &matched);
                proof {
                    self@.lemma_descends(released, old(self)@);
                    lemma_kept_is_conserved(old(self)@, released);
                    let after = self@.unlink(claimed);
                    assert forall|id: OrderID| id != taker.id implies after.spec_find(id)
                        == #[trigger] released.spec_find(id) by {
                        self@.lemma_unlink_find(claimed, id);
                    }
                    self@.lemma_unlink_find(claimed, taker.id);
                    reveal_with_fuel(traded_by, 1);
                    lemma_taker_done_conserves(
                        old(self)@,
                        released,
                        after,
                        taker,
                        Seq::empty(),
                        Seq::empty(),
                    );
                    assert(Seq::<Order>::empty() + seq![taker] =~= updated@);
                    assert(matched@ =~= Seq::<Trade>::empty());
                }
                report.updated.append(&mut updated);
                report.trades.append(&mut matched);
                return WalkingResult::remove_and_next();
            },
            Some(list) => list,
        };
        let ghost side = taker.side.spec_opposite();
        let ghost locked = self@;
        proof {
            lemma_kept_is_conserved(old(self)@, locked);
            lemma_conserves_start(locked);
            self@.lemma_descends(self@, self@);
            locked.lemma_found_descends(old(self)@, taker.id);
            assert(keeps_quantities(old(self)@, locked));
            assert(old(self)@.spec_find(taker.id) is Some);
            assert(locked.spec_find(taker.id) is Some);
            locked.lemma_find(taker.id);
            reveal_with_fuel(traded_by, 1);
        }
        let ghost start = FillState {
            book: self@,
            taker: taker,
            updated: Seq::empty(),
            trades: Seq::empty(),
        };
        let mut i: usize = 0;
        loop
            invariant_except_break
                spec_execute(
                    now_microseconds,
                    FillState { book: self@, taker: taker, updated: updated@, trades: matched@ },
                    order_id_list@,
                    i as int,
                ) == spec_execute(now_microseconds, start, order_id_list@, 0),
            invariant
                old(self)@.wf(),
                self@.wf(),
                self@.market == start.book.market,
                self@.seq == start.book.seq,
                self@.descends(old(self)@),
                self@.descends(locked),
                locked.wf(),
                conserves_but(locked, start.taker.id, self@, updated@, matched@),
                known(locked, updated@, matched@),
                self@.spec_find(start.taker.id) == locked.spec_find(start.taker.id),
                locked.spec_find(start.taker.id) matches Some(entry) && entry.order_type
                    == OrderType::Market,
                start.taker.quantity@ == taker.quantity@ + traded_by(matched@, start.taker.id),
                taker.lifecycle == start.taker.lifecycle,
                kin(start.taker, taker),
                side == start.taker.side.spec_opposite(),
                taker.status == OrderStatus::Filled ==> taker.quantity@ == 0,
                forall|at: int|
                    0 <= at < order_id_list@.len() ==> listed_maker(
                        old(self)@,
                        side,
                        slippage_price,
                        #[trigger] order_id_list@[at],
                    ),
                fill_trades(
                    now_microseconds,
                    old(self)@,
                    start.taker.id,
                    side,
                    slippage_price,
                    matched@,
                ),
                filled_have_nothing_left(updated@),
            ensures
                (FillState { book: self@, taker: taker, updated: updated@, trades: matched@ })
                    == spec_execute(now_microseconds, start, order_id_list@, 0),
            decreases order_id_list.len() - i,
        {
            let ghost here = FillState {
                book: self@,
                taker: taker,
                updated: updated@,
                trades: matched@,
            };
            proof {
                lemma_execute_step(now_microseconds, here, order_id_list@, i as int);
            }
            if i >= order_id_list.len() {
                break ;
            }
            proof {
                self@.lemma_find_limit(order_id_list@[i as int]);
                self@.lemma_found_descends(old(self)@, order_id_list@[i as int]);
                assert(listed_maker(old(self)@, side, slippage_price, order_id_list@[i as int]));
            }
            let found = self.order_book.find_limit(order_id_list[i]);
            i += 1;
            let mut maker = match found {
                Some(maker) => maker,
                None => {
                    continue ;
                },
            };
            proof {
                lemma_pair(now_microseconds, taker, maker);
                let pair = spec_pair(now_microseconds, taker, maker);
                lemma_fill_trades_push(
                    now_microseconds,
                    old(self)@,
                    start.taker.id,
                    side,
                    slippage_price,
                    here.trades,
                    pair.trades,
                );
                lemma_reports_add(here.updated, pair.updated);
                self@.lemma_found_descends(locked, maker.id);
                self@.lemma_find(start.taker.id);
                lemma_traded_by_add(here.trades, pair.trades, start.taker.id);
                lemma_pair_step_conserves(
                    now_microseconds,
                    locked,
                    here.book,
                    taker,
                    maker,
                    here.updated,
                    here.trades,
                );
            }
            let removed = Self::process_order_pair(
                now_microseconds,
                &mut taker,
                &mut maker,
                &mut updated,
                &mut matched,
            );
            if removed {
                self.order_book.unlink(&maker);
            } else {
                self.order_book.store(&maker);
            }
            proof {
                self@.lemma_descends(here.book, old(self)@);
                self@.lemma_descends(here.book, locked);
            }
            if taker.quantity().is_zero() {
                break ;
            }
        }
        let ghost makers = updated@;
        taker.lifecycle = OrderLifecycle::Finished;
        updated.push(taker);
        proof {
            assert(filled_have_nothing_left(seq![taker]));
            lemma_reports_add(makers, seq![taker]);
            assert(updated@ =~= makers + seq![taker]);
        }
        let ghost executed = self@;
        self.order_book.sync_matched(&updated, &matched);
        proof {
            self@.lemma_descends(executed, old(self)@);
            self@.lemma_descends(executed, locked);
            let after = self@.unlink(claimed);
            assert forall|id: OrderID| id != taker.id implies after.spec_find(id)
                == #[trigger] executed.spec_find(id) by {
                self@.lemma_unlink_find(claimed, id);
            }
            self@.lemma_unlink_find(claimed, taker.id);
            lemma_taker_done_conserves(locked, executed, after, taker, makers, matched@);
            self@.lemma_unlink_wf(self@.shelf(claimed)[spec_slot(claimed)]);
            self@.lemma_steps_descend(claimed);
            after.lemma_descends(self@, locked);
            lemma_conserves_chain(
                old(self)@,
                locked,
                after,
                Seq::empty(),
                Seq::empty(),
                updated@,
                matched@,
            );
            assert(Seq::<Order>::empty() + updated@ =~= updated@);
            assert(Seq::<Trade>::empty() + matched@ =~= matched@);
            lemma_known_descends(old(self)@, locked, updated@, matched@);
        }
        report.updated.append(&mut updated);
        report.trades.append(&mut matched);
        WalkingResult::remove_and_next()
    }

    /// Matches a market order, and adds what is reported to `report`.
    pub fn match_market_order(
        &mut self,
        now_microseconds: u64,
        taker: &Order,
        report: &mut MatchReport,
    ) -> (r: WalkingResult)
        requires
            old(self)@.wf(),
            old(self)@.holds(*taker),
            taker.order_type == OrderType::Market,
        ensures
            final(self)@.wf(),
            final(self)@ == spec_match_market(now_microseconds, old(self)@, *taker).book,
            r == spec_match_market(now_microseconds, old(self)@, *taker).result,
            final(report).updated@ == old(report).updated@ + spec_match_market(
                now_microseconds,
                old(self)@,
                *taker,
            ).updated,
            final(report).trades@ == old(report).trades@ + spec_match_market(
                now_microseconds,
                old(self)@,
                *taker,
            ).trades,
            final(self)@.market == old(self)@.market,
            final(self)@.descends(old(self)@),
            fill_trades(
                now_microseconds,
                old(self)@,
                taker.id,
                taker.side.spec_opposite(),
                spec_market_slip(
                    old(self)@,
                    taker.spec_with_lifecycle(OrderLifecycle::Matched),
                ),
                spec_match_market(now_microseconds, old(self)@, *taker).trades,
            ),
            filled_have_nothing_left(
                spec_match_market(now_microseconds, old(self)@, *taker).updated,
            ),
            !r.exit,
            r.remove == (taker.lifecycle == OrderLifecycle::Active),
            conserves(
                old(self)@,
                spec_stepped(spec_match_market(now_microseconds, old(self)@, *taker), *taker),
                spec_match_market(now_microseconds, old(self)@, *taker).updated,
                spec_match_market(now_microseconds, old(self)@, *taker).trades,
            ),
            known(
                old(self)@,
                spec_match_market(now_microseconds, old(self)@, *taker).updated,
                spec_match_market(now_microseconds, old(self)@, *taker).trades,
            ),
            spec_match_market(now_microseconds, old(self)@, *taker).updated.len() == 0 ==> !r.remove
                && final(self)@ == old(self)@,
    {
        proof {
            self@.lemma_descends(self@, self@);
            self@.lemma_held_is_found(*taker);
            lemma_conserves_start(self@);
        }
        let mut claimed = *taker;
        if !claimed.enter_matched() {
            assert(report.updated@ =~= old(report).updated@ + Seq::<Order>::empty());
            assert(report.trades@ =~= old(report).trades@ + Seq::<Trade>::empty());
            return WalkingResult::next();
        }
        let opposite_side = taker.side.opposite();
        let best_price = self.order_book.get_best_price(opposite_side);
        let slippage_price = match best_price {
            None => None,
            Some(price) => claimed.slippage_bound_price(price),
        };
        if taker.match_strategy == MatchStrategy::FillOrKill {
            return self.match_market_order_fok(now_microseconds, slippage_price, &claimed, report);
        }
        let (mut updated, mut matched) = self.walk_makers(
            now_microseconds,
            opposite_side,
            slippage_price,
            &mut claimed,
        );
        if matched.len() == 0 {
            claimed.update_status(OrderStatus::Rejected);
            claimed.update_reject_reason(RejectReason::InsufficientLiquidity);
        }
        claimed.enter_finished_from_matched();
        let ghost makers = updated@;
        updated.push(claimed);
        proof {
            assert(filled_have_nothing_left(seq![claimed]));
            lemma_reports_add(makers, seq![claimed]);
            assert(updated@ =~= makers + seq![claimed]);
        }
        let ghost filled = self@;
        self.order_book.sync_matched(&updated, &matched);
        proof {
            self@.lemma_descends(filled, old(self)@);
            let after = self@.unlink(*taker);
            assert forall|id: OrderID| id != taker.id implies after.spec_find(id)
                == #[trigger] filled.spec_find(id) by {
                self@.lemma_unlink_find(*taker, id);
            }
            self@.lemma_unlink_find(*taker, taker.id);
            lemma_taker_done_conserves(old(self)@, filled, after, claimed, makers, matched@);
        }
        report.updated.append(&mut updated);
        report.trades.append(&mut matched);
        WalkingResult::remove_and_next()
    }

    /// Takes a validated order into the book.
    pub fn create_order(&mut self, order: &mut Order) -> (r: Result<(), RejectReason>)
        requires
            old(self)@.wf(),
        ensures
            final(self)@.wf(),
            ({
                let placed = Order { status: OrderStatus::Placed, ..*old(order) };
                if old(self)@.taken(placed) {
                    &&& r == Err::<(), RejectReason>(RejectReason::TimestampConflict)
                    &&& final(self)@ == old(self)@
                    &&& *final(order) == (Order {
                        status: OrderStatus::Rejected,
                        reject_reason: Some(RejectReason::TimestampConflict),
                        ..*old(order)
                    })
                } else {
                    &&& r == Ok::<(), RejectReason>(())
                    &&& final(self)@ == old(self)@.place(placed).bump()
                    &&& *final(order) == placed
                    &&& final(self)@.spec_find(placed.id) == Some(placed)
                }
            }),
    {
        self.order_book.insert(order)
    }

    /// Moves an order of the book to a new price.
    pub fn update_order(&mut self, order_id: OrderID, new_price: Price, now_microseconds: u64) -> (r:
        Result<(), UpdateOrderError>)
        requires
            old(self)@.wf(),
        ensures
            final(self)@.wf(),
            r == old(self)@.update_result(order_id, new_price, now_microseconds),
            final(self)@ == old(self)@.updated(order_id, new_price, now_microseconds),
    {
        self.order_book.update_order(order_id, new_price, now_microseconds)
    }

    /// Cancels an order of the book.
    pub fn cancel_order(&mut self, order_id: OrderID) -> (r: Result<(), CancelOrderError>)
        requires
            old(self)@.wf(),
        ensures
            final(self)@.wf(),
            r == old(self)@.cancel_result(order_id),
            final(self)@ == old(self)@.cancelled(order_id),
    {
        self.order_book.remove(order_id)
    }

    /// One matching step, at the time `now_microseconds`: first every
    /// market order is matched, then the limit orders that cross. Returns
    /// what the step reported.
    ///
    /// The book after the step has come from the book before it by matching
    /// alone. The trades come in pairs, a maker's and a taker's, of the same
    /// quantity and at the maker's price; the taker is never a `MakerOnly`
    /// limit order, and where it is a limit order the buy price is not
    /// below the sell price. A reported order that is `Filled` has nothing
    /// remaining. No market order that is `Active` is left in the book. What
    /// each order of the book had is what it has after the step, in the book
    /// or in its last report, and what it traded. A step that reports nothing
    /// has made no trade and leaves the book as it was.
    pub fn match_orders(&mut self, now_microseconds: u64) -> (r: MatchReport)
        requires
            old(self)@.wf(),
        ensures
            final(self)@.wf(),
            final(self)@ == spec_match_orders(now_microseconds, old(self)@).book,
            r.updated@ == spec_match_orders(now_microseconds, old(self)@).updated,
            r.trades@ == spec_match_orders(now_microseconds, old(self)@).trades,
            final(self)@.descends(old(self)@),
            sound_trades(now_microseconds, old(self)@, r.trades@),
            filled_have_nothing_left(r.updated@),
            no_active(final(self)@.market),
            conserves(old(self)@, final(self)@, r.updated@, r.trades@),
            known(old(self)@, r.updated@, r.trades@),
            r.updated@.len() == 0 ==> r.trades@.len() == 0 && final(self)@ == old(self)@,
    {
        let ghost origin = self@;
        let ghost start = PassState { book: self@, updated: Seq::empty(), trades: Seq::empty() };
        let mut report = MatchReport { updated: Vec::new(), trades: Vec::new() };
        let mut after: Option<SortKey> = None;
        proof {
            self@.lemma_descends(self@, self@);
            lemma_conserves_start(self@);
        }
        loop
            invariant_except_break
                spec_market_pass(
                    now_microseconds,
                    PassState { book: self@, updated: report.updated@, trades: report.trades@ },
                    after,
                ) == spec_market_pass(now_microseconds, start, None),
                no_active_upto(self@.market, after),
            invariant
                origin.wf(),
                self@.wf(),
                self@.descends(origin),
                sound_trades(now_microseconds, origin, report.trades@),
                filled_have_nothing_left(report.updated@),
                conserves(origin, self@, report.updated@, report.trades@),
                known(origin, report.updated@, report.trades@),
                report.updated@.len() == 0 ==> report.trades@.len() == 0 && self@ == origin,
            ensures
                (PassState { book: self@, updated: report.updated@, trades: report.trades@ })
                    == spec_market_pass(now_microseconds, start, None),
                no_active(self@.market),
            decreases ahead(after),
        {
            let ghost here = PassState {
                book: self@,
                updated: report.updated@,
                trades: report.trades@,
            };
            proof {
                lemma_market_pass_step(now_microseconds, here, after);
            }
            let (key, taker) = match self.order_book.walking_market_book(after) {
                Some(entry) => entry,
                None => {
                    break ;
                },
            };
            proof {
                lemma_ahead_decreases(after, key);
                self@.lemma_market_entry(key);
            }
            let result = self.match_market_order(now_microseconds, &taker, &mut report);
            proof {
                let step = spec_match_market(now_microseconds, here.book, taker);
                lemma_fill_is_sound(
                    now_microseconds,
                    origin,
                    here.book,
                    taker,
                    taker,
                    spec_market_slip(here.book, taker.spec_with_lifecycle(OrderLifecycle::Matched)),
                    step.trades,
                );
                lemma_sound_trades_add(now_microseconds, origin, here.trades, step.trades);
                lemma_reports_add(here.updated, step.updated);
                self@.lemma_descends(here.book, origin);
            }
            let ghost stepped = self@;
            if result.remove {
                self.order_book.unlink(&taker);
                proof {
                    self@.lemma_descends(stepped, origin);
                    self@.lemma_descends(stepped, here.book);
                }
            }
            proof {
                let step = spec_match_market(now_microseconds, here.book, taker);
                lemma_conserves_chain(
                    origin,
                    here.book,
                    self@,
                    here.updated,
                    here.trades,
                    step.updated,
                    step.trades,
                );
                lemma_known_descends(origin, here.book, step.updated, step.trades);
                lemma_known_add(origin, here.updated, here.trades, step.updated, step.trades);
            }
            if result.exit {
                break ;
            }
            after = Some(key);
        }
        let ghost middle = PassState {
            book: self@,
            updated: report.updated@,
            trades: report.trades@,
        };
        let mut cursor = CrossCursor { buy_after: None, sell_after: None };
        loop
            invariant_except_break
                spec_cross_pass(
                    now_microseconds,
                    PassState { book: self@, updated: report.updated@, trades: report.trades@ },
                    cursor,
                ) == spec_cross_pass(
                    now_microseconds,
                    middle,
                    CrossCursor { buy_after: None, sell_after: None },
                ),
            invariant
                origin.wf(),
                self@.wf(),
                self@.descends(origin),
                sound_trades(now_microseconds, origin, report.trades@),
                filled_have_nothing_left(report.updated@),
                conserves(origin, self@, report.updated@, report.trades@),
                known(origin, report.updated@, report.trades@),
                report.updated@.len() == 0 ==> report.trades@.len() == 0 && self@ == origin,
                self@.market == middle.book.market,
            ensures
                (PassState { book: self@, updated: report.updated@, trades: report.trades@ })
                    == spec_cross_pass(
                    now_microseconds,
                    middle,
                    CrossCursor { buy_after: None, sell_after: None },
                ),
            decreases ahead(cursor.buy_after) + ahead(cursor.sell_after),
        {
            let ghost here = PassState {
                book: self@,
                updated: report.updated@,
                trades: report.trades@,
            };
            proof {
                lemma_cross_pass_step(now_microseconds, here, cursor);
                lemma_next_taker(self@.buy, self@.sell, cursor);
            }
            let (taker, next_cursor) = match self.order_book.walking_cross_taker(cursor) {
                Some(step) => step,
                None => {
                    break ;
                },
            };
            proof {
                let buy_key = next_cursor.buy_after->Some_0;
                let sell_key = next_cursor.sell_after->Some_0;
                if next_cursor.buy_after is Some && self@.buy.dom().contains(buy_key)
                    && self@.buy[buy_key] == taker {
                    self@.lemma_side_entry(Side::Buy, buy_key);
                } else {
                    self@.lemma_side_entry(Side::Sell, sell_key);
                }
            }
            let result = self.match_limit_order(now_microseconds, &taker, &mut report);
            proof {
                let step = spec_match_limit(now_microseconds, here.book, taker);
                lemma_fill_is_sound(
                    now_microseconds,
                    origin,
                    here.book,
                    taker,
                    taker,
                    Some(taker.price),
                    step.trades,
                );
                lemma_sound_trades_add(now_microseconds, origin, here.trades, step.trades);
                lemma_reports_add(here.updated, step.updated);
                self@.lemma_descends(here.book, origin);
            }
            let ghost stepped = self@;
            if result.remove {
                self.order_book.unlink(&taker);
                proof {
                    self@.lemma_descends(stepped, origin);
                    self@.lemma_descends(stepped, here.book);
                }
            }
            proof {
                let step = spec_match_limit(now_microseconds, here.book, taker);
                lemma_conserves_chain(
                    origin,
                    here.book,
                    self@,
                    here.updated,
                    here.trades,
                    step.updated,
                    step.trades,
                );
                lemma_known_descends(origin, here.book, step.updated, step.trades);
                lemma_known_add(origin, here.updated, here.trades, step.updated, step.trades);
            }
            if result.exit {
                break ;
            }
            cursor = next_cursor;
        }
        report
    }
}

/// What a matching engine offers: to take orders in, to move and to cancel
/// them, and to run a matching step.
pub trait MatchingEngine {
    /// What the book of the engine holds.
    spec fn engine_state(&self) -> BookState;

    /// Takes a validated order into the book.
    fn create_order(&mut self, order: &mut Order) -> (r: Result<(), RejectReason>)
        requires
            old(self).engine_state().wf(),
        ensures
            final(self).engine_state().wf(),
            ({
                let placed = Order { status: OrderStatus::Placed, ..*old(order) };
                if old(self).engine_state().taken(placed) {
                    &&& r == Err::<(), RejectReason>(RejectReason::TimestampConflict)
                    &&& final(self).engine_state() == old(self).engine_state()
                    &&& *final(order) == (Order {
                        status: OrderStatus::Rejected,
                        reject_reason: Some(RejectReason::TimestampConflict),
                        ..*old(order)
                    })
                } else {
                    &&& r == Ok::<(), RejectReason>(())
                    &&& final(self).engine_state() == old(self).engine_state().place(placed).bump()
                    &&& *final(order) == placed
                }
            }),
    ;

    /// Moves an order of the book to a new price.
    fn update_order(&mut self, order_id: OrderID, new_price: Price, now_microseconds: u64) -> (r:
        Result<(), UpdateOrderError>)
        requires
            old(self).engine_state().wf(),
        ensures
            final(self).engine_state().wf(),
            r == old(self).engine_state().update_result(order_id, new_price, now_microseconds),
            final(self).engine_state() == old(self).engine_state().updated(
                order_id,
                new_price,
                now_microseconds,
            ),
    ;

    /// Cancels an order of the book.
    fn cancel_order(&mut self, order_id: OrderID) -> (r: Result<(), CancelOrderError>)
        requires
            old(self).engine_state().wf(),
        ensures
            final(self).engine_state().wf(),
            r == old(self).engine_state().cancel_result(order_id),
            final(self).engine_state() == old(self).engine_state().cancelled(order_id),
    ;

    /// One matching step, at the time `now_microseconds`.
    fn match_orders(&mut self, now_microseconds: u64) -> (r: MatchReport)
        requires
            old(self).engine_state().wf(),
        ensures
            final(self).engine_state().wf(),
            final(self).engine_state() == spec_match_orders(
                now_microseconds,
                old(self).engine_state(),
            ).book,
            r.updated@ == spec_match_orders(now_microseconds, old(self).engine_state()).updated,
            r.trades@ == spec_match_orders(now_microseconds, old(self).engine_state()).trades,
    ;
}

impl<S: OrderBookSyncer> MatchingEngine for DefaultMatchingEngine<S> {
    open spec fn engine_state(&self) -> BookState {
        self@
    }

    fn create_order(&mut self, order: &mut Order) -> (r: Result<(), RejectReason>) {
        DefaultMatchingEngine::create_order(self, order)
    }

    fn update_order(&mut self, order_id: OrderID, new_price: Price, now_microseconds: u64) -> (r:
        Result<(), UpdateOrderError>) {
        DefaultMatchingEngine::update_order(self, order_id, new_price, now_microseconds)
    }

    fn cancel_order(&mut self, order_id: OrderID) -> (r: Result<(), CancelOrderError>) {
        DefaultMatchingEngine::cancel_order(self, order_id)
    }

    fn match_orders(&mut self, now_microseconds: u64) -> (r: MatchReport) {
        DefaultMatchingEngine::match_orders(self, now_microseconds)
    }
}

} // verus!
