use crate::engine::book::BookState;
use crate::engine::types::{Order, OrderID, Trade};
use vstd::prelude::*;

verus! {

/// The quantity that the trades of `trades` under the identifier `id` come
/// to.
pub open spec fn traded_by(trades: Seq<Trade>, id: OrderID) -> nat
    decreases trades.len(),
{
    if trades.len() == 0 {
        0
    } else {
        traded_by(trades.drop_last(), id) + if trades.last().order_id == id {
            trades.last().quantity@
        } else {
            0
        }
    }
}

/// The last of the reported orders with the identifier `id`, if there is
/// one.
pub open spec fn last_reported(updated: Seq<Order>, id: OrderID) -> Option<Order>
    decreases updated.len(),
{
    if updated.len() == 0 {
        None
    } else if updated.last().id == id {
        Some(updated.last())
    } else {
        last_reported(updated.drop_last(), id)
    }
}

/// The order `id` as it is after a step: as the book holds it, or, if the
/// book does not, as it was last reported.
pub open spec fn latest(book: BookState, updated: Seq<Order>, id: OrderID) -> Option<Order> {
    match book.spec_find(id) {
        Some(order) => Some(order),
        None => last_reported(updated, id),
    }
}

/// Whether, for every order of the book `origin`, what remained of it
/// there is what remains of it now and what it traded: the order is still
/// in `book` or was reported when it left, and its quantity in `origin` is
/// the quantity it has now plus the quantities of its trades.
pub open spec fn conserves(
    origin: BookState,
    book: BookState,
    updated: Seq<Order>,
    trades: Seq<Trade>,
) -> bool {
    forall|id: OrderID| #[trigger] conserved(origin, book, updated, trades, id)
}

/// Whether the quantity of the order `id` of the book `origin`, if there
/// is such an order, is conserved.
pub open spec fn conserved(
    origin: BookState,
    book: BookState,
    updated: Seq<Order>,
    trades: Seq<Trade>,
    id: OrderID,
) -> bool {
    origin.spec_find(id) matches Some(first) ==> latest(book, updated, id) matches Some(order)
        && first.quantity@ == order.quantity@ + traded_by(trades, id)
}

/// Whether the quantities of all orders of the book `origin` but the
/// order `except` are conserved.
pub open spec fn conserves_but(
    origin: BookState,
    except: OrderID,
    book: BookState,
    updated: Seq<Order>,
    trades: Seq<Trade>,
) -> bool {
    forall|id: OrderID| id != except ==> #[trigger] conserved(origin, book, updated, trades, id)
}

/// Whether every reported order and every trade is that of an order of
/// the book `origin`.
pub open spec fn known(origin: BookState, updated: Seq<Order>, trades: Seq<Trade>) -> bool {
    &&& forall|at: int|
        0 <= at < updated.len() ==> origin.spec_find((#[trigger] updated[at]).id) is Some
    &&& forall|at: int|
        0 <= at < trades.len() ==> origin.spec_find((#[trigger] trades[at]).order_id) is Some
}

/// The trades of two runs of trades add up.
pub proof fn lemma_traded_by_add(trades: Seq<Trade>, more: Seq<Trade>, id: OrderID)
    ensures
        traded_by(trades + more, id) == traded_by(trades, id) + traded_by(more, id),
    decreases more.len(),
{
    if more.len() == 0 {
        assert(trades + more =~= trades);
    } else {
        assert((trades + more).drop_last() =~= trades + more.drop_last());
        lemma_traded_by_add(trades, more.drop_last(), id);
    }
}

/// Trades under other identifiers come to nothing.
pub proof fn lemma_traded_by_others(trades: Seq<Trade>, id: OrderID)
    requires
        forall|at: int| 0 <= at < trades.len() ==> (#[trigger] trades[at]).order_id != id,
    ensures
        traded_by(trades, id) == 0,
    decreases trades.len(),
{
    if trades.len() > 0 {
        assert(trades.last() == trades[trades.len() - 1]);
        assert forall|at: int| 0 <= at < trades.drop_last().len() implies (
        #[trigger] trades.drop_last()[at]).order_id != id by {
            assert(trades.drop_last()[at] == trades[at]);
        }
        lemma_traded_by_others(trades.drop_last(), id);
    }
}

/// The last report of two runs of reports is that of the second run, or,
/// if that has none, that of the first.
pub proof fn lemma_last_reported_add(updated: Seq<Order>, more: Seq<Order>, id: OrderID)
    ensures
        last_reported(updated + more, id) == match last_reported(more, id) {
            Some(order) => Some(order),
            None => last_reported(updated, id),
        },
    decreases more.len(),
{
    if more.len() == 0 {
        assert(updated + more =~= updated);
    } else {
        assert((updated + more).drop_last() =~= updated + more.drop_last());
        assert((updated + more).last() == more.last());
        lemma_last_reported_add(updated, more.drop_last(), id);
    }
}

/// Reports under other identifiers are no report.
pub proof fn lemma_last_reported_others(updated: Seq<Order>, id: OrderID)
    requires
        forall|at: int| 0 <= at < updated.len() ==> (#[trigger] updated[at]).id != id,
    ensures
        last_reported(updated, id) is None,
    decreases updated.len(),
{
    if updated.len() > 0 {
        assert(updated.last() == updated[updated.len() - 1]);
        assert forall|at: int| 0 <= at < updated.drop_last().len() implies (
        #[trigger] updated.drop_last()[at]).id != id by {
            assert(updated.drop_last()[at] == updated[at]);
        }
        lemma_last_reported_others(updated.drop_last(), id);
    }
}

/// A last report is one of the reports.
pub proof fn lemma_last_reported_is_one(updated: Seq<Order>, id: OrderID)
    ensures
        last_reported(updated, id) matches Some(order) ==> order.id == id && exists|at: int|
            0 <= at < updated.len() && updated[at] == order,
    decreases updated.len(),
{
    if updated.len() > 0 {
        if updated.last().id == id {
            assert(updated[updated.len() - 1] == updated.last());
        } else {
            lemma_last_reported_is_one(updated.drop_last(), id);
            if last_reported(updated.drop_last(), id) is Some {
                let order = last_reported(updated.drop_last(), id)->Some_0;
                let at = choose|at: int|
                    0 <= at < updated.drop_last().len() && updated.drop_last()[at] == order;
                assert(updated[at] == order);
            }
        }
    }
}

/// What is known of one book is known of a book that it descends from.
pub proof fn lemma_known_descends(
    origin: BookState,
    book: BookState,
    updated: Seq<Order>,
    trades: Seq<Trade>,
)
    requires
        origin.wf(),
        book.wf(),
        book.descends(origin),
        known(book, updated, trades),
    ensures
        known(origin, updated, trades),
{
    assert forall|at: int| 0 <= at < updated.len() implies origin.spec_find(
        (#[trigger] updated[at]).id,
    ) is Some by {
        book.lemma_found_descends(origin, updated[at].id);
    }
    assert forall|at: int| 0 <= at < trades.len() implies origin.spec_find(
        (#[trigger] trades[at]).order_id,
    ) is Some by {
        book.lemma_found_descends(origin, trades[at].order_id);
    }
}

/// What is known stays known when more that is known is added.
pub proof fn lemma_known_add(
    origin: BookState,
    updated: Seq<Order>,
    trades: Seq<Trade>,
    more_updated: Seq<Order>,
    more_trades: Seq<Trade>,
)
    requires
        known(origin, updated, trades),
        known(origin, more_updated, more_trades),
    ensures
        known(origin, updated + more_updated, trades + more_trades),
{
    let all_updated = updated + more_updated;
    let all_trades = trades + more_trades;
    assert forall|at: int| 0 <= at < all_updated.len() implies origin.spec_find(
        (#[trigger] all_updated[at]).id,
    ) is Some by {
        if at < updated.len() {
            assert(all_updated[at] == updated[at]);
        } else {
            assert(all_updated[at] == more_updated[at - updated.len()]);
        }
    }
    assert forall|at: int| 0 <= at < all_trades.len() implies origin.spec_find(
        (#[trigger] all_trades[at]).order_id,
    ) is Some by {
        if at < trades.len() {
            assert(all_trades[at] == trades[at]);
        } else {
            assert(all_trades[at] == more_trades[at - trades.len()]);
        }
    }
}

/// Conservation carries over from step to step: if the quantities are
/// conserved from `origin` to `middle` and from `middle` to `book`, they
/// are conserved from `origin` to `book`.
pub proof fn lemma_conserves_chain(
    origin: BookState,
    middle: BookState,
    book: BookState,
    updated: Seq<Order>,
    trades: Seq<Trade>,
    more_updated: Seq<Order>,
    more_trades: Seq<Trade>,
)
    requires
        middle.wf(),
        book.wf(),
        book.descends(middle),
        conserves(origin, middle, updated, trades),
        conserves(middle, book, more_updated, more_trades),
        known(middle, more_updated, more_trades),
    ensures
        conserves(origin, book, updated + more_updated, trades + more_trades),
{
    assert forall|id: OrderID| #[trigger]
        conserved(origin, book, updated + more_updated, trades + more_trades, id) by {
        assert(conserved(origin, middle, updated, trades, id));
        assert(conserved(middle, book, more_updated, more_trades, id));
        lemma_traded_by_add(trades, more_trades, id);
        lemma_last_reported_add(updated, more_updated, id);
        book.lemma_found_descends(middle, id);
        if middle.spec_find(id) is None {
            assert forall|at: int| 0 <= at < more_updated.len() implies (
            #[trigger] more_updated[at]).id != id by {}
            lemma_last_reported_others(more_updated, id);
            assert forall|at: int| 0 <= at < more_trades.len() implies (
            #[trigger] more_trades[at]).order_id != id by {}
            lemma_traded_by_others(more_trades, id);
        }
    }
}

/// Conservation is kept by a step that changes one order of the book,
/// reports only that order, and makes trades only between that order and
/// the excepted one, if what that order had is what it has now and what it
/// traded in the step.
pub proof fn lemma_conserves_change(
    origin: BookState,
    except: OrderID,
    book: BookState,
    after: BookState,
    updated: Seq<Order>,
    more_updated: Seq<Order>,
    trades: Seq<Trade>,
    more_trades: Seq<Trade>,
    changed: OrderID,
)
    requires
        conserves_but(origin, except, book, updated, trades),
        forall|id: OrderID| id != changed ==> after.spec_find(id) == #[trigger] book.spec_find(id),
        forall|at: int|
            0 <= at < more_updated.len() ==> (#[trigger] more_updated[at]).id == changed,
        forall|at: int|
            0 <= at < more_trades.len() ==> (#[trigger] more_trades[at]).order_id == changed
                || more_trades[at].order_id == except,
        changed != except ==> (book.spec_find(changed) matches Some(was) && latest(
            after,
            more_updated,
            changed,
        ) matches Some(now) && was.quantity@ == now.quantity@ + traded_by(more_trades, changed)),
    ensures
        conserves_but(origin, except, after, updated + more_updated, trades + more_trades),
{
    assert forall|id: OrderID| id != except implies #[trigger] conserved(
        origin,
        after,
        updated + more_updated,
        trades + more_trades,
        id,
    ) by {
        assert(conserved(origin, book, updated, trades, id));
        lemma_traded_by_add(trades, more_trades, id);
        lemma_last_reported_add(updated, more_updated, id);
        if id != changed {
            assert(after.spec_find(id) == book.spec_find(id));
            lemma_last_reported_others(more_updated, id);
            lemma_traded_by_others(more_trades, id);
        }
    }
}

/// A book conserves the quantities of its own orders when nothing has
/// been reported and nothing traded.
pub proof fn lemma_conserves_start(origin: BookState)
    ensures
        conserves(origin, origin, Seq::empty(), Seq::empty()),
        known(origin, Seq::empty(), Seq::empty()),
{
    assert forall|id: OrderID| #[trigger]
        conserved(origin, origin, Seq::empty(), Seq::empty(), id) by {}
}

/// Whether two books find the same orders, each with the quantity it has
/// in the other.
pub open spec fn keeps_quantities(origin: BookState, book: BookState) -> bool {
    forall|id: OrderID|
        match (#[trigger] origin.spec_find(id), book.spec_find(id)) {
            (Some(first), Some(order)) => first.quantity == order.quantity,
            (None, None) => true,
            _ => false,
        }
}

/// Writing back an order with the quantity that it has in the book keeps
/// the quantities.
pub proof fn lemma_store_keeps(origin: BookState, book: BookState, order: Order)
    requires
        book.wf(),
        book.shelf(order).dom().contains(crate::engine::book::spec_slot(order)),
        crate::engine::book::kin(
            book.shelf(order)[crate::engine::book::spec_slot(order)],
            order,
        ),
        book.shelf(order)[crate::engine::book::spec_slot(order)].quantity == order.quantity,
        keeps_quantities(origin, book),
    ensures
        keeps_quantities(origin, book.store(order)),
        forall|id: OrderID|
            id != order.id ==> book.store(order).spec_find(id) == #[trigger] book.spec_find(id),
{
    let held = book.shelf(order)[crate::engine::book::spec_slot(order)];
    book.lemma_held_is_found(held);
    assert forall|id: OrderID|
        match (#[trigger] origin.spec_find(id), book.store(order).spec_find(id)) {
            (Some(first), Some(order)) => first.quantity == order.quantity,
            (None, None) => true,
            _ => false,
        } by {
        book.lemma_store_find(order, id);
        assert(match (origin.spec_find(id), book.spec_find(id)) {
            (Some(first), Some(order)) => first.quantity == order.quantity,
            (None, None) => true,
            _ => false,
        });
    }
    assert forall|id: OrderID| id != order.id implies book.store(order).spec_find(id)
        == #[trigger] book.spec_find(id) by {
        book.lemma_store_find(order, id);
    }
}

/// A book keeps its own quantities.
pub proof fn lemma_keeps_itself(origin: BookState)
    ensures
        keeps_quantities(origin, origin),
{
}

/// A book that keeps the quantities of another conserves them.
pub proof fn lemma_kept_is_conserved(origin: BookState, book: BookState)
    requires
        keeps_quantities(origin, book),
    ensures
        conserves(origin, book, Seq::empty(), Seq::empty()),
        known(origin, Seq::empty(), Seq::empty()),
{
    assert forall|id: OrderID| #[trigger]
        conserved(origin, book, Seq::empty(), Seq::empty(), id) by {
        assert(match (origin.spec_find(id), book.spec_find(id)) {
            (Some(first), Some(order)) => first.quantity == order.quantity,
            (None, None) => true,
            _ => false,
        });
    }
}

/// When the taker, which has been accounted beside the book, is done, all
/// quantities are conserved: the taker is reported, and the book holds it
/// as reported or no longer.
pub proof fn lemma_taker_done_conserves(
    origin: BookState,
    book: BookState,
    after: BookState,
    last: Order,
    updated: Seq<Order>,
    trades: Seq<Trade>,
)
    requires
        conserves_but(origin, last.id, book, updated, trades),
        known(origin, updated, trades),
        origin.spec_find(last.id) matches Some(first) && first.quantity@ == last.quantity@
            + traded_by(trades, last.id),
        forall|id: OrderID| id != last.id ==> after.spec_find(id) == #[trigger] book.spec_find(id),
        after.spec_find(last.id) == Some(last) || after.spec_find(last.id) is None,
    ensures
        conserves(origin, after, updated + seq![last], trades),
        known(origin, updated + seq![last], trades),
{
    let more = seq![last];
    assert forall|id: OrderID| #[trigger]
        conserved(origin, after, updated + more, trades, id) by {
        lemma_last_reported_add(updated, more, id);
        reveal_with_fuel(last_reported, 2);
        assert(more.drop_last() =~= Seq::<Order>::empty());
        if id != last.id {
            assert(conserved(origin, book, updated, trades, id));
            assert(after.spec_find(id) == book.spec_find(id));
        }
    }
    assert(known(origin, more, Seq::empty()));
    lemma_known_add(origin, updated, trades, more, Seq::empty());
    assert(trades + Seq::<Trade>::empty() =~= trades);
}

/// When the taker, which has been accounted beside the book, has traded
/// nothing and the book holds it as before, all quantities are conserved.
pub proof fn lemma_taker_idle_conserves(
    origin: BookState,
    book: BookState,
    taker: OrderID,
    updated: Seq<Order>,
    trades: Seq<Trade>,
)
    requires
        conserves_but(origin, taker, book, updated, trades),
        book.spec_find(taker) == origin.spec_find(taker),
        traded_by(trades, taker) == 0,
    ensures
        conserves(origin, book, updated, trades),
{
    assert forall|id: OrderID| #[trigger] conserved(origin, book, updated, trades, id) by {
        if id != taker {
            assert(conserved(origin, book, updated, trades, id));
        }
    }
}

} // verus!
