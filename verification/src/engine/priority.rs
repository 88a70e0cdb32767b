use crate::engine::book::{
    ahead, lemma_ahead_decreases, lemma_next_maker, spec_first_after, spec_next_maker,
};
use crate::engine::store::{is_after, is_first_after};
use crate::engine::types::{
    key_lt, LiquidityDirective, Order, OrderLifecycle, Price, Side, SortKey,
};
use vstd::prelude::*;

verus! {

/// Whether an order is one that a taker can be filled from: `Active`, and
/// not `TakerOnly`.
pub open spec fn can_make(order: Order) -> bool {
    order.lifecycle == OrderLifecycle::Active && order.liquidity_directive
        != LiquidityDirective::TakerOnly
}

/// Whether nothing is left under `key`: no order, or an order of which
/// nothing remains.
pub open spec fn spent(entries: Map<SortKey, Order>, key: SortKey) -> bool {
    !entries.dom().contains(key) || entries[key].quantity@ == 0
}

/// Whether the order that `before` holds under `key` has been worked on:
/// `after` does not hold it as it was.
pub open spec fn touched(
    before: Map<SortKey, Order>,
    after: Map<SortKey, Order>,
    key: SortKey,
) -> bool {
    before.dom().contains(key) && !(after.dom().contains(key) && after[key] == before[key])
}

/// Whether a side has been worked on in the order of the book: where an
/// order has been worked on, nothing is left of any order before it that a
/// taker can be filled from.
pub open spec fn in_book_order(before: Map<SortKey, Order>, after: Map<SortKey, Order>) -> bool {
    forall|first: SortKey, second: SortKey|
        #![trigger touched(before, after, second), can_make(before[first])]
        before.dom().contains(first) && key_lt(first, second) && can_make(before[first])
            && touched(before, after, second) ==> spent(after, first)
}

/// Whether nothing is left of any order at or before the place `cursor`
/// that a taker can be filled from.
pub open spec fn passed_are_spent(
    before: Map<SortKey, Order>,
    after: Map<SortKey, Order>,
    cursor: Option<SortKey>,
) -> bool {
    forall|key: SortKey|
        #![trigger can_make(before[key])]
        before.dom().contains(key) && !is_after(cursor, key) && can_make(before[key]) ==> spent(
            after,
            key,
        )
}

/// Whether no order behind the place `cursor` has been worked on.
pub open spec fn untouched_ahead(
    before: Map<SortKey, Order>,
    after: Map<SortKey, Order>,
    cursor: Option<SortKey>,
) -> bool {
    forall|key: SortKey|
        #![trigger touched(before, after, key)]
        is_after(cursor, key) ==> !touched(before, after, key)
}

/// The maker that a walk over a side comes to next is the first order
/// behind the place of the walk that is not `TakerOnly`: every order
/// between the place and the maker is `TakerOnly`.
pub proof fn lemma_next_maker_is_first(
    entries: Map<SortKey, Order>,
    side: Side,
    slip: Option<Price>,
    after: Option<SortKey>,
    between: SortKey,
)
    requires
        entries.dom().contains(between),
        is_after(after, between),
        spec_next_maker(entries, side, slip, after) matches Some((key, _)) && key_lt(between, key),
    ensures
        entries[between].liquidity_directive == LiquidityDirective::TakerOnly,
    decreases ahead(after),
{
    match spec_first_after(entries, after) {
        None => {},
        Some((key, order)) => {
            assert(is_first_after(entries, after, key));
            if order.liquidity_directive == LiquidityDirective::TakerOnly {
                lemma_ahead_decreases(after, key);
                if key != between {
                    lemma_next_maker_is_first(entries, side, slip, Some(key), between);
                }
            }
        },
    }
}

/// A side stays worked on in the order of the book when the walk over its
/// makers goes on by one maker.
///
/// `before` is the side when the walk began, `entries` the side now, with
/// the walk at `cursor`, and `next` the side after the walk has come to
/// the maker under `key` and worked on it or passed it.
pub proof fn lemma_order_step(
    before: Map<SortKey, Order>,
    entries: Map<SortKey, Order>,
    next: Map<SortKey, Order>,
    side: Side,
    slip: Option<Price>,
    cursor: Option<SortKey>,
    key: SortKey,
)
    requires
        in_book_order(before, entries),
        passed_are_spent(before, entries, cursor),
        untouched_ahead(before, entries, cursor),
        forall|other: SortKey| #[trigger] entries.dom().contains(other) ==> before.dom().contains(other),
        spec_next_maker(entries, side, slip, cursor) matches Some((found, _)) && found == key,
        forall|other: SortKey|
            other != key ==> (#[trigger] next.dom().contains(other)) == entries.dom().contains(
                other,
            ) && next[other] == entries[other],
        !can_make(entries[key]) ==> next.dom().contains(key) && next[key] == entries[key],
        next.dom().contains(key) ==> entries.dom().contains(key),
    ensures
        in_book_order(before, next),
        untouched_ahead(before, next, Some(key)),
        forall|other: SortKey| #[trigger] next.dom().contains(other) ==> before.dom().contains(other),
        spent(next, key) || !can_make(entries[key]) ==> passed_are_spent(before, next, Some(key)),
{
    lemma_next_maker(entries, side, slip, cursor);
    assert(entries.dom().contains(key) && is_after(cursor, key));
    assert(!touched(before, entries, key));
    assert forall|first: SortKey, second: SortKey|
        #![trigger touched(before, next, second), can_make(before[first])]
        before.dom().contains(first) && key_lt(first, second) && can_make(before[first])
            && touched(before, next, second) implies spent(next, first) by {
        if second != key {
            assert(next.dom().contains(second) == entries.dom().contains(second));
            assert(touched(before, entries, second));
            if first == key {
                assert(is_after(cursor, second));
                assert(!touched(before, entries, second));
            } else {
                assert(next.dom().contains(first) == entries.dom().contains(first));
                assert(spent(entries, first));
            }
        } else {
            assert(next.dom().contains(first) == entries.dom().contains(first));
            if is_after(cursor, first) {
                assert(!touched(before, entries, first));
                lemma_next_maker_is_first(entries, side, slip, cursor, first);
            } else {
                assert(spent(entries, first));
            }
        }
    }
    assert forall|other: SortKey|
        #![trigger touched(before, next, other)]
        is_after(Some(key), other) implies !touched(before, next, other) by {
        assert(is_after(cursor, other));
        assert(!touched(before, entries, other));
        assert(next.dom().contains(other) == entries.dom().contains(other));
    }
    assert forall|other: SortKey| #[trigger] next.dom().contains(other) implies before.dom().contains(
        other,
    ) by {
        if other != key {
            assert(next.dom().contains(other) == entries.dom().contains(other));
        }
    }
    if spent(next, key) || !can_make(entries[key]) {
        assert forall|other: SortKey|
            #![trigger can_make(before[other])]
            before.dom().contains(other) && !is_after(Some(key), other) && can_make(
                before[other],
            ) implies spent(next, other) by {
            if other != key {
                assert(next.dom().contains(other) == entries.dom().contains(other));
                if is_after(cursor, other) {
                    assert(!touched(before, entries, other));
                    lemma_next_maker_is_first(entries, side, slip, cursor, other);
                } else {
                    assert(spent(entries, other));
                }
            }
        }
    }
}

} // verus!
