use crate::engine::error::{CancelOrderError, UpdateOrderError};
use crate::engine::store::{
    index_entries, index_get, index_insert, index_new, index_remove, is_after, is_first_after,
    list_entries, list_first_after, list_get, list_get_or_insert, list_insert, list_new,
    list_remove, none_after, OrderIndex, OrderList,
};
use crate::engine::syncer::OrderBookSyncer;
use crate::engine::types::{
    key_lt, market_sort_key, spec_market_sort_key, BookKey, LiquidityDirective, Order, OrderID,
    OrderLifecycle, OrderStatus, OrderType, Price, RejectReason, Side, SortKey, Trade,
};
use vstd::prelude::*;

verus! {

/// What the visitor of a walk over the book asks of the walk: to take the
/// visited entry out of the book, to stop, both or neither.
#[derive(Clone, Copy, Debug, PartialEq, Eq, Structural)]
pub struct WalkingResult {
    pub remove: bool,
    pub exit: bool,
}

impl WalkingResult {
    /// A result with the given two answers.
    pub fn new(remove: bool, exit: bool) -> (r: WalkingResult)
        ensures
            r == (WalkingResult { remove, exit }),
    {
        Self { remove, exit }
    }

    /// Keep the entry and go on.
    pub fn next() -> (r: WalkingResult)
        ensures
            r == (WalkingResult { remove: false, exit: false }),
    {
        Self { remove: false, exit: false }
    }

    /// Take the entry out and go on.
    pub fn remove_and_next() -> (r: WalkingResult)
        ensures
            r == (WalkingResult { remove: true, exit: false }),
    {
        Self { remove: true, exit: false }
    }

    /// Keep the entry and stop.
    pub fn exit() -> (r: WalkingResult)
        ensures
            r == (WalkingResult { remove: false, exit: true }),
    {
        Self { remove: false, exit: true }
    }

    /// Take the entry out and stop.
    pub fn remove_and_exit() -> (r: WalkingResult)
        ensures
            r == (WalkingResult { remove: true, exit: true }),
    {
        Self { remove: true, exit: true }
    }
}

/// The first entry of `entries` behind `after`, if there is one.
pub open spec fn spec_first_after(entries: Map<SortKey, Order>, after: Option<SortKey>) -> Option<
    (SortKey, Order),
> {
    if exists|key: SortKey| is_first_after(entries, after, key) {
        let key = choose|key: SortKey| is_first_after(entries, after, key);
        Some((key, entries[key]))
    } else {
        None
    }
}

/// At most one key is the first behind `after`.
pub proof fn lemma_first_after_unique(
    entries: Map<SortKey, Order>,
    after: Option<SortKey>,
    key: SortKey,
)
    requires
        is_first_after(entries, after, key),
    ensures
        spec_first_after(entries, after) == Some((key, entries[key])),
{
    let chosen = choose|k: SortKey| is_first_after(entries, after, k);
    assert(!key_lt(chosen, key));
    assert(!key_lt(key, chosen));
}

/// Where no key lies behind `after`, there is no first one.
pub proof fn lemma_first_after_none(entries: Map<SortKey, Order>, after: Option<SortKey>)
    requires
        none_after(entries, after),
    ensures
        spec_first_after(entries, after) is None,
{
}

/// The place of a sort key among all sort keys, counted from the first.
pub open spec fn rank(key: SortKey) -> nat {
    (key.4 + key.3 * 0x1_0000_0000_0000_0000nat + key.2
        * 0x1_0000_0000_0000_0000_0000_0000_0000_0000nat + key.1
        * 0x1_0000_0000_0000_0000_0000_0000_0000_0000_0000_0000_0000_0000nat + key.0
        * 0x1_0000_0000_0000_0000_0000_0000_0000_0000_0000_0000_0000_0000_0000_0000_0000_0000nat) as nat
}

/// How many sort keys lie behind `after`: what a walk that has come to
/// `after` may still have before it.
pub open spec fn ahead(after: Option<SortKey>) -> nat {
    match after {
        None => 0x1_0000_0000_0000_0000_0000_0000_0000_0000_0000_0000_0000_0000_0000_0000_0000_0000_0000_0000_0000_0000nat,
        Some(key) => (0x1_0000_0000_0000_0000_0000_0000_0000_0000_0000_0000_0000_0000_0000_0000_0000_0000_0000_0000_0000_0000nat
            - 1 - rank(key)) as nat,
    }
}

/// A walk that goes on to a key behind `after` has less before it.
pub proof fn lemma_ahead_decreases(after: Option<SortKey>, key: SortKey)
    requires
        is_after(after, key),
    ensures
        ahead(Some(key)) < ahead(after),
{
}

/// The first entry of a collection behind `after`: a copy of its key and
/// its order.
pub fn first_after(list: &OrderList, after: Option<SortKey>) -> (r: Option<(SortKey, Order)>)
    ensures
        r == spec_first_after(list_entries(*list), after),
        r matches Some((key, order)) ==> is_first_after(list_entries(*list), after, key)
            && list_entries(*list)[key] == order,
        r is None ==> none_after(list_entries(*list), after),
{
    let r = list_first_after(list, after);
    proof {
        match r {
            Some((key, order)) => lemma_first_after_unique(list_entries(*list), after, key),
            None => lemma_first_after_none(list_entries(*list), after),
        }
    }
    r
}

/// The sort key under which a collection of the book holds `order`: that of
/// its book key for a limit order, that of its priority for a market order.
pub open spec fn spec_slot(order: Order) -> SortKey {
    match order.order_type {
        OrderType::Limit => order.spec_book_key().spec_sort_key(),
        OrderType::Market => spec_market_sort_key(order.spec_priority()),
    }
}

/// The sort key under which a collection of the book holds `order`.
pub fn slot(order: &Order) -> (r: SortKey)
    ensures
        r == spec_slot(*order),
{
    match order.order_type {
        OrderType::Limit => order.book_key().sort_key(),
        OrderType::Market => market_sort_key(order.priority()),
    }
}

/// What an order book holds: the three collections, each as the order
/// under each sort key, the index from identifiers to book keys, and the
/// number of the next commit.
pub struct BookState {
    pub seq: u64,
    pub market: Map<SortKey, Order>,
    pub buy: Map<SortKey, Order>,
    pub sell: Map<SortKey, Order>,
    pub index: Map<OrderID, BookKey>,
}

impl BookState {
    /// A book that holds nothing and whose next commit has the number `seq`.
    pub open spec fn spec_empty(seq: u64) -> BookState {
        BookState {
            seq,
            market: Map::empty(),
            buy: Map::empty(),
            sell: Map::empty(),
            index: Map::empty(),
        }
    }

    /// The limit orders of one side.
    pub open spec fn side(self, side: Side) -> Map<SortKey, Order> {
        match side {
            Side::Buy => self.buy,
            Side::Sell => self.sell,
        }
    }

    /// The collection in which `order` belongs: the market orders for a
    /// market order, its side for a limit order.
    pub open spec fn shelf(self, order: Order) -> Map<SortKey, Order> {
        match order.order_type {
            OrderType::Market => self.market,
            OrderType::Limit => self.side(order.side),
        }
    }

    /// The book with `entries` in place of the collection in which `order`
    /// belongs.
    pub open spec fn with_shelf(self, order: Order, entries: Map<SortKey, Order>) -> BookState {
        match order.order_type {
            OrderType::Market => BookState { market: entries, ..self },
            OrderType::Limit => match order.side {
                Side::Buy => BookState { buy: entries, ..self },
                Side::Sell => BookState { sell: entries, ..self },
            },
        }
    }

    /// Whether the order under `slot` in `entries` is one that belongs
    /// there: a limit order of the side `side`, or a market order where
    /// `side` is `None`, held under its own sort key, not filled, and
    /// indexed by its identifier under its own book key.
    pub open spec fn entry_ok(self, entries: Map<SortKey, Order>, side: Option<Side>, slot: SortKey) -> bool {
        let order = entries[slot];
        &&& spec_slot(order) == slot
        &&& match side {
            Some(side) => order.order_type == OrderType::Limit && order.side == side,
            None => order.order_type == OrderType::Market,
        }
        &&& order.status != OrderStatus::Filled
        &&& self.index.dom().contains(order.id)
        &&& self.index[order.id] == order.spec_book_key()
    }

    /// Whether a limit collection holds the order `id` under `key`.
    pub open spec fn limit_holds(self, id: OrderID, key: BookKey) -> bool {
        let entries = self.side(key.side);
        entries.dom().contains(key.spec_sort_key()) && entries[key.spec_sort_key()].id == id
    }

    /// Whether the market collection holds the order `id` with the book key
    /// `key`.
    pub open spec fn market_holds(self, id: OrderID, key: BookKey) -> bool {
        let slot = spec_market_sort_key(key.priority);
        self.market.dom().contains(slot) && self.market[slot].id == id
            && self.market[slot].spec_book_key() == key
    }

    /// The invariant of a book. Each collection is finite and holds only
    /// orders that belong in it; every identifier of the index leads to an
    /// order with that identifier, in exactly one collection; every order
    /// of a collection is in the index.
    #[verifier::opaque]
    pub open spec fn wf(self) -> bool {
        &&& self.buy.dom().finite()
        &&& self.sell.dom().finite()
        &&& self.market.dom().finite()
        &&& forall|slot: SortKey| #[trigger]
            self.buy.dom().contains(slot) ==> self.entry_ok(self.buy, Some(Side::Buy), slot)
        &&& forall|slot: SortKey| #[trigger]
            self.sell.dom().contains(slot) ==> self.entry_ok(self.sell, Some(Side::Sell), slot)
        &&& forall|slot: SortKey| #[trigger]
            self.market.dom().contains(slot) ==> self.entry_ok(self.market, None, slot)
        &&& forall|id: OrderID| #[trigger]
            self.index.dom().contains(id) ==> (self.limit_holds(id, self.index[id])
                != self.market_holds(id, self.index[id]))
    }

    /// The order with the identifier `id`, if the book holds one: the index
    /// gives its book key, and a limit collection or the market collection
    /// holds it there.
    pub open spec fn spec_find(self, id: OrderID) -> Option<Order> {
        if !self.index.dom().contains(id) {
            None
        } else {
            let key = self.index[id];
            if self.limit_holds(id, key) {
                Some(self.side(key.side)[key.spec_sort_key()])
            } else if self.market_holds(id, key) {
                Some(self.market[spec_market_sort_key(key.priority)])
            } else {
                None
            }
        }
    }

    /// The limit order with the identifier `id`, if a side holds one.
    pub open spec fn spec_find_limit(self, id: OrderID) -> Option<Order> {
        if self.index.dom().contains(id) && self.limit_holds(id, self.index[id]) {
            Some(self.side(self.index[id].side)[self.index[id].spec_sort_key()])
        } else {
            None
        }
    }

    /// A limit order that is found by its identifier is held by its side.
    pub proof fn lemma_find_limit(self, id: OrderID)
        requires
            self.wf(),
        ensures
            self.spec_find_limit(id) matches Some(order) ==> order.id == id && self.holds(order)
                && order.order_type == OrderType::Limit && order.status != OrderStatus::Filled,
    {
        if self.spec_find_limit(id) is Some {
            let key = self.index[id];
            self.lemma_side_entry(key.side, key.spec_sort_key());
        }
    }

    /// Whether the place of `order` is taken: its identifier is in the
    /// index, or its collection holds an order under its sort key.
    pub open spec fn taken(self, order: Order) -> bool {
        self.index.dom().contains(order.id) || self.shelf(order).dom().contains(spec_slot(order))
    }

    /// The book with `order` put into its collection and into the index.
    pub open spec fn place(self, order: Order) -> BookState {
        let put = self.with_shelf(order, self.shelf(order).insert(spec_slot(order), order));
        BookState { index: self.index.insert(order.id, order.spec_book_key()), ..put }
    }

    /// The book with `order` in place of the order that its collection held
    /// under its sort key.
    pub open spec fn store(self, order: Order) -> BookState {
        self.with_shelf(order, self.shelf(order).insert(spec_slot(order), order))
    }

    /// The book without `order`: without the entry under its sort key in
    /// its collection, and without its identifier in the index.
    pub open spec fn unlink(self, order: Order) -> BookState {
        let cut = self.with_shelf(order, self.shelf(order).remove(spec_slot(order)));
        BookState { index: self.index.remove(order.id), ..cut }
    }

    /// Counting a commit keeps the invariant.
    pub proof fn lemma_bump_wf(self)
        requires
            self.wf(),
        ensures
            self.bump().wf(),
    {
        reveal(BookState::wf);
        assert forall|id: OrderID| #[trigger] self.bump().index.dom().contains(id) implies (
        self.bump().limit_holds(id, self.bump().index[id]) != self.bump().market_holds(
            id,
            self.bump().index[id],
        )) by {
            assert(self.limit_holds(id, self.index[id]) != self.market_holds(id, self.index[id]));
        }
        assert forall|slot: SortKey| #[trigger] self.buy.dom().contains(slot) implies self.bump().entry_ok(
            self.buy,
            Some(Side::Buy),
            slot,
        ) by {
            assert(self.entry_ok(self.buy, Some(Side::Buy), slot));
        }
        assert forall|slot: SortKey| #[trigger] self.sell.dom().contains(slot) implies self.bump().entry_ok(
            self.sell,
            Some(Side::Sell),
            slot,
        ) by {
            assert(self.entry_ok(self.sell, Some(Side::Sell), slot));
        }
        assert forall|slot: SortKey| #[trigger] self.market.dom().contains(slot) implies self.bump().entry_ok(
            self.market,
            None,
            slot,
        ) by {
            assert(self.entry_ok(self.market, None, slot));
        }
    }

    /// An order that a side holds is a limit order of that side, held
    /// under its own sort key, and not filled.
    pub proof fn lemma_side_entry(self, side: Side, key: SortKey)
        requires
            self.wf(),
            self.side(side).dom().contains(key),
        ensures
            self.holds(self.side(side)[key]),
            self.side(side)[key].order_type == OrderType::Limit,
            self.side(side)[key].side == side,
            spec_slot(self.side(side)[key]) == key,
            self.side(side)[key].status != OrderStatus::Filled,
            self.spec_find_limit(self.side(side)[key].id) == Some(self.side(side)[key]),
            self.spec_find(self.side(side)[key].id) == Some(self.side(side)[key]),
    {
        reveal(BookState::wf);
        match side {
            Side::Buy => {
                assert(self.entry_ok(self.buy, Some(Side::Buy), key));
            },
            Side::Sell => {
                assert(self.entry_ok(self.sell, Some(Side::Sell), key));
            },
        }
    }

    /// An order that the market collection holds is a market order, held
    /// under its own sort key, and not filled.
    pub proof fn lemma_market_entry(self, key: SortKey)
        requires
            self.wf(),
            self.market.dom().contains(key),
        ensures
            self.holds(self.market[key]),
            self.market[key].order_type == OrderType::Market,
            spec_slot(self.market[key]) == key,
            self.market[key].status != OrderStatus::Filled,
            self.spec_find(self.market[key].id) == Some(self.market[key]),
            self.spec_find_limit(self.market[key].id) is None,
    {
        reveal(BookState::wf);
        assert(self.entry_ok(self.market, None, key));
        self.lemma_held_is_found(self.market[key]);
        let id = self.market[key].id;
        if self.limit_holds(id, self.index[id]) {
            let other = self.index[id];
            assert(self.limit_holds(id, other) != self.market_holds(id, other));
        }
    }

    /// Whether the book has come from `origin` by matching alone: each of
    /// its orders is one of `origin`, in the same place, and no order has
    /// come in.
    pub open spec fn descends(self, origin: BookState) -> bool {
        &&& entries_descend(self.buy, origin.buy)
        &&& entries_descend(self.sell, origin.sell)
        &&& entries_descend(self.market, origin.market)
    }

    /// A book descends from itself, and descent carries over.
    pub proof fn lemma_descends(self, middle: BookState, origin: BookState)
        ensures
            self.descends(self),
            self.descends(middle) && middle.descends(origin) ==> self.descends(origin),
    {
        if self.descends(middle) && middle.descends(origin) {
            assert forall|key: SortKey| #[trigger] self.buy.dom().contains(key) implies origin.buy.dom().contains(
                key,
            ) && kin(origin.buy[key], self.buy[key]) by {
                assert(middle.buy.dom().contains(key));
            }
            assert forall|key: SortKey| #[trigger] self.sell.dom().contains(key) implies origin.sell.dom().contains(
                key,
            ) && kin(origin.sell[key], self.sell[key]) by {
                assert(middle.sell.dom().contains(key));
            }
            assert forall|key: SortKey| #[trigger] self.market.dom().contains(key) implies origin.market.dom().contains(
                key,
            ) && kin(origin.market[key], self.market[key]) by {
                assert(middle.market.dom().contains(key));
            }
        }
    }

    /// Writing back an order that matching has worked on, taking an order
    /// out, and counting a commit each leave a book that descends from the
    /// one before.
    pub proof fn lemma_steps_descend(self, order: Order)
        ensures
            self.shelf(order).dom().contains(spec_slot(order)) && kin(
                self.shelf(order)[spec_slot(order)],
                order,
            ) ==> self.store(order).descends(self),
            self.unlink(order).descends(self),
            self.bump().descends(self),
    {
    }

    /// In a book that descends from `origin`, an order that is found by its
    /// identifier is the one that `origin` finds by it, after matching has
    /// worked on it.
    pub proof fn lemma_found_descends(self, origin: BookState, id: OrderID)
        requires
            self.wf(),
            origin.wf(),
            self.descends(origin),
        ensures
            self.spec_find_limit(id) matches Some(order) ==> origin.spec_find_limit(id) matches Some(
                first,
            ) && kin(first, order),
            self.spec_find(id) matches Some(order) ==> origin.spec_find(id) matches Some(first)
                && kin(first, order),
    {
        self.lemma_find(id);
        self.lemma_find_limit(id);
        if self.spec_find(id) is Some {
            let order = self.spec_find(id)->Some_0;
            let slot = spec_slot(order);
            match order.order_type {
                OrderType::Market => {
                    assert(self.market.dom().contains(slot));
                    origin.lemma_market_entry(slot);
                    self.lemma_market_entry(slot);
                },
                OrderType::Limit => {
                    assert(self.side(order.side).dom().contains(slot));
                    match order.side {
                        Side::Buy => {
                            assert(self.buy.dom().contains(slot));
                        },
                        Side::Sell => {
                            assert(self.sell.dom().contains(slot));
                        },
                    }
                    origin.lemma_side_entry(order.side, slot);
                    self.lemma_side_entry(order.side, slot);
                },
            }
        }
    }

    /// Writing back an order that matching has worked on changes what is
    /// found under its identifier, and under no other.
    pub proof fn lemma_store_find(self, order: Order, id: OrderID)
        requires
            self.wf(),
            self.shelf(order).dom().contains(spec_slot(order)),
            kin(self.shelf(order)[spec_slot(order)], order),
        ensures
            self.store(order).spec_find(id) == if id == order.id {
                Some(order)
            } else {
                self.spec_find(id)
            },
            self.store(order).spec_find_limit(id) == if id == order.id && order.order_type
                == OrderType::Limit {
                Some(order)
            } else {
                self.spec_find_limit(id)
            },
    {
        let held = self.shelf(order)[spec_slot(order)];
        let after = self.store(order);
        self.lemma_held_is_found(held);
        self.lemma_find(id);
        self.lemma_find_limit(id);
        reveal(BookState::wf);
        if self.index.dom().contains(id) {
            let key = self.index[id];
            assert(self.limit_holds(id, key) != self.market_holds(id, key));
            if id == order.id {
                assert(key == order.spec_book_key());
            } else {
                if self.limit_holds(id, key) {
                    assert(self.side(key.side).dom().contains(key.spec_sort_key()));
                }
                if self.market_holds(id, key) {
                    assert(self.market.dom().contains(spec_market_sort_key(key.priority)));
                }
            }
        }
    }

    /// Taking an order out changes what is found under its identifier,
    /// and under no other.
    pub proof fn lemma_unlink_find(self, order: Order, id: OrderID)
        requires
            self.wf(),
            self.shelf(order).dom().contains(spec_slot(order)),
            kin(self.shelf(order)[spec_slot(order)], order),
        ensures
            self.unlink(order).spec_find(id) == if id == order.id {
                None
            } else {
                self.spec_find(id)
            },
            self.unlink(order).spec_find_limit(id) == if id == order.id {
                None
            } else {
                self.spec_find_limit(id)
            },
    {
        let held = self.shelf(order)[spec_slot(order)];
        self.lemma_held_is_found(held);
        self.lemma_find(id);
        self.lemma_find_limit(id);
        reveal(BookState::wf);
        if self.index.dom().contains(id) && id != order.id {
            let key = self.index[id];
            assert(self.limit_holds(id, key) != self.market_holds(id, key));
            if self.limit_holds(id, key) {
                assert(self.side(key.side).dom().contains(key.spec_sort_key()));
            }
            if self.market_holds(id, key) {
                assert(self.market.dom().contains(spec_market_sort_key(key.priority)));
            }
        }
    }

    /// Writing back an order as the book holds it changes nothing.
    pub proof fn lemma_store_same(self, order: Order)
        requires
            self.holds(order),
        ensures
            self.store(order) == self,
    {
        assert(self.shelf(order).insert(spec_slot(order), order) =~= self.shelf(order));
    }

    /// The book after one more commit.
    pub open spec fn bump(self) -> BookState {
        BookState { seq: vstd::wrapping::u64_specs::wrapping_add(self.seq, 1), ..self }
    }

    /// Whether the book holds `order` as it is: in its collection, under
    /// its sort key, and in the index.
    pub open spec fn holds(self, order: Order) -> bool {
        &&& self.shelf(order).dom().contains(spec_slot(order))
        &&& self.shelf(order)[spec_slot(order)] == order
    }

    /// The best price of a side: the price of its first order.
    pub open spec fn best_price(self, side: Side) -> Option<Price> {
        match spec_first_after(self.side(side), None) {
            Some((_, order)) => Some(order.price),
            None => None,
        }
    }

    /// In a book that meets its invariant, an order that a collection holds
    /// is the one that its identifier leads to, and an identifier of the
    /// index leads to an order that the book holds.
    pub proof fn lemma_find(self, id: OrderID)
        requires
            self.wf(),
        ensures
            self.index.dom().contains(id) <==> self.spec_find(id) is Some,
            self.spec_find(id) matches Some(order) ==> order.id == id && self.holds(order)
                && order.spec_book_key() == self.index[id] && order.status != OrderStatus::Filled,
    {
        reveal(BookState::wf);
        if self.index.dom().contains(id) {
            let key = self.index[id];
            if self.limit_holds(id, key) {
                let order = self.side(key.side)[key.spec_sort_key()];
                assert(self.side(key.side).dom().contains(key.spec_sort_key()));
                assert(self.entry_ok(self.side(key.side), Some(key.side), key.spec_sort_key()));
            } else {
                assert(self.market_holds(id, key));
                let slot = spec_market_sort_key(key.priority);
                assert(self.market.dom().contains(slot));
                assert(self.entry_ok(self.market, None, slot));
            }
        }
    }

    /// In a book that meets its invariant, an order that a collection holds
    /// is found by its identifier.
    pub proof fn lemma_held_is_found(self, order: Order)
        requires
            self.wf(),
            self.holds(order),
        ensures
            self.spec_find(order.id) == Some(order),
            self.index.dom().contains(order.id),
            order.status != OrderStatus::Filled,
    {
        reveal(BookState::wf);
        let slot = spec_slot(order);
        match order.order_type {
            OrderType::Market => {
                assert(self.market.dom().contains(slot));
                assert(self.entry_ok(self.market, None, slot));
            },
            OrderType::Limit => {
                assert(self.side(order.side).dom().contains(slot));
                match order.side {
                    Side::Buy => {
                        assert(self.entry_ok(self.buy, Some(Side::Buy), slot));
                    },
                    Side::Sell => {
                        assert(self.entry_ok(self.sell, Some(Side::Sell), slot));
                    },
                }
            },
        }
        let key = self.index[order.id];
        assert(self.index.dom().contains(order.id));
        assert(self.limit_holds(order.id, key) != self.market_holds(order.id, key));
    }
}

impl BookState {
    /// Putting an order into a free place keeps the invariant.
    pub proof fn lemma_place_wf(self, order: Order)
        requires
            self.wf(),
            !self.taken(order),
            order.status != OrderStatus::Filled,
        ensures
            self.place(order).wf(),
            self.place(order).holds(order),
    {
        reveal(BookState::wf);
        let after = self.place(order);
        let slot = spec_slot(order);
        assert forall|other: SortKey| #[trigger] after.buy.dom().contains(other) implies after.entry_ok(
            after.buy,
            Some(Side::Buy),
            other,
        ) by {
            if !(order.order_type == OrderType::Limit && order.side == Side::Buy && other == slot) {
                assert(self.buy.dom().contains(other));
                assert(self.entry_ok(self.buy, Some(Side::Buy), other));
            }
        }
        assert forall|other: SortKey| #[trigger]
            after.sell.dom().contains(other) implies after.entry_ok(
            after.sell,
            Some(Side::Sell),
            other,
        ) by {
            if !(order.order_type == OrderType::Limit && order.side == Side::Sell && other == slot) {
                assert(self.sell.dom().contains(other));
                assert(self.entry_ok(self.sell, Some(Side::Sell), other));
            }
        }
        assert forall|other: SortKey| #[trigger]
            after.market.dom().contains(other) implies after.entry_ok(after.market, None, other) by {
            if !(order.order_type == OrderType::Market && other == slot) {
                assert(self.market.dom().contains(other));
                assert(self.entry_ok(self.market, None, other));
            }
        }
        assert forall|id: OrderID| #[trigger] after.index.dom().contains(id) implies (
        after.limit_holds(id, after.index[id]) != after.market_holds(id, after.index[id])) by {
            if id != order.id {
                let key = self.index[id];
                assert(self.index.dom().contains(id));
                assert(self.limit_holds(id, key) != self.market_holds(id, key));
                if self.limit_holds(id, key) {
                    assert(self.side(key.side).dom().contains(key.spec_sort_key()));
                }
                if self.market_holds(id, key) {
                    assert(self.market.dom().contains(spec_market_sort_key(key.priority)));
                }
                if after.limit_holds(id, key) && !self.limit_holds(id, key) {
                    assert(after.side(key.side)[key.spec_sort_key()] == order);
                }
                if after.market_holds(id, key) && !self.market_holds(id, key) {
                    assert(after.market[spec_market_sort_key(key.priority)] == order);
                }
            } else {
                let key = order.spec_book_key();
                if order.order_type == OrderType::Limit {
                    if after.market_holds(id, key) {
                        let m = spec_market_sort_key(key.priority);
                        assert(self.market.dom().contains(m));
                        assert(self.entry_ok(self.market, None, m));
                    }
                } else {
                    if after.limit_holds(id, key) {
                        let l = key.spec_sort_key();
                        assert(self.side(key.side).dom().contains(l));
                        match key.side {
                            Side::Buy => {
                                assert(self.entry_ok(self.buy, Some(Side::Buy), l));
                            },
                            Side::Sell => {
                                assert(self.entry_ok(self.sell, Some(Side::Sell), l));
                            },
                        }
                    }
                }
            }
        }
    }

    /// Taking out an order that the book holds keeps the invariant.
    pub proof fn lemma_unlink_wf(self, order: Order)
        requires
            self.wf(),
            self.holds(order),
        ensures
            self.unlink(order).wf(),
            !self.unlink(order).index.dom().contains(order.id),
            !self.unlink(order).shelf(order).dom().contains(spec_slot(order)),
    {
        reveal(BookState::wf);
        self.lemma_held_is_found(order);
        let after = self.unlink(order);
        let slot = spec_slot(order);
        assert forall|other: SortKey| #[trigger] after.buy.dom().contains(other) implies after.entry_ok(
            after.buy,
            Some(Side::Buy),
            other,
        ) by {
            assert(self.buy.dom().contains(other));
            assert(self.entry_ok(self.buy, Some(Side::Buy), other));
            if self.buy[other].id == order.id {
                self.buy[other].spec_book_key().lemma_sort_key_injective(order.spec_book_key());
            }
        }
        assert forall|other: SortKey| #[trigger]
            after.sell.dom().contains(other) implies after.entry_ok(
            after.sell,
            Some(Side::Sell),
            other,
        ) by {
            assert(self.sell.dom().contains(other));
            assert(self.entry_ok(self.sell, Some(Side::Sell), other));
        }
        assert forall|other: SortKey| #[trigger]
            after.market.dom().contains(other) implies after.entry_ok(after.market, None, other) by {
            assert(self.market.dom().contains(other));
            assert(self.entry_ok(self.market, None, other));
        }
        assert forall|id: OrderID| #[trigger] after.index.dom().contains(id) implies (
        after.limit_holds(id, after.index[id]) != after.market_holds(id, after.index[id])) by {
            let key = self.index[id];
            assert(self.index.dom().contains(id));
            assert(self.limit_holds(id, key) != self.market_holds(id, key));
        }
    }

    /// Putting a changed order in the place of the one that the book holds
    /// keeps the invariant, if the change leaves the identifier, the type,
    /// the side, the price and the time of the last change as they were, and
    /// the order is not filled.
    pub proof fn lemma_store_wf(self, held: Order, order: Order)
        requires
            self.wf(),
            self.holds(held),
            kin(held, order),
            order.status != OrderStatus::Filled,
        ensures
            self.store(order).wf(),
            self.store(order).holds(order),
            self.store(order).index == self.index,
            self.store(order).shelf(order).dom() == self.shelf(order).dom(),
    {
        reveal(BookState::wf);
        self.lemma_held_is_found(held);
        let after = self.store(order);
        let slot = spec_slot(order);
        assert(after.shelf(order).dom() =~= self.shelf(order).dom());
        assert forall|other: SortKey| #[trigger] after.buy.dom().contains(other) implies after.entry_ok(
            after.buy,
            Some(Side::Buy),
            other,
        ) by {
            assert(self.buy.dom().contains(other));
            assert(self.entry_ok(self.buy, Some(Side::Buy), other));
        }
        assert forall|other: SortKey| #[trigger]
            after.sell.dom().contains(other) implies after.entry_ok(
            after.sell,
            Some(Side::Sell),
            other,
        ) by {
            assert(self.sell.dom().contains(other));
            assert(self.entry_ok(self.sell, Some(Side::Sell), other));
        }
        assert forall|other: SortKey| #[trigger]
            after.market.dom().contains(other) implies after.entry_ok(after.market, None, other) by {
            assert(self.market.dom().contains(other));
            assert(self.entry_ok(self.market, None, other));
        }
        assert forall|id: OrderID| #[trigger] after.index.dom().contains(id) implies (
        after.limit_holds(id, after.index[id]) != after.market_holds(id, after.index[id])) by {
            let key = self.index[id];
            assert(self.limit_holds(id, key) != self.market_holds(id, key));
            if self.limit_holds(id, key) {
                assert(self.side(key.side).dom().contains(key.spec_sort_key()));
            }
            if self.market_holds(id, key) {
                assert(self.market.dom().contains(spec_market_sort_key(key.priority)));
            }
        }
    }
}

/// The order book: the buy and the sell side, ordered by price and then by
/// time, the market orders, ordered by time, and the index that leads from
/// an order's identifier to its place.
pub struct DefaultOrderBook<S: OrderBookSyncer> {
    id: u64,
    syncer: S,
    market_orders: OrderList,
    buy_orders: OrderList,
    sell_orders: OrderList,
    order_index: OrderIndex,
}

impl<S: OrderBookSyncer> View for DefaultOrderBook<S> {
    type V = BookState;

    closed spec fn view(&self) -> BookState {
        BookState {
            seq: self.id,
            market: list_entries(self.market_orders),
            buy: list_entries(self.buy_orders),
            sell: list_entries(self.sell_orders),
            index: index_entries(self.order_index),
        }
    }
}

impl<S: OrderBookSyncer> DefaultOrderBook<S> {
    /// An empty book that tells `syncer` of its commits and numbers them
    /// from `id` on.
    pub fn new(id: u64, syncer: S) -> (r: Self)
        ensures
            r@ == BookState::spec_empty(id),
            r@.wf(),
    {
        proof {
            reveal(BookState::wf);
        }
        Self {
            id,
            syncer,
            market_orders: list_new(),
            buy_orders: list_new(),
            sell_orders: list_new(),
            order_index: index_new(),
        }
    }

    /// The number that the next commit gets.
    pub fn sequence(&self) -> (r: u64)
        ensures
            r == self@.seq,
    {
        self.id
    }

    /// The collection of one side.
    pub fn get_book(&self, side: Side) -> (r: &OrderList)
        ensures
            list_entries(*r) == self@.side(side),
    {
        match side {
            Side::Buy => &self.buy_orders,
            Side::Sell => &self.sell_orders,
        }
    }

    /// The collection of the market orders.
    pub fn get_market_book(&self) -> (r: &OrderList)
        ensures
            list_entries(*r) == self@.market,
    {
        &self.market_orders
    }

    /// The order that the collection in which `order` belongs holds under
    /// the sort key of `order`.
    fn shelf_get(&self, order: &Order) -> (r: Option<Order>)
        ensures
            r == if self@.shelf(*order).dom().contains(spec_slot(*order)) {
                Some(self@.shelf(*order)[spec_slot(*order)])
            } else {
                None
            },
    {
        let key = slot(order);
        match order.order_type {
            OrderType::Market => list_get(&self.market_orders, &key),
            OrderType::Limit => match order.side {
                Side::Buy => list_get(&self.buy_orders, &key),
                Side::Sell => list_get(&self.sell_orders, &key),
            },
        }
    }

    /// Puts `order` under its sort key into the collection in which it
    /// belongs, in place of what was there.
    fn shelf_put(&mut self, order: &Order)
        ensures
            final(self)@ == old(self)@.store(*order),
    {
        let key = slot(order);
        match order.order_type {
            OrderType::Market => list_insert(&mut self.market_orders, key, *order),
            OrderType::Limit => match order.side {
                Side::Buy => list_insert(&mut self.buy_orders, key, *order),
                Side::Sell => list_insert(&mut self.sell_orders, key, *order),
            },
        }
    }

    /// Takes the entry under the sort key of `order` out of the collection
    /// in which `order` belongs.
    fn shelf_cut(&mut self, order: &Order)
        ensures
            final(self)@ == old(self)@.with_shelf(
                *order,
                old(self)@.shelf(*order).remove(spec_slot(*order)),
            ),
    {
        let key = slot(order);
        match order.order_type {
            OrderType::Market => {
                list_remove(&mut self.market_orders, &key);
            },
            OrderType::Limit => match order.side {
                Side::Buy => {
                    list_remove(&mut self.buy_orders, &key);
                },
                Side::Sell => {
                    list_remove(&mut self.sell_orders, &key);
                },
            },
        }
    }

    /// Counts one more commit and returns its number.
    fn next_sequence(&mut self) -> (r: u64)
        requires
            old(self)@.wf(),
        ensures
            final(self)@ == old(self)@.bump(),
            final(self)@.wf(),
            r == old(self)@.seq,
    {
        proof {
            self@.lemma_bump_wf();
        }
        let id = self.id;
        self.id = self.id.wrapping_add(1);
        id
    }

    /// The limit order with the identifier `order_id`, if a side of the
    /// book holds one.
    pub fn find_limit(&self, order_id: OrderID) -> (r: Option<Order>)
        ensures
            r == self@.spec_find_limit(order_id),
    {
        let key = match index_get(&self.order_index, order_id) {
            Some(key) => key,
            None => return None,
        };
        let found = match key.side {
            Side::Buy => list_get(&self.buy_orders, &key.sort_key()),
            Side::Sell => list_get(&self.sell_orders, &key.sort_key()),
        };
        if let Some(order) = found {
            if order.id == order_id {
                return Some(order);
            }
        }
        None
    }

    /// The order with the identifier `order_id`, if the book holds one.
    pub fn find(&self, order_id: OrderID) -> (r: Option<Order>)
        ensures
            r == self@.spec_find(order_id),
    {
        if let Some(order) = self.find_limit(order_id) {
            return Some(order);
        }
        let key = match index_get(&self.order_index, order_id) {
            Some(key) => key,
            None => return None,
        };
        if let Some(order) = list_get(&self.market_orders, &market_sort_key(key.priority)) {
            let own = order.book_key();
            proof {
                own.price.lemma_view_injective(key.price);
            }
            if order.id == order_id && own.price == key.price && own.priority == key.priority
                && own.side == key.side {
                return Some(order);
            }
        }
        None
    }

    /// Takes `order` into the book.
    ///
    /// The order gets the status `Placed` and goes into the collection of
    /// its side, or into that of the market orders, and into the index; the
    /// commit is counted and the syncer told. If the place of the order is
    /// taken, because the index has its identifier or its collection has an
    /// order under its price and priority, the book stays as it is and the
    /// order is rejected with `TimestampConflict`, which is also recorded in
    /// it.
    pub fn insert(&mut self, order: &mut Order) -> (r: Result<(), RejectReason>)
        requires
            old(self)@.wf(),
        ensures
            final(self)@.wf(),
            ({
                let placed = Order { status: OrderStatus::Placed, ..*old(order) };
                if old(self)@.taken(placed) {
                    &&& r == Err::<(), RejectReason>(RejectReason::TimestampConflict)
                    &&& final(self)@ == old(self)@
                    &&& *final(order) == (Order {
                        status: OrderStatus::Rejected,
                        reject_reason: Some(RejectReason::TimestampConflict),
                        ..*old(order)
                    })
                } else {
                    &&& r == Ok::<(), RejectReason>(())
                    &&& final(self)@ == old(self)@.place(placed).bump()
                    &&& *final(order) == placed
                    &&& final(self)@.spec_find(placed.id) == Some(placed)
                }
            }),
    {
        let ghost before = self@;
        let mut placed = *order;
        placed.update_status(OrderStatus::Placed);
        let book_key = placed.book_key();
        if index_get(&self.order_index, placed.id).is_some() || self.shelf_get(&placed).is_some() {
            order.update_status(OrderStatus::Rejected);
            order.update_reject_reason(RejectReason::TimestampConflict);
            return Err(RejectReason::TimestampConflict);
        }
        order.update_status(OrderStatus::Placed);
        let key = slot(&placed);
        match placed.order_type {
            OrderType::Limit => match placed.side {
                Side::Buy => list_get_or_insert(&mut self.buy_orders, key, placed),
                Side::Sell => list_get_or_insert(&mut self.sell_orders, key, placed),
            },
            OrderType::Market => list_get_or_insert(&mut self.market_orders, key, placed),
        }
        index_insert(&mut self.order_index, placed.id, book_key);
        proof {
            assert(self@ == before.place(placed));
            before.lemma_place_wf(placed);
            before.place(placed).lemma_held_is_found(placed);
        }
        let id = self.next_sequence();
        self.syncer.add_order(id, order);
        Ok(())
    }

    /// Moves the order `order_id` to the price `new_price`.
    ///
    /// The order leaves its place and comes back with the new price, with
    /// `now_microseconds` as the time of its last change, and so with a new
    /// priority: at the back of its new price level. Fails with
    /// `OrderNotFound` if the book has no such order, with
    /// `OrderNotModifiable` if the order is not `Active`, and with
    /// `InvalidUpdateRequest` if another order holds the new place; the
    /// book then stays as it is.
    pub fn update_order(&mut self, order_id: OrderID, new_price: Price, now_microseconds: u64) -> (r:
        Result<(), UpdateOrderError>)
        requires
            old(self)@.wf(),
        ensures
            final(self)@.wf(),
            r == old(self)@.update_result(order_id, new_price, now_microseconds),
            final(self)@ == old(self)@.updated(order_id, new_price, now_microseconds),
    {
        let ghost before = self@;
        let mut book_order = match self.find(order_id) {
            Some(order) => order,
            None => {
                proof {
                    before.lemma_find(order_id);
                }
                return Err(UpdateOrderError::OrderNotFound);
            },
        };
        proof {
            before.lemma_find(order_id);
        }
        let held = book_order;
        if !book_order.enter_finished_from_active() {
            return Err(UpdateOrderError::OrderNotModifiable);
        }
        book_order.price = new_price;
        book_order.updated_at = now_microseconds;
        book_order.reset_lifecycle();
        let old_slot = slot(&held);
        let new_slot = slot(&book_order);
        if !(old_slot.0 == new_slot.0 && old_slot.1 == new_slot.1 && old_slot.2 == new_slot.2
            && old_slot.3 == new_slot.3 && old_slot.4 == new_slot.4) && self.shelf_get(
            &book_order,
        ).is_some() {
            return Err(UpdateOrderError::InvalidUpdateRequest);
        }
        index_remove(&mut self.order_index, order_id);
        self.shelf_cut(&held);
        proof {
            assert(self@ == before.unlink(held));
            before.lemma_unlink_wf(held);
            assert(!self@.taken(book_order));
            self@.lemma_place_wf(book_order);
        }
        self.shelf_put(&book_order);
        index_insert(&mut self.order_index, book_order.id, book_order.book_key());
        proof {
            assert(self@ == before.unlink(held).place(book_order));
        }
        let id = self.next_sequence();
        self.syncer.update_order(id, &book_order);
        Ok(())
    }

    /// Cancels the order `order_id`: takes it out of its collection and out
    /// of the index.
    ///
    /// Fails with `OrderNotFound` if the book has no such order and with
    /// `OrderNotCancellable` if the order is not `Active`; the book then
    /// stays as it is.
    pub fn remove(&mut self, order_id: OrderID) -> (r: Result<(), CancelOrderError>)
        requires
            old(self)@.wf(),
        ensures
            final(self)@.wf(),
            r == old(self)@.cancel_result(order_id),
            final(self)@ == old(self)@.cancelled(order_id),
    {
        let ghost before = self@;
        let mut book_order = match self.find(order_id) {
            Some(order) => order,
            None => {
                proof {
                    before.lemma_find(order_id);
                }
                return Err(CancelOrderError::OrderNotFound);
            },
        };
        proof {
            before.lemma_find(order_id);
        }
        let held = book_order;
        if !book_order.enter_finished_from_active() {
            return Err(CancelOrderError::OrderNotCancellable);
        }
        self.shelf_cut(&held);
        index_remove(&mut self.order_index, order_id);
        proof {
            assert(self@ == before.unlink(held));
            before.lemma_unlink_wf(held);
        }
        let id = self.next_sequence();
        self.syncer.cancel_order(id, &book_order);
        Ok(())
    }

    /// The best price of a side: the price of the first order of its
    /// collection, whatever the state of that order. `None` if the side is
    /// empty.
    pub fn get_best_price(&self, side: Side) -> (r: Option<Price>)
        ensures
            r == self@.best_price(side),
    {
        let entry = match side {
            Side::Buy => first_after(&self.buy_orders, None),
            Side::Sell => first_after(&self.sell_orders, None),
        };
        match entry {
            Some((_, order)) => Some(order.price),
            None => None,
        }
    }

    /// Tells the syncer of a matching step: of the orders that it changed
    /// and of the trades that it made. The commit is counted.
    pub fn sync_matched(&mut self, updated: &Vec<Order>, trades: &Vec<Trade>)
        requires
            old(self)@.wf(),
        ensures
            final(self)@ == old(self)@.bump(),
            final(self)@.wf(),
            final(self)@.descends(old(self)@),
    {
        proof {
            self@.lemma_steps_descend(Order::spec_default());
        }
        let id = self.next_sequence();
        self.syncer.matched(id, updated.as_slice(), trades.as_slice());
    }

    /// Writes a changed order back to the place of the order that the book
    /// holds under the same identifier, price and time.
    pub fn store(&mut self, order: &Order)
        requires
            old(self)@.wf(),
            old(self)@.shelf(*order).dom().contains(spec_slot(*order)),
            kin(old(self)@.shelf(*order)[spec_slot(*order)], *order),
            order.status != OrderStatus::Filled,
        ensures
            final(self)@ == old(self)@.store(*order),
            final(self)@.wf(),
            final(self)@.descends(old(self)@),
    {
        proof {
            let held = self@.shelf(*order)[spec_slot(*order)];
            self@.lemma_store_wf(held, *order);
            self@.lemma_steps_descend(*order);
        }
        self.shelf_put(order);
    }

    /// Takes an order that the book holds out of its collection and out of
    /// the index.
    pub fn unlink(&mut self, order: &Order)
        requires
            old(self)@.wf(),
            old(self)@.shelf(*order).dom().contains(spec_slot(*order)),
            kin(old(self)@.shelf(*order)[spec_slot(*order)], *order),
        ensures
            final(self)@ == old(self)@.unlink(*order),
            final(self)@.wf(),
            final(self)@.descends(old(self)@),
    {
        proof {
            let held = self@.shelf(*order)[spec_slot(*order)];
            self@.lemma_steps_descend(*order);
            self@.lemma_unlink_wf(held);
            assert(self@.unlink(held) == self@.unlink(*order));
        }
        self.shelf_cut(order);
        index_remove(&mut self.order_index, order.id);
    }
}

impl BookState {
    /// What `update_order` returns on this book.
    pub open spec fn update_result(self, id: OrderID, new_price: Price, now_microseconds: u64) -> Result<(), UpdateOrderError> {
        match self.spec_find(id) {
            None => Err(UpdateOrderError::OrderNotFound),
            Some(held) => if held.lifecycle != OrderLifecycle::Active {
                Err(UpdateOrderError::OrderNotModifiable)
            } else if self.unlink(held).taken(spec_moved(held, new_price, now_microseconds)) {
                Err(UpdateOrderError::InvalidUpdateRequest)
            } else {
                Ok(())
            },
        }
    }

    /// The book after `update_order`: unchanged where that fails; where it
    /// succeeds, with the order taken out and put back with its new price
    /// and time, and one more commit.
    pub open spec fn updated(self, id: OrderID, new_price: Price, now_microseconds: u64) -> BookState {
        match self.update_result(id, new_price, now_microseconds) {
            Err(_) => self,
            Ok(_) => {
                let held = self.spec_find(id)->Some_0;
                self.unlink(held).place(spec_moved(held, new_price, now_microseconds)).bump()
            },
        }
    }

    /// What `remove` returns on this book.
    pub open spec fn cancel_result(self, id: OrderID) -> Result<(), CancelOrderError> {
        match self.spec_find(id) {
            None => Err(CancelOrderError::OrderNotFound),
            Some(held) => if held.lifecycle != OrderLifecycle::Active {
                Err(CancelOrderError::OrderNotCancellable)
            } else {
                Ok(())
            },
        }
    }

    /// The book after `remove`: unchanged where that fails; where it
    /// succeeds, without the order, and with one more commit.
    pub open spec fn cancelled(self, id: OrderID) -> BookState {
        match self.cancel_result(id) {
            Err(_) => self,
            Ok(_) => self.unlink(self.spec_find(id)->Some_0).bump(),
        }
    }
}

/// Whether `order` is `held` after matching has worked on it: they differ
/// at most in what remains and what is filled, in the status, the lifecycle
/// and the reasons.
pub open spec fn kin(held: Order, order: Order) -> bool {
    &&& order.id == held.id
    &&& order.user_id == held.user_id
    &&& order.order_type == held.order_type
    &&& order.side == held.side
    &&& order.match_strategy == held.match_strategy
    &&& order.liquidity_directive == held.liquidity_directive
    &&& order.time_in_force == held.time_in_force
    &&& order.price == held.price
    &&& order.slippage_tolerance == held.slippage_tolerance
    &&& order.created_at == held.created_at
    &&& order.updated_at == held.updated_at
}

/// Whether each order of `entries` is one of `origin`, under the same key,
/// after matching has worked on it.
pub open spec fn entries_descend(entries: Map<SortKey, Order>, origin: Map<SortKey, Order>) -> bool {
    forall|key: SortKey| #[trigger]
        entries.dom().contains(key) ==> origin.dom().contains(key) && kin(
            origin[key],
            entries[key],
        )
}

/// The order `held` moved to `new_price` at `now_microseconds`: with the new
/// price, the new time of its last change, and `Active`.
pub open spec fn spec_moved(held: Order, new_price: Price, now_microseconds: u64) -> Order {
    Order {
        price: new_price,
        updated_at: now_microseconds,
        lifecycle: OrderLifecycle::Active,
        ..held
    }
}

/// Whether a maker at `price` lies beyond the bound `slip` for makers of
/// `side`: below it on the buy side, above it on the sell side. No bound,
/// nothing beyond.
pub open spec fn spec_beyond(side: Side, slip: Option<Price>, price: Price) -> bool {
    match slip {
        None => false,
        Some(bound) => match side {
            Side::Buy => price@ < bound@,
            Side::Sell => price@ > bound@,
        },
    }
}

/// The next maker of a side behind `after`, with its sort key: the first
/// order there that is not `TakerOnly`, unless it lies beyond `slip`.
pub open spec fn spec_next_maker(
    entries: Map<SortKey, Order>,
    side: Side,
    slip: Option<Price>,
    after: Option<SortKey>,
) -> Option<(SortKey, Order)>
    decreases ahead(after),
{
    match spec_first_after(entries, after) {
        None => None,
        Some((key, order)) => if order.liquidity_directive == LiquidityDirective::TakerOnly {
            proof {
                lemma_ahead_decreases(after, key);
            }
            spec_next_maker(entries, side, slip, Some(key))
        } else if spec_beyond(side, slip, order.price) {
            None
        } else {
            Some((key, order))
        },
    }
}

/// The next maker is an entry of the side, behind `after`.
pub proof fn lemma_next_maker(
    entries: Map<SortKey, Order>,
    side: Side,
    slip: Option<Price>,
    after: Option<SortKey>,
)
    ensures
        spec_next_maker(entries, side, slip, after) matches Some((key, order))
            ==> entries.dom().contains(key) && entries[key] == order && is_after(after, key)
            && order.liquidity_directive != LiquidityDirective::TakerOnly && !spec_beyond(
            side,
            slip,
            order.price,
        ),
    decreases ahead(after),
{
    match spec_first_after(entries, after) {
        None => {},
        Some((key, order)) => {
            if order.liquidity_directive == LiquidityDirective::TakerOnly {
                lemma_ahead_decreases(after, key);
                lemma_next_maker(entries, side, slip, Some(key));
            }
        },
    }
}

/// Where a walk over both sides stands: behind which key of each side.
#[derive(Clone, Copy, Debug)]
pub struct CrossCursor {
    pub buy_after: Option<SortKey>,
    pub sell_after: Option<SortKey>,
}

/// Which of a buy and a sell order that cross is the taker: the other one
/// if one of them is `MakerOnly`, else the earlier one, the sell order if
/// neither is earlier. `None` if both are `MakerOnly`.
pub open spec fn spec_elect(buy: Order, sell: Order) -> Option<Side> {
    let buy_maker_only = buy.liquidity_directive == LiquidityDirective::MakerOnly;
    let sell_maker_only = sell.liquidity_directive == LiquidityDirective::MakerOnly;
    if buy_maker_only && sell_maker_only {
        None
    } else if buy_maker_only {
        Some(Side::Sell)
    } else if sell_maker_only {
        Some(Side::Buy)
    } else if buy.spec_priority() < sell.spec_priority() {
        Some(Side::Buy)
    } else {
        Some(Side::Sell)
    }
}

/// The next taker of a walk over both sides, and where the walk then
/// stands.
///
/// The walk looks at the first buy and the first sell order behind its
/// place. If the buy price is below the sell price, it ends. If both orders
/// are `MakerOnly`, it passes both. Else it elects one of them and passes
/// it. Where one side has no order left, the first order of that side
/// stands for it in the comparison of the prices, and only the other side
/// gives takers.
pub open spec fn spec_next_taker(
    buy: Map<SortKey, Order>,
    sell: Map<SortKey, Order>,
    cursor: CrossCursor,
) -> Option<(Order, CrossCursor)>
    decreases ahead(cursor.buy_after) + ahead(cursor.sell_after),
{
    match (spec_first_after(buy, cursor.buy_after), spec_first_after(sell, cursor.sell_after)) {
        (Some((buy_key, buy_order)), Some((sell_key, sell_order))) => {
            if buy_order.price@ < sell_order.price@ {
                None
            } else {
                proof {
                    lemma_ahead_decreases(cursor.buy_after, buy_key);
                    lemma_ahead_decreases(cursor.sell_after, sell_key);
                }
                match spec_elect(buy_order, sell_order) {
                    None => spec_next_taker(
                        buy,
                        sell,
                        CrossCursor { buy_after: Some(buy_key), sell_after: Some(sell_key) },
                    ),
                    Some(Side::Buy) => Some(
                        (buy_order, CrossCursor { buy_after: Some(buy_key), ..cursor }),
                    ),
                    Some(Side::Sell) => Some(
                        (sell_order, CrossCursor { sell_after: Some(sell_key), ..cursor }),
                    ),
                }
            }
        },
        (Some((buy_key, buy_order)), None) => match spec_first_after(sell, None) {
            None => None,
            Some((_, front)) => if buy_order.price@ < front.price@ {
                None
            } else if buy_order.liquidity_directive == LiquidityDirective::MakerOnly {
                proof {
                    lemma_ahead_decreases(cursor.buy_after, buy_key);
                }
                spec_next_taker(buy, sell, CrossCursor { buy_after: Some(buy_key), ..cursor })
            } else {
                Some((buy_order, CrossCursor { buy_after: Some(buy_key), ..cursor }))
            },
        },
        (None, Some((sell_key, sell_order))) => match spec_first_after(buy, None) {
            None => None,
            Some((_, front)) => if front.price@ < sell_order.price@ {
                None
            } else if sell_order.liquidity_directive == LiquidityDirective::MakerOnly {
                proof {
                    lemma_ahead_decreases(cursor.sell_after, sell_key);
                }
                spec_next_taker(buy, sell, CrossCursor { sell_after: Some(sell_key), ..cursor })
            } else {
                Some((sell_order, CrossCursor { sell_after: Some(sell_key), ..cursor }))
            },
        },
        (None, None) => None,
    }
}

/// The next taker is an order of one of the two sides, and the walk has
/// then passed it.
pub proof fn lemma_next_taker(
    buy: Map<SortKey, Order>,
    sell: Map<SortKey, Order>,
    cursor: CrossCursor,
)
    ensures
        spec_next_taker(buy, sell, cursor) matches Some((taker, next)) ==> ({
            &&& ahead(next.buy_after) + ahead(next.sell_after) < ahead(cursor.buy_after) + ahead(
                cursor.sell_after,
            )
            &&& ((next.buy_after matches Some(key) && buy.dom().contains(key) && buy[key] == taker)
                || (next.sell_after matches Some(key) && sell.dom().contains(key) && sell[key]
                == taker))
            &&& taker.liquidity_directive != LiquidityDirective::MakerOnly
        }),
    decreases ahead(cursor.buy_after) + ahead(cursor.sell_after),
{
    match (spec_first_after(buy, cursor.buy_after), spec_first_after(sell, cursor.sell_after)) {
        (Some((buy_key, buy_order)), Some((sell_key, sell_order))) => {
            lemma_ahead_decreases(cursor.buy_after, buy_key);
            lemma_ahead_decreases(cursor.sell_after, sell_key);
            if !(buy_order.price@ < sell_order.price@) && spec_elect(buy_order, sell_order) is None {
                lemma_next_taker(
                    buy,
                    sell,
                    CrossCursor { buy_after: Some(buy_key), sell_after: Some(sell_key) },
                );
            }
        },
        (Some((buy_key, buy_order)), None) => {
            lemma_ahead_decreases(cursor.buy_after, buy_key);
            if buy_order.liquidity_directive == LiquidityDirective::MakerOnly {
                lemma_next_taker(buy, sell, CrossCursor { buy_after: Some(buy_key), ..cursor });
            }
        },
        (None, Some((sell_key, sell_order))) => {
            lemma_ahead_decreases(cursor.sell_after, sell_key);
            if sell_order.liquidity_directive == LiquidityDirective::MakerOnly {
                lemma_next_taker(buy, sell, CrossCursor { sell_after: Some(sell_key), ..cursor });
            }
        },
        (None, None) => {},
    }
}

/// The next limit order of a list of identifiers from the place `start`
/// on that a side of the book holds, and the place behind it.
pub open spec fn spec_next_listed(book: BookState, ids: Seq<OrderID>, start: int) -> Option<
    (Order, int),
>
    decreases ids.len() - start,
{
    if start < 0 || start >= ids.len() {
        None
    } else {
        match book.spec_find_limit(ids[start]) {
            Some(order) => Some((order, start + 1)),
            None => spec_next_listed(book, ids, start + 1),
        }
    }
}

impl<S: OrderBookSyncer> DefaultOrderBook<S> {
    /// One step of the walk over the market orders, in the order of their
    /// priority: the first market order behind `after`, with its sort key.
    pub fn walking_market_book(&self, after: Option<SortKey>) -> (r: Option<(SortKey, Order)>)
        ensures
            r == spec_first_after(self@.market, after),
            r matches Some((key, order)) ==> is_first_after(self@.market, after, key)
                && self@.market[key] == order,
            r is None ==> none_after(self@.market, after),
    {
        first_after(&self.market_orders, after)
    }

    /// One step of the walk over the makers of a side, from the best price
    /// on: the first order behind `after` that is not `TakerOnly`, with its
    /// sort key. The walk ends, with `None`, where the side has no such
    /// order, or where the price of that order lies beyond
    /// `slip_price_option`: below it on the buy side, above it on the sell
    /// side.
    pub fn walking_book_maker(
        &self,
        side: Side,
        slip_price_option: Option<Price>,
        after: Option<SortKey>,
    ) -> (r: Option<(SortKey, Order)>)
        ensures
            r == spec_next_maker(self@.side(side), side, slip_price_option, after),
    {
        let book = self.get_book(side);
        let mut cursor = after;
        loop
            invariant
                list_entries(*book) == self@.side(side),
                spec_next_maker(self@.side(side), side, slip_price_option, cursor)
                    == spec_next_maker(self@.side(side), side, slip_price_option, after),
            decreases ahead(cursor),
        {
            let (key, order) = match first_after(book, cursor) {
                Some(entry) => entry,
                None => return None,
            };
            if order.liquidity_directive == LiquidityDirective::TakerOnly {
                proof {
                    lemma_ahead_decreases(cursor, key);
                }
                cursor = Some(key);
                continue ;
            }
            if let Some(slip_price) = slip_price_option {
                let beyond = match side {
                    Side::Buy => order.price.lt(&slip_price),
                    Side::Sell => order.price.gt(&slip_price),
                };
                if beyond {
                    return None;
                }
            }
            return Some((key, order));
        }
    }

    /// One step of the walk over the orders of both sides that cross: the
    /// next taker, and where the walk then stands. `None` where the walk
    /// ends.
    pub fn walking_cross_taker(&self, cursor: CrossCursor) -> (r: Option<(Order, CrossCursor)>)
        ensures
            r == spec_next_taker(self@.buy, self@.sell, cursor),
    {
        let mut at = cursor;
        loop
            invariant
                spec_next_taker(self@.buy, self@.sell, at) == spec_next_taker(
                    self@.buy,
                    self@.sell,
                    cursor,
                ),
            decreases ahead(at.buy_after) + ahead(at.sell_after),
        {
            let buy_entry = first_after(&self.buy_orders, at.buy_after);
            let sell_entry = first_after(&self.sell_orders, at.sell_after);
            match (buy_entry, sell_entry) {
                (Some((buy_key, buy_order)), Some((sell_key, sell_order))) => {
                    if buy_order.price.lt(&sell_order.price) {
                        return None;
                    }
                    proof {
                        lemma_ahead_decreases(at.buy_after, buy_key);
                        lemma_ahead_decreases(at.sell_after, sell_key);
                    }
                    let buy_maker_only = buy_order.liquidity_directive
                        == LiquidityDirective::MakerOnly;
                    let sell_maker_only = sell_order.liquidity_directive
                        == LiquidityDirective::MakerOnly;
                    if buy_maker_only && sell_maker_only {
                        at = CrossCursor { buy_after: Some(buy_key), sell_after: Some(sell_key) };
                        continue ;
                    }
                    let taker_is_buy = if buy_maker_only {
                        false
                    } else if sell_maker_only {
                        true
                    } else {
                        buy_order.priority() < sell_order.priority()
                    };
                    if taker_is_buy {
                        return Some(
                            (
                                buy_order,
                                CrossCursor { buy_after: Some(buy_key), sell_after: at.sell_after },
                            ),
                        );
                    } else {
                        return Some(
                            (
                                sell_order,
                                CrossCursor { buy_after: at.buy_after, sell_after: Some(sell_key) },
                            ),
                        );
                    }
                },
                (Some((buy_key, buy_order)), None) => {
                    let front = match first_after(&self.sell_orders, None) {
                        Some((_, front)) => front,
                        None => return None,
                    };
                    if buy_order.price.lt(&front.price) {
                        return None;
                    }
                    proof {
                        lemma_ahead_decreases(at.buy_after, buy_key);
                    }
                    if buy_order.liquidity_directive == LiquidityDirective::MakerOnly {
                        at = CrossCursor { buy_after: Some(buy_key), sell_after: at.sell_after };
                        continue ;
                    }
                    return Some(
                        (
                            buy_order,
                            CrossCursor { buy_after: Some(buy_key), sell_after: at.sell_after },
                        ),
                    );
                },
                (None, Some((sell_key, sell_order))) => {
                    let front = match first_after(&self.buy_orders, None) {
                        Some((_, front)) => front,
                        None => return None,
                    };
                    if front.price.lt(&sell_order.price) {
                        return None;
                    }
                    proof {
                        lemma_ahead_decreases(at.sell_after, sell_key);
                    }
                    if sell_order.liquidity_directive == LiquidityDirective::MakerOnly {
                        at = CrossCursor { buy_after: at.buy_after, sell_after: Some(sell_key) };
                        continue ;
                    }
                    return Some(
                        (
                            sell_order,
                            CrossCursor { buy_after: at.buy_after, sell_after: Some(sell_key) },
                        ),
                    );
                },
                (None, None) => {
                    return None;
                },
            }
        }
    }

    /// One step of the walk over a list of identifiers: the first limit
    /// order from the place `start` on that a side of the book holds, and
    /// the place behind it. Other identifiers are passed over.
    pub fn walking_by_order_id_list(&self, order_id_list: &Vec<OrderID>, start: usize) -> (r:
        Option<(Order, usize)>)
        ensures
            match spec_next_listed(self@, order_id_list@, start as int) {
                Some((order, next)) => r == Some((order, next as usize)) && start < next
                    <= order_id_list.len(),
                None => r is None,
            },
    {
        let mut i = start;
        while i < order_id_list.len()
            invariant
                start <= i,
                spec_next_listed(self@, order_id_list@, i as int) == spec_next_listed(
                    self@,
                    order_id_list@,
                    start as int,
                ),
            decreases order_id_list.len() - i,
        {
            match self.find_limit(order_id_list[i]) {
                Some(order) => {
                    return Some((order, i + 1));
                },
                None => {
                    i += 1;
                },
            }
        }
        None
    }
}

/// What the engine asks of an order book: to take orders in, to move and
/// to cancel them, to give the best price of a side and the collection of a
/// side, and to pass a matching step on to the syncer.
pub trait OrderBook {
    /// What the book holds.
    spec fn book_state(&self) -> BookState;

    /// Takes `order` into the book, or rejects it with `TimestampConflict`
    /// if its place is taken.
    fn insert(&mut self, order: &mut Order) -> (r: Result<(), RejectReason>)
        requires
            old(self).book_state().wf(),
        ensures
            final(self).book_state().wf(),
            ({
                let placed = Order { status: OrderStatus::Placed, ..*old(order) };
                if old(self).book_state().taken(placed) {
                    &&& r == Err::<(), RejectReason>(RejectReason::TimestampConflict)
                    &&& final(self).book_state() == old(self).book_state()
                    &&& *final(order) == (Order {
                        status: OrderStatus::Rejected,
                        reject_reason: Some(RejectReason::TimestampConflict),
                        ..*old(order)
                    })
                } else {
                    &&& r == Ok::<(), RejectReason>(())
                    &&& final(self).book_state() == old(self).book_state().place(placed).bump()
                    &&& *final(order) == placed
                    &&& final(self).book_state().spec_find(placed.id) == Some(placed)
                }
            }),
    ;

    /// Moves the order `order_id` to the price `new_price`.
    fn update_order(&mut self, order_id: OrderID, new_price: Price, now_microseconds: u64) -> (r:
        Result<(), UpdateOrderError>)
        requires
            old(self).book_state().wf(),
        ensures
            final(self).book_state().wf(),
            r == old(self).book_state().update_result(order_id, new_price, now_microseconds),
            final(self).book_state() == old(self).book_state().updated(
                order_id,
                new_price,
                now_microseconds,
            ),
    ;

    /// Cancels the order `order_id`.
    fn remove(&mut self, order_id: OrderID) -> (r: Result<(), CancelOrderError>)
        requires
            old(self).book_state().wf(),
        ensures
            final(self).book_state().wf(),
            r == old(self).book_state().cancel_result(order_id),
            final(self).book_state() == old(self).book_state().cancelled(order_id),
    ;

    /// The best price of a side.
    fn get_best_price(&self, side: Side) -> (r: Option<Price>)
        ensures
            r == self.book_state().best_price(side),
    ;

    /// The collection of a side.
    fn get_book(&self, side: Side) -> (r: &OrderList)
        ensures
            list_entries(*r) == self.book_state().side(side),
    ;

    /// Tells the syncer of a matching step, and counts the commit.
    fn sync_matched(&mut self, updated: &Vec<Order>, trades: &Vec<Trade>)
        requires
            old(self).book_state().wf(),
        ensures
            final(self).book_state() == old(self).book_state().bump(),
            final(self).book_state().wf(),
    ;
}

/// The walks that the engine makes over an order book, one step at a time.
pub trait MatchingEngineWalker {
    /// What the walked book holds.
    spec fn walked_state(&self) -> BookState;

    /// One step of the walk over the market orders.
    fn walking_market_book(&self, after: Option<SortKey>) -> (r: Option<(SortKey, Order)>)
        ensures
            r == spec_first_after(self.walked_state().market, after),
    ;

    /// One step of the walk over the makers of a side.
    fn walking_book_maker(
        &self,
        side: Side,
        slip_price_option: Option<Price>,
        after: Option<SortKey>,
    ) -> (r: Option<(SortKey, Order)>)
        ensures
            r == spec_next_maker(self.walked_state().side(side), side, slip_price_option, after),
    ;

    /// One step of the walk over the orders of both sides that cross.
    fn walking_cross_taker(&self, cursor: CrossCursor) -> (r: Option<(Order, CrossCursor)>)
        ensures
            r == spec_next_taker(self.walked_state().buy, self.walked_state().sell, cursor),
    ;

    /// One step of the walk over a list of identifiers.
    fn walking_by_order_id_list(&self, order_id_list: &Vec<OrderID>, start: usize) -> (r: Option<
        (Order, usize),
    >)
        ensures
            match spec_next_listed(self.walked_state(), order_id_list@, start as int) {
                Some((order, next)) => r == Some((order, next as usize)) && start < next
                    <= order_id_list.len(),
                None => r is None,
            },
    ;
}

/// An order book that the engine can walk.
pub trait OrderBookWalker: Send + Sync + OrderBook + MatchingEngineWalker {

}

impl<S: OrderBookSyncer> OrderBook for DefaultOrderBook<S> {
    open spec fn book_state(&self) -> BookState {
        self@
    }

    fn insert(&mut self, order: &mut Order) -> (r: Result<(), RejectReason>) {
        DefaultOrderBook::insert(self, order)
    }

    fn update_order(&mut self, order_id: OrderID, new_price: Price, now_microseconds: u64) -> (r:
        Result<(), UpdateOrderError>) {
        DefaultOrderBook::update_order(self, order_id, new_price, now_microseconds)
    }

    fn remove(&mut self, order_id: OrderID) -> (r: Result<(), CancelOrderError>) {
        DefaultOrderBook::remove(self, order_id)
    }

    fn get_best_price(&self, side: Side) -> (r: Option<Price>) {
        DefaultOrderBook::get_best_price(self, side)
    }

    fn get_book(&self, side: Side) -> (r: &OrderList) {
        DefaultOrderBook::get_book(self, side)
    }

    fn sync_matched(&mut self, updated: &Vec<Order>, trades: &Vec<Trade>) {
        DefaultOrderBook::sync_matched(self, updated, trades)
    }
}

impl<S: OrderBookSyncer> MatchingEngineWalker for DefaultOrderBook<S> {
    open spec fn walked_state(&self) -> BookState {
        self@
    }

    fn walking_market_book(&self, after: Option<SortKey>) -> (r: Option<(SortKey, Order)>) {
        DefaultOrderBook::walking_market_book(self, after)
    }

    fn walking_book_maker(
        &self,
        side: Side,
        slip_price_option: Option<Price>,
        after: Option<SortKey>,
    ) -> (r: Option<(SortKey, Order)>) {
        DefaultOrderBook::walking_book_maker(self, side, slip_price_option, after)
    }

    fn walking_cross_taker(&self, cursor: CrossCursor) -> (r: Option<(Order, CrossCursor)>) {
        DefaultOrderBook::walking_cross_taker(self, cursor)
    }

    fn walking_by_order_id_list(&self, order_id_list: &Vec<OrderID>, start: usize) -> (r: Option<
        (Order, usize),
    >) {
        DefaultOrderBook::walking_by_order_id_list(self, order_id_list, start)
    }
}

impl<S: OrderBookSyncer> OrderBookWalker for DefaultOrderBook<S> {

}

} // verus!
