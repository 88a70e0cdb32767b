use crate::engine::types::{key_lt, BookKey, Order, OrderID, SortKey};
use crossbeam_skiplist::SkipList;
use vstd::prelude::*;

verus! {

/// Makes `crossbeam_skiplist::SkipList` known as a type. Nothing inside it is
/// seen; what it holds is spoken of through `list_entries`.
#[verifier::external_type_specification]
#[verifier::external_body]
#[verifier::reject_recursive_types(K)]
#[verifier::reject_recursive_types(V)]
pub struct ExSkipList<K, V>(SkipList<K, V>);

/// Makes `flurry::HashMap` known as a type. Nothing inside it is seen; what
/// it holds is spoken of through `index_entries`.
#[verifier::external_type_specification]
#[verifier::external_body]
#[verifier::reject_recursive_types(K)]
#[verifier::reject_recursive_types(V)]
#[verifier::reject_recursive_types(S)]
pub struct ExIndexMap<K, V, S>(flurry::HashMap<K, V, S>);

/// Makes `flurry::DefaultHashBuilder`, the hasher of the index, known as a
/// type. Nothing is said of it.
#[verifier::external_type_specification]
#[verifier::external_body]
pub struct ExHashBuilder(flurry::DefaultHashBuilder);

/// The ordered collection that holds one side of the book.
pub type OrderList = SkipList<SortKey, Order>;

/// The collection that leads from an order's identifier to its key.
pub type OrderIndex = flurry::HashMap<OrderID, BookKey, flurry::DefaultHashBuilder>;

/// What an ordered collection holds: the order under each key.
pub uninterp spec fn list_entries(list: OrderList) -> Map<SortKey, Order>;

/// What the index holds: the book key under each identifier.
pub uninterp spec fn index_entries(index: OrderIndex) -> Map<OrderID, BookKey>;

/// The contents of an ordered collection that holds nothing.
pub open spec fn no_orders() -> Map<SortKey, Order> {
    Map::empty()
}

/// The contents of an index that holds nothing.
pub open spec fn no_keys() -> Map<OrderID, BookKey> {
    Map::empty()
}

/// Whether `key` lies behind the place `after`: behind the key it names, or
/// anywhere if it names none.
pub open spec fn is_after(after: Option<SortKey>, key: SortKey) -> bool {
    match after {
        None => true,
        Some(bound) => key_lt(bound, key),
    }
}

/// Whether `key` is the first key of `entries` that lies behind `after`.
pub open spec fn is_first_after(
    entries: Map<SortKey, Order>,
    after: Option<SortKey>,
    key: SortKey,
) -> bool {
    &&& entries.dom().contains(key)
    &&& is_after(after, key)
    &&& forall|other: SortKey|
        entries.dom().contains(other) && is_after(after, other) ==> !key_lt(other, key)
}

/// Whether no key of `entries` lies behind `after`.
pub open spec fn none_after(entries: Map<SortKey, Order>, after: Option<SortKey>) -> bool {
    forall|other: SortKey| entries.dom().contains(other) ==> !is_after(after, other)
}

/// Calls `crossbeam_skiplist::SkipList::new` with the default collector of
/// `crossbeam::epoch`: the new collection holds nothing.
#[verifier::external_body]
pub(crate) fn list_new() -> (list: OrderList)
    ensures
        list_entries(list) == no_orders(),
{
    SkipList::new(crossbeam::epoch::default_collector().clone())
}

/// Calls `crossbeam_skiplist::SkipList::get`: a copy of the order under
/// `key`, or `None` if the collection has no such key.
#[verifier::external_body]
pub(crate) fn list_get(list: &OrderList, key: &SortKey) -> (r: Option<Order>)
    ensures
        r == if list_entries(*list).dom().contains(*key) {
            Some(list_entries(*list)[*key])
        } else {
            None
        },
{
    let guard = &crossbeam::epoch::pin();
    match list.get(key, guard) {
        Some(entry) => Some(*entry.value()),
        None => None,
    }
}

/// Calls `crossbeam_skiplist::SkipList::lower_bound`, with no bound where
/// `after` is `None` and the excluded bound `key` where it is `Some(key)`:
/// the entry with the lowest key above the bound, as a copy of its key and
/// its order, or `None` if no key is above the bound.
#[verifier::external_body]
pub(crate) fn list_first_after(list: &OrderList, after: Option<SortKey>) -> (r: Option<
    (SortKey, Order),
>)
    ensures
        match r {
            Some((key, order)) => is_first_after(list_entries(*list), after, key)
                && list_entries(*list)[key] == order,
            None => none_after(list_entries(*list), after),
        },
{
    let guard = &crossbeam::epoch::pin();
    let bound = match &after {
        Some(key) => std::ops::Bound::Excluded(key),
        None => std::ops::Bound::Unbounded,
    };
    match list.lower_bound(bound, guard) {
        Some(entry) => Some((*entry.key(), *entry.value())),
        None => None,
    }
}

/// Calls `crossbeam_skiplist::SkipList::get_or_insert` and releases the
/// entry it returns: if the collection has no entry under `key`, it gets
/// `order` there; if it has one, nothing changes.
#[verifier::external_body]
pub(crate) fn list_get_or_insert(list: &mut OrderList, key: SortKey, order: Order)
    ensures
        list_entries(*final(list)) == if list_entries(*old(list)).dom().contains(key) {
            list_entries(*old(list))
        } else {
            list_entries(*old(list)).insert(key, order)
        },
{
    let guard = &crossbeam::epoch::pin();
    list.get_or_insert(key, order, guard).release(guard);
}

/// Calls `crossbeam_skiplist::SkipList::insert` and releases the entry it
/// returns: the collection holds `order` under `key`, in place of what it
/// held there, and is otherwise unchanged.
#[verifier::external_body]
pub(crate) fn list_insert(list: &mut OrderList, key: SortKey, order: Order)
    ensures
        list_entries(*final(list)) == list_entries(*old(list)).insert(key, order),
{
    let guard = &crossbeam::epoch::pin();
    list.insert(key, order, guard).release(guard);
}

/// Calls `crossbeam_skiplist::SkipList::remove` and releases the entry it
/// returns: the collection no longer has an entry under `key` and is
/// otherwise unchanged. Returns whether it had one.
#[verifier::external_body]
pub(crate) fn list_remove(list: &mut OrderList, key: &SortKey) -> (r: bool)
    ensures
        list_entries(*final(list)) == list_entries(*old(list)).remove(*key),
        r == list_entries(*old(list)).dom().contains(*key),
{
    let guard = &crossbeam::epoch::pin();
    match list.remove(key, guard) {
        Some(entry) => {
            entry.release(guard);
            true
        },
        None => false,
    }
}

/// Calls `flurry::HashMap::new`: the new map holds nothing.
#[verifier::external_body]
pub(crate) fn index_new() -> (index: OrderIndex)
    ensures
        index_entries(index) == no_keys(),
{
    flurry::HashMap::new()
}

/// Calls `flurry::HashMapRef::get` on the pinned map: a copy of the key
/// under `id`, or `None` if the map has no such identifier.
#[verifier::external_body]
pub(crate) fn index_get(index: &OrderIndex, id: OrderID) -> (r: Option<BookKey>)
    ensures
        r == if index_entries(*index).dom().contains(id) {
            Some(index_entries(*index)[id])
        } else {
            None
        },
{
    match index.pin().get(&id) {
        Some(key) => Some(*key),
        None => None,
    }
}

/// Calls `flurry::HashMapRef::insert` on the pinned map: the map holds
/// `key` under `id`, in place of what it held there, and is otherwise
/// unchanged.
#[verifier::external_body]
pub(crate) fn index_insert(index: &mut OrderIndex, id: OrderID, key: BookKey)
    ensures
        index_entries(*final(index)) == index_entries(*old(index)).insert(id, key),
{
    index.pin().insert(id, key);
}

/// Calls `flurry::HashMapRef::remove` on the pinned map: the map no longer
/// has an entry under `id` and is otherwise unchanged.
#[verifier::external_body]
pub(crate) fn index_remove(index: &mut OrderIndex, id: OrderID)
    ensures
        index_entries(*final(index)) == index_entries(*old(index)).remove(id),
{
    index.pin().remove(&id);
}

} // verus!
