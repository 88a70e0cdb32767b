use crate::engine::types::{Order, Trade};
use vstd::prelude::*;

verus! {

/// The observer that the order book tells of each change it has made. It
/// is called after the change is in the book, with a sequence number that
/// grows from call to call.
pub trait OrderBookSyncer: Send + Sync {
    /// The book has taken in `order`.
    fn add_order(&self, id: u64, order: &Order);

    /// The book has moved `order` to a new price.
    fn update_order(&self, id: u64, order: &Order);

    /// The book has cancelled `order`.
    fn cancel_order(&self, id: u64, order: &Order);

    /// The engine has matched: `updated` are the orders it changed, `trades`
    /// what they traded.
    fn matched(&self, id: u64, updated: &[Order], trades: &[Trade]);
}

/// An observer that does nothing.
pub struct EmptyOrderBookSyncer {}

impl OrderBookSyncer for EmptyOrderBookSyncer {
    fn add_order(&self, _id: u64, _order: &Order) {
    }

    fn update_order(&self, _id: u64, _order: &Order) {
    }

    fn cancel_order(&self, _id: u64, _order: &Order) {
    }

    fn matched(&self, _id: u64, _updated: &[Order], _trades: &[Trade]) {
    }
}

} // verus!
