use vstd::prelude::*;

verus! {

/// Why an order could not be updated.
#[derive(Debug, Clone, Copy, PartialEq, Eq, Structural)]
pub enum UpdateOrderError {
    /// The book has no order with that identifier.
    OrderNotFound,
    /// The order is claimed or finished.
    OrderNotModifiable,
    /// The update asks for a place in the book that another order holds.
    InvalidUpdateRequest,
}

/// Why an order could not be cancelled.
#[derive(Debug, Clone, Copy, PartialEq, Eq, Structural)]
pub enum CancelOrderError {
    /// The book has no order with that identifier.
    OrderNotFound,
    /// The order is claimed or finished.
    OrderNotCancellable,
    /// The request itself is not valid.
    InvalidCancelRequest,
}

} // verus!
