//! The names of the library in one place.

pub use crate::engine::book::{
    BookState, CrossCursor, DefaultOrderBook, MatchingEngineWalker, OrderBook, OrderBookWalker,
    WalkingResult,
};
pub use crate::engine::error::{CancelOrderError, UpdateOrderError};
pub use crate::engine::matching::{DefaultMatchingEngine, MatchReport, MatchingEngine};
pub use crate::engine::store::{OrderIndex, OrderList};
pub use crate::engine::syncer::{EmptyOrderBookSyncer, OrderBookSyncer};
pub use crate::engine::types::{
    market_sort_key, BookKey, CancelReason, LiquidityDirective, MatchStrategy, Order, OrderID,
    OrderLifecycle, OrderStatus, OrderType, OrderValidationError, Price, Priority, Quantity,
    RejectReason, Side, SlippageTolerance, SortKey, TimeInForce, Trade, TradeRole,
    MAX_ALLOWED_SLIPPAGE_TOLERANCE,
};
pub use crate::engine::wide::{U256, U512};
