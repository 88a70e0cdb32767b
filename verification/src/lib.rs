//! A limit-order matching engine core: an order book ordered by price and
//! time, and the engine that pairs crossing orders into trades.

pub mod engine;
pub mod prelude;
