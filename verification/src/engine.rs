pub mod book;
pub mod error;
pub mod laws;
pub mod ledger;
pub mod matching;
pub mod priority;
pub mod store;
pub mod syncer;
pub mod types;
pub mod wide;
