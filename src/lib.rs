//! A single-instrument limit order book with price-priority matching.
//!
//! Quantities and prices are fixed-point integers: the caller picks the unit
//! (for instance satoshis for a quantity of BTC and whole USDT for a price).
pub mod order;
pub mod matching;
pub mod book;
pub mod market;
