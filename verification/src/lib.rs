//! A limit order book engine: an arena of price levels with free-list reuse,
//! two price-ordered side indices kept in sync with the arena, and an update
//! algorithm that resolves crossing updates by consuming resting liquidity on
//! the opposite side.
//!
//! The engine consumes normalized `{price, quantity, side}` updates and offers
//! best-quote queries, rank-based level lookup, a price-to-quantity mapping of
//! each side, and textual renderings of the book.

pub mod book;
pub mod pool;
pub mod render;
pub mod types;
