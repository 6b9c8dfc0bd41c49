//! Numeric domain types of the order book.
//!
//! Prices and quantities are fixed-point decimals held as plain `u64` values
//! in minor units at the scale the feed translation chose; the engine only
//! compares them, so the scale never appears here. A quantity of zero is the
//! sentinel for "remove this level".

use vstd::prelude::*;

verus! {

/// A fixed-point price in minor units. Totally ordered by its numeric value.
#[derive(Clone, Copy, Debug, PartialEq, Eq, Structural)]
pub struct Price(pub u64);

/// A fixed-point quantity in minor units; zero marks a level for removal.
#[derive(Clone, Copy, Debug, PartialEq, Eq, Structural)]
pub struct Qty(pub u64);

/// An opaque handle into the level arena. Valid only while the slot it names
/// has not been freed and reused.
#[derive(Clone, Copy, Debug, PartialEq, Eq, Structural)]
pub struct LevelIdx(pub usize);

/// The side of the book an update or a resting level belongs to.
#[derive(Clone, Copy, Debug, PartialEq, Eq, Structural)]
pub enum BuySell {
    Buy,
    Sell,
}

/// The side a quote belongs to, as the flat update messages name it.
#[derive(Clone, Copy, Debug, PartialEq, Eq, Structural)]
pub enum QuoteType {
    BID,
    ASK,
}

/// The market-data feed a message came from.
#[derive(Clone, Copy, Debug, PartialEq, Eq, Structural)]
pub enum Exchange {
    Kraken,
    Binance,
}

impl Price {
    /// The underlying fixed-point value.
    pub fn value(&self) -> (r: u64)
        ensures
            r == self.0,
    {
        self.0
    }

    /// The price moved up by `other` minor units.
    pub fn add(&self, other: u64) -> (r: Price)
        requires
            self.0 + other <= u64::MAX,
        ensures
            r.0 == self.0 + other,
    {
        Price(self.0 + other)
    }

    /// The price moved down by `other` minor units.
    pub fn subtract(&self, other: u64) -> (r: Price)
        requires
            other <= self.0,
        ensures
            r.0 == self.0 - other,
    {
        Price(self.0 - other)
    }
}

impl Qty {
    /// The underlying fixed-point value.
    pub fn value(&self) -> (r: u64)
        ensures
            r == self.0,
    {
        self.0
    }

    /// The quantity grown by `other` minor units.
    pub fn add(&self, other: u64) -> (r: Qty)
        requires
            self.0 + other <= u64::MAX,
        ensures
            r.0 == self.0 + other,
    {
        Qty(self.0 + other)
    }

    /// The quantity shrunk by `other` minor units.
    pub fn subtract(&self, other: u64) -> (r: Qty)
        requires
            other <= self.0,
        ensures
            r.0 == self.0 - other,
    {
        Qty(self.0 - other)
    }
}

impl LevelIdx {
    /// The arena slot this handle names.
    pub fn value(&self) -> (r: usize)
        ensures
            r == self.0,
    {
        self.0
    }
}

/// A price and its aggregate resting quantity on one side of the book.
#[derive(Clone, Copy, Debug, PartialEq, Eq, Structural)]
pub struct Level {
    pub price: Price,
    pub qty: Qty,
}

impl Default for Level {
    /// The value unallocated arena slots are pre-filled with.
    fn default() -> (r: Self)
        ensures
            r.price.0 == 0,
            r.qty.0 == 0,
    {
        Level { price: Price(0), qty: Qty(0) }
    }
}

impl Level {
    pub fn new(price: Price, qty: Qty) -> (r: Self)
        ensures
            r.price == price,
            r.qty == qty,
    {
        Level { price, qty }
    }

    /// A level built from a plain `(price, quantity)` pair of fixed-point values.
    pub fn from_tuple(tuple: (u64, u64)) -> (r: Self)
        ensures
            r.price.0 == tuple.0,
            r.qty.0 == tuple.1,
    {
        Level { price: Price(tuple.0), qty: Qty(tuple.1) }
    }

    pub fn price(&self) -> (r: Price)
        ensures
            r == self.price,
    {
        self.price
    }

    /// The level with its quantity reduced by `qty`.
    pub fn reduce_qty(&self, qty: &Qty) -> (r: Level)
        requires
            qty.0 <= self.qty.0,
        ensures
            r.price == self.price,
            r.qty.0 == self.qty.0 - qty.0,
    {
        Level { price: self.price, qty: Qty(self.qty.0 - qty.0) }
    }

    /// Overwrites the quantity in place.
    pub fn set_qty(&mut self, qty: Qty)
        ensures
            final(self).price == old(self).price,
            final(self).qty == qty,
    {
        self.qty = qty;
    }
}

/// The element of a sorted side index: a price, the arena slot that holds its
/// level, and the side it rests on.
#[derive(Clone, Copy, Debug)]
pub struct PriceLevel {
    pub price: Price,
    pub level_idx: LevelIdx,
    pub side: BuySell,
}

impl PriceLevel {
    pub fn new(price: Price, level_idx: LevelIdx, side: BuySell) -> (r: PriceLevel)
        ensures
            r.price == price,
            r.level_idx == level_idx,
            r.side == side,
    {
        PriceLevel { price, level_idx, side }
    }

    pub fn price(&self) -> (r: Price)
        ensures
            r == self.price,
    {
        self.price
    }

    pub fn side(&self) -> (r: BuySell)
        ensures
            r == self.side,
    {
        self.side
    }

    pub fn level_idx(&self) -> (r: LevelIdx)
        ensures
            r == self.level_idx,
    {
        self.level_idx
    }
}

impl BuySell {
    /// The side an incoming level executes against when it crosses.
    pub fn other_side(self) -> (r: Self)
        ensures
            self == BuySell::Buy ==> r == BuySell::Sell,
            self == BuySell::Sell ==> r == BuySell::Buy,
    {
        match self {
            BuySell::Buy => BuySell::Sell,
            BuySell::Sell => BuySell::Buy,
        }
    }
}

} // verus!
