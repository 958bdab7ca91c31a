//! The canonical input model: every source is mapped onto these types.
use vstd::prelude::*;

verus! {

/// Timestamp in nanoseconds since the UTC epoch. Time always comes from the data.
pub type Ts = i64;

/// Integer price, in the instrument's own fixed scale.
pub type Px = i64;

/// Traded or resting quantity.
pub type Qty = u64;

/// The side that initiated a trade (distinct from the side of the book).
#[derive(Debug, Clone, Copy, PartialEq, Eq, Structural)]
pub enum AggressorSide {
    /// The aggressor buys (lifts the ask).
    Buy,
    /// The aggressor sells (hits the bid).
    Sell,
    /// The source did not say.
    Unknown,
}

/// An executed trade.
#[derive(Debug, Clone, Copy, PartialEq, Eq, Structural)]
pub struct Trade {
    pub ts: Ts,
    pub price: Px,
    pub size: Qty,
    pub aggressor: AggressorSide,
    /// Instrument identifier (a source file may mix several contracts).
    pub instrument_id: u32,
}

/// Side of the book (passive liquidity).
#[derive(Debug, Clone, Copy, PartialEq, Eq, Structural)]
pub enum BookSide {
    Bid,
    Ask,
}

/// What a book update does.
#[derive(Debug, Clone, Copy, PartialEq, Eq, Structural)]
pub enum BookAction {
    /// Adds liquidity at a level.
    Add,
    /// Removes liquidity from a level.
    Cancel,
    /// Sets the quantity of a level.
    Modify,
}

/// A change to the book. `order_id` is present for market-by-order data.
#[derive(Debug, Clone, Copy, PartialEq, Eq, Structural)]
pub struct BookUpdate {
    pub ts: Ts,
    pub action: BookAction,
    pub side: BookSide,
    pub price: Px,
    /// New level quantity for `Modify`, quantity added or removed otherwise.
    pub size: Qty,
    pub order_id: Option<u64>,
    pub instrument_id: u32,
}

/// A timestamped market event.
#[derive(Debug, Clone, Copy, PartialEq, Eq, Structural)]
pub enum MarketEvent {
    Trade(Trade),
    BookUpdate(BookUpdate),
}

impl MarketEvent {
    /// The event time of this event.
    pub open spec fn event_ts(self) -> Ts {
        match self {
            MarketEvent::Trade(t) => t.ts,
            MarketEvent::BookUpdate(b) => b.ts,
        }
    }

    /// Event time of the event.
    pub fn ts(&self) -> (r: Ts)
        ensures
            r == self.event_ts(),
    {
        match self {
            MarketEvent::Trade(t) => t.ts,
            MarketEvent::BookUpdate(b) => b.ts,
        }
    }
}

/// Instrument definition.
#[derive(Debug, Clone, Copy, PartialEq, Eq, Structural)]
pub struct Instrument {
    pub id: u32,
    /// Quotation step, in price units.
    pub tick_size: Px,
}

/// Richness of the input data; ordered `L1 < L2 < L3`.
#[derive(Debug, Clone, Copy, PartialEq, Eq, PartialOrd, Ord, Structural)]
pub enum Granularity {
    /// Top of book and last trade.
    L1,
    /// Market by price.
    L2,
    /// Market by order.
    L3,
}

impl Granularity {
    /// Position of the granularity in the order `L1 < L2 < L3`.
    pub open spec fn level(self) -> int {
        match self {
            Granularity::L1 => 1,
            Granularity::L2 => 2,
            Granularity::L3 => 3,
        }
    }

    /// Position of the granularity in the order `L1 < L2 < L3`.
    pub fn rank(&self) -> (r: u8)
        ensures
            r == self.level(),
    {
        match self {
            Granularity::L1 => 1,
            Granularity::L2 => 2,
            Granularity::L3 => 3,
        }
    }
}

} // verus!
