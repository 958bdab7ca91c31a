//! The bar: the aggregated unit that a period produces.
use vstd::prelude::*;

use crate::canonical::{Px, Qty, Trade, Ts};
use crate::orderflow::{empty_flow, FlowView, OrderFlow};

verus! {

/// Open, high, low, close and volume of a bar.
#[derive(Debug, Clone, Copy, PartialEq, Eq, Structural)]
pub struct Ohlcv {
    pub open: Px,
    pub high: Px,
    pub low: Px,
    pub close: Px,
    pub volume: Qty,
}

/// An aggregated bar: first forming, then closed.
#[derive(Debug, Clone, PartialEq, Eq)]
pub struct Bar {
    /// Lower bound (included) of the window, event time.
    pub start: Ts,
    /// Upper bound (excluded) of the window.
    pub end: Ts,
    pub ohlcv: Ohlcv,
    /// The bar was closed by an end-of-stream flush and may be incomplete.
    pub partial: bool,
    /// Order flow of the lenses; filled in when the bar closes, empty while it forms.
    pub orderflow: OrderFlow,
}

/// Model of a bar: its fields, with the order flow taken by its model.
#[verifier::ext_equal]
pub struct BarView {
    pub start: Ts,
    pub end: Ts,
    pub ohlcv: Ohlcv,
    pub partial: bool,
    pub flow: FlowView,
}

impl View for Bar {
    type V = BarView;

    open spec fn view(&self) -> BarView {
        BarView {
            start: self.start,
            end: self.end,
            ohlcv: self.ohlcv,
            partial: self.partial,
            flow: self.orderflow@,
        }
    }
}

/// The bar that `first` opens on `[start, end)`.
pub open spec fn opened_bar(start: Ts, end: Ts, first: Trade) -> Bar {
    Bar {
        start,
        end,
        ohlcv: Ohlcv {
            open: first.price,
            high: first.price,
            low: first.price,
            close: first.price,
            volume: first.size,
        },
        partial: false,
        orderflow: empty_flow(),
    }
}

/// `b` after integrating trade `t`.
pub open spec fn bar_with(b: Bar, t: Trade) -> Bar {
    Bar {
        ohlcv: Ohlcv {
            high: if t.price > b.ohlcv.high { t.price } else { b.ohlcv.high },
            low: if t.price < b.ohlcv.low { t.price } else { b.ohlcv.low },
            close: t.price,
            volume: (b.ohlcv.volume + t.size) as u64,
            ..b.ohlcv
        },
        ..b
    }
}

/// The volume of `b` can take trade `t` without overflow.
pub open spec fn bar_accepts(b: Bar, t: Trade) -> bool {
    b.ohlcv.volume + t.size <= u64::MAX
}

impl Bar {
    /// Opens a bar `[start, end)` from its first trade.
    pub fn open(start: Ts, end: Ts, first: &Trade) -> (b: Self)
        ensures
            b == opened_bar(start, end, *first),
    {
        Bar {
            start,
            end,
            ohlcv: Ohlcv {
                open: first.price,
                high: first.price,
                low: first.price,
                close: first.price,
                volume: first.size,
            },
            partial: false,
            orderflow: OrderFlow::empty(),
        }
    }

    /// A copy of a forming bar (whose order flow is still empty).
    pub(crate) fn forming_copy(&self) -> (r: Self)
        requires
            self.orderflow == empty_flow(),
        ensures
            r == *self,
    {
        Bar {
            start: self.start,
            end: self.end,
            ohlcv: self.ohlcv,
            partial: self.partial,
            orderflow: OrderFlow::empty(),
        }
    }

    /// A copy of the bar.
    pub(crate) fn duplicate(&self) -> (r: Self)
        ensures
            r@ == self@,
    {
        Bar {
            start: self.start,
            end: self.end,
            ohlcv: self.ohlcv,
            partial: self.partial,
            orderflow: self.orderflow.duplicate(),
        }
    }

    /// Integrates a trade into the forming bar.
    pub fn add(&mut self, t: &Trade)
        requires
            bar_accepts(*old(self), *t),
        ensures
            *final(self) == bar_with(*old(self), *t),
    {
        if t.price > self.ohlcv.high {
            self.ohlcv.high = t.price;
        }
        if t.price < self.ohlcv.low {
            self.ohlcv.low = t.price;
        }
        self.ohlcv.close = t.price;
        self.ohlcv.volume = self.ohlcv.volume + t.size;
    }
}

/// The open and close of a bar lie within its low and high.
pub open spec fn ohlc_ordered(b: Bar) -> bool {
    &&& b.ohlcv.low <= b.ohlcv.open <= b.ohlcv.high
    &&& b.ohlcv.low <= b.ohlcv.close <= b.ohlcv.high
}

/// Law: a bar opened by a trade, and kept up to date with the later trades,
/// always has its open and close within its low and high, and the low and
/// high bracket every traded price; its window, open price and flag do not
/// change, and its volume grows by each trade's size.
pub proof fn lemma_bar_ranges(b: Bar, t: Trade, start: Ts, end: Ts, first: Trade)
    ensures
        ohlc_ordered(opened_bar(start, end, first)),
        ohlc_ordered(b) ==> ohlc_ordered(bar_with(b, t)),
        bar_with(b, t).ohlcv.low <= t.price <= bar_with(b, t).ohlcv.high,
        bar_with(b, t).ohlcv.low <= b.ohlcv.low,
        bar_with(b, t).ohlcv.high >= b.ohlcv.high,
        bar_with(b, t).ohlcv.open == b.ohlcv.open,
        bar_with(b, t).ohlcv.close == t.price,
        bar_accepts(b, t) ==> bar_with(b, t).ohlcv.volume == b.ohlcv.volume + t.size,
        bar_with(b, t).start == b.start && bar_with(b, t).end == b.end && bar_with(b, t).partial == b.partial,
{
}

} // verus!
