//! DataBento mapping: how the fields of DBN records become canonical events,
//! and how a trade stream and a book stream are merged in event time.
//!
//! DataBento encodes the aggressor side as `B` (the buyer aggressed), `A` (the
//! seller aggressed) or `N` (unknown). Reading the records themselves is I/O and
//! happens outside this crate, which receives their fields as plain values.
use vstd::prelude::*;

use crate::aggregator::{note_views, noted, Notification, SymbolAggregator};
use crate::canonical::{AggressorSide, BookAction, BookSide, BookUpdate, MarketEvent, Px, Qty, Trade, Ts};
use crate::levels::lookup;
use crate::passive::OrderBook;
use crate::period::Period;

verus! {

/// The aggressor side that a DBN side byte denotes.
pub open spec fn aggressor_of(side: u8) -> AggressorSide {
    if side == 0x42 {
        AggressorSide::Buy
    } else if side == 0x41 {
        AggressorSide::Sell
    } else {
        AggressorSide::Unknown
    }
}

/// Maps a DBN side byte (`B`, `A`, anything else) to the aggressor side.
pub fn aggressor_from_dbn(side: u8) -> (a: AggressorSide)
    ensures
        a == aggressor_of(side),
{
    if side == 0x42u8 {
        AggressorSide::Buy
    } else if side == 0x41u8 {
        AggressorSide::Sell
    } else {
        AggressorSide::Unknown
    }
}

/// The canonical trade of a DBN trade record, from its fields: event time,
/// price, size, side byte and instrument.
pub fn trade_from_fields(ts_event: u64, price: i64, size: u32, side: u8, instrument_id: u32) -> (t: Trade)
    ensures
        t == (Trade {
            ts: ts_event as i64,
            price,
            size: size as u64,
            aggressor: aggressor_of(side),
            instrument_id,
        }),
{
    Trade {
        ts: ts_event as i64,
        price,
        size: size as u64,
        aggressor: aggressor_from_dbn(side),
        instrument_id,
    }
}

/// The book action that a DBN action byte denotes, when it maintains the book.
pub open spec fn book_action_of(action: u8) -> Option<BookAction> {
    if action == 0x41 {
        Some(BookAction::Add)
    } else if action == 0x43 {
        Some(BookAction::Cancel)
    } else if action == 0x4d {
        Some(BookAction::Modify)
    } else {
        None
    }
}

/// The book side that a DBN side byte denotes.
pub open spec fn book_side_of(side: u8) -> Option<BookSide> {
    if side == 0x42 {
        Some(BookSide::Bid)
    } else if side == 0x41 {
        Some(BookSide::Ask)
    } else {
        None
    }
}

/// The canonical book update of a DBN market-by-order record, from its fields:
/// `A`dd, `C`ancel and `M`odify on side `B`id or `A`sk. `None` for the actions
/// that do not maintain the book (trade, fill, clear, none) and for an
/// unknown side. The order id is passed through.
pub fn book_update_from_mbo_fields(
    ts_event: u64,
    action: u8,
    side: u8,
    price: i64,
    size: u32,
    order_id: u64,
    instrument_id: u32,
) -> (r: Option<BookUpdate>)
    ensures
        r == match (book_action_of(action), book_side_of(side)) {
            (Some(a), Some(s)) => Some(
                BookUpdate {
                    ts: ts_event as i64,
                    action: a,
                    side: s,
                    price,
                    size: size as u64,
                    order_id: Some(order_id),
                    instrument_id,
                },
            ),
            _ => None,
        },
{
    let a = if action == 0x41u8 {
        BookAction::Add
    } else if action == 0x43u8 {
        BookAction::Cancel
    } else if action == 0x4du8 {
        BookAction::Modify
    } else {
        return None;
    };
    let s = if side == 0x42u8 {
        BookSide::Bid
    } else if side == 0x41u8 {
        BookSide::Ask
    } else {
        return None;
    };
    Some(
        BookUpdate {
            ts: ts_event as i64,
            action: a,
            side: s,
            price,
            size: size as u64,
            order_id: Some(order_id),
            instrument_id,
        },
    )
}

/// The quantity at `price` on `side` that a list of snapshot levels
/// `(bid_px, ask_px, bid_sz, ask_sz)` gives: that of the last level quoting the
/// price with a positive size on that side; empty levels are skipped.
pub open spec fn snapshot_level(levels: Seq<(Px, Px, u32, u32)>, side: BookSide, price: Px) -> Option<Qty>
    decreases levels.len(),
{
    if levels.len() == 0 {
        None
    } else {
        let (bid_px, ask_px, bid_sz, ask_sz) = levels.last();
        let hit = match side {
            BookSide::Bid => if bid_sz > 0 && bid_px == price {
                Some(bid_sz as u64)
            } else {
                None
            },
            BookSide::Ask => if ask_sz > 0 && ask_px == price {
                Some(ask_sz as u64)
            } else {
                None
            },
        };
        match hit {
            Some(q) => Some(q),
            None => snapshot_level(levels.drop_last(), side, price),
        }
    }
}

/// Rebuilds a book from the levels of a market-by-price snapshot record, each
/// `(bid_px, ask_px, bid_sz, ask_sz)`; levels of size zero are empty and skipped.
pub fn book_from_levels(levels: &Vec<(Px, Px, u32, u32)>) -> (b: OrderBook)
    ensures
        b@.wf(),
        forall|q: Px| #[trigger] lookup(b@.bids, q) == snapshot_level(levels@, BookSide::Bid, q),
        forall|q: Px| #[trigger] lookup(b@.asks, q) == snapshot_level(levels@, BookSide::Ask, q),
{
    let mut book = OrderBook::new();
    let mut i: usize = 0;
    while i < levels.len()
        invariant
            i <= levels@.len(),
            book@.wf(),
            forall|q: Px| #[trigger]
                lookup(book@.bids, q) == snapshot_level(levels@.subrange(0, i as int), BookSide::Bid, q),
            forall|q: Px| #[trigger]
                lookup(book@.asks, q) == snapshot_level(levels@.subrange(0, i as int), BookSide::Ask, q),
        decreases levels@.len() - i,
    {
        let (bid_px, ask_px, bid_sz, ask_sz) = levels[i];
        let ghost before = book@;
        proof {
            assert(levels@.subrange(0, i as int + 1).drop_last() =~= levels@.subrange(0, i as int));
            assert(levels@.subrange(0, i as int + 1).last() == levels@[i as int]);
        }
        if bid_sz > 0 {
            book.set_level(BookSide::Bid, bid_px, bid_sz as u64);
        }
        let ghost mid = book@;
        if ask_sz > 0 {
            book.set_level(BookSide::Ask, ask_px, ask_sz as u64);
        }
        proof {
            assert forall|q: Px| #[trigger]
                lookup(book@.bids, q) == snapshot_level(levels@.subrange(0, i as int + 1), BookSide::Bid, q) by {
                assert(lookup(mid.bids, q) == lookup(book@.bids, q));
            }
            assert forall|q: Px| #[trigger]
                lookup(book@.asks, q) == snapshot_level(levels@.subrange(0, i as int + 1), BookSide::Ask, q) by {
                assert(lookup(before.asks, q) == lookup(mid.asks, q));
            }
        }
        i = i + 1;
    }
    assert(levels@.subrange(0, i as int) =~= levels@);
    book
}

/// A book item of a merged stream: a market-by-order delta or a
/// market-by-price snapshot.
pub enum BookItem {
    Update(BookUpdate),
    Snapshot { ts: Ts, book: OrderBook },
}

impl BookItem {
    /// Event time of the item.
    pub open spec fn item_ts(self) -> Ts {
        match self {
            BookItem::Update(u) => u.ts,
            BookItem::Snapshot { ts, .. } => ts,
        }
    }

    /// Event time of the item.
    pub fn ts(&self) -> (r: Ts)
        ensures
            r == self.item_ts(),
    {
        match self {
            BookItem::Update(u) => u.ts,
            BookItem::Snapshot { ts, .. } => *ts,
        }
    }
}

/// The next move of an event-time merge.
#[derive(Debug, Clone, Copy, PartialEq, Eq, Structural)]
pub enum MergeStep {
    /// Push the pending book item.
    Book,
    /// Push the pending trade.
    Trade,
    /// Stop: both streams are done, or the limit is reached.
    Stop,
}

/// `n` events pushed reach the optional limit.
pub open spec fn limit_hit(n: int, limit: Option<usize>) -> bool {
    limit matches Some(max) && n >= max
}

/// Whether `n` events pushed reach the optional limit.
pub fn limit_reached(n: usize, limit: Option<usize>) -> (r: bool)
    ensures
        r == limit_hit(n as int, limit),
{
    match limit {
        Some(max) => n >= max,
        None => false,
    }
}

/// The merge rule: stop at the limit or when both streams are done; otherwise
/// push the earlier of the two pending events, the book item first on equal
/// times (so that a bar closed by a trade at `t` sees the book up to `t`).
pub open spec fn merge_choice(next_trade: Option<Ts>, next_book: Option<Ts>, n: int, limit: Option<usize>) -> MergeStep {
    if limit_hit(n, limit) {
        MergeStep::Stop
    } else {
        match (next_trade, next_book) {
            (None, None) => MergeStep::Stop,
            (None, Some(_)) => MergeStep::Book,
            (Some(_), None) => MergeStep::Trade,
            (Some(t), Some(b)) => if b <= t {
                MergeStep::Book
            } else {
                MergeStep::Trade
            },
        }
    }
}

/// Decides the next move of the merge from the times of the pending trade and
/// book item, the number of events pushed and the limit.
pub fn merge_step(next_trade: Option<Ts>, next_book: Option<Ts>, n: usize, limit: Option<usize>) -> (s: MergeStep)
    ensures
        s == merge_choice(next_trade, next_book, n as int, limit),
{
    if limit_reached(n, limit) {
        return MergeStep::Stop;
    }
    match (next_trade, next_book) {
        (None, None) => MergeStep::Stop,
        (None, Some(_)) => MergeStep::Book,
        (Some(_), None) => MergeStep::Trade,
        (Some(t), Some(b)) => if b <= t {
            MergeStep::Book
        } else {
            MergeStep::Trade
        },
    }
}

/// Pushes a book item into the aggregator: a delta goes through `process`, a
/// snapshot replaces the book.
pub fn apply_book_item<P: Period>(agg: &mut SymbolAggregator<P>, item: BookItem) -> (notes: Vec<Notification>)
    requires
        old(agg).wf(),
        match item {
            BookItem::Update(u) => old(agg).accepts(MarketEvent::BookUpdate(u)),
            BookItem::Snapshot { ts, book } => book@.wf() && ((old(agg).last_seen() matches Some(prev) && ts < prev)
                ==> old(agg).disorder() < u64::MAX),
        },
    ensures
        final(agg).wf(),
        notes@.len() == 0,
        final(agg).slot_views() == old(agg).slot_views(),
        match item {
            BookItem::Update(u) => old(agg).processed(MarketEvent::BookUpdate(u), *final(agg), note_views(notes@)),
            BookItem::Snapshot { ts, book } => {
                &&& final(agg).symbol() == old(agg).symbol()
                &&& final(agg).declared() == old(agg).declared()
                &&& (final(agg).last_seen(), final(agg).disorder()) == noted(
                    old(agg).last_seen(),
                    old(agg).disorder(),
                    ts,
                )
                &&& match old(agg).passive_side() {
                    Some(p) => final(agg).passive_side() matches Some(q) && q.wf() && q.book_view() == book@
                        && q.current_window() == p.current_window() && q.profiles() == p.profiles()
                        && q.window_len() == p.window_len(),
                    None => final(agg).passive_side() is None,
                }
            },
        },
{
    match item {
        BookItem::Update(u) => agg.process(&MarketEvent::BookUpdate(u)),
        BookItem::Snapshot { ts, book } => {
            agg.ingest_book_snapshot(ts, book);
            Vec::new()
        },
    }
}

} // verus!
