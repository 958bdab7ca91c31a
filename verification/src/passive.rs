//! Passive side: order book reconstruction and periodic liquidity profiles.
use vstd::prelude::*;

use crate::canonical::{BookAction, BookSide, BookUpdate, Px, Qty, Ts};
use crate::levels::{
    find, has_key, keys_sorted, lemma_insert, lemma_lookup_at, lemma_remove, lemma_table_ext, lemma_update,
    lookup, lookup_or,
};
use crate::orderflow::{copy_table, lemma_qty_sum, lemma_range_sum, lemma_range_sum_ext, qty_sum, qty_weights};
use crate::period::fits_i64;

verus! {

/// Integrity anomaly of the book.
#[derive(Debug, Clone, Copy, PartialEq, Eq, Structural)]
pub enum BookError {
    /// A cancel took a level below zero (the level is removed).
    NegativeLevel { side: BookSide, price: Px },
}

/// Mathematical model of a book: for each side, the levels `(price, quantity)`
/// by increasing price.
#[verifier::ext_equal]
pub struct BookModel {
    pub bids: Seq<(Px, Qty)>,
    pub asks: Seq<(Px, Qty)>,
}

impl BookModel {
    /// The levels of one side.
    pub open spec fn side(self, side: BookSide) -> Seq<(Px, Qty)> {
        match side {
            BookSide::Bid => self.bids,
            BookSide::Ask => self.asks,
        }
    }

    /// Both sides are sorted by strictly increasing price.
    pub open spec fn wf(self) -> bool {
        keys_sorted(self.bids) && keys_sorted(self.asks)
    }

    /// The quantity at `u.price` on `u.side` once `u` is applied.
    pub open spec fn level_after(self, u: BookUpdate) -> Option<Qty> {
        let cur = lookup(self.side(u.side), u.price);
        match u.action {
            BookAction::Add => Some((lookup_or(self.side(u.side), u.price, 0u64) + u.size) as u64),
            BookAction::Modify => if u.size == 0 { None } else { Some(u.size) },
            BookAction::Cancel => match cur {
                Some(q) => if u.size >= q { None } else { Some((q - u.size) as u64) },
                None => None,
            },
        }
    }

    /// What applying `u` reports: an error when a cancel finds no level or
    /// takes it below zero.
    pub open spec fn apply_result(self, u: BookUpdate) -> Result<(), BookError> {
        match u.action {
            BookAction::Cancel => match lookup(self.side(u.side), u.price) {
                Some(q) => if u.size > q {
                    Err(BookError::NegativeLevel { side: u.side, price: u.price })
                } else {
                    Ok(())
                },
                None => Err(BookError::NegativeLevel { side: u.side, price: u.price }),
            },
            _ => Ok(()),
        }
    }

    /// `u` can be applied without overflow.
    pub open spec fn accepts(self, u: BookUpdate) -> bool {
        u.action is Add ==> lookup_or(self.side(u.side), u.price, 0u64) + u.size <= u64::MAX
    }

    /// `next` is this book after setting the level `price` of `side` to `level`
    /// (`None` removes it); the other side is unchanged.
    pub open spec fn with_level(self, next: BookModel, side: BookSide, price: Px, level: Option<Qty>) -> bool {
        &&& next.wf()
        &&& next.side(opposite(side)) == self.side(opposite(side))
        &&& forall|q: Px| #[trigger]
            lookup(next.side(side), q) == if q == price {
                level
            } else {
                lookup(self.side(side), q)
            }
    }

    /// `next` is this book after applying `u`.
    pub open spec fn applied(self, next: BookModel, u: BookUpdate) -> bool {
        self.with_level(next, u.side, u.price, self.level_after(u))
    }

    /// Total quantity of a side fits a `u64`.
    pub open spec fn totals_fit(self) -> bool {
        qty_sum(self.bids) <= u64::MAX && qty_sum(self.asks) <= u64::MAX
    }
}

/// The other side of the book.
pub open spec fn opposite(side: BookSide) -> BookSide {
    match side {
        BookSide::Bid => BookSide::Ask,
        BookSide::Ask => BookSide::Bid,
    }
}

/// Order book rebuilt per price level (market by price).
#[derive(Debug, Clone, PartialEq, Eq)]
pub struct OrderBook {
    pub bids: Vec<(Px, Qty)>,
    pub asks: Vec<(Px, Qty)>,
}

impl View for OrderBook {
    type V = BookModel;

    open spec fn view(&self) -> BookModel {
        BookModel { bids: self.bids@, asks: self.asks@ }
    }
}

/// Sets level `price` of a sorted table to `level`, or removes it.
fn set_in_table(t: &mut Vec<(Px, Qty)>, price: Px, level: Option<Qty>)
    requires
        keys_sorted(old(t)@),
    ensures
        keys_sorted(final(t)@),
        forall|q: Px| #[trigger]
            lookup(final(t)@, q) == if q == price {
                level
            } else {
                lookup(old(t)@, q)
            },
{
    match find(t, price) {
        Ok(i) => {
            match level {
                Some(v) => {
                    proof {
                        lemma_update(t@, i as int, v);
                    }
                    t.set(i, (price, v));
                },
                None => {
                    proof {
                        lemma_remove(t@, i as int);
                    }
                    t.remove(i);
                },
            }
        },
        Err(i) => {
            match level {
                Some(v) => {
                    proof {
                        lemma_insert(t@, i as int, price, v);
                    }
                    t.insert(i, (price, v));
                },
                None => {
                    proof {
                        assert forall|q: Px| #[trigger] lookup(t@, q) == if q == price {
                            level
                        } else {
                            lookup(t@, q)
                        } by {
                            if q == price {
                                assert(!has_key(t@, price));
                            }
                        }
                    }
                },
            }
        },
    }
}

/// The level at `price` of a sorted table.
fn get_in_table(t: &Vec<(Px, Qty)>, price: Px) -> (r: Option<Qty>)
    requires
        keys_sorted(t@),
    ensures
        r == lookup(t@, price),
{
    match find(t, price) {
        Ok(i) => {
            proof {
                lemma_lookup_at(t@, i as int);
            }
            Some(t[i].1)
        },
        Err(_) => None,
    }
}

/// Sum of the quantities of a table.
fn sum_table(t: &Vec<(Px, Qty)>) -> (r: Qty)
    requires
        qty_sum(t@) <= u64::MAX,
    ensures
        r == qty_sum(t@),
{
    let mut r: u64 = 0;
    let mut i: usize = 0;
    while i < t.len()
        invariant
            i <= t@.len(),
            qty_sum(t@) <= u64::MAX,
            r == qty_sum(t@.subrange(0, i as int)),
        decreases t@.len() - i,
    {
        proof {
            let s = t@;
            assert(s.subrange(0, i as int + 1).drop_last() == s.subrange(0, i as int));
            lemma_qty_sum(s);
            lemma_qty_sum(s.subrange(0, i as int + 1));
            lemma_range_sum_ext(qty_weights(s), qty_weights(s.subrange(0, i as int + 1)), 0, i as int + 1);
            lemma_range_sum(qty_weights(s), 0, i as int + 1, s.len() as int);
        }
        r = r + t[i].1;
        i = i + 1;
    }
    assert(t@.subrange(0, i as int) == t@);
    r
}

/// Whether the total quantity of a table fits a `u64`.
fn sum_fits(t: &Vec<(Px, Qty)>) -> (r: bool)
    ensures
        r == (qty_sum(t@) <= u64::MAX),
{
    let mut acc: u64 = 0;
    let mut i: usize = 0;
    while i < t.len()
        invariant
            i <= t@.len(),
            acc == qty_sum(t@.subrange(0, i as int)),
        decreases t@.len() - i,
    {
        assert(t@.subrange(0, i as int + 1).drop_last() =~= t@.subrange(0, i as int));
        match acc.checked_add(t[i].1) {
            Some(a) => acc = a,
            None => {
                proof {
                    lemma_prefix_sum(t@, i as int + 1);
                }
                return false;
            },
        }
        i = i + 1;
    }
    assert(t@.subrange(0, i as int) =~= t@);
    true
}

/// A prefix of a table holds no more quantity than the whole table.
proof fn lemma_prefix_sum(s: Seq<(Px, Qty)>, k: int)
    requires
        0 <= k <= s.len(),
    ensures
        qty_sum(s.subrange(0, k)) <= qty_sum(s),
    decreases s.len(),
{
    if k == s.len() {
        assert(s.subrange(0, k) =~= s);
    } else {
        lemma_prefix_sum(s.drop_last(), k);
        assert(s.drop_last().subrange(0, k) =~= s.subrange(0, k));
    }
}

/// Whether integrating the book from `last_ts` up to `up_to` is free of overflow.
fn integration_fits(last_ts: Ts, up_to: Ts, book: &OrderBook) -> (r: bool)
    ensures
        r == (fits_i64(up_to - last_ts) && (up_to - last_ts > 0 ==> book@.totals_fit())),
{
    let d = (up_to as i128) - (last_ts as i128);
    let fits = (i64::MIN as i128) <= d && d <= (i64::MAX as i128);
    fits && (d <= 0 || (sum_fits(&book.bids) && sum_fits(&book.asks)))
}

impl OrderBook {
    /// An empty book.
    pub fn new() -> (b: Self)
        ensures
            b@.wf(),
            b@.bids == Seq::<(Px, Qty)>::empty(),
            b@.asks == Seq::<(Px, Qty)>::empty(),
    {
        OrderBook { bids: Vec::new(), asks: Vec::new() }
    }

    /// Empties the book (snapshot or resynchronisation).
    pub fn clear(&mut self)
        ensures
            final(self)@.wf(),
            final(self)@.bids == Seq::<(Px, Qty)>::empty(),
            final(self)@.asks == Seq::<(Px, Qty)>::empty(),
    {
        self.bids = Vec::new();
        self.asks = Vec::new();
    }

    /// A copy of the book.
    pub fn snapshot(&self) -> (b: Self)
        ensures
            b@ == self@,
    {
        OrderBook { bids: copy_table(&self.bids), asks: copy_table(&self.asks) }
    }

    /// Applies a book update. Returns an error on an integrity anomaly (a cancel
    /// that finds no level or takes it below zero, in which case the level is
    /// removed), without panicking.
    pub fn apply(&mut self, u: &BookUpdate) -> (r: Result<(), BookError>)
        requires
            old(self)@.wf(),
            old(self)@.accepts(*u),
        ensures
            old(self)@.applied(final(self)@, *u),
            r == old(self)@.apply_result(*u),
    {
        let table = match u.side {
            BookSide::Bid => &mut self.bids,
            BookSide::Ask => &mut self.asks,
        };
        let cur = get_in_table(table, u.price);
        match u.action {
            BookAction::Add => {
                let q = match cur {
                    Some(q) => q,
                    None => 0,
                };
                set_in_table(table, u.price, Some(q + u.size));
                Ok(())
            },
            BookAction::Modify => {
                if u.size == 0 {
                    set_in_table(table, u.price, None);
                } else {
                    set_in_table(table, u.price, Some(u.size));
                }
                Ok(())
            },
            BookAction::Cancel => {
                match cur {
                    Some(q) => {
                        if u.size >= q {
                            let underflow = u.size > q;
                            set_in_table(table, u.price, None);
                            if underflow {
                                return Err(BookError::NegativeLevel { side: u.side, price: u.price });
                            }
                        } else {
                            set_in_table(table, u.price, Some(q - u.size));
                        }
                        Ok(())
                    },
                    None => Err(BookError::NegativeLevel { side: u.side, price: u.price }),
                }
            },
        }
    }

    /// Best bid: the highest bid level.
    pub fn best_bid(&self) -> (r: Option<(Px, Qty)>)
        ensures
            r == if self@.bids.len() == 0 {
                None::<(Px, Qty)>
            } else {
                Some(self@.bids.last())
            },
    {
        if self.bids.len() == 0 {
            None
        } else {
            Some(self.bids[self.bids.len() - 1])
        }
    }

    /// Best ask: the lowest ask level.
    pub fn best_ask(&self) -> (r: Option<(Px, Qty)>)
        ensures
            r == if self@.asks.len() == 0 {
                None::<(Px, Qty)>
            } else {
                Some(self@.asks[0])
            },
    {
        if self.asks.len() == 0 {
            None
        } else {
            Some(self.asks[0])
        }
    }

    /// The first `n` levels of a side, from the best to the worst.
    pub fn depth(&self, side: BookSide, n: usize) -> (r: Vec<(Px, Qty)>)
        ensures
            r@.len() == if n < self@.side(side).len() {
                n as int
            } else {
                self@.side(side).len() as int
            },
            forall|i: int|
                0 <= i < r@.len() ==> #[trigger] r@[i] == match side {
                    BookSide::Bid => self@.bids[self@.bids.len() - 1 - i],
                    BookSide::Ask => self@.asks[i],
                },
    {
        let t = match side {
            BookSide::Bid => &self.bids,
            BookSide::Ask => &self.asks,
        };
        let len = t.len();
        let m = if n < len { n } else { len };
        let mut r: Vec<(Px, Qty)> = Vec::new();
        let mut i: usize = 0;
        while i < m
            invariant
                t@ == self@.side(side),
                len == t@.len(),
                m <= len,
                i <= m,
                r@.len() == i,
                forall|j: int|
                    0 <= j < i ==> #[trigger] r@[j] == match side {
                        BookSide::Bid => t@[len - 1 - j],
                        BookSide::Ask => t@[j],
                    },
            decreases m - i,
        {
            match side {
                BookSide::Bid => r.push(t[len - 1 - i]),
                BookSide::Ask => r.push(t[i]),
            }
            i = i + 1;
        }
        r
    }

    /// The book is crossed: best bid price at or above best ask price.
    pub fn is_crossed(&self) -> (c: bool)
        ensures
            c == (self@.bids.len() > 0 && self@.asks.len() > 0 && self@.bids.last().0 >= self@.asks[0].0),
    {
        match (self.best_bid(), self.best_ask()) {
            (Some((b, _)), Some((a, _))) => b >= a,
            _ => false,
        }
    }

    /// Sets the quantity of a level directly (`0` removes it); used to rebuild a
    /// book from a per-level snapshot.
    pub fn set_level(&mut self, side: BookSide, price: Px, qty: Qty)
        requires
            old(self)@.wf(),
        ensures
            old(self)@.with_level(final(self)@, side, price, if qty == 0 { None } else { Some(qty) }),
    {
        let table = match side {
            BookSide::Bid => &mut self.bids,
            BookSide::Ask => &mut self.asks,
        };
        if qty == 0 {
            set_in_table(table, price, None);
        } else {
            set_in_table(table, price, Some(qty));
        }
    }

    /// Total quantity of a side.
    pub fn total_qty(&self, side: BookSide) -> (r: Qty)
        requires
            qty_sum(self@.side(side)) <= u64::MAX,
        ensures
            r == qty_sum(self@.side(side)),
    {
        match side {
            BookSide::Bid => sum_table(&self.bids),
            BookSide::Ask => sum_table(&self.asks),
        }
    }
}

/// Every level of the side holds a positive quantity.
pub open spec fn levels_positive(s: Seq<(Px, Qty)>) -> bool {
    forall|i: int| 0 <= i < s.len() ==> #[trigger] s[i].1 > 0
}

/// A value found by `lookup` is stored at some index of the table.
proof fn lemma_lookup_found<V>(s: Seq<(Px, V)>, q: Px)
    requires
        keys_sorted(s),
        lookup(s, q) is Some,
    ensures
        exists|j: int| 0 <= j < s.len() && #[trigger] s[j] == (q, lookup(s, q).unwrap()),
{
    assert(has_key(s, q));
    let j = choose|i: int| 0 <= i < s.len() && #[trigger] s[i].0 == q;
    lemma_lookup_at(s, j);
    assert(s[j] == (s[j].0, s[j].1));
}

/// Law: the book never stores an empty level — when every level holds a
/// positive quantity, it still does after any update (whatever the result: a
/// level brought to zero is removed), provided an add brings a positive size.
pub proof fn lemma_levels_stay_positive(b: BookModel, u: BookUpdate, n: BookModel)
    requires
        b.wf(),
        levels_positive(b.bids),
        levels_positive(b.asks),
        b.accepts(u),
        b.applied(n, u),
        u.action is Add ==> u.size > 0,
    ensures
        levels_positive(n.bids),
        levels_positive(n.asks),
{
    let side = u.side;
    let ns = n.side(side);
    let bs = b.side(side);
    assert(levels_positive(bs));
    assert forall|i: int| 0 <= i < ns.len() implies #[trigger] ns[i].1 > 0 by {
        lemma_lookup_at(ns, i);
        let q = ns[i].0;
        if q == u.price {
            if let Some(c) = lookup(bs, q) {
                lemma_lookup_found(bs, q);
            }
        } else {
            lemma_lookup_found(bs, q);
            let j = choose|j: int| 0 <= j < bs.len() && #[trigger] bs[j] == (q, lookup(bs, q).unwrap());
            assert(bs[j].1 > 0);
        }
    }
    match side {
        BookSide::Bid => {
            assert(n.asks == b.asks);
        },
        BookSide::Ask => {
            assert(n.bids == b.bids);
        },
    }
}

/// Law: the best bid is the highest bid price and the best ask the lowest ask
/// price of a well-formed book.
pub proof fn lemma_best_levels(b: BookModel)
    requires
        b.wf(),
    ensures
        b.bids.len() > 0 ==> forall|i: int| 0 <= i < b.bids.len() ==> #[trigger] b.bids[i].0 <= b.bids.last().0,
        b.asks.len() > 0 ==> forall|i: int| 0 <= i < b.asks.len() ==> #[trigger] b.asks[i].0 >= b.asks[0].0,
{
    assert forall|i: int| 0 <= i < b.bids.len() implies #[trigger] b.bids[i].0 <= b.bids.last().0 by {
        if i < b.bids.len() - 1 {
            assert(b.bids[i].0 < b.bids[b.bids.len() - 1].0);
        }
    }
    assert forall|i: int| 0 <= i < b.asks.len() implies #[trigger] b.asks[i].0 >= b.asks[0].0 by {
        if i > 0 {
            assert(b.asks[0].0 < b.asks[i].0);
        }
    }
}

/// Law: adding a quantity and then cancelling the same quantity at the same
/// level restores the book, and reports no error (unless the level held a zero
/// quantity before: that zero level is then removed, so it is left out here).
pub proof fn lemma_add_then_cancel(b0: BookModel, b1: BookModel, b2: BookModel, u: BookUpdate, c: BookUpdate)
    requires
        b0.wf(),
        u.action is Add,
        c.action is Cancel,
        c.side == u.side,
        c.price == u.price,
        c.size == u.size,
        lookup(b0.side(u.side), u.price) != Some(0u64),
        b0.accepts(u),
        b0.applied(b1, u),
        b1.applied(b2, c),
    ensures
        b1.apply_result(c) is Ok,
        b2 =~= b0,
{
    let s = u.side;
    let q0 = lookup(b0.side(s), u.price);
    assert(lookup(b1.side(s), u.price) == b0.level_after(u));
    assert forall|q: Px| #[trigger] lookup(b2.side(s), q) == lookup(b0.side(s), q) by {
        if q == u.price {
            assert(lookup(b2.side(s), q) == b1.level_after(c));
            match lookup(b0.side(s), q) {
                Some(q0) => {
                    assert(q0 > 0);
                    assert(lookup(b1.side(s), q) == Some((q0 + u.size) as u64));
                },
                None => {
                    assert(lookup(b1.side(s), q) == Some(u.size));
                },
            }
        } else {
            assert(lookup(b2.side(s), q) == lookup(b1.side(s), q));
        }
    }
    lemma_table_ext(b2.side(s), b0.side(s));
    match s {
        BookSide::Bid => {},
        BookSide::Ask => {},
    }
}

// ---------------------------------------------------------------------------
// Liquidity profiles

/// Model of a liquidity profile.
#[verifier::ext_equal]
pub struct ProfileModel {
    pub start: int,
    pub end: int,
    pub open: BookModel,
    pub close: BookModel,
    pub add_volume: int,
    pub cancel_volume: int,
    pub bid_qty_time: int,
    pub ask_qty_time: int,
    pub duration: int,
    pub partial: bool,
}

/// Periodic liquidity profile: a summary of the book over a clock-aligned window
/// (the same bounds as the aggressive side's aligned time bars).
///
/// The time-weighted average quantity of a side is `*_qty_time / duration`.
#[derive(Debug, Clone, PartialEq, Eq)]
pub struct LiquidityProfile {
    pub start: Ts,
    pub end: Ts,
    /// The book when the window opened and when it closed.
    pub open: OrderBook,
    pub close: OrderBook,
    /// Churn: volume added and cancelled over the window.
    pub add_volume: Qty,
    pub cancel_volume: Qty,
    /// Integral over the window of the total bid quantity (quantity times ns).
    pub bid_qty_time: u128,
    /// Integral over the window of the total ask quantity (quantity times ns).
    pub ask_qty_time: u128,
    /// Averaging length: `max(end - start, 1)`.
    pub duration: i64,
    /// The window was closed by an end-of-stream flush and may be incomplete.
    pub partial: bool,
}

impl LiquidityProfile {
    /// Model of the profile.
    pub open spec fn model(self) -> ProfileModel {
        ProfileModel {
            start: self.start as int,
            end: self.end as int,
            open: self.open@,
            close: self.close@,
            add_volume: self.add_volume as int,
            cancel_volume: self.cancel_volume as int,
            bid_qty_time: self.bid_qty_time as int,
            ask_qty_time: self.ask_qty_time as int,
            duration: self.duration as int,
            partial: self.partial,
        }
    }
}

/// Model of the window being accumulated.
#[verifier::ext_equal]
pub struct WindowModel {
    pub start: int,
    pub end: int,
    pub open: BookModel,
    pub add_volume: int,
    pub cancel_volume: int,
    pub last_ts: int,
    pub acc_bid: int,
    pub acc_ask: int,
}

/// The window after integrating the book's totals over `[last_ts, up_to]`
/// (nothing when `up_to` is not after `last_ts`).
pub open spec fn integrated(w: WindowModel, book: BookModel, up_to: int) -> WindowModel {
    let dt = up_to - w.last_ts;
    if dt > 0 {
        WindowModel {
            acc_bid: w.acc_bid + qty_sum(book.bids) * dt,
            acc_ask: w.acc_ask + qty_sum(book.asks) * dt,
            last_ts: up_to,
            ..w
        }
    } else {
        w
    }
}

/// The profile that closes window `w` at `end` with the book `close`.
pub open spec fn finalized(w: WindowModel, close: BookModel, end: int, partial: bool) -> ProfileModel {
    ProfileModel {
        start: w.start,
        end,
        open: w.open,
        close,
        add_volume: w.add_volume,
        cancel_volume: w.cancel_volume,
        bid_qty_time: w.acc_bid,
        ask_qty_time: w.acc_ask,
        duration: if end - w.start >= 1 { end - w.start } else { 1 },
        partial,
    }
}

/// The clock-aligned window of length `len` holding `ts`, opened on `book`.
pub open spec fn opened_window(book: BookModel, ts: int, len: int) -> WindowModel {
    let start = crate::period::aligned_start(ts, len);
    WindowModel {
        start,
        end: start + len,
        open: book,
        add_volume: 0,
        cancel_volume: 0,
        last_ts: start,
        acc_bid: 0,
        acc_ask: 0,
    }
}

/// The window after counting the churn of `u`.
pub open spec fn churned(w: WindowModel, u: BookUpdate) -> WindowModel {
    match u.action {
        BookAction::Add => WindowModel { add_volume: w.add_volume + u.size, ..w },
        BookAction::Cancel => WindowModel { cancel_volume: w.cancel_volume + u.size, ..w },
        BookAction::Modify => w,
    }
}

/// Integrating up to `up_to` is free of overflow.
pub open spec fn integration_ok(w: WindowModel, book: BookModel, up_to: int) -> bool {
    &&& fits_i64(up_to - w.last_ts)
    &&& up_to - w.last_ts > 0 ==> book.totals_fit()
}

/// Counting the churn of `u` is free of overflow.
pub open spec fn churn_ok(w: WindowModel, u: BookUpdate) -> bool {
    &&& u.action is Add ==> w.add_volume + u.size <= u64::MAX
    &&& u.action is Cancel ==> w.cancel_volume + u.size <= u64::MAX
}

/// The liquidity window being integrated, as stored.
pub struct Window {
    pub start: Ts,
    pub end: Ts,
    pub open: OrderBook,
    pub add_volume: Qty,
    pub cancel_volume: Qty,
    pub last_ts: Ts,
    pub acc_bid: u128,
    pub acc_ask: u128,
}

impl Window {
    /// The window as a mathematical value.
    pub open spec fn model(self) -> WindowModel {
        WindowModel {
            start: self.start as int,
            end: self.end as int,
            open: self.open@,
            add_volume: self.add_volume as int,
            cancel_volume: self.cancel_volume as int,
            last_ts: self.last_ts as int,
            acc_bid: self.acc_bid as int,
            acc_ask: self.acc_ask as int,
        }
    }
}

/// A window of length `len` is internally consistent: its integrals are
/// bounded by the largest total quantity over the elapsed time.
pub open spec fn window_wf(w: WindowModel, len: int) -> bool {
    &&& len > 0
    &&& w.end == w.start + len
    &&& w.start <= w.last_ts <= w.end
    &&& 0 <= w.acc_bid <= u64::MAX * (w.last_ts - w.start)
    &&& 0 <= w.acc_ask <= u64::MAX * (w.last_ts - w.start)
    &&& 0 <= w.add_volume <= u64::MAX
    &&& 0 <= w.cancel_volume <= u64::MAX
    &&& fits_i64(w.start)
    &&& fits_i64(w.end)
    &&& w.open.wf()
}

/// Passive aggregator: maintains the order book and, when a window length is
/// configured, produces clock-aligned liquidity profiles.
pub struct PassiveAggregator {
    pub book: OrderBook,
    pub window_ns: Option<i64>,
    pub window: Option<Window>,
    pub closed: Vec<LiquidityProfile>,
}

impl PassiveAggregator {
    /// The current book.
    pub open spec fn book_view(self) -> BookModel {
        self.book@
    }

    /// Length of the profile windows, if profiles are on.
    pub open spec fn window_len(self) -> Option<i64> {
        self.window_ns
    }

    /// The window being accumulated.
    pub open spec fn current_window(self) -> Option<WindowModel> {
        match self.window {
            Some(w) => Some(w.model()),
            None => None,
        }
    }

    /// The closed profiles not yet drained, oldest first.
    pub open spec fn profiles(self) -> Seq<ProfileModel> {
        self.closed@.map_values(|p: LiquidityProfile| p.model())
    }

    /// Internal consistency.
    pub open spec fn wf(self) -> bool {
        &&& self.book@.wf()
        &&& self.window_ns matches Some(w) ==> w > 0
        &&& self.window matches Some(win) ==> (self.window_ns matches Some(w) && window_wf(win.model(), w as int))
    }

    /// Where the window and the closed profiles stand after `u`.
    pub open spec fn windows_after(self, u: BookUpdate) -> (Option<WindowModel>, Seq<ProfileModel>) {
        let book = self.book@;
        match self.window_ns {
            None => (self.current_window(), self.profiles()),
            Some(len) => {
                let crosses = match self.current_window() {
                    None => true,
                    Some(win) => u.ts >= win.end,
                };
                let closed = if crosses {
                    match self.current_window() {
                        Some(win) => self.profiles().push(finalized(integrated(win, book, win.end), book, win.end, false)),
                        None => self.profiles(),
                    }
                } else {
                    self.profiles()
                };
                let base = if crosses {
                    opened_window(book, u.ts as int, len as int)
                } else {
                    self.current_window().unwrap()
                };
                (Some(churned(integrated(base, book, u.ts as int), u)), closed)
            },
        }
    }

    /// `u` can be processed without arithmetic overflow.
    pub open spec fn accepts(self, u: BookUpdate) -> bool {
        let book = self.book@;
        &&& book.accepts(u)
        &&& self.window_ns matches Some(len) ==> {
            let crosses = match self.current_window() {
                None => true,
                Some(win) => u.ts >= win.end,
            };
            let start = crate::period::aligned_start(u.ts as int, len as int);
            &&& crosses ==> fits_i64(start) && fits_i64(start + len)
            &&& (crosses && self.current_window() is Some) ==> integration_ok(
                self.current_window().unwrap(),
                book,
                self.current_window().unwrap().end,
            )
            &&& {
                let base = if crosses {
                    opened_window(book, u.ts as int, len as int)
                } else {
                    self.current_window().unwrap()
                };
                &&& integration_ok(base, book, u.ts as int)
                &&& churn_ok(integrated(base, book, u.ts as int), u)
            }
        }
    }

    /// Whether `u` can be processed without arithmetic overflow.
    pub fn can_apply(&self, u: &BookUpdate) -> (r: bool)
        requires
            self.wf(),
        ensures
            r == self.accepts(*u),
    {
        let book_ok = match u.action {
            BookAction::Add => {
                let cur = match u.side {
                    BookSide::Bid => get_in_table(&self.book.bids, u.price),
                    BookSide::Ask => get_in_table(&self.book.asks, u.price),
                };
                let q = match cur {
                    Some(q) => q,
                    None => 0,
                };
                u.size <= u64::MAX - q
            },
            _ => true,
        };
        if !book_ok {
            return false;
        }
        match self.window_ns {
            None => true,
            Some(len) => {
                let crosses = match &self.window {
                    Some(win) => u.ts >= win.end,
                    None => true,
                };
                if crosses {
                    proof {
                        crate::period::lemma_floor_div(u.ts as int, len as int);
                    }
                    let k = match u.ts.checked_div_euclid(len) {
                        Some(k) => k,
                        None => 0,
                    };
                    proof {
                        assert(-0x8000_0000_0000_0000 * 0x7fff_ffff_ffff_ffff <= k * len
                            <= 0x8000_0000_0000_0000 * 0x7fff_ffff_ffff_ffff) by (nonlinear_arith)
                            requires
                                i64::MIN <= k <= i64::MAX,
                                0 < len <= i64::MAX,
                        ;
                    }
                    let start = (k as i128) * (len as i128);
                    let lo = i64::MIN as i128;
                    let hi = i64::MAX as i128;
                    if !(lo <= start && start <= hi && start + (len as i128) <= hi) {
                        return false;
                    }
                    let closing_ok = match &self.window {
                        Some(win) => integration_fits(win.last_ts, win.end, &self.book),
                        None => true,
                    };
                    closing_ok && integration_fits(start as i64, u.ts, &self.book)
                } else {
                    match &self.window {
                        Some(win) => {
                            let churn_ok = match u.action {
                                BookAction::Add => u.size <= u64::MAX - win.add_volume,
                                BookAction::Cancel => u.size <= u64::MAX - win.cancel_volume,
                                BookAction::Modify => true,
                            };
                            integration_fits(win.last_ts, u.ts, &self.book) && churn_ok
                        },
                        None => true,
                    }
                }
            },
        }
    }

    /// Book only, no periodic profiles.
    pub fn new() -> (p: Self)
        ensures
            p.wf(),
            p.book_view().bids.len() == 0,
            p.book_view().asks.len() == 0,
            p.window_len() is None,
            p.current_window() is None,
            p.profiles().len() == 0,
    {
        PassiveAggregator { book: OrderBook::new(), window_ns: None, window: None, closed: Vec::new() }
    }

    /// With periodic profiles over clock-aligned windows of `window_ns` (positive).
    pub fn with_window(window_ns: i64) -> (p: Self)
        requires
            window_ns > 0,
        ensures
            p.wf(),
            p.book_view().bids.len() == 0,
            p.book_view().asks.len() == 0,
            p.window_len() == Some(window_ns),
            p.current_window() is None,
            p.profiles().len() == 0,
    {
        PassiveAggregator {
            book: OrderBook::new(),
            window_ns: Some(window_ns),
            window: None,
            closed: Vec::new(),
        }
    }

    fn aligned_window(&self, ts: Ts, w: i64) -> (r: (Ts, Ts))
        requires
            w > 0,
            fits_i64(crate::period::aligned_start(ts as int, w as int)),
            fits_i64(crate::period::aligned_start(ts as int, w as int) + w),
        ensures
            r.0 == crate::period::aligned_start(ts as int, w as int),
            r.1 == r.0 + w,
    {
        proof {
            crate::period::lemma_floor_div(ts as int, w as int);
        }
        let k = match ts.checked_div_euclid(w) {
            Some(k) => k,
            None => 0,
        };
        let start = k * w;
        (start, start + w)
    }

    /// Integrates the book's totals over `[last_ts, up_to]`.
    fn integrate(win: &mut Window, book: &OrderBook, up_to: Ts, len: Ghost<int>)
        requires
            window_wf(old(win).model(), len@),
            book@.wf(),
            up_to <= old(win).end,
            integration_ok(old(win).model(), book@, up_to as int),
        ensures
            final(win).model() == integrated(old(win).model(), book@, up_to as int),
            window_wf(final(win).model(), len@),
    {
        if up_to > win.last_ts {
            let dt = up_to - win.last_ts;
            let b = book.total_qty(BookSide::Bid);
            let a = book.total_qty(BookSide::Ask);
            proof {
                let m = win.model();
                let d = dt as int;
                assert(d <= m.end - m.start);
                assert(m.end - m.start == len@);
                assert(len@ <= 0x7fff_ffff_ffff_ffff + 0x8000_0000_0000_0000);
                assert(0 <= b * d <= u64::MAX * d) by (nonlinear_arith)
                    requires
                        0 <= b <= u64::MAX,
                        d > 0,
                ;
                assert(0 <= a * d <= u64::MAX * d) by (nonlinear_arith)
                    requires
                        0 <= a <= u64::MAX,
                        d > 0,
                ;
                assert(u64::MAX * (m.last_ts - m.start) + u64::MAX * d == u64::MAX * (up_to - m.start)) by (nonlinear_arith)
                    requires
                        d == up_to - m.last_ts,
                ;
                assert(u64::MAX * (up_to - m.start) <= u64::MAX * len@) by (nonlinear_arith)
                    requires
                        up_to - m.start <= len@,
                ;
                assert(u64::MAX * len@ <= u64::MAX * 0xffff_ffff_ffff_ffff) by (nonlinear_arith)
                    requires
                        len@ <= 0xffff_ffff_ffff_ffff,
                ;
            }
            win.acc_bid = win.acc_bid + (b as u128) * (dt as u128);
            win.acc_ask = win.acc_ask + (a as u128) * (dt as u128);
            win.last_ts = up_to;
        }
    }

    fn finalize(&mut self, end: Ts, partial: bool)
        requires
            old(self).wf(),
            old(self).window is Some,
            end == old(self).current_window().unwrap().end,
        ensures
            final(self).wf(),
            final(self).current_window() is None,
            final(self).profiles() == old(self).profiles().push(
                finalized(old(self).current_window().unwrap(), old(self).book_view(), end as int, partial),
            ),
            final(self).book_view() == old(self).book_view(),
            final(self).window_len() == old(self).window_len(),
    {
        let mut taken: Option<Window> = None;
        core::mem::swap(&mut taken, &mut self.window);
        if let Some(win) = taken {
            let duration = if end - win.start >= 1 { end - win.start } else { 1 };
            let ghost old_closed = self.closed@;
            self.closed.push(LiquidityProfile {
                start: win.start,
                end,
                open: win.open,
                close: self.book.snapshot(),
                add_volume: win.add_volume,
                cancel_volume: win.cancel_volume,
                bid_qty_time: win.acc_bid,
                ask_qty_time: win.acc_ask,
                duration,
                partial,
            });
            proof {
                assert(self.closed@.map_values(|p: LiquidityProfile| p.model()) =~= old_closed.map_values(
                    |p: LiquidityProfile| p.model(),
                ).push(finalized(win.model(), self.book@, end as int, partial)));
            }
        }
    }

    /// Applies a book update to the book and feeds the current window's profile.
    pub fn apply(&mut self, u: &BookUpdate) -> (r: Result<(), BookError>)
        requires
            old(self).wf(),
            old(self).accepts(*u),
        ensures
            final(self).wf(),
            old(self).book_view().applied(final(self).book_view(), *u),
            r == old(self).book_view().apply_result(*u),
            (final(self).current_window(), final(self).profiles()) == old(self).windows_after(*u),
            final(self).window_len() == old(self).window_len(),
            old(self).steps_to(*u, *final(self)),
    {
        if let Some(w) = self.window_ns {
            let crosses = match &self.window {
                Some(win) => u.ts >= win.end,
                None => true,
            };
            if crosses {
                if self.window.is_some() {
                    let mut taken: Option<Window> = None;
                    core::mem::swap(&mut taken, &mut self.window);
                    let mut win = taken.unwrap();
                    let end = win.end;
                    PassiveAggregator::integrate(&mut win, &self.book, end, Ghost(w as int));
                    self.window = Some(win);
                    self.finalize(end, false);
                }
                let (start, end) = self.aligned_window(u.ts, w);
                proof {
                    crate::period::lemma_floor_div(u.ts as int, w as int);
                }
                self.window = Some(Window {
                    start,
                    end,
                    open: self.book.snapshot(),
                    add_volume: 0,
                    cancel_volume: 0,
                    last_ts: start,
                    acc_bid: 0,
                    acc_ask: 0,
                });
            }
            let mut taken: Option<Window> = None;
            core::mem::swap(&mut taken, &mut self.window);
            let mut win = taken.unwrap();
            PassiveAggregator::integrate(&mut win, &self.book, u.ts, Ghost(w as int));
            match u.action {
                BookAction::Add => win.add_volume = win.add_volume + u.size,
                BookAction::Cancel => win.cancel_volume = win.cancel_volume + u.size,
                BookAction::Modify => {},
            }
            self.window = Some(win);
        }
        self.book.apply(u)
    }

    /// Closes the current window (end-of-stream flush); its profile is partial.
    pub fn finish(&mut self)
        requires
            old(self).wf(),
        ensures
            final(self).wf(),
            final(self).current_window() is None,
            final(self).profiles() == match old(self).current_window() {
                Some(win) => old(self).profiles().push(
                    finalized(win, old(self).book_view(), win.end, true),
                ),
                None => old(self).profiles(),
            },
            final(self).book_view() == old(self).book_view(),
            final(self).window_len() == old(self).window_len(),
            old(self).flushed_to(*final(self)),
    {
        if self.window.is_some() {
            let mut taken: Option<Window> = None;
            core::mem::swap(&mut taken, &mut self.window);
            let mut win = taken.unwrap();
            let last = if win.last_ts >= win.start { win.last_ts } else { win.start };
            let ghost len = match self.window_ns {
                Some(w) => w as int,
                None => 0,
            };
            PassiveAggregator::integrate(&mut win, &self.book, last, Ghost(len));
            let end = win.end;
            self.window = Some(win);
            self.finalize(end, true);
        }
    }

    /// Takes the closed profiles, oldest first, leaving none.
    pub fn drain_profiles(&mut self) -> (r: Vec<LiquidityProfile>)
        requires
            old(self).wf(),
        ensures
            final(self).wf(),
            r@.map_values(|p: LiquidityProfile| p.model()) == old(self).profiles(),
            final(self).profiles().len() == 0,
            final(self).book_view() == old(self).book_view(),
            final(self).current_window() == old(self).current_window(),
            final(self).window_len() == old(self).window_len(),
    {
        let mut out: Vec<LiquidityProfile> = Vec::new();
        core::mem::swap(&mut out, &mut self.closed);
        out
    }

    /// The current book.
    pub fn book(&self) -> (b: &OrderBook)
        ensures
            b@ == self.book_view(),
    {
        &self.book
    }

    /// Replaces the book by a full snapshot (for per-level snapshot feeds); the
    /// window and the profiles are left as they are.
    pub fn replace_book(&mut self, book: OrderBook)
        requires
            old(self).wf(),
            book@.wf(),
        ensures
            final(self).wf(),
            final(self).book_view() == book@,
            final(self).current_window() == old(self).current_window(),
            final(self).profiles() == old(self).profiles(),
            final(self).window_len() == old(self).window_len(),
    {
        self.book = book;
    }
}

impl PassiveAggregator {
    /// `q` is this aggregator after `apply(u)`: the book takes the update, the
    /// window and the closed profiles move as `windows_after` says.
    pub open spec fn steps_to(self, u: BookUpdate, q: PassiveAggregator) -> bool {
        &&& q.wf()
        &&& self.book_view().applied(q.book_view(), u)
        &&& (q.current_window(), q.profiles()) == self.windows_after(u)
        &&& q.window_len() == self.window_len()
    }

    /// `q` is this aggregator after `finish()`: the current window, if any,
    /// closes as a partial profile appended after the others; the book stays.
    pub open spec fn flushed_to(self, q: PassiveAggregator) -> bool {
        &&& q.wf()
        &&& q.current_window() is None
        &&& q.profiles() == match self.current_window() {
            Some(win) => self.profiles().push(finalized(win, self.book_view(), win.end, true)),
            None => self.profiles(),
        }
        &&& q.book_view() == self.book_view()
        &&& q.window_len() == self.window_len()
    }
}

/// Law: fed from a state with profiles on and no window yet, with book updates
/// in non-decreasing time, the passive side's current window is the
/// clock-aligned window that holds the last update's time.
pub proof fn lemma_window_of_last_update(ps: Seq<PassiveAggregator>, us: Seq<BookUpdate>, w: i64)
    requires
        w > 0,
        us.len() > 0,
        ps.len() == us.len() + 1,
        ps[0].window_len() == Some(w),
        ps[0].current_window() is None,
        forall|i: int| 0 <= i < us.len() ==> #[trigger] ps[i].steps_to(us[i], ps[i + 1]),
        forall|i: int, j: int| 0 <= i <= j < us.len() ==> us[i].ts <= us[j].ts,
    ensures
        ps.last().window_len() == Some(w),
        (ps.last().current_window() matches Some(win) && win.start == crate::period::aligned_start(
            us.last().ts as int,
            w as int,
        ) && win.end == win.start + w),
    decreases us.len(),
{
    let n = us.len() - 1;
    let u = us[n];
    let p = ps[n];
    assert(ps[n].steps_to(us[n], ps[n + 1]));
    let ii = w as int;
    if n == 0 {
        assert(p.window_len() == Some(w));
    } else {
        let ps0 = ps.drop_last();
        let us0 = us.drop_last();
        assert forall|i: int| 0 <= i < us0.len() implies #[trigger] ps0[i].steps_to(us0[i], ps0[i + 1]) by {
            assert(ps[i].steps_to(us[i], ps[i + 1]));
        }
        assert forall|i: int, j: int| 0 <= i <= j < us0.len() implies us0[i].ts <= us0[j].ts by {
            assert(us[i].ts <= us[j].ts);
        }
        lemma_window_of_last_update(ps0, us0, w);
        assert(ps0.last() == p);
        let win = p.current_window().unwrap();
        let l = us[n - 1].ts as int;
        assert(us[n - 1].ts <= us[n].ts);
        if u.ts < win.end {
            let k = l / ii;
            crate::period::lemma_floor_div(l, ii);
            crate::period::lemma_floor_div(u.ts as int, ii);
            let m = (u.ts as int) / ii;
            assert(k * ii <= u.ts < (k + 1) * ii) by (nonlinear_arith)
                requires
                    k * ii <= l,
                    l <= u.ts,
                    u.ts < k * ii + ii,
            ;
            assert(m == k) by (nonlinear_arith)
                requires
                    k * ii <= u.ts < (k + 1) * ii,
                    m * ii <= u.ts < (m + 1) * ii,
                    ii > 0,
            ;
        }
    }
}

/// Law: the end-of-stream flush of the passive side closes the window of the
/// last applied update. Fed as in `lemma_window_of_last_update`, the flush
/// appends, after all earlier profiles, one profile of the clock-aligned window
/// holding the last update's time, marked partial, whose closing book is the
/// current book; the book is left as it is.
pub proof fn lemma_flush_closes_last_window(
    ps: Seq<PassiveAggregator>,
    us: Seq<BookUpdate>,
    w: i64,
    q: PassiveAggregator,
)
    requires
        w > 0,
        us.len() > 0,
        ps.len() == us.len() + 1,
        ps[0].window_len() == Some(w),
        ps[0].current_window() is None,
        forall|i: int| 0 <= i < us.len() ==> #[trigger] ps[i].steps_to(us[i], ps[i + 1]),
        forall|i: int, j: int| 0 <= i <= j < us.len() ==> us[i].ts <= us[j].ts,
        ps.last().flushed_to(q),
    ensures
        q.profiles().len() == ps.last().profiles().len() + 1,
        q.profiles().drop_last() == ps.last().profiles(),
        q.profiles().last().start == crate::period::aligned_start(us.last().ts as int, w as int),
        q.profiles().last().end == q.profiles().last().start + w,
        q.profiles().last().partial,
        q.profiles().last().close == ps.last().book_view(),
        q.book_view() == ps.last().book_view(),
        q.current_window() is None,
{
    lemma_window_of_last_update(ps, us, w);
    assert(q.profiles().drop_last() =~= ps.last().profiles());
}

/// Law: a second flush of the passive side appends nothing.
pub proof fn lemma_second_flush_appends_nothing(p: PassiveAggregator, q: PassiveAggregator, r: PassiveAggregator)
    requires
        p.flushed_to(q),
        q.flushed_to(r),
    ensures
        r.profiles() == q.profiles(),
        r.book_view() == p.book_view(),
{
}

/// Law: without profiles (as from `PassiveAggregator::new()`), no window ever
/// opens, so the end-of-stream flush appends nothing and keeps the book.
pub proof fn lemma_no_window_no_profile(ps: Seq<PassiveAggregator>, us: Seq<BookUpdate>, q: PassiveAggregator)
    requires
        ps.len() == us.len() + 1,
        ps[0].window_len() is None,
        ps[0].current_window() is None,
        forall|i: int| 0 <= i < us.len() ==> #[trigger] ps[i].steps_to(us[i], ps[i + 1]),
        ps.last().flushed_to(q),
    ensures
        ps.last().current_window() is None,
        ps.last().profiles() == ps[0].profiles(),
        q.profiles() == ps[0].profiles(),
        q.book_view() == ps.last().book_view(),
{
    lemma_no_window_stays(ps, us);
    assert(ps.last() == ps[us.len() as int]);
}

/// Without profiles, the window stays closed and the profiles stay as they
/// were along any run of updates.
proof fn lemma_no_window_stays(ps: Seq<PassiveAggregator>, us: Seq<BookUpdate>)
    requires
        ps.len() == us.len() + 1,
        ps[0].window_len() is None,
        ps[0].current_window() is None,
        forall|i: int| 0 <= i < us.len() ==> #[trigger] ps[i].steps_to(us[i], ps[i + 1]),
    ensures
        ps[us.len() as int].window_len() is None,
        ps[us.len() as int].current_window() is None,
        ps[us.len() as int].profiles() == ps[0].profiles(),
    decreases us.len(),
{
    if us.len() > 0 {
        let n = us.len() - 1;
        let ps0 = ps.drop_last();
        let us0 = us.drop_last();
        assert forall|i: int| 0 <= i < us0.len() implies #[trigger] ps0[i].steps_to(us0[i], ps0[i + 1]) by {
            assert(ps[i].steps_to(us[i], ps[i + 1]));
        }
        lemma_no_window_stays(ps0, us0);
        assert(ps0[n] == ps[n]);
        assert(ps[n].steps_to(us[n], ps[n + 1]));
    }
}

/// Law: the churn of a liquidity window counts the sizes of the updates it
/// receives: an add grows the window's added volume by its size, a cancel its
/// cancelled volume by its size, a modify neither. An update inside the current
/// window grows that window; one that opens a new window starts it from this
/// update alone.
pub proof fn lemma_churn_counts_updates(p: PassiveAggregator, u: BookUpdate)
    requires
        p.wf(),
        p.window_len() is Some,
    ensures
        p.windows_after(u).0 matches Some(w2) && ({
            let added = if u.action is Add { u.size as int } else { 0 };
            let cancelled = if u.action is Cancel { u.size as int } else { 0 };
            match p.current_window() {
                Some(w) => if u.ts < w.end {
                    &&& w2.add_volume == w.add_volume + added
                    &&& w2.cancel_volume == w.cancel_volume + cancelled
                    &&& w2.start == w.start && w2.end == w.end
                } else {
                    &&& w2.add_volume == added
                    &&& w2.cancel_volume == cancelled
                },
                None => {
                    &&& w2.add_volume == added
                    &&& w2.cancel_volume == cancelled
                },
            }
        }),
{
}

/// Law: each book action sets the level it names as the exchange means it. An
/// add raises the level by its size (from zero when there is none); a modify
/// sets the level to its size, and removes it when the size is zero; a cancel
/// lowers the level by its size, and removes it when nothing would be left.
/// The other levels and the other side are unchanged.
pub proof fn lemma_book_actions(b: BookModel, u: BookUpdate, n: BookModel)
    requires
        b.applied(n, u),
    ensures
        u.action is Add ==> lookup(n.side(u.side), u.price) == Some(
            (lookup_or(b.side(u.side), u.price, 0u64) + u.size) as u64,
        ),
        u.action is Modify ==> lookup(n.side(u.side), u.price) == if u.size == 0 {
            None::<Qty>
        } else {
            Some(u.size)
        },
        u.action is Cancel ==> lookup(n.side(u.side), u.price) == match lookup(b.side(u.side), u.price) {
            Some(q) => if u.size >= q {
                None::<Qty>
            } else {
                Some((q - u.size) as u64)
            },
            None => None::<Qty>,
        },
        forall|q: Px| q != u.price ==> #[trigger] lookup(n.side(u.side), q) == lookup(b.side(u.side), q),
        n.side(opposite(u.side)) == b.side(opposite(u.side)),
{
    assert(lookup(n.side(u.side), u.price) == b.level_after(u));
}

/// A book update gives the same book from the same book.
pub proof fn lemma_applied_unique(b: BookModel, u: BookUpdate, n1: BookModel, n2: BookModel)
    requires
        b.applied(n1, u),
        b.applied(n2, u),
    ensures
        n1 == n2,
{
    assert forall|q: Px| #[trigger] lookup(n1.side(u.side), q) == lookup(n2.side(u.side), q) by {
        assert(lookup(n1.side(u.side), q) == lookup(n1.side(u.side), q));
    }
    lemma_table_ext(n1.side(u.side), n2.side(u.side));
    assert(n1 =~= n2);
}

impl PassiveAggregator {
    /// The two aggregators have the same book, window and closed profiles.
    pub open spec fn same_model(self, other: PassiveAggregator) -> bool {
        &&& self.book_view() == other.book_view()
        &&& self.window_len() == other.window_len()
        &&& self.current_window() == other.current_window()
        &&& self.profiles() == other.profiles()
    }

    /// What an update does to the window and the profiles depends on the model only.
    pub proof fn lemma_windows_after_model(self, other: PassiveAggregator, u: BookUpdate)
        requires
            self.same_model(other),
        ensures
            self.windows_after(u) == other.windows_after(u),
            self.accepts(u) == other.accepts(u),
    {
    }
}

} // verus!
