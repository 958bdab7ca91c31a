//! Order-flow lenses attached to a bar: each is an accumulator fed with the
//! bar's trades.
use vstd::prelude::*;

use crate::canonical::{AggressorSide, Px, Qty, Trade, Ts};
use crate::levels::{
    find, has_key, keys_sorted, lemma_insert, lemma_lookup_at, lemma_table_ext, lemma_update, lookup,
    lookup_or,
};
use crate::period::{fits_i64, fits_i128, lemma_notional_fits, notional_of};
use crate::streams::{size_of, total_of};

verus! {

/// Common contract of an order-flow lens.
pub trait BarComponent: Sized {
    /// The internal state is consistent.
    spec fn wf(&self) -> bool;

    /// The trade can be integrated without arithmetic overflow.
    spec fn accepts(&self, t: Trade) -> bool;

    /// `next` is this lens after integrating `t`.
    spec fn absorbs(&self, t: Trade, next: Self) -> bool;

    /// Integrates a trade.
    fn on_trade(&mut self, t: &Trade)
        requires
            old(self).wf(),
            old(self).accepts(*t),
        ensures
            final(self).wf(),
            old(self).absorbs(*t, *final(self)),
    ;

    /// Whether `t` can be integrated without arithmetic overflow.
    fn can_take(&self, t: &Trade) -> (r: bool)
        requires
            self.wf(),
        ensures
            r == self.accepts(*t),
    ;

    /// Finalises the lens when its bar closes; the lenses here keep their state.
    fn on_close(&mut self)
        ensures
            *final(self) == *old(self),
    {
    }
}

/// A copy of a table of `Copy` entries.
pub fn copy_table<V: Copy>(v: &Vec<(Px, V)>) -> (r: Vec<(Px, V)>)
    ensures
        r@ == v@,
{
    let mut r: Vec<(Px, V)> = Vec::new();
    let mut i: usize = 0;
    while i < v.len()
        invariant
            i <= v@.len(),
            r@ == v@.subrange(0, i as int),
        decreases v@.len() - i,
    {
        r.push(v[i]);
        i = i + 1;
    }
    assert(v@.subrange(0, v@.len() as int) == v@);
    r
}

// ---------------------------------------------------------------------------
// Footprint

/// Footprint: volume per `(price, aggressor side)` within the bar.
///
/// A trade of unknown side is attributed to neither side: its price gets a cell
/// (possibly `(0, 0)`), but its quantity is counted only elsewhere.
#[derive(Debug, Clone, PartialEq, Eq)]
pub struct Footprint {
    /// `price -> (aggressive buy volume, aggressive sell volume)`, by increasing price.
    pub cells: Vec<(Px, (Qty, Qty))>,
}

/// The cell `c` after adding trade `t` on its aggressor side.
pub open spec fn cell_with(c: (Qty, Qty), t: Trade) -> (Qty, Qty) {
    match t.aggressor {
        AggressorSide::Buy => ((c.0 + t.size) as u64, c.1),
        AggressorSide::Sell => (c.0, (c.1 + t.size) as u64),
        AggressorSide::Unknown => c,
    }
}

/// Adding `t` to cell `c` does not overflow.
pub open spec fn cell_accepts(c: (Qty, Qty), t: Trade) -> bool {
    match t.aggressor {
        AggressorSide::Buy => c.0 + t.size <= u64::MAX,
        AggressorSide::Sell => c.1 + t.size <= u64::MAX,
        AggressorSide::Unknown => true,
    }
}

impl View for Footprint {
    type V = Seq<(Px, (Qty, Qty))>;

    open spec fn view(&self) -> Seq<(Px, (Qty, Qty))> {
        self.cells@
    }
}

impl Footprint {
    /// An empty footprint.
    pub fn new() -> (f: Self)
        ensures
            f.wf(),
            f@ == Seq::<(Px, (Qty, Qty))>::empty(),
    {
        Footprint { cells: Vec::new() }
    }

    /// The cell `(buy, sell)` at a price; `(0, 0)` where there is none.
    pub fn cell(&self, price: Px) -> (c: (Qty, Qty))
        requires
            self.wf(),
        ensures
            c == lookup_or(self@, price, (0u64, 0u64)),
    {
        match find(&self.cells, price) {
            Ok(i) => {
                proof {
                    lemma_lookup_at(self.cells@, i as int);
                }
                self.cells[i].1
            },
            Err(_) => (0, 0),
        }
    }

    /// The cells by increasing price.
    pub fn iter(&self) -> (v: Vec<(Px, (Qty, Qty))>)
        ensures
            v@ == self@,
            self.wf() ==> keys_sorted(v@),
    {
        copy_table(&self.cells)
    }

    /// Fixed-width window indexed by tick offset around an anchor.
    ///
    /// Returns `2*half_width + 1` cells `(buy, sell)`, from the price
    /// `anchor - half_width*tick_size` (index `0`) to `anchor + half_width*tick_size`
    /// (last index); the anchor is at index `half_width`. Missing cells are `(0, 0)`.
    pub fn window(&self, anchor: Px, tick_size: Px, half_width: usize) -> (w: Vec<(Qty, Qty)>)
        requires
            self.wf(),
            tick_size > 0,
            2 * half_width + 1 <= usize::MAX,
            half_width <= i64::MAX,
            fits_i64(2 * half_width * tick_size),
            fits_i64(anchor - half_width * tick_size),
            fits_i64(anchor + half_width * tick_size),
        ensures
            w@.len() == 2 * half_width + 1,
            forall|i: int|
                0 <= i < w@.len() ==> #[trigger] w@[i] == lookup_or(
                    self@,
                    (anchor + (i - half_width) * tick_size) as i64,
                    (0u64, 0u64),
                ),
    {
        let n = 2 * half_width + 1;
        proof {
            assert(0 <= half_width * tick_size) by (nonlinear_arith)
                requires
                    half_width >= 0,
                    tick_size > 0,
            ;
        }
        proof {
            assert(half_width * tick_size <= 2 * half_width * tick_size) by (nonlinear_arith)
                requires
                    half_width >= 0,
                    tick_size > 0,
            ;
        }
        let start = anchor - (half_width as i64) * tick_size;
        let mut w: Vec<(Qty, Qty)> = Vec::new();
        let mut i: usize = 0;
        while i < n
            invariant
                self.wf(),
                tick_size > 0,
                n == 2 * half_width + 1,
                start == anchor - half_width * tick_size,
                fits_i64(anchor + half_width * tick_size),
                fits_i64(2 * half_width * tick_size),
                fits_i64(start as int),
                i <= n,
                w@.len() == i,
                forall|j: int|
                    0 <= j < i ==> #[trigger] w@[j] == lookup_or(
                        self@,
                        (anchor + (j - half_width) * tick_size) as i64,
                        (0u64, 0u64),
                    ),
            decreases n - i,
        {
            proof {
                assert(0 <= i <= i * tick_size <= 2 * half_width * tick_size) by (nonlinear_arith)
                    requires
                        0 <= i <= 2 * half_width,
                        tick_size > 0,
                ;
                assert(start + i * tick_size == anchor + (i - half_width) * tick_size) by (nonlinear_arith)
                    requires
                        start == anchor - half_width * tick_size,
                ;
                assert(2 * half_width * tick_size == 2 * (half_width * tick_size)) by (nonlinear_arith);
            }
            let p = start + (i as i64) * tick_size;
            let c = self.cell(p);
            w.push(c);
            i = i + 1;
        }
        w
    }
}

impl BarComponent for Footprint {
    open spec fn wf(&self) -> bool {
        keys_sorted(self.cells@)
    }

    open spec fn accepts(&self, t: Trade) -> bool {
        cell_accepts(lookup_or(self.cells@, t.price, (0u64, 0u64)), t)
    }

    open spec fn absorbs(&self, t: Trade, next: Self) -> bool {
        forall|q: Px| #[trigger]
            lookup(next.cells@, q) == if q == t.price {
                Some(cell_with(lookup_or(self.cells@, t.price, (0u64, 0u64)), t))
            } else {
                lookup(self.cells@, q)
            }
    }

    fn can_take(&self, t: &Trade) -> (r: bool) {
        let c = self.cell(t.price);
        match t.aggressor {
            AggressorSide::Buy => t.size <= u64::MAX - c.0,
            AggressorSide::Sell => t.size <= u64::MAX - c.1,
            AggressorSide::Unknown => true,
        }
    }

    fn on_trade(&mut self, t: &Trade) {
        match find(&self.cells, t.price) {
            Ok(i) => {
                proof {
                    lemma_lookup_at(self.cells@, i as int);
                    lemma_update(
                        self.cells@,
                        i as int,
                        cell_with(lookup_or(self.cells@, t.price, (0u64, 0u64)), *t),
                    );
                }
                let (b, s) = self.cells[i].1;
                let c = match t.aggressor {
                    AggressorSide::Buy => (b + t.size, s),
                    AggressorSide::Sell => (b, s + t.size),
                    AggressorSide::Unknown => (b, s),
                };
                self.cells.set(i, (t.price, c));
            },
            Err(i) => {
                proof {
                    lemma_insert(self.cells@, i as int, t.price, cell_with((0u64, 0u64), *t));
                }
                let c = match t.aggressor {
                    AggressorSide::Buy => (t.size, 0),
                    AggressorSide::Sell => (0, t.size),
                    AggressorSide::Unknown => (0, 0),
                };
                self.cells.insert(i, (t.price, c));
            },
        }
    }
}

impl Footprint {
    /// The footprint's table is sorted by price.
    pub open spec fn is_wf(self) -> bool {
        self.wf()
    }
}

// ---------------------------------------------------------------------------
// Delta and cumulative delta

/// Delta of a bar: aggressive buy volume minus aggressive sell volume; trades of
/// unknown side count for nothing.
#[derive(Debug, Clone, Copy, PartialEq, Eq)]
pub struct Delta {
    pub value: i64,
}

/// Signed delta contribution of a trade, its size read as an `i64`.
pub open spec fn delta_of(t: Trade) -> int {
    match t.aggressor {
        AggressorSide::Buy => (t.size as i64) as int,
        AggressorSide::Sell => -((t.size as i64) as int),
        AggressorSide::Unknown => 0,
    }
}

impl Delta {
    /// A zero delta.
    pub fn new() -> (d: Self)
        ensures
            d.amount() == 0,
    {
        Delta { value: 0 }
    }

    /// The delta.
    pub open spec fn amount(self) -> int {
        self.value as int
    }

    /// The delta.
    pub fn value(&self) -> (v: i64)
        ensures
            v == self.amount(),
    {
        self.value
    }
}

impl BarComponent for Delta {
    open spec fn wf(&self) -> bool {
        true
    }

    open spec fn accepts(&self, t: Trade) -> bool {
        fits_i64(self.value + delta_of(t))
    }

    open spec fn absorbs(&self, t: Trade, next: Self) -> bool {
        next.value == self.value + delta_of(t)
    }

    fn can_take(&self, t: &Trade) -> (r: bool) {
        let x = t.size as i64;
        match t.aggressor {
            AggressorSide::Buy => self.value.checked_add(x).is_some(),
            AggressorSide::Sell => self.value.checked_sub(x).is_some(),
            AggressorSide::Unknown => true,
        }
    }

    fn on_trade(&mut self, t: &Trade) {
        match t.aggressor {
            AggressorSide::Buy => self.value = self.value + t.size as i64,
            AggressorSide::Sell => self.value = self.value - t.size as i64,
            AggressorSide::Unknown => {},
        }
    }
}

/// Cumulative delta across bars: fed with the delta of each closed bar.
#[derive(Debug, Clone, Copy, PartialEq, Eq)]
pub struct Cvd {
    pub cumulative: i64,
}

impl Cvd {
    /// A zero cumulative delta.
    pub fn new() -> (c: Self)
        ensures
            c.total() == 0,
    {
        Cvd { cumulative: 0 }
    }

    /// The cumulative delta.
    pub open spec fn total(self) -> int {
        self.cumulative as int
    }

    /// Adds the delta of a bar and returns the running total.
    pub fn push_bar_delta(&mut self, bar_delta: i64) -> (r: i64)
        requires
            fits_i64(old(self).total() + bar_delta),
        ensures
            final(self).total() == old(self).total() + bar_delta,
            r == final(self).total(),
    {
        self.cumulative = self.cumulative + bar_delta;
        self.cumulative
    }

    /// The cumulative delta.
    pub fn value(&self) -> (v: i64)
        ensures
            v == self.total(),
    {
        self.cumulative
    }
}

// ---------------------------------------------------------------------------
// Trade count

/// Number of trades per aggressor side; trades of unknown side are not counted.
#[derive(Debug, Clone, Copy, PartialEq, Eq)]
pub struct TradeCount {
    pub buy: u64,
    pub sell: u64,
}

impl TradeCount {
    /// No trade counted.
    pub fn new() -> (c: Self)
        ensures
            c.buys() == 0,
            c.sells() == 0,
    {
        TradeCount { buy: 0, sell: 0 }
    }

    /// Number of aggressive buys.
    pub open spec fn buys(self) -> int {
        self.buy as int
    }

    /// Number of aggressive sells.
    pub open spec fn sells(self) -> int {
        self.sell as int
    }

    /// Number of aggressive buys.
    pub fn buy(&self) -> (n: u64)
        ensures
            n == self.buys(),
    {
        self.buy
    }

    /// Number of aggressive sells.
    pub fn sell(&self) -> (n: u64)
        ensures
            n == self.sells(),
    {
        self.sell
    }

    /// Buys plus sells.
    pub fn total(&self) -> (n: u64)
        requires
            self.buys() + self.sells() <= u64::MAX,
        ensures
            n == self.buys() + self.sells(),
    {
        self.buy + self.sell
    }

    /// `(buy_count, sell_count)`.
    pub fn pair(&self) -> (p: (u64, u64))
        ensures
            p.0 == self.buys(),
            p.1 == self.sells(),
    {
        (self.buy, self.sell)
    }
}

impl BarComponent for TradeCount {
    open spec fn wf(&self) -> bool {
        true
    }

    open spec fn accepts(&self, t: Trade) -> bool {
        match t.aggressor {
            AggressorSide::Buy => self.buy < u64::MAX,
            AggressorSide::Sell => self.sell < u64::MAX,
            AggressorSide::Unknown => true,
        }
    }

    open spec fn absorbs(&self, t: Trade, next: Self) -> bool {
        &&& next.buy == self.buy + if t.aggressor is Buy { 1int } else { 0 }
        &&& next.sell == self.sell + if t.aggressor is Sell { 1int } else { 0 }
    }

    fn can_take(&self, t: &Trade) -> (r: bool) {
        match t.aggressor {
            AggressorSide::Buy => self.buy < u64::MAX,
            AggressorSide::Sell => self.sell < u64::MAX,
            AggressorSide::Unknown => true,
        }
    }

    fn on_trade(&mut self, t: &Trade) {
        match t.aggressor {
            AggressorSide::Buy => self.buy = self.buy + 1,
            AggressorSide::Sell => self.sell = self.sell + 1,
            AggressorSide::Unknown => {},
        }
    }
}

// ---------------------------------------------------------------------------
// VWAP

/// Volume-weighted average price of a bar, over all trades whatever their side:
/// kept as the exact sums `sum(price * size)` and `sum(size)`.
#[derive(Debug, Clone, Copy, PartialEq, Eq)]
pub struct Vwap {
    pub num: i128,
    pub den: u128,
}

impl Vwap {
    /// No volume yet.
    pub fn new() -> (v: Self)
        ensures
            v.numerator() == 0,
            v.denominator() == 0,
    {
        Vwap { num: 0, den: 0 }
    }

    /// `sum(price * size)` over the trades.
    pub open spec fn numerator(self) -> int {
        self.num as int
    }

    /// `sum(size)` over the trades.
    pub open spec fn denominator(self) -> int {
        self.den as int
    }

    /// The two sums `(sum(price * size), sum(size))`; the VWAP is their quotient
    /// when the volume is not zero.
    pub fn parts(&self) -> (r: (i128, u128))
        ensures
            r.0 == self.numerator(),
            r.1 == self.denominator(),
    {
        (self.num, self.den)
    }
}

impl BarComponent for Vwap {
    open spec fn wf(&self) -> bool {
        true
    }

    open spec fn accepts(&self, t: Trade) -> bool {
        &&& fits_i128(self.num + notional_of(t))
        &&& self.den + t.size <= u128::MAX
    }

    open spec fn absorbs(&self, t: Trade, next: Self) -> bool {
        &&& next.num == self.num + notional_of(t)
        &&& next.den == self.den + t.size
    }

    fn can_take(&self, t: &Trade) -> (r: bool) {
        proof {
            lemma_notional_fits(*t);
        }
        let n = (t.price as i128) * (t.size as i128);
        self.num.checked_add(n).is_some() && (t.size as u128) <= u128::MAX - self.den
    }

    fn on_trade(&mut self, t: &Trade) {
        proof {
            lemma_notional_fits(*t);
        }
        self.num = self.num + (t.price as i128) * (t.size as i128);
        self.den = self.den + t.size as u128;
    }
}

/// Law: a VWAP lens fed the trades of `ts` in turn, whatever their side, adds
/// `sum(price * size)` to its numerator and `sum(size)` to its denominator. So
/// from `Vwap::new()` its parts are exactly these two sums.
pub proof fn lemma_vwap_sums(vs: Seq<Vwap>, ts: Seq<Trade>)
    requires
        vs.len() == ts.len() + 1,
        forall|i: int| 0 <= i < ts.len() ==> #[trigger] vs[i].absorbs(ts[i], vs[i + 1]),
    ensures
        vs.last().numerator() == vs[0].numerator() + total_of(ts, |t: Trade| notional_of(t)),
        vs.last().denominator() == vs[0].denominator() + total_of(ts, |t: Trade| size_of(t)),
    decreases ts.len(),
{
    if ts.len() > 0 {
        let n = ts.len() - 1;
        let v0 = vs.drop_last();
        let t0 = ts.drop_last();
        assert forall|i: int| 0 <= i < t0.len() implies #[trigger] v0[i].absorbs(t0[i], v0[i + 1]) by {
            assert(vs[i].absorbs(ts[i], vs[i + 1]));
        }
        lemma_vwap_sums(v0, t0);
        assert(vs[n].absorbs(ts[n], vs[n + 1]));
        assert(v0.last() == vs[n]);
    }
}

/// Law: the volume-weighted average lies between the lowest and the highest
/// price of the trades that carry volume: when every trade of positive size has
/// its price in `[lo, hi]`, `lo * sum(size) <= sum(price * size) <= hi * sum(size)`.
pub proof fn lemma_vwap_between(ts: Seq<Trade>, lo: int, hi: int)
    requires
        forall|i: int| 0 <= i < ts.len() && (#[trigger] ts[i]).size > 0 ==> lo <= ts[i].price <= hi,
    ensures
        lo * total_of(ts, |t: Trade| size_of(t)) <= total_of(ts, |t: Trade| notional_of(t)) <= hi * total_of(
            ts,
            |t: Trade| size_of(t),
        ),
    decreases ts.len(),
{
    if ts.len() > 0 {
        let t0 = ts.drop_last();
        let x = ts.last();
        assert forall|i: int| 0 <= i < t0.len() && (#[trigger] t0[i]).size > 0 implies lo <= t0[i].price <= hi by {
            assert(ts[i] == t0[i]);
        }
        lemma_vwap_between(t0, lo, hi);
        let s0 = total_of(t0, |t: Trade| size_of(t));
        let n0 = total_of(t0, |t: Trade| notional_of(t));
        let p = x.price as int;
        let z = x.size as int;
        if z > 0 {
            assert(lo <= p <= hi);
        }
        assert(lo * z <= p * z <= hi * z) by (nonlinear_arith)
            requires
                z >= 0,
                z > 0 ==> lo <= p <= hi,
        ;
        assert(lo * (s0 + z) == lo * s0 + lo * z) by (nonlinear_arith);
        assert(hi * (s0 + z) == hi * s0 + hi * z) by (nonlinear_arith);
    }
}

// ---------------------------------------------------------------------------
// Value area over a row of weights

/// Sum of `w[lo..hi)`.
pub open spec fn range_sum(w: Seq<int>, lo: int, hi: int) -> int
    decreases hi - lo,
{
    if hi <= lo {
        0
    } else {
        range_sum(w, lo, hi - 1) + w[hi - 1]
    }
}

/// Every weight is non-negative.
pub open spec fn nonneg(w: Seq<int>) -> bool {
    forall|i: int| 0 <= i < w.len() ==> #[trigger] w[i] >= 0
}

/// `i` is the index of the largest weight, the first one among equals.
pub open spec fn is_first_max(w: Seq<int>, i: int) -> bool {
    &&& 0 <= i < w.len()
    &&& forall|j: int| 0 <= j < w.len() ==> #[trigger] w[j] < w[i] || (w[j] == w[i] && i <= j)
}

/// Value area: starting from the rows `lo..=hi`, grow one row at a time towards
/// the heavier neighbour (upwards on a tie, or when nothing is left below)
/// until the rows hold at least `target` or cover everything.
pub open spec fn value_area_from(w: Seq<int>, target: int, lo: int, hi: int) -> (int, int)
    decreases lo + w.len() - hi,
    when 0 <= lo <= hi < w.len()
{
    if range_sum(w, lo, hi + 1) >= target || (lo == 0 && hi == w.len() - 1) {
        (lo, hi)
    } else {
        let below = if lo > 0 { w[lo - 1] } else { 0 };
        let above = if hi < w.len() - 1 { w[hi + 1] } else { 0 };
        if hi < w.len() - 1 && (above >= below || lo == 0) {
            value_area_from(w, target, lo, hi + 1)
        } else {
            value_area_from(w, target, lo - 1, hi)
        }
    }
}

/// `r` is the value area grown from the point of control at row `i` towards
/// `target`: a block of rows `a..=b` around `i`, whose prices bracket the
/// point of control's and which holds at least `target` whenever the whole
/// profile does.
pub open spec fn poc_block(s: Seq<(Px, Qty)>, target: int, i: int, r: Option<(Px, Px)>) -> bool {
    let (a, b) = value_area_from(qty_weights(s), target, i, i);
    &&& 0 <= a <= i <= b < s.len()
    &&& s[a].0 <= s[i].0 <= s[b].0
    &&& target <= qty_sum(s) ==> range_sum(qty_weights(s), a, b + 1) >= target
    &&& r == Some((s[a].0, s[b].0))
}

/// Weights as mathematical integers.
pub open spec fn as_ints(w: Seq<u128>) -> Seq<int> {
    Seq::new(w.len(), |i: int| w[i] as int)
}

/// Sums grow when the range widens over non-negative weights, and split at any
/// interior point.
pub proof fn lemma_range_sum(w: Seq<int>, a: int, b: int, c: int)
    requires
        nonneg(w),
        0 <= a <= b <= c <= w.len(),
    ensures
        range_sum(w, a, c) == range_sum(w, a, b) + range_sum(w, b, c),
        0 <= range_sum(w, a, b) <= range_sum(w, a, c),
    decreases c - b,
{
    if b < c {
        lemma_range_sum(w, a, b, c - 1);
        assert(w[c - 1] >= 0);
    }
    lemma_range_sum_nonneg(w, a, b);
}

proof fn lemma_range_sum_nonneg(w: Seq<int>, a: int, b: int)
    requires
        nonneg(w),
        0 <= a <= b <= w.len(),
    ensures
        range_sum(w, a, b) >= 0,
    decreases b - a,
{
    if a < b {
        lemma_range_sum_nonneg(w, a, b - 1);
        assert(w[b - 1] >= 0);
    }
}

/// Law: the value area stops as soon as its rows hold the target, and
/// otherwise grows by one row towards the heavier neighbour: with rows on both
/// sides it takes the row above exactly when it weighs at least as much as the
/// row below, else the row below; with a row on one side only it takes that one.
pub proof fn lemma_value_area_step(w: Seq<int>, target: int, lo: int, hi: int)
    requires
        0 <= lo <= hi < w.len(),
    ensures
        range_sum(w, lo, hi + 1) >= target ==> value_area_from(w, target, lo, hi) == (lo, hi),
        (range_sum(w, lo, hi + 1) < target && 0 < lo && hi + 1 < w.len() && w[hi + 1] >= w[lo - 1])
            ==> value_area_from(w, target, lo, hi) == value_area_from(w, target, lo, hi + 1),
        (range_sum(w, lo, hi + 1) < target && 0 < lo && hi + 1 < w.len() && w[hi + 1] < w[lo - 1])
            ==> value_area_from(w, target, lo, hi) == value_area_from(w, target, lo - 1, hi),
        (range_sum(w, lo, hi + 1) < target && lo == 0 && hi + 1 < w.len()) ==> value_area_from(
            w,
            target,
            lo,
            hi,
        ) == value_area_from(w, target, lo, hi + 1),
        (range_sum(w, lo, hi + 1) < target && 0 < lo && hi + 1 == w.len()) ==> value_area_from(
            w,
            target,
            lo,
            hi,
        ) == value_area_from(w, target, lo - 1, hi),
{
}

/// Law: the value area is a contiguous block of rows that contains its starting
/// rows; it holds at least `target` unless it covers every row.
pub proof fn lemma_value_area(w: Seq<int>, target: int, lo: int, hi: int)
    requires
        0 <= lo <= hi < w.len(),
    ensures
        0 <= value_area_from(w, target, lo, hi).0 <= lo,
        hi <= value_area_from(w, target, lo, hi).1 < w.len(),
        range_sum(w, value_area_from(w, target, lo, hi).0, value_area_from(w, target, lo, hi).1 + 1)
            >= target || (value_area_from(w, target, lo, hi).0 == 0 && value_area_from(
            w,
            target,
            lo,
            hi,
        ).1 == w.len() - 1),
    decreases lo + w.len() - hi,
{
    if range_sum(w, lo, hi + 1) >= target || (lo == 0 && hi == w.len() - 1) {
    } else {
        let below = if lo > 0 { w[lo - 1] } else { 0 };
        let above = if hi < w.len() - 1 { w[hi + 1] } else { 0 };
        if hi < w.len() - 1 && (above >= below || lo == 0) {
            lemma_value_area(w, target, lo, hi + 1);
        } else {
            lemma_value_area(w, target, lo - 1, hi);
        }
    }
}

/// Index of the first largest weight, if any.
fn first_max(w: &Vec<u128>) -> (r: Option<usize>)
    ensures
        match r {
            None => w@.len() == 0,
            Some(i) => is_first_max(as_ints(w@), i as int),
        },
{
    if w.len() == 0 {
        return None;
    }
    let mut best: usize = 0;
    let mut i: usize = 1;
    while i < w.len()
        invariant
            0 < i <= w@.len(),
            best < i,
            forall|j: int| 0 <= j < i ==> #[trigger] w@[j] < w@[best as int] || (w@[j] == w@[best as int] && best <= j),
        decreases w@.len() - i,
    {
        if w[i] > w[best] {
            best = i;
        }
        i = i + 1;
    }
    Some(best)
}

/// Grows the value area from row `start` until it holds `target`.
fn expand_value_area(w: &Vec<u128>, start: usize, target: u128) -> (r: (usize, usize))
    requires
        start < w@.len(),
        range_sum(as_ints(w@), 0, w@.len() as int) <= u128::MAX,
    ensures
        r.0 == value_area_from(as_ints(w@), target as int, start as int, start as int).0,
        r.1 == value_area_from(as_ints(w@), target as int, start as int, start as int).1,
{
    let ghost ws = as_ints(w@);
    let ghost n = w@.len() as int;
    assert(nonneg(ws));
    proof {
        lemma_range_sum(ws, start as int, start as int, start as int + 1);
        lemma_range_sum(ws, 0, start as int, start as int + 1);
        lemma_range_sum(ws, 0, start as int + 1, n);
    }
    let mut lo = start;
    let mut hi = start;
    let mut acc: u128 = w[start];
    while acc < target && (lo > 0 || hi < w.len() - 1)
        invariant
            ws == as_ints(w@),
            n == w@.len(),
            nonneg(ws),
            0 <= lo <= hi < n,
            range_sum(ws, 0, n) <= u128::MAX,
            acc == range_sum(ws, lo as int, hi as int + 1),
            value_area_from(ws, target as int, lo as int, hi as int) == value_area_from(
                ws,
                target as int,
                start as int,
                start as int,
            ),
        decreases lo + n - hi,
    {
        let below: u128 = if lo > 0 { w[lo - 1] } else { 0 };
        let above: u128 = if hi < w.len() - 1 { w[hi + 1] } else { 0 };
        if hi < w.len() - 1 && (above >= below || lo == 0) {
            proof {
                assert(range_sum(ws, lo as int, hi as int + 2) == range_sum(ws, lo as int, hi as int + 1) + ws[hi as int + 1]);
                assert(ws[hi as int + 1] == above);
                lemma_range_sum(ws, lo as int, hi as int + 1, hi as int + 2);
                lemma_range_sum(ws, 0, lo as int, hi as int + 2);
                lemma_range_sum(ws, 0, hi as int + 2, n);
            }
            hi = hi + 1;
            acc = acc + above;
        } else {
            proof {
                assert(lo > 0);
                assert(range_sum(ws, lo as int - 1, lo as int) == range_sum(ws, lo as int - 1, lo as int - 1) + ws[lo as int - 1]);
                assert(ws[lo as int - 1] == below);
                lemma_range_sum(ws, lo as int - 1, lo as int, hi as int + 1);
                lemma_range_sum(ws, lo as int - 1, lo as int, lo as int);
                lemma_range_sum(ws, 0, lo as int - 1, hi as int + 1);
                lemma_range_sum(ws, 0, hi as int + 1, n);
            }
            lo = lo - 1;
            acc = acc + below;
        }
    }
    (lo, hi)
}

// ---------------------------------------------------------------------------
// Volume profile

/// Volume profile: traded volume per price, with its point of control (POC)
/// and value area.
///
/// The value area is asked for with an explicit target volume; the caller
/// derives the target from the share of the total volume that the profile
/// carries (`value_area_pct_bits`, the bit pattern of an IEEE-754 double in
/// `]0, 1]`, which this crate carries along and never interprets).
#[derive(Debug, Clone, PartialEq, Eq)]
pub struct VolumeProfile {
    pub by_price: Vec<(Px, Qty)>,
    pub value_area_pct_bits: u64,
}

/// Sum of the quantities of a table.
pub open spec fn qty_sum(s: Seq<(Px, Qty)>) -> int
    decreases s.len(),
{
    if s.len() == 0 {
        0
    } else {
        qty_sum(s.drop_last()) + s.last().1
    }
}

/// The quantities of a table as weights.
pub open spec fn qty_weights(s: Seq<(Px, Qty)>) -> Seq<int> {
    Seq::new(s.len(), |i: int| s[i].1 as int)
}

/// The table's quantity sum is the sum of its weights.
pub proof fn lemma_qty_sum(s: Seq<(Px, Qty)>)
    ensures
        qty_sum(s) == range_sum(qty_weights(s), 0, s.len() as int),
        nonneg(qty_weights(s)),
    decreases s.len(),
{
    if s.len() > 0 {
        lemma_qty_sum(s.drop_last());
        lemma_range_sum_ext(qty_weights(s.drop_last()), qty_weights(s), 0, s.len() - 1);
    }
}

/// Two rows of weights that agree on `[lo, hi)` have the same sum there.
pub proof fn lemma_range_sum_ext(a: Seq<int>, b: Seq<int>, lo: int, hi: int)
    requires
        0 <= lo,
        hi <= a.len(),
        hi <= b.len(),
        forall|i: int| lo <= i < hi ==> a[i] == b[i],
    ensures
        range_sum(a, lo, hi) == range_sum(b, lo, hi),
    decreases hi - lo,
{
    if lo < hi {
        lemma_range_sum_ext(a, b, lo, hi - 1);
    }
}

impl View for VolumeProfile {
    type V = Seq<(Px, Qty)>;

    open spec fn view(&self) -> Seq<(Px, Qty)> {
        self.by_price@
    }
}

impl VolumeProfile {
    /// An empty profile carrying the value-area share `value_area_pct_bits`
    /// (the bits of a double in `]0, 1]`).
    pub fn new(value_area_pct_bits: u64) -> (v: Self)
        requires
            valid_share(value_area_pct_bits),
        ensures
            v.is_wf(),
            v@ == Seq::<(Px, Qty)>::empty(),
            v.pct_bits() == value_area_pct_bits,
    {
        VolumeProfile { by_price: Vec::new(), value_area_pct_bits }
    }

    /// The value-area share carried by the profile (bits of a double).
    pub open spec fn pct_bits(self) -> u64 {
        self.value_area_pct_bits
    }

    /// The value-area share carried by the profile (bits of a double).
    pub fn value_area_pct_bits(&self) -> (r: u64)
        ensures
            r == self.pct_bits(),
    {
        self.value_area_pct_bits
    }

    /// The table is sorted by price.
    pub open spec fn is_wf(self) -> bool {
        keys_sorted(self.by_price@)
    }

    fn weights(&self) -> (w: Vec<u128>)
        ensures
            as_ints(w@) == qty_weights(self@),
    {
        let mut w: Vec<u128> = Vec::new();
        let mut i: usize = 0;
        while i < self.by_price.len()
            invariant
                i <= self.by_price@.len(),
                w@.len() == i,
                forall|j: int| 0 <= j < i ==> w@[j] == self.by_price@[j].1,
            decreases self.by_price@.len() - i,
        {
            w.push(self.by_price[i].1 as u128);
            i = i + 1;
        }
        assert(as_ints(w@) =~= qty_weights(self@));
        w
    }

    /// Total aggregated volume.
    pub fn total_volume(&self) -> (t: Qty)
        requires
            qty_sum(self@) <= u64::MAX,
        ensures
            t == qty_sum(self@),
    {
        let mut t: u64 = 0;
        let mut i: usize = 0;
        while i < self.by_price.len()
            invariant
                i <= self.by_price@.len(),
                qty_sum(self.by_price@) <= u64::MAX,
                t == qty_sum(self.by_price@.subrange(0, i as int)),
            decreases self.by_price@.len() - i,
        {
            proof {
                let s = self.by_price@;
                assert(s.subrange(0, i as int + 1).drop_last() == s.subrange(0, i as int));
                lemma_qty_sum(s);
                lemma_qty_sum(s.subrange(0, i as int + 1));
                lemma_range_sum_ext(
                    qty_weights(s),
                    qty_weights(s.subrange(0, i as int + 1)),
                    0,
                    i as int + 1,
                );
                lemma_range_sum(qty_weights(s), 0, i as int + 1, s.len() as int);
            }
            t = t + self.by_price[i].1;
            i = i + 1;
        }
        assert(self.by_price@.subrange(0, i as int) == self.by_price@);
        t
    }

    /// Total aggregated volume, or `None` when it does not fit a `u64`.
    pub fn checked_total_volume(&self) -> (r: Option<Qty>)
        ensures
            match r {
                Some(t) => t == qty_sum(self@),
                None => qty_sum(self@) > u64::MAX,
            },
    {
        let ghost w = qty_weights(self@);
        proof {
            lemma_qty_sum(self@);
        }
        let mut t: u64 = 0;
        let mut i: usize = 0;
        while i < self.by_price.len()
            invariant
                w == qty_weights(self@),
                nonneg(w),
                qty_sum(self@) == range_sum(w, 0, w.len() as int),
                w.len() == self.by_price@.len(),
                i <= self.by_price@.len(),
                t == range_sum(w, 0, i as int),
            decreases self.by_price@.len() - i,
        {
            assert(w[i as int] == self.by_price@[i as int].1);
            match t.checked_add(self.by_price[i].1) {
                Some(x) => t = x,
                None => {
                    proof {
                        lemma_range_sum(w, 0, i as int + 1, w.len() as int);
                    }
                    return None;
                },
            }
            i = i + 1;
        }
        Some(t)
    }

    /// Point of control: the price of largest volume, the lowest one on a tie.
    pub fn poc(&self) -> (p: Option<Px>)
        ensures
            match p {
                None => self@.len() == 0,
                Some(p) => exists|i: int| is_first_max(qty_weights(self@), i) && #[trigger] self@[i].0 == p,
            },
    {
        let w = self.weights();
        assert(as_ints(w@).len() == w@.len());
        match first_max(&w) {
            None => None,
            Some(i) => {
                assert(self@[i as int].0 == self.by_price@[i as int].0);
                Some(self.by_price[i].0)
            },
        }
    }

    /// Value area for a target volume: the block of prices grown from the POC
    /// towards the heavier neighbour until it holds `target` (or every price).
    /// `None` when the profile is empty or its total volume is zero.
    pub fn value_area_with_target(&self, target: u128) -> (r: Option<(Px, Px)>)
        requires
            qty_sum(self@) <= u64::MAX,
        ensures
            (self@.len() == 0 || qty_sum(self@) == 0) ==> r is None,
            (self@.len() > 0 && qty_sum(self@) > 0) ==> exists|i: int|
                #![trigger is_first_max(qty_weights(self@), i)]
                is_first_max(qty_weights(self@), i) && r == Some(
                    (
                        self@[value_area_from(qty_weights(self@), target as int, i, i).0].0,
                        self@[value_area_from(qty_weights(self@), target as int, i, i).1].0,
                    ),
                ),
            (self.wf() && self@.len() > 0 && qty_sum(self@) > 0) ==> exists|i: int|
                #![trigger is_first_max(qty_weights(self@), i)]
                is_first_max(qty_weights(self@), i) && poc_block(self@, target as int, i, r),
    {
        let w = self.weights();
        assert(as_ints(w@).len() == w@.len());
        match first_max(&w) {
            None => None,
            Some(pi) => {
                assert(is_first_max(qty_weights(self@), pi as int));
                let total = self.total_volume();
                if total == 0 {
                    return None;
                }
                proof {
                    lemma_qty_sum(self@);
                }
                let (lo, hi) = expand_value_area(&w, pi, target);
                proof {
                    lemma_value_area(qty_weights(self@), target as int, pi as int, pi as int);
                    let ws = qty_weights(self@);
                    let (a, b) = value_area_from(ws, target as int, pi as int, pi as int);
                    if a == 0 && b == self@.len() - 1 {
                        assert(range_sum(ws, a, b + 1) == qty_sum(self@));
                    }
                    if self.wf() {
                        if a < pi {
                            assert(self@[a].0 < self@[pi as int].0);
                        }
                        if pi < b {
                            assert(self@[pi as int].0 < self@[b].0);
                        }
                        assert(poc_block(self@, target as int, pi as int, Some((self@[a].0, self@[b].0))));
                    }
                }
                Some((self.by_price[lo].0, self.by_price[hi].0))
            },
        }
    }
}

impl BarComponent for VolumeProfile {
    open spec fn wf(&self) -> bool {
        keys_sorted(self.by_price@)
    }

    open spec fn accepts(&self, t: Trade) -> bool {
        lookup_or(self.by_price@, t.price, 0u64) + t.size <= u64::MAX
    }

    open spec fn absorbs(&self, t: Trade, next: Self) -> bool {
        &&& next.value_area_pct_bits == self.value_area_pct_bits
        &&& forall|q: Px| #[trigger]
            lookup(next.by_price@, q) == if q == t.price {
                Some((lookup_or(self.by_price@, t.price, 0u64) + t.size) as u64)
            } else {
                lookup(self.by_price@, q)
            }
    }

    fn can_take(&self, t: &Trade) -> (r: bool) {
        let q = match find(&self.by_price, t.price) {
            Ok(i) => {
                proof {
                    lemma_lookup_at(self.by_price@, i as int);
                }
                self.by_price[i].1
            },
            Err(_) => 0,
        };
        t.size <= u64::MAX - q
    }

    fn on_trade(&mut self, t: &Trade) {
        match find(&self.by_price, t.price) {
            Ok(i) => {
                proof {
                    lemma_lookup_at(self.by_price@, i as int);
                    lemma_update(
                        self.by_price@,
                        i as int,
                        (lookup_or(self.by_price@, t.price, 0u64) + t.size) as u64,
                    );
                }
                let q = self.by_price[i].1;
                self.by_price.set(i, (t.price, q + t.size));
            },
            Err(i) => {
                proof {
                    lemma_insert(self.by_price@, i as int, t.price, t.size);
                }
                self.by_price.insert(i, (t.price, t.size));
            },
        }
    }
}

// ---------------------------------------------------------------------------
// TPO / market profile

/// Elements strictly increase along the sequence (a set kept in order).
pub open spec fn strictly_increasing(s: Seq<u32>) -> bool {
    forall|i: int, j: int| 0 <= i < j < s.len() ==> #[trigger] s[i] < #[trigger] s[j]
}

/// Adds `x` to an ordered set.
fn insert_sorted(v: &mut Vec<u32>, x: u32)
    requires
        strictly_increasing(old(v)@),
    ensures
        strictly_increasing(final(v)@),
        forall|y: u32| #[trigger] final(v)@.contains(y) <==> (old(v)@.contains(y) || y == x),
{
    let mut i: usize = 0;
    while i < v.len() && v[i] < x
        invariant
            i <= v@.len(),
            forall|j: int| 0 <= j < i ==> #[trigger] v@[j] < x,
        decreases v@.len() - i,
    {
        i = i + 1;
    }
    if i < v.len() && v[i] == x {
        return;
    }
    let ghost old_v = v@;
    v.insert(i, x);
    proof {
        assert forall|a: int, b: int| 0 <= a < b < v@.len() implies #[trigger] v@[a] < #[trigger] v@[b] by {
            if b < i {
            } else if b == i {
            } else if a < i {
                assert(v@[b] == old_v[b - 1]);
                assert(old_v[b - 1] >= x);
            } else if a == i {
                assert(v@[b] == old_v[b - 1]);
                assert(old_v[i as int] > x);
                if b - 1 > i {
                    assert(old_v[i as int] < old_v[b - 1]);
                }
            } else {
                assert(v@[a] == old_v[a - 1]);
                assert(v@[b] == old_v[b - 1]);
            }
        }
        assert forall|y: u32| #[trigger] v@.contains(y) <==> (old_v.contains(y) || y == x) by {
            if v@.contains(y) {
                let k = choose|k: int| 0 <= k < v@.len() && v@[k] == y;
                if k < i {
                    assert(old_v[k] == y);
                } else if k > i {
                    assert(old_v[k - 1] == y);
                }
            }
            if old_v.contains(y) {
                let k = choose|k: int| 0 <= k < old_v.len() && old_v[k] == y;
                if k < i {
                    assert(v@[k] == y);
                } else {
                    assert(v@[k + 1] == y);
                }
            }
            if y == x {
                assert(v@[i as int] == x);
            }
        }
    }
}

/// Truncating division by a positive divisor, as Rust's `/` on integers.
pub open spec fn trunc_div(x: int, d: int) -> int {
    if x >= 0 {
        x / d
    } else {
        -((-x) / d)
    }
}

/// Market profile of a bar: for every price, the set of time brackets (of
/// `bracket_ns` each, counted from the bar's first trade) in which it traded.
#[derive(Debug, Clone, PartialEq, Eq)]
pub struct Tpo {
    pub bracket_ns: i64,
    pub ib_brackets: u32,
    pub bar_start: Option<Ts>,
    pub by_price: Vec<(Px, Vec<u32>)>,
}

impl Tpo {
    /// A profile with brackets of `bracket_ns` (positive) and an initial balance
    /// made of the first `ib_brackets` brackets.
    pub fn new(bracket_ns: i64, ib_brackets: u32) -> (t: Self)
        requires
            bracket_ns > 0,
        ensures
            t.wf(),
            t.bracket() == bracket_ns,
            t.ib() == ib_brackets,
            t.start() is None,
            t.profile() == Seq::<(Px, Seq<u32>)>::empty(),
    {
        Tpo { bracket_ns, ib_brackets, bar_start: None, by_price: Vec::new() }
    }

    /// Duration of a bracket.
    pub open spec fn bracket(self) -> int {
        self.bracket_ns as int
    }

    /// Number of brackets in the initial balance.
    pub open spec fn ib(self) -> int {
        self.ib_brackets as int
    }

    /// Time of the bar's first trade.
    pub open spec fn start(self) -> Option<Ts> {
        self.bar_start
    }

    /// For each price, by increasing price, the brackets that touched it, in
    /// increasing order.
    pub open spec fn profile(self) -> Seq<(Px, Seq<u32>)> {
        Seq::new(self.by_price@.len(), |i: int| (self.by_price@[i].0, self.by_price@[i].1@))
    }

    /// Number of brackets per price, by increasing price.
    pub open spec fn counts(self) -> Seq<int> {
        Seq::new(self.by_price@.len(), |i: int| self.by_price@[i].1@.len() as int)
    }

    /// The bracket in which trade `t` falls.
    pub open spec fn bracket_of(self, t: Trade) -> u32 {
        let start = match self.bar_start {
            Some(s) => s,
            None => t.ts,
        };
        trunc_div(t.ts - start, self.bracket_ns as int) as u32
    }

    fn weights(&self) -> (w: Vec<u128>)
        ensures
            as_ints(w@) == self.counts(),
    {
        let mut w: Vec<u128> = Vec::new();
        let mut i: usize = 0;
        while i < self.by_price.len()
            invariant
                i <= self.by_price@.len(),
                w@.len() == i,
                forall|j: int| 0 <= j < i ==> w@[j] == self.by_price@[j].1@.len(),
            decreases self.by_price@.len() - i,
        {
            w.push(self.by_price[i].1.len() as u128);
            i = i + 1;
        }
        assert(as_ints(w@) =~= self.counts());
        w
    }

    /// Number of brackets that touched `price`.
    fn count(&self, price: Px) -> (n: usize)
        requires
            self.wf(),
        ensures
            n == match lookup(self.by_price@, price) {
                Some(v) => v@.len(),
                None => 0,
            },
    {
        match find(&self.by_price, price) {
            Ok(i) => {
                proof {
                    lemma_lookup_at(self.by_price@, i as int);
                }
                self.by_price[i].1.len()
            },
            Err(_) => 0,
        }
    }

    /// Total number of TPOs, or `None` when it does not fit a `usize`.
    pub fn checked_total(&self) -> (r: Option<usize>)
        ensures
            match r {
                Some(n) => n == range_sum(self.counts(), 0, self.counts().len() as int),
                None => range_sum(self.counts(), 0, self.counts().len() as int) > usize::MAX,
            },
    {
        let ghost c = self.counts();
        assert(nonneg(c));
        let mut n: usize = 0;
        let mut i: usize = 0;
        while i < self.by_price.len()
            invariant
                c == self.counts(),
                nonneg(c),
                c.len() == self.by_price@.len(),
                i <= c.len(),
                n == range_sum(c, 0, i as int),
            decreases c.len() - i,
        {
            assert(c[i as int] == self.by_price@[i as int].1@.len());
            match n.checked_add(self.by_price[i].1.len()) {
                Some(x) => n = x,
                None => {
                    proof {
                        lemma_range_sum(c, 0, i as int + 1, c.len() as int);
                    }
                    return None;
                },
            }
            i = i + 1;
        }
        Some(n)
    }

    /// Total number of TPOs (price and bracket pairs).
    pub fn total(&self) -> (n: usize)
        requires
            range_sum(self.counts(), 0, self.counts().len() as int) <= usize::MAX,
        ensures
            n == range_sum(self.counts(), 0, self.counts().len() as int),
    {
        let ghost c = self.counts();
        assert(nonneg(c));
        let mut n: usize = 0;
        let mut i: usize = 0;
        while i < self.by_price.len()
            invariant
                c == self.counts(),
                nonneg(c),
                c.len() == self.by_price@.len(),
                i <= c.len(),
                range_sum(c, 0, c.len() as int) <= usize::MAX,
                n == range_sum(c, 0, i as int),
            decreases c.len() - i,
        {
            proof {
                lemma_range_sum(c, 0, i as int + 1, c.len() as int);
                assert(c[i as int] == self.by_price@[i as int].1@.len());
            }
            n = n + self.by_price[i].1.len();
            i = i + 1;
        }
        n
    }

    /// Point of control in time: the price touched by the most brackets, the
    /// lowest one on a tie.
    pub fn poc(&self) -> (p: Option<Px>)
        ensures
            match p {
                None => self.profile().len() == 0,
                Some(p) => exists|i: int| is_first_max(self.counts(), i) && #[trigger] self.profile()[i].0 == p,
            },
    {
        let w = self.weights();
        assert(as_ints(w@).len() == w@.len());
        match first_max(&w) {
            None => None,
            Some(i) => {
                assert(self.profile()[i as int].0 == self.by_price@[i as int].0);
                Some(self.by_price[i].0)
            },
        }
    }

    /// Value area in time for a target number of TPOs: the block of prices grown
    /// from the POC towards the neighbour touched by more brackets until it holds
    /// `target` (or every price). `None` when the profile is empty.
    pub fn value_area_with_target(&self, target: u128) -> (r: Option<(Px, Px)>)
        requires
            range_sum(self.counts(), 0, self.counts().len() as int) <= usize::MAX,
        ensures
            (self.profile().len() == 0) ==> r is None,
            (self.profile().len() > 0) ==> exists|i: int|
                #![trigger is_first_max(self.counts(), i)]
                is_first_max(self.counts(), i) && r == Some(
                    (
                        self.profile()[value_area_from(self.counts(), target as int, i, i).0].0,
                        self.profile()[value_area_from(self.counts(), target as int, i, i).1].0,
                    ),
                ),
    {
        let w = self.weights();
        assert(as_ints(w@).len() == w@.len());
        match first_max(&w) {
            None => None,
            Some(pi) => {
                assert(is_first_max(self.counts(), pi as int));
                let (lo, hi) = expand_value_area(&w, pi, target);
                proof {
                    lemma_value_area(self.counts(), target as int, pi as int, pi as int);
                }
                assert(self.profile()[lo as int].0 == self.by_price@[lo as int].0);
                assert(self.profile()[hi as int].0 == self.by_price@[hi as int].0);
                Some((self.by_price[lo].0, self.by_price[hi].0))
            },
        }
    }

    /// Single prints: the prices touched by exactly one bracket, increasing.
    pub fn single_prints(&self) -> (r: Vec<Px>)
        requires
            self.wf(),
        ensures
            forall|a: int, b: int| 0 <= a < b < r@.len() ==> #[trigger] r@[a] < #[trigger] r@[b],
            forall|p: Px| #[trigger] r@.contains(p) <==> exists|i: int|
                0 <= i < self.profile().len() && #[trigger] self.profile()[i].0 == p
                    && self.profile()[i].1.len() == 1,
    {
        let mut r: Vec<Px> = Vec::new();
        let ghost mut idxs: Seq<int> = Seq::empty();
        let mut i: usize = 0;
        while i < self.by_price.len()
            invariant
                self.wf(),
                i <= self.by_price@.len(),
                idxs.len() == r@.len(),
                forall|a: int| 0 <= a < r@.len() ==> 0 <= #[trigger] idxs[a] < i,
                forall|a: int| 0 <= a < r@.len() ==> r@[a] == self.by_price@[#[trigger] idxs[a]].0,
                forall|a: int, b: int| 0 <= a < b < r@.len() ==> #[trigger] idxs[a] < #[trigger] idxs[b],
                forall|p: Px| #[trigger] r@.contains(p) <==> exists|k: int|
                    0 <= k < i && #[trigger] self.by_price@[k].0 == p && self.by_price@[k].1@.len() == 1,
            decreases self.by_price@.len() - i,
        {
            let ghost old_r = r@;
            if self.by_price[i].1.len() == 1 {
                r.push(self.by_price[i].0);
                proof {
                    idxs = idxs.push(i as int);
                    assert forall|p: Px| #[trigger] r@.contains(p) <==> exists|k: int|
                        0 <= k < i + 1 && #[trigger] self.by_price@[k].0 == p && self.by_price@[k].1@.len() == 1 by {
                        if r@.contains(p) {
                            let a = choose|a: int| 0 <= a < r@.len() && r@[a] == p;
                            if a < old_r.len() {
                                assert(old_r[a] == p);
                                assert(old_r.contains(p));
                            } else {
                                assert(self.by_price@[i as int].0 == p);
                            }
                        }
                        if exists|k: int| 0 <= k < i + 1 && #[trigger] self.by_price@[k].0 == p && self.by_price@[k].1@.len() == 1 {
                            let k = choose|k: int| 0 <= k < i + 1 && #[trigger] self.by_price@[k].0 == p && self.by_price@[k].1@.len() == 1;
                            if k < i {
                                assert(old_r.contains(p));
                                let a = choose|a: int| 0 <= a < old_r.len() && old_r[a] == p;
                                assert(r@[a] == p);
                            } else {
                                assert(r@[r@.len() - 1] == p);
                            }
                        }
                    }
                }
            } else {
                proof {
                    assert forall|p: Px| #[trigger] r@.contains(p) <==> exists|k: int|
                        0 <= k < i + 1 && #[trigger] self.by_price@[k].0 == p && self.by_price@[k].1@.len() == 1 by {
                        if exists|k: int| 0 <= k < i + 1 && #[trigger] self.by_price@[k].0 == p && self.by_price@[k].1@.len() == 1 {
                            let k = choose|k: int| 0 <= k < i + 1 && #[trigger] self.by_price@[k].0 == p && self.by_price@[k].1@.len() == 1;
                            assert(k < i);
                        }
                    }
                }
            }
            i = i + 1;
        }
        proof {
            assert forall|a: int, b: int| 0 <= a < b < r@.len() implies #[trigger] r@[a] < #[trigger] r@[b] by {
                assert(idxs[a] < idxs[b]);
                assert(self.by_price@[idxs[a]].0 < self.by_price@[idxs[b]].0);
            }
            assert forall|p: Px| #[trigger] r@.contains(p) <==> exists|i: int|
                0 <= i < self.profile().len() && #[trigger] self.profile()[i].0 == p
                    && self.profile()[i].1.len() == 1 by {
                if exists|k: int| 0 <= k < self.profile().len() && #[trigger] self.profile()[k].0 == p && self.profile()[k].1.len() == 1 {
                    let k = choose|k: int| 0 <= k < self.profile().len() && #[trigger] self.profile()[k].0 == p && self.profile()[k].1.len() == 1;
                    assert(self.by_price@[k].0 == p);
                }
                if r@.contains(p) {
                    let k = choose|k: int| 0 <= k < self.by_price@.len() && #[trigger] self.by_price@[k].0 == p && self.by_price@[k].1@.len() == 1;
                    assert(self.profile()[k].0 == p);
                }
            }
        }
        r
    }

    /// Law: brackets are counted from the bar's first trade. Before any trade,
    /// a trade falls in bracket 0; afterwards, a trade `d` nanoseconds after the
    /// first one falls in bracket `k` with `k * bracket <= d < (k + 1) * bracket`.
    /// So shifting every time of a bar by the same amount leaves its brackets
    /// unchanged.
    pub proof fn lemma_bracket_from_first_trade(self, t: Trade)
        requires
            self.wf(),
            self.start() is None || (self.start() matches Some(s) && s <= t.ts && (t.ts - s) / self.bracket()
                <= u32::MAX),
        ensures
            self.start() is None ==> self.bracket_of(t) == 0,
            self.start() matches Some(s) ==> self.bracket_of(t) * self.bracket() <= t.ts - s < (self.bracket_of(t)
                + 1) * self.bracket(),
    {
        if self.start() is None {
            assert(0int / (self.bracket_ns as int) == 0);
        } else {
            let s = self.start().unwrap();
            crate::period::lemma_floor_div(t.ts - s, self.bracket());
        }
    }

    /// Law: the bracket of a trade depends only on its distance to the bar's
    /// first trade: two profiles of the same bracket width place trades that
    /// lie at the same distance from their first trades in the same bracket.
    pub proof fn lemma_bracket_shift(self, other: Tpo, t: Trade, u: Trade)
        requires
            self.bracket() == other.bracket(),
            self.start() matches Some(s) && other.start() matches Some(r) && t.ts - s == u.ts - r,
        ensures
            self.bracket_of(t) == other.bracket_of(u),
    {
    }

    /// Initial balance: the price range touched during the first `ib_brackets`
    /// brackets; `None` when no price was.
    pub fn initial_balance(&self) -> (r: Option<(Px, Px)>)
        requires
            self.wf(),
        ensures
            r is None <==> !exists|i: int| 0 <= i < self.profile().len() && #[trigger] self.in_ib(i),
            r matches Some((lo, hi)) ==> {
                &&& exists|i: int| 0 <= i < self.profile().len() && #[trigger] self.in_ib(i) && self.profile()[i].0 == lo
                &&& exists|i: int| 0 <= i < self.profile().len() && #[trigger] self.in_ib(i) && self.profile()[i].0 == hi
                &&& forall|i: int| 0 <= i < self.profile().len() && #[trigger] self.in_ib(i) ==> lo <= self.profile()[i].0 <= hi
            },
    {
        let mut lo: Option<Px> = None;
        let mut hi: Px = 0;
        let mut i: usize = 0;
        while i < self.by_price.len()
            invariant
                self.wf(),
                i <= self.by_price@.len(),
                lo is None <==> !exists|k: int| 0 <= k < i && #[trigger] self.in_ib(k),
                lo matches Some(l) ==> {
                    &&& exists|k: int| 0 <= k < i && #[trigger] self.in_ib(k) && self.by_price@[k].0 == l
                    &&& exists|k: int| 0 <= k < i && #[trigger] self.in_ib(k) && self.by_price@[k].0 == hi
                    &&& forall|k: int| 0 <= k < i && #[trigger] self.in_ib(k) ==> l <= self.by_price@[k].0 <= hi
                },
            decreases self.by_price@.len() - i,
        {
            let q = self.touched_in_ib(i);
            if q {
                if lo.is_none() {
                    lo = Some(self.by_price[i].0);
                }
                hi = self.by_price[i].0;
                proof {
                    assert forall|k: int| 0 <= k < i + 1 && #[trigger] self.in_ib(k) implies lo.unwrap() <= self.by_price@[k].0 <= hi by {
                        if k < i {
                            assert(self.by_price@[k].0 < self.by_price@[i as int].0);
                        }
                    }
                }
            }
            i = i + 1;
        }
        match lo {
            None => None,
            Some(l) => Some((l, hi)),
        }
    }

    /// The entry at index `i` was touched during the initial balance.
    pub open spec fn in_ib(self, i: int) -> bool {
        exists|k: int| 0 <= k < self.by_price@[i].1@.len() && #[trigger] self.by_price@[i].1@[k] < self.ib_brackets
    }

    fn touched_in_ib(&self, i: usize) -> (b: bool)
        requires
            i < self.by_price@.len(),
        ensures
            b == self.in_ib(i as int),
    {
        let set = &self.by_price[i].1;
        let mut k: usize = 0;
        while k < set.len()
            invariant
                set@ == self.by_price@[i as int].1@,
                k <= set@.len(),
                forall|j: int| 0 <= j < k ==> #[trigger] set@[j] >= self.ib_brackets,
            decreases set@.len() - k,
        {
            if set[k] < self.ib_brackets {
                return true;
            }
            k = k + 1;
        }
        false
    }
}

impl BarComponent for Tpo {
    open spec fn wf(&self) -> bool {
        &&& self.bracket_ns > 0
        &&& keys_sorted(self.by_price@)
        &&& forall|i: int| 0 <= i < self.by_price@.len() ==> strictly_increasing(#[trigger] self.by_price@[i].1@)
    }

    open spec fn accepts(&self, t: Trade) -> bool {
        self.bar_start matches Some(s) ==> fits_i64(t.ts - s)
    }

    open spec fn absorbs(&self, t: Trade, next: Self) -> bool {
        &&& next.bracket_ns == self.bracket_ns
        &&& next.ib_brackets == self.ib_brackets
        &&& next.bar_start == Some(
            match self.bar_start {
                Some(s) => s,
                None => t.ts,
            },
        )
        &&& forall|q: Px| q != t.price ==> #[trigger] lookup(next.by_price@, q) == lookup(self.by_price@, q)
        &&& lookup(next.by_price@, t.price) matches Some(v) && forall|y: u32| #[trigger] v@.contains(y) <==> (
            y == self.bracket_of(t) || (lookup(self.by_price@, t.price) matches Some(o) && o@.contains(y)))
    }

    fn can_take(&self, t: &Trade) -> (r: bool) {
        match self.bar_start {
            Some(s) => t.ts.checked_sub(s).is_some(),
            None => true,
        }
    }

    fn on_trade(&mut self, t: &Trade) {
        let start = match self.bar_start {
            Some(s) => s,
            None => {
                self.bar_start = Some(t.ts);
                t.ts
            },
        };
        let d = t.ts - start;
        let q = match d.checked_div(self.bracket_ns) {
            Some(q) => q,
            None => 0,
        };
        let idx = #[verifier::truncate] (q as u32);
        let ghost old_tab = self.by_price@;
        match find(&self.by_price, t.price) {
            Ok(i) => {
                proof {
                    lemma_lookup_at(old_tab, i as int);
                }
                let (p, mut set) = self.by_price.remove(i);
                assert(strictly_increasing(old_tab[i as int].1@));
                insert_sorted(&mut set, idx);
                self.by_price.insert(i, (p, set));
                proof {
                    assert(self.by_price@ == old_tab.update(i as int, (p, set)));
                    lemma_update(old_tab, i as int, set);
                    assert forall|j: int| 0 <= j < self.by_price@.len() implies strictly_increasing(#[trigger] self.by_price@[j].1@) by {
                        if j != i {
                            assert(self.by_price@[j] == old_tab[j]);
                        }
                    }
                }
            },
            Err(i) => {
                let mut set: Vec<u32> = Vec::new();
                set.push(idx);
                proof {
                    lemma_insert(old_tab, i as int, t.price, set);
                    assert(set@[0] == idx);
                    assert(set@.contains(idx));
                    assert forall|y: u32| #[trigger] set@.contains(y) implies y == idx by {
                        let k = choose|k: int| 0 <= k < set@.len() && set@[k] == y;
                    }
                }
                self.by_price.insert(i, (t.price, set));
                proof {
                    assert forall|j: int| 0 <= j < self.by_price@.len() implies strictly_increasing(#[trigger] self.by_price@[j].1@) by {
                        if j < i {
                            assert(self.by_price@[j] == old_tab[j]);
                        } else if j > i {
                            assert(self.by_price@[j] == old_tab[j - 1]);
                        }
                    }
                }
            },
        }
    }
}

// ---------------------------------------------------------------------------
// Copies of the lenses

/// A copy of a vector of `Copy` elements.
fn copy_vec<T: Copy>(v: &Vec<T>) -> (r: Vec<T>)
    ensures
        r@ == v@,
{
    let mut r: Vec<T> = Vec::new();
    let mut i: usize = 0;
    while i < v.len()
        invariant
            i <= v@.len(),
            r@ == v@.subrange(0, i as int),
        decreases v@.len() - i,
    {
        r.push(v[i]);
        i = i + 1;
    }
    assert(v@.subrange(0, v@.len() as int) == v@);
    r
}

impl Footprint {
    /// A copy of the footprint.
    pub(crate) fn duplicate(&self) -> (r: Self)
        ensures
            r@ == self@,
            r.wf() == self.wf(),
    {
        Footprint { cells: copy_table(&self.cells) }
    }
}

impl VolumeProfile {
    /// A copy of the profile.
    pub(crate) fn duplicate(&self) -> (r: Self)
        ensures
            r@ == self@,
            r.pct_bits() == self.pct_bits(),
            r.wf() == self.wf(),
    {
        VolumeProfile { by_price: copy_table(&self.by_price), value_area_pct_bits: self.value_area_pct_bits }
    }
}

/// Model of a market profile.
#[verifier::ext_equal]
pub struct TpoView {
    pub bracket: int,
    pub ib: int,
    pub start: Option<Ts>,
    pub profile: Seq<(Px, Seq<u32>)>,
}

impl View for Tpo {
    type V = TpoView;

    open spec fn view(&self) -> TpoView {
        TpoView { bracket: self.bracket(), ib: self.ib(), start: self.start(), profile: self.profile() }
    }
}

impl Tpo {
    /// A copy of the profile.
    pub(crate) fn duplicate(&self) -> (r: Self)
        ensures
            r@ == self@,
            r.wf() == self.wf(),
    {
        let mut rows: Vec<(Px, Vec<u32>)> = Vec::new();
        let mut i: usize = 0;
        while i < self.by_price.len()
            invariant
                i <= self.by_price@.len(),
                rows@.len() == i,
                forall|j: int|
                    0 <= j < i ==> (#[trigger] rows@[j]).0 == self.by_price@[j].0 && rows@[j].1@
                        == self.by_price@[j].1@,
            decreases self.by_price@.len() - i,
        {
            let set = copy_vec(&self.by_price[i].1);
            rows.push((self.by_price[i].0, set));
            i = i + 1;
        }
        let r = Tpo {
            bracket_ns: self.bracket_ns,
            ib_brackets: self.ib_brackets,
            bar_start: self.bar_start,
            by_price: rows,
        };
        proof {
            assert(r.profile() =~= self.profile());
            assert(forall|j: int| 0 <= j < rows@.len() ==> #[trigger] rows@[j].0 == self.by_price@[j].0);
            if self.wf() {
                assert forall|a: int, b: int| 0 <= a < b < r.by_price@.len() implies #[trigger] r.by_price@[a].0
                    < #[trigger] r.by_price@[b].0 by {
                    assert(self.by_price@[a].0 < self.by_price@[b].0);
                }
                assert forall|j: int| 0 <= j < r.by_price@.len() implies strictly_increasing(
                    #[trigger] r.by_price@[j].1@,
                ) by {
                    assert(strictly_increasing(self.by_price@[j].1@));
                }
            }
            if r.wf() {
                assert forall|a: int, b: int| 0 <= a < b < self.by_price@.len() implies #[trigger] self.by_price@[a].0
                    < #[trigger] self.by_price@[b].0 by {
                    assert(r.by_price@[a].0 < r.by_price@[b].0);
                }
                assert forall|j: int| 0 <= j < self.by_price@.len() implies strictly_increasing(
                    #[trigger] self.by_price@[j].1@,
                ) by {
                    assert(strictly_increasing(r.by_price@[j].1@));
                }
            }
        }
        r
    }
}

// ---------------------------------------------------------------------------
// Order flow of a bar

/// Model of the order flow of a bar.
#[verifier::ext_equal]
pub struct FlowView {
    pub footprint: Option<Seq<(Px, (Qty, Qty))>>,
    /// The table and the value-area share it carries.
    pub volume_profile: Option<(Seq<(Px, Qty)>, u64)>,
    pub delta: Option<i64>,
    pub cvd: Option<i64>,
    pub tpo: Option<TpoView>,
    pub trade_count: Option<(u64, u64)>,
    pub vwap: Option<(i128, u128)>,
}

/// Order-flow results attached to a closed bar: a snapshot of its active lenses.
#[derive(Debug, Clone, PartialEq, Eq)]
pub struct OrderFlow {
    pub footprint: Option<Footprint>,
    pub volume_profile: Option<VolumeProfile>,
    /// Delta of the bar.
    pub delta: Option<i64>,
    /// Cumulative delta at the close of this bar (state kept across bars).
    pub cvd: Option<i64>,
    /// Market profile.
    pub tpo: Option<Tpo>,
    /// Number of trades `(buy, sell)`; unknown sides are not counted.
    pub trade_count: Option<(u64, u64)>,
    /// VWAP of the bar as its exact parts `(sum(price * size), sum(size))`;
    /// `None` when the bar has no volume.
    pub vwap: Option<(i128, u128)>,
}

impl View for OrderFlow {
    type V = FlowView;

    open spec fn view(&self) -> FlowView {
        FlowView {
            footprint: match self.footprint {
                Some(f) => Some(f@),
                None => None,
            },
            volume_profile: match self.volume_profile {
                Some(v) => Some((v@, v.pct_bits())),
                None => None,
            },
            delta: self.delta,
            cvd: self.cvd,
            tpo: match self.tpo {
                Some(t) => Some(t@),
                None => None,
            },
            trade_count: self.trade_count,
            vwap: self.vwap,
        }
    }
}

/// The order flow with no lens result.
pub open spec fn empty_flow() -> OrderFlow {
    OrderFlow {
        footprint: None,
        volume_profile: None,
        delta: None,
        cvd: None,
        tpo: None,
        trade_count: None,
        vwap: None,
    }
}

impl OrderFlow {
    /// The order flow with no lens result.
    pub fn empty() -> (r: Self)
        ensures
            r == empty_flow(),
    {
        OrderFlow {
            footprint: None,
            volume_profile: None,
            delta: None,
            cvd: None,
            tpo: None,
            trade_count: None,
            vwap: None,
        }
    }
}

impl OrderFlow {
    /// A copy of the order flow.
    pub(crate) fn duplicate(&self) -> (r: Self)
        ensures
            r@ == self@,
    {
        OrderFlow {
            footprint: match &self.footprint {
                Some(f) => Some(f.duplicate()),
                None => None,
            },
            volume_profile: match &self.volume_profile {
                Some(v) => Some(v.duplicate()),
                None => None,
            },
            delta: self.delta,
            cvd: self.cvd,
            tpo: match &self.tpo {
                Some(t) => Some(t.duplicate()),
                None => None,
            },
            trade_count: self.trade_count,
            vwap: self.vwap,
        }
    }
}

impl Default for OrderFlow {
    fn default() -> (r: Self)
        ensures
            r == empty_flow(),
    {
        OrderFlow::empty()
    }
}

// ---------------------------------------------------------------------------
// Lens choice and live lenses

/// The lenses that a period can carry.
#[derive(Debug, Clone, Copy, PartialEq, Eq, Structural)]
pub enum LensKind {
    Footprint,
    /// With the value-area share, as the bits of a double in `]0, 1]`.
    VolumeProfile { value_area_pct_bits: u64 },
    /// Delta of the bar; the period keeps the cumulative delta.
    Delta,
    /// Market profile with brackets of `bracket_ns` and an initial balance of
    /// `ib_brackets` brackets.
    Tpo { bracket_ns: i64, ib_brackets: u32 },
    /// Number of trades `(buy, sell)`.
    TradeCount,
    /// VWAP of the bar.
    Vwap,
}

/// The bits of a double in `]0, 1]`: positive doubles are ordered as their
/// bit patterns, the largest being `1.0`; zero, negatives and NaNs fall outside.
pub open spec fn valid_share(bits: u64) -> bool {
    0 < bits <= 0x3ff0_0000_0000_0000
}

/// A lens of kind `k` can be made: a market profile needs positive brackets,
/// a volume profile a value-area share in `]0, 1]`.
pub open spec fn kind_valid(k: LensKind) -> bool {
    &&& k matches LensKind::Tpo { bracket_ns, .. } ==> bracket_ns > 0
    &&& k matches LensKind::VolumeProfile { value_area_pct_bits } ==> valid_share(value_area_pct_bits)
}

/// A fresh lens of kind `k` can be made and can integrate `t` as its first trade.
pub open spec fn kind_opens_on(k: LensKind, t: Trade) -> bool {
    &&& kind_valid(k)
    &&& k is Delta ==> fits_i64(delta_of(t))
}

/// A live lens for the forming bar.
pub enum LensInstance {
    Footprint(Footprint),
    VolumeProfile(VolumeProfile),
    Delta(Delta),
    Tpo(Tpo),
    TradeCount(TradeCount),
    Vwap(Vwap),
}

impl LensInstance {
    /// The lens is as `from_kind(k)` makes it: of kind `k`, with nothing integrated.
    pub open spec fn is_fresh(self, k: LensKind) -> bool {
        match self {
            LensInstance::Footprint(c) => k is Footprint && c@.len() == 0,
            LensInstance::VolumeProfile(c) => k matches LensKind::VolumeProfile { value_area_pct_bits }
                && c@.len() == 0 && c.pct_bits() == value_area_pct_bits,
            LensInstance::Delta(c) => k is Delta && c.amount() == 0,
            LensInstance::Tpo(c) => k matches LensKind::Tpo { bracket_ns, ib_brackets } && c@ == TpoView {
                bracket: bracket_ns as int,
                ib: ib_brackets as int,
                start: None,
                profile: Seq::empty(),
            },
            LensInstance::TradeCount(c) => k is TradeCount && c.buys() == 0 && c.sells() == 0,
            LensInstance::Vwap(c) => k is Vwap && c.numerator() == 0 && c.denominator() == 0,
        }
    }

    /// `self` is a fresh lens of kind `k` after integrating `t`.
    pub open spec fn opened_by(self, k: LensKind, t: Trade) -> bool {
        exists|f: LensInstance| #[trigger] f.is_fresh(k) && f.absorbs(t, self)
    }

    /// The order flow `of` once this lens's result is recorded in it.
    pub open spec fn recorded(self, of: FlowView) -> FlowView {
        match self {
            LensInstance::Footprint(c) => FlowView { footprint: Some(c@), ..of },
            LensInstance::VolumeProfile(c) => FlowView { volume_profile: Some((c@, c.pct_bits())), ..of },
            LensInstance::Delta(c) => FlowView { delta: Some(c.amount() as i64), ..of },
            LensInstance::Tpo(c) => FlowView { tpo: Some(c@), ..of },
            LensInstance::TradeCount(c) => FlowView {
                trade_count: Some((c.buys() as u64, c.sells() as u64)),
                ..of
            },
            LensInstance::Vwap(c) => FlowView {
                vwap: if c.denominator() == 0 {
                    None
                } else {
                    Some((c.numerator() as i128, c.denominator() as u128))
                },
                ..of
            },
        }
    }

    /// The bar delta that the lens reports, when it is a delta lens.
    pub open spec fn bar_delta(self) -> Option<i64> {
        match self {
            LensInstance::Delta(c) => Some(c.amount() as i64),
            _ => None,
        }
    }

    /// A fresh lens of the given kind.
    pub fn from_kind(kind: LensKind) -> (l: Self)
        requires
            kind_valid(kind),
        ensures
            l.wf(),
            l.is_fresh(kind),
    {
        match kind {
            LensKind::Footprint => LensInstance::Footprint(Footprint::new()),
            LensKind::VolumeProfile { value_area_pct_bits } => LensInstance::VolumeProfile(
                VolumeProfile::new(value_area_pct_bits),
            ),
            LensKind::Delta => LensInstance::Delta(Delta::new()),
            LensKind::Tpo { bracket_ns, ib_brackets } => {
                let t = Tpo::new(bracket_ns, ib_brackets);
                assert(t@ =~= TpoView {
                    bracket: bracket_ns as int,
                    ib: ib_brackets as int,
                    start: None,
                    profile: Seq::empty(),
                });
                LensInstance::Tpo(t)
            },
            LensKind::TradeCount => LensInstance::TradeCount(TradeCount::new()),
            LensKind::Vwap => LensInstance::Vwap(Vwap::new()),
        }
    }

    /// Records the lens's current result in `of`, leaving the lens as it is;
    /// returns the bar delta when the lens is a delta lens.
    pub fn snapshot_ref(&self, of: &mut OrderFlow) -> (d: Option<i64>)
        requires
            self.wf(),
        ensures
            final(of)@ == self.recorded(old(of)@),
            d == self.bar_delta(),
    {
        match self {
            LensInstance::Footprint(c) => {
                of.footprint = Some(c.duplicate());
                None
            },
            LensInstance::VolumeProfile(c) => {
                of.volume_profile = Some(c.duplicate());
                None
            },
            LensInstance::Delta(c) => {
                of.delta = Some(c.value());
                Some(c.value())
            },
            LensInstance::Tpo(c) => {
                of.tpo = Some(c.duplicate());
                None
            },
            LensInstance::TradeCount(c) => {
                of.trade_count = Some(c.pair());
                None
            },
            LensInstance::Vwap(c) => {
                let (num, den) = c.parts();
                of.vwap = if den == 0 {
                    None
                } else {
                    Some((num, den))
                };
                None
            },
        }
    }

    /// Closes the lens with its bar and records its result in `of`; returns the
    /// bar delta when the lens is a delta lens.
    pub fn snapshot_into(&mut self, of: &mut OrderFlow) -> (d: Option<i64>)
        requires
            old(self).wf(),
        ensures
            *final(self) == *old(self),
            final(of)@ == old(self).recorded(old(of)@),
            d == old(self).bar_delta(),
    {
        match self {
            LensInstance::Footprint(c) => c.on_close(),
            LensInstance::VolumeProfile(c) => c.on_close(),
            LensInstance::Delta(c) => c.on_close(),
            LensInstance::Tpo(c) => c.on_close(),
            LensInstance::TradeCount(c) => c.on_close(),
            LensInstance::Vwap(c) => c.on_close(),
        }
        self.snapshot_ref(of)
    }
}

impl BarComponent for LensInstance {
    open spec fn wf(&self) -> bool {
        match *self {
            LensInstance::Footprint(c) => c.wf(),
            LensInstance::VolumeProfile(c) => c.wf(),
            LensInstance::Delta(c) => c.wf(),
            LensInstance::Tpo(c) => c.wf(),
            LensInstance::TradeCount(c) => c.wf(),
            LensInstance::Vwap(c) => c.wf(),
        }
    }

    open spec fn accepts(&self, t: Trade) -> bool {
        match *self {
            LensInstance::Footprint(c) => c.accepts(t),
            LensInstance::VolumeProfile(c) => c.accepts(t),
            LensInstance::Delta(c) => c.accepts(t),
            LensInstance::Tpo(c) => c.accepts(t),
            LensInstance::TradeCount(c) => c.accepts(t),
            LensInstance::Vwap(c) => c.accepts(t),
        }
    }

    open spec fn absorbs(&self, t: Trade, next: Self) -> bool {
        match (*self, next) {
            (LensInstance::Footprint(a), LensInstance::Footprint(b)) => a.absorbs(t, b),
            (LensInstance::VolumeProfile(a), LensInstance::VolumeProfile(b)) => a.absorbs(t, b),
            (LensInstance::Delta(a), LensInstance::Delta(b)) => a.absorbs(t, b),
            (LensInstance::Tpo(a), LensInstance::Tpo(b)) => a.absorbs(t, b),
            (LensInstance::TradeCount(a), LensInstance::TradeCount(b)) => a.absorbs(t, b),
            (LensInstance::Vwap(a), LensInstance::Vwap(b)) => a.absorbs(t, b),
            _ => false,
        }
    }

    fn can_take(&self, t: &Trade) -> (r: bool) {
        match self {
            LensInstance::Footprint(c) => c.can_take(t),
            LensInstance::VolumeProfile(c) => c.can_take(t),
            LensInstance::Delta(c) => c.can_take(t),
            LensInstance::Tpo(c) => c.can_take(t),
            LensInstance::TradeCount(c) => c.can_take(t),
            LensInstance::Vwap(c) => c.can_take(t),
        }
    }

    fn on_trade(&mut self, t: &Trade) {
        match self {
            LensInstance::Footprint(c) => c.on_trade(t),
            LensInstance::VolumeProfile(c) => c.on_trade(t),
            LensInstance::Delta(c) => c.on_trade(t),
            LensInstance::Tpo(c) => c.on_trade(t),
            LensInstance::TradeCount(c) => c.on_trade(t),
            LensInstance::Vwap(c) => c.on_trade(t),
        }
    }
}

/// A fresh lens of kind `k` accepts `t` when `k` can open on `t`.
pub proof fn lemma_fresh_accepts(l: LensInstance, k: LensKind, t: Trade)
    requires
        l.is_fresh(k),
        kind_opens_on(k, t),
    ensures
        l.accepts(t),
{
    match l {
        LensInstance::Footprint(c) => {
            assert(lookup(c@, t.price) is None);
        },
        LensInstance::VolumeProfile(c) => {
            assert(lookup(c@, t.price) is None);
        },
        LensInstance::Vwap(c) => {
            lemma_notional_fits(t);
        },
        _ => {},
    }
}

// ---------------------------------------------------------------------------
// Lenses compared by their models

/// Two ordered sets with the same elements are equal.
pub proof fn lemma_ordered_set_ext(a: Seq<u32>, b: Seq<u32>)
    requires
        strictly_increasing(a),
        strictly_increasing(b),
        forall|y: u32| #[trigger] a.contains(y) <==> b.contains(y),
    ensures
        a == b,
    decreases a.len() + b.len(),
{
    if a.len() == 0 && b.len() == 0 {
        assert(a =~= b);
    } else if a.len() == 0 {
        assert(b.contains(b[0]));
        assert(a.contains(b[0]));
    } else if b.len() == 0 {
        assert(a.contains(a[0]));
        assert(b.contains(a[0]));
    } else {
        assert(a.contains(a[0]));
        assert(b.contains(b[0]));
        assert(b.contains(a[0]));
        assert(a.contains(b[0]));
        let ja = choose|j: int| 0 <= j < b.len() && b[j] == a[0];
        let jb = choose|j: int| 0 <= j < a.len() && a[j] == b[0];
        if ja > 0 {
            assert(b[0] < b[ja]);
        }
        if jb > 0 {
            assert(a[0] < a[jb]);
        }
        assert(a[0] == b[0]);
        let a1 = a.drop_first();
        let b1 = b.drop_first();
        assert forall|y: u32| #[trigger] a1.contains(y) <==> b1.contains(y) by {
            if a1.contains(y) {
                let k = choose|k: int| 0 <= k < a1.len() && a1[k] == y;
                assert(a[k + 1] == y);
                assert(a[0] < a[k + 1]);
                assert(a.contains(y));
                let m = choose|m: int| 0 <= m < b.len() && b[m] == y;
                assert(m != 0);
                assert(b1[m - 1] == y);
            }
            if b1.contains(y) {
                let k = choose|k: int| 0 <= k < b1.len() && b1[k] == y;
                assert(b[k + 1] == y);
                assert(b[0] < b[k + 1]);
                assert(b.contains(y));
                assert(a.contains(y));
                let m = choose|m: int| 0 <= m < a.len() && a[m] == y;
                assert(m != 0);
                assert(a1[m - 1] == y);
            }
        }
        assert(strictly_increasing(a1)) by {
            assert forall|i: int, j: int| 0 <= i < j < a1.len() implies #[trigger] a1[i] < #[trigger] a1[j] by {
                assert(a[i + 1] < a[j + 1]);
            }
        }
        assert(strictly_increasing(b1)) by {
            assert forall|i: int, j: int| 0 <= i < j < b1.len() implies #[trigger] b1[i] < #[trigger] b1[j] by {
                assert(b[i + 1] < b[j + 1]);
            }
        }
        lemma_ordered_set_ext(a1, b1);
        assert(a.len() == b.len());
        assert forall|i: int| 0 <= i < a.len() implies a[i] == b[i] by {
            if i > 0 {
                assert(a[i] == a1[i - 1]);
                assert(b[i] == b1[i - 1]);
            }
        }
        assert(a =~= b);
    }
}

impl Tpo {
    /// In a consistent profile, the model holds at each price the model of the
    /// stored set of brackets.
    proof fn lemma_profile_lookup(self, q: Px)
        requires
            keys_sorted(self.by_price@),
        ensures
            keys_sorted(self.profile()),
            lookup(self.profile(), q) == match lookup(self.by_price@, q) {
                Some(v) => Some(v@),
                None => None,
            },
    {
        let s = self.by_price@;
        let m = self.profile();
        assert forall|i: int, j: int| 0 <= i < j < m.len() implies #[trigger] m[i].0 < #[trigger] m[j].0 by {
            assert(s[i].0 < s[j].0);
        }
        if has_key(s, q) {
            let i = choose|i: int| 0 <= i < s.len() && #[trigger] s[i].0 == q;
            lemma_lookup_at(s, i);
            lemma_lookup_at(m, i);
        } else if has_key(m, q) {
            let i = choose|i: int| 0 <= i < m.len() && #[trigger] m[i].0 == q;
            assert(s[i].0 == q);
        }
    }
}

impl LensInstance {
    /// The two lenses are of the same kind and have the same model.
    pub open spec fn same_as(self, other: LensInstance) -> bool {
        match (self, other) {
            (LensInstance::Footprint(a), LensInstance::Footprint(b)) => a@ == b@,
            (LensInstance::VolumeProfile(a), LensInstance::VolumeProfile(b)) => a@ == b@ && a.pct_bits()
                == b.pct_bits(),
            (LensInstance::Delta(a), LensInstance::Delta(b)) => a.amount() == b.amount(),
            (LensInstance::Tpo(a), LensInstance::Tpo(b)) => a@ == b@,
            (LensInstance::TradeCount(a), LensInstance::TradeCount(b)) => a.buys() == b.buys() && a.sells()
                == b.sells(),
            (LensInstance::Vwap(a), LensInstance::Vwap(b)) => a.numerator() == b.numerator() && a.denominator()
                == b.denominator(),
            _ => false,
        }
    }
}

/// Lenses with the same model record the same result and report the same delta.
pub proof fn lemma_same_recorded(a: LensInstance, b: LensInstance, of: FlowView)
    requires
        a.same_as(b),
    ensures
        a.recorded(of) == b.recorded(of),
        a.bar_delta() == b.bar_delta(),
{
}

/// A fresh lens of a kind that can open is consistent.
pub proof fn lemma_fresh_wf(l: LensInstance, k: LensKind, t: Trade)
    requires
        l.is_fresh(k),
        kind_opens_on(k, t),
    ensures
        l.wf(),
{
    match l {
        LensInstance::Tpo(c) => {
            assert(c.by_price@.len() == c.profile().len());
        },
        _ => {},
    }
}

/// Two fresh lenses of the same kind are the same lens.
pub proof fn lemma_fresh_same(a: LensInstance, b: LensInstance, k: LensKind)
    requires
        a.is_fresh(k),
        b.is_fresh(k),
    ensures
        a.same_as(b),
{
    match (a, b) {
        (LensInstance::Footprint(x), LensInstance::Footprint(y)) => {
            assert(x@ =~= y@);
        },
        (LensInstance::VolumeProfile(x), LensInstance::VolumeProfile(y)) => {
            assert(x@ =~= y@);
        },
        _ => {},
    }
}

/// Integrating a trade is deterministic on the models: lenses with the same
/// model that integrate the same trade end with the same model.
pub proof fn lemma_absorbs_unique(a1: LensInstance, a2: LensInstance, t: Trade, b1: LensInstance, b2: LensInstance)
    requires
        a1.same_as(a2),
        a1.wf(),
        a2.wf(),
        b1.wf(),
        b2.wf(),
        a1.absorbs(t, b1),
        a2.absorbs(t, b2),
    ensures
        b1.same_as(b2),
{
    match (a1, a2, b1, b2) {
        (
            LensInstance::Footprint(x1),
            LensInstance::Footprint(x2),
            LensInstance::Footprint(y1),
            LensInstance::Footprint(y2),
        ) => {
            assert forall|q: Px| #[trigger] lookup(y1.cells@, q) == lookup(y2.cells@, q) by {
                assert(lookup(y1.cells@, q) == lookup(y1.cells@, q));
            }
            lemma_table_ext(y1.cells@, y2.cells@);
        },
        (
            LensInstance::VolumeProfile(x1),
            LensInstance::VolumeProfile(x2),
            LensInstance::VolumeProfile(y1),
            LensInstance::VolumeProfile(y2),
        ) => {
            assert forall|q: Px| #[trigger] lookup(y1.by_price@, q) == lookup(y2.by_price@, q) by {
                assert(lookup(y1.by_price@, q) == lookup(y1.by_price@, q));
            }
            lemma_table_ext(y1.by_price@, y2.by_price@);
        },
        (LensInstance::Tpo(x1), LensInstance::Tpo(x2), LensInstance::Tpo(y1), LensInstance::Tpo(y2)) => {
            assert forall|q: Px| #[trigger] lookup(y1.profile(), q) == lookup(y2.profile(), q) by {
                x1.lemma_profile_lookup(q);
                x2.lemma_profile_lookup(q);
                y1.lemma_profile_lookup(q);
                y2.lemma_profile_lookup(q);
                if q == t.price {
                    let v1 = lookup(y1.by_price@, q).unwrap();
                    let v2 = lookup(y2.by_price@, q).unwrap();
                    x1.lemma_profile_lookup(t.price);
                    assert(x1.bracket_of(t) == x2.bracket_of(t));
                    assert forall|y: u32| #[trigger] v1@.contains(y) <==> v2@.contains(y) by {
                        assert(v1@.contains(y) <==> (y == x1.bracket_of(t) || (lookup(x1.by_price@, t.price) matches Some(o) && o@.contains(y))));
                        assert(v2@.contains(y) <==> (y == x2.bracket_of(t) || (lookup(x2.by_price@, t.price) matches Some(o) && o@.contains(y))));
                    }
                    lemma_lookup_in_wf(y1, q);
                    lemma_lookup_in_wf(y2, q);
                    lemma_ordered_set_ext(v1@, v2@);
                } else {
                    assert(lookup(y1.by_price@, q) == lookup(x1.by_price@, q));
                    assert(lookup(y2.by_price@, q) == lookup(x2.by_price@, q));
                }
            }
            y1.lemma_profile_lookup(t.price);
            y2.lemma_profile_lookup(t.price);
            lemma_table_ext(y1.profile(), y2.profile());
        },
        _ => {},
    }
}

/// The set stored at a price of a consistent profile is ordered.
proof fn lemma_lookup_in_wf(t: Tpo, q: Px)
    requires
        t.wf(),
        lookup(t.by_price@, q) is Some,
    ensures
        strictly_increasing(lookup(t.by_price@, q).unwrap()@),
{
    let i = choose|i: int| 0 <= i < t.by_price@.len() && #[trigger] t.by_price@[i].0 == q;
    lemma_lookup_at(t.by_price@, i);
    assert(strictly_increasing(t.by_price@[i].1@));
}

/// Two lenses opened by the same kind on the same trade are the same lens.
pub proof fn lemma_opened_unique(l1: LensInstance, l2: LensInstance, k: LensKind, t: Trade)
    requires
        l1.opened_by(k, t),
        l2.opened_by(k, t),
        l1.wf(),
        l2.wf(),
        kind_opens_on(k, t),
    ensures
        l1.same_as(l2),
{
    let f1 = choose|f: LensInstance| #[trigger] f.is_fresh(k) && f.absorbs(t, l1);
    let f2 = choose|f: LensInstance| #[trigger] f.is_fresh(k) && f.absorbs(t, l2);
    lemma_fresh_wf(f1, k, t);
    lemma_fresh_wf(f2, k, t);
    lemma_fresh_same(f1, f2, k);
    lemma_absorbs_unique(f1, f2, t, l1, l2);
}

// ---------------------------------------------------------------------------
// Delta and footprint

/// Aggressive buy volume minus aggressive sell volume of a cell.
pub open spec fn cell_net(c: (Qty, Qty)) -> int {
    c.0 - c.1
}

/// Aggressive buy volume minus aggressive sell volume over a footprint table.
pub open spec fn footprint_net(cells: Seq<(Px, (Qty, Qty))>) -> int
    decreases cells.len(),
{
    if cells.len() == 0 {
        0
    } else {
        footprint_net(cells.drop_last()) + cell_net(cells.last().1)
    }
}

/// Removing a cell from a table removes its net volume from the table's.
proof fn lemma_net_remove(s: Seq<(Px, (Qty, Qty))>, i: int)
    requires
        0 <= i < s.len(),
    ensures
        footprint_net(s) == footprint_net(s.remove(i)) + cell_net(s[i].1),
    decreases s.len(),
{
    if i < s.len() - 1 {
        lemma_net_remove(s.drop_last(), i);
        assert(s.drop_last().remove(i) =~= s.remove(i).drop_last());
    } else {
        assert(s.remove(i) =~= s.drop_last());
    }
}

/// The net volume of a sorted table is that of the table without price `p`
/// plus that of the cell at `p` (none counts as zero).
proof fn lemma_net_split(s: Seq<(Px, (Qty, Qty))>, p: Px) -> (rest: Seq<(Px, (Qty, Qty))>)
    requires
        keys_sorted(s),
    ensures
        keys_sorted(rest),
        lookup(rest, p) is None,
        forall|q: Px| q != p ==> #[trigger] lookup(rest, q) == lookup(s, q),
        footprint_net(s) == footprint_net(rest) + cell_net(lookup_or(s, p, (0u64, 0u64))),
{
    if has_key(s, p) {
        let i = choose|i: int| 0 <= i < s.len() && #[trigger] s[i].0 == p;
        lemma_lookup_at(s, i);
        crate::levels::lemma_remove(s, i);
        lemma_net_remove(s, i);
        s.remove(i)
    } else {
        s
    }
}

/// Law: the delta of a bar is derivable from its footprint — it is the buy
/// volume minus the sell volume over the footprint's cells. If a delta and a
/// footprint agree, they still agree once both integrate the same trade (whose
/// size fits an `i64`, as the delta reads it).
pub proof fn lemma_delta_from_footprint(f1: Footprint, f2: Footprint, d1: Delta, d2: Delta, t: Trade)
    requires
        f1.wf(),
        f2.wf(),
        f1.accepts(t),
        f1.absorbs(t, f2),
        d1.absorbs(t, d2),
        d1.amount() == footprint_net(f1@),
        t.size <= i64::MAX,
    ensures
        d2.amount() == footprint_net(f2@),
{
    let r1 = lemma_net_split(f1@, t.price);
    let r2 = lemma_net_split(f2@, t.price);
    assert forall|q: Px| #[trigger] lookup(r1, q) == lookup(r2, q) by {
        if q != t.price {
            assert(lookup(f2.cells@, q) == lookup(f1.cells@, q));
        }
    }
    lemma_table_ext(r1, r2);
    assert(lookup(f2.cells@, t.price) == Some(cell_with(lookup_or(f1.cells@, t.price, (0u64, 0u64)), t)));
}

/// Law: the VWAP of a bar lies within the bar's low and high. If the VWAP's
/// sums sit between `low` and `high` times the volume, they still do, for the
/// range widened to the price of the next trade, once that trade is integrated
/// (a fresh VWAP, with zero sums, sits within any range).
pub proof fn lemma_vwap_in_range(v1: Vwap, v2: Vwap, t: Trade, low: int, high: int)
    requires
        low * v1.denominator() <= v1.numerator() <= high * v1.denominator(),
        v1.absorbs(t, v2),
    ensures
        (if t.price < low { t.price as int } else { low }) * v2.denominator() <= v2.numerator(),
        v2.numerator() <= (if t.price > high { t.price as int } else { high }) * v2.denominator(),
{
    let lo = if t.price < low { t.price as int } else { low };
    let hi = if t.price > high { t.price as int } else { high };
    let d = v1.denominator();
    let n = v1.numerator();
    let p = t.price as int;
    let sz = t.size as int;
    assert(lo * (d + sz) <= n + p * sz) by (nonlinear_arith)
        requires
            lo <= low,
            lo <= p,
            d >= 0,
            sz >= 0,
            low * d <= n,
    ;
    assert(n + p * sz <= hi * (d + sz)) by (nonlinear_arith)
        requires
            hi >= high,
            hi >= p,
            d >= 0,
            sz >= 0,
            n <= high * d,
    ;
}

} // verus!
