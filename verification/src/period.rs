//! Periods: the rules that decide when a bar closes.
use vstd::prelude::*;

use crate::canonical::{AggressorSide, Granularity, Px, Qty, Trade, Ts};
use crate::text::{decimal, labelled, labelled_plain};

verus! {

/// `x` is representable as an `i64`.
pub open spec fn fits_i64(x: int) -> bool {
    i64::MIN <= x <= i64::MAX
}

/// `x` is representable as an `i128`.
pub open spec fn fits_i128(x: int) -> bool {
    i128::MIN <= x <= i128::MAX
}

/// Aggressive sign of a side: `+1` buy, `-1` sell, `0` unknown.
pub open spec fn sign_of(a: AggressorSide) -> int {
    match a {
        AggressorSide::Buy => 1,
        AggressorSide::Sell => -1,
        AggressorSide::Unknown => 0,
    }
}

/// Aggressive sign of a trade: `+1` buy, `-1` sell, `0` unknown.
fn signed(t: &Trade) -> (r: i64)
    ensures
        r == sign_of(t.aggressor),
{
    match t.aggressor {
        AggressorSide::Buy => 1,
        AggressorSide::Sell => -1,
        AggressorSide::Unknown => 0,
    }
}

/// Whether an `i128` value is representable as an `i64`.
fn fits_i64_exec(x: i128) -> (r: bool)
    ensures
        r == fits_i64(x as int),
{
    (i64::MIN as i128) <= x && x <= (i64::MAX as i128)
}

/// Whether the distance between two prices, and its absolute value, fit an `i64`.
fn distance_ok(x: i64, y: i64) -> (r: bool)
    ensures
        r == distance_fits(x as int, y as int),
{
    let d = (x as i128) - (y as i128);
    fits_i64_exec(d) && d != (i64::MIN as i128)
}

/// A quantity carrying the aggressive sign of `t`.
fn signed_times(t: &Trade, x: i128) -> (r: i128)
    requires
        x > i128::MIN,
    ensures
        r == sign_of(t.aggressor) * x,
{
    match t.aggressor {
        AggressorSide::Buy => x,
        AggressorSide::Sell => -x,
        AggressorSide::Unknown => 0,
    }
}

/// Outcome of examining a trade.
#[derive(Debug, Clone, Copy, PartialEq, Eq, Structural)]
pub enum Boundary {
    /// The trade belongs to the current bar.
    Continue,
    /// The trade opens a new bar `[start, end)`: close the current one first.
    /// `partial`: the new bar starts incomplete (the stream began mid-window).
    CloseAndOpen { start: Ts, end: Ts, partial: bool },
}

/// The boundary of a bar opened by `t` alone, with an empty window at its time.
pub open spec fn opens_at(t: Trade) -> Boundary {
    Boundary::CloseAndOpen { start: t.ts, end: t.ts, partial: false }
}

/// The text of a label, as a sequence of characters.
pub type LabelText = Seq<char>;

/// Common contract of the bar-closing rules.
pub trait Period: Sized {
    /// The parameters are valid and the internal state is consistent.
    spec fn wf(&self) -> bool;

    /// The trade can be examined without arithmetic overflow.
    spec fn accepts(&self, t: Trade) -> bool;

    /// The rule's state after `t`, and the decision it takes on `t`.
    spec fn transition(&self, t: Trade) -> (Self, Boundary);

    /// The label under which the bars are published.
    spec fn label_text(&self) -> LabelText;

    /// Examines a trade and says whether to close and open a bar.
    fn on_trade(&mut self, t: &Trade) -> (b: Boundary)
        requires
            old(self).wf(),
            old(self).accepts(*t),
        ensures
            final(self).wf(),
            (*final(self), b) == old(self).transition(*t),
    ;

    /// Whether `t` can be examined without arithmetic overflow.
    fn can_take(&self, t: &Trade) -> (r: bool)
        requires
            self.wf(),
        ensures
            r == self.accepts(*t),
    ;

    /// Whether the parameters are valid and the internal state is consistent.
    fn is_valid(&self) -> (r: bool)
        ensures
            r == self.wf(),
    ;

    /// Minimal data granularity that the rule needs.
    spec fn required_granularity(&self) -> Granularity;

    /// Minimal data granularity that the rule needs.
    fn min_granularity(&self) -> (g: Granularity)
        ensures
            g == self.required_granularity(),
    ;

    /// Label for the output.
    fn label(&self) -> (s: String)
        requires
            self.wf(),
        ensures
            s@ == self.label_text(),
    ;
}

/// The state a rule reaches after the trades of `ts`, in order.
pub open spec fn fed<P: Period>(p: P, ts: Seq<Trade>) -> P
    decreases ts.len(),
{
    if ts.len() == 0 {
        p
    } else {
        fed(p, ts.drop_last()).transition(ts.last()).0
    }
}

/// The decision the rule takes on the last trade of `ts`.
pub open spec fn decision<P: Period>(p: P, ts: Seq<Trade>) -> Boundary
    recommends
        ts.len() > 0,
{
    fed(p, ts.drop_last()).transition(ts.last()).1
}

/// Floor division by a positive divisor: the quotient lies between `d` and 0,
/// and `q * i <= d < (q + 1) * i`.
pub proof fn lemma_floor_div(d: int, i: int)
    requires
        i > 0,
    ensures
        (d / i) * i <= d < (d / i + 1) * i,
        d >= 0 ==> 0 <= d / i <= d,
        d < 0 ==> d <= d / i < 0,
        (d / i) * i == d - d % i,
        0 <= d % i < i,
{
    vstd::arithmetic::div_mod::lemma_fundamental_div_mod(d, i);
    let q = d / i;
    let r = d % i;
    assert(q * i == i * q) by (nonlinear_arith);
    assert(q * i <= d < (q + 1) * i) by (nonlinear_arith)
        requires
            d == i * q + r,
            0 <= r < i,
    ;
    assert(d >= 0 ==> 0 <= q <= d) by (nonlinear_arith)
        requires
            d == i * q + r,
            0 <= r < i,
            i > 0,
    ;
    assert(d < 0 ==> d <= q < 0) by (nonlinear_arith)
        requires
            d == i * q + r,
            0 <= r < i,
            i > 0,
    ;
}

// ---------------------------------------------------------------------------
// Time

/// Fixed-duration bars: windows `[base + k*interval, base + (k+1)*interval)`
/// where `base` is the time of the first trade seen.
#[derive(Debug, Clone, Copy, PartialEq, Eq, Structural)]
pub struct TimePeriod {
    pub interval_ns: i64,
    pub base: Option<Ts>,
    pub current_end: Ts,
}

/// End of the window relative to `base` that holds `ts`.
pub open spec fn window_end(base: int, ts: int, interval: int) -> int {
    base + ((ts - base) / interval + 1) * interval
}

/// Every intermediate value of `window_end` fits an `i64`.
pub open spec fn window_end_fits(base: int, ts: int, interval: int) -> bool {
    let k = (ts - base) / interval;
    &&& fits_i64(ts - base)
    &&& fits_i64(k + 1)
    &&& fits_i64((k + 1) * interval)
    &&& fits_i64(window_end(base, ts, interval))
    &&& fits_i64(window_end(base, ts, interval) - interval)
}

impl TimePeriod {
    /// A period of `interval_ns` nanoseconds (must be positive).
    pub fn new(interval_ns: i64) -> (p: Self)
        requires
            interval_ns > 0,
        ensures
            p.wf(),
            p.interval() == interval_ns,
            p.base() is None,
            p == TimePeriod::fresh(interval_ns),
    {
        TimePeriod { interval_ns, base: None, current_end: 0 }
    }

    /// A time rule that has seen no trade.
    pub open spec fn fresh(interval_ns: i64) -> Self {
        TimePeriod { interval_ns, base: None, current_end: 0 }
    }

    /// Duration of a window.
    pub open spec fn interval(self) -> int {
        self.interval_ns as int
    }

    /// Time of the first trade seen, which anchors the grid.
    pub open spec fn base(self) -> Option<Ts> {
        self.base
    }

    /// End of the current window.
    pub open spec fn current_end(self) -> int {
        self.current_end as int
    }

    fn window_end_for(&self, base: Ts, ts: Ts) -> (e: Ts)
        requires
            self.interval_ns > 0,
            window_end_fits(base as int, ts as int, self.interval_ns as int),
        ensures
            e == window_end(base as int, ts as int, self.interval_ns as int),
    {
        let d = ts - base;
        proof {
            let i = self.interval_ns as int;
            lemma_floor_div(d as int, i);
        }
        let k = match d.checked_div_euclid(self.interval_ns) {
            Some(k) => k,
            None => 0,
        };
        base + (k + 1) * self.interval_ns
    }
}

/// Whether every intermediate value of `window_end` fits an `i64`.
fn window_end_ok(base: i64, ts: i64, interval: i64) -> (r: bool)
    requires
        interval > 0,
    ensures
        r == window_end_fits(base as int, ts as int, interval as int),
{
    let d = (ts as i128) - (base as i128);
    if !fits_i64_exec(d) {
        return false;
    }
    let d64 = d as i64;
    proof {
        lemma_floor_div(d64 as int, interval as int);
    }
    let k = match d64.checked_div_euclid(interval) {
        Some(k) => k,
        None => 0,
    };
    let k1 = (k as i128) + 1;
    if !fits_i64_exec(k1) {
        return false;
    }
    proof {
        assert(-0x8000_0000_0000_0000 * 0x7fff_ffff_ffff_ffff <= k1 * interval
            <= 0x8000_0000_0000_0000 * 0x7fff_ffff_ffff_ffff) by (nonlinear_arith)
            requires
                i64::MIN <= k1 <= i64::MAX,
                0 < interval <= i64::MAX,
        ;
    }
    let m = k1 * (interval as i128);
    if !fits_i64_exec(m) {
        return false;
    }
    let e = (base as i128) + m;
    fits_i64_exec(e) && fits_i64_exec(e - (interval as i128))
}

impl Period for TimePeriod {
    /// Rules on the tape need `L1`.
    open spec fn required_granularity(&self) -> Granularity {
        Granularity::L1
    }

    fn min_granularity(&self) -> (g: Granularity) {
        Granularity::L1
    }

    open spec fn wf(&self) -> bool {
        &&& self.interval_ns > 0
        &&& (self.base matches Some(b) ==> self.current_end > b)
    }

    open spec fn accepts(&self, t: Trade) -> bool {
        match self.base {
            None => fits_i64(t.ts + self.interval_ns),
            Some(b) => t.ts < self.current_end || window_end_fits(
                b as int,
                t.ts as int,
                self.interval_ns as int,
            ),
        }
    }

    open spec fn transition(&self, t: Trade) -> (Self, Boundary) {
        let i = self.interval_ns as int;
        match self.base {
            None => (
                TimePeriod {
                    base: Some(t.ts),
                    current_end: (t.ts + i) as i64,
                    ..*self
                },
                Boundary::CloseAndOpen { start: t.ts, end: (t.ts + i) as i64, partial: false },
            ),
            Some(b) => if t.ts < self.current_end {
                (*self, Boundary::Continue)
            } else {
                let e = window_end(b as int, t.ts as int, i);
                (
                    TimePeriod { current_end: e as i64, ..*self },
                    Boundary::CloseAndOpen {
                        start: (e - i) as i64,
                        end: e as i64,
                        partial: false,
                    },
                )
            },
        }
    }

    open spec fn label_text(&self) -> Seq<char> {
        "time:"@ + decimal(self.interval_ns as nat) + "ns"@
    }

    fn on_trade(&mut self, t: &Trade) -> (b: Boundary) {
        match self.base {
            None => {
                let base = t.ts;
                self.base = Some(base);
                proof {
                    assert(window_end(base as int, t.ts as int, self.interval_ns as int) == t.ts
                        + self.interval_ns) by (nonlinear_arith)
                        requires
                            self.interval_ns > 0,
                            base == t.ts,
                    ;
                    assert(window_end_fits(base as int, t.ts as int, self.interval_ns as int))
                        by (nonlinear_arith)
                        requires
                            self.interval_ns > 0,
                            fits_i64(t.ts + self.interval_ns),
                            base == t.ts,
                    ;
                }
                let end = self.window_end_for(base, t.ts);
                self.current_end = end;
                Boundary::CloseAndOpen { start: end - self.interval_ns, end, partial: false }
            },
            Some(base) => {
                if t.ts < self.current_end {
                    Boundary::Continue
                } else {
                    let end = self.window_end_for(base, t.ts);
                    let start = end - self.interval_ns;
                    proof {
                        let i = self.interval_ns as int;
                        let d = t.ts - base;
                        assert(d > 0);
                        assert(((d / i) + 1) * i > d) by (nonlinear_arith)
                            requires
                                i > 0,
                                d > 0,
                        {
                            vstd::arithmetic::div_mod::lemma_fundamental_div_mod(d, i);
                        }
                    }
                    self.current_end = end;
                    Boundary::CloseAndOpen { start, end, partial: false }
                }
            },
        }
    }

    fn can_take(&self, t: &Trade) -> (r: bool) {
        match self.base {
            None => t.ts.checked_add(self.interval_ns).is_some(),
            Some(b) => t.ts < self.current_end || window_end_ok(b, t.ts, self.interval_ns),
        }
    }

    fn is_valid(&self) -> (r: bool) {
        self.interval_ns > 0 && match self.base {
            Some(b) => self.current_end > b,
            None => true,
        }
    }

    fn label(&self) -> (s: String) {
        labelled("time:", self.interval_ns as u128, "ns")
    }
}

/// Law: a time window always has the period's duration, sits on the grid
/// anchored at the first trade, and holds the trade that opens it.
pub proof fn lemma_time_window(p: TimePeriod, t: Trade)
    requires
        p.wf(),
        p.accepts(t),
    ensures
        p.transition(t).1 matches Boundary::CloseAndOpen { start, end, partial } ==> {
            let b = p.transition(t).0.base().unwrap();
            &&& end - start == p.interval()
            &&& start <= t.ts < end
            &&& (start - b) % p.interval() == 0
            &&& !partial
        },
        p.transition(t).1 is Continue ==> t.ts < p.current_end(),
{
    let i = p.interval_ns as int;
    match p.base {
        None => {},
        Some(b) => {
            if t.ts >= p.current_end {
                let d = t.ts - b;
                let k = d / i;
                vstd::arithmetic::div_mod::lemma_fundamental_div_mod(d, i);
                assert(k * i <= d < (k + 1) * i) by (nonlinear_arith)
                    requires
                        i > 0,
                        d == i * k + d % i,
                        0 <= d % i < i,
                ;
                assert((k + 1) * i - i == k * i) by (nonlinear_arith);
                vstd::arithmetic::div_mod::lemma_mod_multiples_basic(k, i);
            }
        },
    }
}

// ---------------------------------------------------------------------------
// Clock-aligned time

/// Clock-aligned time bars: windows `[k*interval, (k+1)*interval)`. The first bar
/// is partial when the stream starts inside a window.
#[derive(Debug, Clone, Copy, PartialEq, Eq, Structural)]
pub struct AlignedTimePeriod {
    pub interval_ns: i64,
    pub current_end: Option<Ts>,
}

/// Start of the clock-aligned window of duration `interval` that holds `ts`.
pub open spec fn aligned_start(ts: int, interval: int) -> int {
    (ts / interval) * interval
}

impl AlignedTimePeriod {
    /// A clock-aligned period of `interval_ns` nanoseconds (must be positive).
    pub fn new(interval_ns: i64) -> (p: Self)
        requires
            interval_ns > 0,
        ensures
            p.wf(),
            p.interval() == interval_ns,
            p.current_end() is None,
            p == AlignedTimePeriod::fresh(interval_ns),
    {
        AlignedTimePeriod { interval_ns, current_end: None }
    }

    /// A clock-aligned rule that has seen no trade.
    pub open spec fn fresh(interval_ns: i64) -> Self {
        AlignedTimePeriod { interval_ns, current_end: None }
    }

    /// Duration of a window.
    pub open spec fn interval(self) -> int {
        self.interval_ns as int
    }

    /// End of the current window, once a trade has been seen.
    pub open spec fn current_end(self) -> Option<Ts> {
        self.current_end
    }

    fn window(&self, ts: Ts) -> (w: (Ts, Ts))
        requires
            self.interval_ns > 0,
            fits_i64(aligned_start(ts as int, self.interval_ns as int)),
            fits_i64(aligned_start(ts as int, self.interval_ns as int) + self.interval_ns),
        ensures
            w.0 == aligned_start(ts as int, self.interval_ns as int),
            w.1 == w.0 + self.interval_ns,
    {
        proof {
            lemma_floor_div(ts as int, self.interval_ns as int);
        }
        let k = match ts.checked_div_euclid(self.interval_ns) {
            Some(k) => k,
            None => 0,
        };
        let start = k * self.interval_ns;
        (start, start + self.interval_ns)
    }
}

impl Period for AlignedTimePeriod {
    /// Rules on the tape need `L1`.
    open spec fn required_granularity(&self) -> Granularity {
        Granularity::L1
    }

    fn min_granularity(&self) -> (g: Granularity) {
        Granularity::L1
    }

    open spec fn wf(&self) -> bool {
        self.interval_ns > 0
    }

    open spec fn accepts(&self, t: Trade) -> bool {
        &&& fits_i64(aligned_start(t.ts as int, self.interval_ns as int))
        &&& fits_i64(aligned_start(t.ts as int, self.interval_ns as int) + self.interval_ns)
    }

    open spec fn transition(&self, t: Trade) -> (Self, Boundary) {
        let start = aligned_start(t.ts as int, self.interval_ns as int);
        let end = start + self.interval_ns;
        match self.current_end {
            None => (
                AlignedTimePeriod { current_end: Some(end as i64), ..*self },
                Boundary::CloseAndOpen {
                    start: start as i64,
                    end: end as i64,
                    partial: t.ts != start,
                },
            ),
            Some(ce) => if t.ts < ce {
                (*self, Boundary::Continue)
            } else {
                (
                    AlignedTimePeriod { current_end: Some(end as i64), ..*self },
                    Boundary::CloseAndOpen { start: start as i64, end: end as i64, partial: false },
                )
            },
        }
    }

    open spec fn label_text(&self) -> Seq<char> {
        "aligned-time:"@ + decimal(self.interval_ns as nat) + "ns"@
    }

    fn on_trade(&mut self, t: &Trade) -> (b: Boundary) {
        let (start, end) = self.window(t.ts);
        match self.current_end {
            None => {
                self.current_end = Some(end);
                Boundary::CloseAndOpen { start, end, partial: t.ts != start }
            },
            Some(ce) => {
                if t.ts < ce {
                    Boundary::Continue
                } else {
                    self.current_end = Some(end);
                    Boundary::CloseAndOpen { start, end, partial: false }
                }
            },
        }
    }

    fn can_take(&self, t: &Trade) -> (r: bool) {
        proof {
            lemma_floor_div(t.ts as int, self.interval_ns as int);
        }
        let k = match t.ts.checked_div_euclid(self.interval_ns) {
            Some(k) => k,
            None => 0,
        };
        proof {
            assert(-0x8000_0000_0000_0000 * 0x7fff_ffff_ffff_ffff <= k * self.interval_ns
                <= 0x8000_0000_0000_0000 * 0x7fff_ffff_ffff_ffff) by (nonlinear_arith)
                requires
                    i64::MIN <= k <= i64::MAX,
                    0 < self.interval_ns <= i64::MAX,
            ;
        }
        let start = (k as i128) * (self.interval_ns as i128);
        fits_i64_exec(start) && fits_i64_exec(start + (self.interval_ns as i128))
    }

    fn is_valid(&self) -> (r: bool) {
        self.interval_ns > 0
    }

    fn label(&self) -> (s: String) {
        labelled("aligned-time:", self.interval_ns as u128, "ns")
    }
}

/// Law: an aligned window starts on a multiple of the interval, lasts one
/// interval and holds the trade that opens it; only the very first bar can be
/// partial, and it is partial exactly when its trade is not on the window start.
pub proof fn lemma_aligned_window(p: AlignedTimePeriod, t: Trade)
    requires
        p.wf(),
        p.accepts(t),
    ensures
        p.transition(t).1 matches Boundary::CloseAndOpen { start, end, partial } ==> {
            &&& (start as int) % p.interval() == 0
            &&& end == start + p.interval()
            &&& start <= t.ts < end
            &&& partial == (p.current_end() is None && t.ts != start)
        },
        p.transition(t).1 is Continue ==> (p.current_end() matches Some(ce) && t.ts < ce),
{
    let i = p.interval_ns as int;
    lemma_floor_div(t.ts as int, i);
    vstd::arithmetic::div_mod::lemma_mod_multiples_basic(t.ts as int / i, i);
}

// ---------------------------------------------------------------------------
// Tick

/// Bars of `n` trades each.
#[derive(Debug, Clone, Copy, PartialEq, Eq, Structural)]
pub struct TickPeriod {
    pub n: u64,
    pub count: u64,
}

impl TickPeriod {
    /// Bars of `n` trades (must be positive).
    pub fn new(n: u64) -> (p: Self)
        requires
            n > 0,
        ensures
            p.wf(),
            p == TickPeriod::fresh(n),
    {
        TickPeriod { n, count: 0 }
    }

    /// A rule of `n` trades per bar that has seen no trade.
    pub open spec fn fresh(n: u64) -> Self {
        TickPeriod { n, count: 0 }
    }

    /// Number of trades in the current bar.
    pub open spec fn count(self) -> int {
        self.count as int
    }

    /// Number of trades per bar.
    pub open spec fn bar_size(self) -> int {
        self.n as int
    }
}

impl Period for TickPeriod {
    /// Rules on the tape need `L1`.
    open spec fn required_granularity(&self) -> Granularity {
        Granularity::L1
    }

    fn min_granularity(&self) -> (g: Granularity) {
        Granularity::L1
    }

    open spec fn wf(&self) -> bool {
        self.n > 0 && self.count <= self.n
    }

    open spec fn accepts(&self, t: Trade) -> bool {
        true
    }

    open spec fn transition(&self, t: Trade) -> (Self, Boundary) {
        if self.count == 0 || self.count >= self.n {
            (TickPeriod { count: 1, ..*self }, opens_at(t))
        } else {
            (TickPeriod { count: (self.count + 1) as u64, ..*self }, Boundary::Continue)
        }
    }

    open spec fn label_text(&self) -> Seq<char> {
        "tick:"@ + decimal(self.n as nat)
    }

    fn on_trade(&mut self, t: &Trade) -> (b: Boundary) {
        if self.count == 0 || self.count >= self.n {
            self.count = 1;
            Boundary::CloseAndOpen { start: t.ts, end: t.ts, partial: false }
        } else {
            self.count = self.count + 1;
            Boundary::Continue
        }
    }

    fn can_take(&self, t: &Trade) -> (r: bool) {
        true
    }

    fn is_valid(&self) -> (r: bool) {
        self.n > 0 && self.count <= self.n
    }

    fn label(&self) -> (s: String) {
        labelled_plain("tick:", self.n as u128)
    }
}

/// Law: fed from a fresh state, a tick rule opens a bar exactly at every `n`-th
/// trade (the 1st, the `n+1`-th, ...), so each bar holds `n` trades.
pub proof fn lemma_tick_every_nth(n: u64, ts: Seq<Trade>)
    requires
        n > 0,
        ts.len() > 0,
    ensures
        decision(TickPeriod::fresh(n), ts) is CloseAndOpen <==> (ts.len() - 1) % (n as int) == 0,
        decision(TickPeriod::fresh(n), ts) is CloseAndOpen ==> decision(TickPeriod::fresh(n), ts)
            == opens_at(ts.last()),
        fed(TickPeriod::fresh(n), ts).count() == (ts.len() - 1) % (n as int) + 1,
        fed(TickPeriod::fresh(n), ts).bar_size() == n,
    decreases ts.len(),
{
    let p = TickPeriod::fresh(n);
    let k = ts.len() - 1;
    if k == 0 {
        assert(ts.drop_last().len() == 0);
        assert(fed(p, ts.drop_last()) == p);
        assert(0int % (n as int) == 0) by (nonlinear_arith) requires n > 0;
        assert(decision(p, ts) == p.transition(ts.last()).1);
        assert(decision(p, ts) is CloseAndOpen);
    } else {
        let prev = ts.drop_last();
        lemma_tick_every_nth(n, prev);
        assert(fed(p, prev) == fed(p, prev.drop_last()).transition(prev.last()).0);
        let c = fed(p, prev).count;
        assert(c == (k - 1) % (n as int) + 1);
        assert(fed(p, ts) == fed(p, prev).transition(ts.last()).0);
        assert(decision(p, ts) == fed(p, prev).transition(ts.last()).1);
        let nn = n as int;
        let q = (k - 1) / nn;
        let r = (k - 1) % nn;
        lemma_floor_div(k - 1, nn);
        assert(k - 1 == q * nn + r);
        if c >= n {
            assert(r == nn - 1);
            assert(k == (q + 1) * nn + 0) by (nonlinear_arith)
                requires
                    k - 1 == q * nn + r,
                    r == nn - 1,
            ;
            vstd::arithmetic::div_mod::lemma_fundamental_div_mod_converse(k, nn, q + 1, 0);
            assert(decision(p, ts) is CloseAndOpen);
        } else {
            assert(k == q * nn + (r + 1));
            vstd::arithmetic::div_mod::lemma_fundamental_div_mod_converse(k, nn, q, r + 1);
            assert(decision(p, ts) is Continue);
            assert(k % nn != 0);
        }
    }
}

// ---------------------------------------------------------------------------
// Volume

/// Volume bars: a bar closes once its accumulated volume reaches the threshold
/// (the bar includes the trade that crosses it).
#[derive(Debug, Clone, Copy, PartialEq, Eq, Structural)]
pub struct VolumePeriod {
    pub threshold: Qty,
    pub acc: Qty,
    pub open: bool,
}

impl VolumePeriod {
    /// Volume bars of `threshold` (must be positive).
    pub fn new(threshold: Qty) -> (p: Self)
        requires
            threshold > 0,
        ensures
            p.wf(),
            p == VolumePeriod::fresh(threshold),
    {
        VolumePeriod { threshold, acc: 0, open: false }
    }

    /// A volume rule that has seen no trade.
    pub open spec fn fresh(threshold: Qty) -> Self {
        VolumePeriod { threshold, acc: 0, open: false }
    }

    /// Volume accumulated in the current bar.
    pub open spec fn accumulated(self) -> int {
        self.acc as int
    }
}

impl Period for VolumePeriod {
    /// Rules on the tape need `L1`.
    open spec fn required_granularity(&self) -> Granularity {
        Granularity::L1
    }

    fn min_granularity(&self) -> (g: Granularity) {
        Granularity::L1
    }

    open spec fn wf(&self) -> bool {
        self.threshold > 0
    }

    open spec fn accepts(&self, t: Trade) -> bool {
        (self.open && self.acc < self.threshold) ==> self.acc + t.size <= u64::MAX
    }

    open spec fn transition(&self, t: Trade) -> (Self, Boundary) {
        if !self.open || self.acc >= self.threshold {
            (VolumePeriod { open: true, acc: t.size, ..*self }, opens_at(t))
        } else {
            (VolumePeriod { acc: (self.acc + t.size) as u64, ..*self }, Boundary::Continue)
        }
    }

    open spec fn label_text(&self) -> Seq<char> {
        "volume:"@ + decimal(self.threshold as nat)
    }

    fn on_trade(&mut self, t: &Trade) -> (b: Boundary) {
        if !self.open || self.acc >= self.threshold {
            self.open = true;
            self.acc = t.size;
            Boundary::CloseAndOpen { start: t.ts, end: t.ts, partial: false }
        } else {
            self.acc = self.acc + t.size;
            Boundary::Continue
        }
    }

    fn can_take(&self, t: &Trade) -> (r: bool) {
        !(self.open && self.acc < self.threshold) || t.size <= u64::MAX - self.acc
    }

    fn is_valid(&self) -> (r: bool) {
        self.threshold > 0
    }

    fn label(&self) -> (s: String) {
        labelled_plain("volume:", self.threshold as u128)
    }
}

// ---------------------------------------------------------------------------
// Dollar

/// Dollar (notional) bars: a bar closes once `sum(price * size)` reaches the
/// threshold.
#[derive(Debug, Clone, Copy, PartialEq, Eq, Structural)]
pub struct DollarPeriod {
    pub threshold: i128,
    pub acc: i128,
    pub open: bool,
}

/// Notional value of a trade.
pub open spec fn notional_of(t: Trade) -> int {
    t.price * t.size
}

/// The notional value of a trade always fits an `i128`.
pub proof fn lemma_notional_fits(t: Trade)
    ensures
        fits_i128(notional_of(t)),
        fits_i128(-notional_of(t)),
{
    let p = t.price as int;
    let s = t.size as int;
    assert(-0x8000_0000_0000_0000 <= p <= 0x7fff_ffff_ffff_ffff);
    assert(0 <= s <= 0xffff_ffff_ffff_ffff);
    assert(-0x8000_0000_0000_0000 * 0xffff_ffff_ffff_ffff <= p * s <= 0x7fff_ffff_ffff_ffff
        * 0xffff_ffff_ffff_ffff) by (nonlinear_arith)
        requires
            -0x8000_0000_0000_0000 <= p <= 0x7fff_ffff_ffff_ffff,
            0 <= s <= 0xffff_ffff_ffff_ffff,
    ;
}

impl DollarPeriod {
    /// Notional bars of `threshold` (must be positive).
    pub fn new(threshold: i128) -> (p: Self)
        requires
            threshold > 0,
        ensures
            p.wf(),
            p == DollarPeriod::fresh(threshold),
    {
        DollarPeriod { threshold, acc: 0, open: false }
    }

    /// A notional rule that has seen no trade.
    pub open spec fn fresh(threshold: i128) -> Self {
        DollarPeriod { threshold, acc: 0, open: false }
    }

    /// Notional accumulated in the current bar.
    pub open spec fn accumulated(self) -> int {
        self.acc as int
    }

    fn notional(t: &Trade) -> (n: i128)
        ensures
            n == notional_of(*t),
    {
        proof {
            lemma_notional_fits(*t);
        }
        (t.price as i128) * (t.size as i128)
    }
}

impl Period for DollarPeriod {
    /// Rules on the tape need `L1`.
    open spec fn required_granularity(&self) -> Granularity {
        Granularity::L1
    }

    fn min_granularity(&self) -> (g: Granularity) {
        Granularity::L1
    }

    open spec fn wf(&self) -> bool {
        self.threshold > 0
    }

    open spec fn accepts(&self, t: Trade) -> bool {
        (self.open && self.acc < self.threshold) ==> fits_i128(self.acc + notional_of(t))
    }

    open spec fn transition(&self, t: Trade) -> (Self, Boundary) {
        if !self.open || self.acc >= self.threshold {
            (DollarPeriod { open: true, acc: notional_of(t) as i128, ..*self }, opens_at(t))
        } else {
            (
                DollarPeriod { acc: (self.acc + notional_of(t)) as i128, ..*self },
                Boundary::Continue,
            )
        }
    }

    open spec fn label_text(&self) -> Seq<char> {
        "dollar:"@ + decimal(self.threshold as nat)
    }

    fn on_trade(&mut self, t: &Trade) -> (b: Boundary) {
        if !self.open || self.acc >= self.threshold {
            self.open = true;
            self.acc = Self::notional(t);
            Boundary::CloseAndOpen { start: t.ts, end: t.ts, partial: false }
        } else {
            self.acc = self.acc + Self::notional(t);
            Boundary::Continue
        }
    }

    fn can_take(&self, t: &Trade) -> (r: bool) {
        !(self.open && self.acc < self.threshold) || self.acc.checked_add(
            DollarPeriod::notional(t),
        ).is_some()
    }

    fn is_valid(&self) -> (r: bool) {
        self.threshold > 0
    }

    fn label(&self) -> (s: String) {
        labelled_plain("dollar:", self.threshold as u128)
    }
}

// ---------------------------------------------------------------------------
// Range

/// Range bars: the spread `high - low` of a bar stays within `range`; the trade
/// that would exceed it opens a new bar.
#[derive(Debug, Clone, Copy, PartialEq, Eq, Structural)]
pub struct RangePeriod {
    pub range: i64,
    pub lo: Px,
    pub hi: Px,
    pub open: bool,
}

/// Larger of two integers.
pub open spec fn max_int(a: int, b: int) -> int {
    if a >= b { a } else { b }
}

/// Smaller of two integers.
pub open spec fn min_int(a: int, b: int) -> int {
    if a <= b { a } else { b }
}

impl RangePeriod {
    /// Range bars of spread `range` (must be positive).
    pub fn new(range: i64) -> (p: Self)
        requires
            range > 0,
        ensures
            p.wf(),
            p == RangePeriod::fresh(range),
    {
        RangePeriod { range, lo: 0, hi: 0, open: false }
    }

    /// A range rule that has seen no trade.
    pub open spec fn fresh(range: i64) -> Self {
        RangePeriod { range, lo: 0, hi: 0, open: false }
    }

    /// The allowed spread.
    pub open spec fn range(self) -> int {
        self.range as int
    }

    /// Lowest and highest price of the current bar, once a bar is open.
    pub open spec fn span(self) -> Option<(Px, Px)> {
        if self.open { Some((self.lo, self.hi)) } else { None }
    }
}

impl Period for RangePeriod {
    /// Rules on the tape need `L1`.
    open spec fn required_granularity(&self) -> Granularity {
        Granularity::L1
    }

    fn min_granularity(&self) -> (g: Granularity) {
        Granularity::L1
    }

    open spec fn wf(&self) -> bool {
        &&& self.range > 0
        &&& self.open ==> self.lo <= self.hi && self.hi - self.lo <= self.range
    }

    open spec fn accepts(&self, t: Trade) -> bool {
        self.open ==> fits_i64(max_int(self.hi as int, t.price as int) - min_int(self.lo as int, t.price as int))
    }

    open spec fn transition(&self, t: Trade) -> (Self, Boundary) {
        if !self.open {
            (RangePeriod { open: true, lo: t.price, hi: t.price, ..*self }, opens_at(t))
        } else {
            let nh = max_int(self.hi as int, t.price as int);
            let nl = min_int(self.lo as int, t.price as int);
            if nh - nl > self.range {
                (RangePeriod { lo: t.price, hi: t.price, ..*self }, opens_at(t))
            } else {
                (RangePeriod { lo: nl as i64, hi: nh as i64, ..*self }, Boundary::Continue)
            }
        }
    }

    open spec fn label_text(&self) -> Seq<char> {
        "range:"@ + decimal(self.range as nat)
    }

    fn on_trade(&mut self, t: &Trade) -> (b: Boundary) {
        if !self.open {
            self.open = true;
            self.lo = t.price;
            self.hi = t.price;
            return Boundary::CloseAndOpen { start: t.ts, end: t.ts, partial: false };
        }
        let new_hi = if self.hi >= t.price { self.hi } else { t.price };
        let new_lo = if self.lo <= t.price { self.lo } else { t.price };
        if new_hi - new_lo > self.range {
            self.lo = t.price;
            self.hi = t.price;
            Boundary::CloseAndOpen { start: t.ts, end: t.ts, partial: false }
        } else {
            self.hi = new_hi;
            self.lo = new_lo;
            Boundary::Continue
        }
    }

    fn can_take(&self, t: &Trade) -> (r: bool) {
        if !self.open {
            return true;
        }
        let hi = if t.price > self.hi { t.price } else { self.hi };
        let lo = if t.price < self.lo { t.price } else { self.lo };
        fits_i64_exec((hi as i128) - (lo as i128))
    }

    fn is_valid(&self) -> (r: bool) {
        self.range > 0 && (!self.open || (self.lo <= self.hi && (self.hi as i128) - (self.lo as i128)
            <= self.range as i128))
    }

    fn label(&self) -> (s: String) {
        labelled_plain("range:", self.range as u128)
    }
}

/// Law: a range bar never spans more than `range`, and it holds every price it
/// has absorbed: after a trade, the bar's span contains the trade's price, and
/// a trade that continues the bar widens the span only to include its price.
pub proof fn lemma_range_span(p: RangePeriod, t: Trade)
    requires
        p.wf(),
        p.accepts(t),
    ensures
        p.transition(t).0.span() matches Some((lo, hi)) && lo <= t.price <= hi && hi - lo <= p.range(),
        p.transition(t).1 is Continue ==> (p.span() matches Some((lo0, hi0)) && p.transition(t).0.span()
            == Some((min_int(lo0 as int, t.price as int) as i64, max_int(hi0 as int, t.price as int) as i64))),
        p.transition(t).1 is CloseAndOpen ==> p.transition(t).0.span() == Some((t.price, t.price)),
{
}

// ---------------------------------------------------------------------------
// Renko

/// Simplified Renko bars: a new brick opens when the price moves at least
/// `brick` away from the opening price of the current bar.
#[derive(Debug, Clone, Copy, PartialEq, Eq, Structural)]
pub struct RenkoPeriod {
    pub brick: i64,
    pub reference: Px,
    pub open: bool,
}

/// Absolute value.
pub open spec fn abs_int(x: int) -> int {
    if x < 0 { -x } else { x }
}

/// `x - y` and its absolute value fit an `i64`.
pub open spec fn distance_fits(x: int, y: int) -> bool {
    fits_i64(x - y) && fits_i64(abs_int(x - y))
}

impl RenkoPeriod {
    /// Renko bars of brick size `brick` (must be positive).
    pub fn new(brick: i64) -> (p: Self)
        requires
            brick > 0,
        ensures
            p.wf(),
            p == RenkoPeriod::fresh(brick),
    {
        RenkoPeriod { brick, reference: 0, open: false }
    }

    /// A Renko rule that has seen no trade.
    pub open spec fn fresh(brick: i64) -> Self {
        RenkoPeriod { brick, reference: 0, open: false }
    }

    /// Brick size.
    pub open spec fn brick(self) -> int {
        self.brick as int
    }

    /// Reference price of the current brick, once one is open.
    pub open spec fn anchor(self) -> Option<Px> {
        if self.open { Some(self.reference) } else { None }
    }
}

impl Period for RenkoPeriod {
    /// Rules on the tape need `L1`.
    open spec fn required_granularity(&self) -> Granularity {
        Granularity::L1
    }

    fn min_granularity(&self) -> (g: Granularity) {
        Granularity::L1
    }

    open spec fn wf(&self) -> bool {
        self.brick > 0
    }

    open spec fn accepts(&self, t: Trade) -> bool {
        self.open ==> distance_fits(t.price as int, self.reference as int)
    }

    open spec fn transition(&self, t: Trade) -> (Self, Boundary) {
        if !self.open || abs_int(t.price - self.reference) >= self.brick {
            (RenkoPeriod { open: true, reference: t.price, ..*self }, opens_at(t))
        } else {
            (*self, Boundary::Continue)
        }
    }

    open spec fn label_text(&self) -> Seq<char> {
        "renko:"@ + decimal(self.brick as nat)
    }

    fn on_trade(&mut self, t: &Trade) -> (b: Boundary) {
        if !self.open || abs_i64(t.price - self.reference) >= self.brick {
            self.open = true;
            self.reference = t.price;
            Boundary::CloseAndOpen { start: t.ts, end: t.ts, partial: false }
        } else {
            Boundary::Continue
        }
    }

    fn can_take(&self, t: &Trade) -> (r: bool) {
        !self.open || distance_ok(t.price, self.reference)
    }

    fn is_valid(&self) -> (r: bool) {
        self.brick > 0
    }

    fn label(&self) -> (s: String) {
        labelled_plain("renko:", self.brick as u128)
    }
}

/// Absolute value of an `i64` whose absolute value fits.
fn abs_i64(x: i64) -> (r: i64)
    requires
        x > i64::MIN,
    ensures
        r == abs_int(x as int),
{
    if x < 0 { -x } else { x }
}

/// Law: a Renko bar continues exactly while the price stays strictly less than
/// one brick away from the price that opened it.
pub proof fn lemma_renko_brick(p: RenkoPeriod, t: Trade)
    requires
        p.wf(),
        p.accepts(t),
    ensures
        p.transition(t).1 is Continue <==> (p.anchor() matches Some(r) && abs_int(t.price - r) < p.brick()),
        p.transition(t).0.anchor() == Some(if p.transition(t).1 is Continue { p.anchor().unwrap() } else { t.price }),
{
}

// ---------------------------------------------------------------------------
// Renko on a brick grid

/// Renko bars on a grid of brick levels: the reference is a multiple of `brick`,
/// so brick bounds do not depend on where the stream starts; a move of at least
/// one brick closes the bar and the new reference snaps back onto the grid,
/// which handles jumps over several bricks. Within a bar every price is less
/// than one brick from the reference, so a bar spans at most
/// `excursion_bound() = 2*brick - 1`.
#[derive(Debug, Clone, Copy, PartialEq, Eq, Structural)]
pub struct RenkoBrickPeriod {
    pub brick: i64,
    pub reference: Px,
    pub open: bool,
}

/// Grid level (multiple of `brick`) at or below `price`.
pub open spec fn snapped(price: int, brick: int) -> int {
    (price / brick) * brick
}

impl RenkoBrickPeriod {
    /// Grid Renko bars of brick size `brick` (must be positive).
    pub fn new(brick: i64) -> (p: Self)
        requires
            brick > 0,
        ensures
            p.wf(),
            p == RenkoBrickPeriod::fresh(brick),
    {
        proof {
            vstd::arithmetic::div_mod::lemma_mod_multiples_basic(0, brick as int);
        }
        RenkoBrickPeriod { brick, reference: 0, open: false }
    }

    /// A grid Renko rule that has seen no trade.
    pub open spec fn fresh(brick: i64) -> Self {
        RenkoBrickPeriod { brick, reference: 0, open: false }
    }

    /// Brick size.
    pub open spec fn brick(self) -> int {
        self.brick as int
    }

    /// Current grid reference.
    pub open spec fn reference_level(self) -> Px {
        self.reference
    }

    /// Whether a bar has been opened.
    pub open spec fn is_open(self) -> bool {
        self.open
    }

    fn snap(&self, price: Px) -> (r: Px)
        requires
            self.brick > 0,
            fits_i64(snapped(price as int, self.brick as int)),
        ensures
            r == snapped(price as int, self.brick as int),
    {
        proof {
            lemma_floor_div(price as int, self.brick as int);
        }
        let k = match price.checked_div_euclid(self.brick) {
            Some(k) => k,
            None => 0,
        };
        k * self.brick
    }

    /// Current grid reference (a multiple of `brick`).
    pub fn reference(&self) -> (r: Px)
        ensures
            r == self.reference_level(),
    {
        self.reference
    }

    /// Bound on the price excursion within a bar: `2*brick - 1`.
    pub fn excursion_bound(&self) -> (r: i64)
        requires
            self.wf(),
            2 * self.brick() <= i64::MAX,
        ensures
            r == 2 * self.brick() - 1,
    {
        2 * self.brick - 1
    }
}

impl Period for RenkoBrickPeriod {
    /// Rules on the tape need `L1`.
    open spec fn required_granularity(&self) -> Granularity {
        Granularity::L1
    }

    fn min_granularity(&self) -> (g: Granularity) {
        Granularity::L1
    }

    open spec fn wf(&self) -> bool {
        &&& self.brick > 0
        &&& self.reference % self.brick == 0
    }

    open spec fn accepts(&self, t: Trade) -> bool {
        &&& self.open ==> distance_fits(t.price as int, self.reference as int)
        &&& fits_i64(snapped(t.price as int, self.brick as int))
    }

    open spec fn transition(&self, t: Trade) -> (Self, Boundary) {
        if !self.open || abs_int(t.price - self.reference) >= self.brick {
            (
                RenkoBrickPeriod {
                    open: true,
                    reference: snapped(t.price as int, self.brick as int) as i64,
                    ..*self
                },
                opens_at(t),
            )
        } else {
            (*self, Boundary::Continue)
        }
    }

    open spec fn label_text(&self) -> Seq<char> {
        "renko-grid:"@ + decimal(self.brick as nat)
    }

    fn on_trade(&mut self, t: &Trade) -> (b: Boundary) {
        if !self.open || abs_i64(t.price - self.reference) >= self.brick {
            self.open = true;
            self.reference = self.snap(t.price);
            proof {
                lemma_floor_div(t.price as int, self.brick as int);
                vstd::arithmetic::div_mod::lemma_mod_multiples_basic(
                    t.price as int / self.brick as int,
                    self.brick as int,
                );
            }
            Boundary::CloseAndOpen { start: t.ts, end: t.ts, partial: false }
        } else {
            Boundary::Continue
        }
    }

    fn can_take(&self, t: &Trade) -> (r: bool) {
        proof {
            lemma_floor_div(t.price as int, self.brick as int);
        }
        let k = match t.price.checked_div_euclid(self.brick) {
            Some(k) => k,
            None => 0,
        };
        proof {
            assert(-0x8000_0000_0000_0000 * 0x7fff_ffff_ffff_ffff <= k * self.brick
                <= 0x8000_0000_0000_0000 * 0x7fff_ffff_ffff_ffff) by (nonlinear_arith)
                requires
                    i64::MIN <= k <= i64::MAX,
                    0 < self.brick <= i64::MAX,
            ;
        }
        (!self.open || distance_ok(t.price, self.reference)) && fits_i64_exec(
            (k as i128) * (self.brick as i128),
        )
    }

    fn is_valid(&self) -> (r: bool) {
        self.brick > 0 && match self.reference.checked_rem_euclid(self.brick) {
            Some(r) => r == 0,
            None => false,
        }
    }

    fn label(&self) -> (s: String) {
        labelled_plain("renko-grid:", self.brick as u128)
    }
}

/// Law (grid and excursion bound): the reference is always a multiple of the
/// brick; the trade that opens a bar lies in `[reference, reference + brick)`;
/// a trade that continues a bar lies strictly within one brick of the
/// reference. Hence the prices of one bar span at most `2*brick - 1`.
pub proof fn lemma_renko_grid(p: RenkoBrickPeriod, t: Trade)
    requires
        p.wf(),
        p.accepts(t),
    ensures
        (p.transition(t).0.reference_level() as int) % p.brick() == 0,
        p.transition(t).1 is CloseAndOpen ==> p.transition(t).0.reference_level() <= t.price
            < p.transition(t).0.reference_level() + p.brick(),
        p.transition(t).1 is Continue ==> p.is_open() && p.transition(t).0 == p && p.reference_level()
            - p.brick() < t.price < p.reference_level() + p.brick(),
{
    lemma_floor_div(t.price as int, p.brick as int);
    vstd::arithmetic::div_mod::lemma_mod_multiples_basic(t.price as int / p.brick as int, p.brick as int);
}

/// Law: two prices that can belong to one grid Renko bar (one opened it, the
/// other is strictly within a brick of the reference, or both are) differ by at
/// most `2*brick - 1`.
pub proof fn lemma_renko_excursion(reference: int, brick: int, a: int, b: int)
    requires
        brick > 0,
        reference - brick < a < reference + brick,
        reference - brick < b < reference + brick,
    ensures
        abs_int(a - b) <= 2 * brick - 1,
{
}

// ---------------------------------------------------------------------------
// Tick imbalance

/// Tick imbalance bars: a bar closes once the absolute sum of the trades' aggressive signs reaches the threshold.
#[derive(Debug, Clone, Copy, PartialEq, Eq, Structural)]
pub struct TickImbalancePeriod {
    pub threshold: i64,
    pub acc: i64,
    pub open: bool,
}

/// Signed tick contribution of a trade: its aggressive sign.
pub open spec fn tick_contribution(t: Trade) -> int {
    sign_of(t.aggressor)
}

impl TickImbalancePeriod {
    /// Imbalance bars closing at `threshold` (must be positive).
    pub fn new(threshold: i64) -> (p: Self)
        requires
            threshold > 0,
        ensures
            p.wf(),
            p == TickImbalancePeriod::fresh(threshold),
    {
        TickImbalancePeriod { threshold, acc: 0, open: false }
    }

    /// An imbalance rule that has seen no trade.
    pub open spec fn fresh(threshold: i64) -> Self {
        TickImbalancePeriod { threshold, acc: 0, open: false }
    }

    /// Signed imbalance accumulated in the current bar.
    pub open spec fn imbalance(self) -> int {
        self.acc as int
    }

    /// The closing threshold.
    pub open spec fn threshold(self) -> int {
        self.threshold as int
    }

    /// Whether a bar has been opened.
    pub open spec fn is_open(self) -> bool {
        self.open
    }
}

impl Period for TickImbalancePeriod {
    /// Rules on the tape need `L1`.
    open spec fn required_granularity(&self) -> Granularity {
        Granularity::L1
    }

    fn min_granularity(&self) -> (g: Granularity) {
        Granularity::L1
    }

    open spec fn wf(&self) -> bool {
        self.threshold > 0
    }

    open spec fn accepts(&self, t: Trade) -> bool {
        &&& self.acc != i64::MIN
        &&& fits_i64(tick_contribution(t))
        &&& (self.open && abs_int(self.acc as int) < self.threshold) ==> fits_i64(self.acc + tick_contribution(t))
    }

    open spec fn transition(&self, t: Trade) -> (Self, Boundary) {
        if !self.open || abs_int(self.acc as int) >= self.threshold {
            (TickImbalancePeriod { open: true, acc: tick_contribution(t) as i64, ..*self }, opens_at(t))
        } else {
            (TickImbalancePeriod { acc: (self.acc + tick_contribution(t)) as i64, ..*self }, Boundary::Continue)
        }
    }

    open spec fn label_text(&self) -> Seq<char> {
        "tick-imbalance:"@ + decimal(self.threshold as nat)
    }

    fn on_trade(&mut self, t: &Trade) -> (b: Boundary) {
        let reached = if self.acc < 0 { -self.acc >= self.threshold } else { self.acc >= self.threshold };
        
        if !self.open || reached {
            self.open = true;
            self.acc = signed(t);
            Boundary::CloseAndOpen { start: t.ts, end: t.ts, partial: false }
        } else {
            self.acc = self.acc + signed(t);
            Boundary::Continue
        }
    }

    fn can_take(&self, t: &Trade) -> (r: bool) {
        if self.acc == i64::MIN {
            return false;
        }
        let reached = if self.acc < 0 { -self.acc >= self.threshold } else { self.acc >= self.threshold };
        !self.open || reached || fits_i64_exec((self.acc as i128) + (signed(t) as i128))
    }

    fn is_valid(&self) -> (r: bool) {
        self.threshold > 0
    }

    fn label(&self) -> (s: String) {
        labelled_plain("tick-imbalance:", self.threshold as u128)
    }
}

/// Law: an imbalance bar closes (the next trade opens a new one) exactly when
/// the imbalance accumulated by the bar has reached the threshold in absolute
/// value; otherwise the trade's signed contribution is added.
pub proof fn lemma_tick_imbalance(p: TickImbalancePeriod, t: Trade)
    requires
        p.wf(),
        p.accepts(t),
    ensures
        p.transition(t).1 is CloseAndOpen <==> (!p.is_open() || abs_int(p.imbalance()) >= p.threshold()),
        p.transition(t).0.imbalance() == if p.transition(t).1 is CloseAndOpen {
            tick_contribution(t)
        } else {
            p.imbalance() + tick_contribution(t)
        },
{
}

// ---------------------------------------------------------------------------
// Volume imbalance

/// Volume imbalance bars: a bar closes once `|sum(sign * size)|` reaches the threshold.
#[derive(Debug, Clone, Copy, PartialEq, Eq, Structural)]
pub struct VolumeImbalancePeriod {
    pub threshold: i64,
    pub acc: i64,
    pub open: bool,
}

/// Signed volume contribution of a trade: its sign times its size read as an `i64`.
pub open spec fn volume_contribution(t: Trade) -> int {
    sign_of(t.aggressor) * (t.size as i64)
}

impl VolumeImbalancePeriod {
    /// Imbalance bars closing at `threshold` (must be positive).
    pub fn new(threshold: i64) -> (p: Self)
        requires
            threshold > 0,
        ensures
            p.wf(),
            p == VolumeImbalancePeriod::fresh(threshold),
    {
        VolumeImbalancePeriod { threshold, acc: 0, open: false }
    }

    /// An imbalance rule that has seen no trade.
    pub open spec fn fresh(threshold: i64) -> Self {
        VolumeImbalancePeriod { threshold, acc: 0, open: false }
    }

    /// Signed imbalance accumulated in the current bar.
    pub open spec fn imbalance(self) -> int {
        self.acc as int
    }

    /// The closing threshold.
    pub open spec fn threshold(self) -> int {
        self.threshold as int
    }

    /// Whether a bar has been opened.
    pub open spec fn is_open(self) -> bool {
        self.open
    }
}

impl Period for VolumeImbalancePeriod {
    /// Rules on the tape need `L1`.
    open spec fn required_granularity(&self) -> Granularity {
        Granularity::L1
    }

    fn min_granularity(&self) -> (g: Granularity) {
        Granularity::L1
    }

    open spec fn wf(&self) -> bool {
        self.threshold > 0
    }

    open spec fn accepts(&self, t: Trade) -> bool {
        &&& self.acc != i64::MIN
        &&& fits_i64(volume_contribution(t))
        &&& (self.open && abs_int(self.acc as int) < self.threshold) ==> fits_i64(self.acc + volume_contribution(t))
    }

    open spec fn transition(&self, t: Trade) -> (Self, Boundary) {
        if !self.open || abs_int(self.acc as int) >= self.threshold {
            (VolumeImbalancePeriod { open: true, acc: volume_contribution(t) as i64, ..*self }, opens_at(t))
        } else {
            (VolumeImbalancePeriod { acc: (self.acc + volume_contribution(t)) as i64, ..*self }, Boundary::Continue)
        }
    }

    open spec fn label_text(&self) -> Seq<char> {
        "volume-imbalance:"@ + decimal(self.threshold as nat)
    }

    fn on_trade(&mut self, t: &Trade) -> (b: Boundary) {
        let reached = if self.acc < 0 { -self.acc >= self.threshold } else { self.acc >= self.threshold };
        
        if !self.open || reached {
            self.open = true;
            self.acc = signed(t) * (t.size as i64);
            Boundary::CloseAndOpen { start: t.ts, end: t.ts, partial: false }
        } else {
            self.acc = self.acc + signed(t) * (t.size as i64);
            Boundary::Continue
        }
    }

    fn can_take(&self, t: &Trade) -> (r: bool) {
        if self.acc == i64::MIN {
            return false;
        }
        let c = signed_times(t, (t.size as i64) as i128);
        let reached = if self.acc < 0 { -self.acc >= self.threshold } else { self.acc >= self.threshold };
        fits_i64_exec(c) && (!self.open || reached || fits_i64_exec((self.acc as i128) + c))
    }

    fn is_valid(&self) -> (r: bool) {
        self.threshold > 0
    }

    fn label(&self) -> (s: String) {
        labelled_plain("volume-imbalance:", self.threshold as u128)
    }
}

/// Law: an imbalance bar closes (the next trade opens a new one) exactly when
/// the imbalance accumulated by the bar has reached the threshold in absolute
/// value; otherwise the trade's signed contribution is added.
pub proof fn lemma_volume_imbalance(p: VolumeImbalancePeriod, t: Trade)
    requires
        p.wf(),
        p.accepts(t),
    ensures
        p.transition(t).1 is CloseAndOpen <==> (!p.is_open() || abs_int(p.imbalance()) >= p.threshold()),
        p.transition(t).0.imbalance() == if p.transition(t).1 is CloseAndOpen {
            volume_contribution(t)
        } else {
            p.imbalance() + volume_contribution(t)
        },
{
}

// ---------------------------------------------------------------------------
// Dollar imbalance

/// Dollar imbalance bars: a bar closes once `|sum(sign * price * size)|` reaches the threshold.
#[derive(Debug, Clone, Copy, PartialEq, Eq, Structural)]
pub struct DollarImbalancePeriod {
    pub threshold: i128,
    pub acc: i128,
    pub open: bool,
}

/// Signed notional contribution of a trade.
pub open spec fn dollar_contribution(t: Trade) -> int {
    sign_of(t.aggressor) * t.price * t.size
}

impl DollarImbalancePeriod {
    /// Imbalance bars closing at `threshold` (must be positive).
    pub fn new(threshold: i128) -> (p: Self)
        requires
            threshold > 0,
        ensures
            p.wf(),
            p == DollarImbalancePeriod::fresh(threshold),
    {
        DollarImbalancePeriod { threshold, acc: 0, open: false }
    }

    /// An imbalance rule that has seen no trade.
    pub open spec fn fresh(threshold: i128) -> Self {
        DollarImbalancePeriod { threshold, acc: 0, open: false }
    }

    /// Signed imbalance accumulated in the current bar.
    pub open spec fn imbalance(self) -> int {
        self.acc as int
    }

    /// The closing threshold.
    pub open spec fn threshold(self) -> int {
        self.threshold as int
    }

    /// Whether a bar has been opened.
    pub open spec fn is_open(self) -> bool {
        self.open
    }
}

impl Period for DollarImbalancePeriod {
    /// Rules on the tape need `L1`.
    open spec fn required_granularity(&self) -> Granularity {
        Granularity::L1
    }

    fn min_granularity(&self) -> (g: Granularity) {
        Granularity::L1
    }

    open spec fn wf(&self) -> bool {
        self.threshold > 0
    }

    open spec fn accepts(&self, t: Trade) -> bool {
        &&& self.acc != i128::MIN
        &&& fits_i128(dollar_contribution(t))
        &&& (self.open && abs_int(self.acc as int) < self.threshold) ==> fits_i128(self.acc + dollar_contribution(t))
    }

    open spec fn transition(&self, t: Trade) -> (Self, Boundary) {
        if !self.open || abs_int(self.acc as int) >= self.threshold {
            (DollarImbalancePeriod { open: true, acc: dollar_contribution(t) as i128, ..*self }, opens_at(t))
        } else {
            (DollarImbalancePeriod { acc: (self.acc + dollar_contribution(t)) as i128, ..*self }, Boundary::Continue)
        }
    }

    open spec fn label_text(&self) -> Seq<char> {
        "dollar-imbalance:"@ + decimal(self.threshold as nat)
    }

    fn on_trade(&mut self, t: &Trade) -> (b: Boundary) {
        let reached = if self.acc < 0 { -self.acc >= self.threshold } else { self.acc >= self.threshold };
        proof {
            lemma_notional_fits(*t);
            assert(dollar_contribution(*t) == sign_of(t.aggressor) * notional_of(*t)) by (nonlinear_arith);
        }
        if !self.open || reached {
            self.open = true;
            self.acc = (signed(t) as i128) * (t.price as i128) * (t.size as i128);
            Boundary::CloseAndOpen { start: t.ts, end: t.ts, partial: false }
        } else {
            self.acc = self.acc + (signed(t) as i128) * (t.price as i128) * (t.size as i128);
            Boundary::Continue
        }
    }

    fn can_take(&self, t: &Trade) -> (r: bool) {
        if self.acc == i128::MIN {
            return false;
        }
        proof {
            lemma_notional_fits(*t);
            assert(dollar_contribution(*t) == sign_of(t.aggressor) * notional_of(*t)) by (nonlinear_arith);
        }
        let c = signed_times(t, DollarPeriod::notional(t));
        let reached = if self.acc < 0 { -self.acc >= self.threshold } else { self.acc >= self.threshold };
        !self.open || reached || self.acc.checked_add(c).is_some()
    }

    fn is_valid(&self) -> (r: bool) {
        self.threshold > 0
    }

    fn label(&self) -> (s: String) {
        labelled_plain("dollar-imbalance:", self.threshold as u128)
    }
}

/// Law: an imbalance bar closes (the next trade opens a new one) exactly when
/// the imbalance accumulated by the bar has reached the threshold in absolute
/// value; otherwise the trade's signed contribution is added.
pub proof fn lemma_dollar_imbalance(p: DollarImbalancePeriod, t: Trade)
    requires
        p.wf(),
        p.accepts(t),
    ensures
        p.transition(t).1 is CloseAndOpen <==> (!p.is_open() || abs_int(p.imbalance()) >= p.threshold()),
        p.transition(t).0.imbalance() == if p.transition(t).1 is CloseAndOpen {
            dollar_contribution(t)
        } else {
            p.imbalance() + dollar_contribution(t)
        },
{
}

// ---------------------------------------------------------------------------
// Run

/// Run bars: a bar closes once a run of consecutive trades of the same known
/// side reaches `threshold` trades.
#[derive(Debug, Clone, Copy, PartialEq, Eq, Structural)]
pub struct RunPeriod {
    pub threshold: u64,
    pub run: u64,
    pub dir: i64,
    pub open: bool,
}

impl RunPeriod {
    /// Run bars closing at runs of `threshold` trades (must be positive).
    pub fn new(threshold: u64) -> (p: Self)
        requires
            threshold > 0,
        ensures
            p.wf(),
            p == RunPeriod::fresh(threshold),
    {
        RunPeriod { threshold, run: 0, dir: 0, open: false }
    }

    /// A run rule that has seen no trade.
    pub open spec fn fresh(threshold: u64) -> Self {
        RunPeriod { threshold, run: 0, dir: 0, open: false }
    }

    /// Length of the current run.
    pub open spec fn run_length(self) -> int {
        self.run as int
    }

    /// Side of the current run (`+1`, `-1`, or `0` when none).
    pub open spec fn direction(self) -> int {
        self.dir as int
    }

    /// The closing run length.
    pub open spec fn threshold(self) -> int {
        self.threshold as int
    }

    /// Whether a bar has been opened.
    pub open spec fn is_open(self) -> bool {
        self.open
    }

    fn start(&mut self, s: i64)
        ensures
            final(self).threshold == old(self).threshold,
            final(self).open == old(self).open,
            final(self).dir == s,
            final(self).run == if s != 0 { 1u64 } else { 0u64 },
    {
        self.dir = s;
        self.run = if s != 0 { 1 } else { 0 };
    }
}

/// State of a run rule restarted on sign `s`.
pub open spec fn restarted_run(s: int) -> int {
    if s != 0 { 1 } else { 0 }
}

impl Period for RunPeriod {
    /// Rules on the tape need `L1`.
    open spec fn required_granularity(&self) -> Granularity {
        Granularity::L1
    }

    fn min_granularity(&self) -> (g: Granularity) {
        Granularity::L1
    }

    open spec fn wf(&self) -> bool {
        self.threshold > 0 && self.run <= self.threshold
    }

    open spec fn accepts(&self, t: Trade) -> bool {
        true
    }

    open spec fn transition(&self, t: Trade) -> (Self, Boundary) {
        let s = sign_of(t.aggressor);
        if !self.open || self.run >= self.threshold {
            (
                RunPeriod { open: true, dir: s as i64, run: restarted_run(s) as u64, ..*self },
                opens_at(t),
            )
        } else if s != 0 && s == self.dir {
            (RunPeriod { run: (self.run + 1) as u64, ..*self }, Boundary::Continue)
        } else {
            (RunPeriod { dir: s as i64, run: restarted_run(s) as u64, ..*self }, Boundary::Continue)
        }
    }

    open spec fn label_text(&self) -> Seq<char> {
        "run:"@ + decimal(self.threshold as nat)
    }

    fn on_trade(&mut self, t: &Trade) -> (b: Boundary) {
        let s = signed(t);
        if !self.open || self.run >= self.threshold {
            self.open = true;
            self.start(s);
            Boundary::CloseAndOpen { start: t.ts, end: t.ts, partial: false }
        } else {
            if s != 0 && s == self.dir {
                self.run = self.run + 1;
            } else {
                self.start(s);
            }
            Boundary::Continue
        }
    }

    fn can_take(&self, t: &Trade) -> (r: bool) {
        true
    }

    fn is_valid(&self) -> (r: bool) {
        self.threshold > 0 && self.run <= self.threshold
    }

    fn label(&self) -> (s: String) {
        labelled_plain("run:", self.threshold as u128)
    }
}

/// Law: a run never exceeds the threshold; a bar closes (the next trade opens a
/// new one) exactly once the run has reached it; a trade of the run's side
/// extends the run, any other trade restarts it.
pub proof fn lemma_run_length(p: RunPeriod, t: Trade)
    requires
        p.wf(),
    ensures
        p.transition(t).0.run_length() <= p.threshold(),
        p.transition(t).1 is CloseAndOpen <==> (!p.is_open() || p.run_length() >= p.threshold()),
        p.transition(t).1 is Continue ==> p.transition(t).0.run_length() == if sign_of(t.aggressor)
            != 0 && sign_of(t.aggressor) == p.direction() {
            p.run_length() + 1
        } else {
            restarted_run(sign_of(t.aggressor))
        },
{
}

// ---------------------------------------------------------------------------
// Point & figure

/// Simplified point & figure bars: each bar is a directional column (rising X
/// or falling O); it closes when the price reverses by at least
/// `reversal * box_size` against the column's direction.
#[derive(Debug, Clone, Copy, PartialEq, Eq, Structural)]
pub struct PointFigurePeriod {
    pub box_size: i64,
    pub reversal: i64,
    pub dir: i64,
    pub extreme: Px,
    pub open: bool,
}

/// Sign of an integer.
pub open spec fn signum_int(x: int) -> int {
    if x > 0 { 1 } else if x < 0 { -1 } else { 0 }
}

impl PointFigurePeriod {
    /// Point & figure columns of box `box_size` and reversal `reversal` boxes
    /// (both positive).
    pub fn new(box_size: i64, reversal: i64) -> (p: Self)
        requires
            box_size > 0 && reversal > 0,
        ensures
            p.wf(),
            p == PointFigurePeriod::fresh(box_size, reversal),
    {
        PointFigurePeriod { box_size, reversal, dir: 0, extreme: 0, open: false }
    }

    /// A point & figure rule that has seen no trade.
    pub open spec fn fresh(box_size: i64, reversal: i64) -> Self {
        PointFigurePeriod { box_size, reversal, dir: 0, extreme: 0, open: false }
    }

    /// Box size.
    pub open spec fn box_size(self) -> int {
        self.box_size as int
    }

    /// Reversal distance: `reversal * box_size`.
    pub open spec fn reversal_distance(self) -> int {
        self.reversal * self.box_size
    }

    /// Direction of the current column (`+1` X, `-1` O, `0` not yet known).
    pub open spec fn direction(self) -> int {
        self.dir as int
    }

    /// Extreme price of the current column.
    pub open spec fn extreme(self) -> int {
        self.extreme as int
    }

    /// Whether a column has been opened.
    pub open spec fn is_open(self) -> bool {
        self.open
    }

    fn open_at(&mut self, t: &Trade, dir: i64) -> (b: Boundary)
        ensures
            *final(self) == (PointFigurePeriod { open: true, dir, extreme: t.price, ..*old(self) }),
            b == opens_at(*t),
    {
        self.open = true;
        self.dir = dir;
        self.extreme = t.price;
        Boundary::CloseAndOpen { start: t.ts, end: t.ts, partial: false }
    }
}

impl Period for PointFigurePeriod {
    /// Rules on the tape need `L1`.
    open spec fn required_granularity(&self) -> Granularity {
        Granularity::L1
    }

    fn min_granularity(&self) -> (g: Granularity) {
        Granularity::L1
    }

    open spec fn wf(&self) -> bool {
        &&& self.box_size > 0
        &&& self.reversal > 0
        &&& -1 <= self.dir <= 1
    }

    open spec fn accepts(&self, t: Trade) -> bool {
        self.open ==> {
            &&& fits_i64(self.reversal * self.box_size)
            &&& self.dir == 0 ==> distance_fits(t.price as int, self.extreme as int)
            &&& (self.dir > 0 && t.price <= self.extreme) ==> fits_i64(self.extreme - t.price)
            &&& (self.dir < 0 && t.price >= self.extreme) ==> fits_i64(t.price - self.extreme)
        }
    }

    open spec fn transition(&self, t: Trade) -> (Self, Boundary) {
        if !self.open {
            (PointFigurePeriod { open: true, dir: 0i64, extreme: t.price, ..*self }, opens_at(t))
        } else {
            let rev = self.reversal * self.box_size;
            if self.dir == 0 {
                if abs_int(t.price - self.extreme) >= self.box_size {
                    (
                        PointFigurePeriod {
                            dir: signum_int(t.price - self.extreme) as i64,
                            extreme: t.price,
                            ..*self
                        },
                        Boundary::Continue,
                    )
                } else {
                    (*self, Boundary::Continue)
                }
            } else if self.dir > 0 {
                if t.price > self.extreme {
                    (PointFigurePeriod { extreme: t.price, ..*self }, Boundary::Continue)
                } else if self.extreme - t.price >= rev {
                    (PointFigurePeriod { open: true, dir: -1i64, extreme: t.price, ..*self }, opens_at(t))
                } else {
                    (*self, Boundary::Continue)
                }
            } else {
                if t.price < self.extreme {
                    (PointFigurePeriod { extreme: t.price, ..*self }, Boundary::Continue)
                } else if t.price - self.extreme >= rev {
                    (PointFigurePeriod { open: true, dir: 1i64, extreme: t.price, ..*self }, opens_at(t))
                } else {
                    (*self, Boundary::Continue)
                }
            }
        }
    }

    open spec fn label_text(&self) -> Seq<char> {
        "pnf:"@ + decimal(self.box_size as nat) + ":"@ + decimal(self.reversal as nat)
    }

    fn on_trade(&mut self, t: &Trade) -> (b: Boundary) {
        if !self.open {
            return self.open_at(t, 0);
        }
        let rev = self.reversal * self.box_size;
        if self.dir == 0 {
            let d = t.price - self.extreme;
            if abs_i64(d) >= self.box_size {
                self.dir = if d > 0 { 1 } else if d < 0 { -1 } else { 0 };
                self.extreme = t.price;
            }
            Boundary::Continue
        } else if self.dir > 0 {
            if t.price > self.extreme {
                self.extreme = t.price;
                Boundary::Continue
            } else if self.extreme - t.price >= rev {
                self.open_at(t, -1)
            } else {
                Boundary::Continue
            }
        } else {
            if t.price < self.extreme {
                self.extreme = t.price;
                Boundary::Continue
            } else if t.price - self.extreme >= rev {
                self.open_at(t, 1)
            } else {
                Boundary::Continue
            }
        }
    }

    fn can_take(&self, t: &Trade) -> (r: bool) {
        if !self.open {
            return true;
        }
        proof {
            assert(-0x8000_0000_0000_0000 * 0x7fff_ffff_ffff_ffff <= self.reversal * self.box_size
                <= 0x8000_0000_0000_0000 * 0x7fff_ffff_ffff_ffff) by (nonlinear_arith)
                requires
                    0 < self.reversal <= i64::MAX,
                    0 < self.box_size <= i64::MAX,
            ;
        }
        let rev_ok = fits_i64_exec((self.reversal as i128) * (self.box_size as i128));
        let d = (t.price as i128) - (self.extreme as i128);
        let move_ok = if self.dir == 0 {
            distance_ok(t.price, self.extreme)
        } else if self.dir > 0 {
            t.price > self.extreme || fits_i64_exec(-d)
        } else {
            t.price < self.extreme || fits_i64_exec(d)
        };
        rev_ok && move_ok
    }

    fn is_valid(&self) -> (r: bool) {
        self.box_size > 0 && self.reversal > 0 && -1 <= self.dir && self.dir <= 1
    }

    fn label(&self) -> (s: String) {
        let mut s = labelled("pnf:", self.box_size as u128, ":");
        crate::text::push_decimal(&mut s, self.reversal as u128);
        s
    }
}

/// Law: an open point & figure column closes exactly on a reversal, in both
/// directions. A rising column closes when the price falls at least the
/// reversal distance (`reversal * box_size`) below its high, a falling column
/// when the price rises at least that distance above its low; the trade then
/// opens a column in the opposite direction starting at its price. Any other
/// trade continues the column.
pub proof fn lemma_pnf_closes_iff_reversal(p: PointFigurePeriod, t: Trade)
    requires
        p.wf(),
        p.accepts(t),
        p.is_open(),
        p.direction() != 0,
    ensures
        p.transition(t).1 is CloseAndOpen <==> ((p.direction() > 0 && p.extreme() - t.price
            >= p.reversal_distance()) || (p.direction() < 0 && t.price - p.extreme() >= p.reversal_distance())),
        p.transition(t).1 is CloseAndOpen ==> {
            &&& p.transition(t).1 == opens_at(t)
            &&& p.transition(t).0.direction() == -p.direction()
            &&& p.transition(t).0.extreme() == t.price
            &&& p.transition(t).0.is_open()
        },
{
    assert(p.reversal * p.box_size > 0) by (nonlinear_arith)
        requires
            p.reversal > 0,
            p.box_size > 0,
    ;
}

/// Law: a point & figure column closes only on a reversal: a rising column
/// when the price falls at least the reversal distance below its high, a
/// falling column when it rises at least that distance above its low; the new
/// column starts at that price in the opposite direction.
pub proof fn lemma_pnf_reversal(p: PointFigurePeriod, t: Trade)
    requires
        p.wf(),
        p.accepts(t),
    ensures
        (p.is_open() && p.transition(t).1 is CloseAndOpen) ==> {
            ||| p.direction() > 0 && p.extreme() - t.price >= p.reversal_distance()
                && p.transition(t).0.direction() == -1
            ||| p.direction() < 0 && t.price - p.extreme() >= p.reversal_distance()
                && p.transition(t).0.direction() == 1
        },
        p.transition(t).1 is CloseAndOpen ==> p.transition(t).0.extreme() == t.price,
        (p.is_open() && p.direction() > 0 && p.transition(t).1 is Continue) ==> p.transition(t).0.extreme()
            == max_int(p.extreme(), t.price as int),
        (p.is_open() && p.direction() < 0 && p.transition(t).1 is Continue) ==> p.transition(t).0.extreme()
            == min_int(p.extreme(), t.price as int),
{
}

// ---------------------------------------------------------------------------
// Any rule

/// One of the rules above, for an aggregator that mixes several kinds.
#[derive(Debug, Clone, Copy, PartialEq, Eq, Structural)]
pub enum AnyPeriod {
    Time(TimePeriod),
    AlignedTime(AlignedTimePeriod),
    Tick(TickPeriod),
    Volume(VolumePeriod),
    Dollar(DollarPeriod),
    Range(RangePeriod),
    Renko(RenkoPeriod),
    RenkoBrick(RenkoBrickPeriod),
    TickImbalance(TickImbalancePeriod),
    VolumeImbalance(VolumeImbalancePeriod),
    DollarImbalance(DollarImbalancePeriod),
    Run(RunPeriod),
    PointFigure(PointFigurePeriod),
}

impl Period for AnyPeriod {
    open spec fn wf(&self) -> bool {
        match *self {
            AnyPeriod::Time(p) => p.wf(),
            AnyPeriod::AlignedTime(p) => p.wf(),
            AnyPeriod::Tick(p) => p.wf(),
            AnyPeriod::Volume(p) => p.wf(),
            AnyPeriod::Dollar(p) => p.wf(),
            AnyPeriod::Range(p) => p.wf(),
            AnyPeriod::Renko(p) => p.wf(),
            AnyPeriod::RenkoBrick(p) => p.wf(),
            AnyPeriod::TickImbalance(p) => p.wf(),
            AnyPeriod::VolumeImbalance(p) => p.wf(),
            AnyPeriod::DollarImbalance(p) => p.wf(),
            AnyPeriod::Run(p) => p.wf(),
            AnyPeriod::PointFigure(p) => p.wf(),
        }
    }

    open spec fn accepts(&self, t: Trade) -> bool {
        match *self {
            AnyPeriod::Time(p) => p.accepts(t),
            AnyPeriod::AlignedTime(p) => p.accepts(t),
            AnyPeriod::Tick(p) => p.accepts(t),
            AnyPeriod::Volume(p) => p.accepts(t),
            AnyPeriod::Dollar(p) => p.accepts(t),
            AnyPeriod::Range(p) => p.accepts(t),
            AnyPeriod::Renko(p) => p.accepts(t),
            AnyPeriod::RenkoBrick(p) => p.accepts(t),
            AnyPeriod::TickImbalance(p) => p.accepts(t),
            AnyPeriod::VolumeImbalance(p) => p.accepts(t),
            AnyPeriod::DollarImbalance(p) => p.accepts(t),
            AnyPeriod::Run(p) => p.accepts(t),
            AnyPeriod::PointFigure(p) => p.accepts(t),
        }
    }

    open spec fn transition(&self, t: Trade) -> (Self, Boundary) {
        match *self {
            AnyPeriod::Time(p) => (AnyPeriod::Time(p.transition(t).0), p.transition(t).1),
            AnyPeriod::AlignedTime(p) => (AnyPeriod::AlignedTime(p.transition(t).0), p.transition(t).1),
            AnyPeriod::Tick(p) => (AnyPeriod::Tick(p.transition(t).0), p.transition(t).1),
            AnyPeriod::Volume(p) => (AnyPeriod::Volume(p.transition(t).0), p.transition(t).1),
            AnyPeriod::Dollar(p) => (AnyPeriod::Dollar(p.transition(t).0), p.transition(t).1),
            AnyPeriod::Range(p) => (AnyPeriod::Range(p.transition(t).0), p.transition(t).1),
            AnyPeriod::Renko(p) => (AnyPeriod::Renko(p.transition(t).0), p.transition(t).1),
            AnyPeriod::RenkoBrick(p) => (AnyPeriod::RenkoBrick(p.transition(t).0), p.transition(t).1),
            AnyPeriod::TickImbalance(p) => (AnyPeriod::TickImbalance(p.transition(t).0), p.transition(t).1),
            AnyPeriod::VolumeImbalance(p) => (AnyPeriod::VolumeImbalance(p.transition(t).0), p.transition(t).1),
            AnyPeriod::DollarImbalance(p) => (AnyPeriod::DollarImbalance(p.transition(t).0), p.transition(t).1),
            AnyPeriod::Run(p) => (AnyPeriod::Run(p.transition(t).0), p.transition(t).1),
            AnyPeriod::PointFigure(p) => (AnyPeriod::PointFigure(p.transition(t).0), p.transition(t).1),
        }
    }

    open spec fn label_text(&self) -> Seq<char> {
        match *self {
            AnyPeriod::Time(p) => p.label_text(),
            AnyPeriod::AlignedTime(p) => p.label_text(),
            AnyPeriod::Tick(p) => p.label_text(),
            AnyPeriod::Volume(p) => p.label_text(),
            AnyPeriod::Dollar(p) => p.label_text(),
            AnyPeriod::Range(p) => p.label_text(),
            AnyPeriod::Renko(p) => p.label_text(),
            AnyPeriod::RenkoBrick(p) => p.label_text(),
            AnyPeriod::TickImbalance(p) => p.label_text(),
            AnyPeriod::VolumeImbalance(p) => p.label_text(),
            AnyPeriod::DollarImbalance(p) => p.label_text(),
            AnyPeriod::Run(p) => p.label_text(),
            AnyPeriod::PointFigure(p) => p.label_text(),
        }
    }

    open spec fn required_granularity(&self) -> Granularity {
        Granularity::L1
    }

    fn min_granularity(&self) -> (g: Granularity) {
        Granularity::L1
    }

    fn on_trade(&mut self, t: &Trade) -> (b: Boundary) {
        match self {
            AnyPeriod::Time(p) => p.on_trade(t),
            AnyPeriod::AlignedTime(p) => p.on_trade(t),
            AnyPeriod::Tick(p) => p.on_trade(t),
            AnyPeriod::Volume(p) => p.on_trade(t),
            AnyPeriod::Dollar(p) => p.on_trade(t),
            AnyPeriod::Range(p) => p.on_trade(t),
            AnyPeriod::Renko(p) => p.on_trade(t),
            AnyPeriod::RenkoBrick(p) => p.on_trade(t),
            AnyPeriod::TickImbalance(p) => p.on_trade(t),
            AnyPeriod::VolumeImbalance(p) => p.on_trade(t),
            AnyPeriod::DollarImbalance(p) => p.on_trade(t),
            AnyPeriod::Run(p) => p.on_trade(t),
            AnyPeriod::PointFigure(p) => p.on_trade(t),
        }
    }

    fn can_take(&self, t: &Trade) -> (r: bool) {
        match self {
            AnyPeriod::Time(p) => p.can_take(t),
            AnyPeriod::AlignedTime(p) => p.can_take(t),
            AnyPeriod::Tick(p) => p.can_take(t),
            AnyPeriod::Volume(p) => p.can_take(t),
            AnyPeriod::Dollar(p) => p.can_take(t),
            AnyPeriod::Range(p) => p.can_take(t),
            AnyPeriod::Renko(p) => p.can_take(t),
            AnyPeriod::RenkoBrick(p) => p.can_take(t),
            AnyPeriod::TickImbalance(p) => p.can_take(t),
            AnyPeriod::VolumeImbalance(p) => p.can_take(t),
            AnyPeriod::DollarImbalance(p) => p.can_take(t),
            AnyPeriod::Run(p) => p.can_take(t),
            AnyPeriod::PointFigure(p) => p.can_take(t),
        }
    }

    fn is_valid(&self) -> (r: bool) {
        match self {
            AnyPeriod::Time(p) => p.is_valid(),
            AnyPeriod::AlignedTime(p) => p.is_valid(),
            AnyPeriod::Tick(p) => p.is_valid(),
            AnyPeriod::Volume(p) => p.is_valid(),
            AnyPeriod::Dollar(p) => p.is_valid(),
            AnyPeriod::Range(p) => p.is_valid(),
            AnyPeriod::Renko(p) => p.is_valid(),
            AnyPeriod::RenkoBrick(p) => p.is_valid(),
            AnyPeriod::TickImbalance(p) => p.is_valid(),
            AnyPeriod::VolumeImbalance(p) => p.is_valid(),
            AnyPeriod::DollarImbalance(p) => p.is_valid(),
            AnyPeriod::Run(p) => p.is_valid(),
            AnyPeriod::PointFigure(p) => p.is_valid(),
        }
    }

    fn label(&self) -> (s: String) {
        match self {
            AnyPeriod::Time(p) => p.label(),
            AnyPeriod::AlignedTime(p) => p.label(),
            AnyPeriod::Tick(p) => p.label(),
            AnyPeriod::Volume(p) => p.label(),
            AnyPeriod::Dollar(p) => p.label(),
            AnyPeriod::Range(p) => p.label(),
            AnyPeriod::Renko(p) => p.label(),
            AnyPeriod::RenkoBrick(p) => p.label(),
            AnyPeriod::TickImbalance(p) => p.label(),
            AnyPeriod::VolumeImbalance(p) => p.label(),
            AnyPeriod::DollarImbalance(p) => p.label(),
            AnyPeriod::Run(p) => p.label(),
            AnyPeriod::PointFigure(p) => p.label(),
        }
    }
}

} // verus!
