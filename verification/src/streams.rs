//! Laws of the bar-closing rules over whole streams of trades: what state a rule
//! reaches from its fresh state, and which trades open a bar.
use vstd::prelude::*;

use crate::canonical::Trade;
use crate::period::{
    abs_int, decision, dollar_contribution, fed, lemma_notional_fits, max_int, min_int, notional_of,
    aligned_start, fits_i64, lemma_floor_div, opens_at, sign_of, snapped, window_end, AlignedTimePeriod,
    PointFigurePeriod, TimePeriod, tick_contribution, volume_contribution, Boundary, DollarImbalancePeriod,
    DollarPeriod, Period, RangePeriod, RenkoBrickPeriod, RenkoPeriod, RunPeriod, TickImbalancePeriod,
    VolumeImbalancePeriod, VolumePeriod,
};

verus! {

/// Every trade of `ts` can be examined (no overflow) by the rule fed with the
/// trades before it.
pub open spec fn feedable<P: Period>(p: P, ts: Seq<Trade>) -> bool
    decreases ts.len(),
{
    ts.len() == 0 || (feedable(p, ts.drop_last()) && fed(p, ts.drop_last()).accepts(ts.last()))
}

/// Index of the last trade of `ts` on which the rule opened a bar (`-1` if none).
pub open spec fn last_open<P: Period>(p: P, ts: Seq<Trade>) -> int
    decreases ts.len(),
{
    if ts.len() == 0 {
        -1
    } else if decision(p, ts) is CloseAndOpen {
        ts.len() - 1
    } else {
        last_open(p, ts.drop_last())
    }
}

/// The trades of the bar that is open after `ts`: from the last trade that
/// opened a bar to the end.
pub open spec fn current_bar<P: Period>(p: P, ts: Seq<Trade>) -> Seq<Trade> {
    let k = last_open(p, ts);
    ts.subrange(if k < 0 { 0 } else { k }, ts.len() as int)
}

/// Sum of `f` over the trades of `s`.
pub open spec fn total_of(s: Seq<Trade>, f: spec_fn(Trade) -> int) -> int
    decreases s.len(),
{
    if s.len() == 0 {
        0
    } else {
        total_of(s.drop_last(), f) + f(s.last())
    }
}

/// Size of a trade.
pub open spec fn size_of(t: Trade) -> int {
    t.size as int
}

/// One step of a stream: the state after `ts` is the state after its prefix
/// moved by its last trade, and the current bar either restarts at that trade
/// or grows by it.
pub proof fn lemma_stream_step<P: Period>(p: P, ts: Seq<Trade>)
    requires
        ts.len() > 0,
    ensures
        fed(p, ts) == fed(p, ts.drop_last()).transition(ts.last()).0,
        decision(p, ts) == fed(p, ts.drop_last()).transition(ts.last()).1,
        decision(p, ts) is CloseAndOpen ==> last_open(p, ts) == ts.len() - 1 && current_bar(p, ts)
            == seq![ts.last()],
        decision(p, ts) is Continue ==> last_open(p, ts) == last_open(p, ts.drop_last()) && current_bar(
            p,
            ts,
        ) == current_bar(p, ts.drop_last()).push(ts.last()),
        -1 <= last_open(p, ts) < ts.len(),
{
    let prev = ts.drop_last();
    lemma_last_open_range(p, prev);
    if decision(p, ts) is CloseAndOpen {
        assert(current_bar(p, ts) =~= seq![ts.last()]);
    } else {
        let k = last_open(p, prev);
        let s = if k < 0 { 0 } else { k };
        assert(ts.subrange(s, ts.len() as int) =~= prev.subrange(s, prev.len() as int).push(ts.last()));
    }
}

/// `last_open` is `-1` or an index of the stream.
pub proof fn lemma_last_open_range<P: Period>(p: P, ts: Seq<Trade>)
    ensures
        -1 <= last_open(p, ts) < ts.len(),
    decreases ts.len(),
{
    if ts.len() > 0 {
        lemma_last_open_range(p, ts.drop_last());
    }
}

/// The sum over a one-trade sequence is `f` of that trade.
pub proof fn lemma_total_single(t: Trade, f: spec_fn(Trade) -> int)
    ensures
        total_of(seq![t], f) == f(t),
{
    assert(seq![t].drop_last() =~= Seq::<Trade>::empty());
    assert(total_of(Seq::<Trade>::empty(), f) == 0);
    assert(seq![t].last() == t);
}

/// The sum over `s` extended by `t` adds `f(t)`.
pub proof fn lemma_total_push(s: Seq<Trade>, t: Trade, f: spec_fn(Trade) -> int)
    ensures
        total_of(s.push(t), f) == total_of(s, f) + f(t),
{
    assert(s.push(t).drop_last() =~= s);
}

// ---------------------------------------------------------------------------
// Volume

/// Law (volume bars over a stream): fed from a fresh state, the rule has a bar
/// open after any non-empty stream, and its accumulated volume is the total size
/// of the trades of the current bar.
pub proof fn lemma_volume_state(th: u64, ts: Seq<Trade>)
    requires
        th > 0,
        feedable(VolumePeriod::fresh(th), ts),
    ensures
        fed(VolumePeriod::fresh(th), ts).threshold == th,
        fed(VolumePeriod::fresh(th), ts).open == (ts.len() > 0),
        fed(VolumePeriod::fresh(th), ts).accumulated() == total_of(
            current_bar(VolumePeriod::fresh(th), ts),
            |t: Trade| size_of(t),
        ),
    decreases ts.len(),
{
    let p = VolumePeriod::fresh(th);
    let f = |t: Trade| size_of(t);
    if ts.len() == 0 {
        assert(current_bar(p, ts) =~= Seq::<Trade>::empty());
    } else {
        let prev = ts.drop_last();
        lemma_volume_state(th, prev);
        lemma_stream_step(p, ts);
        if decision(p, ts) is CloseAndOpen {
            lemma_total_single(ts.last(), f);
        } else {
            lemma_total_push(current_bar(p, prev), ts.last(), f);
        }
    }
}

/// Law (volume bars): a trade opens a new bar exactly when it is the first one,
/// or when the trades of the current bar already total at least the threshold
/// (decided before adding it: the trade that crosses the threshold stays in its
/// bar). The opening boundary is the trade's own time.
pub proof fn lemma_volume_decision(th: u64, ts: Seq<Trade>, t: Trade)
    requires
        th > 0,
        feedable(VolumePeriod::fresh(th), ts),
    ensures
        decision(VolumePeriod::fresh(th), ts.push(t)) == if ts.len() == 0 || total_of(
            current_bar(VolumePeriod::fresh(th), ts),
            |x: Trade| size_of(x),
        ) >= th {
            opens_at(t)
        } else {
            Boundary::Continue
        },
{
    lemma_volume_state(th, ts);
    assert(ts.push(t).drop_last() =~= ts);
}

// ---------------------------------------------------------------------------
// Dollar

/// Law (dollar bars over a stream): fed from a fresh state, the rule has a bar
/// open after any non-empty stream, and its accumulated notional is the total
/// `price * size` of the trades of the current bar.
pub proof fn lemma_dollar_state(th: i128, ts: Seq<Trade>)
    requires
        th > 0,
        feedable(DollarPeriod::fresh(th), ts),
    ensures
        fed(DollarPeriod::fresh(th), ts).threshold == th,
        fed(DollarPeriod::fresh(th), ts).open == (ts.len() > 0),
        fed(DollarPeriod::fresh(th), ts).accumulated() == total_of(
            current_bar(DollarPeriod::fresh(th), ts),
            |t: Trade| notional_of(t),
        ),
    decreases ts.len(),
{
    let p = DollarPeriod::fresh(th);
    let f = |t: Trade| notional_of(t);
    if ts.len() == 0 {
        assert(current_bar(p, ts) =~= Seq::<Trade>::empty());
    } else {
        let prev = ts.drop_last();
        lemma_dollar_state(th, prev);
        lemma_stream_step(p, ts);
        lemma_notional_fits(ts.last());
        if decision(p, ts) is CloseAndOpen {
            lemma_total_single(ts.last(), f);
        } else {
            lemma_total_push(current_bar(p, prev), ts.last(), f);
        }
    }
}

/// Law (dollar bars): a trade opens a new bar exactly when it is the first one,
/// or when the trades of the current bar already total at least the threshold
/// in notional (decided before adding it). The opening boundary is the trade's
/// own time.
pub proof fn lemma_dollar_decision(th: i128, ts: Seq<Trade>, t: Trade)
    requires
        th > 0,
        feedable(DollarPeriod::fresh(th), ts),
    ensures
        decision(DollarPeriod::fresh(th), ts.push(t)) == if ts.len() == 0 || total_of(
            current_bar(DollarPeriod::fresh(th), ts),
            |x: Trade| notional_of(x),
        ) >= th {
            opens_at(t)
        } else {
            Boundary::Continue
        },
{
    lemma_dollar_state(th, ts);
    assert(ts.push(t).drop_last() =~= ts);
}

// ---------------------------------------------------------------------------
// Imbalance

/// Law (tick imbalance bars over a stream): fed from a fresh state, the rule's
/// imbalance is the sum of the aggressive signs of the trades of the current bar.
pub proof fn lemma_tick_imbalance_state(th: i64, ts: Seq<Trade>)
    requires
        th > 0,
        feedable(TickImbalancePeriod::fresh(th), ts),
    ensures
        fed(TickImbalancePeriod::fresh(th), ts).threshold == th,
        fed(TickImbalancePeriod::fresh(th), ts).open == (ts.len() > 0),
        fed(TickImbalancePeriod::fresh(th), ts).imbalance() == total_of(
            current_bar(TickImbalancePeriod::fresh(th), ts),
            |t: Trade| tick_contribution(t),
        ),
    decreases ts.len(),
{
    let p = TickImbalancePeriod::fresh(th);
    let f = |t: Trade| tick_contribution(t);
    if ts.len() == 0 {
        assert(current_bar(p, ts) =~= Seq::<Trade>::empty());
    } else {
        let prev = ts.drop_last();
        lemma_tick_imbalance_state(th, prev);
        lemma_stream_step(p, ts);
        if decision(p, ts) is CloseAndOpen {
            lemma_total_single(ts.last(), f);
        } else {
            lemma_total_push(current_bar(p, prev), ts.last(), f);
        }
    }
}

/// Law (tick imbalance bars): a trade opens a new bar exactly when it is the
/// first one, or when the signs of the current bar's trades already sum to at
/// least the threshold in absolute value.
pub proof fn lemma_tick_imbalance_decision(th: i64, ts: Seq<Trade>, t: Trade)
    requires
        th > 0,
        feedable(TickImbalancePeriod::fresh(th), ts),
    ensures
        decision(TickImbalancePeriod::fresh(th), ts.push(t)) == if ts.len() == 0 || abs_int(
            total_of(current_bar(TickImbalancePeriod::fresh(th), ts), |x: Trade| tick_contribution(x)),
        ) >= th {
            opens_at(t)
        } else {
            Boundary::Continue
        },
{
    lemma_tick_imbalance_state(th, ts);
    assert(ts.push(t).drop_last() =~= ts);
}

/// Law (volume imbalance bars over a stream): fed from a fresh state, the rule's
/// imbalance is the sum of the signed sizes of the trades of the current bar.
pub proof fn lemma_volume_imbalance_state(th: i64, ts: Seq<Trade>)
    requires
        th > 0,
        feedable(VolumeImbalancePeriod::fresh(th), ts),
    ensures
        fed(VolumeImbalancePeriod::fresh(th), ts).threshold == th,
        fed(VolumeImbalancePeriod::fresh(th), ts).open == (ts.len() > 0),
        fed(VolumeImbalancePeriod::fresh(th), ts).imbalance() == total_of(
            current_bar(VolumeImbalancePeriod::fresh(th), ts),
            |t: Trade| volume_contribution(t),
        ),
    decreases ts.len(),
{
    let p = VolumeImbalancePeriod::fresh(th);
    let f = |t: Trade| volume_contribution(t);
    if ts.len() == 0 {
        assert(current_bar(p, ts) =~= Seq::<Trade>::empty());
    } else {
        let prev = ts.drop_last();
        lemma_volume_imbalance_state(th, prev);
        lemma_stream_step(p, ts);
        if decision(p, ts) is CloseAndOpen {
            lemma_total_single(ts.last(), f);
        } else {
            lemma_total_push(current_bar(p, prev), ts.last(), f);
        }
    }
}

/// Law (volume imbalance bars): a trade opens a new bar exactly when it is the
/// first one, or when the signed sizes of the current bar's trades already sum
/// to at least the threshold in absolute value.
pub proof fn lemma_volume_imbalance_decision(th: i64, ts: Seq<Trade>, t: Trade)
    requires
        th > 0,
        feedable(VolumeImbalancePeriod::fresh(th), ts),
    ensures
        decision(VolumeImbalancePeriod::fresh(th), ts.push(t)) == if ts.len() == 0 || abs_int(
            total_of(current_bar(VolumeImbalancePeriod::fresh(th), ts), |x: Trade| volume_contribution(x)),
        ) >= th {
            opens_at(t)
        } else {
            Boundary::Continue
        },
{
    lemma_volume_imbalance_state(th, ts);
    assert(ts.push(t).drop_last() =~= ts);
}

/// Law (dollar imbalance bars over a stream): fed from a fresh state, the rule's
/// imbalance is the sum of the signed notionals of the trades of the current bar.
pub proof fn lemma_dollar_imbalance_state(th: i128, ts: Seq<Trade>)
    requires
        th > 0,
        feedable(DollarImbalancePeriod::fresh(th), ts),
    ensures
        fed(DollarImbalancePeriod::fresh(th), ts).threshold == th,
        fed(DollarImbalancePeriod::fresh(th), ts).open == (ts.len() > 0),
        fed(DollarImbalancePeriod::fresh(th), ts).imbalance() == total_of(
            current_bar(DollarImbalancePeriod::fresh(th), ts),
            |t: Trade| dollar_contribution(t),
        ),
    decreases ts.len(),
{
    let p = DollarImbalancePeriod::fresh(th);
    let f = |t: Trade| dollar_contribution(t);
    if ts.len() == 0 {
        assert(current_bar(p, ts) =~= Seq::<Trade>::empty());
    } else {
        let prev = ts.drop_last();
        lemma_dollar_imbalance_state(th, prev);
        lemma_stream_step(p, ts);
        if decision(p, ts) is CloseAndOpen {
            lemma_total_single(ts.last(), f);
        } else {
            lemma_total_push(current_bar(p, prev), ts.last(), f);
        }
    }
}

/// Law (dollar imbalance bars): a trade opens a new bar exactly when it is the
/// first one, or when the signed notionals of the current bar's trades already
/// sum to at least the threshold in absolute value.
pub proof fn lemma_dollar_imbalance_decision(th: i128, ts: Seq<Trade>, t: Trade)
    requires
        th > 0,
        feedable(DollarImbalancePeriod::fresh(th), ts),
    ensures
        decision(DollarImbalancePeriod::fresh(th), ts.push(t)) == if ts.len() == 0 || abs_int(
            total_of(current_bar(DollarImbalancePeriod::fresh(th), ts), |x: Trade| dollar_contribution(x)),
        ) >= th {
            opens_at(t)
        } else {
            Boundary::Continue
        },
{
    lemma_dollar_imbalance_state(th, ts);
    assert(ts.push(t).drop_last() =~= ts);
}

// ---------------------------------------------------------------------------
// Range

/// Lowest price among the trades of a non-empty sequence.
pub open spec fn low_of(s: Seq<Trade>) -> int
    decreases s.len(),
{
    if s.len() <= 1 {
        s[0].price as int
    } else {
        min_int(low_of(s.drop_last()), s.last().price as int)
    }
}

/// Highest price among the trades of a non-empty sequence.
pub open spec fn high_of(s: Seq<Trade>) -> int
    decreases s.len(),
{
    if s.len() <= 1 {
        s[0].price as int
    } else {
        max_int(high_of(s.drop_last()), s.last().price as int)
    }
}

/// Law (range bars over a stream): fed from a fresh state, the rule's low and
/// high are the least and greatest prices of the trades of the current bar.
pub proof fn lemma_range_state(r: i64, ts: Seq<Trade>)
    requires
        r > 0,
        feedable(RangePeriod::fresh(r), ts),
    ensures
        fed(RangePeriod::fresh(r), ts).range == r,
        fed(RangePeriod::fresh(r), ts).open == (ts.len() > 0),
        ts.len() > 0 ==> {
            let bar = current_bar(RangePeriod::fresh(r), ts);
            &&& bar.len() > 0
            &&& fed(RangePeriod::fresh(r), ts).lo == low_of(bar)
            &&& fed(RangePeriod::fresh(r), ts).hi == high_of(bar)
        },
    decreases ts.len(),
{
    let p = RangePeriod::fresh(r);
    if ts.len() > 0 {
        let prev = ts.drop_last();
        lemma_range_state(r, prev);
        lemma_stream_step(p, ts);
        if decision(p, ts) is Continue {
            let bar = current_bar(p, prev);
            assert(bar.push(ts.last()).drop_last() =~= bar);
        }
    }
}

/// Law (range bars): a trade opens a new bar exactly when it is the first one,
/// or when the current bar widened by its price would span more than the range;
/// it then starts the new bar. So every bar keeps `high - low <= range`.
pub proof fn lemma_range_decision(r: i64, ts: Seq<Trade>, t: Trade)
    requires
        r > 0,
        feedable(RangePeriod::fresh(r), ts),
    ensures
        decision(RangePeriod::fresh(r), ts.push(t)) == if ts.len() == 0 || max_int(
            high_of(current_bar(RangePeriod::fresh(r), ts)),
            t.price as int,
        ) - min_int(low_of(current_bar(RangePeriod::fresh(r), ts)), t.price as int) > r {
            opens_at(t)
        } else {
            Boundary::Continue
        },
{
    lemma_range_state(r, ts);
    assert(ts.push(t).drop_last() =~= ts);
}

// ---------------------------------------------------------------------------
// Renko

/// Law (Renko bars over a stream): fed from a fresh state, the rule's reference
/// is the price of the trade that opened the current bar.
pub proof fn lemma_renko_state(br: i64, ts: Seq<Trade>)
    requires
        br > 0,
        feedable(RenkoPeriod::fresh(br), ts),
    ensures
        fed(RenkoPeriod::fresh(br), ts).brick == br,
        fed(RenkoPeriod::fresh(br), ts).open == (ts.len() > 0),
        ts.len() > 0 ==> current_bar(RenkoPeriod::fresh(br), ts).len() > 0 && fed(
            RenkoPeriod::fresh(br),
            ts,
        ).reference == current_bar(RenkoPeriod::fresh(br), ts)[0].price,
    decreases ts.len(),
{
    let p = RenkoPeriod::fresh(br);
    if ts.len() > 0 {
        lemma_renko_state(br, ts.drop_last());
        lemma_stream_step(p, ts);
    }
}

/// Law (Renko bars): a trade opens a new bar (and its price becomes the
/// reference) exactly when it is the first one, or when it lies at least one
/// brick away from the price that opened the current bar.
pub proof fn lemma_renko_decision(br: i64, ts: Seq<Trade>, t: Trade)
    requires
        br > 0,
        feedable(RenkoPeriod::fresh(br), ts),
    ensures
        decision(RenkoPeriod::fresh(br), ts.push(t)) == if ts.len() == 0 || abs_int(
            t.price - current_bar(RenkoPeriod::fresh(br), ts)[0].price,
        ) >= br {
            opens_at(t)
        } else {
            Boundary::Continue
        },
{
    lemma_renko_state(br, ts);
    assert(ts.push(t).drop_last() =~= ts);
}

/// Law (grid Renko bars over a stream): fed from a fresh state, the rule's
/// reference is the grid level at or below the price that opened the current bar.
pub proof fn lemma_renko_grid_state(br: i64, ts: Seq<Trade>)
    requires
        br > 0,
        feedable(RenkoBrickPeriod::fresh(br), ts),
    ensures
        fed(RenkoBrickPeriod::fresh(br), ts).brick == br,
        fed(RenkoBrickPeriod::fresh(br), ts).open == (ts.len() > 0),
        ts.len() > 0 ==> current_bar(RenkoBrickPeriod::fresh(br), ts).len() > 0 && fed(
            RenkoBrickPeriod::fresh(br),
            ts,
        ).reference == snapped(current_bar(RenkoBrickPeriod::fresh(br), ts)[0].price as int, br as int),
    decreases ts.len(),
{
    let p = RenkoBrickPeriod::fresh(br);
    if ts.len() > 0 {
        lemma_renko_grid_state(br, ts.drop_last());
        lemma_stream_step(p, ts);
    }
}

/// Law (grid Renko bars over a stream): fed from a fresh state, the reference
/// stays on the brick grid, every trade of the current bar lies strictly
/// within one brick of it, and so any two prices of the bar differ by at most
/// `2*brick - 1` (the excursion bound).
pub proof fn lemma_renko_grid_bar(br: i64, ts: Seq<Trade>)
    requires
        br > 0,
        feedable(RenkoBrickPeriod::fresh(br), ts),
    ensures
        (fed(RenkoBrickPeriod::fresh(br), ts).reference as int) % (br as int) == 0,
        forall|j: int|
            0 <= j < current_bar(RenkoBrickPeriod::fresh(br), ts).len() ==> abs_int(
                #[trigger] current_bar(RenkoBrickPeriod::fresh(br), ts)[j].price - fed(
                    RenkoBrickPeriod::fresh(br),
                    ts,
                ).reference,
            ) < br,
        forall|j: int, k: int|
            0 <= j < current_bar(RenkoBrickPeriod::fresh(br), ts).len() && 0 <= k < current_bar(
                RenkoBrickPeriod::fresh(br),
                ts,
            ).len() ==> abs_int(
                #[trigger] current_bar(RenkoBrickPeriod::fresh(br), ts)[j].price
                    - #[trigger] current_bar(RenkoBrickPeriod::fresh(br), ts)[k].price,
            ) <= 2 * br - 1,
    decreases ts.len(),
{
    let p = RenkoBrickPeriod::fresh(br);
    let bi = br as int;
    if ts.len() == 0 {
        assert(current_bar(p, ts) =~= Seq::<Trade>::empty());
        vstd::arithmetic::div_mod::lemma_small_mod(0, bi as nat);
    } else {
        let prev = ts.drop_last();
        let x = ts.last();
        lemma_renko_grid_bar(br, prev);
        lemma_renko_grid_state(br, prev);
        lemma_stream_step(p, ts);
        let q0 = fed(p, prev);
        let q = fed(p, ts);
        let bar = current_bar(p, ts);
        if decision(p, ts) is CloseAndOpen {
            lemma_floor_div(x.price as int, bi);
            vstd::arithmetic::div_mod::lemma_mod_multiples_basic(x.price as int / bi, bi);
            assert(bar[0] == x);
            assert(q.reference == snapped(x.price as int, bi));
            assert(abs_int(x.price - q.reference) < br);
            assert forall|j: int| 0 <= j < bar.len() implies abs_int(#[trigger] bar[j].price - q.reference) < br by {
                assert(j == 0);
            }
        } else {
            let b0 = current_bar(p, prev);
            assert(q == q0);
            assert(q0.open);
            assert(abs_int(x.price - q0.reference) < br);
            assert forall|j: int| 0 <= j < bar.len() implies abs_int(#[trigger] bar[j].price - q.reference) < br by {
                if j < b0.len() {
                    assert(bar[j] == b0[j]);
                } else {
                    assert(bar[j] == x);
                }
            }
        }
        assert forall|j: int, k: int| 0 <= j < bar.len() && 0 <= k < bar.len() implies abs_int(
            #[trigger] bar[j].price - #[trigger] bar[k].price,
        ) <= 2 * br - 1 by {
            assert(abs_int(bar[j].price - q.reference) < br);
            assert(abs_int(bar[k].price - q.reference) < br);
        }
    }
}

/// Law (grid Renko bars): a trade opens a new bar exactly when it is the first
/// one, or when it lies at least one brick away from the current reference
/// (the grid level of the price that opened the current bar).
pub proof fn lemma_renko_grid_decision(br: i64, ts: Seq<Trade>, t: Trade)
    requires
        br > 0,
        feedable(RenkoBrickPeriod::fresh(br), ts),
    ensures
        decision(RenkoBrickPeriod::fresh(br), ts.push(t)) == if ts.len() == 0 || abs_int(
            t.price - snapped(current_bar(RenkoBrickPeriod::fresh(br), ts)[0].price as int, br as int),
        ) >= br {
            opens_at(t)
        } else {
            Boundary::Continue
        },
{
    lemma_renko_grid_state(br, ts);
    assert(ts.push(t).drop_last() =~= ts);
}

// ---------------------------------------------------------------------------
// Run

/// Length of the run that ends a sequence: the trailing trades of one known
/// side (0 when the last trade's side is unknown).
pub open spec fn run_of(s: Seq<Trade>) -> int
    decreases s.len(),
{
    if s.len() == 0 {
        0
    } else if sign_of(s.last().aggressor) == 0 {
        0
    } else if s.len() >= 2 && sign_of(s[s.len() - 2].aggressor) == sign_of(s.last().aggressor) {
        run_of(s.drop_last()) + 1
    } else {
        1
    }
}

/// Law (run bars over a stream): fed from a fresh state, the rule's run is the
/// run that ends the current bar, and its direction is the side of the bar's
/// last trade.
pub proof fn lemma_run_state(th: u64, ts: Seq<Trade>)
    requires
        th > 0,
    ensures
        fed(RunPeriod::fresh(th), ts).threshold == th,
        fed(RunPeriod::fresh(th), ts).open == (ts.len() > 0),
        ts.len() > 0 ==> {
            let bar = current_bar(RunPeriod::fresh(th), ts);
            &&& bar.len() > 0
            &&& fed(RunPeriod::fresh(th), ts).dir == sign_of(bar.last().aggressor)
            &&& fed(RunPeriod::fresh(th), ts).run == run_of(bar)
            &&& fed(RunPeriod::fresh(th), ts).run <= th
        },
    decreases ts.len(),
{
    let p = RunPeriod::fresh(th);
    if ts.len() > 0 {
        let prev = ts.drop_last();
        lemma_run_state(th, prev);
        lemma_stream_step(p, ts);
        let x = ts.last();
        if decision(p, ts) is CloseAndOpen {
            assert(seq![x].drop_last() =~= Seq::<Trade>::empty());
        } else {
            let bar = current_bar(p, prev);
            let nb = bar.push(x);
            assert(nb.drop_last() =~= bar);
            assert(nb[nb.len() - 2] == bar.last());
        }
    }
}

/// Law (run bars): a trade opens a new bar exactly when it is the first one, or
/// when the run that ends the current bar has reached the threshold.
pub proof fn lemma_run_decision(th: u64, ts: Seq<Trade>, t: Trade)
    requires
        th > 0,
    ensures
        decision(RunPeriod::fresh(th), ts.push(t)) == if ts.len() == 0 || run_of(
            current_bar(RunPeriod::fresh(th), ts),
        ) >= th {
            opens_at(t)
        } else {
            Boundary::Continue
        },
{
    lemma_run_state(th, ts);
    assert(ts.push(t).drop_last() =~= ts);
}

// ---------------------------------------------------------------------------
// Time

/// Law (time bars over a stream): fed from a fresh state, the rule's grid is
/// anchored at the time of the first trade; the current window ends on that
/// grid, after the anchor, and it is the window opened by the last trade that
/// opened a bar.
pub proof fn lemma_time_state(i: i64, ts: Seq<Trade>)
    requires
        i > 0,
        feedable(TimePeriod::fresh(i), ts),
    ensures
        fed(TimePeriod::fresh(i), ts).interval_ns == i,
        ts.len() == 0 ==> fed(TimePeriod::fresh(i), ts).base is None,
        ts.len() > 0 ==> {
            let q = fed(TimePeriod::fresh(i), ts);
            let b = ts[0].ts as int;
            let k = last_open(TimePeriod::fresh(i), ts);
            &&& q.base == Some(ts[0].ts)
            &&& q.current_end > b
            &&& (q.current_end - b) % (i as int) == 0
            &&& 0 <= k < ts.len()
            &&& decision(TimePeriod::fresh(i), ts.take(k + 1)) == (Boundary::CloseAndOpen {
                start: (q.current_end - i) as i64,
                end: q.current_end,
                partial: false,
            })
        },
    decreases ts.len(),
{
    let p = TimePeriod::fresh(i);
    if ts.len() > 0 {
        let prev = ts.drop_last();
        let t = ts.last();
        let ii = i as int;
        lemma_time_state(i, prev);
        lemma_stream_step(p, ts);
        assert(ts.take(ts.len() as int) =~= ts);
        if prev.len() == 0 {
            assert(ts[0] == t);
            vstd::arithmetic::div_mod::lemma_mod_self_0(ii);
        } else {
            let q0 = fed(p, prev);
            let b = prev[0].ts as int;
            assert(ts[0] == prev[0]);
            if t.ts < q0.current_end {
                let k = last_open(p, prev);
                assert(ts.take(k + 1) =~= prev.take(k + 1));
            } else {
                let d = t.ts - b;
                let m = d / ii;
                lemma_floor_div(d, ii);
                assert(d > 0);
                assert(m >= 0);
                assert(window_end(b, t.ts as int, ii) == b + (m + 1) * ii);
                assert((m + 1) * ii >= ii) by (nonlinear_arith)
                    requires
                        m >= 0,
                        ii > 0,
                ;
                vstd::arithmetic::div_mod::lemma_mod_multiples_basic(m + 1, ii);
            }
        }
    }
}

/// Law (time bars): the first trade opens the window `[t, t + interval)`; later,
/// a trade before the current window's end continues the bar, and a trade at
/// or past it opens the window of the grid anchored at the first trade that
/// holds it, which starts at or after the end of the window it closes.
pub proof fn lemma_time_decision(i: i64, ts: Seq<Trade>, t: Trade)
    requires
        i > 0,
        feedable(TimePeriod::fresh(i), ts.push(t)),
    ensures
        ts.len() == 0 ==> decision(TimePeriod::fresh(i), ts.push(t)) == (Boundary::CloseAndOpen {
            start: t.ts,
            end: (t.ts + i) as i64,
            partial: false,
        }) && fits_i64(t.ts + i),
        ts.len() > 0 ==> {
            let e = fed(TimePeriod::fresh(i), ts).current_end;
            let b = ts[0].ts as int;
            let s = b + ((t.ts - b) / (i as int)) * i;
            &&& t.ts < e ==> decision(TimePeriod::fresh(i), ts.push(t)) == Boundary::Continue
            &&& t.ts >= e ==> {
                &&& decision(TimePeriod::fresh(i), ts.push(t)) == (Boundary::CloseAndOpen {
                    start: s as i64,
                    end: (s + i) as i64,
                    partial: false,
                })
                &&& fits_i64(s) && fits_i64(s + i)
                &&& s <= t.ts < s + i
                &&& s >= e
            }
        },
{
    let p = TimePeriod::fresh(i);
    let all = ts.push(t);
    assert(all.drop_last() =~= ts);
    lemma_time_state(i, ts);
    if ts.len() > 0 {
        let q = fed(p, ts);
        let e = q.current_end as int;
        let b = ts[0].ts as int;
        let ii = i as int;
        if t.ts >= e {
            let d = t.ts - b;
            let m = d / ii;
            lemma_floor_div(d, ii);
            let c = (e - b) / ii;
            lemma_floor_div(e - b, ii);
            assert(c * ii == e - b);
            assert(c * ii <= d);
            assert(c <= m) by (nonlinear_arith)
                requires
                    c * ii <= d,
                    d < (m + 1) * ii,
                    ii > 0,
            ;
            assert(c * ii <= m * ii) by (nonlinear_arith)
                requires
                    c <= m,
                    ii > 0,
            ;
            assert(window_end(b, t.ts as int, ii) == b + (m + 1) * ii);
            assert((m + 1) * ii - ii == m * ii) by (nonlinear_arith);
        }
    }
}

// ---------------------------------------------------------------------------
// Clock-aligned time

/// Law (aligned bars over a stream): fed from a fresh state, the rule knows a
/// current window after any non-empty stream, and its end is the end of the
/// window opened by the last trade that opened a bar.
pub proof fn lemma_aligned_state(i: i64, ts: Seq<Trade>)
    requires
        i > 0,
        feedable(AlignedTimePeriod::fresh(i), ts),
    ensures
        fed(AlignedTimePeriod::fresh(i), ts).interval_ns == i,
        fed(AlignedTimePeriod::fresh(i), ts).current_end is None <==> ts.len() == 0,
        ts.len() > 0 ==> {
            let k = last_open(AlignedTimePeriod::fresh(i), ts);
            &&& 0 <= k < ts.len()
            &&& (decision(AlignedTimePeriod::fresh(i), ts.take(k + 1)) matches Boundary::CloseAndOpen {
                end,
                ..
            } && fed(AlignedTimePeriod::fresh(i), ts).current_end == Some(end))
        },
    decreases ts.len(),
{
    let p = AlignedTimePeriod::fresh(i);
    if ts.len() > 0 {
        let prev = ts.drop_last();
        lemma_aligned_state(i, prev);
        lemma_stream_step(p, ts);
        assert(ts.take(ts.len() as int) =~= ts);
        if decision(p, ts) is Continue {
            let k = last_open(p, prev);
            assert(ts.take(k + 1) =~= prev.take(k + 1));
        }
    }
}

/// Law (aligned bars): every trade that opens a bar opens the clock-aligned
/// window that holds it. The first trade opens it, partial when the trade is
/// not at the window's start; later, a trade before the current window's end
/// continues the bar and a trade at or past it opens its own window.
/// E.g. with an interval of 100 the first trade at 200 opens `[200, 300)`, not
/// partial; after the window `[100, 200)`, a trade at 180 continues and one at
/// 230 opens `[200, 300)`.
pub proof fn lemma_aligned_decision(i: i64, ts: Seq<Trade>, t: Trade)
    requires
        i > 0,
        feedable(AlignedTimePeriod::fresh(i), ts.push(t)),
    ensures
        ({
            let s = aligned_start(t.ts as int, i as int);
            &&& fits_i64(s) && fits_i64(s + i)
            &&& ts.len() == 0 ==> decision(AlignedTimePeriod::fresh(i), ts.push(t))
                == (Boundary::CloseAndOpen { start: s as i64, end: (s + i) as i64, partial: t.ts != s })
            &&& ts.len() > 0 ==> (fed(AlignedTimePeriod::fresh(i), ts).current_end matches Some(e) && (t.ts
                < e ==> decision(AlignedTimePeriod::fresh(i), ts.push(t)) == Boundary::Continue) && (t.ts
                >= e ==> decision(AlignedTimePeriod::fresh(i), ts.push(t)) == (Boundary::CloseAndOpen {
                start: s as i64,
                end: (s + i) as i64,
                partial: false,
            })))
        }),
{
    assert(ts.push(t).drop_last() =~= ts);
    lemma_aligned_state(i, ts);
}

// ---------------------------------------------------------------------------
// Point & figure

/// Law (point & figure): a fresh rule opens its first column on its first
/// trade, at that trade's time.
pub proof fn lemma_pnf_first(box_size: i64, reversal: i64, t: Trade)
    ensures
        decision(PointFigurePeriod::fresh(box_size, reversal), seq![t]) == opens_at(t),
        fed(PointFigurePeriod::fresh(box_size, reversal), seq![t]).extreme == t.price,
{
    assert(seq![t].drop_last() =~= Seq::<Trade>::empty());
    assert(seq![t].last() == t);
}

} // verus!
