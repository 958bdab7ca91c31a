//! Per-symbol aggregator: routes market events to the periods and to the order
//! book, composes the order-flow lenses and closes the bars. It is driven by
//! event time alone, so replaying a stream gives the same output.
use vstd::prelude::*;

use crate::bar::{bar_accepts, bar_with, opened_bar, Bar, BarView};
use crate::canonical::{BookUpdate, Granularity, Instrument, MarketEvent, Trade, Ts};
use crate::error::ConfigError;
use crate::orderflow::{
    empty_flow, kind_opens_on, kind_valid, lemma_absorbs_unique, lemma_fresh_accepts, lemma_opened_unique,
    lemma_same_recorded, BarComponent, Cvd, FlowView, LensInstance, LensKind, OrderFlow,
};
use crate::passive::{opened_window, BookModel, LiquidityProfile, OrderBook, PassiveAggregator};
use crate::period::{fits_i64, AlignedTimePeriod, AnyPeriod, Boundary, Period, TimePeriod};

verus! {

// ---------------------------------------------------------------------------
// Notifications

/// What the aggregator reports, in order, for its subscribers.
#[derive(Debug, Clone, PartialEq, Eq)]
pub enum Notification {
    /// A trade was integrated into the forming bar of the period `label`.
    Update { label: String, bar: Bar },
    /// The bar of the period `label` closed.
    Close { label: String, bar: Bar },
}

/// Model of a notification.
pub enum NoteView {
    Update { label: Seq<char>, bar: BarView },
    Close { label: Seq<char>, bar: BarView },
}

impl View for Notification {
    type V = NoteView;

    open spec fn view(&self) -> NoteView {
        match self {
            Notification::Update { label, bar } => NoteView::Update { label: label@, bar: bar@ },
            Notification::Close { label, bar } => NoteView::Close { label: label@, bar: bar@ },
        }
    }
}

/// The models of a sequence of notifications.
pub open spec fn note_views(v: Seq<Notification>) -> Seq<NoteView> {
    v.map_values(|n: Notification| n@)
}

// ---------------------------------------------------------------------------
// Slots

/// A registered period with its lenses and its forming bar.
struct Slot<P> {
    period: P,
    label: String,
    lens_kinds: Vec<LensKind>,
    /// Live lenses of the current bar.
    lenses: Vec<LensInstance>,
    /// Cumulative delta across bars, fed by the delta lenses.
    cvd: Cvd,
    current: Option<Bar>,
    /// How many closed bars to retain, when retention is on.
    history_depth: Option<usize>,
    /// The retained closed bars, oldest first.
    history: Vec<Bar>,
}

/// Model of a registered period.
#[verifier::ext_equal]
pub struct SlotView<P> {
    pub period: P,
    pub label: Seq<char>,
    pub kinds: Seq<LensKind>,
    pub lenses: Seq<LensInstance>,
    pub cvd: int,
    pub current: Option<Bar>,
    pub depth: Option<usize>,
    pub history: Seq<BarView>,
}

impl<P> Slot<P> {
    spec fn view(self) -> SlotView<P> {
        SlotView {
            period: self.period,
            label: self.label@,
            kinds: self.lens_kinds@,
            lenses: self.lenses@,
            cvd: self.cvd.total(),
            current: self.current,
            depth: self.history_depth,
            history: self.history@.map_values(|b: Bar| b@),
        }
    }
}

/// The retained closed bars once `b` closes: with a depth, the last `depth`
/// of them, oldest first; without one, none.
pub open spec fn retained(h: Seq<BarView>, b: BarView, depth: Option<usize>) -> Seq<BarView> {
    match depth {
        None => h,
        Some(d) => if h.len() + 1 > d {
            h.push(b).subrange(1, h.len() as int + 1)
        } else {
            h.push(b)
        },
    }
}

/// The order flow of a closing bar and the cumulative delta after it: the
/// lenses record their results in order, and each delta lens adds its bar delta
/// to the cumulative delta, which the flow then reports.
pub open spec fn closing_flow(lenses: Seq<LensInstance>, cvd: int) -> (FlowView, int)
    decreases lenses.len(),
{
    if lenses.len() == 0 {
        (empty_flow()@, cvd)
    } else {
        let (of, c) = closing_flow(lenses.drop_last(), cvd);
        let l = lenses.last();
        let recorded = l.recorded(of);
        match l.bar_delta() {
            Some(d) => (FlowView { cvd: Some((c + d) as i64), ..recorded }, c + d),
            None => (recorded, c),
        }
    }
}

/// Every running total of the cumulative delta while closing fits an `i64`.
pub open spec fn closing_fits(lenses: Seq<LensInstance>, cvd: int) -> bool
    decreases lenses.len(),
{
    if lenses.len() == 0 {
        true
    } else {
        &&& closing_fits(lenses.drop_last(), cvd)
        &&& lenses.last().bar_delta() matches Some(d) ==> fits_i64(
            closing_flow(lenses.drop_last(), cvd).1 + d,
        )
    }
}

/// A slot is consistent: valid period and lenses, and a forming bar whose
/// order flow is still empty.
pub open spec fn slot_wf<P: Period>(s: SlotView<P>) -> bool {
    &&& s.period.wf()
    &&& forall|i: int| 0 <= i < s.lenses.len() ==> #[trigger] s.lenses[i].wf()
    &&& s.current matches Some(c) ==> c.orderflow == empty_flow()
    &&& match s.depth {
        Some(d) => s.history.len() <= d,
        None => s.history.len() == 0,
    }
}

/// Trade `t` can go through slot `s` without overflow or a missing bar.
pub open spec fn slot_accepts<P: Period>(s: SlotView<P>, t: Trade) -> bool {
    &&& s.period.accepts(t)
    &&& match s.period.transition(t).1 {
        Boundary::Continue => {
            &&& s.current matches Some(c) && bar_accepts(c, t)
            &&& forall|i: int| 0 <= i < s.lenses.len() ==> #[trigger] s.lenses[i].accepts(t)
        },
        Boundary::CloseAndOpen { .. } => {
            &&& s.current is Some ==> closing_fits(s.lenses, s.cvd)
            &&& forall|i: int| 0 <= i < s.kinds.len() ==> kind_opens_on(#[trigger] s.kinds[i], t)
        },
    }
}

/// The bar that a boundary opens on trade `t`.
pub open spec fn opening_bar(start: Ts, end: Ts, partial: bool, t: Trade) -> Bar {
    Bar { partial, ..opened_bar(start, end, t) }
}

/// Slot `n` is slot `s` after trade `t`.
pub open spec fn slot_next<P: Period>(s: SlotView<P>, t: Trade, n: SlotView<P>) -> bool {
    &&& n.period == s.period.transition(t).0
    &&& n.label == s.label
    &&& n.kinds == s.kinds
    &&& n.depth == s.depth
    &&& match s.period.transition(t).1 {
        Boundary::Continue => {
            &&& n.current == Some(bar_with(s.current.unwrap(), t))
            &&& n.cvd == s.cvd
            &&& n.history == s.history
            &&& n.lenses.len() == s.lenses.len()
            &&& forall|i: int| 0 <= i < s.lenses.len() ==> #[trigger] s.lenses[i].absorbs(t, n.lenses[i])
        },
        Boundary::CloseAndOpen { start, end, partial } => {
            &&& n.current == Some(opening_bar(start, end, partial, t))
            &&& n.cvd == if s.current is Some {
                closing_flow(s.lenses, s.cvd).1
            } else {
                s.cvd
            }
            &&& n.history == if s.current is Some {
                retained(s.history, closed_view(s, s.current.unwrap().partial), s.depth)
            } else {
                s.history
            }
            &&& n.lenses.len() == s.kinds.len()
            &&& forall|i: int| 0 <= i < s.kinds.len() ==> #[trigger] n.lenses[i].opened_by(s.kinds[i], t)
        },
    }
}

/// The closed bar that slot `s` reports: its forming bar with the order flow of
/// its lenses, marked partial when `partial`.
pub open spec fn closed_view<P: Period>(s: SlotView<P>, partial: bool) -> BarView {
    BarView { partial, flow: closing_flow(s.lenses, s.cvd).0, ..s.current.unwrap()@ }
}

/// The notifications of slot `s` for trade `t`: an update of the forming bar,
/// preceded by the close of the previous bar when the trade opens a new one.
pub open spec fn slot_notes<P: Period>(s: SlotView<P>, t: Trade) -> Seq<NoteView> {
    match s.period.transition(t).1 {
        Boundary::Continue => seq![NoteView::Update { label: s.label, bar: bar_with(s.current.unwrap(), t)@ }],
        Boundary::CloseAndOpen { start, end, partial } => {
            let closing = if s.current is Some {
                seq![NoteView::Close { label: s.label, bar: closed_view(s, s.current.unwrap().partial) }]
            } else {
                Seq::empty()
            };
            closing.push(NoteView::Update { label: s.label, bar: opening_bar(start, end, partial, t)@ })
        },
    }
}

/// The notifications of the slots, in order, for trade `t`.
pub open spec fn trade_notes<P: Period>(slots: Seq<SlotView<P>>, t: Trade) -> Seq<NoteView>
    decreases slots.len(),
{
    if slots.len() == 0 {
        Seq::empty()
    } else {
        trade_notes(slots.drop_last(), t) + slot_notes(slots.last(), t)
    }
}

/// A prefix of the lenses can be closed when the whole row can.
proof fn lemma_closing_fits_prefix(lenses: Seq<LensInstance>, cvd: int, k: int)
    requires
        closing_fits(lenses, cvd),
        0 <= k <= lenses.len(),
    ensures
        closing_fits(lenses.subrange(0, k), cvd),
    decreases lenses.len(),
{
    if k == lenses.len() {
        assert(lenses.subrange(0, k) =~= lenses);
    } else {
        lemma_closing_fits_prefix(lenses.drop_last(), cvd, k);
        assert(lenses.drop_last().subrange(0, k) =~= lenses.subrange(0, k));
    }
}

/// Fresh lenses for the given kinds.
fn fresh_lenses(kinds: &Vec<LensKind>) -> (r: Vec<LensInstance>)
    requires
        forall|i: int| 0 <= i < kinds@.len() ==> kind_valid(#[trigger] kinds@[i]),
    ensures
        r@.len() == kinds@.len(),
        forall|i: int| 0 <= i < r@.len() ==> (#[trigger] r@[i]).wf() && r@[i].is_fresh(kinds@[i]),
{
    let mut r: Vec<LensInstance> = Vec::new();
    let mut i: usize = 0;
    while i < kinds.len()
        invariant
            i <= kinds@.len(),
            r@.len() == i,
            forall|j: int| 0 <= j < kinds@.len() ==> kind_valid(#[trigger] kinds@[j]),
            forall|j: int| 0 <= j < i ==> (#[trigger] r@[j]).wf() && r@[j].is_fresh(kinds@[j]),
        decreases kinds@.len() - i,
    {
        let k = kinds[i];
        assert(kinds@[i as int] == k);
        r.push(LensInstance::from_kind(k));
        i = i + 1;
    }
    r
}

/// Feeds `t` to every lens.
fn feed_lenses(lenses: &mut Vec<LensInstance>, t: &Trade)
    requires
        forall|i: int| 0 <= i < old(lenses)@.len() ==> (#[trigger] old(lenses)@[i]).wf(),
        forall|i: int| 0 <= i < old(lenses)@.len() ==> (#[trigger] old(lenses)@[i]).accepts(*t),
    ensures
        final(lenses)@.len() == old(lenses)@.len(),
        forall|i: int| 0 <= i < final(lenses)@.len() ==> (#[trigger] final(lenses)@[i]).wf(),
        forall|i: int|
            0 <= i < old(lenses)@.len() ==> #[trigger] old(lenses)@[i].absorbs(*t, final(lenses)@[i]),
{
    let ghost before = lenses@;
    let mut i: usize = 0;
    while i < lenses.len()
        invariant
            lenses@.len() == before.len(),
            i <= before.len(),
            forall|j: int| i <= j < before.len() ==> lenses@[j] == before[j],
            forall|j: int| 0 <= j < before.len() ==> (#[trigger] before[j]).wf(),
            forall|j: int| 0 <= j < before.len() ==> (#[trigger] before[j]).accepts(*t),
            forall|j: int| 0 <= j < i ==> (#[trigger] lenses@[j]).wf(),
            forall|j: int| 0 <= j < i ==> #[trigger] before[j].absorbs(*t, lenses@[j]),
        decreases before.len() - i,
    {
        let mut l = lenses.remove(i);
        assert(l == before[i as int]);
        l.on_trade(t);
        lenses.insert(i, l);
        i = i + 1;
    }
}

impl<P: Period> Slot<P> {
    /// Retains a copy of a closed bar when retention is on.
    fn retain(&mut self, bar: &Bar)
        requires
            slot_wf(old(self).view()),
        ensures
            slot_wf(final(self).view()),
            final(self).view() == (SlotView {
                history: retained(old(self).view().history, bar@, old(self).view().depth),
                ..old(self).view()
            }),
    {
        let ghost h0 = self.history@.map_values(|b: Bar| b@);
        match self.history_depth {
            Some(d) => {
                let copy = bar.duplicate();
                self.history.push(copy);
                if self.history.len() > d {
                    self.history.remove(0);
                }
                proof {
                    let h1 = self.history@.map_values(|b: Bar| b@);
                    assert(h1 =~= retained(h0, bar@, Some(d)));
                }
            },
            None => {},
        }
        assert(self.view() =~= (SlotView {
            history: retained(old(self).view().history, bar@, old(self).view().depth),
            ..old(self).view()
        }));
    }

    /// The order flow of the current bar, from a snapshot of the lenses; the
    /// delta lenses feed the cumulative delta.
    fn snapshot_orderflow(&mut self) -> (of: OrderFlow)
        requires
            slot_wf(old(self).view()),
            closing_fits(old(self).lenses@, old(self).cvd.total()),
        ensures
            (of@, final(self).cvd.total()) == closing_flow(old(self).lenses@, old(self).cvd.total()),
            final(self).view() == (SlotView { cvd: final(self).cvd.total(), ..old(self).view() }),
    {
        let ghost lenses0 = self.lenses@;
        let ghost cvd0 = self.cvd.total();
        let mut of = OrderFlow::empty();
        let mut i: usize = 0;
        while i < self.lenses.len()
            invariant
                self.lenses@ == lenses0,
                self.view() == (SlotView { cvd: self.cvd.total(), ..old(self).view() }),
                i <= lenses0.len(),
                forall|j: int| 0 <= j < lenses0.len() ==> (#[trigger] lenses0[j]).wf(),
                closing_fits(lenses0, cvd0),
                (of@, self.cvd.total()) == closing_flow(lenses0.subrange(0, i as int), cvd0),
            decreases lenses0.len() - i,
        {
            proof {
                lemma_closing_fits_prefix(lenses0, cvd0, i as int + 1);
                assert(lenses0.subrange(0, i as int + 1).drop_last() =~= lenses0.subrange(0, i as int));
            }
            let mut l = self.lenses.remove(i);
            assert(l == lenses0[i as int]);
            let d = l.snapshot_into(&mut of);
            match d {
                Some(d) => {
                    let c = self.cvd.push_bar_delta(d);
                    of.cvd = Some(c);
                },
                None => {},
            }
            self.lenses.insert(i, l);
            assert(self.lenses@ =~= lenses0);
            i = i + 1;
        }
        assert(lenses0.subrange(0, i as int) =~= lenses0);
        of
    }

    /// Routes trade `t` to the slot: the period decides, the bar and the lenses
    /// follow, and the notifications are appended to `notes`.
    fn step(&mut self, t: &Trade, notes: &mut Vec<Notification>)
        requires
            slot_wf(old(self).view()),
            slot_accepts(old(self).view(), *t),
        ensures
            slot_wf(final(self).view()),
            slot_next(old(self).view(), *t, final(self).view()),
            note_views(final(notes)@) == note_views(old(notes)@) + slot_notes(old(self).view(), *t),
    {
        let ghost s0 = self.view();
        let ghost notes0 = notes@;
        let b = self.period.on_trade(t);
        assert(s0.period.transition(*t).1 == b);
        assert(self.lenses@ == s0.lenses);
        assert(self.lens_kinds@ == s0.kinds);
        match b {
            Boundary::Continue => {
                let mut bar = match self.current.take() {
                    Some(bar) => bar,
                    None => {
                        assert(false);
                        return;
                    },
                };
                bar.add(t);
                feed_lenses(&mut self.lenses, t);
                let update = Notification::Update { label: self.label.clone(), bar: bar.forming_copy() };
                notes.push(update);
                self.current = Some(bar);
                proof {
                    assert(note_views(notes@) =~= note_views(notes0) + slot_notes(s0, *t));
                }
            },
            Boundary::CloseAndOpen { start, end, partial } => {
                if self.current.is_some() {
                    let of = self.snapshot_orderflow();
                    let mut bar = match self.current.take() {
                        Some(bar) => bar,
                        None => {
                            return;
                        },
                    };
                    bar.orderflow = of;
                    self.retain(&bar);
                    notes.push(Notification::Close { label: self.label.clone(), bar });
                }
                proof {
                    assert forall|i: int| 0 <= i < self.lens_kinds@.len() implies kind_valid(#[trigger] self.lens_kinds@[i]) by {
                        assert(kind_opens_on(self.lens_kinds@[i], *t));
                    }
                }
                let fresh = fresh_lenses(&self.lens_kinds);
                let ghost fresh0 = fresh@;
                self.lenses = fresh;
                proof {
                    assert forall|i: int| 0 <= i < self.lenses@.len() implies (#[trigger] self.lenses@[i]).accepts(*t) by {
                        lemma_fresh_accepts(self.lenses@[i], self.lens_kinds@[i], *t);
                    }
                }
                feed_lenses(&mut self.lenses, t);
                proof {
                    assert forall|i: int| 0 <= i < self.lens_kinds@.len() implies #[trigger] self.lenses@[i].opened_by(
                        self.lens_kinds@[i],
                        *t,
                    ) by {
                        assert(fresh0[i].is_fresh(self.lens_kinds@[i]));
                        assert(fresh0[i].absorbs(*t, self.lenses@[i]));
                    }
                }
                let mut bar = Bar::open(start, end, t);
                bar.partial = partial;
                let update = Notification::Update { label: self.label.clone(), bar: bar.forming_copy() };
                notes.push(update);
                self.current = Some(bar);
                proof {
                    assert(note_views(notes@) =~= note_views(notes0) + slot_notes(s0, *t));
                }
            },
        }
    }
}

/// Whether a fresh lens of kind `k` can be made and can take `t` first.
fn kind_can_open(k: LensKind, t: &Trade) -> (r: bool)
    ensures
        r == kind_opens_on(k, *t),
{
    match k {
        LensKind::Tpo { bracket_ns, .. } => bracket_ns > 0,
        LensKind::VolumeProfile { value_area_pct_bits } => 0 < value_area_pct_bits && value_area_pct_bits
            <= 0x3ff0_0000_0000_0000,
        LensKind::Delta => match t.aggressor {
            crate::canonical::AggressorSide::Sell => (t.size as i64) != i64::MIN,
            _ => true,
        },
        _ => true,
    }
}

/// Whether every lens can take `t`.
fn lenses_take(lenses: &Vec<LensInstance>, t: &Trade) -> (r: bool)
    requires
        forall|j: int| 0 <= j < lenses@.len() ==> #[trigger] lenses@[j].wf(),
    ensures
        r == forall|j: int| 0 <= j < lenses@.len() ==> #[trigger] lenses@[j].accepts(*t),
{
    let mut i: usize = 0;
    while i < lenses.len()
        invariant
            i <= lenses@.len(),
            forall|j: int| 0 <= j < lenses@.len() ==> #[trigger] lenses@[j].wf(),
            forall|j: int| 0 <= j < i ==> #[trigger] lenses@[j].accepts(*t),
        decreases lenses@.len() - i,
    {
        if !lenses[i].can_take(t) {
            return false;
        }
        i = i + 1;
    }
    true
}

/// Whether a fresh lens of every kind can open on `t`.
fn kinds_open(kinds: &Vec<LensKind>, t: &Trade) -> (r: bool)
    ensures
        r == forall|j: int| 0 <= j < kinds@.len() ==> kind_opens_on(#[trigger] kinds@[j], *t),
{
    let mut i: usize = 0;
    while i < kinds.len()
        invariant
            i <= kinds@.len(),
            forall|j: int| 0 <= j < i ==> kind_opens_on(#[trigger] kinds@[j], *t),
        decreases kinds@.len() - i,
    {
        if !kind_can_open(kinds[i], t) {
            return false;
        }
        i = i + 1;
    }
    true
}

/// Whether closing the lenses keeps every running cumulative delta in an `i64`.
fn closing_ok(lenses: &Vec<LensInstance>, cvd: i64) -> (r: bool)
    ensures
        r == closing_fits(lenses@, cvd as int),
{
    let mut c: i64 = cvd;
    let mut i: usize = 0;
    while i < lenses.len()
        invariant
            i <= lenses@.len(),
            closing_fits(lenses@.subrange(0, i as int), cvd as int),
            c == closing_flow(lenses@.subrange(0, i as int), cvd as int).1,
        decreases lenses@.len() - i,
    {
        assert(lenses@.subrange(0, i as int + 1).drop_last() =~= lenses@.subrange(0, i as int));
        match &lenses[i] {
            LensInstance::Delta(d) => {
                match c.checked_add(d.value()) {
                    Some(x) => c = x,
                    None => {
                        proof {
                            if closing_fits(lenses@, cvd as int) {
                                lemma_closing_fits_prefix(lenses@, cvd as int, i as int + 1);
                            }
                        }
                        return false;
                    },
                }
            },
            _ => {},
        }
        i = i + 1;
    }
    assert(lenses@.subrange(0, i as int) =~= lenses@);
    true
}

/// The notification of the end-of-stream flush of slot `s`: the close of its
/// forming bar, marked partial, if there is one.
pub open spec fn flush_notes<P: Period>(s: SlotView<P>) -> Seq<NoteView> {
    if s.current is Some {
        seq![NoteView::Close { label: s.label, bar: closed_view(s, true) }]
    } else {
        Seq::empty()
    }
}

/// Slot `s` after the end-of-stream flush: no forming bar, and the cumulative
/// delta fed by the closed bar.
pub open spec fn slot_flushed<P: Period>(s: SlotView<P>) -> SlotView<P> {
    if s.current is Some {
        SlotView {
            current: None,
            cvd: closing_flow(s.lenses, s.cvd).1,
            history: retained(s.history, closed_view(s, true), s.depth),
            ..s
        }
    } else {
        s
    }
}

/// The notifications of the end-of-stream flush of the slots, in order.
pub open spec fn finish_notes<P: Period>(slots: Seq<SlotView<P>>) -> Seq<NoteView>
    decreases slots.len(),
{
    if slots.len() == 0 {
        Seq::empty()
    } else {
        finish_notes(slots.drop_last()) + flush_notes(slots.last())
    }
}

impl<P: Period> Slot<P> {
    /// Closes the forming bar at the end of the stream, marked partial.
    fn flush(&mut self, notes: &mut Vec<Notification>)
        requires
            slot_wf(old(self).view()),
            old(self).view().current is Some ==> closing_fits(old(self).view().lenses, old(self).view().cvd),
        ensures
            slot_wf(final(self).view()),
            final(self).view() == slot_flushed(old(self).view()),
            note_views(final(notes)@) == note_views(old(notes)@) + flush_notes(old(self).view()),
    {
        let ghost s0 = self.view();
        let ghost notes0 = notes@;
        if self.current.is_some() {
            let of = self.snapshot_orderflow();
            let mut bar = match self.current.take() {
                Some(bar) => bar,
                None => {
                    return;
                },
            };
            bar.partial = true;
            bar.orderflow = of;
            self.retain(&bar);
            notes.push(Notification::Close { label: self.label.clone(), bar });
            proof {
                assert(note_views(notes@) =~= note_views(notes0) + flush_notes(s0));
                assert(self.view() =~= slot_flushed(s0));
            }
        } else {
            assert(note_views(notes@) =~= note_views(notes0) + flush_notes(s0));
        }
    }
}

impl<P: Period + Copy> Slot<P> {
    /// Whether trade `t` can go through the slot.
    fn can_take(&self, t: &Trade) -> (r: bool)
        requires
            slot_wf(self.view()),
        ensures
            r == slot_accepts(self.view(), *t),
    {
        if !self.period.can_take(t) {
            return false;
        }
        let mut probe = self.period;
        let b = probe.on_trade(t);
        assert(self.view().period.transition(*t).1 == b);
        assert(self.view().lenses == self.lenses@);
        assert(self.view().kinds == self.lens_kinds@);
        assert(self.view().cvd == self.cvd.total());
        assert(self.view().current == self.current);
        match b {
            Boundary::Continue => {
                match &self.current {
                    None => false,
                    Some(c) => {
                        if t.size > u64::MAX - c.ohlcv.volume {
                            return false;
                        }
                        lenses_take(&self.lenses, t)
                    },
                }
            },
            Boundary::CloseAndOpen { .. } => {
                if self.current.is_some() && !closing_ok(&self.lenses, self.cvd.value()) {
                    return false;
                }
                kinds_open(&self.lens_kinds, t)
            },
        }
    }
}

impl<P: Period> Slot<P> {
    /// The order flow of the forming bar as the lenses stand, with the
    /// cumulative delta it would report; the slot is left as it is.
    fn forming_orderflow(&self) -> (of: OrderFlow)
        requires
            slot_wf(self.view()),
            closing_fits(self.view().lenses, self.view().cvd),
        ensures
            of@ == closing_flow(self.view().lenses, self.view().cvd).0,
    {
        let ghost lenses0 = self.lenses@;
        let ghost cvd0 = self.cvd.total();
        assert(self.view().lenses == lenses0);
        let mut of = OrderFlow::empty();
        let mut c: i64 = self.cvd.value();
        let mut i: usize = 0;
        while i < self.lenses.len()
            invariant
                self.lenses@ == lenses0,
                cvd0 == self.cvd.total(),
                i <= lenses0.len(),
                forall|j: int| 0 <= j < lenses0.len() ==> (#[trigger] lenses0[j]).wf(),
                closing_fits(lenses0, cvd0),
                (of@, c as int) == closing_flow(lenses0.subrange(0, i as int), cvd0),
            decreases lenses0.len() - i,
        {
            proof {
                lemma_closing_fits_prefix(lenses0, cvd0, i as int + 1);
                assert(lenses0.subrange(0, i as int + 1).drop_last() =~= lenses0.subrange(0, i as int));
            }
            let d = self.lenses[i].snapshot_ref(&mut of);
            match d {
                Some(d) => {
                    c = c + d;
                    of.cvd = Some(c);
                },
                None => {},
            }
            i = i + 1;
        }
        assert(lenses0.subrange(0, i as int) =~= lenses0);
        of
    }

    /// The forming bar marked partial, with the order flow of its lenses.
    fn forming_bar(&self) -> (r: Option<Bar>)
        requires
            slot_wf(self.view()),
            self.view().current is Some ==> closing_fits(self.view().lenses, self.view().cvd),
        ensures
            match self.view().current {
                Some(_) => r matches Some(b) && b@ == closed_view(self.view(), true),
                None => r is None,
            },
    {
        match &self.current {
            Some(c) => {
                let of = self.forming_orderflow();
                Some(Bar { start: c.start, end: c.end, ohlcv: c.ohlcv, partial: true, orderflow: of })
            },
            None => None,
        }
    }

    /// A copy of the retained closed bars.
    fn history_copy(&self) -> (r: Vec<Bar>)
        ensures
            r@.map_values(|b: Bar| b@) == self.view().history,
    {
        let mut r: Vec<Bar> = Vec::new();
        let mut i: usize = 0;
        while i < self.history.len()
            invariant
                i <= self.history@.len(),
                r@.len() == i,
                forall|j: int| 0 <= j < i ==> (#[trigger] r@[j])@ == self.history@[j]@,
            decreases self.history@.len() - i,
        {
            r.push(self.history[i].duplicate());
            i = i + 1;
        }
        assert(r@.map_values(|b: Bar| b@) =~= self.history@.map_values(|b: Bar| b@));
        r
    }
}

// ---------------------------------------------------------------------------
// The aggregator

/// Time bookkeeping: the latest event time seen and the number of events that
/// arrived before it. An event older than the latest one is counted, not
/// rejected, and does not move the latest time.
pub open spec fn noted(last: Option<Ts>, count: int, ts: Ts) -> (Option<Ts>, int) {
    match last {
        Some(prev) => if ts < prev {
            (last, count + 1)
        } else {
            (Some(ts), count)
        },
        None => (Some(ts), count),
    }
}

/// Passive aggregator `q` is `p` after book update `u`.
pub open spec fn passive_next(p: PassiveAggregator, u: BookUpdate, q: PassiveAggregator) -> bool {
    p.steps_to(u, q)
}

/// The aggregator of one symbol.
pub struct SymbolAggregator<P> {
    instrument: Instrument,
    granularity: Granularity,
    slots: Vec<Slot<P>>,
    /// Passive side (the book), when enabled.
    passive: Option<PassiveAggregator>,
    /// Latest event time seen.
    last_ts: Option<Ts>,
    out_of_order: u64,
}

impl<P: Period> SymbolAggregator<P> {
    /// The aggregated instrument.
    pub closed spec fn symbol(self) -> Instrument {
        self.instrument
    }

    /// The declared granularity.
    pub closed spec fn declared(self) -> Granularity {
        self.granularity
    }

    /// The registered periods, in registration order.
    pub closed spec fn slot_views(self) -> Seq<SlotView<P>> {
        self.slots@.map_values(|s: Slot<P>| s.view())
    }

    /// The passive side, when enabled.
    pub closed spec fn passive_side(self) -> Option<PassiveAggregator> {
        self.passive
    }

    /// The latest event time seen.
    pub closed spec fn last_seen(self) -> Option<Ts> {
        self.last_ts
    }

    /// The number of events that arrived out of order.
    pub closed spec fn disorder(self) -> int {
        self.out_of_order as int
    }

    /// Internal consistency.
    pub open spec fn wf(self) -> bool {
        &&& forall|i: int| 0 <= i < self.slot_views().len() ==> slot_wf(#[trigger] self.slot_views()[i])
        &&& self.passive_side() matches Some(p) ==> p.wf()
    }

    /// Event `e` can be processed without arithmetic overflow or a missing bar.
    pub open spec fn accepts(self, e: MarketEvent) -> bool {
        &&& (self.last_seen() matches Some(prev) && e.event_ts() < prev) ==> self.disorder() < u64::MAX
        &&& match e {
            MarketEvent::Trade(t) => t.instrument_id == self.symbol().id ==> forall|i: int|
                0 <= i < self.slot_views().len() ==> slot_accepts(#[trigger] self.slot_views()[i], t),
            MarketEvent::BookUpdate(u) => (u.instrument_id == self.symbol().id
                && self.passive_side() is Some) ==> self.passive_side().unwrap().accepts(u),
        }
    }

    /// `b` is this aggregator after event `e`, and `notes` the notifications:
    /// the event time is noted; a trade of the instrument goes to every period
    /// in turn, a book update of the instrument to the passive side when there
    /// is one; anything else changes nothing.
    pub open spec fn processed(self, e: MarketEvent, b: Self, notes: Seq<NoteView>) -> bool {
        &&& b.wf()
        &&& b.symbol() == self.symbol()
        &&& b.declared() == self.declared()
        &&& (b.last_seen(), b.disorder()) == noted(self.last_seen(), self.disorder(), e.event_ts())
        &&& match e {
            MarketEvent::Trade(t) => {
                &&& b.passive_side() == self.passive_side()
                &&& if t.instrument_id == self.symbol().id {
                    &&& b.slot_views().len() == self.slot_views().len()
                    &&& forall|i: int|
                        0 <= i < self.slot_views().len() ==> slot_next(
                            #[trigger] self.slot_views()[i],
                            t,
                            b.slot_views()[i],
                        )
                    &&& notes == trade_notes(self.slot_views(), t)
                } else {
                    &&& b.slot_views() == self.slot_views()
                    &&& notes.len() == 0
                }
            },
            MarketEvent::BookUpdate(u) => {
                &&& b.slot_views() == self.slot_views()
                &&& notes.len() == 0
                &&& if u.instrument_id == self.symbol().id && self.passive_side() is Some {
                    &&& b.passive_side() is Some
                    &&& passive_next(self.passive_side().unwrap(), u, b.passive_side().unwrap())
                } else {
                    b.passive_side() == self.passive_side()
                }
            },
        }
    }

    /// `b` is this aggregator after the end-of-stream flush, and `notes` the
    /// notifications: every forming bar closes, marked partial, and the current
    /// liquidity window closes.
    pub open spec fn finished(self, b: Self, notes: Seq<NoteView>) -> bool {
        &&& b.wf()
        &&& b.symbol() == self.symbol()
        &&& b.declared() == self.declared()
        &&& b.last_seen() == self.last_seen()
        &&& b.disorder() == self.disorder()
        &&& b.slot_views() == self.slot_views().map_values(|s: SlotView<P>| slot_flushed(s))
        &&& notes == finish_notes(self.slot_views())
        &&& match self.passive_side() {
            Some(p) => b.passive_side() matches Some(q) && passive_finished(p, q),
            None => b.passive_side() is None,
        }
    }

    /// The forming bars can all be closed without overflow.
    pub open spec fn finish_ok(self) -> bool {
        forall|i: int|
            0 <= i < self.slot_views().len() ==> (#[trigger] self.slot_views()[i]).current is Some
                ==> closing_fits(self.slot_views()[i].lenses, self.slot_views()[i].cvd)
    }

    /// The aggregated instrument.
    pub fn instrument(&self) -> (r: Instrument)
        ensures
            r == self.symbol(),
    {
        self.instrument
    }

    /// The declared granularity.
    pub fn granularity(&self) -> (r: Granularity)
        ensures
            r == self.declared(),
    {
        self.granularity
    }

    /// Number of events that arrived out of event-time order.
    pub fn out_of_order_count(&self) -> (r: u64)
        ensures
            r == self.disorder(),
    {
        self.out_of_order
    }

    /// Notes the event time of an event.
    fn note_ts(&mut self, ts: Ts)
        requires
            (old(self).last_seen() matches Some(prev) && ts < prev) ==> old(self).disorder() < u64::MAX,
        ensures
            (final(self).last_seen(), final(self).disorder()) == noted(
                old(self).last_seen(),
                old(self).disorder(),
                ts,
            ),
            final(self).slots == old(self).slots,
            final(self).passive == old(self).passive,
            final(self).instrument == old(self).instrument,
            final(self).granularity == old(self).granularity,
    {
        match self.last_ts {
            Some(prev) => if ts < prev {
                self.out_of_order = self.out_of_order + 1;
            } else {
                self.last_ts = Some(ts);
            },
            None => self.last_ts = Some(ts),
        }
    }

    /// The single entry point, live and replay: a trade of the instrument goes
    /// to every period in turn, a book update of the instrument to the passive
    /// side; events of other instruments only count for event time. Returns the
    /// notifications, in order.
    pub fn process(&mut self, event: &MarketEvent) -> (notes: Vec<Notification>)
        requires
            old(self).wf(),
            old(self).accepts(*event),
        ensures
            old(self).processed(*event, *final(self), note_views(notes@)),
    {
        self.note_ts(event.ts());
        assert(self.slot_views() == old(self).slot_views());
        match event {
            MarketEvent::Trade(t) => self.on_trade(t),
            MarketEvent::BookUpdate(b) => {
                self.on_book_update(b);
                Vec::new()
            },
        }
    }

    fn on_book_update(&mut self, b: &BookUpdate)
        requires
            old(self).wf(),
            (b.instrument_id == old(self).symbol().id && old(self).passive_side() is Some)
                ==> old(self).passive_side().unwrap().accepts(*b),
        ensures
            final(self).wf(),
            final(self).slots == old(self).slots,
            final(self).instrument == old(self).instrument,
            final(self).granularity == old(self).granularity,
            final(self).last_ts == old(self).last_ts,
            final(self).out_of_order == old(self).out_of_order,
            if b.instrument_id == old(self).symbol().id && old(self).passive_side() is Some {
                &&& final(self).passive_side() is Some
                &&& passive_next(old(self).passive_side().unwrap(), *b, final(self).passive_side().unwrap())
            } else {
                final(self).passive_side() == old(self).passive_side()
            },
    {
        if b.instrument_id != self.instrument.id {
            return;
        }
        let mut taken: Option<PassiveAggregator> = None;
        core::mem::swap(&mut taken, &mut self.passive);
        match taken {
            Some(mut p) => {
                // An integrity anomaly is tolerated: the level is dropped.
                let _ = p.apply(b);
                self.passive = Some(p);
                assert(self.slot_views() == old(self).slot_views());
            },
            None => {},
        }
    }

    fn on_trade(&mut self, t: &Trade) -> (notes: Vec<Notification>)
        requires
            old(self).wf(),
            t.instrument_id == old(self).symbol().id ==> forall|i: int|
                0 <= i < old(self).slot_views().len() ==> slot_accepts(#[trigger] old(self).slot_views()[i], *t),
        ensures
            final(self).wf(),
            final(self).instrument == old(self).instrument,
            final(self).granularity == old(self).granularity,
            final(self).last_ts == old(self).last_ts,
            final(self).out_of_order == old(self).out_of_order,
            final(self).passive == old(self).passive,
            if t.instrument_id == old(self).symbol().id {
                &&& final(self).slot_views().len() == old(self).slot_views().len()
                &&& forall|i: int|
                    0 <= i < old(self).slot_views().len() ==> slot_next(
                        #[trigger] old(self).slot_views()[i],
                        *t,
                        final(self).slot_views()[i],
                    )
                &&& note_views(notes@) == trade_notes(old(self).slot_views(), *t)
            } else {
                &&& final(self).slots == old(self).slots
                &&& notes@.len() == 0
            },
    {
        let mut notes: Vec<Notification> = Vec::new();
        if t.instrument_id != self.instrument.id {
            return notes;
        }
        let ghost olds = self.slot_views();
        let mut pending: Vec<Slot<P>> = Vec::new();
        core::mem::swap(&mut pending, &mut self.slots);
        let n = pending.len();
        let mut done: Vec<Slot<P>> = Vec::new();
        let mut i: usize = 0;
        while i < n
            invariant
                olds.len() == n,
                i <= n,
                pending@.len() == n - i,
                forall|j: int| 0 <= j < n - i ==> (#[trigger] pending@[j]).view() == olds[j + i],
                forall|j: int| 0 <= j < n ==> slot_wf(#[trigger] olds[j]),
                forall|j: int| 0 <= j < n ==> slot_accepts(#[trigger] olds[j], *t),
                done@.len() == i,
                forall|j: int| 0 <= j < i ==> slot_wf((#[trigger] done@[j]).view()),
                forall|j: int| 0 <= j < i ==> slot_next(olds[j], *t, (#[trigger] done@[j]).view()),
                note_views(notes@) == trade_notes(olds.subrange(0, i as int), *t),
            decreases n - i,
        {
            let mut slot = pending.remove(0);
            assert(slot.view() == olds[i as int]);
            slot.step(t, &mut notes);
            done.push(slot);
            proof {
                assert(olds.subrange(0, i as int + 1).drop_last() =~= olds.subrange(0, i as int));
                assert(forall|j: int| 0 <= j < n - (i + 1) ==> pending@[j].view() == olds[j + i + 1]);
            }
            i = i + 1;
        }
        self.slots = done;
        proof {
            assert(olds.subrange(0, n as int) =~= olds);
            assert forall|j: int| 0 <= j < self.slot_views().len() implies slot_wf(#[trigger] self.slot_views()[j]) by {
                assert(self.slot_views()[j] == self.slots@[j].view());
            }
            assert forall|j: int| 0 <= j < olds.len() implies slot_next(
                #[trigger] olds[j],
                *t,
                self.slot_views()[j],
            ) by {
                assert(self.slot_views()[j] == self.slots@[j].view());
            }
        }
        notes
    }
}

/// Passive aggregator `q` is `p` after the end-of-stream flush.
pub open spec fn passive_finished(p: PassiveAggregator, q: PassiveAggregator) -> bool {
    p.flushed_to(q)
}

impl<P: Period> SymbolAggregator<P> {
    /// Closes the forming bars at the end of the stream; they are marked
    /// partial. Also closes the current liquidity window. Returns the
    /// notifications, in order.
    pub fn finish(&mut self) -> (notes: Vec<Notification>)
        requires
            old(self).wf(),
            old(self).finish_ok(),
        ensures
            old(self).finished(*final(self), note_views(notes@)),
    {
        let ghost olds = self.slot_views();
        let mut notes: Vec<Notification> = Vec::new();
        let mut pending: Vec<Slot<P>> = Vec::new();
        core::mem::swap(&mut pending, &mut self.slots);
        let n = pending.len();
        let mut done: Vec<Slot<P>> = Vec::new();
        let mut i: usize = 0;
        while i < n
            invariant
                olds.len() == n,
                i <= n,
                pending@.len() == n - i,
                forall|j: int| 0 <= j < n - i ==> (#[trigger] pending@[j]).view() == olds[j + i],
                forall|j: int| 0 <= j < n ==> slot_wf(#[trigger] olds[j]),
                forall|j: int|
                    0 <= j < n ==> (#[trigger] olds[j]).current is Some ==> closing_fits(olds[j].lenses, olds[j].cvd),
                done@.len() == i,
                forall|j: int| 0 <= j < i ==> slot_wf((#[trigger] done@[j]).view()),
                forall|j: int| 0 <= j < i ==> (#[trigger] done@[j]).view() == slot_flushed(olds[j]),
                note_views(notes@) == finish_notes(olds.subrange(0, i as int)),
            decreases n - i,
        {
            let mut slot = pending.remove(0);
            assert(slot.view() == olds[i as int]);
            slot.flush(&mut notes);
            done.push(slot);
            proof {
                assert(olds.subrange(0, i as int + 1).drop_last() =~= olds.subrange(0, i as int));
                assert(forall|j: int| 0 <= j < n - (i + 1) ==> pending@[j].view() == olds[j + i + 1]);
            }
            i = i + 1;
        }
        self.slots = done;
        proof {
            assert(olds.subrange(0, n as int) =~= olds);
            assert forall|j: int| 0 <= j < self.slot_views().len() implies slot_wf(#[trigger] self.slot_views()[j]) by {
                assert(self.slot_views()[j] == self.slots@[j].view());
            }
            assert(self.slot_views() =~= olds.map_values(|s: SlotView<P>| slot_flushed(s)));
        }
        let mut taken: Option<PassiveAggregator> = None;
        core::mem::swap(&mut taken, &mut self.passive);
        match taken {
            Some(mut p) => {
                p.finish();
                self.passive = Some(p);
            },
            None => {},
        }
        notes
    }

    /// Ingests a full snapshot of the book at `ts` (for per-level snapshot
    /// feeds): replaces the passive book as it is. No effect on the book when
    /// the passive side is off; the liquidity windows are left as they are. The
    /// event time is noted like any event's.
    pub fn ingest_book_snapshot(&mut self, ts: Ts, book: OrderBook)
        requires
            old(self).wf(),
            book@.wf(),
            (old(self).last_seen() matches Some(prev) && ts < prev) ==> old(self).disorder() < u64::MAX,
        ensures
            final(self).wf(),
            final(self).symbol() == old(self).symbol(),
            final(self).declared() == old(self).declared(),
            (final(self).last_seen(), final(self).disorder()) == noted(
                old(self).last_seen(),
                old(self).disorder(),
                ts,
            ),
            final(self).slot_views() == old(self).slot_views(),
            match old(self).passive_side() {
                Some(p) => final(self).passive_side() matches Some(q) && q.wf() && q.book_view() == book@
                    && q.current_window() == p.current_window() && q.profiles() == p.profiles()
                    && q.window_len() == p.window_len(),
                None => final(self).passive_side() is None,
            },
    {
        self.note_ts(ts);
        let mut taken: Option<PassiveAggregator> = None;
        core::mem::swap(&mut taken, &mut self.passive);
        match taken {
            Some(mut p) => {
                p.replace_book(book);
                self.passive = Some(p);
            },
            None => {},
        }
        assert(self.slot_views() == old(self).slot_views());
    }

    /// Whether a snapshot at `ts` can be ingested: a late one must leave room
    /// in the count of late events.
    pub fn can_ingest_snapshot(&self, ts: Ts) -> (r: bool)
        ensures
            r == ((self.last_seen() matches Some(prev) && ts < prev) ==> self.disorder() < u64::MAX),
    {
        match self.last_ts {
            Some(prev) => !(ts < prev) || self.out_of_order < u64::MAX,
            None => true,
        }
    }

    /// The current book, when the passive side is on.
    pub fn book(&self) -> (r: Option<&OrderBook>)
        ensures
            match self.passive_side() {
                Some(p) => r matches Some(b) && b@ == p.book_view(),
                None => r is None,
            },
    {
        match &self.passive {
            Some(p) => Some(p.book()),
            None => None,
        }
    }

    /// Takes the closed liquidity profiles, oldest first; none when the passive
    /// side is off or has no window.
    pub fn drain_liquidity_profiles(&mut self) -> (r: Vec<LiquidityProfile>)
        requires
            old(self).wf(),
        ensures
            final(self).wf(),
            final(self).symbol() == old(self).symbol(),
            final(self).declared() == old(self).declared(),
            final(self).last_seen() == old(self).last_seen(),
            final(self).disorder() == old(self).disorder(),
            final(self).slot_views() == old(self).slot_views(),
            match old(self).passive_side() {
                Some(p) => {
                    &&& r@.map_values(|x: LiquidityProfile| x.model()) == p.profiles()
                    &&& final(self).passive_side() matches Some(q) && q.wf() && q.profiles().len() == 0
                        && q.book_view() == p.book_view() && q.current_window() == p.current_window()
                        && q.window_len() == p.window_len()
                },
                None => r@.len() == 0 && final(self).passive_side() is None,
            },
    {
        let mut taken: Option<PassiveAggregator> = None;
        core::mem::swap(&mut taken, &mut self.passive);
        let r = match taken {
            Some(mut p) => {
                let r = p.drain_profiles();
                self.passive = Some(p);
                r
            },
            None => Vec::new(),
        };
        assert(self.slot_views() == old(self).slot_views());
        r
    }
}

impl<P: Period + Copy> SymbolAggregator<P> {
    /// Whether every slot can take trade `t`.
    fn slots_take(&self, t: &Trade) -> (r: bool)
        requires
            self.wf(),
        ensures
            r == forall|j: int|
                0 <= j < self.slot_views().len() ==> slot_accepts(#[trigger] self.slot_views()[j], *t),
    {
        let mut i: usize = 0;
        while i < self.slots.len()
            invariant
                i <= self.slots@.len(),
                self.wf(),
                forall|j: int| 0 <= j < i ==> slot_accepts(#[trigger] self.slot_views()[j], *t),
            decreases self.slots@.len() - i,
        {
            assert(self.slot_views()[i as int] == self.slots@[i as int].view());
            if !self.slots[i].can_take(t) {
                return false;
            }
            i = i + 1;
        }
        true
    }

    /// Whether `process` can take event `e`.
    pub fn can_process(&self, e: &MarketEvent) -> (r: bool)
        requires
            self.wf(),
        ensures
            r == self.accepts(*e),
    {
        let ts = e.ts();
        match self.last_ts {
            Some(prev) => if ts < prev && self.out_of_order == u64::MAX {
                return false;
            },
            None => {},
        }
        match e {
            MarketEvent::Trade(t) => {
                if t.instrument_id != self.instrument.id {
                    return true;
                }
                self.slots_take(t)
            },
            MarketEvent::BookUpdate(u) => {
                if u.instrument_id != self.instrument.id {
                    return true;
                }
                match &self.passive {
                    Some(p) => p.can_apply(u),
                    None => true,
                }
            },
        }
    }
}

impl<P: Period> SymbolAggregator<P> {
    /// Whether `finish` can close the forming bars.
    pub fn can_finish(&self) -> (r: bool)
        requires
            self.wf(),
        ensures
            r == self.finish_ok(),
    {
        let mut i: usize = 0;
        while i < self.slots.len()
            invariant
                i <= self.slots@.len(),
                forall|j: int|
                    0 <= j < i ==> (#[trigger] self.slot_views()[j]).current is Some ==> closing_fits(
                        self.slot_views()[j].lenses,
                        self.slot_views()[j].cvd,
                    ),
            decreases self.slots@.len() - i,
        {
            let slot = &self.slots[i];
            assert(self.slot_views()[i as int] == slot.view());
            if slot.current.is_some() && !closing_ok(&slot.lenses, slot.cvd.value()) {
                return false;
            }
            i = i + 1;
        }
        true
    }
}

/// The index of the first registered period labelled `label`.
pub open spec fn label_index<P>(slots: Seq<SlotView<P>>, label: Seq<char>) -> Option<int>
    decreases slots.len(),
{
    if slots.len() == 0 {
        None
    } else {
        match label_index(slots.drop_last(), label) {
            Some(i) => Some(i),
            None => if slots.last().label == label {
                Some(slots.len() - 1)
            } else {
                None
            },
        }
    }
}

/// The first match in a prefix is the first match in the whole row.
proof fn lemma_label_index_prefix<P>(slots: Seq<SlotView<P>>, label: Seq<char>, k: int)
    requires
        0 <= k <= slots.len(),
        label_index(slots.subrange(0, k), label) is Some,
    ensures
        label_index(slots, label) == label_index(slots.subrange(0, k), label),
    decreases slots.len(),
{
    if k == slots.len() {
        assert(slots.subrange(0, k) =~= slots);
    } else {
        assert(slots.drop_last().subrange(0, k) =~= slots.subrange(0, k));
        lemma_label_index_prefix(slots.drop_last(), label, k);
    }
}

/// The state of one registered period at the current tick: its retained closed
/// bars, oldest first, and its forming bar.
#[derive(Debug, Clone, PartialEq, Eq)]
pub struct FrameSnapshot {
    pub label: String,
    pub closed: Vec<Bar>,
    pub forming: Option<Bar>,
}

impl<P: Period> SymbolAggregator<P> {
    /// The forming bar of the period labelled `label` can be read without overflow.
    pub open spec fn forming_ok(self, label: Seq<char>) -> bool {
        label_index(self.slot_views(), label) matches Some(i) ==> (self.slot_views()[i].current is Some
            ==> closing_fits(self.slot_views()[i].lenses, self.slot_views()[i].cvd))
    }

    /// The index of the first period labelled `label`.
    fn find_slot(&self, label: &str) -> (r: Option<usize>)
        ensures
            match r {
                Some(i) => label_index(self.slot_views(), label@) == Some(i as int) && i < self.slots@.len(),
                None => label_index(self.slot_views(), label@) is None,
            },
    {
        let wanted = label.to_owned();
        let ghost views = self.slot_views();
        let mut i: usize = 0;
        while i < self.slots.len()
            invariant
                views == self.slot_views(),
                wanted@ == label@,
                i <= views.len(),
                label_index(views.subrange(0, i as int), label@) is None,
            decreases views.len() - i,
        {
            assert(views.subrange(0, i as int + 1).drop_last() =~= views.subrange(0, i as int));
            assert(views[i as int] == self.slots@[i as int].view());
            if self.slots[i].label == wanted {
                proof {
                    lemma_label_index_prefix(views, label@, i as int + 1);
                }
                return Some(i);
            }
            i = i + 1;
        }
        assert(views.subrange(0, i as int) =~= views);
        None
    }

    /// The order flow of the forming bar of the period labelled `label`, as its
    /// lenses stand (the cumulative delta includes the forming bar); `None`
    /// when no period has that label or it has no forming bar. Read-only.
    pub fn forming_orderflow(&self, label: &str) -> (r: Option<OrderFlow>)
        requires
            self.wf(),
            self.forming_ok(label@),
        ensures
            match label_index(self.slot_views(), label@) {
                Some(i) => match self.slot_views()[i].current {
                    Some(_) => r matches Some(of) && of@ == closing_flow(
                        self.slot_views()[i].lenses,
                        self.slot_views()[i].cvd,
                    ).0,
                    None => r is None,
                },
                None => r is None,
            },
    {
        match self.find_slot(label) {
            Some(i) => {
                let slot = &self.slots[i];
                assert(self.slot_views()[i as int] == slot.view());
                if slot.current.is_some() {
                    Some(slot.forming_orderflow())
                } else {
                    None
                }
            },
            None => None,
        }
    }

    /// The forming bar of the period labelled `label`, marked partial and
    /// carrying the order flow of its lenses; `None` when no period has that
    /// label or it has no forming bar. Read-only.
    pub fn forming_bar(&self, label: &str) -> (r: Option<Bar>)
        requires
            self.wf(),
            self.forming_ok(label@),
        ensures
            match label_index(self.slot_views(), label@) {
                Some(i) => match self.slot_views()[i].current {
                    Some(_) => r matches Some(b) && b@ == closed_view(self.slot_views()[i], true),
                    None => r is None,
                },
                None => r is None,
            },
    {
        match self.find_slot(label) {
            Some(i) => {
                let slot = &self.slots[i];
                assert(self.slot_views()[i as int] == slot.view());
                slot.forming_bar()
            },
            None => None,
        }
    }

    /// The retained closed bars of the period labelled `label`, oldest first;
    /// `None` when no period has that label or retention is off for it.
    pub fn history(&self, label: &str) -> (r: Option<&Vec<Bar>>)
        requires
            self.wf(),
        ensures
            match label_index(self.slot_views(), label@) {
                Some(i) => match self.slot_views()[i].depth {
                    Some(_) => r matches Some(h) && h@.map_values(|b: Bar| b@) == self.slot_views()[i].history,
                    None => r is None,
                },
                None => r is None,
            },
    {
        match self.find_slot(label) {
            Some(i) => {
                let slot = &self.slots[i];
                assert(self.slot_views()[i as int] == slot.view());
                match slot.history_depth {
                    Some(_) => Some(&slot.history),
                    None => None,
                }
            },
            None => None,
        }
    }

    /// The state of every period at the current tick, in registration order:
    /// its retained closed bars and its forming bar.
    pub fn snapshot(&self) -> (r: Vec<FrameSnapshot>)
        requires
            self.wf(),
            self.finish_ok(),
        ensures
            r@.len() == self.slot_views().len(),
            forall|i: int|
                0 <= i < r@.len() ==> {
                    let s = self.slot_views()[i];
                    &&& (#[trigger] r@[i]).label@ == s.label
                    &&& r@[i].closed@.map_values(|b: Bar| b@) == s.history
                    &&& match s.current {
                        Some(_) => r@[i].forming matches Some(b) && b@ == closed_view(s, true),
                        None => r@[i].forming is None,
                    }
                },
    {
        let mut r: Vec<FrameSnapshot> = Vec::new();
        let mut i: usize = 0;
        while i < self.slots.len()
            invariant
                self.wf(),
                self.finish_ok(),
                i <= self.slots@.len(),
                r@.len() == i,
                forall|j: int|
                    0 <= j < i ==> {
                        let s = self.slot_views()[j];
                        &&& (#[trigger] r@[j]).label@ == s.label
                        &&& r@[j].closed@.map_values(|b: Bar| b@) == s.history
                        &&& match s.current {
                            Some(_) => r@[j].forming matches Some(b) && b@ == closed_view(s, true),
                            None => r@[j].forming is None,
                        }
                    },
            decreases self.slots@.len() - i,
        {
            let slot = &self.slots[i];
            assert(self.slot_views()[i as int] == slot.view());
            assert(slot_wf(self.slot_views()[i as int]));
            let frame = FrameSnapshot {
                label: slot.label.clone(),
                closed: slot.history_copy(),
                forming: slot.forming_bar(),
            };
            r.push(frame);
            i = i + 1;
        }
        r
    }
}

/// The last `d` elements of `s`, all of them when there are fewer.
pub open spec fn last_n<A>(s: Seq<A>, d: int) -> Seq<A> {
    if s.len() <= d {
        s
    } else {
        s.subrange(s.len() - d, s.len() as int)
    }
}

/// Law: retention keeps, oldest first, the last `depth` bars that closed: if
/// the retained bars are the last `depth` of the closes so far, they still are
/// after one more close.
pub proof fn lemma_retained_last(closes: Seq<BarView>, b: BarView, d: usize)
    ensures
        retained(last_n(closes, d as int), b, Some(d)) == last_n(closes.push(b), d as int),
{
    let h = last_n(closes, d as int);
    let r = retained(h, b, Some(d));
    let want = last_n(closes.push(b), d as int);
    assert(r =~= want);
}

/// Law: time bookkeeping never moves back — the latest time seen only grows,
/// and an event older than it is counted as out of order instead of being
/// dropped.
pub proof fn lemma_noted(last: Option<Ts>, count: int, ts: Ts)
    ensures
        noted(last, count, ts).0 == Some(
            match last {
                Some(prev) => if ts < prev {
                    prev
                } else {
                    ts
                },
                None => ts,
            },
        ),
        noted(last, count, ts).1 == count + if last matches Some(prev) && ts < prev {
            1int
        } else {
            0int
        },
{
}

/// Law: the order flow read from a forming bar is the one its close carries —
/// when a trade closes the bar, the closed bar reports the flow that its
/// lenses held (the cumulative delta included), and the cumulative delta goes
/// on from there.
pub proof fn lemma_forming_is_closing<P: Period>(s: SlotView<P>, t: Trade, n: SlotView<P>)
    requires
        slot_next(s, t, n),
        s.current is Some,
        s.period.transition(t).1 is CloseAndOpen,
    ensures
        slot_notes(s, t)[0] == (NoteView::Close {
            label: s.label,
            bar: BarView { flow: closing_flow(s.lenses, s.cvd).0, ..s.current.unwrap()@ },
        }),
        n.cvd == closing_flow(s.lenses, s.cvd).1,
{
}

/// Law: the liquidity windows share the bounds of the aligned time bars — the
/// bar that an aligned time period of the same length opens on a trade spans
/// exactly the window that the passive side opens at that trade's time.
pub proof fn lemma_windows_share_bounds(p: AlignedTimePeriod, t: Trade, book: BookModel)
    requires
        p.wf(),
        p.accepts(t),
        p.transition(t).1 is CloseAndOpen,
    ensures
        p.transition(t).1 matches Boundary::CloseAndOpen { start, end, .. } && start == opened_window(
            book,
            t.ts as int,
            p.interval(),
        ).start && end == opened_window(book, t.ts as int, p.interval()).end,
{
    crate::period::lemma_aligned_window(p, t);
    let i = p.interval();
    if let Boundary::CloseAndOpen { start, end, .. } = p.transition(t).1 {
        let k = (start as int) / i;
        crate::period::lemma_floor_div(start as int, i);
        crate::period::lemma_floor_div(t.ts as int, i);
        assert(k * i == start);
        let q = (t.ts as int) / i;
        assert(q * i <= t.ts < (q + 1) * i);
        assert(k * i <= t.ts < (k + 1) * i) by (nonlinear_arith)
            requires
                k * i == start,
                start <= t.ts < start + i,
        ;
        assert(k == q) by (nonlinear_arith)
            requires
                q * i <= t.ts < (q + 1) * i,
                k * i <= t.ts < (k + 1) * i,
                i > 0,
        ;
    }
}

/// Law: with retention on, the bar retained when a trade closes a bar is the
/// very bar that the close notification carries.
pub proof fn lemma_history_is_notified<P: Period>(s: SlotView<P>, t: Trade, n: SlotView<P>, d: usize)
    requires
        slot_next(s, t, n),
        s.current is Some,
        s.period.transition(t).1 is CloseAndOpen,
        s.depth == Some(d),
        d > 0,
    ensures
        n.history.len() > 0,
        slot_notes(s, t)[0] == (NoteView::Close { label: s.label, bar: n.history.last() }),
{
    let b = closed_view(s, s.current.unwrap().partial);
    let h = s.history;
    if h.len() + 1 > d {
        assert(h.push(b).subrange(1, h.len() as int + 1).last() == b);
    }
}

// ---------------------------------------------------------------------------
// Determinism

/// Two slots have the same model: the same period, bar, cumulative delta and
/// retained bars, and lenses with the same models.
pub open spec fn slot_same<P>(a: SlotView<P>, b: SlotView<P>) -> bool {
    &&& a.period == b.period
    &&& a.label == b.label
    &&& a.kinds == b.kinds
    &&& a.cvd == b.cvd
    &&& a.current == b.current
    &&& a.depth == b.depth
    &&& a.history == b.history
    &&& a.lenses.len() == b.lenses.len()
    &&& forall|i: int| 0 <= i < a.lenses.len() ==> #[trigger] a.lenses[i].same_as(b.lenses[i])
}

/// Lenses with the same models close with the same order flow.
proof fn lemma_closing_same(l1: Seq<LensInstance>, l2: Seq<LensInstance>, cvd: int)
    requires
        l1.len() == l2.len(),
        forall|i: int| 0 <= i < l1.len() ==> #[trigger] l1[i].same_as(l2[i]),
    ensures
        closing_flow(l1, cvd) == closing_flow(l2, cvd),
        closing_fits(l1, cvd) == closing_fits(l2, cvd),
    decreases l1.len(),
{
    if l1.len() > 0 {
        assert(l1.last().same_as(l2.last()));
        lemma_closing_same(l1.drop_last(), l2.drop_last(), cvd);
        lemma_same_recorded(l1.last(), l2.last(), closing_flow(l1.drop_last(), cvd).0);
    }
}

/// Law: a slot is deterministic on its model — the same model fed the same
/// trade reports the same notifications and reaches the same model.
pub proof fn lemma_slot_deterministic<P: Period>(
    s1: SlotView<P>,
    s2: SlotView<P>,
    t: Trade,
    n1: SlotView<P>,
    n2: SlotView<P>,
)
    requires
        slot_same(s1, s2),
        slot_wf(s1),
        slot_wf(s2),
        slot_accepts(s1, t),
        slot_wf(n1),
        slot_wf(n2),
        slot_next(s1, t, n1),
        slot_next(s2, t, n2),
    ensures
        slot_notes(s1, t) == slot_notes(s2, t),
        slot_same(n1, n2),
{
    lemma_closing_same(s1.lenses, s2.lenses, s1.cvd);
    match s1.period.transition(t).1 {
        Boundary::Continue => {
            assert forall|i: int| 0 <= i < n1.lenses.len() implies #[trigger] n1.lenses[i].same_as(n2.lenses[i]) by {
                assert(s1.lenses[i].same_as(s2.lenses[i]));
                assert(s1.lenses[i].absorbs(t, n1.lenses[i]));
                assert(s2.lenses[i].absorbs(t, n2.lenses[i]));
                lemma_absorbs_unique(s1.lenses[i], s2.lenses[i], t, n1.lenses[i], n2.lenses[i]);
            }
        },
        Boundary::CloseAndOpen { .. } => {
            assert forall|i: int| 0 <= i < n1.lenses.len() implies #[trigger] n1.lenses[i].same_as(n2.lenses[i]) by {
                assert(kind_opens_on(s1.kinds[i], t));
                assert(n1.lenses[i].opened_by(s1.kinds[i], t));
                assert(n2.lenses[i].opened_by(s2.kinds[i], t));
                lemma_opened_unique(n1.lenses[i], n2.lenses[i], s1.kinds[i], t);
            }
        },
    }
}

/// Slots with the same models report the same notifications on a trade.
proof fn lemma_trade_notes_same<P: Period>(v1: Seq<SlotView<P>>, v2: Seq<SlotView<P>>, t: Trade)
    requires
        v1.len() == v2.len(),
        forall|i: int| 0 <= i < v1.len() ==> slot_notes(#[trigger] v1[i], t) == slot_notes(v2[i], t),
    ensures
        trade_notes(v1, t) == trade_notes(v2, t),
    decreases v1.len(),
{
    if v1.len() > 0 {
        assert(slot_notes(v1[v1.len() - 1], t) == slot_notes(v2[v1.len() - 1], t));
        lemma_trade_notes_same(v1.drop_last(), v2.drop_last(), t);
    }
}

/// Slots with the same models report the same notifications when flushed.
proof fn lemma_finish_notes_same<P: Period>(v1: Seq<SlotView<P>>, v2: Seq<SlotView<P>>)
    requires
        v1.len() == v2.len(),
        forall|i: int| 0 <= i < v1.len() ==> slot_same(#[trigger] v1[i], v2[i]),
    ensures
        finish_notes(v1) == finish_notes(v2),
        forall|i: int| 0 <= i < v1.len() ==> slot_same(#[trigger] slot_flushed(v1[i]), slot_flushed(v2[i])),
    decreases v1.len(),
{
    assert forall|i: int| 0 <= i < v1.len() implies slot_same(#[trigger] slot_flushed(v1[i]), slot_flushed(v2[i])) by {
        assert(slot_same(v1[i], v2[i]));
        lemma_closing_same(v1[i].lenses, v2[i].lenses, v1[i].cvd);
    }
    if v1.len() > 0 {
        let k = v1.len() - 1;
        assert(slot_same(v1[k], v2[k]));
        lemma_closing_same(v1[k].lenses, v2[k].lenses, v1[k].cvd);
        assert forall|i: int| 0 <= i < v1.drop_last().len() implies slot_same(#[trigger] v1.drop_last()[i], v2.drop_last()[i]) by {
            assert(slot_same(v1[i], v2[i]));
        }
        lemma_finish_notes_same(v1.drop_last(), v2.drop_last());
    }
}

impl<P: Period> SymbolAggregator<P> {
    /// The two aggregators have the same model: instrument, granularity, time
    /// bookkeeping, slots with the same models and the same passive side.
    pub open spec fn same_model(self, other: Self) -> bool {
        &&& self.symbol() == other.symbol()
        &&& self.declared() == other.declared()
        &&& self.last_seen() == other.last_seen()
        &&& self.disorder() == other.disorder()
        &&& self.slot_views().len() == other.slot_views().len()
        &&& forall|i: int|
            0 <= i < self.slot_views().len() ==> slot_same(#[trigger] self.slot_views()[i], other.slot_views()[i])
        &&& match (self.passive_side(), other.passive_side()) {
            (None, None) => true,
            (Some(p), Some(q)) => p.same_model(q),
            _ => false,
        }
    }
}

/// Law: processing is deterministic — aggregators with the same model that
/// process the same event report the same notifications and keep the same
/// model. Replaying a stream from the same state reproduces the same output.
pub proof fn lemma_process_deterministic<P: Period>(
    a1: SymbolAggregator<P>,
    a2: SymbolAggregator<P>,
    e: MarketEvent,
    b1: SymbolAggregator<P>,
    b2: SymbolAggregator<P>,
    n1: Seq<NoteView>,
    n2: Seq<NoteView>,
)
    requires
        a1.wf(),
        a2.wf(),
        a1.same_model(a2),
        a1.accepts(e),
        a1.processed(e, b1, n1),
        a2.processed(e, b2, n2),
    ensures
        n1 == n2,
        b1.same_model(b2),
{
    let v1 = a1.slot_views();
    let v2 = a2.slot_views();
    match e {
        MarketEvent::Trade(t) => {
            if t.instrument_id == a1.symbol().id {
                assert forall|i: int| 0 <= i < v1.len() implies slot_notes(#[trigger] v1[i], t) == slot_notes(v2[i], t)
                    && slot_same(b1.slot_views()[i], b2.slot_views()[i]) by {
                    assert(slot_same(v1[i], v2[i]));
                    assert(slot_wf(v1[i]));
                    assert(slot_wf(v2[i]));
                    assert(slot_accepts(v1[i], t));
                    assert(slot_wf(b1.slot_views()[i]));
                    assert(slot_wf(b2.slot_views()[i]));
                    assert(slot_next(v1[i], t, b1.slot_views()[i]));
                    assert(slot_next(v2[i], t, b2.slot_views()[i]));
                    lemma_slot_deterministic(v1[i], v2[i], t, b1.slot_views()[i], b2.slot_views()[i]);
                }
                lemma_trade_notes_same(v1, v2, t);
                assert forall|i: int| 0 <= i < b1.slot_views().len() implies slot_same(
                    #[trigger] b1.slot_views()[i],
                    b2.slot_views()[i],
                ) by {
                    assert(slot_notes(v1[i], t) == slot_notes(v2[i], t));
                }
            } else {
                assert forall|i: int| 0 <= i < b1.slot_views().len() implies slot_same(
                    #[trigger] b1.slot_views()[i],
                    b2.slot_views()[i],
                ) by {
                    assert(slot_same(v1[i], v2[i]));
                }
            }
        },
        MarketEvent::BookUpdate(u) => {
            if u.instrument_id == a1.symbol().id && a1.passive_side() is Some {
                let p1 = a1.passive_side().unwrap();
                let p2 = a2.passive_side().unwrap();
                let q1 = b1.passive_side().unwrap();
                let q2 = b2.passive_side().unwrap();
                p1.lemma_windows_after_model(p2, u);
                crate::passive::lemma_applied_unique(p1.book_view(), u, q1.book_view(), q2.book_view());
            }
            assert forall|i: int| 0 <= i < b1.slot_views().len() implies slot_same(
                #[trigger] b1.slot_views()[i],
                b2.slot_views()[i],
            ) by {
                assert(slot_same(v1[i], v2[i]));
            }
        },
    }
}

/// The aggregator goes through `states` while processing the events of `es`
/// in order: `states[i]` can take `es[i]` and becomes `states[i + 1]`,
/// reporting `notes[i]`.
pub open spec fn runs<P: Period>(
    states: Seq<SymbolAggregator<P>>,
    es: Seq<MarketEvent>,
    notes: Seq<Seq<NoteView>>,
) -> bool {
    &&& states.len() == es.len() + 1
    &&& notes.len() == es.len()
    &&& forall|i: int|
        0 <= i < es.len() ==> (#[trigger] states[i]).accepts(es[i]) && states[i].processed(
            es[i],
            states[i + 1],
            notes[i],
        )
}

/// The first `k` steps of two runs of the same stream from the same model
/// agree.
proof fn lemma_runs_agree<P: Period>(
    s1: Seq<SymbolAggregator<P>>,
    s2: Seq<SymbolAggregator<P>>,
    es: Seq<MarketEvent>,
    n1: Seq<Seq<NoteView>>,
    n2: Seq<Seq<NoteView>>,
    k: int,
)
    requires
        runs(s1, es, n1),
        runs(s2, es, n2),
        s1[0].wf(),
        s2[0].wf(),
        s1[0].same_model(s2[0]),
        0 <= k <= es.len(),
    ensures
        s1[k].same_model(s2[k]),
        s1[k].wf(),
        s2[k].wf(),
        forall|i: int| 0 <= i < k ==> #[trigger] n1[i] == n2[i],
    decreases k,
{
    if k > 0 {
        lemma_runs_agree(s1, s2, es, n1, n2, k - 1);
        let j = k - 1;
        assert(s1[j].accepts(es[j]) && s1[j].processed(es[j], s1[j + 1], n1[j]));
        assert(s2[j].accepts(es[j]) && s2[j].processed(es[j], s2[j + 1], n2[j]));
        lemma_process_deterministic(s1[j], s2[j], es[j], s1[j + 1], s2[j + 1], n1[j], n2[j]);
    }
}

/// Law: replay is deterministic — two runs of the same stream from aggregators
/// with the same model report the same notifications at every step and end
/// with the same model.
pub proof fn lemma_replay_deterministic<P: Period>(
    s1: Seq<SymbolAggregator<P>>,
    s2: Seq<SymbolAggregator<P>>,
    es: Seq<MarketEvent>,
    n1: Seq<Seq<NoteView>>,
    n2: Seq<Seq<NoteView>>,
)
    requires
        runs(s1, es, n1),
        runs(s2, es, n2),
        s1[0].wf(),
        s2[0].wf(),
        s1[0].same_model(s2[0]),
    ensures
        n1 == n2,
        s1.last().same_model(s2.last()),
{
    lemma_runs_agree(s1, s2, es, n1, n2, es.len() as int);
    assert(n1 =~= n2);
}

/// The latest event time after `times`, starting from `last`: a time before
/// the latest one does not move it.
pub open spec fn latest(last: Option<Ts>, times: Seq<Ts>) -> Option<Ts>
    decreases times.len(),
{
    if times.len() == 0 {
        last
    } else {
        noted(latest(last, times.drop_last()), 0, times.last()).0
    }
}

/// Number of the times of `times` that come before the latest time seen before
/// them (starting from `last`).
pub open spec fn late_count(last: Option<Ts>, times: Seq<Ts>) -> int
    decreases times.len(),
{
    if times.len() == 0 {
        0
    } else {
        late_count(last, times.drop_last()) + if (latest(last, times.drop_last()) matches Some(m)
            && times.last() < m) {
            1int
        } else {
            0int
        }
    }
}

/// The event times of a stream of events.
pub open spec fn event_times(es: Seq<MarketEvent>) -> Seq<Ts> {
    es.map_values(|e: MarketEvent| e.event_ts())
}

/// `latest` is the greatest of the starting time and the times seen, and it is
/// one of them.
pub proof fn lemma_latest_is_max(last: Option<Ts>, times: Seq<Ts>)
    ensures
        forall|i: int| 0 <= i < times.len() ==> (latest(last, times) matches Some(m) && #[trigger] times[i] <= m),
        last matches Some(l) ==> (latest(last, times) matches Some(m) && l <= m),
        latest(last, times) == last || exists|i: int|
            0 <= i < times.len() && latest(last, times) == Some(#[trigger] times[i]),
    decreases times.len(),
{
    if times.len() > 0 {
        let prev = times.drop_last();
        lemma_latest_is_max(last, prev);
        assert forall|i: int| 0 <= i < times.len() implies (latest(last, times) matches Some(m)
            && #[trigger] times[i] <= m) by {
            if i < prev.len() {
                assert(times[i] == prev[i]);
            }
        }
        if latest(last, times) != last && latest(last, times) != Some(times[times.len() - 1]) {
            let j = choose|j: int| 0 <= j < prev.len() && latest(last, prev) == Some(#[trigger] prev[j]);
            assert(times[j] == prev[j]);
        }
    }
}

/// `b` is `a` after an event at `ts` as far as event time goes: both
/// `process` (see `processed`) and `ingest_book_snapshot` make such a step.
pub open spec fn time_step<P: Period>(a: SymbolAggregator<P>, ts: Ts, b: SymbolAggregator<P>) -> bool {
    (b.last_seen(), b.disorder()) == noted(a.last_seen(), a.disorder(), ts)
}

/// Law: over any sequence of events, processed or ingested as snapshots, the
/// aggregator counts, not rejects, the events that arrive before the latest
/// event time seen so far: its count grows by exactly their number, and it
/// keeps the latest time seen.
pub proof fn lemma_late_times_counted<P: Period>(states: Seq<SymbolAggregator<P>>, times: Seq<Ts>)
    requires
        states.len() == times.len() + 1,
        forall|i: int| 0 <= i < times.len() ==> time_step(#[trigger] states[i], times[i], states[i + 1]),
    ensures
        states.last().disorder() == states[0].disorder() + late_count(states[0].last_seen(), times),
        states.last().last_seen() == latest(states[0].last_seen(), times),
    decreases times.len(),
{
    if times.len() > 0 {
        let n = times.len() - 1;
        let s0 = states.drop_last();
        let t0 = times.drop_last();
        assert forall|i: int| 0 <= i < t0.len() implies time_step(#[trigger] s0[i], t0[i], s0[i + 1]) by {
            assert(time_step(states[i], times[i], states[i + 1]));
        }
        lemma_late_times_counted(s0, t0);
        assert(time_step(states[n], times[n], states[n + 1]));
        assert(s0.last() == states[n]);
    }
}

/// Law: over any run of `process` calls, the aggregator counts, not rejects,
/// the events that arrive before the latest event time seen so far: its count
/// grows by exactly their number, and it keeps the latest time seen. E.g. trades
/// at 0, 50 and 30 count one late event.
pub proof fn lemma_late_events_counted<P: Period>(
    states: Seq<SymbolAggregator<P>>,
    es: Seq<MarketEvent>,
    notes: Seq<Seq<NoteView>>,
)
    requires
        runs(states, es, notes),
    ensures
        states.last().disorder() == states[0].disorder() + late_count(states[0].last_seen(), event_times(es)),
        states.last().last_seen() == latest(states[0].last_seen(), event_times(es)),
{
    let times = event_times(es);
    assert forall|i: int| 0 <= i < times.len() implies time_step(#[trigger] states[i], times[i], states[i + 1]) by {
        assert(states[i].accepts(es[i]));
    }
    lemma_late_times_counted(states, times);
}

/// Law: an event of another instrument is ignored but for its time — no
/// notification, the bars, the forming bars (and so the cumulative delta) and
/// the passive side stay as they were; only the time bookkeeping moves.
pub proof fn lemma_other_instrument_ignored<P: Period>(
    a: SymbolAggregator<P>,
    e: MarketEvent,
    b: SymbolAggregator<P>,
    notes: Seq<NoteView>,
)
    requires
        a.processed(e, b, notes),
        match e {
            MarketEvent::Trade(t) => t.instrument_id != a.symbol().id,
            MarketEvent::BookUpdate(u) => u.instrument_id != a.symbol().id,
        },
    ensures
        notes.len() == 0,
        b.slot_views() == a.slot_views(),
        b.passive_side() == a.passive_side(),
        b.symbol() == a.symbol(),
        (b.last_seen(), b.disorder()) == noted(a.last_seen(), a.disorder(), e.event_ts()),
{
}

/// Law: the end-of-stream flush is deterministic — aggregators with the same
/// model report the same notifications and keep the same model.
pub proof fn lemma_finish_deterministic<P: Period>(
    a1: SymbolAggregator<P>,
    a2: SymbolAggregator<P>,
    b1: SymbolAggregator<P>,
    b2: SymbolAggregator<P>,
    n1: Seq<NoteView>,
    n2: Seq<NoteView>,
)
    requires
        a1.same_model(a2),
        a1.finished(b1, n1),
        a2.finished(b2, n2),
    ensures
        n1 == n2,
        b1.same_model(b2),
{
    let v1 = a1.slot_views();
    let v2 = a2.slot_views();
    lemma_finish_notes_same(v1, v2);
    assert forall|i: int| 0 <= i < b1.slot_views().len() implies slot_same(#[trigger] b1.slot_views()[i], b2.slot_views()[i]) by {
        assert(b1.slot_views()[i] == slot_flushed(v1[i]));
        assert(b2.slot_views()[i] == slot_flushed(v2[i]));
        assert(slot_same(slot_flushed(v1[i]), slot_flushed(v2[i])));
    }
}

// ---------------------------------------------------------------------------
// Builder

/// The model of a newly registered period: its label, its lens kinds, no lens,
/// no bar and a zero cumulative delta.
pub open spec fn fresh_slot<P: Period>(period: P, kinds: Seq<LensKind>, depth: Option<usize>) -> SlotView<P> {
    SlotView {
        period,
        label: period.label_text(),
        kinds,
        lenses: Seq::empty(),
        cvd: 0,
        current: None,
        depth,
        history: Seq::empty(),
    }
}

/// The retention depth of a registered period: its own, else the builder's.
pub open spec fn depth_of(own: Option<usize>, default: Option<usize>) -> Option<usize> {
    match own {
        Some(d) => Some(d),
        None => default,
    }
}

/// The error for the first registered period that needs a finer granularity
/// than `declared`, if any.
pub open spec fn granularity_error<P: Period>(
    specs: Seq<(P, Seq<LensKind>, Option<usize>)>,
    declared: Granularity,
) -> Option<ConfigError>
    decreases specs.len(),
{
    if specs.len() == 0 {
        None
    } else {
        match granularity_error(specs.drop_last(), declared) {
            Some(e) => Some(e),
            None => {
                let required = specs.last().0.required_granularity();
                if required.level() > declared.level() {
                    Some(ConfigError::IncompatibleGranularity { required, declared })
                } else {
                    None
                }
            },
        }
    }
}

/// When no period of the first `i` needs too fine a granularity and period `i`
/// does, the error reported is period `i`'s.
proof fn lemma_first_error<P: Period>(specs: Seq<(P, Seq<LensKind>, Option<usize>)>, declared: Granularity, i: int)
    requires
        0 <= i < specs.len(),
        granularity_error(specs.subrange(0, i), declared) is None,
        specs[i].0.required_granularity().level() > declared.level(),
    ensures
        granularity_error(specs, declared) == Some(
            ConfigError::IncompatibleGranularity {
                required: specs[i].0.required_granularity(),
                declared,
            },
        ),
    decreases specs.len(),
{
    if specs.len() == i + 1 {
        assert(specs.drop_last() =~= specs.subrange(0, i));
    } else {
        assert(specs.drop_last().subrange(0, i) =~= specs.subrange(0, i));
        lemma_first_error(specs.drop_last(), declared, i);
    }
}

/// Builder of a `SymbolAggregator`; `build` checks the configuration.
pub struct Builder<P> {
    instrument: Instrument,
    granularity: Granularity,
    specs: Vec<(P, Vec<LensKind>, Option<usize>)>,
    passive: bool,
    passive_window: Option<i64>,
    history: Option<usize>,
}

impl<P: Period> Builder<P> {
    /// The instrument to aggregate.
    pub closed spec fn symbol(self) -> Instrument {
        self.instrument
    }

    /// The declared granularity.
    pub closed spec fn declared(self) -> Granularity {
        self.granularity
    }

    /// The registered periods with their lens kinds, in order.
    pub closed spec fn specs(self) -> Seq<(P, Seq<LensKind>, Option<usize>)> {
        self.specs@.map_values(|x: (P, Vec<LensKind>, Option<usize>)| (x.0, x.1@, x.2))
    }

    /// The retention depth of the periods registered without their own.
    pub closed spec fn history_default(self) -> Option<usize> {
        self.history
    }

    /// The passive side is requested.
    pub closed spec fn passive_on(self) -> bool {
        self.passive
    }

    /// The requested liquidity-profile window.
    pub closed spec fn window(self) -> Option<i64> {
        self.passive_window
    }

    /// What `build` reports: the first period that needs too fine a
    /// granularity, else a passive side on data coarser than `L2`.
    pub open spec fn build_error(self) -> Option<ConfigError> {
        match granularity_error(self.specs(), self.declared()) {
            Some(e) => Some(e),
            None => if self.passive_on() && self.declared().level() < Granularity::L2.level() {
                Some(ConfigError::IncompatibleGranularity { required: Granularity::L2, declared: self.declared() })
            } else {
                None
            },
        }
    }

    /// Adds a period without lenses.
    pub fn with_period(self, period: P) -> (b: Self)
        ensures
            b.specs() == self.specs().push((period, Seq::<LensKind>::empty(), None::<usize>)),
            b.symbol() == self.symbol(),
            b.declared() == self.declared(),
            b.passive_on() == self.passive_on(),
            b.window() == self.window(),
            b.history_default() == self.history_default(),
    {
        self.with_period_and_lenses(period, Vec::new())
    }

    /// Adds a period with its order-flow lenses.
    pub fn with_period_and_lenses(self, period: P, lenses: Vec<LensKind>) -> (b: Self)
        ensures
            b.specs() == self.specs().push((period, lenses@, None::<usize>)),
            b.symbol() == self.symbol(),
            b.declared() == self.declared(),
            b.passive_on() == self.passive_on(),
            b.window() == self.window(),
            b.history_default() == self.history_default(),
    {
        let mut b = self;
        b.specs.push((period, lenses, None));
        assert(b.specs() =~= self.specs().push((period, lenses@, None::<usize>)));
        b
    }

    /// Adds a period with its lenses, retaining its last `depth` closed bars.
    pub fn with_period_lenses_history(self, period: P, lenses: Vec<LensKind>, depth: usize) -> (b: Self)
        ensures
            b.specs() == self.specs().push((period, lenses@, Some(depth))),
            b.symbol() == self.symbol(),
            b.declared() == self.declared(),
            b.passive_on() == self.passive_on(),
            b.window() == self.window(),
            b.history_default() == self.history_default(),
    {
        let mut b = self;
        b.specs.push((period, lenses, Some(depth)));
        assert(b.specs() =~= self.specs().push((period, lenses@, Some(depth))));
        b
    }

    /// Retains the last `depth` closed bars of every period registered without
    /// a depth of its own; retention is off by default.
    pub fn with_history(self, depth: usize) -> (b: Self)
        ensures
            b.specs() == self.specs(),
            b.symbol() == self.symbol(),
            b.declared() == self.declared(),
            b.passive_on() == self.passive_on(),
            b.window() == self.window(),
            b.history_default() == Some(depth),
    {
        let mut b = self;
        b.history = Some(depth);
        b
    }

    /// Enables the passive side (book reconstruction); `build` then needs a
    /// granularity of at least `L2`.
    pub fn with_passive(self) -> (b: Self)
        ensures
            b.specs() == self.specs(),
            b.symbol() == self.symbol(),
            b.declared() == self.declared(),
            b.passive_on(),
            b.window() == self.window(),
            b.history_default() == self.history_default(),
    {
        let mut b = self;
        b.passive = true;
        b
    }

    /// Enables the passive side with periodic liquidity profiles over
    /// clock-aligned windows of `window_ns`.
    pub fn with_liquidity_profile(self, window_ns: i64) -> (b: Self)
        ensures
            b.specs() == self.specs(),
            b.symbol() == self.symbol(),
            b.declared() == self.declared(),
            b.passive_on(),
            b.window() == Some(window_ns),
            b.history_default() == self.history_default(),
    {
        let mut b = self;
        b.passive = true;
        b.passive_window = Some(window_ns);
        b
    }

    /// The configuration error that `build` reports, if any: the first period
    /// that needs a finer granularity than the declared one, else a passive
    /// side on data coarser than `L2`.
    pub fn validate(&self) -> (r: Option<ConfigError>)
        requires
            forall|i: int| 0 <= i < self.specs().len() ==> (#[trigger] self.specs()[i]).0.wf(),
        ensures
            r == self.build_error(),
    {
        let ghost specs0 = self.specs();
        let mut i: usize = 0;
        while i < self.specs.len()
            invariant
                specs0 == self.specs(),
                i <= specs0.len(),
                granularity_error(specs0.subrange(0, i as int), self.granularity) is None,
            decreases specs0.len() - i,
        {
            let required = self.specs[i].0.min_granularity();
            assert(specs0[i as int].0 == self.specs@[i as int].0);
            assert(specs0.subrange(0, i as int + 1).drop_last() =~= specs0.subrange(0, i as int));
            if required.rank() > self.granularity.rank() {
                proof {
                    lemma_first_error(specs0, self.granularity, i as int);
                }
                return Some(ConfigError::IncompatibleGranularity { required, declared: self.granularity });
            }
            i = i + 1;
        }
        assert(specs0.subrange(0, i as int) =~= specs0);
        if self.passive && self.granularity.rank() < 2 {
            return Some(ConfigError::IncompatibleGranularity { required: Granularity::L2, declared: self.granularity });
        }
        None
    }

    /// Checks the configuration and builds the aggregator: fails when a period
    /// needs a finer granularity than the declared one, or when the passive
    /// side is on with data coarser than `L2`.
    pub fn build(self) -> (r: Result<SymbolAggregator<P>, ConfigError>)
        requires
            forall|i: int| 0 <= i < self.specs().len() ==> (#[trigger] self.specs()[i]).0.wf(),
            (self.build_error() is None && self.passive_on() && self.window() is Some) ==> self.window().unwrap() > 0,
        ensures
            match self.build_error() {
                Some(e) => r == Err::<SymbolAggregator<P>, ConfigError>(e),
                None => r matches Ok(agg) && {
                    &&& agg.wf()
                    &&& agg.symbol() == self.symbol()
                    &&& agg.declared() == self.declared()
                    &&& agg.slot_views() == self.specs().map_values(
                        |x: (P, Seq<LensKind>, Option<usize>)| fresh_slot(
                            x.0,
                            x.1,
                            depth_of(x.2, self.history_default()),
                        ),
                    )
                    &&& agg.last_seen() is None
                    &&& agg.disorder() == 0
                    &&& if self.passive_on() {
                        agg.passive_side() matches Some(p) && p.wf() && p.book_view().bids.len() == 0
                            && p.book_view().asks.len() == 0 && p.window_len() == self.window()
                            && p.current_window() is None && p.profiles().len() == 0
                    } else {
                        agg.passive_side() is None
                    }
                },
            },
    {
        let ghost specs0 = self.specs();
        match self.validate() {
            Some(e) => {
                return Err(e);
            },
            None => {},
        }
        let ghost default0 = self.history;
        let Builder { instrument, granularity, specs, passive, passive_window, history } = self;
        let mut pending = specs;
        let n = pending.len();
        let mut slots: Vec<Slot<P>> = Vec::new();
        let mut k: usize = 0;
        while k < n
            invariant
                specs0.len() == n,
                k <= n,
                pending@.len() == n - k,
                forall|j: int|
                    0 <= j < n - k ==> (#[trigger] pending@[j]).0 == specs0[j + k].0 && pending@[j].1@
                        == specs0[j + k].1 && pending@[j].2 == specs0[j + k].2,
                forall|j: int| 0 <= j < n ==> (#[trigger] specs0[j]).0.wf(),
                history == default0,
                slots@.len() == k,
                forall|j: int|
                    0 <= j < k ==> (#[trigger] slots@[j]).view() == fresh_slot(
                        specs0[j].0,
                        specs0[j].1,
                        depth_of(specs0[j].2, default0),
                    ),
            decreases n - k,
        {
            let (period, kinds, own_depth) = pending.remove(0);
            let label = period.label();
            let depth = match own_depth {
                Some(d) => Some(d),
                None => history,
            };
            let slot = Slot {
                period,
                label,
                lens_kinds: kinds,
                lenses: Vec::new(),
                cvd: Cvd::new(),
                current: None,
                history_depth: depth,
                history: Vec::new(),
            };
            assert(slot.history@.map_values(|b: Bar| b@) =~= Seq::<BarView>::empty());
            assert(slot.view() =~= fresh_slot(
                specs0[k as int].0,
                specs0[k as int].1,
                depth_of(specs0[k as int].2, default0),
            ));
            slots.push(slot);
            proof {
                assert(forall|j: int|
                    0 <= j < n - (k + 1) ==> pending@[j].0 == specs0[j + k + 1].0 && pending@[j].1@
                        == specs0[j + k + 1].1 && pending@[j].2 == specs0[j + k + 1].2);
            }
            k = k + 1;
        }
        let passive_side = if passive {
            match passive_window {
                Some(w) => Some(PassiveAggregator::with_window(w)),
                None => Some(PassiveAggregator::new()),
            }
        } else {
            None
        };
        let agg = SymbolAggregator {
            instrument,
            granularity,
            slots,
            passive: passive_side,
            last_ts: None,
            out_of_order: 0,
        };
        proof {
            assert(agg.slot_views() =~= specs0.map_values(
                |x: (P, Seq<LensKind>, Option<usize>)| fresh_slot(x.0, x.1, depth_of(x.2, default0)),
            ));
            assert forall|j: int| 0 <= j < agg.slot_views().len() implies slot_wf(#[trigger] agg.slot_views()[j]) by {
                assert(agg.slot_views()[j] == fresh_slot(specs0[j].0, specs0[j].1, depth_of(specs0[j].2, default0)));
            }
        }
        Ok(agg)
    }
}

impl Builder<AnyPeriod> {
    /// Adds a time period of `interval_ns` (positive), without lenses.
    pub fn with_time_period(self, interval_ns: i64) -> (b: Self)
        requires
            interval_ns > 0,
        ensures
            b.specs().len() == self.specs().len() + 1,
            b.specs().drop_last() == self.specs(),
            b.specs().last().0 matches AnyPeriod::Time(p) && p.wf() && p.interval() == interval_ns
                && p.base() is None,
            b.specs().last().1 == Seq::<LensKind>::empty(),
            b.specs().last().2 is None,
            b.symbol() == self.symbol(),
            b.declared() == self.declared(),
            b.passive_on() == self.passive_on(),
            b.window() == self.window(),
            b.history_default() == self.history_default(),
    {
        let p = TimePeriod::new(interval_ns);
        let b = self.with_period(AnyPeriod::Time(p));
        assert(b.specs().drop_last() =~= self.specs());
        b
    }
}

impl<P: Period> SymbolAggregator<P> {
    /// Starts a builder for `instrument` at the declared `granularity`.
    pub fn builder(instrument: Instrument, granularity: Granularity) -> (b: Builder<P>)
        ensures
            b.symbol() == instrument,
            b.declared() == granularity,
            b.specs().len() == 0,
            !b.passive_on(),
            b.window() is None,
            b.history_default() is None,
    {
        Builder { instrument, granularity, specs: Vec::new(), passive: false, passive_window: None, history: None }
    }
}

} // verus!
