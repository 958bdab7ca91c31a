use trade_aggregator::AggressorSide::{Buy, Sell};
use trade_aggregator::{
    AggressorSide, AlignedTimePeriod, Boundary, DollarImbalancePeriod, DollarPeriod, Period,
    PointFigurePeriod, RangePeriod, RenkoBrickPeriod, RenkoPeriod, RunPeriod, TickImbalancePeriod,
    TickPeriod, TimePeriod, Trade, Ts, VolumeImbalancePeriod, VolumePeriod,
};

fn tr(ts: Ts) -> Trade {
    Trade { ts, price: 100, size: 1, aggressor: AggressorSide::Buy, instrument_id: 1 }
}

fn trv(ts: Ts, price: i64, size: u64) -> Trade {
    Trade { ts, price, size, aggressor: AggressorSide::Buy, instrument_id: 1 }
}

fn tside(price: i64, size: u64, side: AggressorSide) -> Trade {
    Trade { ts: 0, price, size, aggressor: side, instrument_id: 1 }
}

fn closes(b: Boundary) -> bool {
    matches!(b, Boundary::CloseAndOpen { .. })
}

#[test]
fn aligned_time_period_windows_and_partial_first_bar() {
    let mut p = AlignedTimePeriod::new(100);
    assert_eq!(p.on_trade(&tr(150)), Boundary::CloseAndOpen { start: 100, end: 200, partial: true });
    assert_eq!(p.on_trade(&tr(180)), Boundary::Continue);
    assert_eq!(p.on_trade(&tr(230)), Boundary::CloseAndOpen { start: 200, end: 300, partial: false });
}

#[test]
fn aligned_first_bar_on_boundary_is_not_partial() {
    let mut p = AlignedTimePeriod::new(100);
    assert_eq!(p.on_trade(&tr(200)), Boundary::CloseAndOpen { start: 200, end: 300, partial: false });
}

#[test]
fn tick_period_n_trades_per_bar() {
    let mut p = TickPeriod::new(3);
    assert!(closes(p.on_trade(&trv(0, 100, 1))));
    assert!(!closes(p.on_trade(&trv(1, 100, 1))));
    assert!(!closes(p.on_trade(&trv(2, 100, 1))));
    assert!(closes(p.on_trade(&trv(3, 100, 1))));
}

#[test]
fn volume_period_closes_after_threshold() {
    let mut p = VolumePeriod::new(10);
    assert!(closes(p.on_trade(&trv(0, 100, 4))));
    assert!(!closes(p.on_trade(&trv(1, 100, 4))));
    assert!(!closes(p.on_trade(&trv(2, 100, 5))));
    assert!(closes(p.on_trade(&trv(3, 100, 1))));
}

#[test]
fn dollar_period_closes_after_notional() {
    let mut p = DollarPeriod::new(1_000);
    assert!(closes(p.on_trade(&trv(0, 100, 4))));
    assert!(!closes(p.on_trade(&trv(1, 100, 5))));
    assert!(!closes(p.on_trade(&trv(2, 100, 2))));
    assert!(closes(p.on_trade(&trv(3, 100, 1))));
}

#[test]
fn range_period_closes_when_span_exceeds_range() {
    let mut p = RangePeriod::new(5);
    assert!(closes(p.on_trade(&trv(0, 100, 1))));
    assert!(!closes(p.on_trade(&trv(1, 103, 1))));
    assert!(!closes(p.on_trade(&trv(2, 105, 1))));
    assert!(closes(p.on_trade(&trv(3, 106, 1))));
}

#[test]
fn renko_period_closes_on_brick_move() {
    let mut p = RenkoPeriod::new(10);
    assert!(closes(p.on_trade(&trv(0, 100, 1))));
    assert!(!closes(p.on_trade(&trv(1, 105, 1))));
    assert!(closes(p.on_trade(&trv(2, 110, 1))));
    assert!(closes(p.on_trade(&trv(3, 100, 1))));
}

#[test]
fn renko_brick_grid_aligned_and_multibrick() {
    let mut p = RenkoBrickPeriod::new(10);
    assert!(closes(p.on_trade(&trv(0, 103, 1))));
    assert_eq!(p.reference(), 100);
    assert!(!closes(p.on_trade(&trv(1, 108, 1))));
    assert!(!closes(p.on_trade(&trv(2, 95, 1))));
    assert!(closes(p.on_trade(&trv(3, 134, 1))));
    assert_eq!(p.reference(), 130);
    assert_eq!(p.excursion_bound(), 19);
    assert_eq!(p.label(), "renko-grid:10");
}

#[test]
fn tick_imbalance_closes_on_threshold() {
    let mut p = TickImbalancePeriod::new(2);
    assert!(closes(p.on_trade(&tside(100, 1, Buy))));
    assert!(!closes(p.on_trade(&tside(100, 1, Buy))));
    assert!(closes(p.on_trade(&tside(100, 1, Sell))));
}

#[test]
fn volume_imbalance_closes_on_threshold() {
    let mut p = VolumeImbalancePeriod::new(10);
    assert!(closes(p.on_trade(&tside(100, 4, Sell))));
    assert!(!closes(p.on_trade(&tside(100, 7, Sell))));
    assert!(closes(p.on_trade(&tside(100, 1, Buy))));
}

#[test]
fn dollar_imbalance_closes_on_threshold() {
    let mut p = DollarImbalancePeriod::new(1_000);
    assert!(closes(p.on_trade(&tside(100, 4, Buy))));
    assert!(!closes(p.on_trade(&tside(100, 8, Buy))));
    assert!(closes(p.on_trade(&tside(100, 1, Buy))));
}

#[test]
fn run_period_closes_on_run_length() {
    let mut p = RunPeriod::new(3);
    assert!(closes(p.on_trade(&tside(100, 1, Buy))));
    assert!(!closes(p.on_trade(&tside(100, 1, Buy))));
    assert!(!closes(p.on_trade(&tside(100, 1, Buy))));
    assert!(closes(p.on_trade(&tside(100, 1, Sell))));
}

#[test]
fn point_figure_reverses_column() {
    let mut p = PointFigurePeriod::new(10, 3);
    assert!(closes(p.on_trade(&trv(0, 100, 1))));
    assert!(!closes(p.on_trade(&trv(1, 115, 1))));
    assert!(!closes(p.on_trade(&trv(2, 130, 1))));
    assert!(closes(p.on_trade(&trv(3, 95, 1))));
}

#[test]
fn time_period_grid_is_anchored_at_the_first_trade() {
    let mut p = TimePeriod::new(100);
    assert_eq!(p.on_trade(&tr(5)), Boundary::CloseAndOpen { start: 5, end: 105, partial: false });
    assert_eq!(p.on_trade(&tr(50)), Boundary::Continue);
    assert_eq!(p.on_trade(&tr(104)), Boundary::Continue);
    assert_eq!(p.on_trade(&tr(260)), Boundary::CloseAndOpen { start: 205, end: 305, partial: false });
}

#[test]
fn fresh_rules_open_on_their_first_trade() {
    let t = trv(7, 100, 1);
    let opened = Boundary::CloseAndOpen { start: 7, end: 7, partial: false };
    assert_eq!(PointFigurePeriod::new(10, 3).on_trade(&t), opened);
    assert_eq!(TickPeriod::new(3).on_trade(&t), opened);
    assert_eq!(RunPeriod::new(3).on_trade(&t), opened);
    assert_eq!(RenkoPeriod::new(10).on_trade(&t), opened);
}
