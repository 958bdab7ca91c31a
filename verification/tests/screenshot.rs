use trade_aggregator::{
    AggressorSide, AnyPeriod, Bar, Granularity, Instrument, LensKind, MarketEvent, Notification,
    SymbolAggregator, TickPeriod, TimePeriod, Trade,
};

const INSTR: Instrument = Instrument { id: 1, tick_size: 1 };
const LABEL: &str = "time:100ns";

fn trade(ts: i64, price: i64, size: u64, side: AggressorSide) -> MarketEvent {
    MarketEvent::Trade(Trade { ts, price, size, aggressor: side, instrument_id: 1 })
}

fn closed_bars(notes: &[Notification]) -> Vec<Bar> {
    notes
        .iter()
        .filter_map(|n| match n {
            Notification::Close { bar, .. } => Some(bar.clone()),
            Notification::Update { .. } => None,
        })
        .collect()
}

fn agg_with_lenses() -> SymbolAggregator<AnyPeriod> {
    SymbolAggregator::builder(INSTR, Granularity::L1)
        .with_period_and_lenses(
            AnyPeriod::Time(TimePeriod::new(100)),
            vec![LensKind::Footprint, LensKind::Delta, LensKind::TradeCount, LensKind::Vwap],
        )
        .build()
        .unwrap()
}

#[test]
fn forming_orderflow_reflects_trades_so_far() {
    let mut agg = agg_with_lenses();
    assert!(agg.forming_orderflow(LABEL).is_none());

    agg.process(&trade(0, 100, 2, AggressorSide::Buy));
    agg.process(&trade(10, 100, 3, AggressorSide::Sell));

    let of = agg.forming_orderflow(LABEL).expect("forming bar");
    assert_eq!(of.delta, Some(-1), "2 - 3");
    assert_eq!(of.cvd, Some(-1), "no closed bar: cumulative = current delta");
    assert_eq!(of.trade_count, Some((1, 1)));
    assert_eq!(of.footprint.as_ref().unwrap().cell(100), (2, 3));
    assert_eq!(of.vwap.map(|(n, d)| n as f64 / d as f64), Some(100.0));

    let bar = agg.forming_bar(LABEL).unwrap();
    assert_eq!(bar.ohlcv.volume, 5);
    assert_eq!(bar.ohlcv.close, 100);
    assert!(bar.partial, "a forming bar is partial");

    assert!(agg.forming_orderflow("nope").is_none());
}

#[test]
fn forming_is_readonly_and_consistent_with_close() {
    let mut agg = agg_with_lenses();
    let mut received = Vec::new();
    received.extend(closed_bars(&agg.process(&trade(0, 100, 2, AggressorSide::Buy))));
    received.extend(closed_bars(&agg.process(&trade(10, 100, 3, AggressorSide::Sell))));

    let a = agg.forming_orderflow(LABEL).unwrap();
    let b = agg.forming_orderflow(LABEL).unwrap();
    assert_eq!(a, b);

    received.extend(closed_bars(&agg.process(&trade(150, 101, 4, AggressorSide::Buy))));
    let closed = &received[0];
    assert_eq!(a, closed.orderflow);

    let of2 = agg.forming_orderflow(LABEL).unwrap();
    assert_eq!(of2.delta, Some(4));
    assert_eq!(of2.cvd, Some(3));
    assert_eq!(of2.trade_count, Some((1, 0)));
}

#[test]
fn forming_orderflow_multi_frame() {
    let mut agg = SymbolAggregator::builder(INSTR, Granularity::L1)
        .with_period_and_lenses(AnyPeriod::Time(TimePeriod::new(100)), vec![LensKind::Delta])
        .with_period_and_lenses(AnyPeriod::Time(TimePeriod::new(1000)), vec![LensKind::Delta])
        .build()
        .unwrap();

    agg.process(&trade(0, 100, 2, AggressorSide::Buy));
    agg.process(&trade(150, 100, 1, AggressorSide::Sell));

    assert_eq!(agg.forming_orderflow("time:100ns").unwrap().delta, Some(-1));
    assert_eq!(agg.forming_orderflow("time:1000ns").unwrap().delta, Some(1));
}

fn buy(ts: i64, price: i64) -> MarketEvent {
    trade(ts, price, 1, AggressorSide::Buy)
}

#[test]
fn history_is_opt_in() {
    let mut agg = SymbolAggregator::builder(INSTR, Granularity::L1).with_time_period(100).build().unwrap();
    agg.process(&buy(0, 100));
    agg.process(&buy(150, 101));
    assert!(agg.history(LABEL).is_none(), "no history without with_history");
    let snap = agg.snapshot();
    assert_eq!(snap.len(), 1);
    assert!(snap[0].closed.is_empty());
    assert!(snap[0].forming.is_some());
}

#[test]
fn history_fifo_bounded_to_depth() {
    let mut agg = SymbolAggregator::builder(INSTR, Granularity::L1)
        .with_period_lenses_history(AnyPeriod::Tick(TickPeriod::new(1)), vec![], 3)
        .build()
        .unwrap();
    for (i, px) in [100, 101, 102, 103, 104].into_iter().enumerate() {
        agg.process(&buy(i as i64, px));
    }
    let h = agg.history("tick:1").unwrap();
    let closes: Vec<i64> = h.iter().map(|b| b.ohlcv.close).collect();
    assert_eq!(closes, vec![101, 102, 103], "the last 3 closed, oldest first");
}

#[test]
fn snapshot_multi_frame_closed_plus_forming() {
    let mut agg = SymbolAggregator::builder(INSTR, Granularity::L1)
        .with_history(5)
        .with_period_and_lenses(AnyPeriod::Time(TimePeriod::new(100)), vec![LensKind::Delta])
        .with_period_and_lenses(AnyPeriod::Time(TimePeriod::new(1000)), vec![LensKind::Delta])
        .build()
        .unwrap();

    agg.process(&buy(0, 100));
    agg.process(&buy(50, 101));
    agg.process(&buy(150, 102));

    let snap = agg.snapshot();
    assert_eq!(snap.len(), 2);

    let f100 = snap.iter().find(|f| f.label == "time:100ns").unwrap();
    assert_eq!(f100.closed.len(), 1, "one closed bar on the 100ns frame");
    assert_eq!(f100.closed[0].ohlcv.close, 101);
    assert!(f100.forming.is_some(), "a forming bar");
    assert_eq!(f100.forming.as_ref().unwrap().ohlcv.close, 102);

    let f1000 = snap.iter().find(|f| f.label == "time:1000ns").unwrap();
    assert!(f1000.closed.is_empty(), "no closed bar on the 1000ns frame");
    assert!(f1000.forming.is_some());
}

#[test]
fn history_matches_subscriber_closes() {
    let mut agg = SymbolAggregator::builder(INSTR, Granularity::L1)
        .with_history(10)
        .with_period_and_lenses(AnyPeriod::Time(TimePeriod::new(100)), vec![LensKind::Delta])
        .build()
        .unwrap();
    let mut received = Vec::new();
    for i in 0..5 {
        received.extend(closed_bars(&agg.process(&buy(i * 150, 100 + i))));
    }
    received.extend(closed_bars(&agg.finish()));
    let history: Vec<Bar> = agg.history(LABEL).unwrap().iter().cloned().collect();
    assert_eq!(history, received, "history == bars notified on close");
}
