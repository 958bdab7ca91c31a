use trade_aggregator::BookAction::Add;
use trade_aggregator::BookSide::{Ask, Bid};
use trade_aggregator::{
    AggressorSide, AnyPeriod, Bar, BookAction, BookSide, BookUpdate, ConfigError,
    Granularity, Instrument, LensKind, MarketEvent, Notification, OrderBook, OrderFlow,
    SymbolAggregator, TimePeriod, Trade,
};

const INSTR: Instrument = Instrument { id: 42, tick_size: 25 };
const INSTR1: Instrument = Instrument { id: 1, tick_size: 1 };

fn trade(ts: i64, price: i64, size: u64, side: AggressorSide) -> MarketEvent {
    MarketEvent::Trade(Trade { ts, price, size, aggressor: side, instrument_id: 42 })
}

fn trade1(ts: i64, price: i64, size: u64, side: AggressorSide) -> MarketEvent {
    MarketEvent::Trade(Trade { ts, price, size, aggressor: side, instrument_id: 1 })
}

/// The closed bars among the notifications, in order.
fn closed(notes: &[Notification]) -> Vec<(String, Bar)> {
    notes
        .iter()
        .filter_map(|n| match n {
            Notification::Close { label, bar } => Some((label.clone(), bar.clone())),
            Notification::Update { .. } => None,
        })
        .collect()
}

/// Feeds the events and flushes, collecting the closed bars.
fn run(agg: &mut SymbolAggregator<AnyPeriod>, events: &[MarketEvent]) -> Vec<(String, Bar)> {
    let mut bars = Vec::new();
    for ev in events {
        assert!(agg.can_process(ev));
        bars.extend(closed(&agg.process(ev)));
    }
    assert!(agg.can_finish());
    bars.extend(closed(&agg.finish()));
    bars
}

fn replay(events: &[MarketEvent]) -> Vec<(String, Bar)> {
    let mut agg = SymbolAggregator::builder(INSTR, Granularity::L1).with_time_period(100).build().unwrap();
    run(&mut agg, events)
}

#[test]
fn uc_t0_3_build_ok() {
    let agg = SymbolAggregator::<AnyPeriod>::builder(INSTR, Granularity::L1).with_time_period(60).build();
    assert!(agg.is_ok());
}

#[test]
fn uc_t0_2_unknown_aggressor_is_accepted() {
    let bars = replay(&[trade(0, 100, 7, AggressorSide::Unknown)]);
    assert_eq!(bars.len(), 1);
    assert_eq!(bars[0].1.ohlcv.volume, 7);
}

#[test]
fn uc_t0_5_6_8_aggregation_and_close() {
    let mut agg = SymbolAggregator::builder(INSTR, Granularity::L1).with_time_period(100).build().unwrap();
    let mut bars = Vec::new();
    bars.extend(closed(&agg.process(&trade(0, 100, 1, AggressorSide::Buy))));
    bars.extend(closed(&agg.process(&trade(10, 105, 2, AggressorSide::Sell))));
    bars.extend(closed(&agg.process(&trade(50, 95, 3, AggressorSide::Buy))));
    bars.extend(closed(&agg.process(&trade(100, 102, 4, AggressorSide::Buy))));

    assert_eq!(bars.len(), 1, "one closed bar so far");
    let (label, bar) = &bars[0];
    assert_eq!(label, "time:100ns");
    assert_eq!(bar.start, 0);
    assert_eq!(bar.end, 100);
    assert_eq!(bar.ohlcv.open, 100);
    assert_eq!(bar.ohlcv.high, 105);
    assert_eq!(bar.ohlcv.low, 95);
    assert_eq!(bar.ohlcv.close, 95);
    assert_eq!(bar.ohlcv.volume, 6);
    assert!(!bar.partial);
}

#[test]
fn uc_t0_7_finish_flushes_partial_bar() {
    let bars = replay(&[trade(0, 100, 1, AggressorSide::Buy), trade(100, 102, 4, AggressorSide::Buy)]);
    assert_eq!(bars.len(), 2);
    assert!(!bars[0].1.partial);
    assert_eq!(bars[0].1.ohlcv.close, 100);
    assert!(bars[1].1.partial, "the last bar is partial");
    assert_eq!(bars[1].1.start, 100);
    assert_eq!(bars[1].1.ohlcv.volume, 4);
}

#[test]
fn out_of_order_events_are_counted_not_rejected() {
    let mut agg = SymbolAggregator::builder(INSTR, Granularity::L1).with_time_period(100).build().unwrap();
    agg.process(&trade(0, 100, 1, AggressorSide::Buy));
    agg.process(&trade(50, 101, 1, AggressorSide::Buy));
    agg.process(&trade(30, 102, 1, AggressorSide::Buy));
    assert_eq!(agg.out_of_order_count(), 1);
}

#[test]
fn uc_t0_9_replay_is_deterministic() {
    let events = [
        trade(0, 100, 1, AggressorSide::Buy),
        trade(10, 105, 2, AggressorSide::Sell),
        trade(120, 95, 3, AggressorSide::Buy),
        trade(250, 102, 4, AggressorSide::Sell),
    ];
    assert_eq!(replay(&events), replay(&events));
}

#[test]
fn trades_of_other_instruments_are_ignored() {
    let other = MarketEvent::Trade(Trade {
        ts: 5,
        price: 999,
        size: 100,
        aggressor: AggressorSide::Buy,
        instrument_id: 7,
    });
    let bars = replay(&[trade(0, 100, 1, AggressorSide::Buy), other]);
    assert_eq!(bars.len(), 1);
    assert_eq!(bars[0].1.ohlcv.volume, 1, "the other instrument's trade is ignored");
}

#[test]
fn lenses_are_composed_and_attached_to_bars() {
    let mut agg = SymbolAggregator::builder(INSTR1, Granularity::L1)
        .with_period_and_lenses(
            AnyPeriod::Time(TimePeriod::new(100)),
            vec![
                LensKind::Footprint,
                LensKind::VolumeProfile { value_area_pct_bits: 0.7f64.to_bits() },
                LensKind::Delta,
            ],
        )
        .build()
        .unwrap();
    let bars = run(
        &mut agg,
        &[
            trade1(0, 100, 2, AggressorSide::Buy),
            trade1(10, 100, 5, AggressorSide::Sell),
            trade1(50, 101, 1, AggressorSide::Buy),
            trade1(100, 102, 3, AggressorSide::Buy),
        ],
    );
    assert_eq!(bars.len(), 2);

    let of1 = &bars[0].1.orderflow;
    let fp = of1.footprint.as_ref().expect("footprint present");
    assert_eq!(fp.cell(100), (2, 5));
    assert_eq!(fp.cell(101), (1, 0));
    assert_eq!(of1.volume_profile.as_ref().and_then(|vp| vp.poc()), Some(100));
    assert_eq!(of1.delta, Some(-2));
    assert_eq!(of1.cvd, Some(-2));

    let of2 = &bars[1].1.orderflow;
    assert_eq!(of2.delta, Some(3));
    assert_eq!(of2.cvd, Some(1));
    assert!(bars[1].1.partial, "last bar closed by finish()");
}

#[test]
fn no_lenses_means_empty_orderflow() {
    let mut agg = SymbolAggregator::builder(INSTR1, Granularity::L1).with_time_period(100).build().unwrap();
    let bars = run(&mut agg, &[trade1(0, 100, 1, AggressorSide::Buy)]);
    assert_eq!(bars.len(), 1);
    assert_eq!(bars[0].1.orderflow, OrderFlow::default());
}

fn book_add(side: BookSide, price: i64, size: u64) -> MarketEvent {
    MarketEvent::BookUpdate(BookUpdate {
        ts: 0,
        action: BookAction::Add,
        side,
        price,
        size,
        order_id: None,
        instrument_id: 1,
    })
}

#[test]
fn book_updates_are_routed_to_passive() {
    let mut agg = SymbolAggregator::<AnyPeriod>::builder(INSTR1, Granularity::L2).with_passive().build().unwrap();
    agg.process(&book_add(BookSide::Bid, 100, 5));
    agg.process(&book_add(BookSide::Ask, 101, 3));
    let book = agg.book().expect("passive side on");
    assert_eq!(book.best_bid(), Some((100, 5)));
    assert_eq!(book.best_ask(), Some((101, 3)));
}

#[test]
fn passive_requires_l2_or_more() {
    let res = SymbolAggregator::<AnyPeriod>::builder(INSTR1, Granularity::L1).with_passive().build();
    assert_eq!(
        res.err(),
        Some(ConfigError::IncompatibleGranularity { required: Granularity::L2, declared: Granularity::L1 })
    );
}

#[test]
fn no_passive_means_no_book() {
    let agg = SymbolAggregator::builder(INSTR1, Granularity::L2).with_time_period(100).build().unwrap();
    assert!(agg.book().is_none());
}

fn bupd(ts: i64, action: BookAction, side: BookSide, price: i64, size: u64) -> MarketEvent {
    MarketEvent::BookUpdate(BookUpdate { ts, action, side, price, size, order_id: None, instrument_id: 1 })
}

#[test]
fn liquidity_profile_window() {
    let mut agg =
        SymbolAggregator::<AnyPeriod>::builder(INSTR1, Granularity::L2).with_liquidity_profile(100).build().unwrap();
    agg.process(&bupd(0, Add, Bid, 100, 10));
    agg.process(&bupd(50, Add, Ask, 101, 10));
    agg.process(&bupd(100, Add, Bid, 100, 5));
    agg.finish();

    let profs = agg.drain_liquidity_profiles();
    assert_eq!(profs.len(), 2);
    let p0 = &profs[0];
    assert_eq!((p0.start, p0.end), (0, 100));
    assert_eq!(p0.add_volume, 20);
    assert_eq!(p0.cancel_volume, 0);
    let tw_bid = p0.bid_qty_time as f64 / p0.duration as f64;
    let tw_ask = p0.ask_qty_time as f64 / p0.duration as f64;
    assert_eq!(tw_bid, 10.0);
    assert_eq!(tw_ask, 5.0);
    let imbalance = (tw_bid - tw_ask) / (tw_bid + tw_ask);
    assert!((imbalance - (5.0 / 15.0)).abs() < 1e-9);
    assert_eq!(p0.open.best_bid(), None);
    assert_eq!(p0.close.best_ask(), Some((101, 10)));
    assert!(!p0.partial);
    assert!(profs[1].partial, "last window closed by finish()");
}

fn snapshot(bid: (i64, u64), ask: (i64, u64)) -> OrderBook {
    let mut b = OrderBook::new();
    b.set_level(BookSide::Bid, bid.0, bid.1);
    b.set_level(BookSide::Ask, ask.0, ask.1);
    b
}

fn buy1(ts: i64, price: i64, size: u64) -> MarketEvent {
    trade1(ts, price, size, AggressorSide::Buy)
}

#[test]
fn ingest_book_snapshot_syncs_book() {
    let mut agg = SymbolAggregator::builder(INSTR1, Granularity::L2).with_time_period(100).with_passive().build().unwrap();
    agg.ingest_book_snapshot(5, snapshot((99, 4), (101, 7)));
    agg.process(&buy1(10, 100, 1));
    assert_eq!(agg.book().unwrap().best_bid(), Some((99, 4)));
    assert_eq!(agg.book().unwrap().best_ask(), Some((101, 7)));

    agg.ingest_book_snapshot(20, snapshot((100, 2), (102, 9)));
    agg.process(&buy1(30, 101, 1));
    assert_eq!(agg.book().unwrap().best_bid(), Some((100, 2)));
    assert_eq!(agg.book().unwrap().best_ask(), Some((102, 9)));

    agg.finish();
    assert_eq!(agg.out_of_order_count(), 0);
}

#[test]
fn ingest_snapshot_counts_in_out_of_order() {
    let mut agg = SymbolAggregator::builder(INSTR1, Granularity::L2).with_time_period(100).with_passive().build().unwrap();
    agg.process(&buy1(50, 100, 1));
    agg.ingest_book_snapshot(40, snapshot((99, 1), (101, 1)));
    assert_eq!(agg.out_of_order_count(), 1);
}

#[test]
fn ingest_snapshot_without_passive_is_noop() {
    let mut agg = SymbolAggregator::builder(INSTR1, Granularity::L1).with_time_period(100).build().unwrap();
    agg.ingest_book_snapshot(5, snapshot((99, 1), (101, 1)));
    agg.process(&buy1(10, 100, 1));
    assert!(agg.book().is_none());
    assert_eq!(agg.out_of_order_count(), 0);
}

#[test]
fn on_bar_update_fires_per_trade() {
    let mut agg = SymbolAggregator::builder(INSTR1, Granularity::L1).with_time_period(100).build().unwrap();
    let mut notes = Vec::new();
    notes.extend(agg.process(&buy1(0, 100, 1)));
    notes.extend(agg.process(&buy1(10, 101, 1)));
    notes.extend(agg.process(&buy1(50, 102, 1)));
    notes.extend(agg.process(&buy1(100, 103, 1)));
    let updates = notes.iter().filter(|n| matches!(n, Notification::Update { .. })).count();
    let closes = notes.iter().filter(|n| matches!(n, Notification::Close { .. })).count();
    assert_eq!(updates, 4, "one update per integrated trade");
    assert_eq!(closes, 1, "one closed bar");
}
