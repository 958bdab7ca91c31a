use trade_aggregator::aggregator::Notification;
use trade_aggregator::{Period, RenkoBrickPeriod, TickPeriod};
use trade_aggregator::{
    AggressorSide, AnyPeriod, BookAction, BookSide, BookUpdate, ConfigError, Granularity,
    Instrument, LensKind, MarketEvent, SymbolAggregator, TimePeriod, Trade, VolumePeriod,
};

const INSTR: Instrument = Instrument { id: 1, tick_size: 1 };

fn trade(ts: i64, price: i64, size: u64, side: AggressorSide) -> MarketEvent {
    MarketEvent::Trade(Trade { ts, price, size, aggressor: side, instrument_id: 1 })
}

#[test]
fn bar_volume_overflow_is_refused_before_processing() {
    let mut agg = SymbolAggregator::builder(INSTR, Granularity::L1).with_time_period(100).build().unwrap();
    let big = trade(0, 100, u64::MAX, AggressorSide::Buy);
    assert!(agg.can_process(&big));
    agg.process(&big);
    assert!(!agg.can_process(&trade(1, 100, 1, AggressorSide::Buy)), "the bar volume would overflow");
    assert!(agg.can_process(&trade(100, 100, 1, AggressorSide::Buy)), "a new bar starts from zero");
}

#[test]
fn volume_period_overflow_is_refused() {
    let mut agg = SymbolAggregator::builder(INSTR, Granularity::L1)
        .with_period(AnyPeriod::Volume(VolumePeriod::new(u64::MAX)))
        .build()
        .unwrap();
    agg.process(&trade(0, 100, u64::MAX - 1, AggressorSide::Buy));
    assert!(!agg.can_process(&trade(1, 100, 2, AggressorSide::Buy)));
    assert!(agg.can_process(&trade(1, 100, 1, AggressorSide::Buy)));
}

#[test]
fn delta_lens_refuses_an_unrepresentable_sell() {
    let agg = SymbolAggregator::builder(INSTR, Granularity::L1)
        .with_period_and_lenses(AnyPeriod::Time(TimePeriod::new(100)), vec![LensKind::Delta])
        .build()
        .unwrap();
    assert!(!agg.can_process(&trade(0, 100, 1u64 << 63, AggressorSide::Sell)));
    assert!(agg.can_process(&trade(0, 100, 1u64 << 63, AggressorSide::Buy)));
}

#[test]
fn tpo_lens_needs_positive_brackets() {
    let agg = SymbolAggregator::builder(INSTR, Granularity::L1)
        .with_period_and_lenses(
            AnyPeriod::Time(TimePeriod::new(100)),
            vec![LensKind::Tpo { bracket_ns: 0, ib_brackets: 1 }],
        )
        .build()
        .unwrap();
    assert!(!agg.can_process(&trade(0, 100, 1, AggressorSide::Buy)), "a zero bracket cannot open");
}

#[test]
fn other_instruments_are_always_accepted() {
    let agg = SymbolAggregator::builder(INSTR, Granularity::L1).with_time_period(100).build().unwrap();
    let other = MarketEvent::Trade(Trade {
        ts: 0,
        price: 1,
        size: u64::MAX,
        aggressor: AggressorSide::Sell,
        instrument_id: 9,
    });
    assert!(agg.can_process(&other));
}

#[test]
fn validate_reports_what_build_reports() {
    let b = SymbolAggregator::<AnyPeriod>::builder(INSTR, Granularity::L1).with_passive();
    let expected = ConfigError::IncompatibleGranularity { required: Granularity::L2, declared: Granularity::L1 };
    assert_eq!(b.validate(), Some(expected));
    assert_eq!(b.build().err(), Some(expected));
    let ok = SymbolAggregator::<AnyPeriod>::builder(INSTR, Granularity::L3).with_passive();
    assert_eq!(ok.validate(), None);
    assert!(ok.build().is_ok());
}

#[test]
fn bars_keep_open_and_close_within_low_and_high() {
    let mut agg = SymbolAggregator::builder(INSTR, Granularity::L1).with_time_period(1000).build().unwrap();
    for (ts, px) in [(0, 100), (1, 90), (2, 120), (3, 95), (4, 110)] {
        agg.process(&trade(ts, px, 1, AggressorSide::Buy));
    }
    let bar = agg.forming_bar("time:1000ns").unwrap();
    assert_eq!((bar.ohlcv.open, bar.ohlcv.high, bar.ohlcv.low, bar.ohlcv.close), (100, 120, 90, 110));
    assert_eq!(bar.ohlcv.volume, 5);
    assert!(bar.ohlcv.low <= bar.ohlcv.open && bar.ohlcv.open <= bar.ohlcv.high);
    assert!(bar.ohlcv.low <= bar.ohlcv.close && bar.ohlcv.close <= bar.ohlcv.high);
}

#[test]
fn same_stream_same_notifications_with_book_updates() {
    let events = vec![
        MarketEvent::BookUpdate(BookUpdate {
            ts: 0,
            action: BookAction::Add,
            side: BookSide::Bid,
            price: 99,
            size: 3,
            order_id: None,
            instrument_id: 1,
        }),
        trade(1, 100, 2, AggressorSide::Buy),
        trade(150, 101, 1, AggressorSide::Sell),
        trade(120, 99, 1, AggressorSide::Buy),
    ];
    let run = || {
        let mut agg = SymbolAggregator::builder(INSTR, Granularity::L2)
            .with_period_and_lenses(
                AnyPeriod::Time(TimePeriod::new(100)),
                vec![LensKind::Footprint, LensKind::Delta, LensKind::Vwap],
            )
            .with_liquidity_profile(50)
            .build()
            .unwrap();
        let mut notes: Vec<Notification> = Vec::new();
        for e in &events {
            notes.extend(agg.process(e));
        }
        notes.extend(agg.finish());
        (notes, agg.out_of_order_count(), agg.drain_liquidity_profiles())
    };
    let (n1, o1, p1) = run();
    let (n2, o2, p2) = run();
    assert_eq!(n1, n2);
    assert_eq!(o1, 1, "the trade at 120 came after 150");
    assert_eq!(o1, o2);
    assert_eq!(p1, p2);
}

#[test]
fn out_of_order_trade_still_counts_in_its_bar() {
    let mut agg = SymbolAggregator::builder(INSTR, Granularity::L1).with_time_period(100).build().unwrap();
    agg.process(&trade(50, 100, 1, AggressorSide::Buy));
    agg.process(&trade(10, 101, 2, AggressorSide::Buy));
    assert_eq!(agg.out_of_order_count(), 1);
    assert_eq!(agg.forming_bar("time:100ns").unwrap().ohlcv.volume, 3, "counted, not rejected");
}

#[test]
fn cvd_runs_across_closed_bars() {
    let mut agg = SymbolAggregator::builder(INSTR, Granularity::L1)
        .with_period_and_lenses(AnyPeriod::Time(TimePeriod::new(100)), vec![LensKind::Delta])
        .build()
        .unwrap();
    let mut closes = Vec::new();
    for (ts, size, side) in [(0, 5, AggressorSide::Buy), (150, 2, AggressorSide::Sell), (250, 4, AggressorSide::Sell)] {
        for n in agg.process(&trade(ts, 100, size, side)) {
            if let Notification::Close { bar, .. } = n {
                closes.push(bar);
            }
        }
    }
    for n in agg.finish() {
        if let Notification::Close { bar, .. } = n {
            closes.push(bar);
        }
    }
    let deltas: Vec<Option<i64>> = closes.iter().map(|b| b.orderflow.delta).collect();
    let cvds: Vec<Option<i64>> = closes.iter().map(|b| b.orderflow.cvd).collect();
    assert_eq!(deltas, vec![Some(5), Some(-2), Some(-4)]);
    assert_eq!(cvds, vec![Some(5), Some(3), Some(-1)]);
}

#[test]
fn volume_profile_share_must_lie_in_zero_one() {
    let with_share = |pct: f64| {
        SymbolAggregator::builder(INSTR, Granularity::L1)
            .with_period_and_lenses(
                AnyPeriod::Time(TimePeriod::new(100)),
                vec![LensKind::VolumeProfile { value_area_pct_bits: pct.to_bits() }],
            )
            .build()
            .unwrap()
    };
    let t = trade(0, 100, 1, AggressorSide::Buy);
    assert!(with_share(0.7).can_process(&t));
    assert!(with_share(1.0).can_process(&t));
    assert!(with_share(f64::MIN_POSITIVE).can_process(&t));
    assert!(!with_share(0.0).can_process(&t));
    assert!(!with_share(1.5).can_process(&t));
    assert!(!with_share(-0.5).can_process(&t));
    assert!(!with_share(f64::NAN).can_process(&t));
}

#[test]
fn liquidity_windows_match_aligned_bars() {
    let mut agg = SymbolAggregator::builder(INSTR, Granularity::L2)
        .with_period(AnyPeriod::AlignedTime(trade_aggregator::AlignedTimePeriod::new(100)))
        .with_liquidity_profile(100)
        .build()
        .unwrap();
    agg.process(&MarketEvent::BookUpdate(BookUpdate {
        ts: 150,
        action: BookAction::Add,
        side: BookSide::Ask,
        price: 101,
        size: 2,
        order_id: None,
        instrument_id: 1,
    }));
    agg.process(&trade(160, 100, 1, AggressorSide::Buy));
    let mut bars = Vec::new();
    for n in agg.finish() {
        if let Notification::Close { bar, .. } = n {
            bars.push(bar);
        }
    }
    let profiles = agg.drain_liquidity_profiles();
    assert_eq!(bars.len(), 1);
    assert_eq!(profiles.len(), 1);
    assert_eq!((bars[0].start, bars[0].end), (100, 200));
    assert_eq!((profiles[0].start, profiles[0].end), (bars[0].start, bars[0].end));
    assert!(bars[0].partial, "opened mid-window");
}

#[test]
fn validity_check_matches_the_constructors() {
    assert!(TimePeriod::new(100).is_valid());
    assert!(!TimePeriod { interval_ns: 0, base: None, current_end: 0 }.is_valid());
    assert!(!AnyPeriod::Volume(VolumePeriod { threshold: 0, acc: 0, open: false }).is_valid());
    assert!(AnyPeriod::Tick(TickPeriod::new(3)).is_valid());
    assert!(!RenkoBrickPeriod { brick: 10, reference: 5, open: true }.is_valid());
    assert!(RenkoBrickPeriod { brick: 10, reference: -20, open: true }.is_valid());
}

#[test]
fn labels_and_excursion_bound_from_the_parameters() {
    assert_eq!(TickPeriod::new(3).label(), "tick:3");
    assert_eq!(RenkoBrickPeriod::new(10).excursion_bound(), 19);
}

#[test]
fn snapshot_check_only_guards_late_snapshots() {
    let mut agg = SymbolAggregator::builder(INSTR, Granularity::L2).with_time_period(100).with_passive().build().unwrap();
    assert!(agg.can_ingest_snapshot(5));
    agg.process(&trade(50, 100, 1, AggressorSide::Buy));
    assert!(agg.can_ingest_snapshot(60));
    assert!(agg.can_ingest_snapshot(10));
    agg.process(&trade(30, 100, 1, AggressorSide::Buy));
    assert_eq!(agg.out_of_order_count(), 1);
}

