use trade_aggregator::orderflow::{BarComponent, Cvd, Delta, Footprint, TradeCount, Tpo, VolumeProfile, Vwap};
use trade_aggregator::{AggressorSide, Px, Qty, Trade};

fn t(price: Px, size: Qty, side: AggressorSide) -> Trade {
    Trade { ts: 0, price, size, aggressor: side, instrument_id: 1 }
}

fn feed<C: BarComponent>(c: &mut C, trades: &[Trade]) {
    for tr in trades {
        c.on_trade(tr);
    }
    c.on_close();
}

/// Target of a value area: the smallest whole amount covering `pct` of `total`.
fn target(total: u64, pct: f64) -> u128 {
    (total as f64 * pct).ceil() as u128
}

#[test]
fn footprint_cells_by_price_and_side() {
    let mut fp = Footprint::new();
    feed(
        &mut fp,
        &[
            t(100, 2, AggressorSide::Buy),
            t(100, 5, AggressorSide::Sell),
            t(101, 1, AggressorSide::Buy),
            t(101, 9, AggressorSide::Unknown),
        ],
    );
    assert_eq!(fp.cell(100), (2, 5));
    assert_eq!(fp.cell(101), (1, 0));
}

#[test]
fn footprint_window_fixed_width_and_offset() {
    let mut fp = Footprint::new();
    feed(
        &mut fp,
        &[t(100, 2, AggressorSide::Buy), t(100, 5, AggressorSide::Sell), t(102, 1, AggressorSide::Buy)],
    );
    let w = fp.window(100, 2, 2);
    assert_eq!(w.len(), 5, "2*half_width + 1");
    assert_eq!(w[2], (2, 5), "anchor at index half_width");
    assert_eq!(w[3], (1, 0), "102");
    assert_eq!(w[0], (0, 0), "96 absent");
    assert_eq!(w[1], (0, 0), "98 absent");
    assert_eq!(w[4], (0, 0), "104 absent");
}

#[test]
fn footprint_window_half_width_zero_is_single_cell() {
    let mut fp = Footprint::new();
    feed(&mut fp, &[t(100, 3, AggressorSide::Buy)]);
    assert_eq!(fp.window(100, 1, 0), vec![(3, 0)]);
    assert_eq!(fp.window(101, 1, 0), vec![(0, 0)]);
}

#[test]
fn volume_profile_poc() {
    let mut vp = VolumeProfile::new(0.70f64.to_bits());
    feed(
        &mut vp,
        &[t(100, 2, AggressorSide::Buy), t(100, 5, AggressorSide::Sell), t(101, 1, AggressorSide::Buy)],
    );
    assert_eq!(vp.total_volume(), 8);
    assert_eq!(vp.poc(), Some(100));
}

#[test]
fn volume_profile_value_area() {
    let mut vp = VolumeProfile::new(0.70f64.to_bits());
    feed(
        &mut vp,
        &[
            t(98, 1, AggressorSide::Buy),
            t(99, 3, AggressorSide::Buy),
            t(100, 10, AggressorSide::Buy),
            t(101, 4, AggressorSide::Buy),
            t(102, 1, AggressorSide::Buy),
        ],
    );
    assert_eq!(vp.poc(), Some(100));
    let pct = f64::from_bits(vp.value_area_pct_bits());
    assert_eq!(target(vp.total_volume(), pct), 14);
    assert_eq!(vp.value_area_with_target(target(vp.total_volume(), pct)), Some((100, 101)));
}

#[test]
fn delta_buy_minus_sell() {
    let mut d = Delta::new();
    feed(
        &mut d,
        &[t(100, 3, AggressorSide::Buy), t(100, 5, AggressorSide::Sell), t(100, 9, AggressorSide::Unknown)],
    );
    assert_eq!(d.value(), -2);
}

#[test]
fn cvd_accumulates_across_bars() {
    let mut cvd = Cvd::new();
    assert_eq!(cvd.push_bar_delta(-2), -2);
    assert_eq!(cvd.push_bar_delta(5), 3);
    assert_eq!(cvd.value(), 3);
}

#[test]
fn trade_count_buy_sell_unknown() {
    let mut tc = TradeCount::new();
    feed(
        &mut tc,
        &[
            t(100, 3, AggressorSide::Buy),
            t(101, 1, AggressorSide::Buy),
            t(100, 5, AggressorSide::Sell),
            t(100, 9, AggressorSide::Unknown),
        ],
    );
    assert_eq!(tc.pair(), (2, 1));
    assert_eq!(tc.total(), 3);
}

fn vwap_value(v: &Vwap) -> Option<f64> {
    let (num, den) = v.parts();
    if den == 0 {
        None
    } else {
        Some(num as f64 / den as f64)
    }
}

#[test]
fn vwap_value_all_trades() {
    let mut v = Vwap::new();
    feed(
        &mut v,
        &[t(100, 2, AggressorSide::Buy), t(110, 3, AggressorSide::Sell), t(105, 5, AggressorSide::Unknown)],
    );
    assert_eq!(v.parts(), (1055, 10));
    let vwap = vwap_value(&v).unwrap();
    assert!((vwap - 105.5).abs() < 1e-9);
    assert!((100.0..=110.0).contains(&vwap), "VWAP within [low, high]");
}

#[test]
fn vwap_empty_is_none() {
    assert_eq!(vwap_value(&Vwap::new()), None);
    assert_eq!(Vwap::new().parts(), (0, 0));
}

#[test]
fn tpo_profile() {
    let trades = [(0i64, 100i64), (5, 100), (12, 101), (15, 100), (25, 102)];
    let mut tpo = Tpo::new(10, 2);
    for (ts, price) in trades {
        tpo.on_trade(&Trade { ts, price, size: 1, aggressor: AggressorSide::Buy, instrument_id: 1 });
    }
    tpo.on_close();
    assert_eq!(tpo.poc(), Some(100));
    assert_eq!(tpo.single_prints(), vec![101, 102]);
    let target = (tpo.total() as f64 * 0.70).ceil() as u128;
    assert_eq!(tpo.value_area_with_target(target), Some((100, 101)));
    assert_eq!(tpo.initial_balance(), Some((100, 101)));
}

#[test]
fn delta_equals_footprint_buy_minus_sell() {
    let trades = [
        t(100, 3, AggressorSide::Buy),
        t(101, 5, AggressorSide::Sell),
        t(100, 2, AggressorSide::Sell),
        t(99, 7, AggressorSide::Unknown),
        t(102, 4, AggressorSide::Buy),
    ];
    let mut fp = Footprint::new();
    let mut d = Delta::new();
    feed(&mut fp, &trades);
    feed(&mut d, &trades);
    let net: i64 = fp.iter().iter().map(|(_, (b, s))| *b as i64 - *s as i64).sum();
    assert_eq!(net, d.value());
    assert_eq!(d.value(), 0);
    assert_eq!(fp.iter(), vec![(99, (0, 0)), (100, (3, 2)), (101, (0, 5)), (102, (4, 0))]);
}

#[test]
fn vwap_parts_are_the_exact_sums() {
    let mut v = Vwap::new();
    feed(&mut v, &[t(100, 2, AggressorSide::Buy), t(110, 3, AggressorSide::Sell), t(105, 5, AggressorSide::Unknown)]);
    assert_eq!(v.parts(), (100 * 2 + 110 * 3 + 105 * 5, 10));
}

#[test]
fn checked_totals_of_profiles() {
    let mut vp = VolumeProfile::new(0.7f64.to_bits());
    assert_eq!(vp.checked_total_volume(), Some(0));
    feed(&mut vp, &[t(100, 4, AggressorSide::Buy), t(101, 6, AggressorSide::Sell)]);
    assert_eq!(vp.checked_total_volume(), Some(10));
    feed(&mut vp, &[t(102, u64::MAX - 9, AggressorSide::Buy)]);
    assert_eq!(vp.checked_total_volume(), None);
    let mut tpo = Tpo::new(100, 1);
    assert_eq!(tpo.checked_total(), Some(0));
    feed(&mut tpo, &[t(100, 1, AggressorSide::Buy), t(101, 1, AggressorSide::Buy)]);
    assert_eq!(tpo.checked_total(), Some(2));
}
