use trade_aggregator::period::LabelText;
use trade_aggregator::{
    Boundary, ConfigError, Granularity, Instrument, Period, SymbolAggregator, Trade,
};

const INSTR: Instrument = Instrument { id: 42, tick_size: 25 };

/// A user rule that needs market-by-order data.
#[derive(Debug, Clone, Copy)]
struct NeedsL3;

impl Period for NeedsL3 {
    fn wf(&self) -> bool {
        true
    }

    fn accepts(&self, _t: Trade) -> bool {
        true
    }

    fn transition(&self, _t: Trade) -> (Self, Boundary) {
        (*self, Boundary::Continue)
    }

    fn label_text(&self) -> LabelText {
        panic!("a specification, not run")
    }

    fn required_granularity(&self) -> Granularity {
        Granularity::L3
    }

    fn on_trade(&mut self, _t: &Trade) -> Boundary {
        Boundary::Continue
    }

    fn can_take(&self, _t: &Trade) -> bool {
        true
    }

    fn is_valid(&self) -> bool {
        true
    }

    fn min_granularity(&self) -> Granularity {
        Granularity::L3
    }

    fn label(&self) -> String {
        "needs-l3".to_string()
    }
}

#[test]
fn uc_t0_4_fail_fast_incompatible_granularity() {
    let res = SymbolAggregator::builder(INSTR, Granularity::L1).with_period(NeedsL3).build();
    assert_eq!(
        res.err(),
        Some(ConfigError::IncompatibleGranularity { required: Granularity::L3, declared: Granularity::L1 })
    );
}
