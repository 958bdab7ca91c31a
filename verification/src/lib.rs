//! Market-data aggregation: turns a raw tape (trades) and book updates into bars
//! carrying aggressive order flow, and a reconstructed order book with periodic
//! liquidity profiles. Everything is driven by event time, so a replay is
//! deterministic.

pub mod aggregator;
pub mod bar;
pub mod canonical;
pub mod databento;
pub mod error;
pub mod levels;
pub mod orderflow;
pub mod passive;
pub mod period;
pub mod streams;
pub mod text;

pub use aggregator::{Builder, Notification, SymbolAggregator};
pub use bar::{Bar, Ohlcv};
pub use canonical::{
    AggressorSide, BookAction, BookSide, BookUpdate, Granularity, Instrument, MarketEvent, Px, Qty,
    Trade, Ts,
};
pub use error::ConfigError;
pub use orderflow::{LensKind, OrderFlow};
pub use passive::{LiquidityProfile, OrderBook};
pub use period::{
    AlignedTimePeriod, AnyPeriod, Boundary, DollarImbalancePeriod, DollarPeriod, Period,
    PointFigurePeriod, RangePeriod, RenkoBrickPeriod, RenkoPeriod, RunPeriod, TickImbalancePeriod,
    TickPeriod, TimePeriod, VolumeImbalancePeriod, VolumePeriod,
};
