//! Typed errors: a misconfiguration is reported when the aggregator is built.
use vstd::prelude::*;

use crate::canonical::Granularity;

verus! {

/// Configuration error, raised when a `SymbolAggregator` is built.
#[derive(Debug, Clone, Copy, PartialEq, Eq, Structural)]
pub enum ConfigError {
    /// An aggregation needs a finer granularity than the declared one.
    IncompatibleGranularity { required: Granularity, declared: Granularity },
}

} // verus!
