//! Kinds used when metrics history is analysed.

use vstd::prelude::*;

verus! {

/// How a metric moves over time.
#[derive(Clone, Copy, Debug, PartialEq, Eq, Structural)]
pub enum TrendDirection {
    Increasing,
    Decreasing,
    Stable,
    Volatile,
}

/// Kinds of unusual data points.
#[derive(Clone, Copy, Debug, PartialEq, Eq, Structural)]
pub enum AnomalyType {
    Spike,
    Drop,
    Outlier,
}

/// Outcome of comparing two periods.
#[derive(Clone, Copy, Debug, PartialEq, Eq, Structural)]
pub enum ComparisonType {
    Improvement,
    Degradation,
    NoSignificantChange,
}

} // verus!
