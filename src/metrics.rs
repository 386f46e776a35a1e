//! Type-safe metric names.
//!
//! Each kind of metric has a trait of its own, so that a name defined as a counter cannot be
//! recorded as a timer. Sending the metrics is left to the surrounding program.
use vstd::prelude::*;

verus! {

/// A metric for capturing timings: a positive number of milliseconds between a start and end
/// time.
pub trait TimerMetric {
    /// Returns the timer metric name that will be sent to statsd.
    fn name(&self) -> &'static str;
}

/// A metric for capturing counters: a number of occurrences, incremented or decremented.
pub trait CounterMetric {
    /// Returns the counter metric name that will be sent to statsd.
    fn name(&self) -> &'static str;
}

/// A metric for capturing histograms: the distribution of sampled values.
pub trait HistogramMetric {
    /// Returns the histogram metric name that will be sent to statsd.
    fn name(&self) -> &'static str;
}

/// A metric for capturing sets: the number of unique values seen per interval.
pub trait SetMetric {
    /// Returns the set metric name that will be sent to statsd.
    fn name(&self) -> &'static str;
}

/// A metric for capturing gauges: a value that is set rather than accumulated.
pub trait GaugeMetric {
    /// Returns the gauge metric name that will be sent to statsd.
    fn name(&self) -> &'static str;
}

} // verus!
