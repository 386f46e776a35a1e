//! Normalization and validation core for telemetry events.
pub mod convert;
pub mod ids;
pub mod metrics;
pub mod processor;
pub mod protocol;
pub mod timestamp;
pub mod transactions;
pub mod types;
