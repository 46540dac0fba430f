//! Operational logging records and telemetry queue metrics.
pub mod logger;
pub mod event_bus;
