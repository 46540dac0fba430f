//! Detection decisions: clustering of strong bins into peaks and escalation of
//! anomalies into alerts.
pub mod alert_engine;
pub mod anomaly_detector;
pub mod peak_detector;
pub mod occupancy_tracker;
