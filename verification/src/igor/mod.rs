//! IGOR: correlation of peaks and anomalies per frequency band into scored
//! threat assessments.
pub mod engine;
