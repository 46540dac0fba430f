//! Spectrum monitoring core: parsing, detection decisions and telemetry bookkeeping.
pub mod text;
pub mod config;
pub mod models;
pub mod telemetry;
pub mod buffers;
pub mod sdr;
pub mod igor;
pub mod ids;
pub mod detection;
pub mod power;
pub mod simulator;
pub mod recording;
pub mod native;
pub mod ml;
