//! Health, metrics and request traces.
pub mod health;
pub mod metrics;
pub mod trace;
