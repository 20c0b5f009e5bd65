//! Check-and-score engine for a defensive network exercise: target
//! addresses, service probes and their outcomes, SLA tracking, scoring and
//! the per-round scheduling decisions.

pub mod text;
pub mod address;
pub mod offset;
pub mod config;
pub mod checks;
pub mod sla;
pub mod scoring;
pub mod shuffle;
pub mod engine;
pub mod auth;
pub mod state;
