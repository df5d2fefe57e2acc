//! Aggregator core for a two-party private aggregation protocol: report
//! ingestion with anti-replay, batch bucket accounting, the rate-limited
//! aggregation scheduler, collection jobs, and taskprov task-id derivation.

pub mod metrics;
pub mod messages;
pub mod model;
pub mod lemmas;
pub mod store;
pub mod taskprov;
pub mod aggregator;
