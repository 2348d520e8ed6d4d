//! Per-user tag storage and query logic for a real-time bidding profile service:
//! bounded recency lists, time parsing and ranges, cookie sharding, and the
//! aggregation step that folds incoming user tags into per-user state.

pub mod data;
pub mod endpoints;
pub mod kafka_aggregator;
pub mod logic_case_two;
pub mod logic_demo;
pub mod nmax;
pub mod time;
