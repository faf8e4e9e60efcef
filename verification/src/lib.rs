//! Grouping and aggregation of per-index statistics of a search cluster,
//! the gauges they are published under, and the schedule of the refresh.

pub mod catalog;
pub mod cli;
pub mod configuration;
pub mod elasticsearch;
pub mod grouping;
pub mod metrics;
pub mod pattern;
pub mod refresh;
pub mod scheduler;
pub mod template;
