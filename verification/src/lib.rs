//! Reporting and dashboard aggregation for a small delivery business:
//! comparison windows, sales summaries, period-over-period deltas,
//! daily revenue buckets and stock alerts.

pub mod aggregate;
pub mod alerts;
pub mod chart;
pub mod compare;
pub mod decimal;
pub mod error;
pub mod instant;
pub mod names;
pub mod records;
pub mod report;
pub mod window;
