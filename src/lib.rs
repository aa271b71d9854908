//! Bounded-concurrency fan-out over a partitioned store: token-ring
//! partitioning, stable entity identifiers, sample series, an admission
//! controlled dispatcher, and the scatter-gather fold of partial results.
pub mod keyspace;
pub mod metrics;
pub mod dispatcher;
pub mod aggregate;
pub mod entity;
pub mod time;
pub mod series;
pub mod report;
