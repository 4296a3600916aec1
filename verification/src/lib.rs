//! Write-path proxy core for a time-series metrics store: payload
//! splitting, per-destination batching and the delivery retry policy.

pub mod aggregator;
pub mod config;
pub mod dispatcher;
pub mod metric;
pub mod text;

pub use aggregator::{Aggregator, AggregatorEvent, FlushPolicy};
pub use config::Opt;
pub use dispatcher::{classify, request_for, Action, Delivery, Outcome, Request, RetryPolicy};
pub use metric::{extract_data, ingest, AggregatedMetric, Metric};
