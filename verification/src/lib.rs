//! Introspection library: a bounded tool-invocation history store with a
//! filterable, paginated query engine, aggregate usage counters, and a
//! fleet-wide aggregator that tolerates unavailable backend processes.

pub mod errors;
pub mod get_recent_tool_calls;
pub mod get_usage_stats;
pub mod history;
pub mod inspect_tool_calls;
pub mod inspect_usage_stats;
pub mod numfmt;
pub mod query;
pub mod record;
pub mod timestamp;
pub mod usage;

pub use get_recent_tool_calls::GetRecentToolCallsTool;
pub use get_usage_stats::GetUsageStatsTool;
pub use inspect_tool_calls::InspectToolCallsTool;
pub use inspect_usage_stats::InspectUsageStatsTool;
