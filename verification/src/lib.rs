//! Request-scoped database telemetry: attributes database commands to the
//! inbound request that issued them, aggregates per-request counts and
//! latencies, flags N+1 access patterns, and evaluates alert thresholds.

pub mod config;
pub mod http;
pub mod inflight;
pub mod keys;
pub mod keytable;
pub mod mongo_events;
pub mod numfmt;
pub mod of;
pub mod report;
pub mod sql_events;
pub mod stats;

pub use config::MoniOFConfig;
pub use config::MoniOFGlobalConfig;
pub use http::MoniOF;
pub use keys::normalize_sql;
pub use mongo_events::MOFMongoEvents;
pub use of::OfSuspect;
pub use of::find_suspects;
pub use sql_events::MOFSqlEvents;
pub use sql_events::SqlxQueryLayer;
pub use stats::QueryKind;
pub use stats::QueryStats;
pub use stats::mark;
pub use stats::mark_latency;
