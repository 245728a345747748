//! Configuration for the per-request monitor and for the process-wide
//! database-command observer.

use vstd::prelude::*;

verus! {

/// Per-request monitoring configuration: alert thresholds and N+1 detection
/// settings evaluated against one request's finalized snapshot.
pub struct MoniOFConfig {
    /// Alert when the request's total query count exceeds this.
    pub max_total: usize,
    /// Alert when a single logical key repeats more often than this.
    pub max_same_key: usize,
    /// Attach the snapshot summary to the response as headers.
    pub add_response_headers: bool,
    /// Evaluate the alert rules and build a notification when one fires.
    pub log_warnings: bool,
    /// Alert when cumulative database latency reaches this many ms.
    pub warn_total_db_latency_ms: Option<u128>,
    /// Alert when cumulative database latency is at most this many ms
    /// although at least one query was recorded.
    pub warn_low_total_db_latency_ms: Option<u128>,
    /// Run the N+1 suspect detector.
    pub of_mode: bool,
    /// Minimum repetitions of one key for it to be a suspect.
    pub n_plus_one_min_count: usize,
    /// If set, minimum summed latency of a key for it to be a suspect.
    pub n_plus_one_min_total_ms: Option<u128>,
}

impl Clone for MoniOFConfig {
    fn clone(&self) -> (r: Self)
        ensures
            r == *self,
    {
        MoniOFConfig {
            max_total: self.max_total,
            max_same_key: self.max_same_key,
            add_response_headers: self.add_response_headers,
            log_warnings: self.log_warnings,
            warn_total_db_latency_ms: self.warn_total_db_latency_ms,
            warn_low_total_db_latency_ms: self.warn_low_total_db_latency_ms,
            of_mode: self.of_mode,
            n_plus_one_min_count: self.n_plus_one_min_count,
            n_plus_one_min_total_ms: self.n_plus_one_min_total_ms,
        }
    }
}

impl Default for MoniOFConfig {
    fn default() -> (r: Self)
        ensures
            r.max_total == 60,
            r.max_same_key == 20,
            r.add_response_headers,
            r.log_warnings,
            r.warn_total_db_latency_ms is None,
            r.warn_low_total_db_latency_ms is None,
            r.of_mode,
            r.n_plus_one_min_count == 5,
            r.n_plus_one_min_total_ms == Some(5u128),
    {
        MoniOFConfig {
            max_total: 60,
            max_same_key: 20,
            add_response_headers: true,
            log_warnings: true,
            warn_total_db_latency_ms: None,
            warn_low_total_db_latency_ms: None,
            of_mode: true,
            n_plus_one_min_count: 5,
            n_plus_one_min_total_ms: Some(5),
        }
    }
}

/// Process-wide observer configuration: per-command logging and latency
/// thresholds, and the optional notification destination.
pub struct MoniOFGlobalConfig {
    /// Log every database command start and finish.
    pub log_each_db_event: bool,
    /// A single command at least this slow (ms) is flagged as slow.
    pub slow_db_threshold_ms: Option<u64>,
    /// A single command at most this fast (ms) is flagged as suspiciously fast.
    pub low_db_threshold_ms: Option<u64>,
    /// Webhook destination for alert notifications.
    pub slack_webhook: Option<String>,
}

impl Clone for MoniOFGlobalConfig {
    fn clone(&self) -> (r: Self)
        ensures
            r.log_each_db_event == self.log_each_db_event,
            r.slow_db_threshold_ms == self.slow_db_threshold_ms,
            r.low_db_threshold_ms == self.low_db_threshold_ms,
            r.slack_webhook is Some <==> self.slack_webhook is Some,
            r.slack_webhook is Some ==> r.slack_webhook->0@ == self.slack_webhook->0@,
    {
        MoniOFGlobalConfig {
            log_each_db_event: self.log_each_db_event,
            slow_db_threshold_ms: self.slow_db_threshold_ms,
            low_db_threshold_ms: self.low_db_threshold_ms,
            slack_webhook: match &self.slack_webhook {
                Some(s) => Some(s.clone()),
                None => None,
            },
        }
    }
}

impl Default for MoniOFGlobalConfig {
    fn default() -> (r: Self)
        ensures
            !r.log_each_db_event,
            r.slow_db_threshold_ms is None,
            r.low_db_threshold_ms is None,
            r.slack_webhook is None,
    {
        MoniOFGlobalConfig {
            log_each_db_event: false,
            slow_db_threshold_ms: None,
            low_db_threshold_ms: None,
            slack_webhook: None,
        }
    }
}

} // verus!
