//! The request monitor handed to the HTTP layer: it carries the per-request
//! configuration under which each finished request's snapshot is summarized,
//! checked against the alert rules, and rendered as response metadata.
//!
//! The transport adapter creates one snapshot per inbound request, binds it
//! for the request's extent, and on completion runs `build_report` with this
//! monitor's configuration.

use vstd::prelude::*;
use crate::config::MoniOFConfig;

verus! {

/// The request monitor: holds the configuration applied to every request.
pub struct MoniOF {
    cfg: MoniOFConfig,
}

impl MoniOF {
    /// The configuration applied to every request.
    pub closed spec fn spec_config(self) -> MoniOFConfig {
        self.cfg
    }

    /// Monitor with the default configuration.
    pub fn new() -> (r: Self)
        ensures
            r.spec_config().max_total == 60,
            r.spec_config().max_same_key == 20,
            r.spec_config().add_response_headers,
            r.spec_config().log_warnings,
            r.spec_config().warn_total_db_latency_ms is None,
            r.spec_config().warn_low_total_db_latency_ms is None,
            r.spec_config().of_mode,
            r.spec_config().n_plus_one_min_count == 5,
            r.spec_config().n_plus_one_min_total_ms == Some(5u128),
    {
        MoniOF { cfg: Default::default() }
    }

    /// Monitor with the given configuration.
    pub fn with_config(cfg: MoniOFConfig) -> (r: Self)
        ensures
            r.spec_config() == cfg,
    {
        MoniOF { cfg }
    }

    /// The configuration applied to every request.
    pub fn config(&self) -> (c: &MoniOFConfig)
        ensures
            *c == self.spec_config(),
    {
        &self.cfg
    }
}

} // verus!
