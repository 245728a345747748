//! Document-store command observation: correlates start and completion
//! events through the in-flight table, records counts and latencies into the
//! bound snapshot, and decides the per-command slow/fast verdicts.
//!
//! The adapter that receives the database client's events extracts plain
//! values from them (connection description, request number, collection,
//! command name) and hands them to this observer together with the snapshot.

use vstd::prelude::*;
use crate::config::MoniOFGlobalConfig;
use crate::inflight::InFlightTable;
use crate::keys::lower_of;
use crate::keys::to_lowercase_str;
use crate::numfmt::{dec_rep, fmt_u128};
use crate::stats::{
    QueryKind,
    QueryStats,
    kind_prefix,
    latency_max_step,
    latency_sum_step,
    logical_key,
    logical_key_spec,
    mark,
    mark_latency,
    record_counts_step,
};

verus! {

/// What one completion or failure event came to: the logical key (without
/// the kind prefix), the elapsed time, whether a matching start was found,
/// and the per-command threshold verdicts.
pub struct CommandOutcome {
    /// `collection/operation`.
    pub key: String,
    /// Elapsed time (ms); zero when no matching start was found.
    pub elapsed_ms: u128,
    /// A matching start was found in the in-flight table.
    pub matched: bool,
    /// The command was at least as slow as `slow_db_threshold_ms`.
    pub slow: bool,
    /// The command was at least as fast as `low_db_threshold_ms`.
    pub low: bool,
}

/// Observer for document-store command events, owning the in-flight table
/// that bridges start and completion.
pub struct MOFMongoEvents {
    inflight: InFlightTable,
}

impl MOFMongoEvents {
    /// The in-flight contents: identity to (start, resource, operation).
    pub closed spec fn inflight_map(self) -> Map<(Seq<char>, int), (u128, Seq<char>, Seq<char>)> {
        self.inflight.as_map()
    }

    /// The in-flight table is well formed.
    pub closed spec fn wf(self) -> bool {
        self.inflight.wf()
    }

    /// Observer with an empty in-flight table.
    pub fn new() -> (r: Self)
        ensures
            r.wf(),
            r.inflight_map() == Map::<(Seq<char>, int), (u128, Seq<char>, Seq<char>)>::empty(),
    {
        MOFMongoEvents { inflight: InFlightTable::new() }
    }

    /// A command started: store it in the in-flight table under its identity
    /// (a duplicate start overwrites — last start wins) and count it at once
    /// under `mongo/collection/operation`, the collection falling back to the
    /// database name when the event named none.
    pub fn observe_start(
        &mut self,
        stats: &mut QueryStats,
        conn: &str,
        request_id: i32,
        collection: Option<String>,
        db: &str,
        command_name: &str,
        now_ms: u128,
    ) -> (key: String)
        requires
            old(self).wf(),
            old(stats).wf(),
            old(stats).total < usize::MAX,
        ensures
            final(self).wf(),
            final(stats).wf(),
            ({
                let coll = match collection {
                    Some(c) => c@,
                    None => db@,
                };
                let op = lower_of(command_name@);
                &&& key@ == logical_key_spec(coll, op)
                &&& final(self).inflight_map() == old(self).inflight_map().insert(
                    (conn@, request_id as int),
                    (now_ms, coll, op),
                )
                &&& final(stats).counts() == record_counts_step(
                    old(stats).counts(),
                    logical_key_spec(kind_prefix(QueryKind::Mongo), logical_key_spec(coll, op)),
                )
            }),
            final(stats).total == old(stats).total + 1,
            final(stats).total_db_latency_ms == old(stats).total_db_latency_ms,
            final(stats).lats() == old(stats).lats(),
            final(stats).maxs() == old(stats).maxs(),
            final(stats).started_at_ms == old(stats).started_at_ms,
    {
        let coll: String = match collection {
            Some(c) => c,
            None => db.to_owned(),
        };
        let op = to_lowercase_str(command_name);
        let key = logical_key(coll.as_str(), op.as_str());
        self.inflight.begin(conn, request_id, now_ms, coll.as_str(), op.as_str());
        mark(stats, QueryKind::Mongo, key.as_str());
        key
    }

    /// A command succeeded: remove its in-flight entry, record its latency
    /// under `mongo/collection/operation`, and judge it against the slow and
    /// low thresholds. Without a matching start the latency defaults to zero
    /// and the key to `unknown/operation` — never an error.
    pub fn observe_success(
        &mut self,
        stats: &mut QueryStats,
        conn: &str,
        request_id: i32,
        command_name: &str,
        now_ms: u128,
        cfg: &MoniOFGlobalConfig,
    ) -> (r: CommandOutcome)
        requires
            old(self).wf(),
            old(stats).wf(),
            old(stats).total_db_latency_ms + now_ms <= u128::MAX,
        ensures
            final(self).wf(),
            final(stats).wf(),
            r.matched == old(self).inflight_map().dom().contains((conn@, request_id as int)),
            ({
                let id = (conn@, request_id as int);
                if old(self).inflight_map().dom().contains(id) {
                    let v = old(self).inflight_map()[id];
                    &&& r.elapsed_ms == (if now_ms >= v.0 {
                        now_ms - v.0
                    } else {
                        0
                    })
                    &&& r.key@ == logical_key_spec(v.1, v.2)
                    &&& final(self).inflight_map() == old(self).inflight_map().remove(id)
                } else {
                    &&& r.elapsed_ms == 0
                    &&& r.key@ == logical_key_spec("unknown"@, lower_of(command_name@))
                    &&& final(self).inflight_map() == old(self).inflight_map()
                }
            }),
            final(stats).total_db_latency_ms == old(stats).total_db_latency_ms + r.elapsed_ms,
            final(stats).lats() == latency_sum_step(
                old(stats).lats(),
                logical_key_spec(kind_prefix(QueryKind::Mongo), r.key@),
                r.elapsed_ms,
            ),
            final(stats).maxs() == latency_max_step(
                old(stats).maxs(),
                logical_key_spec(kind_prefix(QueryKind::Mongo), r.key@),
                r.elapsed_ms,
            ),
            final(stats).total == old(stats).total,
            final(stats).counts() == old(stats).counts(),
            final(stats).started_at_ms == old(stats).started_at_ms,
            r.slow == (match cfg.slow_db_threshold_ms {
                Some(th) => r.elapsed_ms >= th as u128,
                None => false,
            }),
            r.low == (match cfg.low_db_threshold_ms {
                Some(l) => r.elapsed_ms <= l as u128,
                None => false,
            }),
    {
        let (elapsed_ms, key, matched) = self.complete(conn, request_id, command_name, now_ms);
        mark_latency(stats, QueryKind::Mongo, key.as_str(), elapsed_ms);
        let slow = match cfg.slow_db_threshold_ms {
            Some(th) => elapsed_ms >= th as u128,
            None => false,
        };
        let low = match cfg.low_db_threshold_ms {
            Some(l) => elapsed_ms <= l as u128,
            None => false,
        };
        CommandOutcome { key, elapsed_ms, matched, slow, low }
    }

    /// A command failed: remove its in-flight entry and record its latency
    /// under `mongo/collection/operation`, exactly as a success is recorded;
    /// the threshold verdicts are not evaluated (a failure always warns).
    pub fn observe_failure(
        &mut self,
        stats: &mut QueryStats,
        conn: &str,
        request_id: i32,
        command_name: &str,
        now_ms: u128,
    ) -> (r: CommandOutcome)
        requires
            old(self).wf(),
            old(stats).wf(),
            old(stats).total_db_latency_ms + now_ms <= u128::MAX,
        ensures
            final(self).wf(),
            final(stats).wf(),
            r.matched == old(self).inflight_map().dom().contains((conn@, request_id as int)),
            !r.slow && !r.low,
            ({
                let id = (conn@, request_id as int);
                if old(self).inflight_map().dom().contains(id) {
                    let v = old(self).inflight_map()[id];
                    &&& r.elapsed_ms == (if now_ms >= v.0 {
                        now_ms - v.0
                    } else {
                        0
                    })
                    &&& r.key@ == logical_key_spec(v.1, v.2)
                    &&& final(self).inflight_map() == old(self).inflight_map().remove(id)
                } else {
                    &&& r.elapsed_ms == 0
                    &&& r.key@ == logical_key_spec("unknown"@, lower_of(command_name@))
                    &&& final(self).inflight_map() == old(self).inflight_map()
                }
            }),
            final(stats).total_db_latency_ms == old(stats).total_db_latency_ms + r.elapsed_ms,
            final(stats).lats() == latency_sum_step(
                old(stats).lats(),
                logical_key_spec(kind_prefix(QueryKind::Mongo), r.key@),
                r.elapsed_ms,
            ),
            final(stats).maxs() == latency_max_step(
                old(stats).maxs(),
                logical_key_spec(kind_prefix(QueryKind::Mongo), r.key@),
                r.elapsed_ms,
            ),
            final(stats).total == old(stats).total,
            final(stats).counts() == old(stats).counts(),
            final(stats).started_at_ms == old(stats).started_at_ms,
    {
        let (elapsed_ms, key, matched) = self.complete(conn, request_id, command_name, now_ms);
        mark_latency(stats, QueryKind::Mongo, key.as_str(), elapsed_ms);
        CommandOutcome { key, elapsed_ms, matched, slow: false, low: false }
    }

    /// Shared completion step: remove the in-flight entry and rebuild the
    /// logical key, defaulting to zero latency and `unknown` when no start
    /// was seen.
    fn complete(&mut self, conn: &str, request_id: i32, command_name: &str, now_ms: u128) -> (r: (
        u128,
        String,
        bool,
    ))
        requires
            old(self).wf(),
        ensures
            final(self).wf(),
            r.2 == old(self).inflight_map().dom().contains((conn@, request_id as int)),
            r.0 <= now_ms,
            ({
                let id = (conn@, request_id as int);
                if old(self).inflight_map().dom().contains(id) {
                    let v = old(self).inflight_map()[id];
                    &&& r.0 == (if now_ms >= v.0 {
                        now_ms - v.0
                    } else {
                        0
                    })
                    &&& r.1@ == logical_key_spec(v.1, v.2)
                    &&& final(self).inflight_map() == old(self).inflight_map().remove(id)
                } else {
                    &&& r.0 == 0
                    &&& r.1@ == logical_key_spec("unknown"@, lower_of(command_name@))
                    &&& final(self).inflight_map() == old(self).inflight_map()
                }
            }),
    {
        match self.inflight.end(conn, request_id, now_ms) {
            Some((elapsed_ms, coll, op)) => {
                let key = logical_key(coll.as_str(), op.as_str());
                (elapsed_ms, key, true)
            },
            None => {
                let op = to_lowercase_str(command_name);
                let key = logical_key("unknown", op.as_str());
                (0, key, false)
            },
        }
    }
}

/// The notification text for a slow command.
pub open spec fn slow_message_spec(key: Seq<char>, ms: int) -> Seq<char> {
    "*Slow MongoDB command*"@ + "\n- key: `"@ + key + "`"@ + "\n- latency: "@ + dec_rep(ms)
        + " ms"@
}

/// Build the notification text for a command at least as slow as the
/// configured threshold.
pub fn slow_command_message(key: &str, ms: u128) -> (m: String)
    ensures
        m@ == slow_message_spec(key@, ms as int),
{
    let mut m = "*Slow MongoDB command*".to_owned();
    m.append("\n- key: `");
    m.append(key);
    m.append("`");
    m.append("\n- latency: ");
    let v = fmt_u128(ms);
    m.append(v.as_str());
    m.append(" ms");
    proof {
        assert(m@ =~= slow_message_spec(key@, ms as int));
    }
    m
}

/// The notification text for a failed command.
pub open spec fn failed_message_spec(key: Seq<char>, ms: int) -> Seq<char> {
    "*MongoDB command failed*"@ + "\n- key: `"@ + key + "`"@ + "\n- latency: "@ + dec_rep(ms)
        + " ms"@
}

/// Build the notification text for a failed command.
pub fn failed_command_message(key: &str, ms: u128) -> (m: String)
    ensures
        m@ == failed_message_spec(key@, ms as int),
{
    let mut m = "*MongoDB command failed*".to_owned();
    m.append("\n- key: `");
    m.append(key);
    m.append("`");
    m.append("\n- latency: ");
    let v = fmt_u128(ms);
    m.append(v.as_str());
    m.append(" ms");
    proof {
        assert(m@ =~= failed_message_spec(key@, ms as int));
    }
    m
}

} // verus!
