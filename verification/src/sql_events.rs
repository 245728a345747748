//! Relational query observation: the decisions behind the tracing-layer
//! adapters — which span fields carry the query text, which spans belong to
//! the relational client, and what logical key a span yields.
//!
//! The adapter that hooks into the tracing subscriber extracts plain values
//! (field names, field values, the span target) and hands them to these
//! functions; recording then goes through `mark` and `mark_latency`.

use vstd::prelude::*;
use crate::keys::{cap_key, collapse_ws, lower_of, normalize_sql};

verus! {

/// The span field names that carry relational query text.
pub open spec fn is_sql_field(name: Seq<char>) -> bool {
    name == "db.statement"@ || name == "statement"@ || name == "message"@
}

/// The two strings are equal.
fn str_eq(a: &str, b: &str) -> (r: bool)
    ensures
        r == (a@ == b@),
{
    let an = a.unicode_len();
    let bn = b.unicode_len();
    if an != bn {
        proof {
            assert(a@ != b@);
        }
        return false;
    }
    let mut i: usize = 0;
    while i < an
        invariant
            i <= an,
            an == a@.len(),
            an == b@.len(),
            forall|j: int| 0 <= j < i ==> a@[j] == b@[j],
        decreases an - i,
    {
        if a.get_char(i) != b.get_char(i) {
            return false;
        }
        i += 1;
    }
    proof {
        assert(a@ =~= b@);
    }
    true
}

/// How one string field of a span updates the captured query text: a field
/// named `db.statement`, `statement` or `message` replaces it; any other
/// field leaves it unchanged.
pub fn sql_field_update(cur: Option<String>, name: &str, value: &str) -> (r: Option<String>)
    ensures
        is_sql_field(name@) ==> (r matches Some(v) && v@ == value@),
        !is_sql_field(name@) ==> r == cur,
{
    if str_eq(name, "db.statement") || str_eq(name, "statement") || str_eq(name, "message") {
        Some(value.to_owned())
    } else {
        cur
    }
}

/// How one debug-formatted field updates the captured query text: only a
/// `message` field fills it, and only when nothing was captured yet.
pub fn sql_debug_update(cur: Option<String>, name: &str, value: &str) -> (r: Option<String>)
    ensures
        (cur is None && name@ == "message"@) ==> (r matches Some(v) && v@ == value@),
        !(cur is None && name@ == "message"@) ==> r == cur,
{
    if cur.is_none() && str_eq(name, "message") {
        Some(value.to_owned())
    } else {
        cur
    }
}

/// `target` belongs to the relational client's query spans: it starts with
/// `sqlx::query`.
pub open spec fn is_sql_target(target: Seq<char>) -> bool {
    target.len() >= 11 && target.take(11) == "sqlx::query"@
}

/// Executable form of `is_sql_target`.
pub fn sql_target_matches(target: &str) -> (r: bool)
    ensures
        r == is_sql_target(target@),
{
    proof {
        reveal_strlit("sqlx::query");
    }
    let n = target.unicode_len();
    if n < 11 {
        return false;
    }
    let prefix = target.substring_char(0, 11);
    str_eq(prefix, "sqlx::query")
}

/// Relational-query instrumentation: derives logical keys from span data.
/// The tracing-layer adapter wraps this and forwards span fields, span
/// closure and events to it and to the aggregator.
pub struct MOFSqlEvents;

impl MOFSqlEvents {
    pub fn new() -> (r: Self) {
        MOFSqlEvents
    }

    /// The logical key of a query span: the captured query text, or the span
    /// target when none was captured, normalized.
    pub fn span_key(&self, sql: &Option<String>, target: &str) -> (r: String)
        ensures
            r@ == lower_of(
                cap_key(
                    collapse_ws(
                        match sql {
                            Some(s) => s@,
                            None => target@,
                        },
                    ),
                ),
            ),
    {
        match sql {
            Some(s) => normalize_sql(s.as_str()),
            None => normalize_sql(target),
        }
    }
}

/// Event-only relational instrumentation: derives a logical key from a
/// single event, normalizing captured query text and keeping the raw target
/// as the fallback key.
pub struct SqlxQueryLayer;

impl SqlxQueryLayer {
    pub fn new() -> (r: Self) {
        SqlxQueryLayer
    }

    /// The logical key of a query event: the captured query text normalized,
    /// or the span target unchanged when none was captured.
    pub fn event_key(&self, sql: &Option<String>, target: &str) -> (r: String)
        ensures
            match sql {
                Some(s) => r@ == lower_of(cap_key(collapse_ws(s@))),
                None => r@ == target@,
            },
    {
        match sql {
            Some(s) => normalize_sql(s.as_str()),
            None => target.to_owned(),
        }
    }
}

} // verus!
