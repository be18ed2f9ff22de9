use vstd::prelude::*;

use crate::errors::IntrospectError;
use crate::history::ToolHistory;
use crate::inspect_tool_calls::{effective_params, since_malformed, CallsQuery};
use crate::numfmt::{spec_decimal, u64_to_string};
use crate::query::spec_query;
use crate::record::Record;

verus! {

/// The one-line summary over `results` selected calls out of `total` held
/// in memory.
pub open spec fn spec_recent_summary(results: int, total: int) -> Seq<char> {
    "Tool Call History ("@ + spec_decimal(results) + " results, "@ + spec_decimal(total)
        + " total in memory)"@
}

/// What a history query hands back: the selected calls and their one-line
/// summary.
#[derive(Debug)]
pub struct RecentCallsOutcome {
    pub summary: String,
    pub calls: Vec<Record>,
}

/// Queries this process's own history store.
#[derive(Clone, Default)]
pub struct GetRecentToolCallsTool;

impl GetRecentToolCallsTool {
    pub fn new() -> (t: Self)
        ensures
            t == (GetRecentToolCallsTool {}),
    {
        Self {  }
    }

    pub fn name(&self) -> (s: &'static str)
        ensures
            s@ == "get_recent_tool_calls"@,
    {
        "get_recent_tool_calls"
    }

    /// What the tool tells clients about itself.
    pub fn description(&self) -> &'static str {
        "Get recent tool call history with their arguments and outputs. \
         Returns the tool calls made during this session, most recent first. \
         Supports pagination via the offset parameter (negative for tail \
         behavior). History is kept in memory (last 1000 calls) and mirrored \
         to an append-only log."
    }

    pub fn read_only(&self) -> (b: bool)
        ensures
            b,
    {
        true
    }

    pub fn destructive(&self) -> (b: bool)
        ensures
            !b,
    {
        false
    }

    pub fn idempotent(&self) -> (b: bool)
        ensures
            b,
    {
        true
    }

    pub fn open_world(&self) -> (b: bool)
        ensures
            !b,
    {
        false
    }

    /// Run the query `q` over `history`. Fails with `NotInitialized` when
    /// the store was never set up, and with `MalformedSince` when the
    /// `since` string does not parse; otherwise returns the selected calls
    /// and the summary line.
    pub fn run(&self, history: &ToolHistory, q: &CallsQuery) -> (r: Result<
        RecentCallsOutcome,
        IntrospectError,
    >)
        ensures
            !history.is_initialized() ==> r is Err && r->Err_0 == IntrospectError::NotInitialized,
            history.is_initialized() && since_malformed(*q) ==> r is Err && r->Err_0
                == IntrospectError::MalformedSince,
            history.is_initialized() && !since_malformed(*q) ==> r is Ok && {
                let out = r->Ok_0;
                &&& out.calls@ == spec_query(history.records(), effective_params(*q))
                &&& out.summary@ == spec_recent_summary(
                    out.calls@.len() as int,
                    history.records().len() as int,
                )
            },
    {
        if !history.check_initialized() {
            return Err(IntrospectError::NotInitialized);
        }
        let since: Option<u64> = match &q.since {
            None => None,
            Some(s) => {
                match crate::timestamp::parse_timestamp(s.as_str()) {
                    None => {
                        return Err(IntrospectError::MalformedSince);
                    },
                    Some(v) => Some(v),
                }
            },
        };
        let tool_name: Option<String> = match &q.tool_name {
            None => None,
            Some(t) => Some(t.clone()),
        };
        let params = crate::query::QueryParams {
            max_results: q.max_results,
            offset: q.offset,
            tool_name,
            since,
        };
        proof {
            assert(params == effective_params(*q));
        }
        let calls = match history.get_recent_calls(&params) {
            Ok(c) => c,
            Err(e) => {
                return Err(e);
            },
        };
        let stats = match history.get_stats() {
            Ok(s) => s,
            Err(e) => {
                return Err(e);
            },
        };
        let mut summary = String::from_str("Tool Call History (");
        summary.append(u64_to_string(calls.len() as u64).as_str());
        summary.append(" results, ");
        summary.append(u64_to_string(stats.total_entries as u64).as_str());
        summary.append(" total in memory)");
        proof {
            assert(summary@ =~= spec_recent_summary(
                calls@.len() as int,
                history.records().len() as int,
            ));
        }
        Ok(RecentCallsOutcome { summary, calls })
    }
}

} // verus!
