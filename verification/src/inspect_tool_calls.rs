use vstd::prelude::*;

use crate::errors::IntrospectError;
use crate::numfmt::{spec_decimal, u64_to_string};
use crate::query::{spec_query, query_records, QueryParams};
use crate::record::Record;
use crate::timestamp::{parse_timestamp, spec_parse_timestamp};

verus! {

/// One backend process's share of the fleet-wide call history.
#[derive(Debug)]
pub struct ServerCalls {
    pub server_name: String,
    pub calls: Vec<Record>,
}

/// The raw query arguments as the caller hands them over: `since` is still
/// a string and is validated before any store access.
pub struct CallsQuery {
    pub max_results: usize,
    pub offset: i64,
    pub tool_name: Option<String>,
    pub since: Option<String>,
}

/// The structured query result.
#[derive(Debug)]
pub struct ToolCallsOutput {
    pub success: bool,
    pub count: usize,
    pub total_entries_in_memory: usize,
    pub calls: Vec<Record>,
    pub filter_tool_name: Option<String>,
    pub filter_since: Option<u64>,
    pub offset: i64,
    pub max_results: usize,
}

/// The structured result together with its one-line summary.
#[derive(Debug)]
pub struct ToolCallsOutcome {
    pub output: ToolCallsOutput,
    pub summary: String,
}

/// All calls of all servers, in server order, each server's calls in
/// insertion order.
pub open spec fn flatten_calls(svs: Seq<ServerCalls>) -> Seq<Record>
    decreases svs.len(),
{
    if svs.len() == 0 {
        Seq::empty()
    } else {
        flatten_calls(svs.drop_last()) + svs.last().calls@
    }
}

/// The query parameters a `CallsQuery` stands for once its `since` string
/// has been read.
pub open spec fn effective_params(q: CallsQuery) -> QueryParams {
    QueryParams {
        max_results: q.max_results,
        offset: q.offset,
        tool_name: q.tool_name,
        since: match q.since {
            None => None,
            Some(s) => spec_parse_timestamp(s@),
        },
    }
}

/// Is the `since` argument of `q` present but malformed?
pub open spec fn since_malformed(q: CallsQuery) -> bool {
    match q.since {
        None => false,
        Some(s) => spec_parse_timestamp(s@) is None,
    }
}

/// The one-line summary of a query result.
pub open spec fn spec_calls_summary(calls: Seq<Record>) -> Seq<char> {
    if calls.len() == 0 {
        "Tool Call History - Calls: 0 - No calls matching criteria"@
    } else {
        "Tool Call History - Calls: "@ + spec_decimal(calls.len() as int) + " - Latest: "@
            + calls[0].tool_name@
    }
}

/// Build the one-line summary for the selected calls.
pub fn format_calls_summary(calls: &Vec<Record>) -> (s: String)
    ensures
        s@ == spec_calls_summary(calls@),
{
    if calls.len() == 0 {
        String::from_str("Tool Call History - Calls: 0 - No calls matching criteria")
    } else {
        let mut s = String::from_str("Tool Call History - Calls: ");
        s.append(u64_to_string(calls.len() as u64).as_str());
        s.append(" - Latest: ");
        s.append(calls[0].tool_name.as_str());
        proof {
            assert(s@ =~= spec_calls_summary(calls@));
        }
        s
    }
}

fn flatten_servers(servers: &Vec<ServerCalls>) -> (r: Vec<Record>)
    ensures
        r@ == flatten_calls(servers@),
{
    let mut out: Vec<Record> = Vec::new();
    let mut i: usize = 0;
    while i < servers.len()
        invariant
            0 <= i <= servers@.len(),
            out@ == flatten_calls(servers@.take(i as int)),
        decreases servers@.len() - i,
    {
        let mut j: usize = 0;
        let ghost before = out@;
        while j < servers[i].calls.len()
            invariant
                0 <= i < servers@.len(),
                0 <= j <= servers@[i as int].calls@.len(),
                out@ == before + servers@[i as int].calls@.take(j as int),
            decreases servers@[i as int].calls@.len() - j,
        {
            out.push(servers[i].calls[j].duplicate());
            j = j + 1;
            proof {
                assert(servers@[i as int].calls@.take(j as int) =~= servers@[i as int].calls@.take(
                    j as int - 1,
                ).push(servers@[i as int].calls@[j as int - 1]));
                assert(out@ =~= before + servers@[i as int].calls@.take(j as int));
            }
        }
        i = i + 1;
        proof {
            assert(servers@.take(i as int).drop_last() =~= servers@.take(i as int - 1));
            assert(servers@[i as int - 1].calls@.take(servers@[i as int - 1].calls@.len() as int)
                =~= servers@[i as int - 1].calls@);
            assert(out@ =~= flatten_calls(servers@.take(i as int)));
        }
    }
    proof {
        assert(servers@.take(servers@.len() as int) =~= servers@);
    }
    out
}

/// Queries the fleet-wide call history handed over by the transport layer.
#[derive(Clone, Default)]
pub struct InspectToolCallsTool;

impl InspectToolCallsTool {
    pub fn new() -> (t: Self)
        ensures
            t == (InspectToolCallsTool {}),
    {
        Self {  }
    }

    pub fn name(&self) -> (s: &'static str)
        ensures
            s@ == "inspect_tool_calls"@,
    {
        "inspect_tool_calls"
    }

    /// What the tool tells clients about itself.
    pub fn description(&self) -> &'static str {
        "Get recent tool call history across all backend servers, with \
         arguments and outputs. Returns the calls most recent first and \
         supports pagination via the offset parameter (negative for tail \
         behavior). Each server keeps its history in memory (last 1000 \
         calls)."
    }

    pub fn read_only(&self) -> (b: bool)
        ensures
            b,
    {
        true
    }

    pub fn destructive(&self) -> (b: bool)
        ensures
            !b,
    {
        false
    }

    pub fn idempotent(&self) -> (b: bool)
        ensures
            b,
    {
        true
    }

    pub fn open_world(&self) -> (b: bool)
        ensures
            !b,
    {
        false
    }

    /// Flatten the per-server histories, run the query, and package the
    /// result with its summary. A present but malformed `since` string is
    /// rejected before any history is touched.
    pub fn run(&self, servers: &Vec<ServerCalls>, q: &CallsQuery) -> (r: Result<
        ToolCallsOutcome,
        IntrospectError,
    >)
        ensures
            since_malformed(*q) ==> r is Err && r->Err_0 == IntrospectError::MalformedSince,
            !since_malformed(*q) ==> r is Ok && {
                let out = r->Ok_0;
                let all = flatten_calls(servers@);
                &&& out.output.success == true
                &&& out.output.calls@ == spec_query(all, effective_params(*q))
                &&& out.output.count == out.output.calls@.len()
                &&& out.output.total_entries_in_memory == all.len()
                &&& out.output.filter_tool_name == q.tool_name
                &&& out.output.filter_since == effective_params(*q).since
                &&& out.output.offset == q.offset
                &&& out.output.max_results == q.max_results
                &&& out.summary@ == spec_calls_summary(out.output.calls@)
            },
    {
        let since: Option<u64> = match &q.since {
            None => None,
            Some(s) => {
                match parse_timestamp(s.as_str()) {
                    None => {
                        return Err(IntrospectError::MalformedSince);
                    },
                    Some(v) => Some(v),
                }
            },
        };
        let tool_name: Option<String> = match &q.tool_name {
            None => None,
            Some(t) => Some(t.clone()),
        };
        let params = QueryParams { max_results: q.max_results, offset: q.offset, tool_name, since };
        proof {
            assert(params == effective_params(*q));
        }
        let all = flatten_servers(servers);
        let calls = query_records(&all, &params);
        let summary = format_calls_summary(&calls);
        let count = calls.len();
        let total = all.len();
        let filter_tool_name: Option<String> = match &q.tool_name {
            None => None,
            Some(t) => Some(t.clone()),
        };
        Ok(
            ToolCallsOutcome {
                output: ToolCallsOutput {
                    success: true,
                    count,
                    total_entries_in_memory: total,
                    calls,
                    filter_tool_name,
                    filter_since: since,
                    offset: q.offset,
                    max_results: q.max_results,
                },
                summary,
            },
        )
    }
}

} // verus!
