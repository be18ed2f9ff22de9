use introspection::errors::IntrospectError;
use introspection::history::ToolHistory;
use introspection::inspect_tool_calls::{CallsQuery, InspectToolCallsTool, ServerCalls};
use introspection::query::{query_records, QueryParams, DEFAULT_MAX_RESULTS};
use introspection::record::Record;

fn mk(name: &str, ts: u64) -> Record {
    Record::new(String::from(name), ts, 1, String::from("{}"), String::from(""))
}

fn default_query() -> CallsQuery {
    CallsQuery { max_results: DEFAULT_MAX_RESULTS, offset: 0, tool_name: None, since: None }
}

#[test]
fn empty_store_default_query_yields_empty_result() {
    let mut h = ToolHistory::new();
    h.init(String::from("test"));
    let p = QueryParams::new();
    assert_eq!(p.max_results, 50);
    assert_eq!(p.offset, 0);
    let calls = h.get_recent_calls(&p).unwrap();
    assert_eq!(calls.len(), 0);
    assert_eq!(h.get_stats().unwrap().total_entries, 0);

    let tool = InspectToolCallsTool::new();
    let servers: Vec<ServerCalls> = vec![];
    let out = tool.run(&servers, &default_query()).unwrap();
    assert!(out.output.success);
    assert_eq!(out.output.count, 0);
    assert_eq!(out.output.total_entries_in_memory, 0);
    assert!(out.output.calls.is_empty());
    assert_eq!(
        out.summary,
        "Tool Call History - Calls: 0 - No calls matching criteria"
    );
}

#[test]
fn tool_name_filter_counts_matches_only() {
    // Records named a, b, a, c, a: filtering on "a" selects 3.
    let records = vec![mk("a", 1), mk("b", 2), mk("a", 3), mk("c", 4), mk("a", 5)];
    let mut p = QueryParams::new();
    p.tool_name = Some(String::from("a"));
    let got = query_records(&records, &p);
    assert_eq!(got.len(), 3);
    for r in &got {
        assert_eq!(r.tool_name, "a");
    }
    // Most recent first.
    assert_eq!(got[0].timestamp, 5);
    assert_eq!(got[1].timestamp, 3);
    assert_eq!(got[2].timestamp, 1);
}

#[test]
fn results_sorted_descending_with_ties_by_reverse_insertion() {
    let records = vec![mk("w", 10), mk("x", 30), mk("y", 20), mk("z", 30)];
    let got = query_records(&records, &QueryParams::new());
    assert_eq!(got.len(), 4);
    // Equal timestamps: the later-inserted record comes first.
    assert_eq!(got[0].tool_name, "z");
    assert_eq!(got[1].tool_name, "x");
    assert_eq!(got[2].tool_name, "y");
    assert_eq!(got[3].tool_name, "w");
}

#[test]
fn query_is_deterministic_on_identical_inputs() {
    let records = vec![mk("a", 5), mk("b", 2), mk("a", 9), mk("c", 9)];
    let mut p = QueryParams::new();
    p.max_results = 3;
    p.offset = 1;
    let one = query_records(&records, &p);
    let two = query_records(&records, &p);
    assert_eq!(one.len(), two.len());
    for (x, y) in one.iter().zip(two.iter()) {
        assert_eq!(x.tool_name, y.tool_name);
        assert_eq!(x.timestamp, y.timestamp);
        assert_eq!(x.duration_ms, y.duration_ms);
        assert_eq!(x.args_json, y.args_json);
        assert_eq!(x.output_json, y.output_json);
    }
}

#[test]
fn pagination_concatenation_reconstructs_the_whole_sequence() {
    let records: Vec<Record> = (0..7u64).map(|i| mk(&format!("t{}", i), i)).collect();
    let full = {
        let mut p = QueryParams::new();
        p.max_results = 7;
        query_records(&records, &p)
    };
    assert_eq!(full.len(), 7);
    let mut pages = Vec::new();
    for page in 0..3i64 {
        let mut p = QueryParams::new();
        p.max_results = 3;
        p.offset = page * 3;
        pages.extend(query_records(&records, &p));
    }
    assert_eq!(pages.len(), 7);
    for (x, y) in pages.iter().zip(full.iter()) {
        assert_eq!(x.tool_name, y.tool_name);
        assert_eq!(x.timestamp, y.timestamp);
    }
}

#[test]
fn tail_offset_selects_the_most_recent() {
    let records: Vec<Record> = (0..6u64).map(|i| mk("t", i)).collect();
    // offset -2: the two most recent records, most recent first.
    let mut neg = QueryParams::new();
    neg.offset = -2;
    let a = query_records(&records, &neg);
    assert_eq!(a.len(), 2);
    assert_eq!(a[0].timestamp, 5);
    assert_eq!(a[1].timestamp, 4);
    // The tail window is a prefix of the page at offset 0, so its ordering
    // is consistent with positive-offset ordering.
    let mut zero = QueryParams::new();
    zero.offset = 0;
    zero.max_results = 2;
    let b = query_records(&records, &zero);
    assert_eq!(b.len(), 2);
    for (x, y) in a.iter().zip(b.iter()) {
        assert_eq!(x.timestamp, y.timestamp);
    }
    // max_results still caps a tail request.
    let mut capped = QueryParams::new();
    capped.offset = -3;
    capped.max_results = 1;
    let c = query_records(&records, &capped);
    assert_eq!(c.len(), 1);
    assert_eq!(c[0].timestamp, 5);
}

#[test]
fn edge_cases_of_max_results_and_offset() {
    let records: Vec<Record> = (0..4u64).map(|i| mk("t", i)).collect();
    // max_results = 0 yields an empty selection.
    let mut p = QueryParams::new();
    p.max_results = 0;
    assert!(query_records(&records, &p).is_empty());
    // offset beyond the filtered length yields empty.
    let mut p = QueryParams::new();
    p.offset = 10;
    assert!(query_records(&records, &p).is_empty());
    // negative offset beyond the filtered length yields everything.
    let mut p = QueryParams::new();
    p.offset = -100;
    assert_eq!(query_records(&records, &p).len(), 4);
}

#[test]
fn since_filter_is_inclusive() {
    let records = vec![mk("a", 1), mk("b", 2), mk("c", 3)];
    let mut p = QueryParams::new();
    p.since = Some(2);
    let got = query_records(&records, &p);
    assert_eq!(got.len(), 2);
    assert_eq!(got[0].timestamp, 3);
    assert_eq!(got[1].timestamp, 2);
}

#[test]
fn malformed_since_is_rejected_before_any_store_access() {
    let tool = InspectToolCallsTool::new();
    let servers = vec![ServerCalls { server_name: String::from("s1"), calls: vec![mk("a", 1)] }];
    for bad in ["abc", "", "12x", "-5", "99999999999999999999999"] {
        let mut q = default_query();
        q.since = Some(String::from(bad));
        assert_eq!(tool.run(&servers, &q).unwrap_err(), IntrospectError::MalformedSince);
    }
    let mut q = default_query();
    q.since = Some(String::from("2"));
    let out = tool.run(&servers, &q).unwrap();
    assert_eq!(out.output.filter_since, Some(2));
    assert_eq!(out.output.count, 0);
}

#[test]
fn flattens_all_servers_and_echoes_arguments() {
    let tool = InspectToolCallsTool::new();
    let servers = vec![
        ServerCalls { server_name: String::from("alpha"), calls: vec![mk("a", 1), mk("b", 4)] },
        ServerCalls { server_name: String::from("beta"), calls: vec![mk("a", 3)] },
    ];
    let mut q = default_query();
    q.tool_name = Some(String::from("a"));
    q.max_results = 10;
    q.offset = 0;
    let out = tool.run(&servers, &q).unwrap();
    assert!(out.output.success);
    assert_eq!(out.output.total_entries_in_memory, 3);
    assert_eq!(out.output.count, 2);
    assert_eq!(out.output.calls[0].timestamp, 3);
    assert_eq!(out.output.calls[1].timestamp, 1);
    assert_eq!(out.output.filter_tool_name, Some(String::from("a")));
    assert_eq!(out.output.filter_since, None);
    assert_eq!(out.output.offset, 0);
    assert_eq!(out.output.max_results, 10);
    assert_eq!(out.summary, "Tool Call History - Calls: 2 - Latest: a");
}

#[test]
fn tool_and_since_filters_combine() {
    let records = vec![mk("a", 1), mk("b", 2), mk("a", 3), mk("a", 5), mk("b", 6)];
    let mut p = QueryParams::new();
    p.tool_name = Some(String::from("a"));
    p.since = Some(3);
    let got = query_records(&records, &p);
    assert_eq!(got.len(), 2);
    assert_eq!(got[0].timestamp, 5);
    assert_eq!(got[1].timestamp, 3);
    // Pagination applies after both filters.
    p.offset = 1;
    let got = query_records(&records, &p);
    assert_eq!(got.len(), 1);
    assert_eq!(got[0].timestamp, 3);
}

#[test]
fn tool_metadata_is_stable() {
    let tool = InspectToolCallsTool::new();
    assert_eq!(tool.name(), "inspect_tool_calls");
    assert!(tool.read_only());
    assert!(!tool.destructive());
    assert!(tool.idempotent());
    assert!(!tool.open_world());
}
