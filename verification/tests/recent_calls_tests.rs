use introspection::errors::IntrospectError;
use introspection::get_recent_tool_calls::GetRecentToolCallsTool;
use introspection::history::ToolHistory;
use introspection::inspect_tool_calls::CallsQuery;
use introspection::numfmt::u64_to_string;
use introspection::record::Record;
use introspection::timestamp::parse_timestamp;

fn mk(name: &str, ts: u64) -> Record {
    Record::new(String::from(name), ts, 2, String::from("{}"), String::from(""))
}

fn q() -> CallsQuery {
    CallsQuery { max_results: 50, offset: 0, tool_name: None, since: None }
}

#[test]
fn uninitialized_history_beats_other_errors() {
    let h = ToolHistory::new();
    let tool = GetRecentToolCallsTool::new();
    assert_eq!(tool.run(&h, &q()).unwrap_err(), IntrospectError::NotInitialized);
    let mut bad = q();
    bad.since = Some(String::from("not-a-timestamp"));
    assert_eq!(tool.run(&h, &bad).unwrap_err(), IntrospectError::NotInitialized);
    assert_eq!(
        IntrospectError::NotInitialized.message(),
        "Tool history not initialized"
    );
}

#[test]
fn summary_names_result_and_memory_counts() {
    let mut h = ToolHistory::new();
    h.init(String::from("proc-1"));
    for i in 0..5u64 {
        h.append(mk(if i % 2 == 0 { "even" } else { "odd" }, i)).unwrap();
    }
    let tool = GetRecentToolCallsTool::new();
    assert_eq!(tool.name(), "get_recent_tool_calls");
    let mut query = q();
    query.tool_name = Some(String::from("even"));
    let out = tool.run(&h, &query).unwrap();
    assert_eq!(out.calls.len(), 3);
    assert_eq!(out.summary, "Tool Call History (3 results, 5 total in memory)");
    assert_eq!(out.calls[0].timestamp, 4);
    assert_eq!(out.calls[1].timestamp, 2);
    assert_eq!(out.calls[2].timestamp, 0);
}

#[test]
fn malformed_since_is_reported_once_initialized() {
    let mut h = ToolHistory::new();
    h.init(String::from("proc-1"));
    h.append(mk("a", 7)).unwrap();
    let tool = GetRecentToolCallsTool::new();
    let mut bad = q();
    bad.since = Some(String::from("2024-10-12T20:00:00Z"));
    assert_eq!(tool.run(&h, &bad).unwrap_err(), IntrospectError::MalformedSince);
    assert_eq!(
        IntrospectError::MalformedSince.message(),
        "Malformed since timestamp"
    );
    let mut good = q();
    good.since = Some(String::from("7"));
    assert_eq!(tool.run(&h, &good).unwrap().calls.len(), 1);
}

#[test]
fn timestamps_parse_as_plain_decimals() {
    assert_eq!(parse_timestamp("0"), Some(0));
    assert_eq!(parse_timestamp("1729"), Some(1729));
    assert_eq!(parse_timestamp("18446744073709551615"), Some(u64::MAX));
    assert_eq!(parse_timestamp("18446744073709551616"), None);
    assert_eq!(parse_timestamp(""), None);
    assert_eq!(parse_timestamp("12a"), None);
    assert_eq!(parse_timestamp(" 12"), None);
    assert_eq!(parse_timestamp("+12"), None);
}

#[test]
fn decimal_rendering_is_exact() {
    assert_eq!(u64_to_string(0), "0");
    assert_eq!(u64_to_string(7), "7");
    assert_eq!(u64_to_string(10), "10");
    assert_eq!(u64_to_string(1729), "1729");
    assert_eq!(u64_to_string(u64::MAX), "18446744073709551615");
}
