use introspection::get_usage_stats::GetUsageStatsTool;
use introspection::usage::UsageTracker;

#[test]
fn counters_satisfy_the_invariant_after_any_sequence() {
    let mut t = UsageTracker::new();
    let calls = [
        ("read", true),
        ("write", false),
        ("read", true),
        ("list", true),
        ("read", false),
        ("write", true),
    ];
    for (k, (name, ok)) in calls.iter().enumerate() {
        t.record(name, *ok, 1000 + k as u64);
    }
    let r = t.get_summary();
    assert_eq!(r.total_calls, 6);
    assert_eq!(r.successful_calls + r.failed_calls, r.total_calls);
    let per_tool_sum: u64 = r.tool_usage.iter().map(|row| row.call_count).sum();
    assert_eq!(per_tool_sum, r.total_calls);
}

#[test]
fn per_tool_counts_keep_first_seen_order() {
    let mut t = UsageTracker::new();
    t.record("a", true, 1);
    t.record("b", true, 2);
    t.record("a", true, 3);
    let r = t.get_summary();
    assert_eq!(r.tools_used, 2);
    assert_eq!(r.tool_usage.len(), 2);
    assert_eq!(r.tool_usage[0].tool_name, "a");
    assert_eq!(r.tool_usage[0].call_count, 2);
    assert_eq!(r.tool_usage[1].tool_name, "b");
    assert_eq!(r.tool_usage[1].call_count, 1);
    assert_eq!(r.tool_usage[0].total_duration_ms, 0);
    assert_eq!(r.tool_usage[0].avg_duration_ms, 0);
}

#[test]
fn success_rate_is_exact_in_tenths_of_a_percent() {
    let mut t = UsageTracker::new();
    t.record("a", true, 1);
    t.record("a", true, 2);
    t.record("a", false, 3);
    let r = t.get_summary();
    // 2 of 3 successful: 66.6% rounded down.
    assert_eq!(r.success_rate_tenths, 666);
    assert_eq!(
        r.summary,
        "Usage Statistics - Total: 3 - Success: 2 - Failed: 1 - Rate: 66.6%"
    );
}

#[test]
fn zero_calls_report_zero_rate() {
    let t = UsageTracker::new();
    let r = t.get_summary();
    assert_eq!(r.total_calls, 0);
    assert_eq!(r.success_rate_tenths, 0);
    assert_eq!(r.session_duration_ms, 0);
    assert_eq!(r.tools_used, 0);
    assert!(r.tool_usage.is_empty());
    assert_eq!(
        r.summary,
        "Usage Statistics - Total: 0 - Success: 0 - Failed: 0 - Rate: 0.0%"
    );
}

#[test]
fn session_duration_spans_first_to_last_timestamp() {
    let mut t = UsageTracker::new();
    t.record("a", true, 100);
    t.record("b", true, 50);
    t.record("c", false, 300);
    let r = t.get_summary();
    // first_used becomes 50, last_used 300.
    assert_eq!(r.session_duration_ms, 250);
}

#[test]
fn all_successful_is_one_hundred_percent() {
    let mut t = UsageTracker::new();
    t.record("a", true, 1);
    t.record("b", true, 2);
    let r = t.get_summary();
    assert_eq!(r.success_rate_tenths, 1000);
    assert_eq!(
        r.summary,
        "Usage Statistics - Total: 2 - Success: 2 - Failed: 0 - Rate: 100.0%"
    );
}

#[test]
fn stats_tool_reports_its_tracker() {
    let mut t = UsageTracker::new();
    t.record("grep", true, 10);
    t.record("grep", false, 20);
    let tool = GetUsageStatsTool::new(t);
    assert_eq!(tool.name(), "get_usage_stats");
    assert!(tool.read_only());
    assert!(!tool.destructive());
    assert!(tool.idempotent());
    assert!(!tool.open_world());
    let r = tool.run();
    assert!(r.success);
    assert_eq!(r.total_calls, 2);
    assert_eq!(r.successful_calls, 1);
    assert_eq!(r.failed_calls, 1);
    assert_eq!(r.success_rate_tenths, 500);
    assert_eq!(r.session_duration_ms, 10);
}
