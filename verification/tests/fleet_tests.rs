use introspection::inspect_usage_stats::{InspectUsageStatsTool, ServerUsage};
use introspection::usage::UsageStats;

fn stats(total: u64, ok: u64, tools: &[(&str, u64)], first: u64, last: u64) -> UsageStats {
    UsageStats {
        total_tool_calls: total,
        successful_calls: ok,
        failed_calls: total - ok,
        tool_counts: tools.iter().map(|(n, c)| (String::from(*n), *c)).collect(),
        first_used: first,
        last_used: last,
    }
}

fn available(name: &str, st: UsageStats) -> ServerUsage {
    ServerUsage { server_name: String::from(name), available: true, stats: st, error: None }
}

fn unavailable(name: &str, err: &str) -> ServerUsage {
    ServerUsage {
        server_name: String::from(name),
        available: false,
        stats: stats(0, 0, &[], 0, 0),
        error: Some(String::from(err)),
    }
}

#[test]
fn one_failed_target_is_reported_and_excluded_from_totals() {
    // Three remote targets, one unavailable: the snapshot marks it and the
    // totals equal the sum over the other two only.
    let tool = InspectUsageStatsTool::new();
    let servers = vec![
        available("alpha", stats(10, 8, &[("read", 6), ("write", 4)], 100, 400)),
        unavailable("beta", "connection refused"),
        available("gamma", stats(5, 5, &[("read", 5)], 200, 900)),
    ];
    let out = tool.run(&servers);
    assert!(out.report.success);
    assert_eq!(out.report.total_calls, 15);
    assert_eq!(out.report.successful_calls, 13);
    assert_eq!(out.report.failed_calls, 2);
    assert_eq!(out.servers.len(), 3);
    assert_eq!(out.servers[0].server_name, "alpha");
    assert!(out.servers[0].available);
    assert_eq!(out.servers[0].error, None);
    assert_eq!(out.servers[1].server_name, "beta");
    assert!(!out.servers[1].available);
    assert_eq!(out.servers[1].error, Some(String::from("connection refused")));
    assert!(out.servers[2].available);
    // Session duration is the longest per-process duration, not a sum.
    assert_eq!(out.report.session_duration_ms, 700);
}

#[test]
fn per_tool_counts_merge_by_name() {
    let tool = InspectUsageStatsTool::new();
    let servers = vec![
        available("one", stats(5, 5, &[("read", 3), ("list", 2)], 0, 0)),
        available("two", stats(4, 2, &[("read", 1), ("grep", 3)], 0, 0)),
    ];
    let out = tool.run(&servers);
    assert_eq!(out.report.tools_used, 3);
    assert_eq!(out.report.tool_usage.len(), 3);
    assert_eq!(out.report.tool_usage[0].tool_name, "read");
    assert_eq!(out.report.tool_usage[0].call_count, 4);
    assert_eq!(out.report.tool_usage[1].tool_name, "list");
    assert_eq!(out.report.tool_usage[1].call_count, 2);
    assert_eq!(out.report.tool_usage[2].tool_name, "grep");
    assert_eq!(out.report.tool_usage[2].call_count, 3);
    // The merged per-tool counts sum to the fleet total.
    let per_tool_sum: u64 = out.report.tool_usage.iter().map(|r| r.call_count).sum();
    assert_eq!(per_tool_sum, out.report.total_calls);
}

#[test]
fn no_servers_yields_the_zero_report() {
    let tool = InspectUsageStatsTool::new();
    let out = tool.run(&vec![]);
    assert_eq!(out.report.total_calls, 0);
    assert_eq!(out.report.successful_calls, 0);
    assert_eq!(out.report.failed_calls, 0);
    assert_eq!(out.report.success_rate_tenths, 0);
    assert_eq!(out.report.session_duration_ms, 0);
    assert_eq!(out.report.tools_used, 0);
    assert!(out.servers.is_empty());
    assert_eq!(
        out.report.summary,
        "Usage Statistics - Total: 0 - Success: 0 - Failed: 0 - Rate: 0.0%"
    );
}

#[test]
fn all_unavailable_counts_nothing() {
    let tool = InspectUsageStatsTool::new();
    let servers = vec![unavailable("a", "timeout"), unavailable("b", "refused")];
    let out = tool.run(&servers);
    assert_eq!(out.report.total_calls, 0);
    assert_eq!(out.servers.len(), 2);
    assert!(!out.servers[0].available);
    assert!(!out.servers[1].available);
}

#[test]
fn aggregate_rate_and_summary_come_from_the_folded_totals() {
    let tool = InspectUsageStatsTool::new();
    let servers = vec![
        available("one", stats(3, 1, &[("a", 3)], 0, 10)),
        available("two", stats(1, 0, &[("a", 1)], 5, 6)),
    ];
    let out = tool.run(&servers);
    assert_eq!(out.report.total_calls, 4);
    assert_eq!(out.report.successful_calls, 1);
    // 1 of 4: 25.0%.
    assert_eq!(out.report.success_rate_tenths, 250);
    assert_eq!(
        out.report.summary,
        "Usage Statistics - Total: 4 - Success: 1 - Failed: 3 - Rate: 25.0%"
    );
    assert_eq!(out.report.session_duration_ms, 10);
    assert_eq!(tool.name(), "inspect_usage_stats");
}
