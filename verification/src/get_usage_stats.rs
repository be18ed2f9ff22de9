use vstd::prelude::*;

use crate::usage::{UsageReport, UsageTracker};

verus! {

/// Reports this process's own usage counters.
#[derive(Clone)]
pub struct GetUsageStatsTool {
    usage_tracker: UsageTracker,
}

impl GetUsageStatsTool {
    /// The tracker whose counters this tool reports.
    pub closed spec fn tracker(self) -> UsageTracker {
        self.usage_tracker
    }

    pub open spec fn wf(self) -> bool {
        self.tracker().wf()
    }

    pub fn new(usage_tracker: UsageTracker) -> (t: Self)
        ensures
            t.tracker() == usage_tracker,
    {
        Self { usage_tracker }
    }

    pub fn name(&self) -> (s: &'static str)
        ensures
            s@ == "get_usage_stats"@,
    {
        "get_usage_stats"
    }

    /// What the tool tells clients about itself.
    pub fn description(&self) -> &'static str {
        "Get usage statistics for debugging and analysis: a summary of tool \
         usage, success and failure rates, and performance metrics."
    }

    pub fn read_only(&self) -> (b: bool)
        ensures
            b,
    {
        true
    }

    pub fn destructive(&self) -> (b: bool)
        ensures
            !b,
    {
        false
    }

    pub fn idempotent(&self) -> (b: bool)
        ensures
            b,
    {
        true
    }

    pub fn open_world(&self) -> (b: bool)
        ensures
            !b,
    {
        false
    }

    /// The tracker's structured summary (see `UsageTracker::get_summary`).
    pub fn run(&self) -> (r: UsageReport)
        requires
            self.wf(),
        ensures
            r.success == true,
            r.total_calls == self.tracker().stats().total_tool_calls,
            r.successful_calls == self.tracker().stats().successful_calls,
            r.failed_calls == self.tracker().stats().failed_calls,
            r.success_rate_tenths == crate::usage::spec_rate_tenths(
                self.tracker().stats().successful_calls,
                self.tracker().stats().total_tool_calls,
            ),
            r.tools_used == self.tracker().stats().tool_counts@.len(),
            r.tool_usage@.len() == self.tracker().stats().tool_counts@.len(),
            forall|i: int|
                0 <= i < r.tool_usage@.len() ==> (#[trigger] r.tool_usage@[i]).tool_name
                    == self.tracker().stats().tool_counts@[i].0 && r.tool_usage@[i].call_count
                    == self.tracker().stats().tool_counts@[i].1
                    && r.tool_usage@[i].total_duration_ms == 0
                    && r.tool_usage@[i].avg_duration_ms == 0,
            r.session_duration_ms == self.tracker().stats().last_used - self.tracker().stats().first_used,
            r.summary@ == crate::usage::spec_usage_summary(
                self.tracker().stats().total_tool_calls,
                self.tracker().stats().successful_calls,
                self.tracker().stats().failed_calls,
            ),
    {
        self.usage_tracker.get_summary()
    }
}

} // verus!
