use vstd::prelude::*;

use crate::usage::{
    counts_sum, counts_view, format_usage_summary, rate_tenths, spec_rate_tenths,
    spec_usage_summary, ToolUsageStats, UsageReport, UsageStats,
};

verus! {

/// One fleet member's answer: its counters when `available`, otherwise the
/// error that made it unavailable.
#[derive(Debug)]
pub struct ServerUsage {
    pub server_name: String,
    pub available: bool,
    pub stats: UsageStats,
    pub error: Option<String>,
}

/// Availability of one fleet member as the snapshot reports it.
#[derive(Debug)]
pub struct ServerStatus {
    pub server_name: String,
    pub available: bool,
    pub error: Option<String>,
}

/// The fleet snapshot: the aggregate report over the available members plus
/// each member's availability. Unavailable members are reported but never
/// folded into the totals.
#[derive(Debug)]
pub struct FleetUsage {
    pub report: UsageReport,
    pub servers: Vec<ServerStatus>,
}

/// `x` clamped from above into `u64` range (additions saturate).
pub open spec fn sat64(x: int) -> int {
    if x > u64::MAX {
        u64::MAX as int
    } else {
        x
    }
}

/// The sum of `f` of the counters over the available members.
pub open spec fn sum_avail(svs: Seq<ServerUsage>, f: spec_fn(UsageStats) -> u64) -> int
    decreases svs.len(),
{
    if svs.len() == 0 {
        0
    } else {
        sum_avail(svs.drop_last(), f) + if svs.last().available {
            f(svs.last().stats) as int
        } else {
            0
        }
    }
}

/// Total calls over the available members.
pub open spec fn sum_total(svs: Seq<ServerUsage>) -> int {
    sum_avail(svs, |s: UsageStats| s.total_tool_calls)
}

/// Successful calls over the available members.
pub open spec fn sum_successful(svs: Seq<ServerUsage>) -> int {
    sum_avail(svs, |s: UsageStats| s.successful_calls)
}

/// Failed calls over the available members.
pub open spec fn sum_failed(svs: Seq<ServerUsage>) -> int {
    sum_avail(svs, |s: UsageStats| s.failed_calls)
}

/// A member's session duration: `last_used - first_used`, clamped
/// non-negative.
pub open spec fn spec_duration(s: UsageStats) -> int {
    if s.last_used >= s.first_used {
        s.last_used - s.first_used
    } else {
        0
    }
}

/// The longest session among the available members (a maximum, not a sum).
pub open spec fn max_session(svs: Seq<ServerUsage>) -> int
    decreases svs.len(),
{
    if svs.len() == 0 {
        0
    } else {
        let rest = max_session(svs.drop_last());
        if svs.last().available && spec_duration(svs.last().stats) > rest {
            spec_duration(svs.last().stats)
        } else {
            rest
        }
    }
}

/// `s` with `count` added (saturating) to the first entry keyed `name`, or
/// a fresh entry appended at the end.
pub open spec fn add_count(s: Seq<(Seq<char>, u64)>, name: Seq<char>, count: u64) -> Seq<
    (Seq<char>, u64),
>
    decreases s.len(),
{
    if s.len() == 0 {
        seq![(name, count)]
    } else if s[0].0 == name {
        seq![(s[0].0, sat64(s[0].1 + count) as u64)] + s.drop_first()
    } else {
        seq![s[0]] + add_count(s.drop_first(), name, count)
    }
}

/// `acc` after merging in all of `pairs`, in order.
pub open spec fn merge_counts(
    acc: Seq<(Seq<char>, u64)>,
    pairs: Seq<(Seq<char>, u64)>,
) -> Seq<(Seq<char>, u64)>
    decreases pairs.len(),
{
    if pairs.len() == 0 {
        acc
    } else {
        add_count(merge_counts(acc, pairs.drop_last()), pairs.last().0, pairs.last().1)
    }
}

/// The per-tool counts merged across the available members, in first-seen
/// order, matching keys summed.
pub open spec fn merged_counts(svs: Seq<ServerUsage>) -> Seq<(Seq<char>, u64)>
    decreases svs.len(),
{
    if svs.len() == 0 {
        Seq::empty()
    } else {
        let rest = merged_counts(svs.drop_last());
        if svs.last().available {
            merge_counts(rest, counts_view(svs.last().stats.tool_counts@))
        } else {
            rest
        }
    }
}

/// Every member's counters are internally consistent: successes and
/// failures sum to its total.
pub open spec fn servers_consistent(svs: Seq<ServerUsage>) -> bool {
    forall|i: int|
        0 <= i < svs.len() && (#[trigger] svs[i]).available ==> svs[i].stats.successful_calls
            + svs[i].stats.failed_calls == svs[i].stats.total_tool_calls
}

/// For consistent members the component sums stay below the total sum, and
/// all sums are non-negative.
pub proof fn lemma_sums_bounded(svs: Seq<ServerUsage>)
    requires
        servers_consistent(svs),
    ensures
        0 <= sum_successful(svs) <= sum_total(svs),
        0 <= sum_failed(svs) <= sum_total(svs),
    decreases svs.len(),
{
    if svs.len() > 0 {
        let head = svs.drop_last();
        assert(servers_consistent(head)) by {
            assert(forall|i: int| 0 <= i < head.len() ==> head[i] == svs[i]);
        }
        lemma_sums_bounded(head);
    }
}

/// Every available member's per-tool counts sum to its own total: the
/// per-process counter invariant, seen from the fleet.
pub open spec fn servers_counts_consistent(svs: Seq<ServerUsage>) -> bool {
    forall|i: int|
        0 <= i < svs.len() && (#[trigger] svs[i]).available ==> counts_sum(
            counts_view(svs[i].stats.tool_counts@),
        ) == svs[i].stats.total_tool_calls
}

proof fn lemma_sum_total_nonneg(svs: Seq<ServerUsage>)
    ensures
        sum_total(svs) >= 0,
    decreases svs.len(),
{
    if svs.len() > 0 {
        lemma_sum_total_nonneg(svs.drop_last());
    }
}

proof fn lemma_counts_sum_cons(x: (Seq<char>, u64), t: Seq<(Seq<char>, u64)>)
    ensures
        counts_sum(seq![x] + t) == x.1 + counts_sum(t),
    decreases t.len(),
{
    if t.len() == 0 {
        assert(seq![x] + t =~= seq![x]);
        assert(seq![x].drop_last() =~= Seq::<(Seq<char>, u64)>::empty());
        assert(counts_sum(Seq::<(Seq<char>, u64)>::empty()) == 0);
        assert(counts_sum(seq![x]) == x.1);
    } else {
        assert((seq![x] + t).drop_last() =~= seq![x] + t.drop_last());
        assert((seq![x] + t).last() == t.last());
        lemma_counts_sum_cons(x, t.drop_last());
    }
}

proof fn lemma_add_count_sum(s: Seq<(Seq<char>, u64)>, name: Seq<char>, count: u64)
    requires
        counts_sum(s) + count <= u64::MAX,
    ensures
        counts_sum(add_count(s, name, count)) == counts_sum(s) + count,
    decreases s.len(),
{
    if s.len() == 0 {
        assert(seq![(name, count)].drop_last() =~= Seq::<(Seq<char>, u64)>::empty());
        assert(counts_sum(Seq::<(Seq<char>, u64)>::empty()) == 0);
        assert(counts_sum(seq![(name, count)]) == count);
    } else {
        let rest = s.drop_first();
        assert(s =~= seq![s[0]] + rest);
        lemma_counts_sum_cons(s[0], rest);
        if s[0].0 == name {
            crate::usage::lemma_elem_le_sum(s, 0);
            assert(sat64(s[0].1 + count) == s[0].1 + count);
            lemma_counts_sum_cons((s[0].0, sat64(s[0].1 + count) as u64), rest);
        } else {
            crate::usage::lemma_counts_sum_nonneg(rest);
            lemma_add_count_sum(rest, name, count);
            lemma_counts_sum_cons(s[0], add_count(rest, name, count));
        }
    }
}

proof fn lemma_merge_counts_sum(acc: Seq<(Seq<char>, u64)>, pairs: Seq<(Seq<char>, u64)>)
    requires
        counts_sum(acc) + counts_sum(pairs) <= u64::MAX,
    ensures
        counts_sum(merge_counts(acc, pairs)) == counts_sum(acc) + counts_sum(pairs),
    decreases pairs.len(),
{
    if pairs.len() > 0 {
        let dl = pairs.drop_last();
        lemma_merge_counts_sum(acc, dl);
        lemma_add_count_sum(merge_counts(acc, dl), pairs.last().0, pairs.last().1);
    }
}

/// Fleet counter law: when every available member's per-tool counts sum to
/// its own total (which `UsageTracker::wf` guarantees of counters a tracker
/// produced) and the fleet total fits in `u64`, the merged per-tool counts
/// sum to the fleet total — so in the aggregate report, too, the
/// `tool_usage` counts sum to `total_calls`.
pub proof fn lemma_merged_counts_sum(svs: Seq<ServerUsage>)
    requires
        servers_counts_consistent(svs),
        sum_total(svs) <= u64::MAX,
    ensures
        counts_sum(merged_counts(svs)) == sum_total(svs),
    decreases svs.len(),
{
    if svs.len() > 0 {
        let head = svs.drop_last();
        assert(servers_counts_consistent(head)) by {
            assert(forall|i: int| 0 <= i < head.len() ==> head[i] == svs[i]);
        }
        lemma_sum_total_nonneg(head);
        lemma_merged_counts_sum(head);
        if svs.last().available {
            assert(counts_sum(counts_view(svs.last().stats.tool_counts@)) == svs.last(
            ).stats.total_tool_calls);
            lemma_merge_counts_sum(
                merged_counts(head),
                counts_view(svs.last().stats.tool_counts@),
            );
        }
    }
}

proof fn lemma_sum_avail_unavailable(svs: Seq<ServerUsage>, f: spec_fn(UsageStats) -> u64, i: int)
    requires
        0 <= i < svs.len(),
        !svs[i].available,
    ensures
        sum_avail(svs, f) == sum_avail(svs.remove(i), f),
    decreases svs.len(),
{
    if i == svs.len() - 1 {
        assert(svs.remove(i) =~= svs.drop_last());
    } else {
        let head = svs.drop_last();
        assert(head[i] == svs[i]);
        lemma_sum_avail_unavailable(head, f, i);
        assert(svs.remove(i).drop_last() =~= head.remove(i));
        assert(svs.remove(i).last() == svs.last());
    }
}

/// An unavailable member contributes nothing: dropping it from the input
/// changes neither the totals, nor the merged per-tool counts, nor the
/// fleet session duration. Together with the postconditions of `run`, a
/// single unreachable process is reported but never aborts or skews the
/// aggregation.
pub proof fn lemma_unavailable_excluded(svs: Seq<ServerUsage>, i: int)
    requires
        0 <= i < svs.len(),
        !svs[i].available,
    ensures
        sum_total(svs) == sum_total(svs.remove(i)),
        sum_successful(svs) == sum_successful(svs.remove(i)),
        sum_failed(svs) == sum_failed(svs.remove(i)),
        max_session(svs) == max_session(svs.remove(i)),
        merged_counts(svs) == merged_counts(svs.remove(i)),
    decreases svs.len(),
{
    lemma_sum_avail_unavailable(svs, |s: UsageStats| s.total_tool_calls, i);
    lemma_sum_avail_unavailable(svs, |s: UsageStats| s.successful_calls, i);
    lemma_sum_avail_unavailable(svs, |s: UsageStats| s.failed_calls, i);
    if i == svs.len() - 1 {
        assert(svs.remove(i) =~= svs.drop_last());
    } else {
        let head = svs.drop_last();
        assert(head[i] == svs[i]);
        lemma_unavailable_excluded(head, i);
        assert(svs.remove(i).drop_last() =~= head.remove(i));
        assert(svs.remove(i).last() == svs.last());
    }
}

proof fn lemma_add_count_no_match(s: Seq<(Seq<char>, u64)>, name: Seq<char>, count: u64)
    requires
        forall|i: int| 0 <= i < s.len() ==> (#[trigger] s[i]).0 != name,
    ensures
        add_count(s, name, count) == s.push((name, count)),
    decreases s.len(),
{
    if s.len() == 0 {
        assert(add_count(s, name, count) =~= s.push((name, count)));
    } else {
        let rest = s.drop_first();
        assert(forall|i: int| 0 <= i < rest.len() ==> (#[trigger] rest[i]).0 != name);
        lemma_add_count_no_match(rest, name, count);
        assert(seq![s[0]] + rest.push((name, count)) =~= s.push((name, count)));
    }
}

proof fn lemma_add_count_match(s: Seq<(Seq<char>, u64)>, name: Seq<char>, count: u64, idx: int)
    requires
        0 <= idx < s.len(),
        s[idx].0 == name,
        forall|i: int| 0 <= i < idx ==> (#[trigger] s[i]).0 != name,
    ensures
        add_count(s, name, count) == s.update(idx, (name, sat64(s[idx].1 + count) as u64)),
    decreases s.len(),
{
    if idx == 0 {
        assert(seq![(s[0].0, sat64(s[0].1 + count) as u64)] + s.drop_first() =~= s.update(
            0,
            (name, sat64(s[0].1 + count) as u64),
        ));
    } else {
        let rest = s.drop_first();
        assert(forall|i: int| 0 <= i < idx - 1 ==> (#[trigger] rest[i]).0 != name);
        lemma_add_count_match(rest, name, count, idx - 1);
        assert(seq![s[0]] + rest.update(idx - 1, (name, sat64(rest[idx - 1].1 + count) as u64))
            =~= s.update(idx, (name, sat64(s[idx].1 + count) as u64)));
    }
}

fn sat_add(a: u64, b: u64) -> (r: u64)
    ensures
        r as int == sat64(a + b),
{
    if b > u64::MAX - a {
        u64::MAX
    } else {
        a + b
    }
}

fn add_count_exec(acc: Vec<(String, u64)>, name: &String, count: u64) -> (r: Vec<(String, u64)>)
    ensures
        counts_view(r@) == add_count(counts_view(acc@), name@, count),
{
    let ghost v = counts_view(acc@);
    let mut out: Vec<(String, u64)> = Vec::new();
    let mut found = false;
    let ghost mut midx: int = 0int;
    let mut i: usize = 0;
    while i < acc.len()
        invariant
            0 <= i <= acc@.len(),
            v == counts_view(acc@),
            !found ==> counts_view(out@) == counts_view(acc@.take(i as int)) && (forall|k: int|
                0 <= k < i ==> (#[trigger] v[k]).0 != name@),
            found ==> 0 <= midx < i && v[midx].0 == name@ && (forall|k: int|
                0 <= k < midx ==> (#[trigger] v[k]).0 != name@) && counts_view(out@)
                == counts_view(acc@.take(i as int)).update(
                midx,
                (name@, sat64(v[midx].1 + count) as u64),
            ),
        decreases acc@.len() - i,
    {
        let ghost prev_out = out@;
        let cur_count = acc[i].1;
        let is_match = !found && acc[i].0 == *name;
        if is_match {
            let bumped = sat_add(cur_count, count);
            out.push((acc[i].0.clone(), bumped));
            found = true;
            proof {
                midx = i as int;
            }
        } else {
            out.push((acc[i].0.clone(), cur_count));
        }
        i = i + 1;
        proof {
            let full = acc@;
            assert(full.take(i as int).drop_last() =~= full.take(i as int - 1));
            assert(counts_view(full.take(i as int)) =~= counts_view(full.take(i as int - 1)).push(
                v[i as int - 1],
            ));
            if is_match {
                assert(counts_view(out@) =~= counts_view(full.take(i as int)).update(
                    midx,
                    (name@, sat64(v[midx].1 + count) as u64),
                ));
            } else if found {
                let a = counts_view(full.take(i as int - 1));
                let x = (name@, sat64(v[midx].1 + count) as u64);
                assert(counts_view(prev_out) == a.update(midx, x));
                assert(counts_view(out@) =~= counts_view(prev_out).push(v[i as int - 1]));
                assert(a.update(midx, x).push(v[i as int - 1]) =~= a.push(
                    v[i as int - 1],
                ).update(midx, x));
                assert(counts_view(full.take(i as int)) == a.push(v[i as int - 1]));
                assert(counts_view(out@) =~= counts_view(full.take(i as int)).update(midx, x));
            } else {
                assert(counts_view(out@) =~= counts_view(full.take(i as int)));
            }
        }
    }
    proof {
        assert(acc@.take(acc@.len() as int) =~= acc@);
    }
    if !found {
        out.push((name.clone(), count));
        proof {
            lemma_add_count_no_match(v, name@, count);
            assert(counts_view(out@) =~= v.push((name@, count)));
        }
    } else {
        proof {
            lemma_add_count_match(v, name@, count, midx);
        }
    }
    proof {
        assert(counts_view(out@) == add_count(v, name@, count));
    }
    out
}

/// Aggregates usage counters handed over by the transport layer across all
/// backend processes.
#[derive(Clone, Default)]
pub struct InspectUsageStatsTool;

impl InspectUsageStatsTool {
    pub fn new() -> (t: Self)
        ensures
            t == (InspectUsageStatsTool {}),
    {
        Self {  }
    }

    pub fn name(&self) -> (s: &'static str)
        ensures
            s@ == "inspect_usage_stats"@,
    {
        "inspect_usage_stats"
    }

    /// What the tool tells clients about itself.
    pub fn description(&self) -> &'static str {
        "Get aggregated usage statistics for tool calls across all backend \
         servers: total calls, success rates, per-tool counts, and session \
         duration. Unreachable servers are reported and excluded from the \
         totals."
    }

    pub fn read_only(&self) -> (b: bool)
        ensures
            b,
    {
        true
    }

    pub fn destructive(&self) -> (b: bool)
        ensures
            !b,
    {
        false
    }

    pub fn idempotent(&self) -> (b: bool)
        ensures
            b,
    {
        true
    }

    pub fn open_world(&self) -> (b: bool)
        ensures
            !b,
    {
        false
    }

    /// Fold the counters of the available members into fleet-wide totals
    /// (saturating sums), merge their per-tool counts, take the longest
    /// session, and report every member's availability. A single
    /// unavailable member never aborts the aggregation: it is marked and
    /// excluded from the totals.
    pub fn run(&self, servers: &Vec<ServerUsage>) -> (out: FleetUsage)
        requires
            servers_consistent(servers@),
        ensures
            out.report.success == true,
            out.report.total_calls as int == sat64(sum_total(servers@)),
            out.report.successful_calls as int == sat64(sum_successful(servers@)),
            out.report.failed_calls as int == sat64(sum_failed(servers@)),
            out.report.success_rate_tenths == spec_rate_tenths(
                out.report.successful_calls,
                out.report.total_calls,
            ),
            out.report.session_duration_ms as int == max_session(servers@),
            out.report.tools_used == merged_counts(servers@).len(),
            out.report.tool_usage@.len() == merged_counts(servers@).len(),
            forall|i: int|
                0 <= i < out.report.tool_usage@.len() ==> (
                #[trigger] out.report.tool_usage@[i]).tool_name@ == merged_counts(servers@)[i].0
                    && out.report.tool_usage@[i].call_count == merged_counts(servers@)[i].1
                    && out.report.tool_usage@[i].total_duration_ms == 0
                    && out.report.tool_usage@[i].avg_duration_ms == 0,
            out.report.summary@ == spec_usage_summary(
                out.report.total_calls,
                out.report.successful_calls,
                out.report.failed_calls,
            ),
            out.servers@.len() == servers@.len(),
            forall|i: int|
                0 <= i < servers@.len() ==> (#[trigger] out.servers@[i]).server_name
                    == servers@[i].server_name && out.servers@[i].available
                    == servers@[i].available && out.servers@[i].error == servers@[i].error,
    {
        let mut total: u64 = 0;
        let mut successful: u64 = 0;
        let mut failed: u64 = 0;
        let mut session: u64 = 0;
        let mut merged: Vec<(String, u64)> = Vec::new();
        let mut statuses: Vec<ServerStatus> = Vec::new();
        let mut i: usize = 0;
        while i < servers.len()
            invariant
                0 <= i <= servers@.len(),
                servers_consistent(servers@),
                total as int == sat64(sum_total(servers@.take(i as int))),
                successful as int == sat64(sum_successful(servers@.take(i as int))),
                failed as int == sat64(sum_failed(servers@.take(i as int))),
                session as int == max_session(servers@.take(i as int)),
                counts_view(merged@) == merged_counts(servers@.take(i as int)),
                statuses@.len() == i,
                forall|k: int|
                    0 <= k < i ==> (#[trigger] statuses@[k]).server_name
                        == servers@[k].server_name && statuses@[k].available
                        == servers@[k].available && statuses@[k].error == servers@[k].error,
            decreases servers@.len() - i,
        {
            let ghost pre = servers@.take(i as int);
            let error: Option<String> = match &servers[i].error {
                None => None,
                Some(e) => Some(e.clone()),
            };
            statuses.push(
                ServerStatus {
                    server_name: servers[i].server_name.clone(),
                    available: servers[i].available,
                    error,
                },
            );
            if servers[i].available {
                proof {
                    lemma_sums_bounded(pre);
                }
                total = sat_add(total, servers[i].stats.total_tool_calls);
                successful = sat_add(successful, servers[i].stats.successful_calls);
                failed = sat_add(failed, servers[i].stats.failed_calls);
                let d: u64 = if servers[i].stats.last_used >= servers[i].stats.first_used {
                    servers[i].stats.last_used - servers[i].stats.first_used
                } else {
                    0
                };
                if d > session {
                    session = d;
                }
                let ghost base = merged_counts(pre);
                let counts = &servers[i].stats.tool_counts;
                let mut j: usize = 0;
                while j < counts.len()
                    invariant
                        0 <= j <= counts@.len(),
                        counts == &servers@[pre.len() as int].stats.tool_counts,
                        pre.len() < servers@.len(),
                        base == merged_counts(pre),
                        counts_view(merged@) == merge_counts(
                            base,
                            counts_view(counts@.take(j as int)),
                        ),
                    decreases counts@.len() - j,
                {
                    let ghost before = counts_view(merged@);
                    merged = add_count_exec(merged, &counts[j].0, counts[j].1);
                    j = j + 1;
                    proof {
                        let cv = counts_view(counts@.take(j as int));
                        assert(counts@.take(j as int).drop_last() =~= counts@.take(j as int - 1));
                        assert(cv.drop_last() =~= counts_view(counts@.take(j as int - 1)));
                        assert(cv.last() == (counts@[j as int - 1].0@, counts@[j as int - 1].1));
                        assert(counts_view(merged@) == add_count(
                            before,
                            counts@[j as int - 1].0@,
                            counts@[j as int - 1].1,
                        ));
                        assert(counts_view(merged@) == merge_counts(base, cv));
                    }
                }
                proof {
                    assert(counts@.take(counts@.len() as int) =~= counts@);
                }
            }
            i = i + 1;
            proof {
                let cur = servers@.take(i as int);
                assert(cur.drop_last() =~= pre);
                assert(cur.last() == servers@[i as int - 1]);
                assert(sum_total(cur) == sum_total(pre) + (if servers@[i as int - 1].available {
                    servers@[i as int - 1].stats.total_tool_calls as int
                } else {
                    0int
                }));
                assert(sum_successful(cur) == sum_successful(pre) + (if servers@[i as int
                    - 1].available {
                    servers@[i as int - 1].stats.successful_calls as int
                } else {
                    0int
                }));
                assert(sum_failed(cur) == sum_failed(pre) + (if servers@[i as int - 1].available {
                    servers@[i as int - 1].stats.failed_calls as int
                } else {
                    0int
                }));
                lemma_sums_bounded(pre);
                lemma_sums_bounded(cur);
            }
        }
        proof {
            assert(servers@.take(servers@.len() as int) =~= servers@);
            lemma_sums_bounded(servers@);
        }
        let mut rows: Vec<ToolUsageStats> = Vec::new();
        let mut k: usize = 0;
        while k < merged.len()
            invariant
                0 <= k <= merged@.len(),
                counts_view(merged@) == merged_counts(servers@),
                rows@.len() == k,
                forall|t: int|
                    0 <= t < k ==> (#[trigger] rows@[t]).tool_name == merged@[t].0
                        && rows@[t].call_count == merged@[t].1 && rows@[t].total_duration_ms == 0
                        && rows@[t].avg_duration_ms == 0,
            decreases merged@.len() - k,
        {
            rows.push(
                ToolUsageStats {
                    tool_name: merged[k].0.clone(),
                    call_count: merged[k].1,
                    total_duration_ms: 0,
                    avg_duration_ms: 0,
                },
            );
            k = k + 1;
        }
        let rate = rate_tenths(successful, total);
        let summary = format_usage_summary(total, successful, failed);
        let tools_used = rows.len();
        FleetUsage {
            report: UsageReport {
                success: true,
                total_calls: total,
                successful_calls: successful,
                failed_calls: failed,
                success_rate_tenths: rate,
                tools_used,
                tool_usage: rows,
                session_duration_ms: session,
                summary,
            },
            servers: statuses,
        }
    }
}

} // verus!
