use vstd::prelude::*;

use crate::numfmt::{digit_char, spec_decimal, u64_to_string};

verus! {

/// Aggregate call counters for one process: totals, success/failure split,
/// per-tool counts (keys unique), and the first/latest call timestamps.
#[derive(Clone, Debug)]
pub struct UsageStats {
    pub total_tool_calls: u64,
    pub successful_calls: u64,
    pub failed_calls: u64,
    pub tool_counts: Vec<(String, u64)>,
    pub first_used: u64,
    pub last_used: u64,
}

/// Per-tool usage row of a usage report.
///
/// Durations are tracked by the history store, not by the counters, so both
/// duration fields are reported as zero.
#[derive(Debug)]
pub struct ToolUsageStats {
    pub tool_name: String,
    pub call_count: u64,
    pub total_duration_ms: u64,
    pub avg_duration_ms: u64,
}

/// The structured usage result: totals, rate, per-tool rows, and a short
/// human-readable summary line built from the same numbers.
#[derive(Debug)]
pub struct UsageReport {
    pub success: bool,
    pub total_calls: u64,
    pub successful_calls: u64,
    pub failed_calls: u64,
    pub success_rate_tenths: u64,
    pub tools_used: usize,
    pub tool_usage: Vec<ToolUsageStats>,
    pub session_duration_ms: u64,
    pub summary: String,
}

/// The per-tool counts as plain values: key view and count.
pub open spec fn counts_view(s: Seq<(String, u64)>) -> Seq<(Seq<char>, u64)> {
    s.map_values(|pr: (String, u64)| (pr.0@, pr.1))
}

/// The sum of the per-tool counts.
pub open spec fn counts_sum(s: Seq<(Seq<char>, u64)>) -> int
    decreases s.len(),
{
    if s.len() == 0 {
        0
    } else {
        counts_sum(s.drop_last()) + s.last().1
    }
}

/// No key occurs twice.
pub open spec fn unique_tools(s: Seq<(Seq<char>, u64)>) -> bool {
    forall|i: int, j: int| 0 <= i < j < s.len() ==> (#[trigger] s[i]).0 != (#[trigger] s[j]).0
}

/// `s` with the count of `name` raised by one: the first entry keyed `name`
/// is bumped, or a fresh entry with count 1 is appended at the end.
pub open spec fn bump_count(s: Seq<(Seq<char>, u64)>, name: Seq<char>) -> Seq<(Seq<char>, u64)>
    decreases s.len(),
{
    if s.len() == 0 {
        seq![(name, 1u64)]
    } else if s[0].0 == name {
        seq![(s[0].0, (s[0].1 + 1) as u64)] + s.drop_first()
    } else {
        seq![s[0]] + bump_count(s.drop_first(), name)
    }
}

/// Sums of per-tool counts are never negative.
pub proof fn lemma_counts_sum_nonneg(s: Seq<(Seq<char>, u64)>)
    ensures
        counts_sum(s) >= 0,
    decreases s.len(),
{
    if s.len() > 0 {
        lemma_counts_sum_nonneg(s.drop_last());
    }
}

/// Each count is at most the sum of all counts.
pub proof fn lemma_elem_le_sum(s: Seq<(Seq<char>, u64)>, i: int)
    requires
        0 <= i < s.len(),
    ensures
        s[i].1 <= counts_sum(s),
    decreases s.len(),
{
    if i == s.len() - 1 {
        lemma_counts_sum_nonneg(s.drop_last());
    } else {
        lemma_elem_le_sum(s.drop_last(), i);
    }
}

proof fn lemma_sum_push(s: Seq<(Seq<char>, u64)>, x: (Seq<char>, u64))
    ensures
        counts_sum(s.push(x)) == counts_sum(s) + x.1,
{
    assert(s.push(x).drop_last() =~= s);
}

proof fn lemma_sum_update(s: Seq<(Seq<char>, u64)>, i: int, x: (Seq<char>, u64))
    requires
        0 <= i < s.len(),
    ensures
        counts_sum(s.update(i, x)) == counts_sum(s) - s[i].1 + x.1,
    decreases s.len(),
{
    if i == s.len() - 1 {
        assert(s.update(i, x).drop_last() =~= s.drop_last());
        assert(s.update(i, x).last() == x);
    } else {
        assert(s.update(i, x).drop_last() =~= s.drop_last().update(i, x));
        assert(s.update(i, x).last() == s.last());
        lemma_sum_update(s.drop_last(), i, x);
    }
}

/// When no entry is keyed `name`, bumping appends a fresh entry.
proof fn lemma_bump_no_match(s: Seq<(Seq<char>, u64)>, name: Seq<char>)
    requires
        forall|i: int| 0 <= i < s.len() ==> (#[trigger] s[i]).0 != name,
    ensures
        bump_count(s, name) == s.push((name, 1u64)),
    decreases s.len(),
{
    if s.len() == 0 {
        assert(bump_count(s, name) =~= s.push((name, 1u64)));
    } else {
        let rest = s.drop_first();
        assert(forall|i: int| 0 <= i < rest.len() ==> (#[trigger] rest[i]).0 != name);
        lemma_bump_no_match(rest, name);
        assert(seq![s[0]] + rest.push((name, 1u64)) =~= s.push((name, 1u64)));
    }
}

/// When the first entry keyed `name` stands at `idx`, bumping updates it in
/// place.
proof fn lemma_bump_match(s: Seq<(Seq<char>, u64)>, name: Seq<char>, idx: int)
    requires
        0 <= idx < s.len(),
        s[idx].0 == name,
        forall|i: int| 0 <= i < idx ==> (#[trigger] s[i]).0 != name,
    ensures
        bump_count(s, name) == s.update(idx, (name, (s[idx].1 + 1) as u64)),
    decreases s.len(),
{
    if idx == 0 {
        assert(seq![(s[0].0, (s[0].1 + 1) as u64)] + s.drop_first() =~= s.update(
            0,
            (name, (s[0].1 + 1) as u64),
        ));
    } else {
        let rest = s.drop_first();
        assert(forall|i: int| 0 <= i < idx - 1 ==> (#[trigger] rest[i]).0 != name);
        lemma_bump_match(rest, name, idx - 1);
        assert(seq![s[0]] + rest.update(idx - 1, (name, (rest[idx - 1].1 + 1) as u64)) =~= s.update(
            idx,
            (name, (s[idx].1 + 1) as u64),
        ));
    }
}

/// Success rate in tenths of a percent, rounded down; 0 when no calls were
/// recorded (the "no data" policy, applied consistently to the structured
/// and the human-readable output).
pub open spec fn spec_rate_tenths(successful: u64, total: u64) -> int {
    if total == 0 {
        0
    } else {
        (successful * 1000) / (total as int)
    }
}

/// The rate as text: tenths of a percent rendered as "whole.tenth%".
pub open spec fn spec_rate_string(rate_tenths: int) -> Seq<char> {
    spec_decimal(rate_tenths / 10) + seq!['.', digit_char(rate_tenths % 10), '%']
}

/// The one-line usage summary for the given totals.
pub open spec fn spec_usage_summary(total: u64, successful: u64, failed: u64) -> Seq<char> {
    "Usage Statistics - Total: "@ + spec_decimal(total as int) + " - Success: "@ + spec_decimal(
        successful as int,
    ) + " - Failed: "@ + spec_decimal(failed as int) + " - Rate: "@ + spec_rate_string(
        spec_rate_tenths(successful, total),
    )
}

/// Success rate in tenths of a percent, rounded down; 0 with no calls.
pub fn rate_tenths(successful: u64, total: u64) -> (r: u64)
    requires
        successful <= total,
    ensures
        r == spec_rate_tenths(successful, total),
        r <= 1000,
{
    if total == 0 {
        0
    } else {
        let wide: u128 = (successful as u128) * 1000;
        let q: u128 = wide / (total as u128);
        proof {
            assert(successful * 1000 <= total * 1000) by (nonlinear_arith)
                requires
                    successful <= total,
            ;
            assert(total * 1000 / (total as int) == 1000) by (nonlinear_arith)
                requires
                    total > 0,
            ;
            vstd::arithmetic::div_mod::lemma_div_is_ordered(
                successful * 1000,
                total * 1000,
                total as int,
            );
        }
        q as u64
    }
}

/// Build the one-line usage summary for the given totals.
pub fn format_usage_summary(total: u64, successful: u64, failed: u64) -> (s: String)
    requires
        successful <= total,
    ensures
        s@ == spec_usage_summary(total, successful, failed),
{
    let mut s = String::from_str("Usage Statistics - Total: ");
    s.append(u64_to_string(total).as_str());
    s.append(" - Success: ");
    s.append(u64_to_string(successful).as_str());
    s.append(" - Failed: ");
    s.append(u64_to_string(failed).as_str());
    s.append(" - Rate: ");
    let rt = rate_tenths(successful, total);
    s.append(u64_to_string(rt / 10).as_str());
    s.append(".");
    s.append(crate::numfmt::digit_str(rt % 10));
    s.append("%");
    proof {
        reveal_strlit(".");
        reveal_strlit("%");
        assert("."@ =~= seq!['.']);
        assert("%"@ =~= seq!['%']);
        assert(seq!['.'] + seq![digit_char(rt as int % 10)] + seq!['%'] =~= seq![
            '.',
            digit_char(rt as int % 10),
            '%',
        ]);
        assert(s@ =~= spec_usage_summary(total, successful, failed));
    }
    s
}

/// Process-wide usage counters.
///
/// `new` establishes and `record` preserves the counter invariant `wf`:
/// after any sequence of `record` calls the success and failure counts sum
/// to the total, and the per-tool counts sum to the total.
#[derive(Clone)]
pub struct UsageTracker {
    inner: UsageStats,
}

impl UsageTracker {
    /// The current counters.
    pub closed spec fn stats(self) -> UsageStats {
        self.inner
    }

    /// The counter invariant.
    pub open spec fn wf(self) -> bool {
        &&& self.stats().successful_calls + self.stats().failed_calls == self.stats().total_tool_calls
        &&& counts_sum(counts_view(self.stats().tool_counts@)) == self.stats().total_tool_calls
        &&& unique_tools(counts_view(self.stats().tool_counts@))
        &&& self.stats().first_used <= self.stats().last_used
        &&& (self.stats().total_tool_calls == 0 ==> self.stats().first_used == 0
            && self.stats().last_used == 0 && self.stats().tool_counts@.len() == 0)
    }

    pub fn new() -> (t: UsageTracker)
        ensures
            t.wf(),
            t.stats().total_tool_calls == 0,
            t.stats().successful_calls == 0,
            t.stats().failed_calls == 0,
            t.stats().tool_counts@.len() == 0,
            t.stats().first_used == 0,
            t.stats().last_used == 0,
    {
        UsageTracker {
            inner: UsageStats {
                total_tool_calls: 0,
                successful_calls: 0,
                failed_calls: 0,
                tool_counts: Vec::new(),
                first_used: 0,
                last_used: 0,
            },
        }
    }

    /// Record one completed call: raise the total, the success or failure
    /// count, and the per-tool count of `tool_name`, and widen the
    /// first/last-used window to include `timestamp`.
    pub fn record(&mut self, tool_name: &str, success: bool, timestamp: u64)
        requires
            old(self).wf(),
            old(self).stats().total_tool_calls < u64::MAX,
        ensures
            final(self).wf(),
            final(self).stats().total_tool_calls == old(self).stats().total_tool_calls + 1,
            final(self).stats().successful_calls == old(self).stats().successful_calls + (
            if success {
                1int
            } else {
                0int
            }),
            final(self).stats().failed_calls == old(self).stats().failed_calls + (
            if success {
                0int
            } else {
                1int
            }),
            counts_view(final(self).stats().tool_counts@) == bump_count(
                counts_view(old(self).stats().tool_counts@),
                tool_name@,
            ),
            final(self).stats().first_used == (if old(self).stats().total_tool_calls == 0 {
                timestamp
            } else if timestamp < old(self).stats().first_used {
                timestamp
            } else {
                old(self).stats().first_used
            }),
            final(self).stats().last_used == (if old(self).stats().total_tool_calls == 0 {
                timestamp
            } else if timestamp > old(self).stats().last_used {
                timestamp
            } else {
                old(self).stats().last_used
            }),
    {
        let ghost v = counts_view(self.inner.tool_counts@);
        let name_owned = String::from_str(tool_name);
        let mut out: Vec<(String, u64)> = Vec::new();
        let mut found = false;
        let ghost mut midx: int = 0int;
        let mut i: usize = 0;
        while i < self.inner.tool_counts.len()
            invariant
                0 <= i <= self.inner.tool_counts@.len(),
                v == counts_view(self.inner.tool_counts@),
                counts_sum(v) == old(self).stats().total_tool_calls,
                old(self).stats().total_tool_calls < u64::MAX,
                name_owned@ == tool_name@,
                !found ==> counts_view(out@) == counts_view(
                    self.inner.tool_counts@.take(i as int),
                ) && (forall|k: int| 0 <= k < i ==> (#[trigger] v[k]).0 != tool_name@),
                found ==> 0 <= midx < i && v[midx].0 == tool_name@ && (forall|k: int|
                    0 <= k < midx ==> (#[trigger] v[k]).0 != tool_name@) && counts_view(out@)
                    == counts_view(self.inner.tool_counts@.take(i as int)).update(
                    midx,
                    (tool_name@, (v[midx].1 + 1) as u64),
                ),
            decreases self.inner.tool_counts@.len() - i,
        {
            let ghost prev_out = out@;
            let cur_count = self.inner.tool_counts[i].1;
            let is_match = !found && self.inner.tool_counts[i].0 == name_owned;
            if is_match {
                proof {
                    assert(v[i as int] == (self.inner.tool_counts@[i as int].0@, cur_count));
                    lemma_elem_le_sum(v, i as int);
                }
                out.push((self.inner.tool_counts[i].0.clone(), cur_count + 1));
                found = true;
                proof {
                    midx = i as int;
                }
            } else {
                out.push((self.inner.tool_counts[i].0.clone(), cur_count));
            }
            i = i + 1;
            proof {
                let full = self.inner.tool_counts@;
                assert(full.take(i as int).drop_last() =~= full.take(i as int - 1));
                assert(counts_view(full.take(i as int)) =~= counts_view(
                    full.take(i as int - 1),
                ).push(v[i as int - 1]));
                if is_match {
                    assert(counts_view(out@) =~= counts_view(full.take(i as int)).update(
                        midx,
                        (tool_name@, (v[midx].1 + 1) as u64),
                    ));
                } else if found {
                    let a = counts_view(full.take(i as int - 1));
                    let x = (tool_name@, (v[midx].1 + 1) as u64);
                    assert(counts_view(prev_out) == a.update(midx, x));
                    assert(out@ == prev_out.push((full[i as int - 1].0, cur_count)));
                    assert(counts_view(out@) =~= counts_view(prev_out).push(v[i as int - 1]));
                    assert(a.update(midx, x).push(v[i as int - 1]) =~= a.push(
                        v[i as int - 1],
                    ).update(midx, x));
                    assert(counts_view(full.take(i as int)) == a.push(v[i as int - 1]));
                    assert(counts_view(out@) =~= counts_view(full.take(i as int)).update(
                        midx,
                        (tool_name@, (v[midx].1 + 1) as u64),
                    ));
                } else {
                    assert(counts_view(out@) =~= counts_view(full.take(i as int)));
                }
            }
        }
        proof {
            assert(self.inner.tool_counts@.take(self.inner.tool_counts@.len() as int)
                =~= self.inner.tool_counts@);
        }
        if !found {
            out.push((String::from_str(tool_name), 1));
            proof {
                lemma_bump_no_match(v, tool_name@);
                assert(counts_view(out@) =~= v.push((tool_name@, 1u64)));
                lemma_sum_push(v, (tool_name@, 1u64));
            }
        } else {
            proof {
                lemma_bump_match(v, tool_name@, midx);
                lemma_elem_le_sum(v, midx);
                lemma_sum_update(v, midx, (tool_name@, (v[midx].1 + 1) as u64));
            }
        }
        proof {
            assert(counts_view(out@) == bump_count(v, tool_name@));
            assert(counts_sum(counts_view(out@)) == counts_sum(v) + 1);
            if found {
                let b = counts_view(out@);
                assert forall|x: int, y: int| 0 <= x < y < b.len() implies (#[trigger] b[x]).0 != (
                #[trigger] b[y]).0 by {
                    assert(b[x].0 == v[x].0);
                    assert(b[y].0 == v[y].0);
                }
            }
        }
        self.inner.tool_counts = out;
        if self.inner.total_tool_calls == 0 {
            self.inner.first_used = timestamp;
            self.inner.last_used = timestamp;
        } else {
            if timestamp < self.inner.first_used {
                self.inner.first_used = timestamp;
            }
            if timestamp > self.inner.last_used {
                self.inner.last_used = timestamp;
            }
        }
        self.inner.total_tool_calls = self.inner.total_tool_calls + 1;
        if success {
            self.inner.successful_calls = self.inner.successful_calls + 1;
        } else {
            self.inner.failed_calls = self.inner.failed_calls + 1;
        }
    }

    /// The structured counters with the derived rate, the session duration
    /// (`last_used - first_used`, clamped non-negative), and the summary
    /// line built from the same numbers.
    pub fn get_summary(&self) -> (r: UsageReport)
        requires
            self.wf(),
        ensures
            r.success == true,
            r.total_calls == self.stats().total_tool_calls,
            r.successful_calls == self.stats().successful_calls,
            r.failed_calls == self.stats().failed_calls,
            r.success_rate_tenths == spec_rate_tenths(
                self.stats().successful_calls,
                self.stats().total_tool_calls,
            ),
            r.tools_used == self.stats().tool_counts@.len(),
            r.tool_usage@.len() == self.stats().tool_counts@.len(),
            forall|i: int|
                0 <= i < r.tool_usage@.len() ==> (#[trigger] r.tool_usage@[i]).tool_name
                    == self.stats().tool_counts@[i].0 && r.tool_usage@[i].call_count
                    == self.stats().tool_counts@[i].1 && r.tool_usage@[i].total_duration_ms == 0
                    && r.tool_usage@[i].avg_duration_ms == 0,
            r.session_duration_ms == self.stats().last_used - self.stats().first_used,
            r.summary@ == spec_usage_summary(
                self.stats().total_tool_calls,
                self.stats().successful_calls,
                self.stats().failed_calls,
            ),
    {
        let mut rows: Vec<ToolUsageStats> = Vec::new();
        let mut i: usize = 0;
        while i < self.inner.tool_counts.len()
            invariant
                0 <= i <= self.inner.tool_counts@.len(),
                rows@.len() == i,
                forall|k: int|
                    0 <= k < i ==> (#[trigger] rows@[k]).tool_name
                        == self.inner.tool_counts@[k].0 && rows@[k].call_count
                        == self.inner.tool_counts@[k].1 && rows@[k].total_duration_ms == 0
                        && rows@[k].avg_duration_ms == 0,
            decreases self.inner.tool_counts@.len() - i,
        {
            rows.push(
                ToolUsageStats {
                    tool_name: self.inner.tool_counts[i].0.clone(),
                    call_count: self.inner.tool_counts[i].1,
                    total_duration_ms: 0,
                    avg_duration_ms: 0,
                },
            );
            i = i + 1;
        }
        let total = self.inner.total_tool_calls;
        let successful = self.inner.successful_calls;
        let failed = self.inner.failed_calls;
        let rate = rate_tenths(successful, total);
        let summary = format_usage_summary(total, successful, failed);
        let tools_used = rows.len();
        UsageReport {
            success: true,
            total_calls: total,
            successful_calls: successful,
            failed_calls: failed,
            success_rate_tenths: rate,
            tools_used,
            tool_usage: rows,
            session_duration_ms: self.inner.last_used - self.inner.first_used,
            summary,
        }
    }
}

/// Counter invariant law: every well-formed tracker has
/// `successful_calls + failed_calls == total_tool_calls`, and its per-tool
/// counts sum to `total_tool_calls`.
pub proof fn lemma_counter_invariant(t: UsageTracker)
    requires
        t.wf(),
    ensures
        t.stats().successful_calls + t.stats().failed_calls == t.stats().total_tool_calls,
        counts_sum(counts_view(t.stats().tool_counts@)) == t.stats().total_tool_calls,
{
}

} // verus!
