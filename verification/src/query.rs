use vstd::prelude::*;

use crate::record::Record;

verus! {

/// Filter and pagination arguments for a history query.
///
/// `max_results` caps the number of returned records; a non-negative
/// `offset` skips that many records from the head of the most-recent-first
/// result, while a negative offset `-k` is tail-relative: it selects the
/// `k` most recent records (still capped by `max_results`). `tool_name` is
/// an exact match filter; `since` keeps records with `timestamp >= since`
/// (inclusive).
#[derive(Debug)]
pub struct QueryParams {
    pub max_results: usize,
    pub offset: i64,
    pub tool_name: Option<String>,
    pub since: Option<u64>,
}

/// Default page size when the caller gives none.
pub const DEFAULT_MAX_RESULTS: usize = 50;

impl QueryParams {
    /// The defaults: 50 results, offset 0, no filters.
    pub fn new() -> (p: QueryParams)
        ensures
            p.max_results == DEFAULT_MAX_RESULTS,
            p.offset == 0,
            p.tool_name is None,
            p.since is None,
    {
        QueryParams { max_results: DEFAULT_MAX_RESULTS, offset: 0, tool_name: None, since: None }
    }
}

/// Does `r` pass the filters of `p`?
pub open spec fn spec_keeps(r: Record, p: QueryParams) -> bool {
    &&& match p.tool_name {
        Some(t) => r.tool_name@ == t@,
        None => true,
    }
    &&& match p.since {
        Some(s) => r.timestamp >= s,
        None => true,
    }
}

/// The `(timestamp, insertion index)` keys of the records of `s` that pass
/// the filters of `p`, in insertion order.
pub open spec fn filtered_pairs(s: Seq<Record>, p: QueryParams) -> Seq<(u64, usize)>
    decreases s.len(),
{
    if s.len() == 0 {
        Seq::empty()
    } else {
        let prefix = filtered_pairs(s.drop_last(), p);
        if spec_keeps(s.last(), p) {
            prefix.push((s.last().timestamp, (s.len() - 1) as usize))
        } else {
            prefix
        }
    }
}

/// Output order: `a` comes no later than `b` when its timestamp is larger,
/// or equal with a larger insertion index (reverse insertion order).
pub open spec fn key_ge(a: (u64, usize), b: (u64, usize)) -> bool {
    a.0 > b.0 || (a.0 == b.0 && a.1 >= b.1)
}

/// Most-recent-first: every element is `key_ge` every later one.
pub open spec fn sorted_desc(s: Seq<(u64, usize)>) -> bool {
    forall|i: int, j: int| 0 <= i < j < s.len() ==> key_ge(#[trigger] s[i], #[trigger] s[j])
}

/// Insert `x` into the descending-sorted `s`, before the first element that
/// `x` is `key_ge`.
pub open spec fn insert_desc(x: (u64, usize), s: Seq<(u64, usize)>) -> Seq<(u64, usize)>
    decreases s.len(),
{
    if s.len() == 0 {
        seq![x]
    } else if key_ge(x, s[0]) {
        seq![x] + s
    } else {
        seq![s[0]] + insert_desc(x, s.drop_first())
    }
}

/// Sort into output order (most recent first, ties by reverse insertion
/// order) by insertion from the back.
pub open spec fn sort_desc(s: Seq<(u64, usize)>) -> Seq<(u64, usize)>
    decreases s.len(),
{
    if s.len() == 0 {
        Seq::empty()
    } else {
        insert_desc(s.last(), sort_desc(s.drop_last()))
    }
}

/// Where the window starts: a non-negative offset skips that many results
/// from the head of the most-recent-first order (clamped to the end); a
/// negative offset asks for the most recent results, so its window starts
/// at the head.
pub open spec fn resolve_start(offset: i64, len: nat) -> int {
    if offset < 0 {
        0
    } else if offset as int >= len {
        len as int
    } else {
        offset as int
    }
}

/// How many entries the window may hold: `max_results`, and for a tail
/// request `offset = -k` also at most `k`.
pub open spec fn window_cap(offset: i64, max_results: usize) -> int {
    if offset < 0 && -(offset as int) < max_results {
        -(offset as int)
    } else {
        max_results as int
    }
}

/// Where the window ends: `cap` entries past the start, clamped to the end.
pub open spec fn window_end(start: int, cap: int, len: nat) -> int {
    if start + cap >= len {
        len as int
    } else {
        start + cap
    }
}

/// The keys a query selects, in output order.
pub open spec fn spec_query_pairs(s: Seq<Record>, p: QueryParams) -> Seq<(u64, usize)> {
    let sorted = sort_desc(filtered_pairs(s, p));
    let start = resolve_start(p.offset, sorted.len());
    sorted.subrange(
        start,
        window_end(start, window_cap(p.offset, p.max_results), sorted.len()),
    )
}

/// The full filtered and sorted record sequence, before pagination.
pub open spec fn spec_filtered_sorted(s: Seq<Record>, p: QueryParams) -> Seq<Record> {
    sort_desc(filtered_pairs(s, p)).map_values(|pr: (u64, usize)| s[pr.1 as int])
}

/// The records a query over store contents `s` with arguments `p` returns,
/// in order.
pub open spec fn spec_query(s: Seq<Record>, p: QueryParams) -> Seq<Record> {
    spec_query_pairs(s, p).map_values(|pr: (u64, usize)| s[pr.1 as int])
}

/// `p` with its offset replaced and all else unchanged.
pub open spec fn with_offset(p: QueryParams, off: i64) -> QueryParams {
    QueryParams { max_results: p.max_results, offset: off, tool_name: p.tool_name, since: p.since }
}

/// `x` clamped from above to `len`.
pub open spec fn clamp_to(x: int, len: nat) -> int {
    if x >= len {
        len as int
    } else {
        x
    }
}

fn key_ge_exec(a: (u64, usize), b: (u64, usize)) -> (r: bool)
    ensures
        r == key_ge(a, b),
{
    a.0 > b.0 || (a.0 == b.0 && a.1 >= b.1)
}

proof fn lemma_insert_desc_sorted(x: (u64, usize), s: Seq<(u64, usize)>)
    requires
        sorted_desc(s),
    ensures
        sorted_desc(insert_desc(x, s)),
        forall|k: int|
            0 <= k < insert_desc(x, s).len() ==> insert_desc(x, s)[k] == x || s.contains(
                #[trigger] insert_desc(x, s)[k],
            ),
    decreases s.len(),
{
    if s.len() == 0 {
    } else if key_ge(x, s[0]) {
        let r = seq![x] + s;
        assert forall|i: int, j: int| 0 <= i < j < r.len() implies key_ge(
            #[trigger] r[i],
            #[trigger] r[j],
        ) by {
            if i > 0 {
                assert(r[i] == s[i - 1] && r[j] == s[j - 1]);
            } else {
                assert(r[j] == s[j - 1]);
                if j > 1 {
                    assert(key_ge(s[0], s[j - 1]));
                }
            }
        }
    } else {
        let rest = s.drop_first();
        assert(forall|i: int, j: int|
            0 <= i < j < rest.len() ==> key_ge(#[trigger] rest[i], #[trigger] rest[j]));
        lemma_insert_desc_sorted(x, rest);
        let tail = insert_desc(x, rest);
        let r = seq![s[0]] + tail;
        assert forall|i: int, j: int| 0 <= i < j < r.len() implies key_ge(
            #[trigger] r[i],
            #[trigger] r[j],
        ) by {
            if i > 0 {
                assert(r[i] == tail[i - 1] && r[j] == tail[j - 1]);
                assert(key_ge(tail[i - 1], tail[j - 1]));
            } else {
                assert(r[j] == tail[j - 1]);
                if tail[j - 1] == x {
                    assert(key_ge(s[0], x));
                } else {
                    let e = tail[j - 1];
                    assert(rest.contains(e));
                    let w = choose|w: int| 0 <= w < rest.len() && rest[w] == e;
                    assert(s[w + 1] == e);
                    assert(key_ge(s[0], e));
                }
            }
        }
        assert forall|k: int| 0 <= k < r.len() implies r[k] == x || s.contains(#[trigger] r[k]) by {
            if k == 0 {
                assert(s.contains(s[0]));
            } else if r[k] == x {
            } else {
                let e = r[k];
                assert(rest.contains(e));
                let w = choose|w: int| 0 <= w < rest.len() && rest[w] == e;
                assert(s[w + 1] == e);
                assert(s.contains(e));
            }
        }
    }
}

/// The sorted sequence really is in output order: most recent first, ties
/// broken by reverse insertion order.
pub proof fn lemma_sort_desc_sorted(s: Seq<(u64, usize)>)
    ensures
        sorted_desc(sort_desc(s)),
    decreases s.len(),
{
    if s.len() > 0 {
        lemma_sort_desc_sorted(s.drop_last());
        lemma_insert_desc_sorted(s.last(), sort_desc(s.drop_last()));
    }
}

/// The keys a query selects come out in output order.
pub proof fn lemma_query_pairs_sorted(s: Seq<Record>, p: QueryParams)
    ensures
        sorted_desc(spec_query_pairs(s, p)),
{
    lemma_sort_desc_sorted(filtered_pairs(s, p));
    let sorted = sort_desc(filtered_pairs(s, p));
    let start = resolve_start(p.offset, sorted.len());
    let win = sorted.subrange(
        start,
        window_end(start, window_cap(p.offset, p.max_results), sorted.len()),
    );
    assert forall|i: int, j: int| 0 <= i < j < win.len() implies key_ge(
        #[trigger] win[i],
        #[trigger] win[j],
    ) by {
        assert(win[i] == sorted[start + i] && win[j] == sorted[start + j]);
    }
}

proof fn lemma_insert_desc_at(x: (u64, usize), s: Seq<(u64, usize)>, j: int)
    requires
        0 <= j <= s.len(),
        forall|k: int| 0 <= k < j ==> !key_ge(x, #[trigger] s[k]),
        j == s.len() || key_ge(x, s[j]),
    ensures
        insert_desc(x, s) == s.insert(j, x),
    decreases s.len(),
{
    if s.len() == 0 {
        assert(insert_desc(x, s) =~= s.insert(j, x));
    } else if key_ge(x, s[0]) {
        assert(j == 0);
        assert(seq![x] + s =~= s.insert(0, x));
    } else {
        assert(!key_ge(x, s[0]));
        assert(j >= 1);
        let rest = s.drop_first();
        assert(forall|k: int| 0 <= k < j - 1 ==> !key_ge(x, #[trigger] rest[k]));
        assert(j - 1 == rest.len() || key_ge(x, rest[j - 1]));
        lemma_insert_desc_at(x, rest, j - 1);
        assert(seq![s[0]] + rest.insert(j - 1, x) =~= s.insert(j, x));
    }
}

fn filter_pairs(records: &Vec<Record>, p: &QueryParams) -> (r: Vec<(u64, usize)>)
    ensures
        r@ == filtered_pairs(records@, *p),
        forall|k: int| 0 <= k < r@.len() ==> (#[trigger] r@[k]).1 < records@.len(),
{
    let mut out: Vec<(u64, usize)> = Vec::new();
    let mut i: usize = 0;
    while i < records.len()
        invariant
            0 <= i <= records@.len(),
            out@ == filtered_pairs(records@.take(i as int), *p),
            forall|k: int| 0 <= k < out@.len() ==> (#[trigger] out@[k]).1 < i,
        decreases records@.len() - i,
    {
        let rec = &records[i];
        let mut keep = true;
        match &p.tool_name {
            Some(t) => {
                if !(rec.tool_name == *t) {
                    keep = false;
                }
            },
            None => {},
        }
        match p.since {
            Some(s) => {
                if rec.timestamp < s {
                    keep = false;
                }
            },
            None => {},
        }
        proof {
            assert(keep == spec_keeps(records@[i as int], *p));
        }
        if keep {
            out.push((rec.timestamp, i));
        }
        i = i + 1;
        proof {
            let t = records@.take(i as int);
            assert(t.drop_last() =~= records@.take(i as int - 1));
            assert(t.last() == records@[i as int - 1]);
        }
    }
    proof {
        assert(records@.take(records@.len() as int) =~= records@);
    }
    out
}

fn sort_pairs(pairs: Vec<(u64, usize)>, bound: usize) -> (r: Vec<(u64, usize)>)
    requires
        forall|k: int| 0 <= k < pairs@.len() ==> (#[trigger] pairs@[k]).1 < bound,
    ensures
        r@ == sort_desc(pairs@),
        forall|k: int| 0 <= k < r@.len() ==> (#[trigger] r@[k]).1 < bound,
{
    let mut out: Vec<(u64, usize)> = Vec::new();
    let mut i: usize = 0;
    while i < pairs.len()
        invariant
            0 <= i <= pairs@.len(),
            out@ == sort_desc(pairs@.take(i as int)),
            forall|k: int| 0 <= k < pairs@.len() ==> (#[trigger] pairs@[k]).1 < bound,
            forall|k: int| 0 <= k < out@.len() ==> (#[trigger] out@[k]).1 < bound,
        decreases pairs@.len() - i,
    {
        let x = pairs[i];
        let ghost prev = out@;
        let mut j: usize = 0;
        while j < out.len() && !key_ge_exec(x, out[j])
            invariant
                0 <= j <= out@.len(),
                out@ == prev,
                forall|k: int| 0 <= k < j ==> !key_ge(x, #[trigger] out@[k]),
            decreases out@.len() - j,
        {
            j = j + 1;
        }
        proof {
            lemma_insert_desc_at(x, out@, j as int);
        }
        out.insert(j, x);
        i = i + 1;
        proof {
            let t = pairs@.take(i as int);
            assert(t.drop_last() =~= pairs@.take(i as int - 1));
            assert(t.last() == pairs@[i as int - 1]);
            assert(out@ =~= prev.insert(j as int, x));
            assert(out@ == insert_desc(x, prev));
            assert(forall|k: int|
                0 <= k < out@.len() ==> (#[trigger] out@[k]).1 < bound) by {
                assert(forall|k: int|
                    0 <= k < prev.len() ==> (#[trigger] prev[k]).1 < bound);
                assert(forall|k: int| 0 <= k < out@.len() ==> out@[k] == x || prev.contains(
                    #[trigger] out@[k],
                ));
            }
        }
    }
    proof {
        assert(pairs@.take(pairs@.len() as int) =~= pairs@);
    }
    out
}

fn select_records(
    records: &Vec<Record>,
    pairs: &Vec<(u64, usize)>,
    start: usize,
    end: usize,
) -> (r: Vec<Record>)
    requires
        start <= end <= pairs@.len(),
        forall|k: int| 0 <= k < pairs@.len() ==> (#[trigger] pairs@[k]).1 < records@.len(),
    ensures
        r@ == pairs@.subrange(start as int, end as int).map_values(
            |pr: (u64, usize)| records@[pr.1 as int],
        ),
{
    let mut out: Vec<Record> = Vec::new();
    let mut i: usize = start;
    while i < end
        invariant
            start <= i <= end <= pairs@.len(),
            forall|k: int| 0 <= k < pairs@.len() ==> (#[trigger] pairs@[k]).1 < records@.len(),
            out@ == pairs@.subrange(start as int, i as int).map_values(
                |pr: (u64, usize)| records@[pr.1 as int],
            ),
        decreases end - i,
    {
        let idx = pairs[i].1;
        out.push(records[idx].duplicate());
        i = i + 1;
        proof {
            assert(pairs@.subrange(start as int, i as int) =~= pairs@.subrange(
                start as int,
                i as int - 1,
            ).push(pairs@[i as int - 1]));
            assert(out@ =~= pairs@.subrange(start as int, i as int).map_values(
                |pr: (u64, usize)| records@[pr.1 as int],
            ));
        }
    }
    out
}

/// Run the query `p` over the store snapshot `records`: filter by tool name
/// and `since`, sort most-recent-first with ties by reverse insertion order,
/// then apply offset and `max_results`.
pub fn query_records(records: &Vec<Record>, p: &QueryParams) -> (r: Vec<Record>)
    ensures
        r@ == spec_query(records@, *p),
{
    let pairs = filter_pairs(records, p);
    let sorted = sort_pairs(pairs, records.len());
    let len = sorted.len();
    let start: usize = if p.offset < 0 {
        0
    } else {
        if p.offset as u64 >= len as u64 {
            len
        } else {
            p.offset as usize
        }
    };
    proof {
        assert(start as int == resolve_start(p.offset, sorted@.len()));
    }
    let cap: usize = if p.offset < 0 {
        let k: i128 = -(p.offset as i128);
        if k < p.max_results as i128 {
            k as usize
        } else {
            p.max_results
        }
    } else {
        p.max_results
    };
    proof {
        assert(cap as int == window_cap(p.offset, p.max_results));
    }
    let end: usize = if cap >= len - start {
        len
    } else {
        start + cap
    };
    proof {
        assert(end as int == window_end(start as int, cap as int, sorted@.len()));
    }
    let r = select_records(records, &sorted, start, end);
    proof {
        assert(r@ =~= spec_query(records@, *p));
    }
    r
}

/// Query determinism: identical store contents and identical arguments give
/// identical output. The executable query's postcondition pins its result to
/// `spec_query`, so any two runs over equal inputs agree exactly.
pub proof fn lemma_query_deterministic(
    s1: Seq<Record>,
    s2: Seq<Record>,
    p1: QueryParams,
    p2: QueryParams,
)
    requires
        s1 == s2,
        p1 == p2,
    ensures
        spec_query(s1, p1) == spec_query(s2, p2),
{
}

/// Two parameter sets with the same filters select the same keys.
pub proof fn lemma_filters_agree(s: Seq<Record>, p1: QueryParams, p2: QueryParams)
    requires
        p1.tool_name == p2.tool_name,
        p1.since == p2.since,
    ensures
        filtered_pairs(s, p1) == filtered_pairs(s, p2),
    decreases s.len(),
{
    if s.len() > 0 {
        lemma_filters_agree(s.drop_last(), p1, p2);
    }
}

/// The query output is the window of the full filtered, sorted sequence
/// between `resolve_start` and `window_end`.
pub proof fn lemma_query_window(s: Seq<Record>, p: QueryParams)
    ensures
        spec_query(s, p) == spec_filtered_sorted(s, p).subrange(
            resolve_start(p.offset, sort_desc(filtered_pairs(s, p)).len()),
            window_end(
                resolve_start(p.offset, sort_desc(filtered_pairs(s, p)).len()),
                window_cap(p.offset, p.max_results),
                sort_desc(filtered_pairs(s, p)).len(),
            ),
        ),
{
    let sorted = sort_desc(filtered_pairs(s, p));
    let start = resolve_start(p.offset, sorted.len());
    let end = window_end(start, window_cap(p.offset, p.max_results), sorted.len());
    assert(spec_query(s, p) =~= spec_filtered_sorted(s, p).subrange(start, end));
}

/// Tail semantics: a negative offset `-k` selects the most recent entries
/// of the filtered, sorted sequence, ordered most-recent-first exactly as
/// positive offsets order them (the tail window is a prefix of the page at
/// offset 0). With `k` no larger than the filtered total and
/// `max_results >= k`, the result is exactly the `k` most recent entries.
pub proof fn lemma_tail_offset(s: Seq<Record>, p: QueryParams, k: int)
    requires
        p.offset == -k,
        0 < k,
    ensures
        spec_query(s, p) == spec_filtered_sorted(s, p).take(
            clamp_to(
                window_cap(p.offset, p.max_results),
                sort_desc(filtered_pairs(s, p)).len(),
            ),
        ),
        spec_query(s, p) == spec_query(s, with_offset(p, 0)).take(
            spec_query(s, p).len() as int,
        ),
        k <= sort_desc(filtered_pairs(s, p)).len() && k <= p.max_results ==> spec_query(s, p)
            == spec_filtered_sorted(s, p).take(k) && spec_query(s, p).len() == k,
{
    let q0 = with_offset(p, 0);
    lemma_filters_agree(s, p, q0);
    let sorted = sort_desc(filtered_pairs(s, p));
    let len = sorted.len();
    let cap = window_cap(p.offset, p.max_results);
    assert(resolve_start(p.offset, len) == 0);
    assert(window_end(0, cap, len) == clamp_to(cap, len));
    assert(spec_query(s, p) =~= spec_filtered_sorted(s, p).take(clamp_to(cap, len)));
    assert(sort_desc(filtered_pairs(s, q0)) == sorted);
    assert(spec_filtered_sorted(s, q0) == spec_filtered_sorted(s, p));
    assert(window_cap(q0.offset, q0.max_results) == p.max_results as int);
    assert(spec_query(s, q0) =~= spec_filtered_sorted(s, p).take(
        clamp_to(p.max_results as int, len),
    ));
    assert(clamp_to(cap, len) <= clamp_to(p.max_results as int, len));
    assert(spec_query(s, p) =~= spec_query(s, q0).take(spec_query(s, p).len() as int));
    if k <= len && k <= p.max_results {
        assert(cap == k);
        assert(clamp_to(k, len) == k);
    }
}

/// The concatenation of the first `n` pages: offsets `0, max_results,
/// 2 * max_results, ...`, each page `max_results` long.
pub open spec fn pages_concat(s: Seq<Record>, p: QueryParams, n: nat) -> Seq<Record>
    decreases n,
{
    if n == 0 {
        Seq::empty()
    } else {
        pages_concat(s, p, (n - 1) as nat) + spec_query(
            s,
            with_offset(p, (((n - 1) as nat) * p.max_results) as i64),
        )
    }
}

/// Pagination completeness: concatenating the pages at offsets `0,
/// max_results, 2 * max_results, ...` over a static store reconstructs the
/// full filtered, sorted sequence, with no duplication and no gaps; after
/// enough pages the concatenation is the whole of it.
pub proof fn lemma_pagination_complete(s: Seq<Record>, p: QueryParams, n: nat)
    requires
        p.max_results > 0,
        n * p.max_results <= i64::MAX,
    ensures
        pages_concat(s, p, n) == spec_filtered_sorted(s, p).take(
            clamp_to(n * p.max_results, sort_desc(filtered_pairs(s, p)).len()),
        ),
        n * p.max_results >= sort_desc(filtered_pairs(s, p)).len() ==> pages_concat(s, p, n)
            == spec_filtered_sorted(s, p),
    decreases n,
{
    let sorted = sort_desc(filtered_pairs(s, p));
    let len = sorted.len();
    let m = p.max_results as int;
    if n == 0 {
        assert(pages_concat(s, p, n) =~= spec_filtered_sorted(s, p).take(clamp_to(0, len)));
    } else {
        let n1 = (n - 1) as nat;
        assert(n1 * p.max_results <= n * p.max_results) by (nonlinear_arith)
            requires
                p.max_results > 0,
                n1 == n - 1,
                n >= 1,
        ;
        lemma_pagination_complete(s, p, n1);
        let o = n1 * p.max_results;
        assert(n * p.max_results == o + p.max_results) by (nonlinear_arith)
            requires
                n1 == n - 1,
                n >= 1,
                o == n1 * p.max_results,
        ;
        let q = with_offset(p, (n1 * p.max_results) as i64);
        assert(pages_concat(s, p, n) == pages_concat(s, p, n1) + spec_query(s, q));
        assert(pages_concat(s, p, n1) == spec_filtered_sorted(s, p).take(clamp_to(o as int, len)));
        lemma_filters_agree(s, p, q);
        assert(q.offset == o as int);
        lemma_query_window(s, q);
        assert(sort_desc(filtered_pairs(s, q)) == sorted);
        assert(spec_filtered_sorted(s, q) == spec_filtered_sorted(s, p));
        let start = resolve_start(q.offset, len);
        assert(window_cap(q.offset, q.max_results) == m);
        let end = window_end(start, m, len);
        assert(spec_query(s, q) == spec_filtered_sorted(s, p).subrange(start, end));
        assert(start == clamp_to(o as int, len));
        assert(end == clamp_to(o + m, len));
        assert(spec_filtered_sorted(s, p).take(clamp_to(o as int, len)) + spec_filtered_sorted(
            s,
            p,
        ).subrange(start, end) =~= spec_filtered_sorted(s, p).take(clamp_to(o + m, len)));
        assert(clamp_to(o + m, len) == clamp_to(n * p.max_results, len));
        assert(pages_concat(s, p, n) == spec_filtered_sorted(s, p).take(
            clamp_to(n * p.max_results, len),
        ));
        if n * p.max_results >= len {
            assert(spec_filtered_sorted(s, p).take(clamp_to(n * p.max_results, len))
                =~= spec_filtered_sorted(s, p));
        }
    }
}

} // verus!
