use introspection::errors::IntrospectError;
use introspection::history::{ToolHistory, MAX_ENTRIES};
use introspection::query::QueryParams;
use introspection::record::Record;

fn mk(name: &str, ts: u64) -> Record {
    Record::new(
        String::from(name),
        ts,
        5,
        String::from("{}"),
        String::from("{\"ok\":true}"),
    )
}

#[test]
fn uninitialized_store_fails_loudly() {
    let h = ToolHistory::new();
    assert_eq!(h.get_stats().unwrap_err(), IntrospectError::NotInitialized);
    assert_eq!(
        h.get_recent_calls(&QueryParams::new()).unwrap_err(),
        IntrospectError::NotInitialized
    );
    assert_eq!(h.snapshot().unwrap_err(), IntrospectError::NotInitialized);
    let mut h = h;
    assert_eq!(h.append(mk("a", 1)).unwrap_err(), IntrospectError::NotInitialized);
    assert_eq!(h.get_stats().unwrap_err(), IntrospectError::NotInitialized);
}

#[test]
fn init_is_idempotent() {
    let mut h = ToolHistory::new();
    h.init(String::from("first"));
    assert_eq!(h.instance_id(), "first");
    h.append(mk("a", 1)).unwrap();
    h.init(String::from("second"));
    assert_eq!(h.instance_id(), "first");
    assert_eq!(h.get_stats().unwrap().total_entries, 1);
}

#[test]
fn append_and_stats_count_in_memory_entries() {
    let mut h = ToolHistory::new();
    h.init(String::from("test"));
    assert_eq!(h.get_stats().unwrap().total_entries, 0);
    for i in 0..5u64 {
        h.append(mk("tool", i)).unwrap();
    }
    assert_eq!(h.get_stats().unwrap().total_entries, 5);
    let snap = h.snapshot().unwrap();
    assert_eq!(snap.len(), 5);
    assert_eq!(snap[0].timestamp, 0);
    assert_eq!(snap[4].timestamp, 4);
}

#[test]
fn eviction_is_strict_fifo_beyond_capacity() {
    // 1200 sequential appends: the store keeps exactly the most recent 1000,
    // in insertion order.
    let mut h = ToolHistory::new();
    h.init(String::from("test"));
    for i in 1..=1200u64 {
        h.append(mk(&format!("tool{}", i), i)).unwrap();
    }
    let stats = h.get_stats().unwrap();
    assert_eq!(stats.total_entries, MAX_ENTRIES);
    let snap = h.snapshot().unwrap();
    assert_eq!(snap.len(), 1000);
    assert_eq!(snap[0].timestamp, 201);
    assert_eq!(snap[0].tool_name, "tool201");
    assert_eq!(snap[999].timestamp, 1200);
    assert_eq!(snap[999].tool_name, "tool1200");
    for (k, r) in snap.iter().enumerate() {
        assert_eq!(r.timestamp, 201 + k as u64);
    }
}

#[test]
fn eviction_exactly_at_capacity_boundary() {
    let mut h = ToolHistory::new();
    h.init(String::from("test"));
    for i in 1..=1000u64 {
        h.append(mk("t", i)).unwrap();
    }
    assert_eq!(h.get_stats().unwrap().total_entries, 1000);
    assert_eq!(h.snapshot().unwrap()[0].timestamp, 1);
    h.append(mk("t", 1001)).unwrap();
    let snap = h.snapshot().unwrap();
    assert_eq!(snap.len(), 1000);
    assert_eq!(snap[0].timestamp, 2);
    assert_eq!(snap[999].timestamp, 1001);
}

#[test]
fn tail_window_on_full_store() {
    // After 1200 appends the window holds timestamps 201..=1200; a query
    // with offset -1 and max_results 1 selects the single most recent
    // record.
    let mut h = ToolHistory::new();
    h.init(String::from("test"));
    for i in 1..=1200u64 {
        h.append(mk(&format!("tool{}", i), i)).unwrap();
    }
    let mut p = QueryParams::new();
    p.offset = -1;
    p.max_results = 1;
    let calls = h.get_recent_calls(&p).unwrap();
    assert_eq!(calls.len(), 1);
    assert_eq!(calls[0].timestamp, 1200);
    assert_eq!(calls[0].tool_name, "tool1200");
}
