use vstd::prelude::*;

use crate::errors::IntrospectError;
use crate::query::{spec_query, query_records, QueryParams};
use crate::record::Record;

verus! {

/// Capacity of the in-memory history window.
pub const MAX_ENTRIES: usize = 1000;

/// What `get_stats` reports: the current in-memory count, not a lifetime
/// total.
#[derive(Debug)]
pub struct HistoryStats {
    pub total_entries: usize,
}

/// Process-wide bounded log of recent records.
///
/// Lifecycle: constructed uninitialized; `init` moves it to initialized once
/// and is a no-op afterwards; queries and appends before `init` fail with
/// `NotInitialized` rather than silently returning empty data. The store
/// holds at most `MAX_ENTRIES` records, oldest first; appending at capacity
/// evicts the oldest (FIFO). Mirroring accepted records to a durable log is
/// the caller's concern: the store itself is purely in-memory.
pub struct ToolHistory {
    initialized: bool,
    instance_id: String,
    entries: Vec<Record>,
}

/// One append step of the bounded window: push, evicting the oldest record
/// when at capacity.
pub open spec fn push_bounded(s: Seq<Record>, r: Record) -> Seq<Record> {
    if s.len() < MAX_ENTRIES {
        s.push(r)
    } else {
        s.drop_first().push(r)
    }
}

/// All of `rs` appended in order into an empty window.
pub open spec fn push_all(rs: Seq<Record>) -> Seq<Record>
    decreases rs.len(),
{
    if rs.len() == 0 {
        Seq::empty()
    } else {
        push_bounded(push_all(rs.drop_last()), rs.last())
    }
}

impl ToolHistory {
    pub closed spec fn is_initialized(self) -> bool {
        self.initialized
    }

    /// The records currently held, oldest first.
    pub closed spec fn records(self) -> Seq<Record> {
        self.entries@
    }

    pub closed spec fn id(self) -> Seq<char> {
        self.instance_id@
    }

    /// The capacity bound; established by `new` and preserved by every
    /// operation.
    pub open spec fn wf(self) -> bool {
        self.records().len() <= MAX_ENTRIES
    }

    pub fn new() -> (h: ToolHistory)
        ensures
            !h.is_initialized(),
            h.records() == Seq::<Record>::empty(),
            h.wf(),
    {
        ToolHistory { initialized: false, instance_id: String::new(), entries: Vec::new() }
    }

    /// The identifier the store was initialized under.
    pub fn instance_id(&self) -> (s: &String)
        ensures
            s@ == self.id(),
    {
        &self.instance_id
    }

    /// Has `init` run?
    pub fn check_initialized(&self) -> (b: bool)
        ensures
            b == self.is_initialized(),
    {
        self.initialized
    }

    /// Idempotent process-wide setup: the first call initializes the store
    /// under `instance_id`; any later call is a no-op, never a reset.
    pub fn init(&mut self, instance_id: String)
        ensures
            final(self).is_initialized(),
            final(self).records() == old(self).records(),
            old(self).is_initialized() ==> final(self).id() == old(self).id(),
            !old(self).is_initialized() ==> final(self).id() == instance_id@,
    {
        if !self.initialized {
            self.instance_id = instance_id;
            self.initialized = true;
        }
    }

    /// Append one record, evicting the oldest when at capacity.
    pub fn append(&mut self, record: Record) -> (r: Result<(), IntrospectError>)
        requires
            old(self).wf(),
        ensures
            final(self).wf(),
            final(self).is_initialized() == old(self).is_initialized(),
            final(self).id() == old(self).id(),
            old(self).is_initialized() ==> r is Ok && final(self).records() == push_bounded(
                old(self).records(),
                record,
            ),
            !old(self).is_initialized() ==> r is Err && r->Err_0
                == IntrospectError::NotInitialized && final(self).records() == old(
                self,
            ).records(),
    {
        if !self.initialized {
            return Err(IntrospectError::NotInitialized);
        }
        let ghost before = self.entries@;
        if self.entries.len() >= MAX_ENTRIES {
            self.entries.remove(0);
            proof {
                assert(self.entries@ =~= before.drop_first());
            }
        }
        self.entries.push(record);
        proof {
            if before.len() >= MAX_ENTRIES {
                assert(self.entries@ =~= before.drop_first().push(record));
            }
        }
        Ok(())
    }

    /// A consistent point-in-time copy of the current records, oldest first.
    pub fn snapshot(&self) -> (r: Result<Vec<Record>, IntrospectError>)
        ensures
            self.is_initialized() ==> r is Ok && r->Ok_0@ == self.records(),
            !self.is_initialized() ==> r is Err && r->Err_0 == IntrospectError::NotInitialized,
    {
        if !self.initialized {
            return Err(IntrospectError::NotInitialized);
        }
        let mut out: Vec<Record> = Vec::new();
        let mut i: usize = 0;
        while i < self.entries.len()
            invariant
                0 <= i <= self.entries@.len(),
                out@ == self.entries@.take(i as int),
            decreases self.entries@.len() - i,
        {
            out.push(self.entries[i].duplicate());
            i = i + 1;
            proof {
                assert(self.entries@.take(i as int) =~= self.entries@.take(i as int - 1).push(
                    self.entries@[i as int - 1],
                ));
            }
        }
        proof {
            assert(self.entries@.take(self.entries@.len() as int) =~= self.entries@);
        }
        Ok(out)
    }

    /// The current in-memory count.
    pub fn get_stats(&self) -> (r: Result<HistoryStats, IntrospectError>)
        ensures
            self.is_initialized() ==> r is Ok && r->Ok_0.total_entries == self.records().len(),
            !self.is_initialized() ==> r is Err && r->Err_0 == IntrospectError::NotInitialized,
    {
        if !self.initialized {
            return Err(IntrospectError::NotInitialized);
        }
        Ok(HistoryStats { total_entries: self.entries.len() })
    }

    /// Query the current window with the filter and pagination arguments of
    /// `p`.
    pub fn get_recent_calls(&self, p: &QueryParams) -> (r: Result<Vec<Record>, IntrospectError>)
        ensures
            self.is_initialized() ==> r is Ok && r->Ok_0@ == spec_query(self.records(), *p),
            !self.is_initialized() ==> r is Err && r->Err_0 == IntrospectError::NotInitialized,
    {
        if !self.initialized {
            return Err(IntrospectError::NotInitialized);
        }
        Ok(query_records(&self.entries, p))
    }
}

/// FIFO eviction law: appending any sequence of records into an empty store
/// leaves exactly the most recent `MAX_ENTRIES` of them, in insertion order.
pub proof fn lemma_fifo_window(rs: Seq<Record>)
    ensures
        rs.len() <= MAX_ENTRIES ==> push_all(rs) == rs,
        rs.len() > MAX_ENTRIES ==> push_all(rs) == rs.subrange(
            rs.len() - MAX_ENTRIES,
            rs.len() as int,
        ),
    decreases rs.len(),
{
    if rs.len() == 0 {
        assert(push_all(rs) =~= rs);
    } else {
        let head = rs.drop_last();
        lemma_fifo_window(head);
        if rs.len() <= MAX_ENTRIES {
            assert(push_all(head).push(rs.last()) =~= rs);
        } else if rs.len() == MAX_ENTRIES + 1 {
            assert(push_all(head) == head);
            assert(head.drop_first().push(rs.last()) =~= rs.subrange(
                rs.len() - MAX_ENTRIES,
                rs.len() as int,
            ));
        } else {
            let prev = head.subrange(head.len() - MAX_ENTRIES, head.len() as int);
            assert(push_all(head) == prev);
            assert(prev.drop_first().push(rs.last()) =~= rs.subrange(
                rs.len() - MAX_ENTRIES,
                rs.len() as int,
            ));
        }
    }
}

} // verus!
