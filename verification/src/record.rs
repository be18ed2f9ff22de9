use vstd::prelude::*;

verus! {

/// One completed tool invocation: the immutable unit of history.
///
/// `timestamp` is an epoch value in milliseconds; ordering among records is
/// total via `timestamp`, with ties broken by insertion order. `args_json`
/// and `output_json` carry the serialized input and result payloads opaquely;
/// `output_json` is empty on failure.
#[derive(Debug)]
pub struct Record {
    pub tool_name: String,
    pub timestamp: u64,
    pub duration_ms: u64,
    pub args_json: String,
    pub output_json: String,
}

impl Record {
    pub fn new(
        tool_name: String,
        timestamp: u64,
        duration_ms: u64,
        args_json: String,
        output_json: String,
    ) -> (r: Record)
        ensures
            r.tool_name == tool_name,
            r.timestamp == timestamp,
            r.duration_ms == duration_ms,
            r.args_json == args_json,
            r.output_json == output_json,
    {
        Record { tool_name, timestamp, duration_ms, args_json, output_json }
    }

    /// An equal copy of this record.
    pub fn duplicate(&self) -> (r: Record)
        ensures
            r == *self,
    {
        Record {
            tool_name: self.tool_name.clone(),
            timestamp: self.timestamp,
            duration_ms: self.duration_ms,
            args_json: self.args_json.clone(),
            output_json: self.output_json.clone(),
        }
    }
}

} // verus!
