//! The clock tool: what time it is.
use vstd::prelude::*;
use crate::time::Timestamp;
use crate::time;

verus! {

/// The clock tool.
#[derive(Debug, Clone, Copy, PartialEq, Eq, Structural)]
pub enum ClockTool {
    UtcNow,
}

impl ClockTool {
    /// What the tool is called.
    pub fn name(&self) -> (r: &'static str)
        ensures
            r@ == "clock"@,
    {
        "clock"
    }

    /// What the tool is for.
    pub fn description(&self) -> (r: &'static str)
        ensures
            r@ == "Current timestamp"@,
    {
        "Current timestamp"
    }

    /// What arguments the tool takes.
    pub fn input_schema_json(&self) -> (r: &'static str)
        ensures
            r@ == "{\"type\":\"null\"}"@,
    {
        "{\"type\":\"null\"}"
    }

    /// What the tool answers at a point in time.
    pub fn answer(&self, now: Timestamp) -> (r: String)
        requires
            now.wf(),
        ensures
            r@ == time::written_rfc3339(now.secs as int, now.nanos as int),
            now.writable() ==> time::reads_as(r@, now),
    {
        now.to_rfc3339()
    }
}

} // verus!
