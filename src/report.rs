//! The outcome of one worker's request.

use vstd::prelude::*;
use crate::time::{Duration, Instant};

verus! {

/// The literal body that every worker sends.
pub const REQUEST_BODY: &'static str = "request body";

/// True of a status in the `2xx` class.
pub open spec fn is_success(status: u16) -> bool {
    200 <= status < 300
}

/// Returns true iff `status` is in `[200, 300)`.
pub fn is_success_status(status: u16) -> (r: bool)
    ensures
        r == is_success(status),
{
    200 <= status && status < 300
}

/// A report, containing information about the outcome of a worker.
#[derive(Clone, Copy, Debug, PartialEq, Eq, Structural)]
pub struct Report {
    /// How long the worker took to run.
    pub duration: Duration,
    /// True if the response was a success.
    pub success: bool,
    /// When the worker started running, just before it connected.
    pub start: Instant,
    /// When the worker finished running, just after the body was read.
    pub end: Instant,
}

impl Report {
    /// A report starts no later than it ends, and its duration is exactly the gap.
    pub open spec fn wf(&self) -> bool {
        &&& self.start.nanos <= self.end.nanos
        &&& self.duration.nanos == self.end.nanos - self.start.nanos
    }

    /// The report of a worker that started at `start`, had its response body fully
    /// read at `end`, and received a response with the given status code.
    pub fn new(start: Instant, end: Instant, status: u16) -> (r: Report)
        requires
            start.nanos <= end.nanos,
        ensures
            r.wf(),
            r.start == start,
            r.end == end,
            r.success == is_success(status),
    {
        Report { duration: end.duration_since(start), success: is_success_status(status), start, end }
    }
}

} // verus!
