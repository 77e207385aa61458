//! What a scheduler call can fail with.
use vstd::prelude::*;

verus! {

/// The failures that the scheduler reports to its caller.
#[derive(Clone, Copy, Debug, PartialEq, Eq, Structural)]
pub enum SchedulerError {
    /// The cron parser does not accept the expression.
    CronParse,
    /// The expression is accepted but names no instant to come.
    ComputeFailure,
    /// Every task id has been handed out.
    IdExhausted,
    /// No live or parked task has the id.
    UnknownTask,
}

} // verus!
