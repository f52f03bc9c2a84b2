//! The retry policy for writing the UCI configs: a write that loses a race
//! with another writer (a conflict) is redone from a fresh read, a bounded
//! number of times.

use vstd::prelude::*;

verus! {

/// How many times a conflicting write is redone.
pub const DUMP_RETRIES: u32 = 4;

/// How one attempt to write the configs ended.
#[derive(Debug, Clone, Copy, PartialEq, Eq, Structural)]
pub enum DumpOutcome {
    /// The configs were written.
    Saved,
    /// Another writer changed the files since they were read.
    Conflict,
    /// Any other failure.
    Failed,
}

/// What to do after an attempt.
#[derive(Debug, Clone, Copy, PartialEq, Eq, Structural)]
pub enum CommitStep {
    /// Stop: the write succeeded.
    Done,
    /// Read again and redo the write, with this many retries left.
    Retry { retries_left: u32 },
    /// Stop: report the failure.
    Fail,
}

/// The next step after an attempt made with `retries_left` retries left: a
/// conflict is retried while retries are left, and each retry uses one up,
/// so at most `DUMP_RETRIES + 1` attempts are made from `DUMP_RETRIES`.
pub fn after_dump(retries_left: u32, outcome: DumpOutcome) -> (r: CommitStep)
    ensures
        outcome == DumpOutcome::Saved ==> r == CommitStep::Done,
        outcome == DumpOutcome::Failed ==> r == CommitStep::Fail,
        outcome == DumpOutcome::Conflict && retries_left > 0 ==> r == (CommitStep::Retry {
            retries_left: (retries_left - 1) as u32,
        }),
        outcome == DumpOutcome::Conflict && retries_left == 0 ==> r == CommitStep::Fail,
        r matches CommitStep::Retry { retries_left: left } ==> left < retries_left,
{
    match outcome {
        DumpOutcome::Saved => CommitStep::Done,
        DumpOutcome::Conflict => if retries_left > 0 {
            CommitStep::Retry { retries_left: retries_left - 1 }
        } else {
            CommitStep::Fail
        },
        DumpOutcome::Failed => CommitStep::Fail,
    }
}

} // verus!
