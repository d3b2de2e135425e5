//! Per-transfer outcomes and the final tally of a run.

use vstd::prelude::*;

verus! {

/// Why a single transfer failed. Each failure is isolated to its own
/// transfer and folded into the run's tally; it never aborts the run.
#[derive(Clone, Copy, Debug, PartialEq, Eq, Structural)]
pub enum FailureReason {
    /// The request could not be sent, or the body stream broke mid-way.
    Transport,
    /// The destination file could not be created or written.
    Io,
    /// The response carried no content length.
    MissingLength,
    /// The response declared a content length of exactly zero.
    EmptyContent,
    /// An unrecoverable internal fault (for instance an aborted task).
    Unexpected,
}

/// The terminal state of one transfer: produced exactly once per
/// requested identifier, then consumed by the tally.
#[derive(Clone, Copy, Debug, PartialEq, Eq, Structural)]
pub enum TransferOutcome {
    Success(u32),
    Failure(u32, FailureReason),
}

impl TransferOutcome {
    /// The identifier the outcome belongs to.
    pub open spec fn spec_id(self) -> u32 {
        match self {
            TransferOutcome::Success(id) => id,
            TransferOutcome::Failure(id, _) => id,
        }
    }

    /// The identifier the outcome belongs to.
    pub fn id(&self) -> (r: u32)
        ensures
            r == self.spec_id(),
    {
        match self {
            TransferOutcome::Success(id) => *id,
            TransferOutcome::Failure(id, _) => *id,
        }
    }

    pub open spec fn is_success(self) -> bool {
        self is Success
    }
}

/// What a whole run reports back: how many transfers succeeded and how
/// many failed. Every admitted transfer is counted in exactly one field.
#[derive(Clone, Copy, Debug, PartialEq, Eq, Structural)]
pub struct Summary {
    pub succeeded: u32,
    pub failed: u32,
}

/// The number of successful outcomes in a sequence of outcomes.
pub open spec fn count_successes(s: Seq<TransferOutcome>) -> nat
    decreases s.len(),
{
    if s.len() == 0 {
        0
    } else {
        count_successes(s.drop_last()) + if s.last().is_success() {
            1nat
        } else {
            0nat
        }
    }
}

/// A success count never exceeds the number of outcomes counted.
pub proof fn lemma_count_successes_le_len(s: Seq<TransferOutcome>)
    ensures
        count_successes(s) <= s.len(),
    decreases s.len(),
{
    if s.len() > 0 {
        lemma_count_successes_le_len(s.drop_last());
    }
}

/// Fold a finished run's outcomes into its `Summary`: `succeeded` counts
/// the `Success` outcomes, `failed` the rest, so together they account
/// for every outcome exactly once.
pub fn tally(outcomes: &Vec<TransferOutcome>) -> (r: Summary)
    requires
        outcomes@.len() <= u32::MAX,
    ensures
        r.succeeded == count_successes(outcomes@),
        r.succeeded + r.failed == outcomes@.len(),
{
    let mut succeeded: u32 = 0;
    let mut failed: u32 = 0;
    let mut i: usize = 0;
    proof {
        lemma_count_successes_le_len(outcomes@);
    }
    while i < outcomes.len()
        invariant
            i <= outcomes@.len() <= u32::MAX,
            succeeded == count_successes(outcomes@.take(i as int)),
            succeeded + failed == i,
        decreases outcomes@.len() - i,
    {
        proof {
            assert(outcomes@.take(i + 1).drop_last() =~= outcomes@.take(i as int));
            assert(outcomes@.take(i + 1).last() == outcomes@[i as int]);
            lemma_count_successes_le_len(outcomes@.take(i as int));
        }
        match outcomes[i] {
            TransferOutcome::Success(_) => {
                succeeded = succeeded + 1;
            },
            TransferOutcome::Failure(_, _) => {
                failed = failed + 1;
            },
        }
        i = i + 1;
    }
    proof {
        assert(outcomes@.take(outcomes@.len() as int) =~= outcomes@);
    }
    Summary { succeeded, failed }
}

} // verus!
