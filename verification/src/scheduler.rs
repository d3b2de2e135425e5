//! The orchestrator's scheduling state: which transfers are still
//! pending, which are active, and which have reached a terminal outcome.
//!
//! The scheduler is a state machine. The runner that owns the actual
//! tasks drives it: it launches a transfer whenever the scheduler admits
//! one, and reports each terminal outcome back. The well-formedness
//! invariant bounds the number of simultaneously active transfers by the
//! configured cap in every reachable state, and conserves identifiers:
//! every launched identifier is either active or accounted for by exactly
//! one outcome.

use vstd::prelude::*;

use crate::outcome::{count_successes, lemma_count_successes_le_len, tally, Summary,
    TransferOutcome};

verus! {

/// The identifiers that a sequence of outcomes accounts for, in order.
pub open spec fn outcome_ids(s: Seq<TransferOutcome>) -> Seq<u32>
    decreases s.len(),
{
    if s.len() == 0 {
        Seq::empty()
    } else {
        outcome_ids(s.drop_last()).push(s.last().spec_id())
    }
}

/// The scheduling state of one orchestration run over a fixed, already
/// deduplicated identifier list.
pub struct Scheduler {
    /// The deduplicated request list; fixed for the run's lifetime.
    ids: Vec<u32>,
    /// How many identifiers have been launched so far; `ids` is drained
    /// in order, so these are exactly the first `next` entries.
    next: usize,
    /// Launched identifiers that have not yet reached a terminal state.
    active: Vec<u32>,
    /// Terminal outcomes, one per finished transfer, in completion order.
    outcomes: Vec<TransferOutcome>,
    /// The concurrency cap: the most transfers ever allowed to be active
    /// at once.
    cap: usize,
}

impl Scheduler {
    pub closed spec fn spec_ids(self) -> Seq<u32> {
        self.ids@
    }

    pub closed spec fn spec_cap(self) -> int {
        self.cap as int
    }

    pub closed spec fn spec_active(self) -> Seq<u32> {
        self.active@
    }

    pub closed spec fn spec_outcomes(self) -> Seq<TransferOutcome> {
        self.outcomes@
    }

    /// The identifiers launched so far.
    pub closed spec fn launched(self) -> Seq<u32> {
        self.ids@.take(self.next as int)
    }

    /// Every reachable scheduler state satisfies this invariant. In
    /// particular, at most `cap` transfers are active at once, and the
    /// launched identifiers are exactly the active ones plus those
    /// accounted for by one outcome each.
    pub closed spec fn wf(self) -> bool {
        &&& 0 < self.cap
        &&& self.next <= self.ids@.len()
        &&& self.ids@.len() <= u32::MAX
        &&& self.active@.len() <= self.cap
        &&& self.active@.len() + self.outcomes@.len() == self.next
        &&& self.launched().to_multiset() == self.active@.to_multiset().add(
            outcome_ids(self.outcomes@).to_multiset(),
        )
    }

    /// Start a run over `ids` with concurrency cap `cap`. Nothing is
    /// launched yet.
    pub fn new(ids: Vec<u32>, cap: usize) -> (s: Self)
        requires
            0 < cap,
            ids@.len() <= u32::MAX,
        ensures
            s.wf(),
            s.spec_ids() == ids@,
            s.spec_cap() == cap,
            s.launched() == Seq::<u32>::empty(),
            s.spec_active().len() == 0,
            s.spec_outcomes().len() == 0,
    {
        let s = Scheduler { ids, next: 0, active: Vec::new(), outcomes: Vec::new(), cap };
        proof {
            broadcast use vstd::seq_lib::group_to_multiset_ensures;

            assert(s.launched() =~= Seq::<u32>::empty());
            assert(outcome_ids(s.outcomes@) =~= Seq::<u32>::empty());
            assert(s.active@.to_multiset().add(outcome_ids(s.outcomes@).to_multiset())
                =~= Seq::<u32>::empty().to_multiset());
        }
        s
    }

    /// Whether another transfer may be launched right now: something is
    /// still pending and a concurrency slot is free.
    pub fn can_launch(&self) -> (r: bool)
        requires
            self.wf(),
        ensures
            r == (self.launched().len() < self.spec_ids().len() && self.spec_active().len()
                < self.spec_cap()),
    {
        self.next < self.ids.len() && self.active.len() < self.cap
    }

    /// Admit the next pending identifier as an active transfer. The cap
    /// is respected: afterwards at most `cap` transfers are active.
    pub fn launch(&mut self) -> (id: u32)
        requires
            old(self).wf(),
            old(self).launched().len() < old(self).spec_ids().len(),
            old(self).spec_active().len() < old(self).spec_cap(),
        ensures
            final(self).wf(),
            final(self).spec_ids() == old(self).spec_ids(),
            final(self).spec_cap() == old(self).spec_cap(),
            id == old(self).spec_ids()[old(self).launched().len() as int],
            final(self).launched() == old(self).launched().push(id),
            final(self).spec_active() == old(self).spec_active().push(id),
            final(self).spec_outcomes() == old(self).spec_outcomes(),
            final(self).spec_active().len() <= final(self).spec_cap(),
    {
        let id = self.ids[self.next];
        self.active.push(id);
        self.next = self.next + 1;
        proof {
            broadcast use vstd::seq_lib::group_to_multiset_ensures;

            assert(self.launched() =~= old(self).launched().push(id));
            assert(self.launched().to_multiset() =~= self.active@.to_multiset().add(
                outcome_ids(self.outcomes@).to_multiset(),
            ));
        }
        id
    }

    /// How many transfers are active right now.
    pub fn active_count(&self) -> (n: usize)
        ensures
            n == self.spec_active().len(),
    {
        self.active.len()
    }

    /// The identifier of the active transfer in `slot`.
    pub fn active_id_at(&self, slot: usize) -> (id: u32)
        requires
            slot < self.spec_active().len(),
        ensures
            id == self.spec_active()[slot as int],
    {
        self.active[slot]
    }

    /// The first slot of `id` among the active transfers, if it is
    /// active.
    pub fn find_active_slot(&self, id: u32) -> (r: Option<usize>)
        ensures
            match r {
                Some(slot) => slot < self.spec_active().len() && self.spec_active()[slot as int]
                    == id && (forall|j: int| 0 <= j < slot ==> self.spec_active()[j] != id),
                None => !self.spec_active().contains(id),
            },
    {
        let mut i: usize = 0;
        while i < self.active.len()
            invariant
                i <= self.active@.len(),
                forall|j: int| 0 <= j < i ==> self.active@[j] != id,
            decreases self.active@.len() - i,
        {
            if self.active[i] == id {
                return Some(i);
            }
            i = i + 1;
        }
        None
    }

    /// Record the terminal outcome of the active transfer in `slot`.
    /// Only that transfer leaves the active set; every other pending or
    /// active transfer is untouched, whether the outcome is a success or
    /// a failure.
    pub fn complete(&mut self, slot: usize, outcome: TransferOutcome)
        requires
            old(self).wf(),
            slot < old(self).spec_active().len(),
            outcome.spec_id() == old(self).spec_active()[slot as int],
        ensures
            final(self).wf(),
            final(self).spec_ids() == old(self).spec_ids(),
            final(self).spec_cap() == old(self).spec_cap(),
            final(self).launched() == old(self).launched(),
            final(self).spec_active() == old(self).spec_active().remove(slot as int),
            final(self).spec_outcomes() == old(self).spec_outcomes().push(outcome),
    {
        let ghost prior = *old(self);
        let removed = self.active.remove(slot);
        self.outcomes.push(outcome);
        proof {
            broadcast use vstd::seq_lib::group_to_multiset_ensures;

            assert(outcome_ids(self.outcomes@).drop_last() =~= outcome_ids(prior.outcomes@))
                by {
                assert(self.outcomes@.drop_last() =~= prior.outcomes@);
                assert(outcome_ids(self.outcomes@) == outcome_ids(
                    self.outcomes@.drop_last(),
                ).push(outcome.spec_id()));
            }
            assert(outcome_ids(self.outcomes@) =~= outcome_ids(prior.outcomes@).push(
                outcome.spec_id(),
            ));
            assert(prior.active@.to_multiset().contains(removed)) by {
                assert(prior.active@[slot as int] == removed);
                assert(prior.active@.contains(removed));
            }
            assert(self.launched().to_multiset() =~= self.active@.to_multiset().add(
                outcome_ids(self.outcomes@).to_multiset(),
            ));
        }
    }

    /// Whether the run has reached its fan-in barrier: everything has
    /// been launched and nothing is still active.
    pub fn is_done(&self) -> (r: bool)
        requires
            self.wf(),
        ensures
            r == (self.launched().len() == self.spec_ids().len() && self.spec_active().len()
                == 0),
    {
        self.next == self.ids.len() && self.active.len() == 0
    }

    /// The final tally of a finished run: every requested identifier is
    /// counted exactly once, as a success or as a failure.
    pub fn summary(&self) -> (r: Summary)
        requires
            self.wf(),
            self.launched().len() == self.spec_ids().len(),
            self.spec_active().len() == 0,
        ensures
            r.succeeded == count_successes(self.spec_outcomes()),
            r.succeeded + r.failed == self.spec_outcomes().len(),
            self.spec_outcomes().len() == self.spec_ids().len(),
    {
        tally(&self.outcomes)
    }
}

/// In every well-formed scheduler state, at most `cap` transfers are
/// simultaneously active, however many identifiers the run holds.
pub proof fn lemma_cap_respected(s: Scheduler)
    requires
        s.wf(),
    ensures
        s.spec_active().len() <= s.spec_cap(),
{
}

/// When a run has finished, its outcomes account for exactly the
/// requested identifiers: each occurrence of an identifier in the run's
/// list is matched by exactly one terminal outcome, never two.
pub proof fn lemma_outcomes_account_for_all(s: Scheduler)
    requires
        s.wf(),
        s.launched().len() == s.spec_ids().len(),
        s.spec_active().len() == 0,
    ensures
        outcome_ids(s.spec_outcomes()).to_multiset() == s.spec_ids().to_multiset(),
        s.spec_outcomes().len() == s.spec_ids().len(),
{
    broadcast use vstd::seq_lib::group_to_multiset_ensures;

    assert(s.launched() =~= s.spec_ids());
    assert(s.spec_active().to_multiset() =~= Seq::<u32>::empty().to_multiset());
    assert(s.spec_ids().to_multiset() =~= outcome_ids(s.spec_outcomes()).to_multiset());
}

/// One transfer's failure never reaches its siblings: recording an
/// outcome moves the run to the same pending and active state whether
/// that outcome succeeded or failed — the outcome's variant reaches only
/// the tally. The hypotheses are what `complete` ensures for a failing
/// and for a succeeding outcome of the same transfer.
pub proof fn lemma_failure_isolated(
    before: Scheduler,
    after_failure: Scheduler,
    after_success: Scheduler,
    slot: usize,
)
    requires
        before.wf(),
        slot < before.spec_active().len(),
        after_failure.spec_ids() == before.spec_ids(),
        after_failure.launched() == before.launched(),
        after_failure.spec_active() == before.spec_active().remove(slot as int),
        after_success.spec_ids() == before.spec_ids(),
        after_success.launched() == before.launched(),
        after_success.spec_active() == before.spec_active().remove(slot as int),
    ensures
        after_failure.spec_ids() == after_success.spec_ids(),
        after_failure.launched() == after_success.launched(),
        after_failure.spec_active() == after_success.spec_active(),
{
}

/// A failure outcome weighs exactly as much as a success in the fan-in
/// count: after a finished run, successes and failures together cover
/// the whole deduplicated request list.
pub proof fn lemma_tally_covers_run(s: Scheduler, r: Summary)
    requires
        s.wf(),
        s.launched().len() == s.spec_ids().len(),
        s.spec_active().len() == 0,
        r.succeeded == count_successes(s.spec_outcomes()),
        r.succeeded + r.failed == s.spec_outcomes().len(),
    ensures
        r.succeeded + r.failed == s.spec_ids().len(),
{
    lemma_count_successes_le_len(s.spec_outcomes());
}

} // verus!
