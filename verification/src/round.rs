//! Submission round: the decision core of the coordinator. A round starts
//! `Pending`, absorbs one outcome per backend as they arrive in any order,
//! commits the first moment the achieved count reaches the threshold without
//! waiting for stragglers, fails once every backend has terminated short of
//! the threshold, and cancels on the caller's signal. A terminated round
//! turns into an immutable receipt.
use vstd::prelude::*;
use vstd::pervasive::VecAdditionalExecFns;
use crate::strategy::{
    DAServerSubmitStrategy, lemma_threshold_in_range, resolve_threshold, spec_resolved_threshold,
};

verus! {

broadcast use vstd::seq::group_seq_axioms;

/// Why one backend's submission failed.
#[derive(Clone, Debug, PartialEq, Eq)]
pub enum SubmitFailureReason {
    Timeout,
    Rejected,
    Network,
    Other(String),
}

/// The terminal outcome of one backend's submission.
#[derive(Clone, Debug, PartialEq, Eq)]
pub enum SubmissionOutcome {
    /// The backend stored the segments; carries its opaque location.
    Success(String),
    Failure(SubmitFailureReason),
    TimedOut,
    Cancelled,
}

/// Overall state of a round.
#[derive(Clone, Copy, Debug, PartialEq, Eq)]
pub enum RoundStatus {
    Pending,
    Committed,
    Failed,
    Cancelled,
}

/// How many recorded outcomes are successes.
pub open spec fn count_successes(s: Seq<Option<SubmissionOutcome>>) -> nat
    decreases s.len(),
{
    if s.len() == 0 {
        0
    } else {
        count_successes(s.drop_last()) + (if s.last() matches Some(o) && o is Success {
            1nat
        } else {
            0
        })
    }
}

/// Every backend has reported an outcome.
pub open spec fn all_resolved(s: Seq<Option<SubmissionOutcome>>) -> bool {
    forall|i: int| 0 <= i < s.len() ==> (#[trigger] s[i]) is Some
}

proof fn lemma_count_le_len(s: Seq<Option<SubmissionOutcome>>)
    ensures
        count_successes(s) <= s.len(),
    decreases s.len(),
{
    if s.len() > 0 {
        lemma_count_le_len(s.drop_last());
    }
}

proof fn lemma_count_update(s: Seq<Option<SubmissionOutcome>>, i: int, v: SubmissionOutcome)
    requires
        0 <= i < s.len(),
        s[i] is None,
    ensures
        count_successes(s.update(i, Some(v))) == count_successes(s) + (if v is Success {
            1nat
        } else {
            0
        }),
    decreases s.len(),
{
    let t = s.update(i, Some(v));
    if i == s.len() - 1 {
        assert(t.drop_last() =~= s.drop_last());
        assert(t.last() == Some(v));
    } else {
        assert(t.drop_last() =~= s.drop_last().update(i, Some(v)));
        assert(t.last() == s.last());
        lemma_count_update(s.drop_last(), i, v);
    }
}

/// One in-flight submission round: one outcome slot per backend, the commit
/// threshold, the running count of successes, and the round's status.
#[derive(Debug)]
pub struct SubmissionRound {
    pub batch_id: u64,
    pub threshold: usize,
    pub slots: Vec<Option<SubmissionOutcome>>,
    pub achieved: usize,
    pub status: RoundStatus,
}

impl SubmissionRound {
    /// The round's internal invariant: the threshold is in range, the
    /// achieved count agrees with the recorded outcomes, and the status is
    /// exactly what the outcomes determine.
    pub open spec fn well_formed(self) -> bool {
        &&& 1 <= self.threshold <= self.slots@.len()
        &&& self.achieved == count_successes(self.slots@)
        &&& match self.status {
            RoundStatus::Pending => self.achieved < self.threshold && !all_resolved(self.slots@),
            RoundStatus::Committed => self.achieved >= self.threshold,
            RoundStatus::Failed => all_resolved(self.slots@) && self.achieved < self.threshold,
            RoundStatus::Cancelled => self.achieved < self.threshold,
        }
    }

    /// Open a round for `batch_id` against `backend_count` backends: the
    /// threshold is resolved from the strategy, no backend has reported, and
    /// the round is `Pending`.
    pub fn new(batch_id: u64, backend_count: usize, strategy: &DAServerSubmitStrategy) -> (r:
        SubmissionRound)
        requires
            backend_count >= 1,
        ensures
            r.well_formed(),
            r.batch_id == batch_id,
            r.threshold == spec_resolved_threshold(*strategy, backend_count as nat),
            r.slots@.len() == backend_count,
            forall|i: int| 0 <= i < backend_count ==> (#[trigger] r.slots@[i]) is None,
            r.achieved == 0,
            r.status == RoundStatus::Pending,
    {
        let threshold = resolve_threshold(strategy, backend_count);
        let mut slots: Vec<Option<SubmissionOutcome>> = Vec::new();
        let mut i: usize = 0;
        while i < backend_count
            invariant
                i <= backend_count,
                slots@.len() == i,
                forall|j: int| 0 <= j < i ==> (#[trigger] slots@[j]) is None,
                count_successes(slots@) == 0,
            decreases backend_count - i,
        {
            let ghost prev = slots@;
            slots.push(None);
            proof {
                assert(slots@.drop_last() =~= prev);
            }
            i += 1;
        }
        proof {
            lemma_threshold_in_range(*strategy, backend_count as nat);
            assert(slots@[0] is None);
            assert(!all_resolved(slots@));
        }
        SubmissionRound {
            batch_id,
            threshold,
            slots,
            achieved: 0,
            status: RoundStatus::Pending,
        }
    }

    /// Record one backend's outcome in a pending round. A success bumps the
    /// achieved count; the round commits the first moment the count reaches
    /// the threshold, fails once every backend has terminated short of it,
    /// and stays pending otherwise.
    pub fn record_outcome(&mut self, backend: usize, outcome: SubmissionOutcome)
        requires
            old(self).well_formed(),
            old(self).status == RoundStatus::Pending,
            backend < old(self).slots@.len(),
            old(self).slots@[backend as int] is None,
        ensures
            final(self).well_formed(),
            final(self).batch_id == old(self).batch_id,
            final(self).threshold == old(self).threshold,
            final(self).slots@ == old(self).slots@.update(backend as int, Some(outcome)),
            final(self).achieved == old(self).achieved + (if outcome is Success {
                1int
            } else {
                0
            }),
            final(self).status == (if final(self).achieved >= final(self).threshold {
                RoundStatus::Committed
            } else if all_resolved(final(self).slots@) {
                RoundStatus::Failed
            } else {
                RoundStatus::Pending
            }),
    {
        let is_success = matches!(outcome, SubmissionOutcome::Success(_));
        proof {
            lemma_count_update(self.slots@, backend as int, outcome);
            lemma_count_le_len(self.slots@.update(backend as int, Some(outcome)));
        }
        self.slots.set(backend, Some(outcome));
        if is_success {
            self.achieved = self.achieved + 1;
        }
        if self.achieved >= self.threshold {
            self.status = RoundStatus::Committed;
        } else if Self::all_slots_resolved(&self.slots) {
            self.status = RoundStatus::Failed;
        }
    }

    /// Whether every backend has reported.
    fn all_slots_resolved(slots: &Vec<Option<SubmissionOutcome>>) -> (b: bool)
        ensures
            b == all_resolved(slots@),
    {
        let n = slots.len();
        let mut i: usize = 0;
        while i < n
            invariant
                i <= n == slots@.len(),
                forall|j: int| 0 <= j < i ==> (#[trigger] slots@[j]) is Some,
            decreases n - i,
        {
            if slots[i].is_none() {
                return false;
            }
            i += 1;
        }
        true
    }

    /// The caller's cancellation signal: abort a pending round. Outstanding
    /// backends are marked `Cancelled`; outcomes already recorded are kept.
    pub fn cancel(&mut self)
        requires
            old(self).well_formed(),
            old(self).status == RoundStatus::Pending,
        ensures
            final(self).well_formed(),
            final(self).batch_id == old(self).batch_id,
            final(self).threshold == old(self).threshold,
            final(self).achieved == old(self).achieved,
            final(self).status == RoundStatus::Cancelled,
            final(self).slots@.len() == old(self).slots@.len(),
            forall|i: int|
                0 <= i < old(self).slots@.len() && old(self).slots@[i] is Some ==> (
                #[trigger] final(self).slots@[i]) == old(self).slots@[i],
            forall|i: int|
                0 <= i < old(self).slots@.len() && old(self).slots@[i] is None ==> (
                #[trigger] final(self).slots@[i]) == Some(SubmissionOutcome::Cancelled),
    {
        let n = self.slots.len();
        let mut i: usize = 0;
        while i < n
            invariant
                i <= n == self.slots@.len(),
                self.batch_id == old(self).batch_id,
                self.threshold == old(self).threshold,
                self.achieved == old(self).achieved,
                self.status == old(self).status,
                count_successes(self.slots@) == count_successes(old(self).slots@),
                forall|j: int|
                    0 <= j < n && old(self).slots@[j] is Some ==> (#[trigger] self.slots@[j])
                        == old(self).slots@[j],
                forall|j: int|
                    0 <= j < i && old(self).slots@[j] is None ==> (#[trigger] self.slots@[j])
                        == Some(SubmissionOutcome::Cancelled),
                forall|j: int|
                    i <= j < n ==> (#[trigger] self.slots@[j]) == old(self).slots@[j],
            decreases n - i,
        {
            if self.slots[i].is_none() {
                proof {
                    lemma_count_update(self.slots@, i as int, SubmissionOutcome::Cancelled);
                }
                self.slots.set(i, Some(SubmissionOutcome::Cancelled));
            }
            i += 1;
        }
        self.status = RoundStatus::Cancelled;
    }
}

/// How many outcomes in a receipt are successes.
pub open spec fn count_success_outcomes(s: Seq<SubmissionOutcome>) -> nat
    decreases s.len(),
{
    if s.len() == 0 {
        0
    } else {
        count_success_outcomes(s.drop_last()) + (if s.last() is Success {
            1nat
        } else {
            0
        })
    }
}

/// The immutable record of one terminated round: built once by the
/// aggregator, never mutated afterward.
#[derive(Clone, Debug, PartialEq, Eq)]
pub struct SubmissionReceipt {
    pub batch_id: u64,
    pub threshold: usize,
    pub achieved: usize,
    pub outcomes: Vec<SubmissionOutcome>,
    pub status: RoundStatus,
}

/// The receipt invariant: a terminal status, a threshold in range, an
/// achieved count that agrees with the outcome list, and `Committed` exactly
/// when the count reached the threshold.
pub open spec fn receipt_well_formed(r: SubmissionReceipt) -> bool {
    &&& !(r.status is Pending)
    &&& 1 <= r.threshold <= r.outcomes@.len()
    &&& r.achieved == count_success_outcomes(r.outcomes@)
    &&& (r.status is Committed <==> r.achieved >= r.threshold)
}

/// Law: a well-formed receipt reads `Committed` exactly when the achieved
/// count reached the threshold, whatever mix of outcomes produced it.
pub proof fn lemma_receipt_commit_iff(r: SubmissionReceipt)
    requires
        receipt_well_formed(r),
    ensures
        r.status is Committed <==> r.achieved >= r.threshold,
{
}

proof fn lemma_count_outcomes_push(s: Seq<SubmissionOutcome>, o: SubmissionOutcome)
    ensures
        count_success_outcomes(s.push(o)) == count_success_outcomes(s) + (if o is Success {
            1nat
        } else {
            0
        }),
{
    assert(s.push(o).drop_last() =~= s);
    assert(s.push(o).last() == o);
}

proof fn lemma_count_take_step(s: Seq<Option<SubmissionOutcome>>, i: int)
    requires
        0 <= i < s.len(),
    ensures
        count_successes(s.take(i + 1)) == count_successes(s.take(i)) + (if s[i] matches Some(o)
            && o is Success {
            1nat
        } else {
            0
        }),
{
    assert(s.take(i + 1).drop_last() =~= s.take(i));
    assert(s.take(i + 1).last() == s[i]);
}

impl SubmissionRound {
    /// Seal a terminated round into its receipt. Each backend that reported
    /// keeps its outcome; a backend still outstanding at termination was
    /// actively cancelled, so it reads `Cancelled`.
    pub fn into_receipt(self) -> (r: SubmissionReceipt)
        requires
            self.well_formed(),
            self.status != RoundStatus::Pending,
        ensures
            receipt_well_formed(r),
            r.batch_id == self.batch_id,
            r.threshold == self.threshold,
            r.achieved == self.achieved,
            r.status == self.status,
            r.outcomes@.len() == self.slots@.len(),
            forall|i: int|
                0 <= i < self.slots@.len() ==> (#[trigger] r.outcomes@[i]) == (
                match self.slots@[i] {
                    Some(o) => o,
                    None => SubmissionOutcome::Cancelled,
                }),
    {
        let n = self.slots.len();
        let mut slots = self.slots;
        let mut outcomes: Vec<SubmissionOutcome> = Vec::new();
        let ghost orig = slots@;
        let mut i: usize = 0;
        while i < n
            invariant
                i <= n == orig.len(),
                slots@ == orig.skip(i as int),
                outcomes@.len() == i,
                count_success_outcomes(outcomes@) == count_successes(orig.take(i as int)),
                forall|j: int|
                    0 <= j < i ==> (#[trigger] outcomes@[j]) == (match orig[j] {
                        Some(o) => o,
                        None => SubmissionOutcome::Cancelled,
                    }),
            decreases n - i,
        {
            let ghost prev_outcomes = outcomes@;
            let slot = slots.remove(0);
            let o = match slot {
                Some(o) => o,
                None => SubmissionOutcome::Cancelled,
            };
            proof {
                assert(orig.skip(i as int)[0] == orig[i as int]);
                lemma_count_take_step(orig, i as int);
                lemma_count_outcomes_push(prev_outcomes, o);
                assert(orig.skip(i as int).remove(0) =~= orig.skip(i + 1));
            }
            outcomes.push(o);
            i += 1;
        }
        proof {
            assert(orig.take(n as int) =~= orig);
        }
        SubmissionReceipt {
            batch_id: self.batch_id,
            threshold: self.threshold,
            achieved: self.achieved,
            outcomes,
            status: self.status,
        }
    }
}

} // verus!
