use da_coordinator::{
    DAServerSubmitStrategy, RoundStatus, SubmissionOutcome, SubmissionRound, SubmitFailureReason,
};

#[test]
fn test_commit_without_waiting_for_straggler() {
    // Three backends under Number(2): two early successes commit the round
    // while the third has not responded.
    let strategy = DAServerSubmitStrategy::Number(2);
    let mut round = SubmissionRound::new(42, 3, &strategy);
    assert_eq!(round.threshold, 2);
    assert_eq!(round.status, RoundStatus::Pending);

    round.record_outcome(0, SubmissionOutcome::Success("loc-a".to_string()));
    assert_eq!(round.status, RoundStatus::Pending);

    round.record_outcome(1, SubmissionOutcome::Success("loc-b".to_string()));
    assert_eq!(round.status, RoundStatus::Committed);
    assert_eq!(round.achieved, 2);

    // Backend 2 never responded; the receipt marks it cancelled.
    let receipt = round.into_receipt();
    assert_eq!(receipt.status, RoundStatus::Committed);
    assert_eq!(receipt.achieved, 2);
    assert_eq!(receipt.threshold, 2);
    assert_eq!(receipt.batch_id, 42);
    assert_eq!(receipt.outcomes.len(), 3);
    assert_eq!(
        receipt.outcomes[0],
        SubmissionOutcome::Success("loc-a".to_string())
    );
    assert_eq!(
        receipt.outcomes[1],
        SubmissionOutcome::Success("loc-b".to_string())
    );
    assert_eq!(receipt.outcomes[2], SubmissionOutcome::Cancelled);
}

#[test]
fn test_all_strategy_fails_despite_two_successes() {
    // Three backends under All: one rejection makes the round fail even
    // though two of three succeeded.
    let strategy = DAServerSubmitStrategy::All;
    let mut round = SubmissionRound::new(7, 3, &strategy);
    assert_eq!(round.threshold, 3);

    round.record_outcome(0, SubmissionOutcome::Success("loc-a".to_string()));
    assert_eq!(round.status, RoundStatus::Pending);
    round.record_outcome(
        1,
        SubmissionOutcome::Failure(SubmitFailureReason::Rejected),
    );
    assert_eq!(round.status, RoundStatus::Pending);
    round.record_outcome(2, SubmissionOutcome::Success("loc-c".to_string()));

    assert_eq!(round.status, RoundStatus::Failed);
    assert_eq!(round.achieved, 2);

    let receipt = round.into_receipt();
    assert_eq!(receipt.status, RoundStatus::Failed);
    assert_eq!(receipt.achieved, 2);
    // The full per-backend outcome list survives for diagnosis.
    assert_eq!(
        receipt.outcomes[1],
        SubmissionOutcome::Failure(SubmitFailureReason::Rejected)
    );
}

#[test]
fn test_cancellation_before_any_outcome() {
    // The caller cancels while no backend has responded: the round is
    // cancelled and every backend reads as cancelled in the receipt.
    let strategy = DAServerSubmitStrategy::Quorum;
    let mut round = SubmissionRound::new(5, 3, &strategy);
    round.cancel();
    assert_eq!(round.status, RoundStatus::Cancelled);

    let receipt = round.into_receipt();
    assert_eq!(receipt.status, RoundStatus::Cancelled);
    assert_eq!(receipt.achieved, 0);
    assert_eq!(receipt.outcomes.len(), 3);
    for outcome in &receipt.outcomes {
        assert_eq!(*outcome, SubmissionOutcome::Cancelled);
    }
}

#[test]
fn test_cancellation_keeps_recorded_outcomes() {
    let strategy = DAServerSubmitStrategy::All;
    let mut round = SubmissionRound::new(5, 2, &strategy);
    round.record_outcome(1, SubmissionOutcome::TimedOut);
    round.cancel();

    let receipt = round.into_receipt();
    assert_eq!(receipt.status, RoundStatus::Cancelled);
    assert_eq!(receipt.outcomes[0], SubmissionOutcome::Cancelled);
    assert_eq!(receipt.outcomes[1], SubmissionOutcome::TimedOut);
}

#[test]
fn test_failed_round_carries_every_outcome() {
    let strategy = DAServerSubmitStrategy::Quorum;
    let mut round = SubmissionRound::new(11, 3, &strategy);
    assert_eq!(round.threshold, 2);
    round.record_outcome(0, SubmissionOutcome::TimedOut);
    round.record_outcome(
        2,
        SubmissionOutcome::Failure(SubmitFailureReason::Network),
    );
    assert_eq!(round.status, RoundStatus::Pending);
    round.record_outcome(1, SubmissionOutcome::Success("loc".to_string()));

    // All terminated, one success of a needed two: failed.
    assert_eq!(round.status, RoundStatus::Failed);
    let receipt = round.into_receipt();
    assert_eq!(receipt.status, RoundStatus::Failed);
    assert_eq!(receipt.achieved, 1);
    assert_eq!(receipt.outcomes[0], SubmissionOutcome::TimedOut);
    assert_eq!(
        receipt.outcomes[2],
        SubmissionOutcome::Failure(SubmitFailureReason::Network)
    );
}

#[test]
fn test_timeout_counts_like_failure_for_threshold() {
    let strategy = DAServerSubmitStrategy::Number(1);
    let mut round = SubmissionRound::new(1, 2, &strategy);
    round.record_outcome(0, SubmissionOutcome::TimedOut);
    assert_eq!(round.status, RoundStatus::Pending);
    round.record_outcome(1, SubmissionOutcome::Success("loc".to_string()));
    assert_eq!(round.status, RoundStatus::Committed);
}
