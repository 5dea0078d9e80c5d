use baitts::retry::{
    is_success_status, AttemptOutcome, RetryAction, RetrySession, RetryState, MAX_ATTEMPTS,
    RETRY_PAUSE_MS,
};

#[test]
fn two_server_errors_then_success() {
    let mut session = RetrySession::new();
    assert_eq!(session.state(), RetryState::Idle);
    assert_eq!(session.start(), RetryAction::Attempt);
    assert_eq!(session.state(), RetryState::Attempting(1));
    assert_eq!(session.on_outcome(AttemptOutcome::Status(500)), RetryAction::PauseThenAttempt);
    assert_eq!(session.state(), RetryState::Attempting(2));
    assert_eq!(session.on_outcome(AttemptOutcome::Status(500)), RetryAction::PauseThenAttempt);
    assert_eq!(session.state(), RetryState::Attempting(3));
    assert_eq!(session.on_outcome(AttemptOutcome::Status(200)), RetryAction::Deliver);
    assert_eq!(session.state(), RetryState::Succeeded);
    assert_eq!(session.pauses(), 2);
    assert_eq!(session.attempts(), 3);
    assert_eq!(session.last_failure(), Some(AttemptOutcome::Status(500)));
}

#[test]
fn replay_of_two_errors_and_a_success() {
    let session = RetrySession::replay(&vec![
        AttemptOutcome::Status(500),
        AttemptOutcome::Status(500),
        AttemptOutcome::Status(200),
    ]);
    assert_eq!(session.state(), RetryState::Succeeded);
    assert_eq!(session.pauses(), 2);
    assert_eq!(session.attempts(), 3);
}

#[test]
fn success_at_once_needs_no_pause() {
    let mut session = RetrySession::new();
    session.start();
    assert_eq!(session.on_outcome(AttemptOutcome::Status(204)), RetryAction::Deliver);
    assert_eq!(session.pauses(), 0);
    assert_eq!(session.attempts(), 1);
    assert_eq!(session.last_failure(), None);
}

#[test]
fn three_failures_give_up_with_the_last_cause() {
    let mut session = RetrySession::new();
    session.start();
    assert_eq!(session.on_outcome(AttemptOutcome::BuildFailed), RetryAction::PauseThenAttempt);
    assert_eq!(session.on_outcome(AttemptOutcome::Status(503)), RetryAction::PauseThenAttempt);
    assert_eq!(
        session.on_outcome(AttemptOutcome::TransportFailed),
        RetryAction::GiveUp(AttemptOutcome::TransportFailed)
    );
    assert_eq!(session.state(), RetryState::Exhausted);
    assert_eq!(session.pauses(), 2);
    assert_eq!(session.attempts(), 3);
    assert_eq!(session.last_failure(), Some(AttemptOutcome::TransportFailed));
}

#[test]
fn replay_stops_reading_once_settled() {
    let session = RetrySession::replay(&vec![
        AttemptOutcome::TransportFailed,
        AttemptOutcome::Status(200),
        AttemptOutcome::Status(500),
        AttemptOutcome::Status(500),
    ]);
    assert_eq!(session.state(), RetryState::Succeeded);
    assert_eq!(session.pauses(), 1);
    let session = RetrySession::replay(&vec![
        AttemptOutcome::Status(404),
        AttemptOutcome::Status(404),
        AttemptOutcome::Status(404),
        AttemptOutcome::Status(200),
    ]);
    assert_eq!(session.state(), RetryState::Exhausted);
    assert_eq!(session.last_failure(), Some(AttemptOutcome::Status(404)));
}

#[test]
fn replay_of_too_few_outcomes_is_still_attempting() {
    let session = RetrySession::replay(&vec![]);
    assert_eq!(session.state(), RetryState::Attempting(1));
    let session = RetrySession::replay(&vec![AttemptOutcome::Status(500)]);
    assert_eq!(session.state(), RetryState::Attempting(2));
    assert_eq!(session.pauses(), 1);
}

#[test]
fn success_range_is_200_to_299() {
    assert!(!is_success_status(199));
    assert!(is_success_status(200));
    assert!(is_success_status(299));
    assert!(!is_success_status(300));
    assert!(!is_success_status(500));
    assert!(!is_success_status(0));
}

#[test]
fn policy_constants() {
    assert_eq!(MAX_ATTEMPTS, 3);
    assert_eq!(RETRY_PAUSE_MS, 2000);
}
