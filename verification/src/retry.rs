//! Bounded retry of one remote request, as a state machine: the caller
//! performs each attempt and each pause, and reports how the attempt went.

use vstd::prelude::*;

verus! {

/// Attempts made for one request before it is given up.
pub const MAX_ATTEMPTS: u8 = 3;

/// Pause between two attempts, in milliseconds.
pub const RETRY_PAUSE_MS: u64 = 2000;

/// How one attempt went.
#[derive(Clone, Copy, Debug, PartialEq, Eq, Structural)]
pub enum AttemptOutcome {
    /// The request could not be constructed.
    BuildFailed,
    /// The request was sent and no response arrived.
    TransportFailed,
    /// A response arrived with this status code.
    Status(u16),
}

#[derive(Clone, Copy, Debug, PartialEq, Eq, Structural)]
pub enum RetryState {
    /// Nothing was sent yet.
    Idle,
    /// The attempt with this number, counted from one, is under way.
    Attempting(u8),
    /// An attempt returned a success status.
    Succeeded,
    /// Every attempt failed.
    Exhausted,
}

/// What the caller has to do next.
#[derive(Clone, Copy, Debug, PartialEq, Eq, Structural)]
pub enum RetryAction {
    /// Send the request now.
    Attempt,
    /// Wait for `RETRY_PAUSE_MS`, then send the request again.
    PauseThenAttempt,
    /// Hand out the body of the response just received.
    Deliver,
    /// Fail, carrying the cause of the last failed attempt.
    GiveUp(AttemptOutcome),
}

/// A response counts as success when its status lies in 200..=299.
pub open spec fn is_success(outcome: AttemptOutcome) -> bool {
    outcome matches AttemptOutcome::Status(code) && 200 <= code < 300
}

/// The mathematical state of a retry session.
pub struct RetryView {
    pub state: RetryState,
    /// Pauses that the caller was asked to make so far.
    pub pauses: nat,
    /// Outcome of the most recent failed attempt.
    pub last_failure: Option<AttemptOutcome>,
}

impl RetryView {
    pub open spec fn initial() -> RetryView {
        RetryView { state: RetryState::Idle, pauses: 0, last_failure: None }
    }

    /// Attempts started so far.
    pub open spec fn attempts(self) -> nat {
        match self.state {
            RetryState::Idle => 0,
            RetryState::Attempting(n) => n as nat,
            RetryState::Succeeded => self.pauses + 1,
            RetryState::Exhausted => MAX_ATTEMPTS as nat,
        }
    }

    /// There is one pause between two consecutive attempts and none
    /// elsewhere, and a session is exhausted only by failures.
    pub open spec fn wf(self) -> bool {
        &&& self.attempts() <= MAX_ATTEMPTS
        &&& self.state !is Idle ==> self.pauses + 1 == self.attempts()
        &&& self.state is Idle ==> self.pauses == 0 && self.last_failure is None
        &&& self.state is Exhausted ==> self.last_failure is Some
        &&& self.last_failure matches Some(cause) ==> !is_success(cause)
    }

    /// State and action after the attempt under way ended with `outcome`.
    pub open spec fn after_outcome(self, outcome: AttemptOutcome) -> (RetryView, RetryAction)
        recommends
            self.state is Attempting,
    {
        if is_success(outcome) {
            (
                RetryView {
                    state: RetryState::Succeeded,
                    pauses: self.pauses,
                    last_failure: self.last_failure,
                },
                RetryAction::Deliver,
            )
        } else if self.attempts() < MAX_ATTEMPTS {
            (
                RetryView {
                    state: RetryState::Attempting((self.attempts() + 1) as u8),
                    pauses: self.pauses + 1,
                    last_failure: Some(outcome),
                },
                RetryAction::PauseThenAttempt,
            )
        } else {
            (
                RetryView {
                    state: RetryState::Exhausted,
                    pauses: self.pauses,
                    last_failure: Some(outcome),
                },
                RetryAction::GiveUp(outcome),
            )
        }
    }

    /// State after the outcomes of consecutive attempts, as long as an
    /// attempt is under way; later outcomes are not consumed.
    pub open spec fn after_outcomes(self, outcomes: Seq<AttemptOutcome>) -> RetryView
        decreases outcomes.len(),
    {
        if outcomes.len() == 0 {
            self
        } else {
            let mid = self.after_outcomes(outcomes.drop_last());
            if mid.state is Attempting {
                mid.after_outcome(outcomes.last()).0
            } else {
                mid
            }
        }
    }

    /// The session right after its first attempt was started.
    pub open spec fn started() -> RetryView {
        RetryView { state: RetryState::Attempting(1), pauses: 0, last_failure: None }
    }
}

pub fn is_success_status(code: u16) -> (b: bool)
    ensures
        b == is_success(AttemptOutcome::Status(code)),
{
    200 <= code && code < 300
}

/// The retry bookkeeping of one request.
pub struct RetrySession {
    state: RetryState,
    pauses: u8,
    last_failure: Option<AttemptOutcome>,
}

impl View for RetrySession {
    type V = RetryView;

    closed spec fn view(&self) -> RetryView {
        RetryView {
            state: self.state,
            pauses: self.pauses as nat,
            last_failure: self.last_failure,
        }
    }
}

impl RetrySession {
    pub fn new() -> (s: RetrySession)
        ensures
            s@ == RetryView::initial(),
            s@.wf(),
    {
        RetrySession { state: RetryState::Idle, pauses: 0, last_failure: None }
    }

    pub fn state(&self) -> (s: RetryState)
        ensures
            s == self@.state,
    {
        self.state
    }

    pub fn pauses(&self) -> (n: u8)
        ensures
            n == self@.pauses,
    {
        self.pauses
    }

    pub fn last_failure(&self) -> (c: Option<AttemptOutcome>)
        ensures
            c == self@.last_failure,
    {
        self.last_failure
    }

    /// Attempts started so far.
    pub fn attempts(&self) -> (n: u8)
        requires
            self@.wf(),
        ensures
            n == self@.attempts(),
    {
        match self.state {
            RetryState::Idle => 0,
            RetryState::Attempting(n) => n,
            RetryState::Succeeded => self.pauses + 1,
            RetryState::Exhausted => MAX_ATTEMPTS,
        }
    }

    /// Starts the first attempt.
    pub fn start(&mut self) -> (action: RetryAction)
        requires
            old(self)@ == RetryView::initial(),
        ensures
            final(self)@ == RetryView::started(),
            final(self)@.wf(),
            action == RetryAction::Attempt,
    {
        self.state = RetryState::Attempting(1);
        RetryAction::Attempt
    }

    /// Records how the attempt under way ended and says what to do next.
    pub fn on_outcome(&mut self, outcome: AttemptOutcome) -> (action: RetryAction)
        requires
            old(self)@.wf(),
            old(self)@.state is Attempting,
        ensures
            final(self)@.wf(),
            (final(self)@, action) == old(self)@.after_outcome(outcome),
    {
        let n: u8 = match self.state {
            RetryState::Attempting(n) => n,
            _ => 0,
        };
        let success = match outcome {
            AttemptOutcome::Status(code) => is_success_status(code),
            _ => false,
        };
        if success {
            self.state = RetryState::Succeeded;
            RetryAction::Deliver
        } else if n < MAX_ATTEMPTS {
            self.state = RetryState::Attempting(n + 1);
            self.pauses = self.pauses + 1;
            self.last_failure = Some(outcome);
            RetryAction::PauseThenAttempt
        } else {
            self.state = RetryState::Exhausted;
            self.last_failure = Some(outcome);
            RetryAction::GiveUp(outcome)
        }
    }

    /// Runs a started session against the recorded outcomes of consecutive
    /// attempts, and stops reading them once the request has succeeded or
    /// is given up.
    pub fn replay(outcomes: &Vec<AttemptOutcome>) -> (s: RetrySession)
        ensures
            s@ == RetryView::started().after_outcomes(outcomes@),
            s@.wf(),
    {
        let mut session = RetrySession::new();
        let _ = session.start();
        let mut i: usize = 0;
        assert(outcomes@.take(0) =~= Seq::<AttemptOutcome>::empty());
        while i < outcomes.len()
            invariant
                i <= outcomes.len(),
                session@.wf(),
                session@ == RetryView::started().after_outcomes(outcomes@.take(i as int)),
            decreases outcomes.len() - i,
        {
            proof {
                assert(outcomes@.take(i + 1).drop_last() =~= outcomes@.take(i as int));
            }
            match session.state {
                RetryState::Attempting(_) => {
                    let _ = session.on_outcome(outcomes[i]);
                },
                _ => {},
            }
            i += 1;
        }
        assert(outcomes@.take(i as int) =~= outcomes@);
        session
    }
}

/// A request succeeds at the first attempt that returns a success status,
/// provided that it is one of the first three; one pause was made before
/// every attempt but the first.
pub proof fn lemma_first_success_wins(outcomes: Seq<AttemptOutcome>, k: int)
    requires
        0 <= k < outcomes.len(),
        k < MAX_ATTEMPTS,
        is_success(outcomes[k]),
        forall|j: int| 0 <= j < k ==> !is_success(#[trigger] outcomes[j]),
    ensures
        RetryView::started().after_outcomes(outcomes).state is Succeeded,
        RetryView::started().after_outcomes(outcomes).pauses == k,
        RetryView::started().after_outcomes(outcomes).attempts() == k + 1,
{
    lemma_failures_keep_attempting(outcomes.take(k));
    assert(outcomes.take(k + 1).drop_last() =~= outcomes.take(k));
    lemma_settled_stays(outcomes, k + 1);
}

/// After three failed attempts the request is given up with the cause of
/// the third, and two pauses were made.
pub proof fn lemma_three_failures_exhaust(outcomes: Seq<AttemptOutcome>)
    requires
        outcomes.len() >= MAX_ATTEMPTS,
        forall|j: int| 0 <= j < MAX_ATTEMPTS ==> !is_success(#[trigger] outcomes[j]),
    ensures
        RetryView::started().after_outcomes(outcomes).state is Exhausted,
        RetryView::started().after_outcomes(outcomes).pauses == MAX_ATTEMPTS - 1,
        RetryView::started().after_outcomes(outcomes).last_failure == Some(outcomes[2]),
{
    lemma_failures_keep_attempting(outcomes.take(2));
    assert(outcomes.take(3).drop_last() =~= outcomes.take(2));
    lemma_settled_stays(outcomes, 3);
}

proof fn lemma_failures_keep_attempting(outcomes: Seq<AttemptOutcome>)
    requires
        outcomes.len() < MAX_ATTEMPTS,
        forall|j: int| 0 <= j < outcomes.len() ==> !is_success(#[trigger] outcomes[j]),
    ensures
        RetryView::started().after_outcomes(outcomes).state == RetryState::Attempting(
            (outcomes.len() + 1) as u8,
        ),
        RetryView::started().after_outcomes(outcomes).pauses == outcomes.len(),
    decreases outcomes.len(),
{
    if outcomes.len() > 0 {
        lemma_failures_keep_attempting(outcomes.drop_last());
    }
}

proof fn lemma_settled_stays(outcomes: Seq<AttemptOutcome>, n: int)
    requires
        0 <= n <= outcomes.len(),
        !(RetryView::started().after_outcomes(outcomes.take(n)).state is Attempting),
    ensures
        RetryView::started().after_outcomes(outcomes) == RetryView::started().after_outcomes(
            outcomes.take(n),
        ),
    decreases outcomes.len() - n,
{
    if n < outcomes.len() {
        assert(outcomes.take(n + 1).drop_last() =~= outcomes.take(n));
        lemma_settled_stays(outcomes, n + 1);
    } else {
        assert(outcomes.take(n) =~= outcomes);
    }
}

} // verus!
