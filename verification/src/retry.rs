//! The bounded retry policy of the API client: the decisions of the
//! send-with-retry routine, free of any transport. The caller performs
//! each attempt, hands the outcome in, and follows the decision.

use vstd::prelude::*;

verus! {

use crate::models::AppError;

/// Total number of attempts one request is given: one initial try and two
/// retries.
pub const MAX_ATTEMPTS: usize = 3;

/// Fixed pause between attempts, in milliseconds; deliberately not an
/// exponential backoff.
pub const RETRY_DELAY_MS: u64 = 500;

/// What one attempt at a request came to.
#[derive(Clone, Debug, PartialEq)]
pub enum AttemptOutcome {
    /// The request went through and its body decoded.
    Success,
    /// The transport failed before a response arrived.
    TransportFailure(String),
    /// The service answered with this non-success HTTP status.
    HttpStatus(u16),
    /// A response arrived but its body did not decode as JSON.
    DecodeFailure(String),
}

/// What the client does after an attempt.
#[derive(Clone, Copy, Debug, PartialEq, Eq, Structural)]
pub enum RetryDecision {
    /// The attempt succeeded: stop and use the response.
    Accept,
    /// Try again after this many milliseconds.
    RetryAfter(u64),
    /// Stop and report the outcome's error.
    GiveUp,
}

/// Outcomes the policy retries: transport failures and non-success HTTP
/// statuses. A decode failure is reported immediately, and kept distinct
/// from a transport failure.
pub open spec fn retryable(o: AttemptOutcome) -> bool {
    o is TransportFailure || o is HttpStatus
}

/// `r` reports `o`: nothing on success, and the matching error kind —
/// with the outcome's own message or status — otherwise.
pub open spec fn reports(r: Option<AppError>, o: AttemptOutcome) -> bool {
    match o {
        AttemptOutcome::Success => r is None,
        AttemptOutcome::TransportFailure(m) => (r matches Some(AppError::RequestError(t)) && t@
            == m@),
        AttemptOutcome::HttpStatus(s) => r == Some(AppError::ApiError(s)),
        AttemptOutcome::DecodeFailure(m) => (r matches Some(AppError::JsonRequestError(t)) && t@
            == m@),
    }
}

/// The error an outcome reports, if any.
pub fn error_of_outcome(o: &AttemptOutcome) -> (r: Option<AppError>)
    ensures
        reports(r, *o),
{
    match o {
        AttemptOutcome::Success => None,
        AttemptOutcome::TransportFailure(m) => Some(AppError::RequestError(m.clone())),
        AttemptOutcome::HttpStatus(s) => Some(AppError::ApiError(*s)),
        AttemptOutcome::DecodeFailure(m) => Some(AppError::JsonRequestError(m.clone())),
    }
}

/// The decision that follows the outcome of attempt number
/// `attempts_made`: success stands, a decode failure is reported at once,
/// and a retryable failure is retried after the fixed delay until the
/// attempt budget is spent.
pub open spec fn spec_retry_decision(attempts_made: int, o: AttemptOutcome) -> RetryDecision {
    if o is Success {
        RetryDecision::Accept
    } else if !retryable(o) {
        RetryDecision::GiveUp
    } else if attempts_made < MAX_ATTEMPTS {
        RetryDecision::RetryAfter(RETRY_DELAY_MS)
    } else {
        RetryDecision::GiveUp
    }
}

pub fn retry_decision(attempts_made: usize, outcome: &AttemptOutcome) -> (r: RetryDecision)
    requires
        attempts_made >= 1,
    ensures
        r == spec_retry_decision(attempts_made as int, *outcome),
{
    match outcome {
        AttemptOutcome::Success => RetryDecision::Accept,
        AttemptOutcome::DecodeFailure(_) => RetryDecision::GiveUp,
        _ => {
            if attempts_made < MAX_ATTEMPTS {
                RetryDecision::RetryAfter(RETRY_DELAY_MS)
            } else {
                RetryDecision::GiveUp
            }
        },
    }
}

/// Attempts a run makes when attempts before number `k` were all retried:
/// it stops at the first outcome that is accepted or reported, or when the
/// budget is spent.
pub open spec fn attempts_from(outcomes: Seq<AttemptOutcome>, k: int) -> int
    recommends
        1 <= k <= MAX_ATTEMPTS <= outcomes.len(),
    decreases MAX_ATTEMPTS - k,
{
    if k >= MAX_ATTEMPTS || !retryable(outcomes[k - 1]) {
        k
    } else {
        attempts_from(outcomes, k + 1)
    }
}

/// Attempts a run over this transcript makes.
pub open spec fn spec_attempts_used(outcomes: Seq<AttemptOutcome>) -> int {
    attempts_from(outcomes, 1)
}

/// The record of one driven run: how many attempts were made, and what
/// the last of them reported.
#[derive(Clone, Debug, PartialEq)]
pub struct RetryRun {
    pub attempts: usize,
    /// `None` means the last attempt succeeded.
    pub error: Option<AppError>,
}

/// Drives the retry policy over a transcript, `outcomes[k]` being what
/// attempt `k + 1` would come to; at least `MAX_ATTEMPTS` outcomes make
/// the transcript long enough for any run. The run stops at the first
/// outcome whose decision is not to retry, and reports that outcome.
pub fn run_retry(outcomes: &Vec<AttemptOutcome>) -> (r: RetryRun)
    requires
        outcomes@.len() >= MAX_ATTEMPTS,
    ensures
        r.attempts == spec_attempts_used(outcomes@),
        1 <= r.attempts <= MAX_ATTEMPTS,
        reports(r.error, outcomes@[r.attempts - 1]),
{
    let mut k: usize = 1;
    loop
        invariant
            1 <= k <= MAX_ATTEMPTS <= outcomes@.len(),
            attempts_from(outcomes@, 1) == attempts_from(outcomes@, k as int),
        decreases MAX_ATTEMPTS - k,
    {
        let d = retry_decision(k, &outcomes[k - 1]);
        match d {
            RetryDecision::RetryAfter(_) => {
                k = k + 1;
            },
            _ => {
                return RetryRun { attempts: k, error: error_of_outcome(&outcomes[k - 1]) };
            },
        }
    }
}

/// Against a transport that always fails, exactly `MAX_ATTEMPTS` attempts
/// are made — one initial and two retries — before the error is reported.
pub proof fn lemma_retry_bound(outcomes: Seq<AttemptOutcome>)
    requires
        outcomes.len() >= MAX_ATTEMPTS,
        forall|i: int| 0 <= i < outcomes.len() ==> (#[trigger] outcomes[i]) is TransportFailure,
    ensures
        spec_attempts_used(outcomes) == MAX_ATTEMPTS,
{
    assert(attempts_from(outcomes, 1) == attempts_from(outcomes, 2));
    assert(attempts_from(outcomes, 2) == attempts_from(outcomes, 3));
    assert(attempts_from(outcomes, 3) == 3);
}

} // verus!
