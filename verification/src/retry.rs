use vstd::arithmetic::power2::{lemma2_to64, lemma2_to64_rest, lemma_pow2_unfold, pow2};
use vstd::prelude::*;

verus! {

/// The largest number of failed attempts after which a back-off delay,
/// `100 * 2^retries` milliseconds, still fits in a `u64`.
pub const MAX_BACKOFF_RETRIES: usize = 57;

/// How one attempt to send a request to a node ended.
#[derive(Debug, Clone, PartialEq, Eq)]
pub enum AttemptOutcome {
    /// The node answered with a success status.
    Success,
    /// The node answered with another status.
    NonSuccessStatus,
    /// The request failed with this message.
    TransportError(String),
    /// No answer came within the time limit.
    TimedOut,
}

/// Why a request failed for good.
#[derive(Debug, Clone, PartialEq, Eq)]
pub enum RequestError {
    /// The last failed attempt failed with this message.
    Transport(String),
    /// The last failed attempt timed out.
    TimedOut,
    /// Every attempt got a non-success status (or none was allowed).
    MaxRetriesReached,
}

/// What to do next with a request.
#[derive(Debug, Clone, PartialEq, Eq)]
pub enum RetryAction {
    /// Send the request to the node.
    Send,
    /// Wait this many milliseconds, then send the request again.
    Backoff(u64),
    /// The node answered with a success status: read its answer.
    Succeeded,
    /// Give up with this error.
    Failed(RequestError),
}

/// Where a request stands among its attempts.
#[derive(Debug, Clone, PartialEq, Eq)]
pub struct RetryState {
    /// Failed attempts so far.
    pub retries: usize,
    /// Attempts allowed.
    pub max_retries: usize,
    /// The error of the last attempt that failed with an error, if any.
    pub last_error: Option<RequestError>,
}

/// The delay before the attempt that follows `retries` failed attempts.
pub open spec fn backoff_ms(retries: nat) -> nat {
    100 * pow2(retries)
}

/// The error that giving up reports.
pub open spec fn final_error(last: Option<RequestError>) -> RequestError {
    match last {
        Some(e) => e,
        None => RequestError::MaxRetriesReached,
    }
}

/// The error that a failed attempt leaves as the last error.
pub open spec fn error_after(last: Option<RequestError>, outcome: AttemptOutcome) -> Option<RequestError> {
    match outcome {
        AttemptOutcome::TransportError(m) => Some(RequestError::Transport(m)),
        AttemptOutcome::TimedOut => Some(RequestError::TimedOut),
        _ => last,
    }
}

/// A state the attempts can be in.
pub open spec fn retry_wf(s: RetryState) -> bool {
    s.retries <= s.max_retries
}

proof fn lemma_pow2_le(a: nat, b: nat)
    requires
        a <= b,
    ensures
        pow2(a) <= pow2(b),
    decreases b,
{
    if a < b {
        lemma_pow2_le(a, (b - 1) as nat);
        lemma_pow2_unfold(b);
    }
}

/// The delay before the next attempt, `100 * 2^retries` milliseconds.
pub fn backoff_delay(retries: usize) -> (r: u64)
    requires
        retries <= MAX_BACKOFF_RETRIES,
    ensures
        r == backoff_ms(retries as nat),
{
    proof {
        lemma2_to64();
        lemma2_to64_rest();
        assert forall|k: nat| k <= 57 implies #[trigger] pow2(k) <= pow2(57) by {
            lemma_pow2_le(k, 57);
        }
    }
    let mut d: u64 = 100;
    let mut j: usize = 0;
    while j < retries
        invariant
            j <= retries <= MAX_BACKOFF_RETRIES,
            d == 100 * pow2(j as nat),
            100 * pow2(57) < 0x10000000000000000,
            forall|k: nat| k <= 57 ==> #[trigger] pow2(k) <= pow2(57),
        decreases retries - j,
    {
        proof {
            lemma_pow2_unfold((j + 1) as nat);
            assert(pow2((j + 1) as nat) <= pow2(57));
        }
        d = d * 2;
        j = j + 1;
    }
    d
}

/// A copy of an error.
pub fn copy_error(e: &RequestError) -> (r: RequestError)
    ensures
        r == *e,
{
    match e {
        RequestError::Transport(m) => RequestError::Transport(m.clone()),
        RequestError::TimedOut => RequestError::TimedOut,
        RequestError::MaxRetriesReached => RequestError::MaxRetriesReached,
    }
}

/// Starts a request that may be tried `max_retries` times.
pub fn start_request(max_retries: usize) -> (r: (RetryState, RetryAction))
    ensures
        r.0 == (RetryState { retries: 0, max_retries, last_error: None }),
        r.1 == if max_retries > 0 {
            RetryAction::Send
        } else {
            RetryAction::Failed(RequestError::MaxRetriesReached)
        },
{
    let state = RetryState { retries: 0, max_retries, last_error: None };
    if max_retries > 0 {
        (state, RetryAction::Send)
    } else {
        (state, RetryAction::Failed(RequestError::MaxRetriesReached))
    }
}

/// Decides what follows an attempt: a success is read; any other outcome counts
/// as a failed attempt, and the request is retried after a back-off of
/// `100 * 2^retries` milliseconds while attempts remain, else given up with the
/// error of the last attempt that failed with one. A back-off is computed only
/// when another attempt follows, and it must fit in a `u64` (the caller fails, as
/// an overflowing `100 * 2^retries` would, before asking for a larger one).
pub fn after_attempt(state: RetryState, outcome: AttemptOutcome) -> (r: (RetryState, RetryAction))
    requires
        retry_wf(state),
        state.retries < state.max_retries,
        state.retries + 1 < state.max_retries ==> state.retries + 1 <= MAX_BACKOFF_RETRIES,
    ensures
        retry_wf(r.0),
        outcome == AttemptOutcome::Success ==> r == (state, RetryAction::Succeeded),
        outcome != AttemptOutcome::Success ==> {
            &&& r.0 == RetryState {
                retries: (state.retries + 1) as usize,
                max_retries: state.max_retries,
                last_error: error_after(state.last_error, outcome),
            }
            &&& r.1 == if r.0.retries < r.0.max_retries {
                RetryAction::Backoff(backoff_ms(r.0.retries as nat) as u64)
            } else {
                RetryAction::Failed(final_error(r.0.last_error))
            }
        },
{
    let RetryState { retries, max_retries, last_error } = state;
    let last_error = match outcome {
        AttemptOutcome::Success => {
            return (RetryState { retries, max_retries, last_error }, RetryAction::Succeeded);
        },
        AttemptOutcome::NonSuccessStatus => last_error,
        AttemptOutcome::TransportError(m) => Some(RequestError::Transport(m)),
        AttemptOutcome::TimedOut => Some(RequestError::TimedOut),
    };
    let retries = retries + 1;
    if retries < max_retries {
        let delay = backoff_delay(retries);
        (RetryState { retries, max_retries, last_error }, RetryAction::Backoff(delay))
    } else {
        let err = match &last_error {
            Some(e) => copy_error(e),
            None => RequestError::MaxRetriesReached,
        };
        (RetryState { retries, max_retries, last_error }, RetryAction::Failed(err))
    }
}

/// Each back-off doubles the one before.
pub proof fn lemma_backoff_doubles(retries: nat)
    ensures
        backoff_ms(retries + 1) == 2 * backoff_ms(retries),
{
    lemma_pow2_unfold(retries + 1);
}

/// A request is sent at most `max_retries` times: every failed attempt counts,
/// and another attempt is asked for only while fewer attempts have failed.
pub proof fn lemma_attempts_bounded(state: RetryState, outcome: AttemptOutcome, next: (RetryState, RetryAction))
    requires
        retry_wf(state),
        state.retries < state.max_retries,
        outcome != AttemptOutcome::Success,
        next.0 == (RetryState {
            retries: (state.retries + 1) as usize,
            max_retries: state.max_retries,
            last_error: error_after(state.last_error, outcome),
        }),
        next.1 == (if next.0.retries < next.0.max_retries {
            RetryAction::Backoff(backoff_ms(next.0.retries as nat) as u64)
        } else {
            RetryAction::Failed(final_error(next.0.last_error))
        }),
    ensures
        next.0.retries <= next.0.max_retries,
        next.1 is Backoff ==> next.0.retries < next.0.max_retries,
        next.0.retries == next.0.max_retries ==> next.1 is Failed,
{
}

} // verus!
