use bunsan::retry::{
    after_attempt, backoff_delay, start_request, AttemptOutcome, RequestError, RetryAction, RetryState,
};

#[test]
fn backoff_doubles() {
    assert_eq!(backoff_delay(0), 100);
    assert_eq!(backoff_delay(1), 200);
    assert_eq!(backoff_delay(2), 400);
    assert_eq!(backoff_delay(57), 100 * (1u64 << 57));
}

#[test]
fn zero_attempts_fail_at_once() {
    let (_, a) = start_request(0);
    assert_eq!(a, RetryAction::Failed(RequestError::MaxRetriesReached));
}

#[test]
fn success_first_time() {
    let (s, a) = start_request(3);
    assert_eq!(a, RetryAction::Send);
    let (s2, a2) = after_attempt(s.clone(), AttemptOutcome::Success);
    assert_eq!(a2, RetryAction::Succeeded);
    assert_eq!(s2, s);
}

#[test]
fn three_attempts_then_last_error() {
    let (s, _) = start_request(3);
    let (s, a) = after_attempt(s, AttemptOutcome::TransportError("refused".to_string()));
    assert_eq!(a, RetryAction::Backoff(200));
    let (s, a) = after_attempt(s, AttemptOutcome::TimedOut);
    assert_eq!(a, RetryAction::Backoff(400));
    let (s, a) = after_attempt(s, AttemptOutcome::NonSuccessStatus);
    assert_eq!(a, RetryAction::Failed(RequestError::TimedOut));
    assert_eq!(s.retries, 3);
}

#[test]
fn only_bad_statuses_reach_max_retries() {
    let (s, _) = start_request(2);
    let (s, a) = after_attempt(s, AttemptOutcome::NonSuccessStatus);
    assert_eq!(a, RetryAction::Backoff(200));
    let (s, a) = after_attempt(s, AttemptOutcome::NonSuccessStatus);
    assert_eq!(a, RetryAction::Failed(RequestError::MaxRetriesReached));
    assert_eq!(s, RetryState { retries: 2, max_retries: 2, last_error: None });
}

#[test]
fn attempts_never_exceed_the_limit() {
    for max in 1..6usize {
        let (mut s, mut a) = start_request(max);
        let mut sent = 0;
        loop {
            match a {
                RetryAction::Send | RetryAction::Backoff(_) => {
                    sent += 1;
                    let r = after_attempt(s, AttemptOutcome::TimedOut);
                    s = r.0;
                    a = r.1;
                }
                RetryAction::Failed(e) => {
                    assert_eq!(e, RequestError::TimedOut);
                    break;
                }
                RetryAction::Succeeded => unreachable!(),
            }
        }
        assert_eq!(sent, max);
    }
}

#[test]
fn large_retry_limits_are_accepted() {
    let (s, a) = start_request(100);
    assert_eq!(a, RetryAction::Send);
    assert_eq!(s.max_retries, 100);
    let (s, a) = after_attempt(s, AttemptOutcome::TimedOut);
    assert_eq!(a, RetryAction::Backoff(200));
    assert_eq!(s.retries, 1);
}
