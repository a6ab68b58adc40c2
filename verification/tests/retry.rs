//! Waiting before another attempt.
use asteria_agent::retry::{
    is_retryable, wait_step, Duration, FailureFacts, IoKind, RetryPolicy, WaitStep,
};

#[test]
fn backoff_is_bounded() {
    let p = RetryPolicy::default();
    assert_eq!(p.delay(1), Duration::from_millis(500));
    assert_eq!(p.delay(2), Duration::from_secs(1));
    assert_eq!(p.delay(100), Duration::from_secs(8));
}

#[test]
fn cancelled_wait_returns() {
    let nothing = Duration::from_secs(0);
    assert_eq!(wait_step(Duration::from_secs(8), nothing, true), WaitStep::Cancelled);
    assert_eq!(wait_step(nothing, nothing, true), WaitStep::Cancelled);
}

fn facts(status: Option<u16>, timeout: bool, io_kinds: Vec<IoKind>) -> FailureFacts {
    FailureFacts { http_status: status, http_timeout: timeout, io_kinds }
}

#[test]
fn network_classification() {
    assert!(is_retryable(&facts(None, false, vec![IoKind::ConnectionReset])));
    assert!(!is_retryable(&facts(None, false, Vec::new())));
}

#[test]
fn servers_that_are_busy_are_asked_again() {
    assert!(is_retryable(&facts(Some(429), false, Vec::new())));
    assert!(is_retryable(&facts(Some(503), false, Vec::new())));
    assert!(!is_retryable(&facts(Some(401), false, vec![IoKind::ConnectionReset])));
    assert!(is_retryable(&facts(None, true, Vec::new())));
    assert!(!is_retryable(&facts(None, false, vec![IoKind::Other])));
}

#[test]
fn waits_are_cut_into_short_sleeps() {
    let delay = Duration::from_millis(40);
    assert_eq!(
        wait_step(delay, Duration::from_millis(0), false),
        WaitStep::Sleep(Duration::from_millis(25))
    );
    assert_eq!(
        wait_step(delay, Duration::from_millis(30), false),
        WaitStep::Sleep(Duration::from_millis(10))
    );
    assert_eq!(wait_step(delay, Duration::from_millis(40), false), WaitStep::Over);
}

#[test]
fn delays_grow_and_saturate() {
    let p = RetryPolicy {
        max_attempts: 5,
        base_delay: Duration::from_millis(3),
        max_delay: Duration::from_secs(u64::MAX),
    };
    for attempt in 1..40 {
        assert!(p.delay(attempt).nanos <= p.delay(attempt + 1).nanos);
    }
    assert_eq!(p.delay(3).as_millis(), 12);
}
