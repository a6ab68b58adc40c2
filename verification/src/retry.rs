//! When a failed request is tried again, and after what delay.
use vstd::prelude::*;

verus! {

/// A span of time in nanoseconds.
#[derive(Clone, Copy, Debug, PartialEq, Eq, Structural)]
pub struct Duration {
    pub nanos: u128,
}

/// The longest span: 64 bits of seconds, and the nanoseconds below a second.
pub const MAX_NANOS: u128 = 18446744073709551615999999999;

impl Duration {
    /// A span of milliseconds.
    pub fn from_millis(millis: u64) -> (r: Duration)
        ensures
            r.nanos == millis * 1_000_000,
    {
        Duration { nanos: (millis as u128) * 1_000_000 }
    }

    /// A span of seconds.
    pub fn from_secs(secs: u64) -> (r: Duration)
        ensures
            r.nanos == secs * 1_000_000_000,
    {
        Duration { nanos: (secs as u128) * 1_000_000_000 }
    }

    /// The whole milliseconds of the span.
    pub fn as_millis(&self) -> (r: u128)
        ensures
            r == self.nanos / 1_000_000,
    {
        self.nanos / 1_000_000
    }

    /// The span times a number, at most the longest span.
    pub fn saturating_mul(&self, factor: u32) -> (r: Duration)
        ensures
            r.nanos == smaller(self.nanos * factor, MAX_NANOS as int),
    {
        if factor == 0 {
            assert(self.nanos * factor == 0) by (nonlinear_arith)
                requires
                    factor == 0,
            ;
            return Duration { nanos: 0 };
        }
        let limit: u128 = MAX_NANOS / (factor as u128);
        if self.nanos > limit {
            assert(self.nanos * factor > MAX_NANOS) by (nonlinear_arith)
                requires
                    self.nanos >= limit + 1,
                    limit == MAX_NANOS / (factor as u128),
                    factor > 0,
            ;
            Duration { nanos: MAX_NANOS }
        } else {
            assert(self.nanos * factor <= MAX_NANOS) by (nonlinear_arith)
                requires
                    self.nanos <= limit,
                    limit == MAX_NANOS / (factor as u128),
                    factor > 0,
            ;
            Duration { nanos: self.nanos * (factor as u128) }
        }
    }
}

pub open spec fn smaller(a: int, b: int) -> int {
    if a < b {
        a
    } else {
        b
    }
}

/// Two to the power of `k`.
pub open spec fn doubled(k: nat) -> nat
    decreases k,
{
    if k == 0 {
        1
    } else {
        2 * doubled((k - 1) as nat)
    }
}

/// How often a request is tried, the first time included, and the bounds of
/// the delay in between.
#[derive(Clone, Copy, Debug, PartialEq, Eq, Structural)]
pub struct RetryPolicy {
    pub max_attempts: usize,
    pub base_delay: Duration,
    pub max_delay: Duration,
}

/// The policy where nothing else is set.
pub open spec fn default_retry() -> RetryPolicy {
    RetryPolicy {
        max_attempts: 3,
        base_delay: Duration { nanos: 500_000_000 },
        max_delay: Duration { nanos: 8_000_000_000 },
    }
}

impl Default for RetryPolicy {
    fn default() -> (r: RetryPolicy)
        ensures
            r == default_retry(),
    {
        RetryPolicy {
            max_attempts: 3,
            base_delay: Duration::from_millis(500),
            max_delay: Duration::from_secs(8),
        }
    }
}

/// How often the delay doubles after a failed attempt, at most 31 times.
pub open spec fn doublings(failed_attempt: usize) -> nat {
    if failed_attempt == 0 {
        0
    } else if failed_attempt - 1 < 31 {
        (failed_attempt - 1) as nat
    } else {
        31
    }
}

impl RetryPolicy {
    /// The delay after a failed attempt, in nanoseconds.
    pub open spec fn delay_nanos(self, failed_attempt: usize) -> int {
        smaller(
            smaller(
                self.base_delay.nanos * doubled(doublings(failed_attempt)),
                MAX_NANOS as int,
            ),
            self.max_delay.nanos as int,
        )
    }

    /// The delay after a failed attempt: it doubles each time, up to a bound.
    pub fn delay(&self, failed_attempt: usize) -> (r: Duration)
        ensures
            r.nanos == self.delay_nanos(failed_attempt),
    {
        let steps: usize = if failed_attempt == 0 {
            0
        } else if failed_attempt - 1 < 31 {
            failed_attempt - 1
        } else {
            31
        };
        let mut factor: u32 = 1;
        proof {
            lemma_doubled_bounds(31);
        }
        for i in 0..steps
            invariant
                steps <= 31,
                factor == doubled(i as nat),
        {
            proof {
                lemma_doubled_bounds(30);
                lemma_doubled_monotone(i as nat, 30);
            }
            factor = factor * 2;
        }
        let grown = self.base_delay.saturating_mul(factor);
        if grown.nanos < self.max_delay.nanos {
            grown
        } else {
            self.max_delay
        }
    }
}

proof fn lemma_doubled_bounds(k: nat)
    requires
        k <= 31,
    ensures
        doubled(k) <= 0x8000_0000,
        k <= 30 ==> doubled(k) <= 0x4000_0000,
    decreases k,
{
    reveal_with_fuel(doubled, 32);
    lemma_doubled_monotone(k, 31);
    if k <= 30 {
        lemma_doubled_monotone(k, 30);
    }
}

proof fn lemma_doubled_monotone(a: nat, b: nat)
    requires
        a <= b,
    ensures
        1 <= doubled(a) <= doubled(b),
    decreases b,
{
    if a < b {
        lemma_doubled_monotone(a, (b - 1) as nat);
    } else if b > 0 {
        lemma_doubled_monotone((a - 1) as nat, (b - 1) as nat);
    }
}

/// The delay never exceeds the bound of the policy.
pub proof fn law_delay_is_bounded(p: RetryPolicy, failed_attempt: usize)
    ensures
        p.delay_nanos(failed_attempt) <= p.max_delay.nanos,
{
}

/// A delay is never negative.
pub proof fn law_delay_is_no_less_than_nothing(p: RetryPolicy, failed_attempt: usize)
    ensures
        0 <= p.delay_nanos(failed_attempt),
{
    let d = doubled(doublings(failed_attempt));
    assert(0 <= p.base_delay.nanos * d) by (nonlinear_arith);
}

/// The delay never shrinks from one attempt to a later one.
pub proof fn law_delay_grows(p: RetryPolicy, a: usize, b: usize)
    requires
        a <= b,
    ensures
        p.delay_nanos(a) <= p.delay_nanos(b),
{
    lemma_doubled_monotone(doublings(a), doublings(b));
    let (x, y) = (doubled(doublings(a)), doubled(doublings(b)));
    assert(p.base_delay.nanos * x <= p.base_delay.nanos * y) by (nonlinear_arith)
        requires
            x <= y,
    ;
}

/// The first delay is the base of the policy, and each one is twice the one
/// before it, as far as the bound of the policy allows; from the thirty-second on
/// they stay the same.
pub proof fn law_delay_doubles(p: RetryPolicy, n: usize)
    requires
        n < usize::MAX,
        p.base_delay.nanos <= MAX_NANOS,
    ensures
        p.delay_nanos(0) == smaller(p.base_delay.nanos as int, p.max_delay.nanos as int),
        p.delay_nanos(1) == p.delay_nanos(0),
        1 <= n <= 31 ==> p.delay_nanos((n + 1) as usize) == smaller(
            smaller(2 * p.delay_nanos(n), MAX_NANOS as int),
            p.max_delay.nanos as int,
        ),
        n >= 32 ==> p.delay_nanos((n + 1) as usize) == p.delay_nanos(n),
{
    let base = p.base_delay.nanos;
    assert(doubled(0) == 1);
    assert(base * doubled(0) == base) by (nonlinear_arith)
        requires
            doubled(0) == 1,
    ;
    if 1 <= n <= 31 {
        let d = doubled((n - 1) as nat);
        assert(doubled(n as nat) == 2 * d);
        assert(base * (2 * d) == 2 * (base * d)) by (nonlinear_arith);
    }
}

/// The kinds of I/O errors that matter here.
#[derive(Clone, Copy, Debug, PartialEq, Eq, Structural)]
pub enum IoKind {
    ConnectionReset,
    ConnectionAborted,
    ConnectionRefused,
    TimedOut,
    Other,
}

/// What is known of a failed request.
#[derive(Clone, Debug)]
pub struct FailureFacts {
    /// The status of the HTTP error, where the failure is one with a status.
    pub http_status: Option<u16>,
    /// The failure is an HTTP timeout.
    pub http_timeout: bool,
    /// The I/O errors among the causes of the failure.
    pub io_kinds: Vec<IoKind>,
}

pub open spec fn is_transient(kind: IoKind) -> bool {
    kind != IoKind::Other
}

/// Too many requests, errors of the server, timeouts and broken connections
/// are worth another try, and nothing else is. A status decides alone.
pub open spec fn worth_retrying(f: FailureFacts) -> bool {
    match f.http_status {
        Some(status) => status == 429 || 500 <= status < 600,
        None => f.http_timeout || exists|i: int|
            0 <= i < f.io_kinds@.len() && is_transient(#[trigger] f.io_kinds@[i]),
    }
}

/// Whether a failed request is worth another try.
pub fn is_retryable(facts: &FailureFacts) -> (r: bool)
    ensures
        r == worth_retrying(*facts),
{
    if let Some(status) = facts.http_status {
        return status == 429 || (500 <= status && status < 600);
    }
    if facts.http_timeout {
        return true;
    }
    for i in 0..facts.io_kinds.len()
        invariant
            facts.http_status is None,
            forall|j: int| 0 <= j < i ==> !is_transient(#[trigger] facts.io_kinds@[j]),
    {
        if facts.io_kinds[i] != IoKind::Other {
            assert(is_transient(facts.io_kinds@[i as int]));
            return true;
        }
    }
    false
}

/// What to do next while a delay is waited for.
#[derive(Clone, Copy, Debug, PartialEq, Eq, Structural)]
pub enum WaitStep {
    /// The wait was cancelled.
    Cancelled,
    /// The delay is over.
    Over,
    /// Sleep so long, then look again.
    Sleep(Duration),
}

/// The longest sleep between two looks at the cancellation.
pub const POLL_NANOS: u128 = 25000000;

/// The next step of a wait of which `elapsed` has passed.
pub open spec fn wait_spec(delay: Duration, elapsed: Duration, cancelled: bool) -> WaitStep {
    if cancelled {
        WaitStep::Cancelled
    } else if delay.nanos <= elapsed.nanos {
        WaitStep::Over
    } else if delay.nanos - elapsed.nanos < POLL_NANOS {
        WaitStep::Sleep(Duration { nanos: (delay.nanos - elapsed.nanos) as u128 })
    } else {
        WaitStep::Sleep(Duration { nanos: POLL_NANOS })
    }
}

/// The next step of a wait of which `elapsed` has passed.
pub fn wait_step(delay: Duration, elapsed: Duration, cancelled: bool) -> (r: WaitStep)
    ensures
        r == wait_spec(delay, elapsed, cancelled),
{
    if cancelled {
        return WaitStep::Cancelled;
    }
    if delay.nanos <= elapsed.nanos {
        return WaitStep::Over;
    }
    let remaining: u128 = delay.nanos - elapsed.nanos;
    if remaining < POLL_NANOS {
        WaitStep::Sleep(Duration { nanos: remaining })
    } else {
        WaitStep::Sleep(Duration { nanos: POLL_NANOS })
    }
}

/// A wait sleeps in short steps and never past its end. It is over exactly when
/// the delay has passed, unless it was cancelled.
pub proof fn law_waits_end_on_time(delay: Duration, elapsed: Duration, cancelled: bool)
    ensures
        cancelled <==> wait_spec(delay, elapsed, cancelled) is Cancelled,
        !cancelled ==> (wait_spec(delay, elapsed, cancelled) is Over <==> elapsed.nanos
            >= delay.nanos),
        wait_spec(delay, elapsed, cancelled) matches WaitStep::Sleep(d) ==> 0 < d.nanos
            <= 25_000_000 && elapsed.nanos + d.nanos <= delay.nanos && (d.nanos == 25_000_000
            || elapsed.nanos + d.nanos == delay.nanos),
{
}

/// A status of the server decides alone; without one a timeout or a broken
/// connection is enough.
pub proof fn law_statuses_decide_alone(a: FailureFacts, b: FailureFacts)
    requires
        a.http_status is Some,
        a.http_status == b.http_status,
    ensures
        worth_retrying(a) == worth_retrying(b),
        a.http_status->0 < 500 && a.http_status->0 != 429 ==> !worth_retrying(a),
        a.http_status->0 >= 600 ==> !worth_retrying(a),
        500 <= a.http_status->0 < 600 || a.http_status->0 == 429 ==> worth_retrying(a),
        forall|kind: IoKind| #[trigger]
            is_transient(kind) <==> kind == IoKind::ConnectionReset || kind
                == IoKind::ConnectionAborted || kind == IoKind::ConnectionRefused || kind
                == IoKind::TimedOut,
{
}

} // verus!
