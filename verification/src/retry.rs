//! The fault-tolerance wrappers around arbitrary task execution: a retry
//! executor that re-invokes a callable under a configured backoff schedule,
//! and a circuit breaker that fails fast after repeated failures and probes
//! for recovery after a timeout.

use vstd::prelude::*;

use crate::callable::TaskError;
use crate::error::{ErrorKind, ParallelError};
use crate::text::{contains_substring, spec_contains_sub};

verus! {

/// A fallible operation run under the fault-tolerance wrappers. Each call may
/// succeed or fail, and two calls may behave differently: nothing is promised
/// of the outcome, so the wrappers' own contracts pin only their decision
/// logic and state transitions, never the operation's value.
pub trait UnreliableOp<R> {
    /// Attempt the operation once.
    fn call(&mut self) -> Result<R, TaskError>;
}

/// A ready-made unreliable operation: it fails a set number of times with a
/// fixed error kind, then succeeds with a fixed value — the shape of the
/// transient fault a retry policy rides out and a circuit breaker trips on.
pub struct CountedFailures {
    pub failures_left: u32,
    pub kind_name: String,
    pub value: i64,
}

impl UnreliableOp<i64> for CountedFailures {
    fn call(&mut self) -> (r: Result<i64, TaskError>) {
        if self.failures_left > 0 {
            self.failures_left = self.failures_left - 1;
            Err(TaskError::new(self.kind_name.clone()))
        } else {
            Ok(self.value)
        }
    }
}

/// The backoff schedule of a retry executor, with delays in milliseconds.
#[derive(Clone, Copy, Debug, PartialEq, Eq, Structural)]
pub enum RetryStrategy {
    FixedDelay { delay_ms: u64 },
    ExponentialBackoff { initial_ms: u64, max_ms: u64, multiplier: u64 },
    LinearBackoff { initial_ms: u64, increment_ms: u64 },
}

/// `base` raised to the power `e`.
pub open spec fn spec_pow(base: int, e: int) -> int
    decreases e,
{
    if e <= 0 {
        1
    } else {
        base * spec_pow(base, e - 1)
    }
}

/// The delay before the retry that follows attempt number `attempt` (counted
/// from zero): fixed delays stay put, exponential backoff multiplies the
/// initial delay and is capped by its maximum, linear backoff grows by a
/// fixed increment; a linear delay past the 64-bit range saturates.
pub open spec fn spec_delay(strategy: RetryStrategy, attempt: int) -> int {
    match strategy {
        RetryStrategy::FixedDelay { delay_ms } => delay_ms as int,
        RetryStrategy::ExponentialBackoff { initial_ms, max_ms, multiplier } => {
            let raw = initial_ms * spec_pow(multiplier as int, attempt);
            if raw <= max_ms {
                raw
            } else {
                max_ms as int
            }
        },
        RetryStrategy::LinearBackoff { initial_ms, increment_ms } => {
            let raw = initial_ms + increment_ms * attempt;
            if raw <= u64::MAX {
                raw
            } else {
                u64::MAX as int
            }
        },
    }
}

/// A positive base keeps a power positive, and a base of at least two keeps
/// powers non-decreasing in the exponent.
proof fn lemma_pow_facts(base: int, a: int, b: int)
    requires
        base >= 1,
        0 <= a <= b,
    ensures
        spec_pow(base, a) >= 1,
        spec_pow(base, a) <= spec_pow(base, b),
    decreases b,
{
    if b > 0 {
        if a == b {
            lemma_pow_facts(base, a - 1, b - 1);
            assert(spec_pow(base, a) == base * spec_pow(base, a - 1));
            assert(base * spec_pow(base, a - 1) >= 1) by (nonlinear_arith)
                requires
                    base >= 1,
                    spec_pow(base, a - 1) >= 1,
            ;
        } else {
            lemma_pow_facts(base, a, b - 1);
            assert(spec_pow(base, b) == base * spec_pow(base, b - 1));
            assert(base * spec_pow(base, b - 1) >= spec_pow(base, b - 1)) by (nonlinear_arith)
                requires
                    base >= 1,
                    spec_pow(base, b - 1) >= 1,
            ;
        }
    }
}

/// Re-invokes a callable until it succeeds, its error is not retryable, or
/// the configured number of attempts is exhausted. An error is retryable when
/// any configured kind name occurs in the error's kind name as a substring.
pub struct RetryExecutor {
    pub strategy: RetryStrategy,
    pub max_attempts: usize,
    pub exceptions_to_retry: Vec<String>,
}

impl RetryExecutor {
    /// Whether an error of the given kind name triggers a retry.
    pub open spec fn spec_is_retryable(&self, kind: Seq<char>) -> bool {
        exists|i: int|
            0 <= i < self.exceptions_to_retry@.len() && spec_contains_sub(
                kind,
                (#[trigger] self.exceptions_to_retry@[i])@,
            )
    }

    /// Build a retry executor from its attempt budget and backoff schedule.
    /// The default retryable kinds are `Exception`, `RuntimeError` and
    /// `Error`.
    pub fn new(max_attempts: usize, strategy: RetryStrategy) -> (r: RetryExecutor)
        requires
            max_attempts >= 1,
        ensures
            r.max_attempts == max_attempts,
            r.strategy == strategy,
            r.exceptions_to_retry@.len() == 3,
            r.exceptions_to_retry@[0]@ == "Exception"@,
            r.exceptions_to_retry@[1]@ == "RuntimeError"@,
            r.exceptions_to_retry@[2]@ == "Error"@,
    {
        let mut exceptions_to_retry: Vec<String> = Vec::new();
        exceptions_to_retry.push("Exception".to_owned());
        exceptions_to_retry.push("RuntimeError".to_owned());
        exceptions_to_retry.push("Error".to_owned());
        RetryExecutor { strategy, max_attempts, exceptions_to_retry }
    }

    /// Add one error-kind name to the retryable set.
    pub fn add_retryable_exception(&mut self, exception_name: String)
        ensures
            final(self).exceptions_to_retry@ == old(self).exceptions_to_retry@.push(
                exception_name,
            ),
            final(self).strategy == old(self).strategy,
            final(self).max_attempts == old(self).max_attempts,
    {
        self.exceptions_to_retry.push(exception_name);
    }

    /// Whether this executor retries after the given error.
    pub fn should_retry_error(&self, error: &TaskError) -> (r: bool)
        ensures
            r == self.spec_is_retryable(error.kind_name@),
    {
        let mut i: usize = 0;
        while i < self.exceptions_to_retry.len()
            invariant
                i <= self.exceptions_to_retry@.len(),
                forall|p: int|
                    0 <= p < i ==> !spec_contains_sub(
                        error.kind_name@,
                        (#[trigger] self.exceptions_to_retry@[p])@,
                    ),
            decreases self.exceptions_to_retry@.len() - i,
        {
            if contains_substring(error.kind_name.as_str(), self.exceptions_to_retry[i].as_str()) {
                return true;
            }
            i = i + 1;
        }
        false
    }

    /// The delay, in milliseconds, to sleep before the retry that follows
    /// attempt number `attempt`. Delays come from the policy snapshot taken
    /// at construction; the embedding performs the sleep itself, between
    /// attempts.
    pub fn calculate_delay(&self, attempt: usize) -> (r: u64)
        ensures
            r == spec_delay(self.strategy, attempt as int),
    {
        match self.strategy {
            RetryStrategy::FixedDelay { delay_ms } => delay_ms,
            RetryStrategy::ExponentialBackoff { initial_ms, max_ms, multiplier } => {
                let mut acc: u64 = initial_ms;
                let mut k: usize = 0;
                let ghost m = multiplier as int;
                while k < attempt
                    invariant
                        k <= attempt,
                        acc == initial_ms * spec_pow(m, k as int),
                        m == multiplier as int,
                        self.strategy == (RetryStrategy::ExponentialBackoff {
                            initial_ms,
                            max_ms,
                            multiplier,
                        }),
                    decreases attempt - k,
                {
                    match acc.checked_mul(multiplier) {
                        Some(v) => {
                            proof {
                                assert(initial_ms * spec_pow(m, k as int) * m == initial_ms
                                    * spec_pow(m, k + 1 as int)) by (nonlinear_arith)
                                    requires
                                        spec_pow(m, k + 1 as int) == m * spec_pow(m, k as int),
                                ;
                            }
                            acc = v;
                            k = k + 1;
                        },
                        None => {
                            // The product has outgrown the 64-bit range, so it
                            // certainly exceeds the cap: the delay is the cap.
                            proof {
                                assert(acc * m > u64::MAX);
                                assert(m >= 2) by (nonlinear_arith)
                                    requires
                                        acc * m > u64::MAX,
                                        acc <= u64::MAX,
                                        m >= 0,
                                ;
                                lemma_pow_facts(m, k + 1, attempt as int);
                                assert(initial_ms * spec_pow(m, k + 1 as int) <= initial_ms
                                    * spec_pow(m, attempt as int)) by (nonlinear_arith)
                                    requires
                                        initial_ms >= 0,
                                        spec_pow(m, k + 1 as int) <= spec_pow(m, attempt as int),
                                ;
                                assert(initial_ms * spec_pow(m, k + 1 as int) == acc * m)
                                    by (nonlinear_arith)
                                    requires
                                        acc == initial_ms * spec_pow(m, k as int),
                                        spec_pow(m, k + 1 as int) == m * spec_pow(m, k as int),
                                ;
                            }
                            return max_ms;
                        },
                    }
                }
                if acc <= max_ms {
                    acc
                } else {
                    max_ms
                }
            },
            RetryStrategy::LinearBackoff { initial_ms, increment_ms } => {
                match increment_ms.checked_mul(attempt as u64) {
                    Some(grow) => match initial_ms.checked_add(grow) {
                        Some(total) => total,
                        None => u64::MAX,
                    },
                    None => {
                        proof {
                            assert(initial_ms + increment_ms * (attempt as int) > u64::MAX);
                        }
                        u64::MAX
                    },
                }
            },
        }
    }

    /// Run the operation under the retry policy: call it, return the first
    /// success, retry on a retryable error while attempts remain, and surface
    /// the last error as `TaskFailed` otherwise. The operation decides each
    /// outcome, so nothing more than the error kind is promised; the decision
    /// logic itself is pinned by `should_retry_error` and `calculate_delay`,
    /// and the embedding sleeps for the calculated delay between attempts.
    pub fn execute<F: UnreliableOp<R>, R>(&self, op: &mut F) -> (r: Result<R, ParallelError>)
        requires
            self.max_attempts >= 1,
        ensures
            r matches Err(e) ==> e.kind == ErrorKind::TaskFailed,
    {
        let mut attempt: usize = 0;
        loop
            invariant
                attempt < self.max_attempts,
            decreases self.max_attempts - attempt,
        {
            match op.call() {
                Ok(v) => {
                    return Ok(v);
                },
                Err(err) => {
                    let retryable = self.should_retry_error(&err);
                    if !retryable || attempt == self.max_attempts - 1 {
                        return Err(
                            ParallelError::with_message(ErrorKind::TaskFailed, err.kind_name),
                        );
                    }
                    let _delay_ms = self.calculate_delay(attempt);
                    attempt = attempt + 1;
                },
            }
        }
    }

    /// The executor's configuration: its attempt budget, its backoff
    /// schedule, and how many error-kind names it retries on.
    pub fn get_stats(&self) -> (r: (usize, RetryStrategy, usize))
        ensures
            r.0 == self.max_attempts,
            r.1 == self.strategy,
            r.2 == self.exceptions_to_retry@.len(),
    {
        (self.max_attempts, self.strategy, self.exceptions_to_retry.len())
    }
}

/// The state of a circuit breaker.
#[derive(Clone, Copy, Debug, PartialEq, Eq, Structural)]
pub enum CircuitState {
    Closed,
    Open,
    HalfOpen,
}

/// Fails fast when the wrapped callable has been failing repeatedly:
/// `failure_threshold` consecutive failures open the circuit, an open circuit
/// rejects calls without invoking the callable until `recovery_timeout_ms`
/// has passed, and then a single probe decides between closing and reopening.
pub struct CircuitBreaker {
    pub failure_threshold: usize,
    pub recovery_timeout_ms: u64,
    pub failure_count: usize,
    pub last_failure_ms: Option<u64>,
    pub state: CircuitState,
}

impl CircuitBreaker {
    /// The breaker's invariant: the threshold is positive, a closed breaker
    /// has not yet reached it, and an open breaker remembers its last
    /// failure.
    pub open spec fn wf(&self) -> bool {
        &&& self.failure_threshold >= 1
        &&& self.state is Closed ==> self.failure_count < self.failure_threshold
        &&& self.state is Open ==> self.last_failure_ms is Some
    }

    /// An open breaker has recovered once the timeout has passed since its
    /// last failure.
    pub open spec fn spec_recovered(&self, now_ms: u64) -> bool {
        self.last_failure_ms matches Some(l) && now_ms >= l && now_ms - l
            >= self.recovery_timeout_ms
    }

    /// What a call first does to the breaker: an open breaker whose timeout
    /// has passed moves to half-open; anything else is left alone.
    pub open spec fn spec_entry(self, now_ms: u64) -> CircuitBreaker {
        if self.state is Open && self.spec_recovered(now_ms) {
            CircuitBreaker { state: CircuitState::HalfOpen, ..self }
        } else {
            self
        }
    }

    /// The transition after a successful call: the failure count resets and
    /// the circuit closes.
    pub open spec fn spec_on_success(self) -> CircuitBreaker {
        CircuitBreaker { state: CircuitState::Closed, failure_count: 0, ..self }
    }

    /// The transition after a failed call: a half-open breaker reopens; a
    /// closed breaker counts the failure and opens on reaching the threshold.
    /// The failure instant is recorded either way.
    pub open spec fn spec_on_failure(self, now_ms: u64) -> CircuitBreaker {
        if self.state is HalfOpen {
            CircuitBreaker { state: CircuitState::Open, last_failure_ms: Some(now_ms), ..self }
        } else {
            let bumped = self.failure_count + 1;
            CircuitBreaker {
                state: if bumped >= self.failure_threshold {
                    CircuitState::Open
                } else {
                    CircuitState::Closed
                },
                failure_count: bumped as usize,
                last_failure_ms: Some(now_ms),
                ..self
            }
        }
    }

    /// Build a breaker, closed, with no failures recorded. The threshold
    /// defaults to five consecutive failures and the recovery timeout to one
    /// minute.
    pub fn new(failure_threshold: Option<usize>, recovery_timeout_ms: Option<u64>) -> (r:
        CircuitBreaker)
        requires
            failure_threshold matches Some(t) ==> t >= 1,
        ensures
            r.wf(),
            r.state is Closed,
            r.failure_count == 0,
            r.last_failure_ms is None,
            failure_threshold matches Some(t) ==> r.failure_threshold == t,
            failure_threshold is None ==> r.failure_threshold == 5,
            recovery_timeout_ms matches Some(t) ==> r.recovery_timeout_ms == t,
            recovery_timeout_ms is None ==> r.recovery_timeout_ms == 60000,
    {
        CircuitBreaker {
            failure_threshold: match failure_threshold {
                Some(t) => t,
                None => 5,
            },
            recovery_timeout_ms: match recovery_timeout_ms {
                Some(t) => t,
                None => 60000,
            },
            failure_count: 0,
            last_failure_ms: None,
            state: CircuitState::Closed,
        }
    }

    /// Run the operation under the breaker at the given instant. An open
    /// breaker that has not recovered rejects with `CircuitOpen` without
    /// invoking the operation; otherwise the call is admitted (through
    /// half-open if the breaker just recovered) and the breaker takes exactly
    /// the success or failure transition for the operation's outcome.
    pub fn execute<F: UnreliableOp<R>, R>(&mut self, op: &mut F, now_ms: u64) -> (r: Result<
        R,
        ParallelError,
    >)
        requires
            old(self).wf(),
        ensures
            final(self).wf(),
            final(self).failure_threshold == old(self).failure_threshold,
            final(self).recovery_timeout_ms == old(self).recovery_timeout_ms,
            old(self).spec_entry(now_ms).state is Open ==> (r matches Err(e) && e.kind
                == ErrorKind::CircuitOpen) && *final(self) == old(self).spec_entry(now_ms),
            !(old(self).spec_entry(now_ms).state is Open) ==> match r {
                Ok(_) => *final(self) == old(self).spec_entry(now_ms).spec_on_success(),
                Err(e) => e.kind == ErrorKind::TaskFailed && *final(self) == old(self).spec_entry(
                    now_ms,
                ).spec_on_failure(now_ms),
            },
    {
        if self.state == CircuitState::Open {
            let recovered = match self.last_failure_ms {
                Some(l) => now_ms >= l && now_ms - l >= self.recovery_timeout_ms,
                None => false,
            };
            if recovered {
                self.state = CircuitState::HalfOpen;
            } else {
                return Err(ParallelError::new(ErrorKind::CircuitOpen));
            }
        }
        match op.call() {
            Ok(v) => {
                self.failure_count = 0;
                self.state = CircuitState::Closed;
                Ok(v)
            },
            Err(err) => {
                if self.state == CircuitState::HalfOpen {
                    self.state = CircuitState::Open;
                    self.last_failure_ms = Some(now_ms);
                } else {
                    self.failure_count = self.failure_count + 1;
                    self.last_failure_ms = Some(now_ms);
                    if self.failure_count >= self.failure_threshold {
                        self.state = CircuitState::Open;
                    }
                }
                Err(ParallelError::with_message(ErrorKind::TaskFailed, err.kind_name))
            },
        }
    }

    /// The breaker's state, failure count and threshold.
    pub fn get_status(&self) -> (r: (CircuitState, usize, usize))
        ensures
            r.0 == self.state,
            r.1 == self.failure_count,
            r.2 == self.failure_threshold,
    {
        (self.state, self.failure_count, self.failure_threshold)
    }

    /// Force the breaker closed with no failures recorded.
    pub fn reset(&mut self)
        requires
            old(self).failure_threshold >= 1,
        ensures
            final(self).wf(),
            final(self).state is Closed,
            final(self).failure_count == 0,
            final(self).last_failure_ms is None,
            final(self).failure_threshold == old(self).failure_threshold,
            final(self).recovery_timeout_ms == old(self).recovery_timeout_ms,
    {
        self.failure_count = 0;
        self.last_failure_ms = None;
        self.state = CircuitState::Closed;
    }
}

/// Fold a sequence of failure instants over the breaker's failure transition.
pub open spec fn apply_failures(cb: CircuitBreaker, times: Seq<u64>) -> CircuitBreaker
    decreases times.len(),
{
    if times.len() == 0 {
        cb
    } else {
        apply_failures(cb.spec_on_failure(times.first()), times.drop_first())
    }
}

/// The law of the tripping breaker: from a closed breaker with threshold `k`
/// and no failures recorded, exactly `k` consecutive failures leave the
/// circuit open with the last failure's instant recorded — so the next call,
/// made before the recovery timeout has passed, is rejected with
/// `CircuitOpen` and does not invoke the callable.
pub proof fn lemma_consecutive_failures_trip(cb: CircuitBreaker, times: Seq<u64>, probe_ms: u64)
    requires
        cb.wf(),
        cb.state is Closed,
        cb.failure_count == 0,
        times.len() == cb.failure_threshold,
        probe_ms < times.last() as int + cb.recovery_timeout_ms,
    ensures
        apply_failures(cb, times).state is Open,
        apply_failures(cb, times).last_failure_ms == Some(times.last()),
        apply_failures(cb, times).spec_entry(probe_ms).state is Open,
{
    lemma_failures_accumulate(cb, times);
    let tripped = apply_failures(cb, times);
    assert(!tripped.spec_recovered(probe_ms));
}

/// From a closed breaker, failures accumulate one by one until the count
/// reaches the threshold, and the circuit opens exactly then.
proof fn lemma_failures_accumulate(cb: CircuitBreaker, times: Seq<u64>)
    requires
        cb.wf(),
        cb.state is Closed,
        times.len() >= 1,
        cb.failure_count + times.len() == cb.failure_threshold,
    ensures
        apply_failures(cb, times).state is Open,
        apply_failures(cb, times).last_failure_ms == Some(times.last()),
        apply_failures(cb, times).failure_threshold == cb.failure_threshold,
        apply_failures(cb, times).recovery_timeout_ms == cb.recovery_timeout_ms,
    decreases times.len(),
{
    let stepped = cb.spec_on_failure(times.first());
    if times.len() == 1 {
        assert(stepped.state is Open);
        assert(times.drop_first().len() == 0);
        assert(apply_failures(stepped, times.drop_first()) == stepped);
        assert(apply_failures(cb, times) == stepped);
    } else {
        assert(stepped.state is Closed);
        lemma_failures_accumulate(stepped, times.drop_first());
        assert(times.drop_first().last() == times.last());
    }
}

} // verus!
