use pyferris::callable::{AddOp, AddPairOp, IsEvenOp, MulOp, SquareOp, TaskError};
use pyferris::chunking::{derive_chunk_size, split_into_chunks};
use pyferris::combinators::{
    parallel_filter, parallel_map, parallel_map_with_strategy, parallel_reduce, parallel_starmap,
};
use pyferris::error::{handle_parallel_error, ErrorKind, ErrorStrategy, ParallelError};
use pyferris::retry::{
    CircuitBreaker, CircuitState, CountedFailures, RetryExecutor, RetryStrategy, UnreliableOp,
};
use pyferris::text::{contains_substring, u64_to_hex, u64_to_string};

struct FlakyOp {
    calls_made: u32,
    succeed_from: u32,
}

impl UnreliableOp<String> for FlakyOp {
    fn call(&mut self) -> Result<String, TaskError> {
        self.calls_made += 1;
        if self.calls_made >= self.succeed_from {
            Ok(String::from("ok"))
        } else {
            Err(TaskError::new(String::from("Error")))
        }
    }
}

struct AlwaysFails;

impl UnreliableOp<i64> for AlwaysFails {
    fn call(&mut self) -> Result<i64, TaskError> {
        Err(TaskError::new(String::from("RuntimeError")))
    }
}

struct AlwaysWorks;

impl UnreliableOp<i64> for AlwaysWorks {
    fn call(&mut self) -> Result<i64, TaskError> {
        Ok(7)
    }
}

#[test]
fn map_squares_preserves_order() {
    let items = vec![1i64, 2, 3, 4, 5];
    let out = parallel_map(&SquareOp, items, Some(2)).unwrap();
    assert_eq!(out, vec![1, 4, 9, 16, 25]);
}

#[test]
fn map_over_empty_returns_empty() {
    let out = parallel_map(&SquareOp, Vec::new(), None).unwrap();
    assert!(out.is_empty());
}

#[test]
fn map_surfaces_overflow_as_task_failed() {
    let items = vec![2i64, i64::MAX];
    let err = parallel_map(&SquareOp, items, Some(1)).unwrap_err();
    assert_eq!(err.kind(), ErrorKind::TaskFailed);
    assert_eq!(err.message, "OverflowError");
}

#[test]
fn filter_keeps_evens_in_order() {
    let items = vec![1i64, 2, 3, 4, 5, 6];
    let out = parallel_filter(&IsEvenOp, items, None);
    assert_eq!(out, vec![2, 4, 6]);
}

#[test]
fn starmap_adds_pairs_in_order() {
    let items = vec![(1i64, 2i64), (3, 4), (10, 20)];
    let out = parallel_starmap(&AddPairOp, items, Some(2)).unwrap();
    assert_eq!(out, vec![3, 7, 30]);
}

#[test]
fn reduce_with_initializer_matches_fold() {
    let items = vec![1i64, 2, 3, 4];
    let out = parallel_reduce(&AddOp, items, Some(10), Some(2)).unwrap();
    assert_eq!(out, 20);
}

#[test]
fn reduce_reassociation_is_harmless_for_addition() {
    let items: Vec<i64> = (1..=20).collect();
    let whole = parallel_reduce(&AddOp, items.clone(), Some(0), Some(20)).unwrap();
    let chunked = parallel_reduce(&AddOp, items.clone(), Some(0), Some(3)).unwrap();
    let single = parallel_reduce(&AddOp, items, Some(0), Some(1)).unwrap();
    assert_eq!(whole, 210);
    assert_eq!(chunked, 210);
    assert_eq!(single, 210);
}

#[test]
fn reduce_multiplication_with_identity() {
    let items = vec![2i64, 3, 4];
    let out = parallel_reduce(&MulOp, items, Some(1), Some(2)).unwrap();
    assert_eq!(out, 24);
}

#[test]
fn reduce_empty_without_initializer_is_reduce_empty() {
    let err = parallel_reduce(&AddOp, Vec::new(), None, None).unwrap_err();
    assert_eq!(err.kind(), ErrorKind::ReduceEmpty);
}

#[test]
fn reduce_empty_with_initializer_returns_it() {
    let out = parallel_reduce(&AddOp, Vec::new(), Some(42), None).unwrap();
    assert_eq!(out, 42);
}

#[test]
fn chunk_size_at_least_input_gives_one_chunk() {
    let chunks = split_into_chunks(vec![1i64, 2, 3], 3);
    assert_eq!(chunks.len(), 1);
    let chunks = split_into_chunks(vec![1i64, 2, 3], 10);
    assert_eq!(chunks.len(), 1);
    let chunks = split_into_chunks(vec![1i64, 2, 3], 2);
    assert_eq!(chunks.len(), 2);
}

#[test]
fn derived_chunk_size_splits_small_inputs_across_workers() {
    assert_eq!(derive_chunk_size(100, 4), 25);
    assert_eq!(derive_chunk_size(3, 8), 1);
    assert_eq!(derive_chunk_size(5000, 4), 1000);
}

#[test]
fn error_strategy_raise_surfaces_and_others_continue() {
    let boom = ParallelError::with_message(ErrorKind::TaskFailed, String::from("x"));
    assert!(handle_parallel_error(boom, ErrorStrategy::Raise).is_err());
    let boom = ParallelError::new(ErrorKind::TaskFailed);
    assert!(handle_parallel_error(boom, ErrorStrategy::Ignore).is_ok());
    let boom = ParallelError::new(ErrorKind::TaskFailed);
    assert!(handle_parallel_error(boom, ErrorStrategy::Collect).is_ok());
}

#[test]
fn retry_succeeds_on_third_attempt() {
    let executor = RetryExecutor::new(5, RetryStrategy::FixedDelay { delay_ms: 1 });
    let mut op = FlakyOp { calls_made: 0, succeed_from: 3 };
    let out = executor.execute(&mut op).unwrap();
    assert_eq!(out, "ok");
    assert_eq!(op.calls_made, 3);
}

#[test]
fn retry_gives_up_after_max_attempts() {
    let executor = RetryExecutor::new(2, RetryStrategy::FixedDelay { delay_ms: 1 });
    let mut op = FlakyOp { calls_made: 0, succeed_from: 10 };
    let err = executor.execute(&mut op).unwrap_err();
    assert_eq!(err.kind(), ErrorKind::TaskFailed);
    assert_eq!(op.calls_made, 2);
}

#[test]
fn retry_does_not_retry_unmatched_kinds() {
    let mut executor = RetryExecutor::new(5, RetryStrategy::FixedDelay { delay_ms: 1 });
    executor.exceptions_to_retry.clear();
    executor.add_retryable_exception(String::from("Timeout"));
    let mut op = FlakyOp { calls_made: 0, succeed_from: 3 };
    let err = executor.execute(&mut op).unwrap_err();
    assert_eq!(err.kind(), ErrorKind::TaskFailed);
    assert_eq!(op.calls_made, 1);
}

#[test]
fn retry_matches_kind_names_by_substring() {
    let executor = RetryExecutor::new(3, RetryStrategy::FixedDelay { delay_ms: 1 });
    assert!(executor.should_retry_error(&TaskError::new(String::from("MyRuntimeErrorKind"))));
    assert!(!executor.should_retry_error(&TaskError::new(String::from("Timeout"))));
}

#[test]
fn backoff_delays_follow_their_formulas() {
    let fixed = RetryExecutor::new(3, RetryStrategy::FixedDelay { delay_ms: 250 });
    assert_eq!(fixed.calculate_delay(0), 250);
    assert_eq!(fixed.calculate_delay(7), 250);

    let expo = RetryExecutor::new(
        3,
        RetryStrategy::ExponentialBackoff { initial_ms: 100, max_ms: 1500, multiplier: 2 },
    );
    assert_eq!(expo.calculate_delay(0), 100);
    assert_eq!(expo.calculate_delay(1), 200);
    assert_eq!(expo.calculate_delay(3), 800);
    assert_eq!(expo.calculate_delay(4), 1500);

    let linear = RetryExecutor::new(
        3,
        RetryStrategy::LinearBackoff { initial_ms: 100, increment_ms: 50 },
    );
    assert_eq!(linear.calculate_delay(0), 100);
    assert_eq!(linear.calculate_delay(4), 300);
}

#[test]
fn breaker_trips_after_threshold_and_rejects_next_call() {
    let mut breaker = CircuitBreaker::new(Some(3), Some(1000));
    let mut op = AlwaysFails;
    for k in 0..3u64 {
        let err = breaker.execute(&mut op, k).unwrap_err();
        assert_eq!(err.kind(), ErrorKind::TaskFailed);
    }
    let (state, count, threshold) = breaker.get_status();
    assert_eq!(state, CircuitState::Open);
    assert_eq!(count, 3);
    assert_eq!(threshold, 3);
    // The fourth call, before the recovery timeout, is rejected without
    // invoking the callable.
    let err = breaker.execute(&mut op, 500).unwrap_err();
    assert_eq!(err.kind(), ErrorKind::CircuitOpen);
}

#[test]
fn breaker_recovers_through_half_open_probe() {
    let mut breaker = CircuitBreaker::new(Some(3), Some(1000));
    let mut failing = AlwaysFails;
    for k in 0..3u64 {
        let _ = breaker.execute(&mut failing, k);
    }
    assert_eq!(breaker.get_status().0, CircuitState::Open);
    // After the recovery timeout, one successful probe closes the circuit.
    let mut working = AlwaysWorks;
    let out = breaker.execute(&mut working, 1102).unwrap();
    assert_eq!(out, 7);
    let (state, count, _) = breaker.get_status();
    assert_eq!(state, CircuitState::Closed);
    assert_eq!(count, 0);
}

#[test]
fn breaker_reopens_on_failed_probe() {
    let mut breaker = CircuitBreaker::new(Some(2), Some(1000));
    let mut failing = AlwaysFails;
    let _ = breaker.execute(&mut failing, 0);
    let _ = breaker.execute(&mut failing, 1);
    assert_eq!(breaker.get_status().0, CircuitState::Open);
    let _ = breaker.execute(&mut failing, 2000).unwrap_err();
    assert_eq!(breaker.get_status().0, CircuitState::Open);
    breaker.reset();
    assert_eq!(breaker.get_status().0, CircuitState::Closed);
    assert_eq!(breaker.get_status().1, 0);
}

#[test]
fn substring_search_finds_and_rejects() {
    assert!(contains_substring("RuntimeError", "Error"));
    assert!(contains_substring("abc", ""));
    assert!(!contains_substring("abc", "abcd"));
    assert!(!contains_substring("Timeout", "Error"));
    assert!(contains_substring("xxabcyy", "abc"));
}

#[test]
fn decimal_and_hex_rendering() {
    assert_eq!(u64_to_string(0), "0");
    assert_eq!(u64_to_string(12034), "12034");
    assert_eq!(u64_to_hex(0xdeadbeef, 8), "deadbeef");
    assert_eq!(u64_to_hex(0xab, 8), "000000ab");
    assert_eq!(u64_to_hex(0x1f, 2), "1f");
}

#[test]
fn error_strategies_ignore_and_collect_failing_items() {
    let items = vec![2i64, i64::MAX, 3];
    let (out, side) =
        parallel_map_with_strategy(&SquareOp, items.clone(), Some(1), ErrorStrategy::Ignore)
            .unwrap();
    assert_eq!(out, vec![4, 9]);
    assert!(side.is_empty());
    let (out, side) =
        parallel_map_with_strategy(&SquareOp, items.clone(), Some(1), ErrorStrategy::Collect)
            .unwrap();
    assert_eq!(out, vec![4, 9]);
    assert_eq!(side.len(), 1);
    assert_eq!(side[0].kind_name, "OverflowError");
    let err =
        parallel_map_with_strategy(&SquareOp, items, Some(1), ErrorStrategy::Raise).unwrap_err();
    assert_eq!(err.kind(), ErrorKind::TaskFailed);
}

#[test]
fn counted_failures_ride_through_a_retry_policy() {
    let executor = RetryExecutor::new(5, RetryStrategy::FixedDelay { delay_ms: 1 });
    let mut op = CountedFailures {
        failures_left: 2,
        kind_name: String::from("Error"),
        value: 5,
    };
    assert_eq!(executor.execute(&mut op).unwrap(), 5);
    assert_eq!(op.failures_left, 0);

    let mut breaker = CircuitBreaker::new(Some(2), Some(1000));
    let mut op = CountedFailures {
        failures_left: 10,
        kind_name: String::from("Error"),
        value: 0,
    };
    let _ = breaker.execute(&mut op, 0);
    let _ = breaker.execute(&mut op, 1);
    assert_eq!(breaker.get_status().0, CircuitState::Open);
    assert_eq!(breaker.execute(&mut op, 2).unwrap_err().kind(), ErrorKind::CircuitOpen);
    // The rejected call never invoked the operation.
    assert_eq!(op.failures_left, 8);
}
