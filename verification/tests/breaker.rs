//! The shared breaker. A call is written out here as what an async caller does:
//! enter, run the operation, settle.
use std::sync::atomic::{AtomicUsize, Ordering};
use std::sync::Arc;
use std::time::{Duration, Instant};

use breaker::backoff::{next_state, sample, Evaluation, Nanos};
use breaker::binary::{Binary32, Binary64};
use breaker::breaker::{admission, entry, Refusal, Settled};
use breaker::call::{CallEnd, Outcome};
use breaker::config::is_breaker_failure;
use breaker::permit::{take_slot, HalfOpenPermit};
use breaker::state::{CounterOverflow, Recorded, StateMachine};
use breaker::{
    BackoffStrategy, CircuitBreaker, CircuitBreakerConfig, CircuitBreakerError, CircuitMetrics,
    State,
};

fn f32_of(x: f32) -> Binary32 {
    Binary32 { bits: x.to_bits() }
}

fn f64_of(x: f64) -> Binary64 {
    Binary64 { bits: x.to_bits() }
}

fn secs(n: u64) -> Nanos {
    Duration::from_secs(n).as_nanos()
}

fn millis(n: u64) -> Nanos {
    Duration::from_millis(n).as_nanos()
}

/// Evaluates exponential waits in floating point.
fn grow(e: Evaluation) -> Nanos {
    let seconds = |n: Nanos| n as f64 / 1e9;
    match e {
        Evaluation::Power(g) => {
            let computed =
                seconds(g.initial) * f64::from_bits(g.factor.bits).powf(g.exponent as f64);
            Duration::from_secs_f64(computed.min(seconds(g.max)).max(0.0)).as_nanos()
        }
        Evaluation::Scale { wait, jitter } => {
            let rand = f64::from_bits(sample(next_state(0)).bits);
            let scaled = seconds(wait) * (1.0 - f64::from_bits(jitter.bits) * rand);
            Duration::from_secs_f64(scaled).as_nanos()
        }
    }
}

type Breaker = CircuitBreaker<fn(Evaluation) -> Nanos>;

fn breaker(config: CircuitBreakerConfig) -> Breaker {
    CircuitBreaker::new(config, grow)
}

fn sleep(wait: Duration) {
    let start = Instant::now();
    while start.elapsed() < wait {}
}

/// A call whose errors count where `counts` says so.
fn call_if<T, E>(
    cb: &Breaker,
    counts: impl Fn(&E) -> bool,
    operation: impl FnOnce() -> Result<T, E>,
) -> Result<T, CircuitBreakerError<E>> {
    let permit = match cb.enter::<E>() {
        Ok(permit) => permit,
        Err(turned_away) => return Err(turned_away),
    };
    let end = match operation() {
        Ok(value) => CallEnd::Succeeded(value),
        Err(error) => {
            let counts = counts(&error);
            CallEnd::Failed { error, counts }
        }
    };
    let settled: Settled<T, E> = cb.settle(end);
    settled.recorded.unwrap();
    drop(permit);
    settled.reply
}

fn call<T, E>(
    cb: &Breaker,
    operation: impl FnOnce() -> Result<T, E>,
) -> Result<T, CircuitBreakerError<E>> {
    call_if(cb, |_| true, operation)
}

fn ok(cb: &Breaker) -> Result<String, CircuitBreakerError<String>> {
    call(cb, || Ok("ok".to_string()))
}

fn fail(cb: &Breaker) -> Result<(), CircuitBreakerError<&'static str>> {
    call(cb, || Err("fail"))
}

fn consecutive_config(failures: u32, wait: Nanos) -> CircuitBreakerConfig {
    CircuitBreakerConfig::builder()
        .consecutive_failures(failures)
        .failure_rate_threshold(f32_of(0.0))
        .backoff(BackoffStrategy::Fixed(wait))
        .build()
}

fn probing_config(probes: u32, successes: u32, wait: Nanos) -> CircuitBreakerConfig {
    CircuitBreakerConfig::builder()
        .consecutive_failures(1)
        .failure_rate_threshold(f32_of(0.0))
        .success_threshold(successes)
        .half_open_max_calls(probes)
        .backoff(BackoffStrategy::Fixed(wait))
        .build()
}

fn window_rate(cb: &Breaker) -> f32 {
    f32::from_bits(cb.window_failure_rate().bits)
}

fn lifetime_rate(m: &CircuitMetrics) -> f64 {
    f64::from_bits(m.failure_rate.bits)
}

#[test]
fn error_display_messages() {
    assert_eq!(
        CircuitBreakerError::<String>::CircuitOpen.to_string(),
        "circuit breaker is open"
    );
    assert_eq!(
        CircuitBreakerError::<String>::Rejected.to_string(),
        "circuit breaker: half-open probe capacity exhausted"
    );
    assert_eq!(CircuitBreakerError::Failure("boom".to_string()).to_string(), "boom");
    assert_eq!(
        CircuitBreakerError::<String>::Timeout.to_string(),
        "circuit breaker: operation timed out"
    );
}

#[test]
fn error_display_all_variants() {
    assert_eq!(
        CircuitBreakerError::<String>::CircuitOpen.to_string(),
        "circuit breaker is open"
    );
    assert_eq!(
        CircuitBreakerError::<String>::Rejected.to_string(),
        "circuit breaker: half-open probe capacity exhausted"
    );
    assert_eq!(CircuitBreakerError::Failure("test".to_string()).to_string(), "test");
}

#[test]
fn errors_convert_into_failures() {
    assert_eq!(CircuitBreakerError::from(7u8), CircuitBreakerError::Failure(7u8));
}

#[test]
fn starts_in_closed_state() {
    let cb = breaker(CircuitBreakerConfig::standard());
    assert_eq!(cb.metrics().state, State::Closed);
}

#[test]
fn closed_to_open_after_failures() {
    let cb = breaker(consecutive_config(3, secs(60)));
    for _ in 0..3 {
        let _ = fail(&cb);
    }
    assert_eq!(cb.metrics().state, State::Open);
    assert_eq!(cb.metrics().total_failures, 3);
}

#[test]
fn open_rejects_requests() {
    let cb = breaker(consecutive_config(1, secs(60)));
    let _ = fail(&cb);
    assert_eq!(cb.metrics().state, State::Open);
    let result = ok(&cb);
    assert!(result.is_err());
    assert!(matches!(result.unwrap_err(), CircuitBreakerError::CircuitOpen));
}

#[test]
fn open_to_half_open_after_wait() {
    let cb = breaker(consecutive_config(1, millis(50)));
    let _ = fail(&cb);
    assert_eq!(cb.metrics().state, State::Open);
    sleep(Duration::from_millis(100));
    assert!(ok(&cb).is_ok());
}

#[test]
fn half_open_to_closed_after_successes() {
    let cb = breaker(probing_config(2, 2, millis(10)));
    let _ = fail(&cb);
    assert_eq!(cb.metrics().state, State::Open);
    sleep(Duration::from_millis(50));
    assert_eq!(cb.metrics().state, State::HalfOpen);
    let _ = ok(&cb);
    assert_eq!(cb.metrics().total_successes, 1);
}

#[test]
fn half_open_to_open_on_failure() {
    let cb = breaker(probing_config(2, 2, millis(10)));
    let _ = fail(&cb);
    sleep(Duration::from_millis(50));
    assert_eq!(cb.metrics().state, State::HalfOpen);
    let _ = call(&cb, || Err::<(), _>("fail again"));
    assert_eq!(cb.metrics().total_failures, 2);
}

#[test]
fn metrics_records_successes_and_failures() {
    let cb = breaker(CircuitBreakerConfig::standard());
    let _ = ok(&cb);
    let _ = ok(&cb);
    let _ = fail(&cb);
    let m = cb.metrics();
    assert_eq!(m.total_successes, 2);
    assert_eq!(m.total_failures, 1);
    assert!((lifetime_rate(&m) - 1.0 / 3.0).abs() < f64::EPSILON);
    assert!((f32::from_bits(m.window_failure_rate.bits) - 1.0 / 3.0).abs() < f32::EPSILON);
}

#[test]
fn failure_rate_zero_initially() {
    let m = breaker(CircuitBreakerConfig::standard()).metrics();
    assert_eq!(lifetime_rate(&m), 0.0);
    assert_eq!(f32::from_bits(m.window_failure_rate.bits), 0.0);
    assert_eq!(m.transitions, 0);
}

#[test]
fn trip_and_reset() {
    let cb = breaker(CircuitBreakerConfig::standard());
    cb.trip().unwrap();
    assert_eq!(cb.metrics().state, State::Open);
    cb.reset().unwrap();
    assert_eq!(cb.metrics().state, State::Closed);
}

#[test]
fn success_resets_failure_count_in_closed() {
    let cb = breaker(consecutive_config(3, secs(60)));
    let _ = fail(&cb);
    let _ = fail(&cb);
    assert_eq!(cb.metrics().state, State::Closed);
    let _ = ok(&cb);
    let _ = fail(&cb);
    let _ = fail(&cb);
    assert_eq!(cb.metrics().state, State::Closed);
}

#[test]
fn async_call_success() {
    let cb = breaker(CircuitBreakerConfig::standard());
    let result = call(&cb, || Ok::<_, String>(42i32.to_string()));
    assert_eq!(result.unwrap(), "42");
}

#[test]
fn async_call_failure_preserves_typed_error() {
    let cb = breaker(CircuitBreakerConfig::standard());
    let result = call(&cb, || Err::<String, _>("something broke"));
    assert!(result.is_err());
    match result.unwrap_err() {
        CircuitBreakerError::Failure(msg) => assert_eq!(msg, "something broke"),
        other => panic!("expected Failure, got {other:?}"),
    }
}

#[derive(Debug, PartialEq)]
struct Opaque {
    code: u16,
}

#[test]
fn non_display_error_type_passes_through() {
    let cb = breaker(CircuitBreakerConfig::standard());
    let result = call(&cb, || Err::<(), _>(Opaque { code: 418 }));
    match result.unwrap_err() {
        CircuitBreakerError::Failure(e) => assert_eq!(e, Opaque { code: 418 }),
        other => panic!("expected Failure, got {other:?}"),
    }
}

#[derive(Debug, PartialEq)]
struct ApiError {
    status: u16,
    message: &'static str,
}

#[test]
fn call_returns_original_typed_error() {
    let cb = breaker(CircuitBreakerConfig::standard());
    let result =
        call(&cb, || Err::<(), _>(ApiError { status: 503, message: "unavailable" }));
    match result.unwrap_err() {
        CircuitBreakerError::Failure(e) => {
            assert_eq!(e.status, 503);
            assert_eq!(e.message, "unavailable");
        }
        other => panic!("expected Failure, got {other:?}"),
    }
}

#[test]
fn name_returns_configured_name() {
    let cb = CircuitBreaker::builder(CircuitBreakerConfig::standard(), grow)
        .name("my-breaker")
        .build();
    assert_eq!(cb.name(), "my-breaker");
}

#[test]
fn name_default() {
    assert_eq!(breaker(CircuitBreakerConfig::standard()).name(), "default");
}

#[test]
fn builder_sets_name() {
    let cb = CircuitBreaker::builder(CircuitBreakerConfig::standard(), grow)
        .name("my-service")
        .build();
    assert_eq!(cb.name(), "my-service");
}

#[test]
fn builder_default_name() {
    assert_eq!(breaker(CircuitBreakerConfig::standard()).name(), "default");
}

#[test]
fn builder_creates_named_breaker() {
    let cb = CircuitBreaker::builder(CircuitBreakerConfig::standard(), grow)
        .name("http-breaker")
        .build();
    assert_eq!(cb.name(), "http-breaker");
    assert!(cb.is_closed());
}

#[test]
fn config_is_kept() {
    let config = probing_config(2, 3, millis(7));
    let cb = breaker(config);
    let kept = cb.config();
    assert_eq!(kept.half_open_max_calls, 2);
    assert_eq!(kept.success_threshold, 3);
    assert_eq!(kept.consecutive_failures, config.consecutive_failures);
    assert_eq!(kept.failure_rate_threshold, config.failure_rate_threshold);
    assert_eq!(kept.sliding_window_size, config.sliding_window_size);
    assert_eq!(kept.minimum_calls, config.minimum_calls);
    assert_eq!(kept.backoff, BackoffStrategy::Fixed(millis(7)));
    assert_eq!(kept.call_timeout, config.call_timeout);
}

#[test]
fn is_open_is_closed_is_half_open() {
    let cb = breaker(CircuitBreakerConfig::standard());
    assert!(cb.is_closed());
    assert!(!cb.is_open());
    assert!(!cb.is_half_open());

    cb.trip().unwrap();
    assert!(cb.is_open());
    assert!(!cb.is_closed());
    assert!(!cb.is_half_open());

    cb.reset().unwrap();
    assert!(cb.is_closed());
    assert!(!cb.is_open());
}

#[test]
fn state_method() {
    let cb = breaker(CircuitBreakerConfig::standard());
    assert_eq!(cb.state(), State::Closed);
    cb.trip().unwrap();
    assert_eq!(cb.state(), State::Open);
}

#[test]
fn record_success_manual() {
    let cb = breaker(probing_config(2, 2, millis(10)));
    cb.record_failure().unwrap();
    assert!(cb.is_open());
    sleep(Duration::from_millis(50));
    assert!(cb.is_half_open());
    cb.record_success().unwrap();
    assert!(cb.is_half_open());
    cb.record_success().unwrap();
    assert!(cb.is_closed());
}

#[test]
fn record_failure_manual() {
    let cb = breaker(consecutive_config(2, secs(60)));
    cb.record_failure().unwrap();
    assert!(cb.is_closed());
    cb.record_failure().unwrap();
    assert!(cb.is_open());
}

#[test]
fn record_failure_in_half_open_opens_circuit() {
    let cb = breaker(probing_config(2, 2, millis(10)));
    cb.record_failure().unwrap();
    sleep(Duration::from_millis(50));
    assert!(cb.is_half_open());
    cb.record_failure().unwrap();
    assert!(cb.is_open());
}

#[test]
fn manual_record_success_and_failure() {
    let config = CircuitBreakerConfig::builder()
        .consecutive_failures(2)
        .failure_rate_threshold(f32_of(0.0))
        .half_open_max_calls(1)
        .backoff(BackoffStrategy::Fixed(millis(10)))
        .build();
    let cb = breaker(config);
    cb.record_failure().unwrap();
    cb.record_failure().unwrap();
    assert!(cb.is_open());
    sleep(Duration::from_millis(50));
    assert!(cb.is_half_open());
    cb.record_success().unwrap();
    assert!(cb.is_closed());
}

#[test]
fn on_state_change_callback() {
    let count = AtomicUsize::new(0);
    let callback = |_prev: State, _next: State| {
        count.fetch_add(1, Ordering::SeqCst);
    };
    let config = CircuitBreakerConfig::builder()
        .consecutive_failures(1)
        .failure_rate_threshold(f32_of(0.0))
        .build();
    let cb = breaker(config);
    for (prev, next) in cb.record_failure().unwrap() {
        callback(prev, next);
    }
    assert_eq!(count.load(Ordering::SeqCst), 1);
    let (prev, next) = cb.reset().unwrap();
    callback(prev, next);
    assert_eq!(count.load(Ordering::SeqCst), 2);
}

#[test]
fn on_state_change_records_transition() {
    let config = CircuitBreakerConfig::builder()
        .consecutive_failures(1)
        .failure_rate_threshold(f32_of(0.0))
        .build();
    let t = breaker(config).record_failure().unwrap();
    assert_eq!(t.len(), 1);
    assert_eq!(t[0], (State::Closed, State::Open));
}

#[test]
fn builder_with_state_change_callback() {
    let config = CircuitBreakerConfig::builder()
        .consecutive_failures(1)
        .failure_rate_threshold(f32_of(0.0))
        .build();
    let cb = breaker(config);
    let mut count = cb.record_failure().unwrap().len();
    assert_eq!(cb.reset().unwrap(), (State::Open, State::Closed));
    count += 1;
    assert_eq!(count, 2);
}

#[test]
fn record_success_in_closed_does_not_transition() {
    let cb = breaker(CircuitBreakerConfig::standard());
    let mut count = cb.record_success().unwrap().len();
    count += cb.record_success().unwrap().len();
    assert_eq!(count, 0);
    assert!(cb.is_closed());
}

#[test]
fn waking_up_is_reported_before_what_follows() {
    let cb = breaker(probing_config(1, 2, millis(5)));
    cb.record_failure().unwrap();
    sleep(Duration::from_millis(10));
    assert_eq!(cb.record_success().unwrap(), vec![(State::Open, State::HalfOpen)]);
    assert_eq!(cb.record_success().unwrap(), vec![(State::HalfOpen, State::Closed)]);
    assert_eq!(cb.metrics().transitions, 3);
}

#[test]
fn forced_transitions_report_the_state_seen_before() {
    let cb = breaker(consecutive_config(1, millis(5)));
    assert_eq!(cb.trip(), Ok((State::Closed, State::Open)));
    sleep(Duration::from_millis(10));
    assert_eq!(cb.trip(), Ok((State::HalfOpen, State::Open)));
    assert_eq!(cb.reset(), Ok((State::Open, State::Closed)));
    assert_ne!(cb.reset(), Err(CounterOverflow));
}

#[test]
fn sliding_window_rate_trips_interleaved_failures() {
    let config = CircuitBreakerConfig::builder()
        .consecutive_failures(u32::MAX)
        .failure_rate_threshold(f32_of(0.5))
        .sliding_window_size(4)
        .backoff(BackoffStrategy::Fixed(secs(60)))
        .build();
    let cb = breaker(config);
    let _ = ok(&cb);
    let _ = fail(&cb);
    let _ = ok(&cb);
    assert!(cb.is_closed());
    let _ = fail(&cb);
    assert!(cb.is_open());
    assert_eq!(cb.metrics().total_failures, 2);
    assert!((window_rate(&cb) - 0.5).abs() < f32::EPSILON);
}

#[test]
fn sliding_window_resets_after_recovery() {
    let config = CircuitBreakerConfig::builder()
        .consecutive_failures(u32::MAX)
        .failure_rate_threshold(f32_of(1.0))
        .sliding_window_size(4)
        .success_threshold(1)
        .half_open_max_calls(2)
        .backoff(BackoffStrategy::Fixed(millis(20)))
        .build();
    let cb = breaker(config);
    for _ in 0..4 {
        let _ = fail(&cb);
    }
    assert!(cb.is_open());
    sleep(Duration::from_millis(50));
    let _ = ok(&cb);
    assert!(cb.is_closed());
    assert!((window_rate(&cb) - 0.0).abs() < f32::EPSILON);
    let _ = fail(&cb);
    let _ = fail(&cb);
    assert!(cb.is_closed());
    let _ = fail(&cb);
    let _ = fail(&cb);
    assert!(cb.is_open());
}

#[test]
fn sliding_window_trips_on_rate_crossing() {
    let config = CircuitBreakerConfig::builder()
        .consecutive_failures(u32::MAX)
        .failure_rate_threshold(f32_of(0.5))
        .sliding_window_size(4)
        .backoff(BackoffStrategy::Fixed(secs(60)))
        .build();
    let cb = breaker(config);
    let _ = ok(&cb);
    let _ = ok(&cb);
    let _ = fail(&cb);
    assert!(cb.is_closed());
    let _ = fail(&cb);
    assert!(cb.is_open());
}

#[test]
fn window_rate_is_evaluated_when_failures_are_recorded() {
    let config = CircuitBreakerConfig::builder()
        .consecutive_failures(u32::MAX)
        .failure_rate_threshold(f32_of(0.5))
        .sliding_window_size(2)
        .backoff(BackoffStrategy::Fixed(secs(60)))
        .build();
    let cb = breaker(config);
    let _ = fail(&cb);
    assert!(cb.is_closed());
    let _ = ok(&cb);
    assert!(cb.is_closed());
    let _ = fail(&cb);
    assert!(cb.is_open());
}

#[test]
fn sliding_window_reset_on_close() {
    let config = CircuitBreakerConfig::builder()
        .consecutive_failures(u32::MAX)
        .failure_rate_threshold(f32_of(0.5))
        .sliding_window_size(4)
        .success_threshold(1)
        .half_open_max_calls(2)
        .backoff(BackoffStrategy::Fixed(millis(20)))
        .build();
    let cb = breaker(config);
    let _ = ok(&cb);
    let _ = fail(&cb);
    let _ = ok(&cb);
    let _ = fail(&cb);
    assert!(cb.is_open());
    sleep(Duration::from_millis(50));
    let _ = ok(&cb);
    assert!(cb.is_closed());
    assert!((window_rate(&cb) - 0.0).abs() < f32::EPSILON);
    let _ = fail(&cb);
    let _ = fail(&cb);
    assert!(cb.is_closed());
}

#[test]
fn early_warning_mode_evaluates_partially_filled_window() {
    let config = CircuitBreakerConfig::builder()
        .consecutive_failures(u32::MAX)
        .failure_rate_threshold(f32_of(0.5))
        .sliding_window_size(4)
        .minimum_calls(1)
        .backoff(BackoffStrategy::Fixed(secs(60)))
        .build();
    let cb = breaker(config);
    let _ = fail(&cb);
    assert!(cb.is_open());
}

#[test]
fn exponential_backoff_extends_each_open_episode() {
    let config = CircuitBreakerConfig::builder()
        .consecutive_failures(1)
        .failure_rate_threshold(f32_of(0.0))
        .half_open_max_calls(1)
        .success_threshold(1)
        .backoff(BackoffStrategy::Exponential {
            initial: millis(40),
            max: millis(400),
            factor: f64_of(2.0),
        })
        .build();
    let cb = breaker(config);
    let _ = fail(&cb);
    sleep(Duration::from_millis(15));
    assert_eq!(cb.state(), State::Open, "first episode still in backoff");
    sleep(Duration::from_millis(60));
    assert_eq!(cb.state(), State::HalfOpen);
    let _ = fail(&cb);
    sleep(Duration::from_millis(50));
    assert_eq!(cb.state(), State::Open, "second episode must wait longer");
    sleep(Duration::from_millis(60));
    assert_eq!(cb.state(), State::HalfOpen);
    let _ = ok(&cb);
    assert!(cb.is_closed());
}

#[test]
fn jittered_backoff_still_opens_and_half_opens() {
    let config = CircuitBreakerConfig::builder()
        .consecutive_failures(1)
        .failure_rate_threshold(f32_of(0.0))
        .half_open_max_calls(1)
        .success_threshold(1)
        .backoff(BackoffStrategy::ExponentialJitter {
            initial: millis(10),
            max: millis(50),
            factor: f64_of(2.0),
            jitter: f64_of(1.0),
        })
        .build();
    let cb = breaker(config);
    let opened = {
        let _ = fail(&cb);
        cb.metrics().transitions
    };
    assert_eq!(opened, 1);
    assert!(!cb.is_closed());
    sleep(Duration::from_millis(60));
    assert_eq!(cb.state(), State::HalfOpen);
    let _ = ok(&cb);
    assert!(cb.is_closed());
}

#[test]
fn full_lifecycle_closed_open_halfopen_closed() {
    let config = CircuitBreakerConfig::builder()
        .consecutive_failures(2)
        .failure_rate_threshold(f32_of(0.0))
        .success_threshold(2)
        .half_open_max_calls(2)
        .backoff(BackoffStrategy::Fixed(millis(50)))
        .build();
    let cb = breaker(config);
    assert_eq!(cb.state(), State::Closed);
    assert!(cb.is_closed());
    let _ = fail(&cb);
    assert_eq!(cb.state(), State::Closed);
    let _ = fail(&cb);
    assert_eq!(cb.state(), State::Open);
    assert!(cb.is_open());
    sleep(Duration::from_millis(100));
    assert_eq!(cb.state(), State::HalfOpen);
    assert!(cb.is_half_open());
    let _ = ok(&cb);
    let _ = ok(&cb);
    assert_eq!(cb.state(), State::Closed);
}

#[test]
fn half_open_failure_reopens_circuit() {
    let cb = breaker(probing_config(2, 2, millis(50)));
    let _ = fail(&cb);
    assert_eq!(cb.state(), State::Open);
    sleep(Duration::from_millis(100));
    assert_eq!(cb.state(), State::HalfOpen);
    let _ = call(&cb, || Err::<(), _>("fail again"));
    assert_eq!(cb.state(), State::Open);
}

#[test]
fn open_circuit_rejects_all_calls() {
    let cb = breaker(consecutive_config(1, secs(60)));
    let _ = fail(&cb);
    assert_eq!(cb.state(), State::Open);
    let mut ran = false;
    let result = call(&cb, || {
        ran = true;
        Ok::<_, String>("should not run".to_string())
    });
    assert!(result.is_err());
    assert!(matches!(result.unwrap_err(), CircuitBreakerError::CircuitOpen));
    assert!(!ran);
}

#[test]
fn metrics_tracks_successes_and_failures() {
    let cb = breaker(CircuitBreakerConfig::standard());
    let _ = ok(&cb);
    let _ = ok(&cb);
    let _ = ok(&cb);
    let _ = call(&cb, || Err::<(), _>("err"));
    let m = cb.metrics();
    assert_eq!(m.total_successes, 3);
    assert_eq!(m.total_failures, 1);
    assert!((lifetime_rate(&m) - 0.25).abs() < f64::EPSILON);
    assert!((f32::from_bits(m.window_failure_rate.bits) - 0.25).abs() < f32::EPSILON);
    assert_eq!(m.state, State::Closed);
}

#[test]
fn metrics_initial_state_zeroes() {
    let m: CircuitMetrics = breaker(CircuitBreakerConfig::standard()).metrics();
    assert_eq!(lifetime_rate(&m), 0.0);
    assert_eq!(f32::from_bits(m.window_failure_rate.bits), 0.0);
    assert_eq!(m.total_successes, 0);
    assert_eq!(m.total_failures, 0);
    assert_eq!(m.transitions, 0);
    assert_eq!(m.state, State::Closed);
}

#[test]
fn metrics_transitions_count() {
    let config = CircuitBreakerConfig::builder()
        .consecutive_failures(2)
        .failure_rate_threshold(f32_of(0.0))
        .half_open_max_calls(1)
        .backoff(BackoffStrategy::Fixed(millis(10)))
        .build();
    let cb = breaker(config);
    cb.record_failure().unwrap();
    assert_eq!(cb.metrics().transitions, 0);
    cb.record_failure().unwrap();
    assert_eq!(cb.metrics().transitions, 1);
    sleep(Duration::from_millis(50));
    cb.record_success().unwrap();
    assert_eq!(cb.metrics().transitions, 3);
}

#[test]
fn trip_and_reset_forced_transitions() {
    let cb = breaker(CircuitBreakerConfig::standard());
    assert!(cb.is_closed());
    cb.trip().unwrap();
    assert!(cb.is_open());
    assert_eq!(cb.metrics().transitions, 1);
    cb.reset().unwrap();
    assert!(cb.is_closed());
    assert_eq!(cb.metrics().transitions, 2);
}

#[test]
fn half_open_permits_released_after_failure() {
    let cb = breaker(probing_config(1, 1, millis(10)));
    cb.record_failure().unwrap();
    sleep(Duration::from_millis(50));
    let _ = fail(&cb);
    assert!(cb.is_open());
    sleep(Duration::from_millis(50));
    assert!(ok(&cb).is_ok(), "permit must be reusable after a failed probe");
    assert!(cb.is_closed());
}

#[test]
fn half_open_rejects_when_no_probe_capacity() {
    let cb = breaker(probing_config(1, 100, millis(10)));
    cb.record_failure().unwrap();
    sleep(Duration::from_millis(50));
    assert!(cb.is_half_open());

    let probe = cb.enter::<&str>().unwrap();
    assert!(probe.is_some());
    let result = call(&cb, || Ok::<(), &str>(()));
    assert!(matches!(result, Err(CircuitBreakerError::Rejected)));
    assert_eq!(cb.metrics().total_failures, 1);

    let settled: Settled<(), &str> = cb.settle(CallEnd::Succeeded(()));
    drop(probe);
    settled.reply.unwrap();
    assert!(call(&cb, || Ok::<(), &str>(())).is_ok());
}

#[test]
fn refusals_tell_how_many_probes_are_in_flight() {
    let cb = breaker(probing_config(2, 100, millis(1)));
    assert!(matches!(cb.try_enter(), Ok(None)));
    cb.record_failure().unwrap();
    sleep(Duration::from_millis(5));
    let first = cb.try_enter().unwrap();
    let second = cb.try_enter().unwrap();
    assert!(first.is_some() && second.is_some());
    assert!(matches!(cb.try_enter(), Err(Refusal::Full { in_use: 2 })));
    drop(first);
    assert!(cb.try_enter().is_ok());
    cb.trip().unwrap();
    let open = breaker(consecutive_config(1, secs(60)));
    open.trip().unwrap();
    assert!(matches!(open.try_enter(), Err(Refusal::Open)));
}

#[test]
fn cancelled_probe_releases_permit() {
    let cb = breaker(probing_config(1, 100, millis(10)));
    cb.record_failure().unwrap();
    sleep(Duration::from_millis(50));
    drop(cb.enter::<&str>().unwrap());
    let result = call(&cb, || Ok::<(), &str>(()));
    assert!(result.is_ok(), "cancelled probe must release its permit");
}

#[test]
fn closed_circuit_needs_no_permit() {
    let cb = breaker(CircuitBreakerConfig::standard());
    assert!(matches!(cb.enter::<u8>(), Ok(None)));
    assert!(matches!(entry(State::Closed, None), Ok(None)));
    assert!(matches!(entry(State::Open, None), Err(Refusal::Open)));
    let full = entry(State::HalfOpen, Some(Err(3)));
    assert!(matches!(full, Err(Refusal::Full { in_use: 3 })));
    let permits = AtomicUsize::new(0);
    let probe = HalfOpenPermit::try_acquire(&permits, 1);
    assert!(matches!(entry(State::HalfOpen, Some(probe)), Ok(Some(_))));
    assert_eq!(Refusal::Open.error::<u8>(), CircuitBreakerError::CircuitOpen);
    assert_eq!(Refusal::Full { in_use: 3 }.error::<u8>(), CircuitBreakerError::Rejected);
}

#[test]
fn admission_follows_the_machine() {
    let config = consecutive_config(1, 10);
    let permits = AtomicUsize::new(0);
    let mut sm = StateMachine::new(&config, &grow);
    assert!(matches!(admission(&sm, 0, &permits, 1), Ok(None)));
    assert_eq!(permits.load(Ordering::SeqCst), 0);
    sm.force_open(&config, 0, &grow);
    assert!(matches!(admission(&sm, 9, &permits, 1), Err(Refusal::Open)));
    assert_eq!(permits.load(Ordering::SeqCst), 0);
    let probe = admission(&sm, 10, &permits, 1);
    assert!(matches!(probe, Ok(Some(_))));
    assert!(matches!(admission(&sm, 10, &permits, 1), Err(Refusal::Full { in_use: 1 })));
    drop(probe);
    assert!(matches!(admission(&sm, 10, &permits, 1), Ok(Some(_))));
}

#[test]
fn permits_are_counted() {
    let permits = AtomicUsize::new(0);
    let first = HalfOpenPermit::acquire(&permits, 2);
    let second = HalfOpenPermit::acquire(&permits, 2);
    assert!(first.is_some() && second.is_some());
    assert_eq!(permits.load(Ordering::SeqCst), 2);
    assert!(HalfOpenPermit::acquire(&permits, 2).is_none());
    assert_eq!(permits.load(Ordering::SeqCst), 2);
    drop(first);
    assert_eq!(permits.load(Ordering::SeqCst), 1);
    assert!(HalfOpenPermit::acquire(&permits, 2).is_some());
    assert!(HalfOpenPermit::acquire(&permits, 0).is_none());
    assert!(matches!(HalfOpenPermit::try_acquire(&permits, 1), Err(1)));
    assert_eq!(take_slot(1, 2), Some(2));
    assert_eq!(take_slot(2, 2), None);
}

#[test]
fn predicate_false_errors_do_not_trip() {
    let cb = breaker(consecutive_config(1, secs(60)));
    let permanent = |e: &String| e.contains("permanent");
    let counts = |e: &String| is_breaker_failure(Some(&permanent), Some(e));
    for _ in 0..5 {
        let result = call_if(&cb, counts, || Err::<(), _>("transient blip".to_string()));
        match result.unwrap_err() {
            CircuitBreakerError::Failure(e) => assert_eq!(e, "transient blip"),
            other => panic!("expected Failure, got {other:?}"),
        }
    }
    assert!(cb.is_closed());
    assert_eq!(cb.metrics().total_failures, 0);

    let result = call_if(&cb, counts, || Err::<(), _>("permanent outage".to_string()));
    match result.unwrap_err() {
        CircuitBreakerError::Failure(e) => assert_eq!(e, "permanent outage"),
        other => panic!("expected Failure, got {other:?}"),
    }
    assert!(cb.is_open());
    assert_eq!(cb.metrics().total_failures, 1);
}

#[test]
fn predicate_classifies_errors() {
    let cb = breaker(consecutive_config(2, secs(60)));
    let refused = |e: &std::io::Error| e.kind() == std::io::ErrorKind::ConnectionRefused;
    let counts = |e: &std::io::Error| is_breaker_failure(Some(&refused), Some(e));
    for _ in 0..5 {
        let result = call_if(&cb, counts, || {
            Err::<(), _>(std::io::Error::new(std::io::ErrorKind::InvalidInput, "bad request"))
        });
        assert!(matches!(result, Err(CircuitBreakerError::Failure(_))));
    }
    assert!(cb.is_closed());
    assert_eq!(cb.metrics().total_failures, 0);
    for _ in 0..2 {
        let result = call_if(&cb, counts, || {
            Err::<(), _>(std::io::Error::new(std::io::ErrorKind::ConnectionRefused, "down"))
        });
        assert!(matches!(result, Err(CircuitBreakerError::Failure(_))));
    }
    assert!(cb.is_open());
    assert_eq!(cb.metrics().total_failures, 2);
}

#[test]
fn timeout_fires_and_counts_as_failure() {
    let config = CircuitBreakerConfig::builder()
        .consecutive_failures(1)
        .failure_rate_threshold(f32_of(0.0))
        .call_timeout(Some(millis(20)))
        .backoff(BackoffStrategy::Fixed(secs(60)))
        .build();
    let cb = breaker(config);
    assert_eq!(cb.config().call_timeout, Some(millis(20)));
    let settled: Settled<(), &str> = cb.settle(CallEnd::TimedOut);
    assert!(matches!(settled.reply, Err(CircuitBreakerError::Timeout)));
    assert!(cb.is_open());
    assert_eq!(cb.metrics().total_failures, 1);
}

#[test]
fn timeout_disabled_passes_slow_calls() {
    let cb = breaker(CircuitBreakerConfig::builder().call_timeout(None).build());
    assert_eq!(cb.config().call_timeout, None);
    let result = call(&cb, || {
        sleep(Duration::from_millis(20));
        Ok::<(), &str>(())
    });
    assert!(result.is_ok());
}

#[test]
fn failure_count_histogram_records_consecutive_failures() {
    let config = CircuitBreakerConfig::builder()
        .consecutive_failures(5)
        .failure_rate_threshold(f32_of(0.0))
        .sliding_window_size(10)
        .backoff(BackoffStrategy::Fixed(secs(60)))
        .build();
    let cb = breaker(config);
    let mut values = Vec::new();
    for _ in 0..2 {
        let _ = call(&cb, || Err::<(), _>("boom"));
        let (rate, count) = cb.failure_sample();
        assert_eq!(f64::from_bits(rate.bits), 1.0);
        values.push(count as f64);
    }
    assert_eq!(values, vec![1.0, 2.0]);
}

#[test]
fn ends_of_calls_mean_what_they_say() {
    assert_eq!(CallEnd::<u8, u8>::Succeeded(3).outcome(), Outcome::Success);
    assert_eq!(CallEnd::<u8, u8>::Failed { error: 4, counts: true }.outcome(), Outcome::Failure);
    let uncounted = CallEnd::<u8, u8>::Failed { error: 4, counts: false };
    assert_eq!(uncounted.outcome(), Outcome::Uncounted);
    assert_eq!(uncounted.reply(), Err(CircuitBreakerError::Failure(4)));
    assert_eq!(CallEnd::<u8, u8>::TimedOut.outcome(), Outcome::Failure);
    assert_eq!(CallEnd::<u8, u8>::TimedOut.reply(), Err(CircuitBreakerError::Timeout));
    assert_eq!(CallEnd::<u8, u8>::Succeeded(3).reply(), Ok(3));
}

#[test]
fn clones_share_one_circuit() {
    let a = breaker(consecutive_config(2, secs(60)));
    let b = a.clone();
    a.record_failure().unwrap();
    b.record_failure().unwrap();
    assert!(a.is_open() && b.is_open());
    assert_eq!(a.metrics(), b.metrics());
    assert_eq!(b.window_filled(), 2);
}

/// Runs `work` on `n` threads at once and collects what it gives.
fn at_once<T: Send + 'static>(n: usize, work: impl Fn() -> T + Send + Sync + 'static) -> Vec<T> {
    let runtime = tokio::runtime::Builder::new_multi_thread().worker_threads(4).build().unwrap();
    let work = Arc::new(work);
    let mut handles = Vec::new();
    for _ in 0..n {
        let work = work.clone();
        handles.push(runtime.spawn_blocking(move || work()));
    }
    let mut results = Vec::new();
    for handle in handles {
        results.push(runtime.block_on(handle).unwrap());
    }
    results
}

#[test]
fn loom_concurrent_failures_no_lost_updates() {
    for _ in 0..50 {
        let cb = breaker(consecutive_config(2, secs(3600)));
        let shared = cb.clone();
        let reports: Vec<Recorded> = at_once(2, move || shared.record_failure());
        let m = cb.metrics();
        assert_eq!(m.state, State::Open);
        assert_eq!(m.total_failures, 2, "lost failure update");
        assert_eq!(m.transitions, 1, "circuit must trip exactly once");
        assert_eq!(lifetime_rate(&m), 1.0);
        let reported: usize = reports.iter().map(|r| r.as_ref().unwrap().len()).sum();
        assert_eq!(reported, 1);
    }
}

#[test]
fn loom_concurrent_trip_and_success_serialized() {
    for _ in 0..50 {
        let cb = breaker(consecutive_config(10, secs(3600)));
        let turn = AtomicUsize::new(0);
        let shared = cb.clone();
        at_once(2, move || {
            if turn.fetch_add(1, Ordering::SeqCst) == 0 {
                shared.record_success().unwrap();
            } else {
                shared.trip().unwrap();
            }
        });
        let m = cb.metrics();
        assert_eq!(m.state, State::Open);
        assert_eq!(m.transitions, 1);
        assert_eq!(m.total_successes, 1);
        assert_eq!(m.total_failures, 0);
    }
}

#[test]
fn half_open_permits_bound_concurrent_probes() {
    let cb = breaker(probing_config(2, 100, millis(10)));
    cb.record_failure().unwrap();
    sleep(Duration::from_millis(50));
    assert!(cb.is_half_open());

    let entered = Arc::new(AtomicUsize::new(0));
    let asked = Arc::new(AtomicUsize::new(0));
    let (shared, running, waiting) = (cb.clone(), entered.clone(), asked.clone());
    let results = at_once(6, move || {
        let answer = shared.enter::<&str>();
        waiting.fetch_add(1, Ordering::SeqCst);
        let permit = match answer {
            Ok(permit) => permit,
            Err(turned_away) => return Err(turned_away),
        };
        running.fetch_add(1, Ordering::SeqCst);
        // A probe runs until all callers have asked.
        while waiting.load(Ordering::SeqCst) < 6 {}
        let settled: Settled<(), &str> = shared.settle(CallEnd::Succeeded(()));
        drop(permit);
        settled.reply
    });

    let mut admitted = 0;
    let mut rejected = 0;
    for result in results {
        match result {
            Ok(()) => admitted += 1,
            Err(CircuitBreakerError::Rejected) => rejected += 1,
            Err(other) => panic!("unexpected error: {other:?}"),
        }
    }
    assert_eq!(admitted, 2, "exactly half_open_max_calls probes admitted");
    assert_eq!(rejected, 4, "excess probes rejected with Rejected");
    assert_eq!(entered.load(Ordering::SeqCst), 2);
    assert_eq!(cb.metrics().total_failures, 1);
}

#[test]
fn no_recorded_outcome_is_lost() {
    let cb = breaker(consecutive_config(1, millis(1)));
    let turn = AtomicUsize::new(0);
    let shared = cb.clone();
    at_once(4, move || {
        let failing = turn.fetch_add(1, Ordering::SeqCst) % 2 == 0;
        for _ in 0..1000 {
            if failing {
                shared.record_failure().unwrap();
            } else {
                shared.record_success().unwrap();
            }
        }
    });
    assert_eq!(cb.metrics().total_failures, 2000);
    assert_eq!(cb.metrics().total_successes, 2000);
}
