//! Configuration of a breaker.
use vstd::prelude::*;

use crate::backoff::{BackoffStrategy, Nanos};
use crate::binary::Binary32;

verus! {

/// One second in nanoseconds.
pub const SECOND: Nanos = 1_000_000_000;

/// The encoding of one half as a 32-bit number.
pub const HALF_32: u32 = 0x3f00_0000;

/// Configuration of a circuit breaker.
///
/// While closed, the circuit trips when either rule fires:
///
/// 1. `consecutive_failures` failures in a row (any success ends the streak);
/// 2. over the last `sliding_window_size` outcomes the failure fraction reaches
///    `failure_rate_threshold`, once at least `minimum_calls` outcomes are held.
#[derive(Debug, Clone, Copy)]
pub struct CircuitBreakerConfig {
    /// Failure fraction in the sliding window at which the circuit trips. Zero
    /// disables the rate rule.
    pub failure_rate_threshold: Binary32,
    /// Consecutive failures that trip the circuit. `u32::MAX` disables the
    /// streak rule.
    pub consecutive_failures: u32,
    /// Capacity of the sliding window of recent outcomes.
    pub sliding_window_size: u32,
    /// Outcomes that must be in the window before the rate is evaluated.
    pub minimum_calls: u32,
    /// Probe calls admitted at once while half-open.
    pub half_open_max_calls: u32,
    /// Successful probes that close a half-open circuit.
    pub success_threshold: u32,
    /// How long to stay open after each trip.
    pub backoff: BackoffStrategy,
    /// Time limit of a call. `None` sets no limit.
    pub call_timeout: Option<Nanos>,
}

/// Builder for [`CircuitBreakerConfig`]. Setters move values that are out of
/// range to the nearest one in range; a field that is not set gets its default.
#[derive(Debug, Clone, Copy)]
pub struct CircuitBreakerConfigBuilder {
    failure_rate_threshold: Option<Binary32>,
    consecutive_failures: Option<u32>,
    sliding_window_size: Option<u32>,
    minimum_calls: Option<u32>,
    backoff: Option<BackoffStrategy>,
    half_open_max_calls: Option<u32>,
    success_threshold: Option<u32>,
    call_timeout: Option<Nanos>,
}

/// What has been set on a builder so far.
pub struct Settings {
    pub failure_rate_threshold: Option<Binary32>,
    pub consecutive_failures: Option<u32>,
    pub sliding_window_size: Option<u32>,
    pub minimum_calls: Option<u32>,
    pub backoff: Option<BackoffStrategy>,
    pub half_open_max_calls: Option<u32>,
    pub success_threshold: Option<u32>,
    pub call_timeout: Option<Nanos>,
}

/// The larger of `v` and one.
pub open spec fn positive(v: u32) -> u32 {
    if v < 1 {
        1
    } else {
        v
    }
}

impl Settings {
    /// Nothing has been set.
    pub open spec fn none() -> Settings {
        Settings {
            failure_rate_threshold: None,
            consecutive_failures: None,
            sliding_window_size: None,
            minimum_calls: None,
            backoff: None,
            half_open_max_calls: None,
            success_threshold: None,
            call_timeout: None,
        }
    }

    /// The window size, by default 10.
    pub open spec fn window(self) -> u32 {
        positive(self.sliding_window_size.unwrap_or(10))
    }

    /// The probe limit, by default 3.
    pub open spec fn probes(self) -> u32 {
        positive(self.half_open_max_calls.unwrap_or(3))
    }

    /// The outcomes needed before the rate counts: by default the whole window,
    /// never none and never more than the window.
    pub open spec fn minimum(self) -> u32 {
        let wanted = positive(self.minimum_calls.unwrap_or(self.window()));
        if wanted > self.window() {
            self.window()
        } else {
            wanted
        }
    }

    /// The configuration that these settings make.
    pub open spec fn config(self) -> CircuitBreakerConfig {
        CircuitBreakerConfig {
            failure_rate_threshold: self.failure_rate_threshold.unwrap_or(
                Binary32 { bits: HALF_32 },
            ).clamp_unit_spec(),
            consecutive_failures: positive(self.consecutive_failures.unwrap_or(5)),
            sliding_window_size: self.window(),
            minimum_calls: self.minimum(),
            half_open_max_calls: self.probes(),
            success_threshold: positive(self.success_threshold.unwrap_or(self.probes())),
            backoff: self.backoff.unwrap_or(BackoffStrategy::Fixed((30 * SECOND) as u128)),
            call_timeout: self.call_timeout,
        }
    }
}

impl View for CircuitBreakerConfigBuilder {
    type V = Settings;

    closed spec fn view(&self) -> Settings {
        Settings {
            failure_rate_threshold: self.failure_rate_threshold,
            consecutive_failures: self.consecutive_failures,
            sliding_window_size: self.sliding_window_size,
            minimum_calls: self.minimum_calls,
            backoff: self.backoff,
            half_open_max_calls: self.half_open_max_calls,
            success_threshold: self.success_threshold,
            call_timeout: self.call_timeout,
        }
    }
}

fn at_least_one(v: u32) -> (r: u32)
    ensures
        r == positive(v),
{
    if v < 1 {
        1
    } else {
        v
    }
}

impl CircuitBreakerConfig {
    /// Half of the last 10 outcomes or 5 failures in a row trip; a fixed wait of
    /// 30 s; 3 probes.
    pub fn standard() -> (c: CircuitBreakerConfig)
        ensures
            c == (CircuitBreakerConfig {
                failure_rate_threshold: Binary32 { bits: HALF_32 },
                consecutive_failures: 5,
                sliding_window_size: 10,
                minimum_calls: 10,
                half_open_max_calls: 3,
                success_threshold: 3,
                backoff: BackoffStrategy::Fixed(30_000_000_000),
                call_timeout: None,
            }),
    {
        Self::builder()
            .failure_rate_threshold(Binary32 { bits: HALF_32 })
            .consecutive_failures(5)
            .sliding_window_size(10)
            .backoff(BackoffStrategy::Fixed(30 * SECOND))
            .half_open_max_calls(3)
            .build()
    }

    /// The first failure trips; a fixed wait of 10 s; 1 probe.
    pub fn fast_fail() -> (c: CircuitBreakerConfig)
        ensures
            c == (CircuitBreakerConfig {
                failure_rate_threshold: Binary32 { bits: crate::binary::ONE_32 },
                consecutive_failures: 1,
                sliding_window_size: 5,
                minimum_calls: 5,
                half_open_max_calls: 1,
                success_threshold: 1,
                backoff: BackoffStrategy::Fixed(10_000_000_000),
                call_timeout: None,
            }),
    {
        Self::builder()
            .failure_rate_threshold(Binary32 { bits: crate::binary::ONE_32 })
            .consecutive_failures(1)
            .sliding_window_size(5)
            .backoff(BackoffStrategy::Fixed(10 * SECOND))
            .half_open_max_calls(1)
            .build()
    }

    /// Half of the last 20 outcomes or 10 failures in a row trip; a fixed wait
    /// of 60 s; 5 probes.
    pub fn lenient() -> (c: CircuitBreakerConfig)
        ensures
            c == (CircuitBreakerConfig {
                failure_rate_threshold: Binary32 { bits: HALF_32 },
                consecutive_failures: 10,
                sliding_window_size: 20,
                minimum_calls: 20,
                half_open_max_calls: 5,
                success_threshold: 5,
                backoff: BackoffStrategy::Fixed(60_000_000_000),
                call_timeout: None,
            }),
    {
        Self::builder()
            .failure_rate_threshold(Binary32 { bits: HALF_32 })
            .consecutive_failures(10)
            .sliding_window_size(20)
            .backoff(BackoffStrategy::Fixed(60 * SECOND))
            .half_open_max_calls(5)
            .build()
    }

    /// A builder on which nothing is set.
    pub fn builder() -> (b: CircuitBreakerConfigBuilder)
        ensures
            b@ == Settings::none(),
    {
        CircuitBreakerConfigBuilder::default()
    }
}

impl Default for CircuitBreakerConfigBuilder {
    fn default() -> (b: CircuitBreakerConfigBuilder)
        ensures
            b@ == Settings::none(),
    {
        CircuitBreakerConfigBuilder {
            failure_rate_threshold: None,
            consecutive_failures: None,
            sliding_window_size: None,
            minimum_calls: None,
            backoff: None,
            half_open_max_calls: None,
            success_threshold: None,
            call_timeout: None,
        }
    }
}

impl CircuitBreakerConfigBuilder {
    /// Failure fraction in the sliding window that trips the circuit, moved into
    /// the interval from zero to one. Default: one half.
    pub fn failure_rate_threshold(self, v: Binary32) -> (b: Self)
        ensures
            b@ == (Settings { failure_rate_threshold: Some(v.clamp_unit_spec()), ..self@ }),
    {
        CircuitBreakerConfigBuilder { failure_rate_threshold: Some(v.clamp_unit()), ..self }
    }

    /// Consecutive failures that trip the circuit, at least 1. Default: 5.
    pub fn consecutive_failures(self, v: u32) -> (b: Self)
        ensures
            b@ == (Settings { consecutive_failures: Some(positive(v)), ..self@ }),
    {
        CircuitBreakerConfigBuilder { consecutive_failures: Some(at_least_one(v)), ..self }
    }

    /// Capacity of the sliding window, at least 1. Default: 10.
    pub fn sliding_window_size(self, v: u32) -> (b: Self)
        ensures
            b@ == (Settings { sliding_window_size: Some(positive(v)), ..self@ }),
    {
        CircuitBreakerConfigBuilder { sliding_window_size: Some(at_least_one(v)), ..self }
    }

    /// Outcomes needed in the window before the rate is evaluated, at least 1
    /// and at most the window size. Default: the window size.
    pub fn minimum_calls(self, v: u32) -> (b: Self)
        ensures
            b@ == (Settings { minimum_calls: Some(positive(v)), ..self@ }),
    {
        CircuitBreakerConfigBuilder { minimum_calls: Some(at_least_one(v)), ..self }
    }

    /// Backoff strategy applied on every trip. Replaces any wait set before.
    /// Default: a fixed wait of 30 s.
    pub fn backoff(self, v: BackoffStrategy) -> (b: Self)
        ensures
            b@ == (Settings { backoff: Some(v), ..self@ }),
    {
        CircuitBreakerConfigBuilder { backoff: Some(v), ..self }
    }

    /// A constant wait. Replaces any backoff set before.
    pub fn wait_duration(self, d: Nanos) -> (b: Self)
        ensures
            b@ == (Settings { backoff: Some(BackoffStrategy::Fixed(d)), ..self@ }),
    {
        self.backoff(BackoffStrategy::Fixed(d))
    }

    /// Probe calls admitted at once while half-open, at least 1. Default: 3.
    pub fn half_open_max_calls(self, v: u32) -> (b: Self)
        ensures
            b@ == (Settings { half_open_max_calls: Some(positive(v)), ..self@ }),
    {
        CircuitBreakerConfigBuilder { half_open_max_calls: Some(at_least_one(v)), ..self }
    }

    /// Successful probes that close the circuit, at least 1. Default: the probe
    /// limit.
    pub fn success_threshold(self, v: u32) -> (b: Self)
        ensures
            b@ == (Settings { success_threshold: Some(positive(v)), ..self@ }),
    {
        CircuitBreakerConfigBuilder { success_threshold: Some(at_least_one(v)), ..self }
    }

    /// Time limit of a call. `None` and a limit of zero set none.
    pub fn call_timeout(self, d: Option<Nanos>) -> (b: Self)
        ensures
            b@ == (Settings {
                call_timeout: if d == Some(0u128) {
                    None
                } else {
                    d
                },
                ..self@
            }),
    {
        let call_timeout = match d {
            Some(limit) => if limit == 0 {
                None
            } else {
                Some(limit)
            },
            None => None,
        };
        CircuitBreakerConfigBuilder { call_timeout, ..self }
    }

    /// The configuration, with defaults for what is not set.
    pub fn build(self) -> (c: CircuitBreakerConfig)
        ensures
            c == self@.config(),
    {
        let half_open_max: u32 = at_least_one(self.half_open_max_calls.unwrap_or(3));
        let window: u32 = at_least_one(self.sliding_window_size.unwrap_or(10));
        let wanted: u32 = at_least_one(self.minimum_calls.unwrap_or(window));
        CircuitBreakerConfig {
            failure_rate_threshold: self.failure_rate_threshold.unwrap_or(
                Binary32 { bits: HALF_32 },
            ).clamp_unit(),
            consecutive_failures: at_least_one(self.consecutive_failures.unwrap_or(5)),
            sliding_window_size: window,
            minimum_calls: if wanted > window {
                window
            } else {
                wanted
            },
            half_open_max_calls: half_open_max,
            success_threshold: at_least_one(self.success_threshold.unwrap_or(half_open_max)),
            backoff: self.backoff.unwrap_or(BackoffStrategy::Fixed(30 * SECOND)),
            call_timeout: self.call_timeout,
        }
    }
}

/// Whether an error counts as a failure of the protected operation.
///
/// `predicate` is the classifier, if one is configured, and `err` is the error
/// as the type that the classifier was written for, or `None` where the error
/// is of another type. Without a classifier, and for an error of another type,
/// every error counts.
pub fn is_breaker_failure<E, P: Fn(&E) -> bool>(predicate: Option<&P>, err: Option<&E>) -> (counts:
    bool)
    requires
        predicate is Some && err is Some ==> call_requires(*(predicate->0), (err->0,)),
    ensures
        predicate is None || err is None ==> counts,
        predicate is Some && err is Some ==> call_ensures(*(predicate->0), (err->0,), counts),
{
    match (predicate, err) {
        (Some(p), Some(e)) => p(e),
        _ => true,
    }
}

}
