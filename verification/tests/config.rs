//! Configuration, presets and backoff.
use std::cell::Cell;
use std::time::Duration;

use breaker::backoff::{next_state, sample, seed, seed_from, with_jitter, Evaluation, Growth, Nanos};
use breaker::binary::{Binary32, Binary64};
use breaker::config::is_breaker_failure;
use breaker::{BackoffStrategy, CircuitBreakerConfig};

fn f32_of(x: f32) -> Binary32 {
    Binary32 { bits: x.to_bits() }
}

fn f64_of(x: f64) -> Binary64 {
    Binary64 { bits: x.to_bits() }
}

fn secs(n: u64) -> Nanos {
    Duration::from_secs(n).as_nanos()
}

fn millis(n: u64) -> Nanos {
    Duration::from_millis(n).as_nanos()
}

fn duration(n: Nanos) -> Duration {
    Duration::new((n / 1_000_000_000) as u64, (n % 1_000_000_000) as u32)
}

/// Evaluates exponential waits in floating point.
fn kernel(e: Evaluation, generator: &Cell<u64>) -> Nanos {
    match e {
        Evaluation::Power(g) => {
            let initial = duration(g.initial).as_secs_f64();
            let max = duration(g.max).as_secs_f64();
            let computed = initial * f64::from_bits(g.factor.bits).powf(g.exponent as f64);
            Duration::from_secs_f64(computed.min(max).max(0.0)).as_nanos()
        }
        Evaluation::Scale { wait, jitter } => {
            generator.set(next_state(generator.get()));
            let rand = f64::from_bits(sample(generator.get()).bits);
            let scale = 1.0 - f64::from_bits(jitter.bits) * rand;
            duration(wait).mul_f64(scale.clamp(0.0, 1.0)).as_nanos()
        }
    }
}

fn grow(e: Evaluation) -> Nanos {
    kernel(e, &Cell::new(0))
}

#[test]
fn builder_clamps_invalid_values() {
    let c = CircuitBreakerConfig::builder()
        .failure_rate_threshold(f32_of(7.5))
        .consecutive_failures(0)
        .sliding_window_size(0)
        .half_open_max_calls(0)
        .success_threshold(0)
        .build();
    assert_eq!(f32::from_bits(c.failure_rate_threshold.bits), 1.0);
    assert_eq!(c.consecutive_failures, 1);
    assert_eq!(c.sliding_window_size, 1);
    assert_eq!(c.half_open_max_calls, 1);
    assert_eq!(c.success_threshold, 1);
}

#[test]
fn negative_rate_clamps_to_zero_disables_rate() {
    let c = CircuitBreakerConfig::builder().failure_rate_threshold(f32_of(-1.0)).build();
    assert_eq!(f32::from_bits(c.failure_rate_threshold.bits), 0.0);
}

#[test]
fn minimum_calls_defaults_to_window_and_is_clamped() {
    let c = CircuitBreakerConfig::builder().build();
    assert_eq!(c.minimum_calls, c.sliding_window_size);

    let c = CircuitBreakerConfig::builder().sliding_window_size(4).minimum_calls(99).build();
    assert_eq!(c.minimum_calls, 4);

    let c = CircuitBreakerConfig::builder().sliding_window_size(4).minimum_calls(0).build();
    assert_eq!(c.minimum_calls, 1);
}

#[test]
fn backoff_fixed_wait() {
    let b = BackoffStrategy::Fixed(millis(250));
    for attempt in 1..=5 {
        assert_eq!(b.wait_for(attempt, &grow), millis(250));
    }
}

#[test]
fn backoff_exponential_sequence() {
    let b = BackoffStrategy::Exponential {
        initial: millis(10),
        max: millis(100),
        factor: f64_of(2.0),
    };
    assert_eq!(b.wait_for(1, &grow), millis(10));
    assert_eq!(b.wait_for(2, &grow), millis(20));
    assert_eq!(b.wait_for(3, &grow), millis(40));
    assert_eq!(b.wait_for(4, &grow), millis(80));
    assert_eq!(b.wait_for(5, &grow), millis(100));
    assert_eq!(b.wait_for(50, &grow), millis(100));
    assert_eq!(b.initial_wait(&grow), millis(10));
}

#[test]
fn backoff_exponential_saturates_on_huge_attempts() {
    let b =
        BackoffStrategy::Exponential { initial: secs(1), max: secs(60), factor: f64_of(2.0) };
    assert_eq!(b.wait_for(u32::MAX, &grow), secs(60));
}

#[test]
fn backoff_zero_jitter_matches_exponential() {
    let base =
        BackoffStrategy::Exponential { initial: millis(10), max: secs(1), factor: f64_of(3.0) };
    let j = BackoffStrategy::ExponentialJitter {
        initial: millis(10),
        max: secs(1),
        factor: f64_of(3.0),
        jitter: f64_of(0.0),
    };
    for attempt in 1..=10 {
        assert_eq!(j.wait_for(attempt, &grow), base.wait_for(attempt, &grow));
    }
}

#[test]
fn backoff_full_jitter_bounds() {
    let generator = Cell::new(0);
    let draw = |e: Evaluation| kernel(e, &generator);
    let initial = millis(10);
    let j = BackoffStrategy::ExponentialJitter {
        initial,
        max: secs(1),
        factor: f64_of(2.0),
        jitter: f64_of(1.0),
    };
    for attempt in 1..=6u32 {
        let computed = BackoffStrategy::Exponential { initial, max: secs(1), factor: f64_of(2.0) }
            .wait_for(attempt, &draw);
        let mut lowest = computed;
        for _ in 0..200 {
            let w = j.wait_for(attempt, &draw);
            assert!(w <= computed, "jittered wait {w} exceeds base {computed}");
            lowest = lowest.min(w);
        }
        assert!(lowest < computed);
    }
}

#[test]
fn predicate_config_classifies_by_type() {
    let permanent = |e: &String| e.contains("permanent");
    assert!(is_breaker_failure(Some(&permanent), Some(&"permanent failure".to_string())));
    assert!(!is_breaker_failure(Some(&permanent), Some(&"transient".to_string())));
}

#[test]
fn predicate_mismatch_defaults_to_failure() {
    let never = |_: &String| false;
    let other: &dyn std::any::Any = &42i32;
    assert!(is_breaker_failure(Some(&never), other.downcast_ref::<String>()));
}

#[test]
fn no_predicate_counts_everything() {
    let none: Option<&fn(&&'static str) -> bool> = None;
    assert!(is_breaker_failure(none, Some(&"whatever")));
}

#[test]
fn call_timeout_zero_is_disabled() {
    let c = CircuitBreakerConfig::builder().call_timeout(Some(0)).build();
    assert_eq!(c.call_timeout, None);
}

#[test]
fn call_timeout_is_kept() {
    let c = CircuitBreakerConfig::builder().call_timeout(Some(millis(20))).build();
    assert_eq!(c.call_timeout, Some(millis(20)));
    let c = CircuitBreakerConfig::builder().call_timeout(Some(1)).call_timeout(None).build();
    assert_eq!(c.call_timeout, None);
}

#[test]
fn config_standard_preset() {
    let c = CircuitBreakerConfig::standard();
    assert_eq!(f32::from_bits(c.failure_rate_threshold.bits), 0.5);
    assert_eq!(c.consecutive_failures, 5);
    assert_eq!(c.sliding_window_size, 10);
    assert_eq!(c.backoff, BackoffStrategy::Fixed(secs(30)));
    assert_eq!(c.half_open_max_calls, 3);
}

#[test]
fn config_fast_fail_preset() {
    let c = CircuitBreakerConfig::fast_fail();
    assert_eq!(f32::from_bits(c.failure_rate_threshold.bits), 1.0);
    assert_eq!(c.consecutive_failures, 1);
    assert_eq!(c.half_open_max_calls, 1);
    assert_eq!(c.backoff, BackoffStrategy::Fixed(secs(10)));
}

#[test]
fn config_lenient_preset() {
    let c = CircuitBreakerConfig::lenient();
    assert_eq!(f32::from_bits(c.failure_rate_threshold.bits), 0.5);
    assert_eq!(c.consecutive_failures, 10);
    assert_eq!(c.sliding_window_size, 20);
    assert_eq!(c.backoff, BackoffStrategy::Fixed(secs(60)));
    assert_eq!(c.half_open_max_calls, 5);
}

#[test]
fn config_standard_preset_values() {
    let c = CircuitBreakerConfig::standard();
    assert_eq!(f32::from_bits(c.failure_rate_threshold.bits), 0.5);
    assert_eq!(c.consecutive_failures, 5);
    assert_eq!(c.sliding_window_size, 10);
    assert_eq!(c.minimum_calls, 10);
    assert_eq!(c.backoff, BackoffStrategy::Fixed(secs(30)));
    assert_eq!(c.half_open_max_calls, 3);
}

#[test]
fn config_fast_fail_preset_values() {
    let c = CircuitBreakerConfig::fast_fail();
    assert_eq!(f32::from_bits(c.failure_rate_threshold.bits), 1.0);
    assert_eq!(c.consecutive_failures, 1);
    assert_eq!(c.sliding_window_size, 5);
    assert_eq!(c.backoff, BackoffStrategy::Fixed(secs(10)));
    assert_eq!(c.half_open_max_calls, 1);
}

#[test]
fn config_lenient_preset_values() {
    let c = CircuitBreakerConfig::lenient();
    assert_eq!(f32::from_bits(c.failure_rate_threshold.bits), 0.5);
    assert_eq!(c.consecutive_failures, 10);
    assert_eq!(c.sliding_window_size, 20);
    assert_eq!(c.minimum_calls, 20);
    assert_eq!(c.backoff, BackoffStrategy::Fixed(secs(60)));
    assert_eq!(c.half_open_max_calls, 5);
}

#[test]
fn config_builder_custom() {
    let backoff =
        BackoffStrategy::Exponential { initial: millis(5), max: secs(5), factor: f64_of(2.0) };
    let c = CircuitBreakerConfig::builder()
        .consecutive_failures(3)
        .failure_rate_threshold(f32_of(0.75))
        .sliding_window_size(7)
        .backoff(backoff)
        .half_open_max_calls(2)
        .build();
    assert_eq!(c.consecutive_failures, 3);
    assert_eq!(f32::from_bits(c.failure_rate_threshold.bits), 0.75);
    assert_eq!(c.sliding_window_size, 7);
    assert_eq!(c.half_open_max_calls, 2);
    assert_eq!(
        c.backoff,
        BackoffStrategy::Exponential { initial: millis(5), max: secs(5), factor: f64_of(2.0) }
    );
}

#[test]
fn builder_config_fields() {
    let c = CircuitBreakerConfig::builder()
        .consecutive_failures(7)
        .failure_rate_threshold(f32_of(0.8))
        .sliding_window_size(15)
        .minimum_calls(5)
        .backoff(BackoffStrategy::Exponential {
            initial: secs(1),
            max: secs(45),
            factor: f64_of(2.0),
        })
        .half_open_max_calls(4)
        .success_threshold(6)
        .build();
    assert_eq!(c.consecutive_failures, 7);
    assert_eq!(f32::from_bits(c.failure_rate_threshold.bits), 0.8);
    assert_eq!(c.sliding_window_size, 15);
    assert_eq!(c.minimum_calls, 5);
    assert_eq!(
        c.backoff,
        BackoffStrategy::Exponential { initial: secs(1), max: secs(45), factor: f64_of(2.0) }
    );
    assert_eq!(c.half_open_max_calls, 4);
    assert_eq!(c.success_threshold, 6);
}

#[test]
fn wait_duration_convenience_maps_to_fixed_backoff() {
    let c = CircuitBreakerConfig::builder().wait_duration(secs(5)).build();
    assert_eq!(c.backoff, BackoffStrategy::Fixed(secs(5)));
}

#[test]
fn backoff_overrides_wait_duration() {
    let c = CircuitBreakerConfig::builder()
        .wait_duration(secs(5))
        .backoff(BackoffStrategy::Fixed(secs(9)))
        .build();
    assert_eq!(c.backoff, BackoffStrategy::Fixed(secs(9)));
}

#[test]
fn wait_duration_overrides_backoff() {
    let c = CircuitBreakerConfig::builder()
        .backoff(BackoffStrategy::Fixed(secs(9)))
        .wait_duration(secs(5))
        .build();
    assert_eq!(c.backoff, BackoffStrategy::Fixed(secs(5)));
}

#[test]
fn success_threshold_config() {
    let c = CircuitBreakerConfig::builder().success_threshold(5).build();
    assert_eq!(c.success_threshold, 5);
}

#[test]
fn success_threshold_defaults_to_half_open_max_calls() {
    let c = CircuitBreakerConfig::builder().half_open_max_calls(7).build();
    assert_eq!(c.success_threshold, 7);
}

#[test]
fn success_threshold_defaults_to_half_open_max() {
    let c = CircuitBreakerConfig::builder().half_open_max_calls(9).build();
    assert_eq!(c.success_threshold, 9);
}

#[test]
fn threshold_that_is_not_a_number_becomes_zero() {
    let c = CircuitBreakerConfig::builder().failure_rate_threshold(f32_of(f32::NAN)).build();
    assert_eq!(f32::from_bits(c.failure_rate_threshold.bits), 0.0);
    let c = CircuitBreakerConfig::builder().failure_rate_threshold(f32_of(-f32::NAN)).build();
    assert_eq!(f32::from_bits(c.failure_rate_threshold.bits), 0.0);
}

#[test]
fn growth_asks_for_the_attempt_before() {
    let b = BackoffStrategy::ExponentialJitter {
        initial: millis(10),
        max: secs(1),
        factor: f64_of(1.001),
        jitter: f64_of(1.5),
    };
    assert_eq!(
        b.growth(1),
        Some(Growth { initial: millis(10), max: secs(1), factor: f64_of(1.001), exponent: 0 })
    );
    assert_eq!(b.growth(0).unwrap().exponent, 0);
    assert_eq!(b.growth(2000).unwrap().exponent, 1999);
    assert_eq!(BackoffStrategy::Fixed(7).growth(3), None);
}

#[test]
fn exponential_wait_keeps_growing_for_small_factors() {
    let b =
        BackoffStrategy::Exponential { initial: secs(1), max: secs(60), factor: f64_of(1.001) };
    let expected = Duration::from_secs_f64(1.001f64.powf(1999.0)).as_nanos();
    assert_eq!(b.wait_for(2000, &grow), expected);
    assert!(b.wait_for(2000, &grow) > b.wait_for(1025, &grow));
}

#[test]
fn generator_steps_and_samples() {
    assert_eq!(next_state(1), 0x4082_2041);
    assert_eq!(next_state(0x4082_2041), 0x1000_4106_0C01_1441);
    assert_eq!(f64::from_bits(sample(1 << 63).bits), 0.5);
    assert_eq!(f64::from_bits(sample(0x7ff).bits), 0.0);
    let top = f64::from_bits(sample(u64::MAX).bits);
    assert_eq!(top, ((1u64 << 53) - 1) as f64 / (1u64 << 53) as f64);
    assert!(top < 1.0);
}

#[test]
fn seeds_are_odd_and_follow_the_clock() {
    assert_eq!(seed_from(Some(6)), 7);
    assert_eq!(seed_from(Some((1u128 << 64) + 4)), 5);
    assert_eq!(seed_from(None), 0x9E37_79B9_7F4A_7C15);
    let first = seed();
    assert_eq!(first & 1, 1);
    let before = std::time::UNIX_EPOCH.elapsed().unwrap().as_nanos() as u64;
    let drawn = seed();
    let after = std::time::UNIX_EPOCH.elapsed().unwrap().as_nanos() as u64;
    assert!(before <= drawn && drawn <= (after | 1));
    assert_ne!(next_state(0), 0);
}

#[test]
fn first_wait_is_the_initial_one() {
    let never = |_: Evaluation| -> Nanos { panic!("no power is needed") };
    let b = |max| BackoffStrategy::Exponential { initial: 7, max, factor: f64_of(3.0) };
    assert_eq!(b(9).wait_for(1, &never), 7);
    assert_eq!(b(9).initial_wait(&never), 7);
    assert_eq!(b(5).wait_for(1, &never), 5);
}

#[test]
fn computed_waits_are_held_to_their_bounds() {
    let at = |factor: f64, computed: Nanos| {
        BackoffStrategy::Exponential { initial: 10, max: 100, factor: f64_of(factor) }
            .wait_for(3, &move |_: Evaluation| computed)
    };
    assert_eq!(at(2.0, 40), 40);
    assert_eq!(at(2.0, 1000), 100);
    assert_eq!(at(2.0, 3), 10);
    assert_eq!(at(1.0, 3), 10);
    assert_eq!(at(0.5, 3), 3);
    assert_eq!(at(f64::NAN, 3), 3);
}

#[test]
fn waits_grow_with_the_attempts() {
    for factor in [1.0, 1.0001, 1.5, 2.0, 1000.0] {
        let b = BackoffStrategy::Exponential {
            initial: millis(3),
            max: secs(86_400),
            factor: f64_of(factor),
        };
        let mut last = 0;
        for attempt in [1, 2, 3, 4, 10, 100, 1000, 5000, u32::MAX] {
            let wait = b.wait_for(attempt, &grow);
            assert!(last <= wait && millis(3) <= wait && wait <= secs(86_400));
            assert_eq!(wait, b.wait_for(attempt, &grow));
            last = wait;
        }
    }
}

#[test]
fn jitter_is_held_to_its_share() {
    let at = |jitter: f64, drawn: Nanos| {
        with_jitter(1000, f64_of(jitter), &move |_: Evaluation| drawn)
    };
    assert_eq!(at(0.5, 700), 700);
    assert_eq!(at(0.5, 2000), 1000);
    assert_eq!(at(0.5, 3), 499);
    assert_eq!(at(1.0, 3), 3);
    assert_eq!(at(7.0, 3), 3);
    assert_eq!(at(0.0, 3), 1000);
    assert_eq!(at(-0.0, 3), 1000);
    assert_eq!(at(f64::NAN, 3), 1000);
    assert_eq!(at(f64::MIN_POSITIVE, 3), 999);
}

#[test]
fn strategies_are_equal_as_numbers() {
    let plain = |factor: f64| BackoffStrategy::Exponential {
        initial: 1,
        max: 2,
        factor: f64_of(factor),
    };
    let jittered = |jitter: f64| BackoffStrategy::ExponentialJitter {
        initial: 1,
        max: 2,
        factor: f64_of(2.0),
        jitter: f64_of(jitter),
    };
    for (a, b) in [(1.0, 1.0), (0.0, -0.0), (1.0, 2.0), (f64::NAN, f64::NAN), (-1.0, 1.0)] {
        assert_eq!(plain(a) == plain(b), a == b);
        assert_eq!(jittered(a) == jittered(b), a == b);
    }
    assert_ne!(plain(2.0), jittered(0.0));
    assert_ne!(BackoffStrategy::Fixed(1), BackoffStrategy::Fixed(2));
    let longer = BackoffStrategy::Exponential { initial: 1, max: 3, factor: f64_of(1.0) };
    assert_ne!(plain(1.0), longer);
}
