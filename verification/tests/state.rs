//! The sliding window and the state machine.
use std::time::Duration;

use breaker::backoff::{Evaluation, Nanos};
use breaker::binary::{Binary32, Binary64};
use breaker::call::Outcome;
use breaker::state::{transition_label, CounterOverflow, StateMachine};
use breaker::window::Window;
use breaker::{BackoffStrategy, CircuitBreakerConfig, State};

fn f32_of(x: f32) -> Binary32 {
    Binary32 { bits: x.to_bits() }
}

fn rate_of(w: &Window) -> f32 {
    f32::from_bits(w.failure_rate().bits)
}

fn millis(n: u64) -> Nanos {
    Duration::from_millis(n).as_nanos()
}

fn grow(e: Evaluation) -> Nanos {
    let seconds = |n: Nanos| n as f64 / 1e9;
    match e {
        Evaluation::Power(g) => {
            let computed =
                seconds(g.initial) * f64::from_bits(g.factor.bits).powf(g.exponent as f64);
            Duration::from_secs_f64(computed.min(seconds(g.max)).max(0.0)).as_nanos()
        }
        Evaluation::Scale { wait, .. } => wait,
    }
}

fn config(window: u32, rate: f32, consecutive: u32) -> CircuitBreakerConfig {
    CircuitBreakerConfig::builder()
        .sliding_window_size(window)
        .failure_rate_threshold(f32_of(rate))
        .consecutive_failures(consecutive)
        .build()
}

#[test]
fn window_evicts_oldest_and_tracks_failures() {
    let mut w = Window::new(3);
    w.record(true);
    w.record(false);
    w.record(true);
    assert_eq!(rate_of(&w), 2.0 / 3.0);
    w.record(false);
    assert_eq!(w.filled(), 3);
    assert_eq!(rate_of(&w), 1.0 / 3.0);
    w.record(true);
    w.record(true);
    assert_eq!(rate_of(&w), 2.0 / 3.0);
}

#[test]
fn window_capacity_is_clamped_to_one() {
    let mut w = Window::new(0);
    w.record(true);
    w.record(false);
    assert_eq!(w.filled(), 1);
    assert_eq!(rate_of(&w), 0.0);
}

#[test]
fn window_clear_resets() {
    let mut w = Window::new(4);
    w.record(true);
    w.record(true);
    w.clear();
    assert_eq!(w.filled(), 0);
    assert_eq!(rate_of(&w), 0.0);
}

#[test]
fn rate_trip_when_threshold_crossed() {
    let config = config(4, 0.5, 100);
    assert_eq!(config.minimum_calls, 4);
    let mut sm = StateMachine::new(&config, &grow);
    assert!(sm.record_failure(&config, 0, &grow).is_none());
    assert!(sm.record_failure(&config, 0, &grow).is_none());
    assert!(sm.record_failure(&config, 0, &grow).is_none());
    assert_eq!(sm.current(0), State::Closed);
    assert!(sm.record_failure(&config, 0, &grow).is_some());
    assert_eq!(sm.current(0), State::Open);
}

#[test]
fn rate_early_warning_with_minimum_calls_one() {
    let config = CircuitBreakerConfig::builder()
        .sliding_window_size(4)
        .minimum_calls(1)
        .failure_rate_threshold(f32_of(0.5))
        .consecutive_failures(100)
        .build();
    let mut sm = StateMachine::new(&config, &grow);
    assert!(sm.record_failure(&config, 0, &grow).is_some());
    assert_eq!(sm.current(0), State::Open);
}

#[test]
fn rate_no_trip_below_threshold() {
    let config = config(4, 0.75, 100);
    let mut sm = StateMachine::new(&config, &grow);
    sm.record_success(&config, 0);
    sm.record_success(&config, 0);
    sm.record_success(&config, 0);
    assert!(sm.record_failure(&config, 0, &grow).is_none());
    assert!(sm.record_failure(&config, 0, &grow).is_none());
    assert!(sm.record_failure(&config, 0, &grow).is_some());
    assert_eq!(sm.current(0), State::Open);
}

#[test]
fn consecutive_trip_with_rate_disabled() {
    let config = config(10, 0.0, 3);
    let mut sm = StateMachine::new(&config, &grow);
    sm.record_failure(&config, 0, &grow);
    sm.record_failure(&config, 0, &grow);
    assert_eq!(sm.current(0), State::Closed);
    sm.record_failure(&config, 0, &grow);
    assert_eq!(sm.current(0), State::Open);
}

#[test]
fn window_clears_on_recovery_to_closed() {
    let config = config(4, 0.5, 100);
    let mut sm = StateMachine::new(&config, &grow);
    sm.record_failure(&config, 0, &grow);
    sm.record_failure(&config, 0, &grow);
    sm.record_failure(&config, 0, &grow);
    sm.record_failure(&config, 0, &grow);
    assert_eq!(sm.current(0), State::Open);
    sm.force_closed(&config);
    assert_eq!(sm.window_filled(), 0);
    sm.record_failure(&config, 0, &grow);
    sm.record_failure(&config, 0, &grow);
    assert_eq!(sm.current(0), State::Closed);
}

#[test]
fn open_attempts_grow_and_backoff_applies() {
    let config = CircuitBreakerConfig::builder()
        .backoff(BackoffStrategy::Exponential {
            initial: millis(10),
            max: millis(1000),
            factor: Binary64 { bits: 2.0f64.to_bits() },
        })
        .build();
    let mut sm = StateMachine::new(&config, &grow);
    sm.force_open(&config, 0, &grow);
    assert_eq!(sm.open_attempts(), 1);
    assert_eq!(sm.wait_duration(), millis(10));
    sm.force_closed(&config);
    sm.force_open(&config, 0, &grow);
    assert_eq!(sm.open_attempts(), 1);
    sm.transition(State::Open, &config, 0, &grow);
    assert_eq!(sm.open_attempts(), 2);
    assert_eq!(sm.wait_duration(), millis(20));
}

#[test]
fn half_open_probe_successes_close() {
    let config = CircuitBreakerConfig::builder()
        .success_threshold(2)
        .half_open_max_calls(2)
        .failure_rate_threshold(f32_of(0.0))
        .consecutive_failures(100)
        .build();
    let mut sm = StateMachine::new(&config, &grow);
    sm.force_open(&config, 0, &grow);
    sm.force_closed(&config);
    sm.transition(State::HalfOpen, &config, 0, &grow);
    assert!(sm.record_success(&config, 0).is_none());
    assert_eq!(sm.current(0), State::HalfOpen);
    assert!(sm.record_success(&config, 0).is_some());
    assert_eq!(sm.current(0), State::Closed);
    assert_eq!(sm.window_filled(), 0);
}

#[test]
fn open_circuit_reads_half_open_when_its_wait_is_over() {
    let config = CircuitBreakerConfig::builder().wait_duration(millis(10)).build();
    let mut sm = StateMachine::new(&config, &grow);
    sm.force_open(&config, millis(5), &grow);
    assert_eq!(sm.current(0), State::Open);
    assert_eq!(sm.current(millis(15) - 1), State::Open);
    assert_eq!(sm.current(millis(15)), State::HalfOpen);
    assert_eq!(sm.current(millis(1000)), State::HalfOpen);
    assert_eq!(sm.transitions(), 1);
}

#[test]
fn open_circuit_counts_outcomes_and_nothing_else() {
    let config = config(4, 0.5, 1);
    let mut sm = StateMachine::new(&config, &grow);
    sm.record_failure(&config, 0, &grow);
    let filled = sm.window_filled();
    assert_eq!(sm.record(Outcome::Success, &config, 1, &grow), vec![]);
    assert_eq!(sm.record(Outcome::Failure, &config, 1, &grow), vec![]);
    assert_eq!(sm.window_filled(), filled);
    assert_eq!(sm.total_successes(), 1);
    assert_eq!(sm.total_failures(), 2);
    assert_eq!(sm.transitions(), 1);
    assert_eq!(sm.current(1), State::Open);
}

#[test]
fn every_transition_is_listed() {
    let config = CircuitBreakerConfig::builder()
        .consecutive_failures(1)
        .failure_rate_threshold(f32_of(0.0))
        .success_threshold(1)
        .wait_duration(10)
        .build();
    let mut sm = StateMachine::new(&config, &grow);
    let opened = sm.record(Outcome::Failure, &config, 0, &grow);
    assert_eq!(opened, vec![(State::Closed, State::Open)]);
    let reopened = sm.record(Outcome::Failure, &config, 10, &grow);
    assert_eq!(
        reopened,
        vec![(State::Open, State::HalfOpen), (State::HalfOpen, State::Open)]
    );
    let closed = sm.record(Outcome::Success, &config, 20, &grow);
    assert_eq!(
        closed,
        vec![(State::Open, State::HalfOpen), (State::HalfOpen, State::Closed)]
    );
    assert_eq!(sm.transitions(), 5);
}

#[test]
fn uncounted_outcome_changes_nothing() {
    let config = CircuitBreakerConfig::builder().wait_duration(10).build();
    let mut sm = StateMachine::new(&config, &grow);
    sm.force_open(&config, 0, &grow);
    let before = sm.metrics(50);
    assert_eq!(sm.record(Outcome::Uncounted, &config, 50, &grow), vec![]);
    assert_eq!(sm.metrics(50), before);
    assert_eq!(sm.transitions(), 1);
}

#[test]
fn largest_streak_threshold_disables_the_streak_rule() {
    let config = config(2, 0.0, u32::MAX);
    let mut sm = StateMachine::new(&config, &grow);
    for _ in 0..1000 {
        assert!(sm.record_failure(&config, 0, &grow).is_none());
    }
    assert_eq!(sm.failure_count(), 1000);
    assert_eq!(sm.current(0), State::Closed);
}

#[test]
fn threshold_that_is_not_a_number_disables_the_rate_rule() {
    let config = config(1, f32::NAN, 100);
    let mut sm = StateMachine::new(&config, &grow);
    assert!(sm.record_failure(&config, 0, &grow).is_none());
    assert_eq!(f32::from_bits(sm.window_failure_rate().bits), 1.0);
}

#[test]
fn window_holds_the_most_recent_outcomes() {
    let outcomes = [true, true, false, true, false, false, true];
    let mut w = Window::new(3);
    for (i, failed) in outcomes.iter().enumerate() {
        w.record(*failed);
        let kept = &outcomes[(i + 1).saturating_sub(3)..=i];
        let failures = kept.iter().filter(|f| **f).count();
        assert_eq!(w.filled() as usize, kept.len());
        assert_eq!(rate_of(&w), failures as f32 / kept.len() as f32);
    }
}

#[test]
fn success_never_raises_the_window_rate() {
    for capacity in 1..6 {
        for pattern in 0..64u32 {
            let mut w = Window::new(capacity);
            for bit in 0..6 {
                w.record(pattern & (1 << bit) != 0);
            }
            let before = rate_of(&w);
            w.record(false);
            assert!(rate_of(&w) <= before);
        }
    }
}

#[test]
fn rate_rule_agrees_with_hardware_division() {
    for filled in 1..40u32 {
        for failures in 0..=filled {
            let mut w = Window::new(filled);
            for i in 0..filled {
                w.record(i < failures);
            }
            let expected = failures as f32 / filled as f32;
            assert_eq!(w.failure_rate().bits, expected.to_bits());
            for threshold in [0.1f32, 0.25, 1.0 / 3.0, 0.5, 0.7, 1.0] {
                assert_eq!(w.failure_rate().at_least(f32_of(threshold)), expected >= threshold);
            }
        }
    }
}

#[test]
fn trip_and_success_end_the_same_in_either_order() {
    let config = CircuitBreakerConfig::standard();
    let mut a = StateMachine::new(&config, &grow);
    a.force_open(&config, 0, &grow);
    a.record_success(&config, 1);
    let mut b = StateMachine::new(&config, &grow);
    b.record_success(&config, 0);
    b.force_open(&config, 1, &grow);
    for m in [a.metrics(2), b.metrics(2)] {
        assert_eq!(m.state, State::Open);
        assert_eq!(m.transitions, 1);
        assert_eq!(m.total_successes, 1);
        assert_eq!(m.total_failures, 0);
    }
}

#[test]
fn counters_have_room() {
    let sm = StateMachine::new(&CircuitBreakerConfig::standard(), &grow);
    for outcome in [Outcome::Success, Outcome::Failure, Outcome::Uncounted] {
        assert!(sm.has_room(outcome, &CircuitBreakerConfig::standard(), 0));
    }
    assert_eq!(sm.failure_rate().bits, 0);
}

#[test]
fn states_have_names_and_levels() {
    assert_eq!(State::Closed.label(), "Closed");
    assert_eq!(State::Open.label(), "Open");
    assert_eq!(State::HalfOpen.label(), "HalfOpen");
    assert_eq!(State::Closed.gauge(), 0);
    assert_eq!(State::Open.gauge(), 1);
    assert_eq!(State::HalfOpen.gauge(), 2);
    assert_eq!(transition_label(State::HalfOpen, State::Closed), "HalfOpen->Closed");
}

#[test]
fn states_answer_what_they_are() {
    assert!(State::Open.is_open() && !State::Closed.is_open() && !State::HalfOpen.is_open());
    assert!(State::Closed.is_closed() && !State::Open.is_closed());
    assert!(!State::HalfOpen.is_closed());
    assert!(State::HalfOpen.is_half_open() && !State::Open.is_half_open());
    assert!(!State::Closed.is_half_open());
}

#[test]
fn forced_transitions_move_and_report() {
    let config = CircuitBreakerConfig::builder().wait_duration(10).build();
    let mut sm = StateMachine::new(&config, &grow);
    assert_eq!(sm.trip(&config, 0, &grow), Ok((State::Closed, State::Open)));
    assert_eq!(sm.current(0), State::Open);
    assert_eq!(sm.trip(&config, 10, &grow), Ok((State::HalfOpen, State::Open)));
    assert_eq!(sm.current(10), State::Open);
    assert_eq!(sm.open_attempts(), 2);
    assert_eq!(sm.reset(&config, 20), Ok((State::HalfOpen, State::Closed)));
    assert_eq!(sm.current(20), State::Closed);
    assert_eq!(sm.open_attempts(), 0);
    assert_ne!(sm.reset(&config, 20), Err(CounterOverflow));
    assert_eq!(sm.transitions(), 4);
}

#[test]
fn recording_lists_what_it_did() {
    let config = config(4, 0.0, 2);
    let mut sm = StateMachine::new(&config, &grow);
    assert_eq!(sm.try_record(Outcome::Failure, &config, 0, &grow), Ok(vec![]));
    assert_eq!(sm.failure_sample().1, 1);
    assert_eq!(f64::from_bits(sm.failure_sample().0.bits), 1.0);
    assert_eq!(sm.try_record(Outcome::Uncounted, &config, 0, &grow), Ok(vec![]));
    assert_eq!(sm.failure_sample().1, 1);
    let opened = sm.try_record(Outcome::Failure, &config, 0, &grow);
    assert_eq!(opened, Ok(vec![(State::Closed, State::Open)]));
    assert_eq!(sm.total_failures(), 2);
}

#[test]
fn window_foresees_one_more_failure() {
    for capacity in 1..6 {
        for pattern in 0..64u32 {
            let mut w = Window::new(capacity);
            for bit in 0..pattern % 8 {
                w.record(pattern & (1 << bit) != 0);
            }
            let (filled, rate) = w.after_failure();
            w.record(true);
            assert_eq!((filled, rate), (w.filled(), w.failure_rate()));
        }
    }
}

#[test]
fn reset_circuit_goes_on_as_a_fresh_one() {
    let config = config(3, 0.6, 3);
    for pattern in 0..256u32 {
        let mut used = StateMachine::new(&config, &grow);
        used.record_failure(&config, 0, &grow);
        used.force_open(&config, 0, &grow);
        used.force_closed(&config);
        let mut fresh = StateMachine::new(&config, &grow);
        for bit in 0..8 {
            let outcome = if pattern & (1 << bit) != 0 {
                Outcome::Failure
            } else {
                Outcome::Success
            };
            assert_eq!(
                used.record(outcome, &config, 1, &grow),
                fresh.record(outcome, &config, 1, &grow)
            );
            assert_eq!(used.current(1), fresh.current(1));
            assert_eq!(used.failure_count(), fresh.failure_count());
            assert!(fresh.failure_count() < 3);
            assert_eq!(used.window_failure_rate(), fresh.window_failure_rate());
        }
    }
}

#[test]
fn waking_happens_once() {
    let config = CircuitBreakerConfig::builder().wait_duration(10).build();
    let mut sm = StateMachine::new(&config, &grow);
    sm.force_open(&config, 0, &grow);
    sm.maybe_transition_to_half_open(9);
    assert_eq!((sm.current(9), sm.transitions()), (State::Open, 1));
    sm.maybe_transition_to_half_open(10);
    assert_eq!((sm.current(0), sm.transitions()), (State::HalfOpen, 2));
    sm.maybe_transition_to_half_open(30);
    assert_eq!((sm.current(0), sm.transitions()), (State::HalfOpen, 2));
}

#[test]
fn streak_counts_failures_in_a_row() {
    let config = config(10, 0.0, 100);
    let mut sm = StateMachine::new(&config, &grow);
    for n in 1..=3 {
        sm.record_failure(&config, 0, &grow);
        assert_eq!(sm.failure_count(), n);
    }
    sm.record_success(&config, 0);
    assert_eq!(sm.failure_count(), 0);
    sm.record_failure(&config, 0, &grow);
    sm.force_open(&config, 0, &grow);
    sm.record_failure(&config, 0, &grow);
    assert_eq!(sm.failure_count(), 0);
}
