//! What each operation does, written out: over clock readings, counts and bit
//! patterns, for every input.
use vstd::arithmetic::power2::*;
use vstd::prelude::*;
use vstd::std_specs::cmp::PartialEqSpec;
use vstd::std_specs::convert::FromSpec;

use crate::backoff::{BackoffStrategy, Evaluation, Growth, Nanos};
use crate::binary::{Binary32, Binary64};
use crate::breaker::{CircuitBreaker, CircuitBreakerBuilder, Refusal, Settled};
use crate::call::{CallEnd, Outcome};
use crate::config::{CircuitBreakerConfig, CircuitBreakerConfigBuilder};
use crate::error::CircuitBreakerError;
use crate::laws::Op;
use crate::metrics::CircuitMetrics;
use crate::permit::HalfOpenPermit;
use crate::rounding;
use crate::state::{CounterOverflow, Machine, Recorded, State, StateMachine};
use crate::window;

verus! {

/// The machine is open, and the clock has reached the end of its wait.
pub open spec fn wait_is_over(m: Machine, now: nat) -> bool {
    &&& m.current == State::Open
    &&& m.open_since is Some
    &&& m.wait == 0 || now >= m.open_since->0 + m.wait
}

/// An open circuit reads as half-open exactly from the time at which its wait, added
/// to the time it opened, is reached; a wait of zero is over at once. Until then it
/// reads as open.
pub proof fn law_open_until_its_time(m: Machine, since: nat, now: nat)
    requires
        m.current == State::Open,
        m.open_since == Some(since),
    ensures
        m.wait > 0 ==> (m.effective(now) == State::HalfOpen <==> now >= since + m.wait),
        m.wait > 0 ==> (m.effective(now) == State::Open <==> now < since + m.wait),
        m.wait == 0 ==> m.effective(now) == State::HalfOpen,
        m.effective((since + m.wait) as nat) == State::HalfOpen,
{
}

/// What callers see as the current state, by the clock.
pub proof fn law_current_follows_the_clock(sm: StateMachine, now: Nanos, state: State)
    requires
        call_ensures(StateMachine::current, (&sm, now), state),
    ensures
        state == if wait_is_over(sm@, now as nat) {
            State::HalfOpen
        } else {
            sm@.current
        },
{
}

/// An open circuit whose wait is over becomes half-open with clean counts; any other
/// stays as it is.
pub proof fn law_waking_written_out(m: Machine, now: nat)
    ensures
        m.woken(now) == if wait_is_over(m, now) {
            Machine {
                current: State::HalfOpen,
                failure_count: 0,
                success_count: 0,
                transitions: m.transitions + 1,
                open_since: None,
                ..m
            }
        } else {
            m
        },
{
}

/// A new machine is closed, has counted nothing and has room for as many outcomes as
/// its configuration says, at least one.
pub proof fn law_new_machine_is_fresh<G: Fn(Evaluation) -> Nanos>(
    config: CircuitBreakerConfig,
    grow: G,
    sm: StateMachine,
)
    requires
        call_ensures(StateMachine::new::<G>, (&config, &grow), sm),
    ensures
        sm@.current == State::Closed,
        sm@.failure_count == 0,
        sm@.success_count == 0,
        sm@.total_successes == 0,
        sm@.total_failures == 0,
        sm@.transitions == 0,
        sm@.open_since is None,
        sm@.attempts == 0,
        sm@.window.len() == 0,
        config.sliding_window_size >= 1 ==> sm@.capacity == config.sliding_window_size,
        config.sliding_window_size == 0 ==> sm@.capacity == 1,
{
}

/// A window of room `capacity` with one more outcome behind the others; the first one
/// leaves where there was no room.
pub open spec fn appended(capacity: nat, outcomes: Seq<bool>, failed: bool) -> Seq<bool> {
    if outcomes.len() < capacity {
        outcomes + seq![failed]
    } else {
        outcomes.subrange(1, outcomes.len() as int) + seq![failed]
    }
}

proof fn lemma_slide_appends(capacity: nat, outcomes: Seq<bool>, failed: bool)
    requires
        capacity >= 1,
    ensures
        window::slide(capacity, outcomes, failed) == appended(capacity, outcomes, failed),
{
    assert(window::slide(capacity, outcomes, failed) =~= appended(capacity, outcomes, failed));
}

/// Until a circuit makes its first transition, its window holds exactly the last
/// outcomes recorded, as many as the configured size, in order.
pub proof fn law_window_is_the_last_outcomes(
    config: CircuitBreakerConfig,
    wait: Nanos,
    ops: Seq<Op>,
)
    requires
        Machine::fresh(config, wait).run(config, ops).transitions == 0,
    ensures
        ({
            let held = Machine::fresh(config, wait).run(config, ops).window;
            let size = if config.sliding_window_size == 0 {
                1nat
            } else {
                config.sliding_window_size as nat
            };
            &&& held.len() == if ops.len() < size {
                ops.len()
            } else {
                size
            }
            &&& forall|i: int|
                0 <= i < held.len() ==> #[trigger] held[i] == (ops[ops.len() - held.len() + i]
                    is Failure)
        }),
{
    let failed = ops.map_values(|op: Op| op is Failure);
    crate::laws::law_closed_window_holds_recent_outcomes(config, wait, ops);
    crate::laws::law_window_holds_the_most_recent(Machine::fresh(config, wait).capacity, failed);
}

/// A success, written out for each state of the circuit.
pub proof fn law_success_written_out(m: Machine, config: CircuitBreakerConfig, now: nat)
    requires
        m.capacity >= 1,
    ensures
        m.with_success(config, now) == match m.current {
            State::Closed => Machine {
                total_successes: m.total_successes + 1,
                failure_count: 0,
                window: appended(m.capacity, m.window, false),
                ..m
            },
            State::HalfOpen => if m.success_count + 1 >= config.success_threshold {
                Machine {
                    current: State::Closed,
                    total_successes: m.total_successes + 1,
                    transitions: m.transitions + 1,
                    failure_count: 0,
                    success_count: 0,
                    attempts: 0,
                    open_since: None,
                    window: Seq::empty(),
                    ..m
                }
            } else {
                Machine {
                    total_successes: m.total_successes + 1,
                    success_count: m.success_count + 1,
                    ..m
                }
            },
            State::Open => if !wait_is_over(m, now) {
                Machine { total_successes: m.total_successes + 1, ..m }
            } else if config.success_threshold <= 1 {
                Machine {
                    current: State::Closed,
                    total_successes: m.total_successes + 1,
                    transitions: m.transitions + 2,
                    failure_count: 0,
                    success_count: 0,
                    attempts: 0,
                    open_since: None,
                    window: Seq::empty(),
                    ..m
                }
            } else {
                Machine {
                    current: State::HalfOpen,
                    total_successes: m.total_successes + 1,
                    transitions: m.transitions + 1,
                    failure_count: 0,
                    success_count: 1,
                    open_since: None,
                    ..m
                }
            },
        },
{
    lemma_slide_appends(m.capacity, m.window, false);
}

/// One more failure trips a closed circuit: the streak reaches its threshold, unless
/// that is `u32::MAX`, or the rate over the window reaches its threshold, a number
/// above zero, with enough outcomes in the window.
pub open spec fn trips(m: Machine, config: CircuitBreakerConfig) -> bool {
    let held = appended(m.capacity, m.window, true);
    ||| config.consecutive_failures != u32::MAX && m.failure_count + 1
        >= config.consecutive_failures
    ||| {
        &&& 0 < config.failure_rate_threshold.bits <= 0x7f80_0000
        &&& held.len() >= config.minimum_calls
        &&& window::rate_of(held).bits >= config.failure_rate_threshold.bits
    }
}

/// A machine that opened at `now` for `wait`, for one attempt more.
pub open spec fn opened(m: Machine, now: nat, wait: Nanos) -> Machine {
    Machine {
        current: State::Open,
        failure_count: 0,
        success_count: 0,
        attempts: if m.attempts >= u32::MAX {
            u32::MAX as nat
        } else {
            m.attempts + 1
        },
        open_since: Some(now),
        wait: wait,
        ..m
    }
}

/// A failure, written out for each state of the circuit.
pub proof fn law_failure_written_out(
    m: Machine,
    config: CircuitBreakerConfig,
    now: nat,
    wait: Nanos,
)
    requires
        m.capacity >= 1,
        m.failure_count <= u32::MAX,
    ensures
        m.with_failure(config, now, wait) == match m.current {
            State::Closed => if trips(m, config) {
                opened(
                    Machine {
                        total_failures: m.total_failures + 1,
                        transitions: m.transitions + 1,
                        window: appended(m.capacity, m.window, true),
                        ..m
                    },
                    now,
                    wait,
                )
            } else {
                Machine {
                    total_failures: m.total_failures + 1,
                    failure_count: if m.failure_count >= u32::MAX {
                        u32::MAX as nat
                    } else {
                        m.failure_count + 1
                    },
                    window: appended(m.capacity, m.window, true),
                    ..m
                }
            },
            State::HalfOpen => opened(
                Machine {
                    total_failures: m.total_failures + 1,
                    transitions: m.transitions + 1,
                    ..m
                },
                now,
                wait,
            ),
            State::Open => if wait_is_over(m, now) {
                opened(
                    Machine {
                        total_failures: m.total_failures + 1,
                        transitions: m.transitions + 2,
                        ..m
                    },
                    now,
                    wait,
                )
            } else {
                Machine { total_failures: m.total_failures + 1, ..m }
            },
        },
        m.failure_trips(config, now) <==> match m.current {
            State::Closed => trips(m, config),
            State::HalfOpen => true,
            State::Open => wait_is_over(m, now),
        },
{
    lemma_slide_appends(m.capacity, m.window, true);
    crate::laws::law_rate_is_a_fraction(appended(m.capacity, m.window, true));
}

/// Recording one outcome changes the circuit once: a success, a failure or nothing. A
/// closed circuit that a failure does not trip stays closed, and so does one that a
/// success or an uncounted error meets.
pub proof fn law_one_outcome_is_recorded_once(
    m: Machine,
    config: CircuitBreakerConfig,
    outcome: Outcome,
    now: nat,
    wait: Nanos,
)
    requires
        m.capacity >= 1,
        m.failure_count <= u32::MAX,
    ensures
        ({
            let r = m.with_outcome(outcome, config, now, wait);
            &&& r.total_successes + r.total_failures == m.total_successes + m.total_failures + (
            if outcome == Outcome::Uncounted {
                0nat
            } else {
                1
            })
            &&& outcome == Outcome::Success <==> r.total_successes != m.total_successes
            &&& outcome == Outcome::Failure <==> r.total_failures != m.total_failures
            &&& outcome == Outcome::Uncounted ==> r == m
            &&& m.current == State::Closed && (outcome != Outcome::Failure || !trips(m, config))
                ==> r.current == State::Closed && r.transitions == m.transitions
        }),
{
    law_success_written_out(m, config, now);
    law_failure_written_out(m, config, now, wait);
}

/// The transitions that recording an outcome lists, written out.
pub proof fn law_moves_written_out(
    m: Machine,
    config: CircuitBreakerConfig,
    outcome: Outcome,
    now: nat,
)
    requires
        m.capacity >= 1,
        m.failure_count <= u32::MAX,
    ensures
        m.moves(outcome, config, now) == match (outcome, m.current) {
            (Outcome::Uncounted, _) => Seq::<(State, State)>::empty(),
            (Outcome::Success, State::Closed) => Seq::empty(),
            (Outcome::Success, State::HalfOpen) => if m.success_count + 1
                >= config.success_threshold {
                seq![(State::HalfOpen, State::Closed)]
            } else {
                Seq::empty()
            },
            (Outcome::Success, State::Open) => if !wait_is_over(m, now) {
                Seq::empty()
            } else if config.success_threshold <= 1 {
                seq![(State::Open, State::HalfOpen), (State::HalfOpen, State::Closed)]
            } else {
                seq![(State::Open, State::HalfOpen)]
            },
            (Outcome::Failure, State::Closed) => if trips(m, config) {
                seq![(State::Closed, State::Open)]
            } else {
                Seq::empty()
            },
            (Outcome::Failure, State::HalfOpen) => seq![(State::HalfOpen, State::Open)],
            (Outcome::Failure, State::Open) => if wait_is_over(m, now) {
                seq![(State::Open, State::HalfOpen), (State::HalfOpen, State::Open)]
            } else {
                Seq::empty()
            },
        },
{
    law_failure_written_out(m, config, now, 0);
    law_waking_written_out(m, now);
    assert(Seq::<(State, State)>::empty().push((State::HalfOpen, State::Closed)) =~= seq![
        (State::HalfOpen, State::Closed),
    ]);
    assert(Seq::<(State, State)>::empty().push((State::Closed, State::Open)) =~= seq![
        (State::Closed, State::Open),
    ]);
    assert(Seq::<(State, State)>::empty().push((State::HalfOpen, State::Open)) =~= seq![
        (State::HalfOpen, State::Open),
    ]);
    assert(seq![(State::Open, State::HalfOpen)].push((State::HalfOpen, State::Closed)) =~= seq![
        (State::Open, State::HalfOpen),
        (State::HalfOpen, State::Closed),
    ]);
    assert(seq![(State::Open, State::HalfOpen)].push((State::HalfOpen, State::Open)) =~= seq![
        (State::Open, State::HalfOpen),
        (State::HalfOpen, State::Open),
    ]);
}

/// An outcome is refused only where the counter it adds to is full, or where the
/// transitions it makes would run past `u64::MAX`.
pub proof fn law_room_written_out(
    m: Machine,
    config: CircuitBreakerConfig,
    outcome: Outcome,
    now: nat,
)
    requires
        m.capacity >= 1,
        m.total_successes <= u64::MAX,
        m.total_failures <= u64::MAX,
        m.transitions <= u64::MAX,
    ensures
        m.has_room(outcome, config, now) <==> {
            &&& outcome == Outcome::Success ==> m.total_successes + 1 <= 0xffff_ffff_ffff_ffff
            &&& outcome == Outcome::Failure ==> m.total_failures + 1 <= 0xffff_ffff_ffff_ffff
            &&& m.transitions + m.moves(outcome, config, now).len() <= 0xffff_ffff_ffff_ffff
        },
{
    crate::laws::law_every_transition_is_reported_once(m, config, outcome, now, 0);
}

/// Entering a state, written out.
pub proof fn law_entering_written_out(m: Machine, now: nat, wait: Nanos)
    ensures
        m.entered(State::Open, now, wait) == opened(
            Machine { transitions: m.transitions + 1, ..m },
            now,
            wait,
        ),
        m.entered(State::Closed, now, wait) == (Machine {
            current: State::Closed,
            transitions: m.transitions + 1,
            failure_count: 0,
            success_count: 0,
            attempts: 0,
            open_since: None,
            window: Seq::empty(),
            ..m
        }),
        m.entered(State::HalfOpen, now, wait) == (Machine {
            current: State::HalfOpen,
            transitions: m.transitions + 1,
            failure_count: 0,
            success_count: 0,
            open_since: None,
            ..m
        }),
        m.next_attempt() == if m.attempts >= u32::MAX {
            u32::MAX as nat
        } else {
            m.attempts + 1
        },
{
}

/// A forced transition is reported from the state that callers saw, and refused only
/// with the count of transitions full.
pub proof fn law_forced_written_out(m: Machine, next: State, now: nat)
    requires
        m.transitions <= u64::MAX,
    ensures
        m.forced(next, now) == if m.transitions == 0xffff_ffff_ffff_ffff {
            Err(CounterOverflow)
        } else if wait_is_over(m, now) {
            Ok((State::HalfOpen, next))
        } else {
            Ok((m.current, next))
        },
{
}

/// A snapshot shows the machine's own counters, rates and state.
pub proof fn law_metrics_show_the_machine(sm: StateMachine, now: Nanos, r: CircuitMetrics)
    requires
        call_ensures(StateMachine::metrics, (&sm, now), r),
    ensures
        r.total_successes == sm@.total_successes,
        r.total_failures == sm@.total_failures,
        r.transitions == sm@.transitions,
        r.state == if wait_is_over(sm@, now as nat) {
            State::HalfOpen
        } else {
            sm@.current
        },
        r.window_failure_rate == window::rate_of(sm@.window),
        r.failure_rate == sm@.lifetime_rate(),
{
}

/// The count of failures is the number of `true`s.
pub proof fn law_failures_are_counted(outcomes: Seq<bool>)
    ensures
        window::failures_in(outcomes) == outcomes.to_multiset().count(true),
    decreases outcomes.len(),
{
    outcomes.to_multiset_ensures();
    if outcomes.len() > 0 {
        let rest = outcomes.drop_last();
        law_failures_are_counted(rest);
        rest.to_multiset_ensures();
        assert(rest.push(outcomes.last()) =~= outcomes);
        assert(outcomes.to_multiset() =~= rest.to_multiset().insert(outcomes.last()));
    } else {
        assert(outcomes.to_multiset().len() == 0);
    }
}

/// The distance between two numbers.
pub open spec fn apart(a: nat, b: nat) -> nat {
    if a >= b {
        (a - b) as nat
    } else {
        (b - a) as nat
    }
}

/// Pattern `bits` of the format with `p` significant bits and smallest number `2^-s`
/// stands for a number that no other is nearer to `n / d` than; of two that are as
/// near, for the even one.
pub open spec fn closest(p: nat, s: nat, n: nat, d: nat, bits: nat) -> bool {
    forall|other: nat|
        #![trigger rounding::scaled(p, other)]
        {
            let here = apart(rounding::scaled(p, bits) * d, n * pow2(s));
            let there = apart(rounding::scaled(p, other) * d, n * pow2(s));
            here < there || here == there && (other == bits || bits % 2 == 0)
        }
}

proof fn lemma_nearest_is_closest(p: nat, s: nat, n: nat, d: nat)
    requires
        p >= 2,
        s + 1 >= p,
        d > 0,
    ensures
        closest(p, s, n, d, rounding::nearest(p, s, n, d)),
{
    rounding::lemma_nearest_exists(p, s, n, d);
    let bits = rounding::nearest(p, s, n, d);
    assert forall|other: nat| #![trigger rounding::scaled(p, other)] ({
        let here = apart(rounding::scaled(p, bits) * d, n * pow2(s));
        let there = apart(rounding::scaled(p, other) * d, n * pow2(s));
        here < there || here == there && (other == bits || bits % 2 == 0)
    }) by {
        assert(rounding::miss(p, s, n, d, bits) <= rounding::miss(p, s, n, d, other));
    }
}

/// How patterns stand for numbers: zero for zero, one step up for the smallest
/// numbers, twice the number for the exponent one higher, and even steps in between.
pub proof fn law_patterns_stand_for_numbers(p: nat, bits: nat)
    requires
        p >= 2,
    ensures
        bits >= pow2((p - 1) as nat) ==> rounding::scaled(p, bits + pow2((p - 1) as nat)) == 2
            * rounding::scaled(p, bits),
        bits < 2 * pow2((p - 1) as nat) ==> rounding::scaled(p, bits) == bits,
{
    let unit = pow2((p - 1) as nat);
    lemma_pow2_pos((p - 1) as nat);
    lemma2_to64();
    if bits >= unit {
        let high = (bits / unit) as int;
        let low = (bits % unit) as int;
        vstd::arithmetic::div_mod::lemma_fundamental_div_mod(bits as int, unit as int);
        assert(high >= 1) by (nonlinear_arith)
            requires
                bits >= unit,
                bits == unit * high + low,
                0 <= low < unit,
        ;
        assert(bits + unit == (high + 1) * unit + low) by (nonlinear_arith)
            requires
                bits == unit * high + low,
        ;
        vstd::arithmetic::div_mod::lemma_fundamental_div_mod_converse(
            (bits + unit) as int,
            unit as int,
            high + 1,
            low,
        );
        lemma_pow2_unfold(high as nat);
        assert((unit + low) * pow2(high as nat) == 2 * ((unit + low) * pow2((high - 1) as nat)))
            by (nonlinear_arith)
            requires
                pow2(high as nat) == 2 * pow2((high - 1) as nat),
        ;
        if bits < 2 * unit {
            assert(high == 1) by (nonlinear_arith)
                requires
                    bits == unit * high + low,
                    0 <= low,
                    bits < 2 * unit,
                    high >= 1,
                    unit > 0,
            ;
            assert((unit + low) * pow2(0) == unit + low) by (nonlinear_arith)
                requires
                    pow2(0) == 1,
            ;
        }
    }
}

/// The failure fraction of a window is the number of the format closest to failures
/// over outcomes; beyond 2^24 outcomes both counts are first brought to the closest
/// number of the format. An empty window has fraction zero.
pub proof fn law_window_rate_is_closest(outcomes: Seq<bool>)
    ensures
        ({
            let failed = outcomes.to_multiset().count(true);
            let bits = window::rate_of(outcomes).bits as nat;
            &&& outcomes.len() == 0 ==> bits == 0
            &&& 0 < outcomes.len() <= 0x100_0000 ==> closest(24, 149, failed, outcomes.len(), bits)
            &&& outcomes.len() > 0 ==> exists|a: nat, b: nat|
                {
                    &&& #[trigger] closest(24, 149, failed, 1, a)
                    &&& #[trigger] closest(24, 149, outcomes.len(), 1, b)
                    &&& closest(24, 149, rounding::scaled(24, a), rounding::scaled(24, b), bits)
                }
        }),
{
    law_failures_are_counted(outcomes);
    if outcomes.len() > 0 {
        window::lemma_failures_at_most_len(outcomes);
        crate::laws::law_rate_is_a_fraction(outcomes);
        lemma_quotient_is_closest(24, 149, window::failures_in(outcomes), outcomes.len());
        lemma2_to64();
    }
}

proof fn lemma_quotient_is_closest(p: nat, s: nat, n: nat, d: nat)
    requires
        p >= 2,
        s + 1 >= p,
        d > 0,
    ensures
        n <= pow2(p) && d <= pow2(p) ==> closest(p, s, n, d, rounding::quotient(p, s, n, d)),
        exists|a: nat, b: nat|
            {
                &&& #[trigger] closest(p, s, n, 1, a)
                &&& #[trigger] closest(p, s, d, 1, b)
                &&& closest(
                    p,
                    s,
                    rounding::scaled(p, a),
                    rounding::scaled(p, b),
                    rounding::quotient(p, s, n, d),
                )
            },
{
    let a = rounding::nearest(p, s, n, 1);
    let b = rounding::nearest(p, s, d, 1);
    lemma_nearest_is_closest(p, s, n, 1);
    lemma_nearest_is_closest(p, s, d, 1);
    rounding::lemma_convert_positive(p, s, d);
    lemma_nearest_is_closest(p, s, rounding::scaled(p, a), rounding::scaled(p, b));
    assert(closest(p, s, n, 1, a) && closest(p, s, d, 1, b));
    if n <= pow2(p) && d <= pow2(p) {
        rounding::lemma_quotient_rounds_once(p, s, n, d);
        lemma_nearest_is_closest(p, s, n, d);
    }
}

/// The lifetime failure rate is the number of the format closest to failures over
/// outcomes; beyond 2^53 outcomes both counts are first brought to the closest number
/// of the format. With nothing recorded it is zero.
pub proof fn law_lifetime_rate_is_closest(m: Machine)
    ensures
        ({
            let total = m.total_successes + m.total_failures;
            let bits = m.lifetime_rate().bits as nat;
            &&& total == 0 ==> bits == 0
            &&& 0 < total <= 0x20_0000_0000_0000 ==> closest(53, 1074, m.total_failures, total, bits)
            &&& total > 0 ==> exists|a: nat, b: nat|
                {
                    &&& #[trigger] closest(53, 1074, m.total_failures, 1, a)
                    &&& #[trigger] closest(53, 1074, total, 1, b)
                    &&& closest(53, 1074, rounding::scaled(53, a), rounding::scaled(53, b), bits)
                }
        }),
{
    let total = m.total_successes + m.total_failures;
    if total > 0 {
        crate::binary::lemma_one_64();
        rounding::lemma_quotient_at_most_one(53, 1074, m.total_failures, total);
        lemma_quotient_is_closest(53, 1074, m.total_failures, total);
        lemma2_to64_rest();
    }
}

/// The pattern is a number: finite or infinite, of either sign.
pub open spec fn is_number_32(x: Binary32) -> bool {
    x.bits <= 0x7f80_0000 || 0x8000_0000 <= x.bits <= 0xff80_0000
}

/// `a >= b`, by the bit patterns: those below `0x8000_0000` are the numbers from zero
/// up, in order, and the others those from zero down.
pub proof fn law_comparison_by_patterns(a: Binary32, b: Binary32, r: bool)
    requires
        call_ensures(Binary32::at_least, (a, b), r),
    ensures
        r == (is_number_32(a) && is_number_32(b) && if a.bits < 0x8000_0000 {
            b.bits >= 0x8000_0000 || a.bits >= b.bits
        } else if b.bits < 0x8000_0000 {
            a.bits == 0x8000_0000 && b.bits == 0
        } else {
            a.bits <= b.bits
        }),
{
}

/// `a > 0`, by the bit pattern.
pub proof fn law_positive_by_patterns(a: Binary32, r: bool)
    requires
        call_ensures(Binary32::is_positive, (a,), r),
    ensures
        r <==> 0 < a.bits <= 0x7f80_0000,
{
}

/// A threshold moved into the interval from zero to one.
pub open spec fn unit_32(x: Binary32) -> Binary32 {
    if x.bits <= 0x3f80_0000 || x.bits == 0x8000_0000 {
        x
    } else if x.bits <= 0x7f80_0000 {
        Binary32 { bits: 0x3f80_0000 }
    } else {
        Binary32 { bits: 0 }
    }
}

/// A jitter moved into the interval from zero to one.
pub open spec fn unit_64(x: Binary64) -> Binary64 {
    if x.bits <= 0x3ff0_0000_0000_0000 || x.bits == 0x8000_0000_0000_0000 {
        x
    } else if x.bits <= 0x7ff0_0000_0000_0000 {
        Binary64 { bits: 0x3ff0_0000_0000_0000 }
    } else {
        Binary64 { bits: 0 }
    }
}

/// Numbers from zero to one stay, larger ones become one, smaller ones and what is no
/// number become zero.
pub proof fn law_clamping_by_patterns(a: Binary32, ra: Binary32, b: Binary64, rb: Binary64)
    requires
        call_ensures(Binary32::clamp_unit, (a,), ra),
        call_ensures(Binary64::clamp_unit, (b,), rb),
    ensures
        ra == unit_32(a),
        rb == unit_64(b),
{
}

/// The patterns stand for equal numbers: they are the same or both zero, and no NaN.
pub open spec fn same_number(a: Binary64, b: Binary64) -> bool {
    &&& a.bits <= 0x7ff0_0000_0000_0000 || 0x8000_0000_0000_0000 <= a.bits
        <= 0xfff0_0000_0000_0000
    &&& a.bits == b.bits || {
        &&& a.bits == 0 || a.bits == 0x8000_0000_0000_0000
        &&& b.bits == 0 || b.bits == 0x8000_0000_0000_0000
    }
}

/// Equality of numbers, by the bit patterns.
pub proof fn law_equality_by_patterns(a: Binary64, b: Binary64, r: bool)
    requires
        call_ensures(Binary64::equals, (a, b), r),
    ensures
        r <==> same_number(a, b),
{
}

/// Strategies are equal where they are of one kind and equal setting by setting, with
/// factors and jitters equal as numbers. So one that differs in any setting differs,
/// and the order in which two are compared does not matter.
pub proof fn law_strategies_compare_by_settings(a: BackoffStrategy, b: BackoffStrategy)
    ensures
        a.eq_spec(&b) <==> match a {
            BackoffStrategy::Fixed(d) => b is Fixed && b->Fixed_0 == d,
            BackoffStrategy::Exponential { initial, max, factor } => {
                &&& b is Exponential
                &&& b->Exponential_initial == initial
                &&& b->Exponential_max == max
                &&& same_number(b->Exponential_factor, factor)
            },
            BackoffStrategy::ExponentialJitter { initial, max, factor, jitter } => {
                &&& b is ExponentialJitter
                &&& b->ExponentialJitter_initial == initial
                &&& b->ExponentialJitter_max == max
                &&& same_number(b->ExponentialJitter_factor, factor)
                &&& same_number(b->jitter, jitter)
            },
        },
        a.eq_spec(&b) == b.eq_spec(&a),
{
}

/// An error of the operation becomes a failure with that error in it.
pub proof fn law_errors_are_kept<E>(e: E)
    ensures
        <CircuitBreakerError<E> as FromSpec<E>>::from_spec(e) == CircuitBreakerError::Failure(e),
{
}

/// A share is the product, rounded down.
pub proof fn law_share_is_the_product(x: Binary64, whole: u128, r: u128)
    requires
        x.bits <= 0x3ff0_0000_0000_0000,
        call_ensures(Binary64::share_of, (x, whole), r),
    ensures
        r * pow2(1074) <= whole * rounding::scaled(53, x.bits as nat) < (r + 1) * pow2(1074),
{
    let product = (whole * rounding::scaled(53, x.bits as nat)) as int;
    let one = pow2(1074) as int;
    lemma_pow2_pos(1074);
    vstd::arithmetic::div_mod::lemma_fundamental_div_mod(product, one);
    vstd::arithmetic::div_mod::lemma_mod_bound(product, one);
    assert(r * one <= product < (r + 1) * one) by (nonlinear_arith)
        requires
            product == one * r + product % one,
            0 <= product % one < one,
    ;
}

/// `wait` is the exponential wait of an attempt: `initial` or `max`, whichever is
/// shorter, at the first one, and afterwards what `grow` makes of `initial`, `max`,
/// `factor` and one less than the attempt, but not more than `max` and, for a factor
/// of one or more, not less than the first wait.
pub open spec fn grown<G: Fn(Evaluation) -> Nanos>(
    grow: G,
    initial: Nanos,
    max: Nanos,
    factor: Binary64,
    attempt: u32,
    wait: Nanos,
) -> bool {
    if attempt <= 1 {
        (wait == initial || wait == max) && wait <= initial && wait <= max
    } else {
        exists|computed: Nanos|
            {
                &&& #[trigger] call_ensures(
                    grow,
                    (Evaluation::Power(
                        Growth { initial, max, factor, exponent: (attempt - 1) as u32 },
                    ),),
                    computed,
                )
                &&& wait == if computed > max {
                    max
                } else if 0x3ff0_0000_0000_0000 <= factor.bits <= 0x7ff0_0000_0000_0000
                    && computed < initial {
                    if initial <= max {
                        initial
                    } else {
                        max
                    }
                } else {
                    computed
                }
            }
    }
}

/// `wait` is what a jitter makes of `base`: `base` itself where the jitter is zero, and
/// else what `grow` draws, but not more than `base` and less by no more than its share
/// and one nanosecond.
pub open spec fn scattered<G: Fn(Evaluation) -> Nanos>(
    grow: G,
    base: Nanos,
    jitter: Binary64,
    wait: Nanos,
) -> bool {
    let unit = unit_64(jitter);
    let share = (base * rounding::scaled(53, unit.bits as nat)) / (pow2(1074) as int);
    if unit.bits == 0 || unit.bits == 0x8000_0000_0000_0000 {
        wait == base
    } else {
        exists|drawn: Nanos|
            {
                &&& #[trigger] call_ensures(
                    grow,
                    (Evaluation::Scale { wait: base, jitter: unit },),
                    drawn,
                )
                &&& wait == if drawn > base {
                    base as int
                } else if drawn < base - share - 1 {
                    base - share - 1
                } else {
                    drawn as int
                }
            }
    }
}

/// The wait of each attempt, written out for each strategy.
pub proof fn law_wait_written_out<G: Fn(Evaluation) -> Nanos>(
    strategy: BackoffStrategy,
    grow: G,
    attempt: u32,
    wait: Nanos,
)
    requires
        strategy.waits(grow, attempt as nat, wait),
    ensures
        match strategy {
            BackoffStrategy::Fixed(d) => wait == d,
            BackoffStrategy::Exponential { initial, max, factor } => grown(
                grow,
                initial,
                max,
                factor,
                attempt,
                wait,
            ),
            BackoffStrategy::ExponentialJitter { initial, max, factor, jitter } => exists|
                base: Nanos,
            | #[trigger]
                grown(grow, initial, max, factor, attempt, base) && scattered(
                    grow,
                    base,
                    jitter,
                    wait,
                ),
        },
{
    match strategy {
        BackoffStrategy::Fixed(_) => {},
        BackoffStrategy::Exponential { initial, max, factor } => {
            lemma_gives_is_grown(grow, initial, max, factor, attempt, wait);
        },
        BackoffStrategy::ExponentialJitter { initial, max, factor, jitter } => {
            let base = choose|base: Nanos| #[trigger]
                strategy.growth_spec(attempt as nat)->0.gives(grow, base)
                    && crate::backoff::jitters(grow, base, jitter.clamp_unit_spec(), wait);
            lemma_gives_is_grown(grow, initial, max, factor, attempt, base);
            lemma_pow2_pos(1074);
            assert(jitter.clamp_unit_spec() == unit_64(jitter));
            assert(scattered(grow, base, jitter, wait));
        },
    }
}

proof fn lemma_gives_is_grown<G: Fn(Evaluation) -> Nanos>(
    grow: G,
    initial: Nanos,
    max: Nanos,
    factor: Binary64,
    attempt: u32,
    wait: Nanos,
)
    requires
        (Growth {
            initial,
            max,
            factor,
            exponent: crate::backoff::exponent_of(attempt as nat) as u32,
        }).gives(grow, wait),
    ensures
        grown(grow, initial, max, factor, attempt, wait),
{
}

/// Asking a strategy for a wait gives one of its waits, at the attempt asked for.
pub proof fn law_wait_for_gives_the_wait<G: Fn(Evaluation) -> Nanos>(
    strategy: BackoffStrategy,
    grow: G,
    attempt: u32,
    wait: Nanos,
    first: Nanos,
)
    requires
        forall|e: Evaluation| call_requires(grow, (e,)),
        call_ensures(BackoffStrategy::wait_for::<G>, (&strategy, attempt, &grow), wait),
        call_ensures(BackoffStrategy::initial_wait::<G>, (&strategy, &grow), first),
    ensures
        strategy.waits(grow, attempt as nat, wait),
        strategy.waits(grow, 1, first),
{
}

/// The two steps of an exponential wait, each by itself: growing a wait, and drawing
/// one from it.
pub proof fn law_growing_and_drawing<G: Fn(Evaluation) -> Nanos>(
    initial: Nanos,
    max: Nanos,
    factor: Binary64,
    jitter: Binary64,
    grow: G,
    attempt: u32,
    plan: Option<Growth>,
    base: Nanos,
    wait: Nanos,
)
    requires
        forall|e: Evaluation| call_requires(grow, (e,)),
        call_ensures(
            BackoffStrategy::growth,
            (&(BackoffStrategy::ExponentialJitter { initial, max, factor, jitter }), attempt),
            plan,
        ),
        plan is Some ==> call_ensures(Growth::wait::<G>, (plan->0, &grow), base),
        call_ensures(crate::backoff::with_jitter::<G>, (base, jitter, &grow), wait),
    ensures
        plan is Some,
        grown(grow, initial, max, factor, attempt, base),
        scattered(grow, base, jitter, wait),
{
    lemma_gives_is_grown(grow, initial, max, factor, attempt, base);
    lemma_pow2_pos(1074);
    assert(jitter.clamp_unit_spec() == unit_64(jitter));
}

/// A seed is the reading with its last bit set, cut to 64 bits.
pub proof fn law_seed_is_an_odd_reading(reading: Nanos, r: u64)
    requires
        call_ensures(crate::backoff::seed_from, (Some(reading),), r),
    ensures
        r % 2 == 1,
        r as int / 2 == (reading as int % 0x1_0000_0000_0000_0000) / 2,
{
    let low = reading as u64;
    assert(reading as u64 == reading % 0x1_0000_0000_0000_0000) by (bit_vector);
    assert((low | 1) % 2 == 1 && (low | 1) / 2 == low / 2) by (bit_vector);
}

/// One step of a seeded generator adds to the state, bit by bit without carry, itself
/// shifted left by 13, then right by 7, then left by 17. A step takes sums to sums, and
/// different states to different ones.
pub proof fn law_generator_step(x: u64, y: u64, next: u64)
    requires
        x != 0,
        call_ensures(crate::backoff::next_state, (x,), next),
    ensures
        ({
            let a = x ^ (x << 13);
            let b = a ^ (a >> 7);
            next == b ^ (b << 17)
        }),
        crate::backoff::xorshift(x ^ y) == crate::backoff::xorshift(x) ^ crate::backoff::xorshift(
            y,
        ),
        x != y ==> crate::backoff::xorshift(y) != next,
{
    let z = x ^ y;
    let ax = x ^ (x << 13);
    let ay = y ^ (y << 13);
    let az = z ^ (z << 13);
    assert(az == ax ^ ay) by (bit_vector)
        requires
            z == x ^ y,
            ax == x ^ (x << 13),
            ay == y ^ (y << 13),
            az == z ^ (z << 13),
    ;
    let bx = ax ^ (ax >> 7);
    let dy = ay ^ (ay >> 7);
    let bz = az ^ (az >> 7);
    assert(bz == bx ^ dy) by (bit_vector)
        requires
            az == ax ^ ay,
            bx == ax ^ (ax >> 7),
            dy == ay ^ (ay >> 7),
            bz == az ^ (az >> 7),
    ;
    let cx = bx ^ (bx << 17);
    let cy = dy ^ (dy << 17);
    let cz = bz ^ (bz << 17);
    assert(cz == cx ^ cy) by (bit_vector)
        requires
            bz == bx ^ dy,
            cx == bx ^ (bx << 17),
            cy == dy ^ (dy << 17),
            cz == bz ^ (bz << 17),
    ;
    if x != y {
        assert(z != 0) by (bit_vector)
            requires
                x != y,
                z == x ^ y,
        ;
        crate::backoff::law_xorshift_never_sticks(z);
        assert(cx != cy) by (bit_vector)
            requires
                cz == cx ^ cy,
                cz != 0,
        ;
    }
}

/// Without a reading the seed is one and the same odd number, so that the generator
/// runs nevertheless.
pub proof fn law_seed_without_a_clock(a: u64, b: u64)
    requires
        call_ensures(crate::backoff::seed_from, (None::<Nanos>,), a),
        call_ensures(crate::backoff::seed_from, (None::<Nanos>,), b),
    ensures
        a == b,
        a == 0x9E37_79B9_7F4A_7C15,
        a % 2 == 1,
{
}

/// A sample is the state over 2^64, cut to 53 bits: larger states never give smaller
/// samples, and no sample reaches one.
pub proof fn law_sample_is_a_share_of_the_states(x: u64, y: u64, a: Binary64, b: Binary64)
    requires
        call_ensures(crate::backoff::sample, (x,), a),
        call_ensures(crate::backoff::sample, (y,), b),
    ensures
        ({
            let share = rounding::scaled(53, a.bits as nat) * pow2(53);
            let part = (x as int / 2048) * pow2(1074);
            share == part
        }),
        x <= y ==> rounding::scaled(53, a.bits as nat) <= rounding::scaled(53, b.bits as nat),
        a.bits < 0x3ff0_0000_0000_0000,
{
    assert(x >> 11 == x / 2048) by (bit_vector);
    assert(y >> 11 == y / 2048) by (bit_vector);
    lemma_pow2_pos(53);
    lemma_pow2_pos(1074);
    if x <= y {
        let p = rounding::scaled(53, a.bits as nat) as int;
        let q = rounding::scaled(53, b.bits as nat) as int;
        let u = (x / 2048) as int;
        let v = (y / 2048) as int;
        assert(p <= q) by (nonlinear_arith)
            requires
                p * pow2(53) == u * pow2(1074),
                q * pow2(53) == v * pow2(1074),
                u <= v,
                pow2(53) > 0,
                pow2(1074) > 0,
        ;
    }
}

/// A permit is given exactly while fewer than the limit are in use, and leaves the
/// count exactly one higher.
pub proof fn law_taking_a_slot_adds_one(in_use: usize, max: usize, r: Option<usize>)
    requires
        call_ensures(crate::permit::take_slot, (in_use, max), r),
    ensures
        in_use < max ==> r is Some && r->0 == in_use + 1,
        in_use >= max ==> r is None,
{
}

/// What a counter holds after a series of events, each taken permit counted by
/// [`take_slot`](crate::permit::take_slot) and each returned one taken off.
pub open spec fn counter_after(max: usize, history: Seq<crate::laws::Use<'_>>) -> int
    decreases history.len(),
{
    if history.len() == 0 {
        0
    } else {
        let before = counter_after(max, history.drop_last());
        match history.last() {
            crate::laws::Use::Taken(_) => crate::permit::one_more(before as usize, max)->0 as int,
            crate::laws::Use::Refused { .. } => before,
            crate::laws::Use::Returned => before - 1,
        }
    }
}

/// The counter holds exactly the number of permits held, so that with `max` of them
/// held the next request is refused, and with fewer it is granted.
pub proof fn law_counter_is_permits_held(max: u32, history: Seq<crate::laws::Use<'_>>)
    requires
        crate::laws::of_one_counter(history),
        crate::laws::asked_under(max as nat, history),
    ensures
        counter_after(max as usize, history) == crate::laws::in_use(history),
        crate::laws::in_use(history) == max ==> crate::permit::one_more(
            counter_after(max as usize, history) as usize,
            max as usize,
        ) is None,
        crate::laws::in_use(history) < max ==> crate::permit::one_more(
            counter_after(max as usize, history) as usize,
            max as usize,
        ) == Some((crate::laws::in_use(history) + 1) as usize),
    decreases history.len(),
{
    crate::laws::law_permits_never_exceed_the_limit(max as nat, history);
    if history.len() > 0 {
        let rest = history.drop_last();
        assert forall|i: int| 0 <= i < rest.len() implies match #[trigger] rest[i] {
            crate::laws::Use::Taken(permit) => permit.limit() == max && permit.before()
                < permit.limit(),
            crate::laws::Use::Refused { in_use: found } => found >= max,
            crate::laws::Use::Returned => true,
        } by {
            assert(rest[i] == history[i]);
        }
        law_counter_is_permits_held(max, rest);
        crate::laws::law_permits_never_exceed_the_limit(max as nat, rest);
        assert(history.last() == history[history.len() - 1]);
    }
}

/// How a call ended decides what is recorded: a value a success, a time-out a failure,
/// an error a failure exactly if it counts.
pub proof fn law_end_decides_the_outcome<T, E>(
    value: T,
    error: E,
    counts: bool,
    r: (Outcome, Outcome, Outcome),
)
    requires
        call_ensures(CallEnd::<T, E>::outcome, (&CallEnd::Succeeded(value),), r.0),
        call_ensures(CallEnd::<T, E>::outcome, (&(CallEnd::Failed { error, counts }),), r.1),
        call_ensures(CallEnd::<T, E>::outcome, (&CallEnd::TimedOut,), r.2),
    ensures
        r.0 == Outcome::Success,
        counts ==> r.1 == Outcome::Failure,
        !counts ==> r.1 == Outcome::Uncounted,
        r.2 == Outcome::Failure,
{
}

/// The caller gets the operation's own value or its own error, whether it counts or
/// not, or the time-out.
pub proof fn law_end_decides_the_reply<T, E>(
    value: T,
    error: E,
    counts: bool,
    a: Result<T, CircuitBreakerError<E>>,
    b: Result<T, CircuitBreakerError<E>>,
    c: Result<T, CircuitBreakerError<E>>,
)
    requires
        call_ensures(CallEnd::<T, E>::reply, (CallEnd::Succeeded(value),), a),
        call_ensures(CallEnd::<T, E>::reply, ((CallEnd::Failed { error, counts }),), b),
        call_ensures(CallEnd::<T, E>::reply, (CallEnd::TimedOut,), c),
    ensures
        a == Ok::<T, CircuitBreakerError<E>>(value),
        b == Err::<T, CircuitBreakerError<E>>(CircuitBreakerError::Failure(error)),
        c == Err::<T, CircuitBreakerError<E>>(CircuitBreakerError::Timeout),
{
}

/// A call that an open circuit turns away is told so, and one that finds all probe
/// permits in use is rejected.
pub proof fn law_refusals_name_their_reason<E>(
    in_use: usize,
    a: CircuitBreakerError<E>,
    b: CircuitBreakerError<E>,
)
    requires
        call_ensures(Refusal::error::<E>, (Refusal::Open,), a),
        call_ensures(Refusal::error::<E>, ((Refusal::Full { in_use }),), b),
    ensures
        a == CircuitBreakerError::<E>::CircuitOpen,
        b == CircuitBreakerError::<E>::Rejected,
{
}

/// An open circuit turns every call away, a closed one lets every call in without a
/// permit, and a half-open one goes by what asking for a permit gave.
pub proof fn law_entry_by_state<'a>(
    probe: Result<HalfOpenPermit<'a>, usize>,
    a: Result<Option<HalfOpenPermit<'a>>, Refusal>,
    b: Result<Option<HalfOpenPermit<'a>>, Refusal>,
    c: Result<Option<HalfOpenPermit<'a>>, Refusal>,
)
    requires
        call_ensures(crate::breaker::entry, (State::Open, Some(probe)), a),
        call_ensures(crate::breaker::entry, (State::Closed, Some(probe)), b),
        call_ensures(crate::breaker::entry, (State::HalfOpen, Some(probe)), c),
    ensures
        a == Err::<Option<HalfOpenPermit<'a>>, Refusal>(Refusal::Open),
        b == Ok::<Option<HalfOpenPermit<'a>>, Refusal>(None),
        probe is Ok ==> c == Ok::<Option<HalfOpenPermit<'a>>, Refusal>(Some(probe->Ok_0)),
        probe is Err ==> c == Err::<Option<HalfOpenPermit<'a>>, Refusal>(
            (Refusal::Full { in_use: probe->Err_0 }),
        ),
{
}

/// The names and levels of the states, and the label of a transition.
pub proof fn law_states_are_labelled(
    prev: State,
    next: State,
    name: &'static str,
    level: u8,
    label: String,
)
    requires
        call_ensures(State::label, (&prev,), name),
        call_ensures(State::gauge, (&prev,), level),
        call_ensures(crate::state::transition_label, (prev, next), label),
    ensures
        prev == State::Closed ==> name@ == "Closed"@ && level == 0,
        prev == State::Open ==> name@ == "Open"@ && level == 1,
        prev == State::HalfOpen ==> name@ == "HalfOpen"@ && level == 2,
        next == State::Closed ==> label@ == name@ + "->"@ + "Closed"@,
        next == State::Open ==> label@ == name@ + "->"@ + "Open"@,
        next == State::HalfOpen ==> label@ == name@ + "->"@ + "HalfOpen"@,
{
}

/// A circuit is in exactly one of its three states.
pub proof fn law_one_state_at_a_time(state: State, a: bool, b: bool, c: bool)
    requires
        call_ensures(State::is_closed, (state,), a),
        call_ensures(State::is_open, (state,), b),
        call_ensures(State::is_half_open, (state,), c),
    ensures
        a && !b && !c || !a && b && !c || !a && !b && c,
        a <==> state is Closed,
        b <==> state is Open,
        c <==> state is HalfOpen,
{
}

/// Every error counts, unless there is a classifier for it, which then decides.
pub proof fn law_classifier_decides<E, P: Fn(&E) -> bool>(
    predicate: P,
    err: E,
    alone: bool,
    foreign: bool,
    judged: bool,
)
    requires
        call_requires(predicate, (&err,)),
        call_ensures(
            crate::config::is_breaker_failure::<E, P>,
            (None::<&P>, Some(&err)),
            alone,
        ),
        call_ensures(
            crate::config::is_breaker_failure::<E, P>,
            (Some(&predicate), None::<&E>),
            foreign,
        ),
        call_ensures(
            crate::config::is_breaker_failure::<E, P>,
            (Some(&predicate), Some(&err)),
            judged,
        ),
    ensures
        alone,
        foreign,
        call_ensures(predicate, (&err,), judged),
{
}

/// The messages of the errors that are the breaker's own.
pub proof fn law_messages<E: std::fmt::Display>(a: String, b: String, c: String)
    requires
        call_ensures(
            CircuitBreakerError::<E>::to_string,
            (&CircuitBreakerError::<E>::CircuitOpen,),
            a,
        ),
        call_ensures(
            CircuitBreakerError::<E>::to_string,
            (&CircuitBreakerError::<E>::Rejected,),
            b,
        ),
        call_ensures(
            CircuitBreakerError::<E>::to_string,
            (&CircuitBreakerError::<E>::Timeout,),
            c,
        ),
    ensures
        a@ == "circuit breaker is open"@,
        b@ == "circuit breaker: half-open probe capacity exhausted"@,
        c@ == "circuit breaker: operation timed out"@,
{
}

/// A count of at least one.
pub open spec fn some(v: u32) -> u32 {
    if v == 0 {
        1
    } else {
        v
    }
}

/// A builder on which nothing is set makes the default configuration.
pub proof fn law_defaults(b: CircuitBreakerConfigBuilder, c: CircuitBreakerConfig)
    requires
        call_ensures(CircuitBreakerConfig::builder, (), b),
        call_ensures(CircuitBreakerConfigBuilder::build, (b,), c),
    ensures
        c == (CircuitBreakerConfig {
            failure_rate_threshold: Binary32 { bits: 0x3f00_0000 },
            consecutive_failures: 5,
            sliding_window_size: 10,
            minimum_calls: 10,
            half_open_max_calls: 3,
            success_threshold: 3,
            backoff: BackoffStrategy::Fixed(30_000_000_000),
            call_timeout: None,
        }),
{
}

/// The standard configuration is the default one. With the one that fails fast every
/// failure trips a closed circuit. With the lenient one a closed circuit holds until
/// the tenth failure in a row or the twentieth outcome in the window.
pub proof fn law_presets(
    b: CircuitBreakerConfigBuilder,
    default: CircuitBreakerConfig,
    standard: CircuitBreakerConfig,
    fast: CircuitBreakerConfig,
    lenient: CircuitBreakerConfig,
    m: Machine,
)
    requires
        call_ensures(CircuitBreakerConfig::builder, (), b),
        call_ensures(CircuitBreakerConfigBuilder::build, (b,), default),
        call_ensures(CircuitBreakerConfig::standard, (), standard),
        call_ensures(CircuitBreakerConfig::fast_fail, (), fast),
        call_ensures(CircuitBreakerConfig::lenient, (), lenient),
        m.wf(),
    ensures
        standard == default,
        trips(m, fast),
        fast.backoff == BackoffStrategy::Fixed(10_000_000_000),
        fast.half_open_max_calls == 1 && fast.success_threshold == 1,
        fast.failure_rate_threshold.bits == 0x3f80_0000,
        fast.sliding_window_size == 5 && fast.minimum_calls == 5 && fast.call_timeout is None,
        m.failure_count >= 9 ==> trips(m, lenient),
        m.failure_count < 9 && m.window.len() < 19 ==> !trips(m, lenient),
        lenient.backoff == BackoffStrategy::Fixed(60_000_000_000),
        lenient.half_open_max_calls == 5 && lenient.success_threshold == 5,
        lenient.failure_rate_threshold.bits == 0x3f00_0000,
        lenient.sliding_window_size == 20 && lenient.minimum_calls == 20 && lenient.call_timeout
            is None,
{
    law_defaults(b, default);
}

/// A backoff that is set is in the configuration as it is, a wait as a fixed backoff,
/// and nothing else of the configuration changes.
pub proof fn law_backoff_is_kept(
    b: CircuitBreakerConfigBuilder,
    before: CircuitBreakerConfig,
    v: BackoffStrategy,
    d: Nanos,
    with_backoff: CircuitBreakerConfigBuilder,
    with_wait: CircuitBreakerConfigBuilder,
    c: CircuitBreakerConfig,
    e: CircuitBreakerConfig,
)
    requires
        call_ensures(CircuitBreakerConfigBuilder::build, (b,), before),
        call_ensures(CircuitBreakerConfigBuilder::backoff, (b, v), with_backoff),
        call_ensures(CircuitBreakerConfigBuilder::build, (with_backoff,), c),
        call_ensures(CircuitBreakerConfigBuilder::wait_duration, (b, d), with_wait),
        call_ensures(CircuitBreakerConfigBuilder::build, (with_wait,), e),
    ensures
        c == (CircuitBreakerConfig { backoff: v, ..before }),
        e == (CircuitBreakerConfig { backoff: BackoffStrategy::Fixed(d), ..before }),
{
}

/// A threshold that is set is in the configuration, moved into the interval from zero
/// to one, and nothing else of the configuration changes.
pub proof fn law_threshold_is_kept(
    b: CircuitBreakerConfigBuilder,
    before: CircuitBreakerConfig,
    v: Binary32,
    set: CircuitBreakerConfigBuilder,
    c: CircuitBreakerConfig,
)
    requires
        call_ensures(CircuitBreakerConfigBuilder::build, (b,), before),
        call_ensures(CircuitBreakerConfigBuilder::failure_rate_threshold, (b, v), set),
        call_ensures(CircuitBreakerConfigBuilder::build, (set,), c),
    ensures
        c == (CircuitBreakerConfig { failure_rate_threshold: unit_32(v), ..before }),
{
}

/// A time limit that is set is in the configuration, but for zero, which sets none;
/// nothing else of the configuration changes.
pub proof fn law_time_limit_is_kept(
    b: CircuitBreakerConfigBuilder,
    before: CircuitBreakerConfig,
    v: Option<Nanos>,
    set: CircuitBreakerConfigBuilder,
    c: CircuitBreakerConfig,
)
    requires
        call_ensures(CircuitBreakerConfigBuilder::build, (b,), before),
        call_ensures(CircuitBreakerConfigBuilder::call_timeout, (b, v), set),
        call_ensures(CircuitBreakerConfigBuilder::build, (set,), c),
    ensures
        v is Some && v->0 > 0 ==> c == (CircuitBreakerConfig { call_timeout: v, ..before }),
        v is None || v->0 == 0 ==> c == (CircuitBreakerConfig { call_timeout: None, ..before }),
{
}

/// The two thresholds that stand alone are in the configuration as they were set, at
/// least one, and nothing else of the configuration changes.
pub proof fn law_thresholds_are_kept(
    b: CircuitBreakerConfigBuilder,
    before: CircuitBreakerConfig,
    v: u32,
    streak: CircuitBreakerConfigBuilder,
    successes: CircuitBreakerConfigBuilder,
    c: CircuitBreakerConfig,
    e: CircuitBreakerConfig,
)
    requires
        call_ensures(CircuitBreakerConfigBuilder::build, (b,), before),
        call_ensures(CircuitBreakerConfigBuilder::consecutive_failures, (b, v), streak),
        call_ensures(CircuitBreakerConfigBuilder::build, (streak,), c),
        call_ensures(CircuitBreakerConfigBuilder::success_threshold, (b, v), successes),
        call_ensures(CircuitBreakerConfigBuilder::build, (successes,), e),
    ensures
        c == (CircuitBreakerConfig { consecutive_failures: some(v), ..before }),
        e == (CircuitBreakerConfig { success_threshold: some(v), ..before }),
{
}

/// The probe limit that is set is in the configuration, at least one. The success
/// threshold follows it unless it was set itself, and nothing else changes.
pub proof fn law_probe_limit_is_kept(
    b: CircuitBreakerConfigBuilder,
    before: CircuitBreakerConfig,
    v: u32,
    w: u32,
    set: CircuitBreakerConfigBuilder,
    both: CircuitBreakerConfigBuilder,
    fresh: CircuitBreakerConfigBuilder,
    alone: CircuitBreakerConfigBuilder,
    c: CircuitBreakerConfig,
    e: CircuitBreakerConfig,
    f: CircuitBreakerConfig,
    swapped: (CircuitBreakerConfigBuilder, CircuitBreakerConfigBuilder, CircuitBreakerConfig),
)
    requires
        call_ensures(CircuitBreakerConfigBuilder::build, (b,), before),
        call_ensures(CircuitBreakerConfigBuilder::half_open_max_calls, (b, v), set),
        call_ensures(CircuitBreakerConfigBuilder::build, (set,), c),
        call_ensures(CircuitBreakerConfigBuilder::success_threshold, (set, w), both),
        call_ensures(CircuitBreakerConfigBuilder::build, (both,), e),
        call_ensures(CircuitBreakerConfig::builder, (), fresh),
        call_ensures(CircuitBreakerConfigBuilder::half_open_max_calls, (fresh, v), alone),
        call_ensures(CircuitBreakerConfigBuilder::build, (alone,), f),
        call_ensures(CircuitBreakerConfigBuilder::success_threshold, (b, w), swapped.0),
        call_ensures(
            CircuitBreakerConfigBuilder::half_open_max_calls,
            (swapped.0, v),
            swapped.1,
        ),
        call_ensures(CircuitBreakerConfigBuilder::build, (swapped.1,), swapped.2),
    ensures
        c == (CircuitBreakerConfig {
            half_open_max_calls: some(v),
            success_threshold: c.success_threshold,
            ..before
        }),
        c.success_threshold == some(v) || c.success_threshold == before.success_threshold,
        e == (CircuitBreakerConfig {
            half_open_max_calls: some(v),
            success_threshold: some(w),
            ..before
        }),
        swapped.2 == e,
        f.success_threshold == some(v),
{
}

/// The window size that is set is in the configuration, at least one. The outcomes
/// needed before the rate counts are those that were set, at least one and at most the
/// window, in whatever order the two are set, and the whole window where none were.
/// Nothing else changes.
pub proof fn law_window_is_kept(
    b: CircuitBreakerConfigBuilder,
    before: CircuitBreakerConfig,
    size: u32,
    minimum: u32,
    sized: CircuitBreakerConfigBuilder,
    least: CircuitBreakerConfigBuilder,
    both: CircuitBreakerConfigBuilder,
    swapped: CircuitBreakerConfigBuilder,
    fresh: CircuitBreakerConfigBuilder,
    alone: CircuitBreakerConfigBuilder,
    c: CircuitBreakerConfig,
    d: CircuitBreakerConfig,
    e: CircuitBreakerConfig,
    f: CircuitBreakerConfig,
    g: CircuitBreakerConfig,
)
    requires
        call_ensures(CircuitBreakerConfigBuilder::build, (b,), before),
        call_ensures(CircuitBreakerConfigBuilder::sliding_window_size, (b, size), sized),
        call_ensures(CircuitBreakerConfigBuilder::build, (sized,), c),
        call_ensures(CircuitBreakerConfigBuilder::minimum_calls, (b, minimum), least),
        call_ensures(CircuitBreakerConfigBuilder::build, (least,), d),
        call_ensures(CircuitBreakerConfigBuilder::minimum_calls, (sized, minimum), both),
        call_ensures(CircuitBreakerConfigBuilder::build, (both,), e),
        call_ensures(CircuitBreakerConfigBuilder::sliding_window_size, (least, size), swapped),
        call_ensures(CircuitBreakerConfigBuilder::build, (swapped,), f),
        call_ensures(CircuitBreakerConfig::builder, (), fresh),
        call_ensures(CircuitBreakerConfigBuilder::sliding_window_size, (fresh, size), alone),
        call_ensures(CircuitBreakerConfigBuilder::build, (alone,), g),
    ensures
        c == (CircuitBreakerConfig {
            sliding_window_size: some(size),
            minimum_calls: c.minimum_calls,
            ..before
        }),
        1 <= c.minimum_calls <= some(size),
        d == (CircuitBreakerConfig {
            minimum_calls: if some(minimum) <= before.sliding_window_size {
                some(minimum)
            } else {
                before.sliding_window_size
            },
            ..before
        }),
        e == (CircuitBreakerConfig {
            sliding_window_size: some(size),
            minimum_calls: if some(minimum) <= some(size) {
                some(minimum)
            } else {
                some(size)
            },
            ..before
        }),
        f == e,
        g.minimum_calls == some(size),
{
}

/// A settled call is recorded as one outcome and nothing more. A value is one success;
/// a time-out, or an error that counts, is one failure; an error that does not count is
/// nothing. The machine that the lock lent is left with that outcome alone: a closed one
/// is left closed, unless it was a failure and this failure trips it.
pub proof fn law_settled_call_is_one_outcome<G: Fn(Evaluation) -> Nanos, T, E>(
    b: CircuitBreaker<G>,
    end: CallEnd<T, E>,
    r: Settled<T, E>,
)
    requires
        forall|e: Evaluation| call_requires(b.grow_spec(), (e,)),
        call_ensures(CircuitBreaker::<G>::settle::<T, E>, (&b, end), r),
    ensures
        match end {
            CallEnd::Succeeded(value) => r.reply == Ok::<T, CircuitBreakerError<E>>(value),
            CallEnd::Failed { error, .. } => r.reply == Err::<T, CircuitBreakerError<E>>(
                CircuitBreakerError::Failure(error),
            ),
            CallEnd::TimedOut => r.reply == Err::<T, CircuitBreakerError<E>>(
                CircuitBreakerError::Timeout,
            ),
        },
        end is Failed && !end->counts ==> r.recorded is Ok && r.recorded->Ok_0@.len() == 0,
        end is Succeeded ==> exists|lent: &mut StateMachine|
            {
                let before = (*lent)@;
                let after = (*final(lent))@;
                &&& #[trigger] b.lock_lends(lent)
                &&& r.recorded is Ok ==> {
                    &&& after.total_successes == before.total_successes + 1
                    &&& after.total_failures == before.total_failures
                    &&& after.transitions == before.transitions + r.recorded->Ok_0@.len()
                    &&& before.current == State::Closed ==> after.current == State::Closed
                }
                &&& r.recorded is Err ==> after == before
            },
        end is TimedOut || end is Failed && end->counts ==> exists|lent: &mut StateMachine|
            {
                let before = (*lent)@;
                let after = (*final(lent))@;
                &&& #[trigger] b.lock_lends(lent)
                &&& r.recorded is Ok ==> {
                    &&& after.total_failures == before.total_failures + 1
                    &&& after.total_successes == before.total_successes
                    &&& after.transitions == before.transitions + r.recorded->Ok_0@.len()
                    &&& before.current == State::Closed && !trips(before, b.config_spec()) ==> {
                        &&& after.current == State::Closed
                        &&& r.recorded->Ok_0@.len() == 0
                    }
                    &&& before.current == State::Closed && trips(before, b.config_spec()) ==> {
                        &&& after.current == State::Open
                        &&& r.recorded->Ok_0@ == seq![(State::Closed, State::Open)]
                    }
                }
                &&& r.recorded is Err ==> after == before
            },
{
    if !(end is Failed && !end->counts) {
        let outcome = if end is Succeeded {
            Outcome::Success
        } else {
            Outcome::Failure
        };
        assert(end.outcome_spec() == outcome);
        let (lent, machine, now) = choose|
            lent: &mut StateMachine,
            machine: &mut StateMachine,
            now: Nanos,
        |
            {
                &&& #[trigger] b.lock_lends(lent)
                &&& *lent == *machine
                &&& *final(lent) == *final(machine)
                &&& b.clock_reads(now)
                &&& #[trigger] call_ensures(
                    StateMachine::try_record::<G>,
                    (machine, outcome, &b.config_spec(), now, &b.grow_spec()),
                    r.recorded,
                )
            };
        let before = (*machine)@;
        let after = (*final(machine))@;
        law_success_written_out(before, b.config_spec(), now as nat);
        law_failure_written_out(before, b.config_spec(), now as nat, after.wait);
        law_moves_written_out(before, b.config_spec(), outcome, now as nat);
        crate::laws::law_every_transition_is_reported_once(
            before,
            b.config_spec(),
            outcome,
            now as nat,
            after.wait,
        );
        assert(b.lock_lends(lent));
    }
}

/// Tripping opens the circuit that the lock lent, for the wait of one attempt more, and
/// leaves the totals and the window alone. Resetting closes it, with an empty window and
/// no attempts. Both report the state that callers saw before.
pub proof fn law_forcing_the_circuit<G: Fn(Evaluation) -> Nanos>(
    b: CircuitBreaker<G>,
    r: Result<(State, State), CounterOverflow>,
    q: Result<(State, State), CounterOverflow>,
)
    requires
        forall|e: Evaluation| call_requires(b.grow_spec(), (e,)),
        call_ensures(CircuitBreaker::<G>::trip, (&b,), r),
        call_ensures(CircuitBreaker::<G>::reset, (&b,), q),
    ensures
        exists|lent: &mut StateMachine, now: Nanos|
            {
                let before = (*lent)@;
                let after = (*final(lent))@;
                &&& #[trigger] b.lock_lends(lent)
                &&& #[trigger] b.clock_reads(now)
                &&& r is Err <==> before.transitions == u64::MAX
                &&& r is Err ==> after == before
                &&& r is Ok ==> {
                    &&& r->Ok_0.0 == if wait_is_over(before, now as nat) {
                        State::HalfOpen
                    } else {
                        before.current
                    }
                    &&& r->Ok_0.1 == State::Open
                    &&& after == opened(
                        Machine { transitions: before.transitions + 1, ..before },
                        now as nat,
                        after.wait,
                    )
                    &&& b.config_spec().backoff.waits(b.grow_spec(), after.attempts, after.wait)
                }
            },
        exists|lent: &mut StateMachine, now: Nanos|
            {
                let before = (*lent)@;
                let after = (*final(lent))@;
                &&& #[trigger] b.lock_lends(lent)
                &&& #[trigger] b.clock_reads(now)
                &&& q is Err <==> before.transitions == u64::MAX
                &&& q is Err ==> after == before
                &&& q is Ok ==> {
                    &&& q->Ok_0.0 == if wait_is_over(before, now as nat) {
                        State::HalfOpen
                    } else {
                        before.current
                    }
                    &&& q->Ok_0.1 == State::Closed
                    &&& after == (Machine {
                        current: State::Closed,
                        transitions: before.transitions + 1,
                        failure_count: 0,
                        success_count: 0,
                        attempts: 0,
                        open_since: None,
                        window: Seq::empty(),
                        ..before
                    })
                }
            },
{
    let (lent, machine, now) = choose|
        lent: &mut StateMachine,
        machine: &mut StateMachine,
        now: Nanos,
    |
        {
            &&& #[trigger] b.lock_lends(lent)
            &&& *lent == *machine
            &&& *final(lent) == *final(machine)
            &&& b.clock_reads(now)
            &&& #[trigger] call_ensures(
                StateMachine::trip::<G>,
                (machine, &b.config_spec(), now, &b.grow_spec()),
                r,
            )
        };
    law_entering_written_out((*machine)@, now as nat, (*final(machine))@.wait);
    law_forced_written_out((*machine)@, State::Open, now as nat);
    assert(b.lock_lends(lent) && b.clock_reads(now));
    let (given, closed, later) = choose|
        lent: &mut StateMachine,
        machine: &mut StateMachine,
        now: Nanos,
    |
        {
            &&& #[trigger] b.lock_lends(lent)
            &&& *lent == *machine
            &&& *final(lent) == *final(machine)
            &&& b.clock_reads(now)
            &&& #[trigger] call_ensures(StateMachine::reset, (machine, &b.config_spec(), now), q)
        };
    law_entering_written_out((*closed)@, 0, (*closed)@.wait);
    law_forced_written_out((*closed)@, State::Closed, later as nat);
    assert(b.lock_lends(given) && b.clock_reads(later));
}

/// Recording an outcome without a call does to the circuit what a call with that
/// outcome does: one success or one failure more, and a closed circuit stays closed
/// unless the failure trips it.
pub proof fn law_recording_without_a_call<G: Fn(Evaluation) -> Nanos>(
    b: CircuitBreaker<G>,
    s: Recorded,
    f: Recorded,
)
    requires
        forall|e: Evaluation| call_requires(b.grow_spec(), (e,)),
        call_ensures(CircuitBreaker::<G>::record_success, (&b,), s),
        call_ensures(CircuitBreaker::<G>::record_failure, (&b,), f),
    ensures
        exists|lent: &mut StateMachine|
            {
                let before = (*lent)@;
                let after = (*final(lent))@;
                &&& #[trigger] b.lock_lends(lent)
                &&& s is Ok ==> {
                    &&& after.total_successes == before.total_successes + 1
                    &&& after.total_failures == before.total_failures
                    &&& after.transitions == before.transitions + s->Ok_0@.len()
                    &&& before.current == State::Closed ==> after.current == State::Closed
                }
                &&& s is Err ==> after == before
            },
        exists|lent: &mut StateMachine|
            {
                let before = (*lent)@;
                let after = (*final(lent))@;
                &&& #[trigger] b.lock_lends(lent)
                &&& f is Ok ==> {
                    &&& after.total_failures == before.total_failures + 1
                    &&& after.total_successes == before.total_successes
                    &&& after.transitions == before.transitions + f->Ok_0@.len()
                    &&& before.current == State::Closed ==> if trips(before, b.config_spec()) {
                        after.current == State::Open
                    } else {
                        after.current == State::Closed
                    }
                }
                &&& f is Err ==> after == before
            },
{
    let (lent, machine, now) = choose|
        lent: &mut StateMachine,
        machine: &mut StateMachine,
        now: Nanos,
    |
        {
            &&& #[trigger] b.lock_lends(lent)
            &&& *lent == *machine
            &&& *final(lent) == *final(machine)
            &&& b.clock_reads(now)
            &&& #[trigger] call_ensures(
                StateMachine::try_record::<G>,
                (machine, Outcome::Success, &b.config_spec(), now, &b.grow_spec()),
                s,
            )
        };
    law_success_written_out((*machine)@, b.config_spec(), now as nat);
    crate::laws::law_every_transition_is_reported_once(
        (*machine)@,
        b.config_spec(),
        Outcome::Success,
        now as nat,
        (*final(machine))@.wait,
    );
    assert(b.lock_lends(lent));
    let (given, failing, later) = choose|
        lent: &mut StateMachine,
        machine: &mut StateMachine,
        now: Nanos,
    |
        {
            &&& #[trigger] b.lock_lends(lent)
            &&& *lent == *machine
            &&& *final(lent) == *final(machine)
            &&& b.clock_reads(now)
            &&& #[trigger] call_ensures(
                StateMachine::try_record::<G>,
                (machine, Outcome::Failure, &b.config_spec(), now, &b.grow_spec()),
                f,
            )
        };
    law_failure_written_out(
        (*failing)@,
        b.config_spec(),
        later as nat,
        (*final(failing))@.wait,
    );
    crate::laws::law_every_transition_is_reported_once(
        (*failing)@,
        b.config_spec(),
        Outcome::Failure,
        later as nat,
        (*final(failing))@.wait,
    );
    assert(b.lock_lends(given));
}

/// What a holder of the circuit reads is what its machine shows at that time: the
/// state by the clock, and a snapshot of the counters.
pub proof fn law_reading_the_circuit<G: Fn(Evaluation) -> Nanos>(
    b: CircuitBreaker<G>,
    state: State,
    metrics: CircuitMetrics,
    filled: u32,
    sample: (Binary64, u32),
)
    requires
        call_ensures(CircuitBreaker::<G>::state, (&b,), state),
        call_ensures(CircuitBreaker::<G>::metrics, (&b,), metrics),
        call_ensures(CircuitBreaker::<G>::window_filled, (&b,), filled),
        call_ensures(CircuitBreaker::<G>::failure_sample, (&b,), sample),
    ensures
        exists|held: StateMachine, now: Nanos|
            {
                &&& #[trigger] b.lock_holds(held)
                &&& #[trigger] b.clock_reads(now)
                &&& state == if wait_is_over(held@, now as nat) {
                    State::HalfOpen
                } else {
                    held@.current
                }
            },
        exists|held: StateMachine, now: Nanos|
            {
                &&& #[trigger] b.lock_holds(held)
                &&& #[trigger] b.clock_reads(now)
                &&& metrics.state == if wait_is_over(held@, now as nat) {
                    State::HalfOpen
                } else {
                    held@.current
                }
                &&& metrics.total_successes == held@.total_successes
                &&& metrics.total_failures == held@.total_failures
                &&& metrics.transitions == held@.transitions
            },
        exists|held: StateMachine| #[trigger] b.lock_holds(held) && filled == held@.window.len(),
        exists|held: StateMachine| #[trigger]
            b.lock_holds(held) && sample.1 == held@.failure_count && sample.0
                == held@.lifetime_rate(),
{
    let (seen, now) = choose|machine: StateMachine, now: Nanos|
        {
            &&& b.lock_holds(machine)
            &&& b.clock_reads(now)
            &&& #[trigger] call_ensures(StateMachine::current, (&machine, now), state)
        };
    law_current_follows_the_clock(seen, now, state);
    let (shown, later) = choose|machine: StateMachine, now: Nanos|
        {
            &&& b.lock_holds(machine)
            &&& b.clock_reads(now)
            &&& #[trigger] call_ensures(StateMachine::metrics, (&machine, now), metrics)
        };
    law_metrics_show_the_machine(shown, later, metrics);
}

/// What a holder who asks to run a call is told, by what the machine shows at that
/// time: in a closed circuit to go ahead without a permit, in an open one that it is
/// open, and in a half-open one to go ahead with a permit taken below the limit, or
/// that it is rejected.
pub proof fn law_asking_the_circuit<'a, G: Fn(Evaluation) -> Nanos, E>(
    b: CircuitBreaker<G>,
    r: Result<Option<HalfOpenPermit<'a>>, CircuitBreakerError<E>>,
)
    requires
        call_ensures(CircuitBreaker::<G>::enter::<E>, (&b,), r),
    ensures
        exists|held: StateMachine, now: Nanos|
            {
                &&& #[trigger] b.lock_holds(held)
                &&& #[trigger] b.clock_reads(now)
                &&& match held@.current {
                    State::Closed => r == Ok::<
                        Option<HalfOpenPermit<'a>>,
                        CircuitBreakerError<E>,
                    >(None),
                    State::Open => if wait_is_over(held@, now as nat) {
                        probed(b, r)
                    } else {
                        r == Err::<Option<HalfOpenPermit<'a>>, CircuitBreakerError<E>>(
                            CircuitBreakerError::CircuitOpen,
                        )
                    },
                    State::HalfOpen => probed(b, r),
                }
            },
{
    let answer = choose|answer: Result<Option<HalfOpenPermit<'a>>, Refusal>|
        {
            &&& #[trigger] call_ensures(CircuitBreaker::<G>::try_enter, (&b,), answer)
            &&& r == match answer {
                Ok(permit) => Ok(permit),
                Err(refusal) => Err(refusal.error_spec::<E>()),
            }
        };
    let (held, now) = choose|machine: StateMachine, now: Nanos|
        {
            &&& b.lock_holds(machine)
            &&& b.clock_reads(now)
            &&& #[trigger] call_ensures(
                crate::breaker::admission,
                (&machine, now, &b.permits_spec(), b.config_spec().half_open_max_calls),
                answer,
            )
        };
    assert(b.lock_holds(held) && b.clock_reads(now));
}

/// The answer of a half-open circuit.
pub open spec fn probed<'a, G: Fn(Evaluation) -> Nanos, E>(
    b: CircuitBreaker<G>,
    r: Result<Option<HalfOpenPermit<'a>>, CircuitBreakerError<E>>,
) -> bool {
    ||| r == Err::<Option<HalfOpenPermit<'a>>, CircuitBreakerError<E>>(CircuitBreakerError::Rejected)
    ||| {
        &&& r is Ok
        &&& r->Ok_0 is Some
        &&& r->Ok_0->0.counter() == b.permits_spec()
        &&& r->Ok_0->0.limit() == b.config_spec().half_open_max_calls
        &&& r->Ok_0->0.before() < b.config_spec().half_open_max_calls
    }
}

/// A new breaker has the name and the configuration it was given, "default" where it
/// was given no name, and a machine that has recorded nothing.
pub proof fn law_new_breaker<G: Fn(Evaluation) -> Nanos>(
    config: CircuitBreakerConfig,
    grow: G,
    name: &str,
    b: CircuitBreaker<G>,
    unnamed: CircuitBreakerBuilder<G>,
    named: CircuitBreakerBuilder<G>,
    c: CircuitBreaker<G>,
)
    requires
        forall|e: Evaluation| call_requires(grow, (e,)),
        call_ensures(CircuitBreaker::<G>::new, (config, grow), b),
        call_ensures(CircuitBreaker::<G>::builder, (config, grow), unnamed),
        call_ensures(CircuitBreakerBuilder::<G>::name, (unnamed, name), named),
        call_ensures(CircuitBreakerBuilder::<G>::build, (named,), c),
    ensures
        b.name_spec() == "default"@,
        c.name_spec() == name@,
        b.config_spec() == config && c.config_spec() == config,
        b.grow_spec() == grow && c.grow_spec() == grow,
        exists|machine: StateMachine|
            {
                &&& #[trigger] b.starts_with(machine)
                &&& machine@.current == State::Closed
                &&& machine@.total_successes == 0 && machine@.total_failures == 0
                &&& machine@.transitions == 0 && machine@.attempts == 0
                &&& machine@.failure_count == 0 && machine@.window.len() == 0
                &&& machine@.capacity == some(config.sliding_window_size)
                &&& config.backoff.waits(grow, 1, machine@.wait)
            },
{
}

}
