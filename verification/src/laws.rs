//! What holds of the circuit as a whole: over all inputs, over several
//! operations, in every state.
use vstd::arithmetic::power2::*;
use vstd::prelude::*;

use crate::backoff::{BackoffStrategy, Evaluation, Growth, Nanos};
use crate::binary::{Binary32, Binary64};
use crate::call::Outcome;
use crate::config::{CircuitBreakerConfig, Settings};
use crate::permit::HalfOpenPermit;
use crate::rounding;
use crate::state::{Machine, State};
use crate::window;

verus! {

/// One operation on a circuit.
pub enum Op {
    /// A success is recorded.
    Success {
        /// The clock reading.
        now: nat,
    },
    /// A failure is recorded.
    Failure {
        /// The clock reading.
        now: nat,
        /// The wait of the trip, where there is one.
        wait: Nanos,
    },
    /// The circuit is forced open.
    Trip {
        /// The clock reading.
        now: nat,
        /// The wait of the trip.
        wait: Nanos,
    },
    /// The circuit is forced closed.
    Reset {
        /// The clock reading.
        now: nat,
    },
}

impl Machine {
    /// The machine after one operation.
    pub open spec fn step(self, config: CircuitBreakerConfig, op: Op) -> Machine {
        match op {
            Op::Success { now } => self.with_success(config, now),
            Op::Failure { now, wait } => self.with_failure(config, now, wait),
            Op::Trip { now, wait } => self.entered(State::Open, now, wait),
            Op::Reset { .. } => self.entered(State::Closed, 0, self.wait),
        }
    }

    /// The machine after a series of operations.
    pub open spec fn run(self, config: CircuitBreakerConfig, ops: Seq<Op>) -> Machine
        decreases ops.len(),
    {
        if ops.len() == 0 {
            self
        } else {
            self.run(config, ops.drop_last()).step(config, ops.last())
        }
    }

    /// The transitions that one operation reports, in order.
    pub open spec fn reports(self, config: CircuitBreakerConfig, op: Op) -> Seq<(State, State)> {
        match op {
            Op::Success { now } => self.moves(Outcome::Success, config, now),
            Op::Failure { now, .. } => self.moves(Outcome::Failure, config, now),
            Op::Trip { now, .. } => seq![(self.effective(now), State::Open)],
            Op::Reset { now } => seq![(self.effective(now), State::Closed)],
        }
    }

    /// The transitions that a series of operations reports, in order.
    pub open spec fn all_reports(self, config: CircuitBreakerConfig, ops: Seq<Op>) -> Seq<
        (State, State),
    >
        decreases ops.len(),
    {
        if ops.len() == 0 {
            Seq::empty()
        } else {
            self.all_reports(config, ops.drop_last()) + self.run(config, ops.drop_last()).reports(
                config,
                ops.last(),
            )
        }
    }

    /// This machine without what only its history shows: the lifetime counters, and
    /// the wait where the circuit is not open.
    pub open spec fn episode(self) -> Machine {
        Machine {
            total_successes: 0,
            total_failures: 0,
            transitions: 0,
            wait: if self.current == State::Open {
                self.wait
            } else {
                0
            },
            ..self
        }
    }
}

/// How many of the operations record a success.
pub open spec fn successes(ops: Seq<Op>) -> nat
    decreases ops.len(),
{
    if ops.len() == 0 {
        0
    } else {
        successes(ops.drop_last()) + if ops.last() is Success {
            1nat
        } else {
            0
        }
    }
}

/// How many of the operations record a failure.
pub open spec fn failures(ops: Seq<Op>) -> nat
    decreases ops.len(),
{
    if ops.len() == 0 {
        0
    } else {
        failures(ops.drop_last()) + if ops.last() is Failure {
            1nat
        } else {
            0
        }
    }
}

/// Every operation keeps a machine well formed: the window stays within its
/// capacity and the streaks within their fields.
pub proof fn law_step_keeps_wf(m: Machine, config: CircuitBreakerConfig, op: Op)
    requires
        m.wf(),
    ensures
        m.step(config, op).wf(),
        m.step(config, op).capacity == m.capacity,
{
}

/// However a circuit was used, its window holds no more outcomes than it was
/// configured for.
pub proof fn law_window_never_overflows(
    config: CircuitBreakerConfig,
    wait: Nanos,
    ops: Seq<Op>,
)
    ensures
        Machine::fresh(config, wait).run(config, ops).wf(),
        Machine::fresh(config, wait).run(config, ops).capacity == Machine::fresh(
            config,
            wait,
        ).capacity,
    decreases ops.len(),
{
    if ops.len() > 0 {
        law_window_never_overflows(config, wait, ops.drop_last());
        law_step_keeps_wf(
            Machine::fresh(config, wait).run(config, ops.drop_last()),
            config,
            ops.last(),
        );
    }
}

/// No outcome is lost: in any order of operations the totals are the numbers of
/// successes and failures recorded.
pub proof fn law_no_outcome_is_lost(m: Machine, config: CircuitBreakerConfig, ops: Seq<Op>)
    ensures
        m.run(config, ops).total_successes == m.total_successes + successes(ops),
        m.run(config, ops).total_failures == m.total_failures + failures(ops),
    decreases ops.len(),
{
    if ops.len() > 0 {
        law_no_outcome_is_lost(m, config, ops.drop_last());
    }
}

/// Recording an outcome reports every transition it makes, once, and nothing
/// else: the reports lead from the state before to the state after, each from
/// where the last one ended to another state, and the count of transitions
/// grows by their number.
pub proof fn law_every_transition_is_reported_once(
    m: Machine,
    config: CircuitBreakerConfig,
    outcome: Outcome,
    now: nat,
    wait: Nanos,
)
    ensures
        ({
            let moves = m.moves(outcome, config, now);
            let after = m.with_outcome(outcome, config, now, wait);
            &&& after.transitions == m.transitions + moves.len()
            &&& moves.len() == 0 ==> after.current == m.current
            &&& moves.len() > 0 ==> moves.first().0 == m.current && moves.last().1 == after.current
            &&& forall|i: int| 0 <= i < moves.len() ==> (#[trigger] moves[i]).0 != moves[i].1
            &&& forall|i: int|
                0 < i < moves.len() ==> (#[trigger] moves[i]).0 == moves[i - 1].1
        }),
{
}

/// No operation takes anything off the lifetime counters.
pub proof fn law_counters_never_decrease(m: Machine, config: CircuitBreakerConfig, op: Op)
    ensures
        m.step(config, op).total_successes >= m.total_successes,
        m.step(config, op).total_failures >= m.total_failures,
        m.step(config, op).transitions >= m.transitions,
{
}

/// A closed circuit opens only by force or by a failure with which one of the two
/// rules fires.
pub proof fn law_only_a_fired_rule_opens(m: Machine, config: CircuitBreakerConfig, op: Op)
    requires
        m.current == State::Closed,
        m.step(config, op).current != State::Closed,
    ensures
        m.step(config, op).current == State::Open,
        op is Trip || (op is Failure && {
            ||| m.noted(true).streak_fires(config)
            ||| m.noted(true).rate_fires(config)
        }),
{
}

/// An error that does not count leaves the circuit as it was.
pub proof fn law_uncounted_errors_change_nothing(
    m: Machine,
    config: CircuitBreakerConfig,
    now: nat,
    wait: Nanos,
)
    ensures
        m.with_outcome(Outcome::Uncounted, config, now, wait) == m,
        m.moves(Outcome::Uncounted, config, now).len() == 0,
{
}

/// An open circuit reads as open while its wait lasts, and as half-open once the
/// wait is over, at that time and at any later one.
pub proof fn law_open_wakes_after_its_wait(m: Machine, since: nat, now: nat, later: nat)
    requires
        m.current == State::Open,
        m.open_since == Some(since),
        now <= later,
    ensures
        m.effective(now) == if crate::state::elapsed(since, now) < m.wait {
            State::Open
        } else {
            State::HalfOpen
        },
        m.effective(now) == State::HalfOpen ==> m.effective(later) == State::HalfOpen,
{
}

/// A circuit that is not open reads the same at all times.
pub proof fn law_only_open_changes_with_time(m: Machine, now: nat)
    requires
        m.current != State::Open,
    ensures
        m.effective(now) == m.current,
        m.woken(now) == m,
{
}

/// A circuit wakes up once: waking it again, then or at any other time, changes
/// nothing.
pub proof fn law_waking_twice_is_waking_once(m: Machine, now: nat, again: nat)
    ensures
        m.woken(now).woken(now) == m.woken(now),
        m.due(now) ==> m.woken(now).woken(again) == m.woken(now),
{
}

/// While an open circuit waits, outcomes change nothing but the totals.
pub proof fn law_open_ignores_outcomes(
    m: Machine,
    config: CircuitBreakerConfig,
    now: nat,
    wait: Nanos,
)
    requires
        m.effective(now) == State::Open,
    ensures
        m.with_success(config, now) == (Machine { total_successes: m.total_successes + 1, ..m }),
        m.with_failure(config, now, wait) == (Machine { total_failures: m.total_failures + 1, ..m }),
{
}

/// A failed probe opens the circuit again, from now on and for the wait of the
/// next attempt.
pub proof fn law_failed_probe_reopens(
    m: Machine,
    config: CircuitBreakerConfig,
    now: nat,
    wait: Nanos,
)
    requires
        m.effective(now) == State::HalfOpen,
    ensures
        m.failure_report(config, now) == Some((State::HalfOpen, State::Open)),
        m.with_failure(config, now, wait).current == State::Open,
        m.with_failure(config, now, wait).open_since == Some(now),
        m.with_failure(config, now, wait).wait == wait,
        m.with_failure(config, now, wait).attempts == m.next_attempt(),
{
}

/// A half-open circuit closes with the success that reaches the threshold, and
/// not before. It closes with an empty window and no attempts.
pub proof fn law_probes_close_at_the_threshold(
    m: Machine,
    config: CircuitBreakerConfig,
    ops: Seq<Op>,
)
    requires
        m.current == State::HalfOpen,
        m.success_count == 0,
        0 < ops.len() <= config.success_threshold,
        forall|i: int| 0 <= i < ops.len() ==> ops[i] is Success,
    ensures
        ops.len() < config.success_threshold ==> {
            &&& m.run(config, ops).current == State::HalfOpen
            &&& m.run(config, ops).success_count == ops.len()
            &&& m.run(config, ops).window == m.window
            &&& m.all_reports(config, ops) == Seq::<(State, State)>::empty()
        },
        ops.len() == config.success_threshold ==> {
            &&& m.run(config, ops).current == State::Closed
            &&& m.run(config, ops).window.len() == 0
            &&& m.run(config, ops).failure_count == 0
            &&& m.run(config, ops).attempts == 0
            &&& m.all_reports(config, ops) == seq![(State::HalfOpen, State::Closed)]
        },
    decreases ops.len(),
{
    if ops.len() > 1 {
        law_probes_close_at_the_threshold(m, config, ops.drop_last());
    }
    assert(ops.last() is Success);
    assert(ops.drop_last().len() == 0 ==> m.run(config, ops.drop_last()) == m);
    assert(m.all_reports(config, ops.drop_last()) =~= Seq::<(State, State)>::empty());
}

/// An open circuit is never stuck: once its wait is over, as many successes as
/// the threshold asks for close it.
pub proof fn law_open_recovers(m: Machine, config: CircuitBreakerConfig, since: nat, ops: Seq<Op>)
    requires
        m.current == State::Open,
        m.open_since == Some(since),
        0 < ops.len() <= config.success_threshold,
        forall|i: int|
            0 <= i < ops.len() ==> (#[trigger] ops[i]) is Success && crate::state::elapsed(
                since,
                ops[i]->Success_now,
            ) >= m.wait,
    ensures
        ops.len() < config.success_threshold ==> {
            &&& m.run(config, ops).current == State::HalfOpen
            &&& m.run(config, ops).success_count == ops.len()
            &&& m.run(config, ops).window == m.window
            &&& m.all_reports(config, ops) == seq![(State::Open, State::HalfOpen)]
        },
        ops.len() == config.success_threshold ==> {
            &&& m.run(config, ops).current == State::Closed
            &&& m.run(config, ops).window.len() == 0
            &&& m.run(config, ops).failure_count == 0
            &&& m.run(config, ops).attempts == 0
            &&& m.all_reports(config, ops) == seq![
                (State::Open, State::HalfOpen),
                (State::HalfOpen, State::Closed),
            ]
        },
    decreases ops.len(),
{
    let before = ops.drop_last();
    assert forall|i: int| 0 <= i < before.len() implies (#[trigger] before[i]) is Success
        && crate::state::elapsed(since, before[i]->Success_now) >= m.wait by {
        assert(before[i] == ops[i]);
    }
    if ops.len() > 1 {
        law_open_recovers(m, config, since, before);
    }
    assert(ops.last() == ops[ops.len() - 1]);
    assert(before.len() == 0 ==> m.run(config, before) == m);
    assert(before.len() == 0 ==> m.all_reports(config, before) =~= Seq::<(State, State)>::empty());
}

/// The one way from half-open to closed that is not forced is a success that
/// reaches the threshold.
pub proof fn law_only_enough_successes_close(
    m: Machine,
    config: CircuitBreakerConfig,
    op: Op,
)
    requires
        m.current == State::HalfOpen,
        m.step(config, op).current == State::Closed,
    ensures
        op is Reset || (op is Success && m.success_count + 1 >= config.success_threshold),
{
}

/// A success in a closed circuit ends the streak and leaves the circuit closed.
pub proof fn law_success_ends_the_streak(m: Machine, config: CircuitBreakerConfig, now: nat)
    requires
        m.current == State::Closed,
    ensures
        m.with_success(config, now).current == State::Closed,
        m.with_success(config, now).failure_count == 0,
        m.success_report(config, now) is None,
{
}

/// With enough failures in a row the circuit is open, whatever the rate rule
/// says.
pub proof fn law_streak_trips(m: Machine, config: CircuitBreakerConfig, ops: Seq<Op>)
    requires
        m.current == State::Closed,
        config.consecutive_failures < u32::MAX,
        ops.len() >= config.consecutive_failures,
        ops.len() >= 1,
        forall|i: int| 0 <= i < ops.len() ==> ops[i] is Failure,
    ensures
        m.run(config, ops).current == State::Open,
{
    lemma_streak(m, config, ops);
}

proof fn lemma_streak(m: Machine, config: CircuitBreakerConfig, ops: Seq<Op>)
    requires
        m.current == State::Closed,
        config.consecutive_failures < u32::MAX,
        forall|i: int| 0 <= i < ops.len() ==> ops[i] is Failure,
    ensures
        ({
            let r = m.run(config, ops);
            ||| r.current == State::Open
            ||| r.current == State::Closed && r.failure_count == m.failure_count + ops.len() && (
            r.failure_count < config.consecutive_failures || ops.len() == 0)
        }),
    decreases ops.len(),
{
    if ops.len() > 0 {
        lemma_streak(m, config, ops.drop_last());
        assert(ops.last() is Failure);
    }
}

/// With the rate rule disabled, fewer failures in a row than the streak rule
/// asks for leave the circuit closed.
pub proof fn law_short_streak_stays_closed(m: Machine, config: CircuitBreakerConfig, ops: Seq<Op>)
    requires
        m.current == State::Closed,
        m.failure_count == 0,
        !config.failure_rate_threshold.positive_spec(),
        ops.len() < config.consecutive_failures < u32::MAX,
        forall|i: int| 0 <= i < ops.len() ==> ops[i] is Failure,
    ensures
        m.run(config, ops).current == State::Closed,
        m.run(config, ops).failure_count == ops.len(),
    decreases ops.len(),
{
    if ops.len() > 0 {
        law_short_streak_stays_closed(m, config, ops.drop_last());
        assert(ops.last() is Failure);
    }
}

/// A circuit that was never forced open leaves the closed state only after as
/// many failures as the streak rule asks for, when the rate rule is disabled.
pub proof fn law_open_needs_failures(config: CircuitBreakerConfig, wait: Nanos, ops: Seq<Op>)
    requires
        !config.failure_rate_threshold.positive_spec(),
        forall|i: int| 0 <= i < ops.len() ==> !(ops[i] is Trip),
    ensures
        ({
            let m = Machine::fresh(config, wait).run(config, ops);
            &&& m.failure_count <= m.total_failures
            &&& m.current != State::Closed ==> m.total_failures >= config.consecutive_failures
        }),
    decreases ops.len(),
{
    if ops.len() > 0 {
        law_open_needs_failures(config, wait, ops.drop_last());
        assert(!(ops.last() is Trip));
    }
}

/// With both rules disabled, a circuit that is never forced open stays closed.
pub proof fn law_disabled_rules_never_trip(config: CircuitBreakerConfig, wait: Nanos, ops: Seq<Op>)
    requires
        config.consecutive_failures == u32::MAX,
        !config.failure_rate_threshold.positive_spec(),
        forall|i: int| 0 <= i < ops.len() ==> !(ops[i] is Trip),
    ensures
        Machine::fresh(config, wait).run(config, ops).current == State::Closed,
    decreases ops.len(),
{
    if ops.len() > 0 {
        law_disabled_rules_never_trip(config, wait, ops.drop_last());
        assert(!(ops.last() is Trip));
    }
}

/// A circuit that was never forced open leaves the closed state only after a
/// failure.
pub proof fn law_open_needs_a_failure(config: CircuitBreakerConfig, wait: Nanos, ops: Seq<Op>)
    requires
        forall|i: int| 0 <= i < ops.len() ==> !(ops[i] is Trip),
    ensures
        ({
            let m = Machine::fresh(config, wait).run(config, ops);
            m.current != State::Closed ==> m.total_failures >= 1
        }),
    decreases ops.len(),
{
    if ops.len() > 0 {
        law_open_needs_a_failure(config, wait, ops.drop_last());
        assert(!(ops.last() is Trip));
    }
}

/// A circuit that has not tripped is short of the streak rule, and one that is not
/// closed has no streak.
pub proof fn law_streak_stays_below_the_threshold(
    config: CircuitBreakerConfig,
    wait: Nanos,
    ops: Seq<Op>,
)
    requires
        1 <= config.consecutive_failures < u32::MAX,
    ensures
        ({
            let m = Machine::fresh(config, wait).run(config, ops);
            &&& m.failure_count < config.consecutive_failures
            &&& m.current != State::Closed ==> m.failure_count == 0
        }),
    decreases ops.len(),
{
    if ops.len() > 0 {
        law_streak_stays_below_the_threshold(config, wait, ops.drop_last());
    }
}

/// The failures recorded since the latest of construction, the last success and the
/// last transition.
pub open spec fn failures_in_a_row(
    config: CircuitBreakerConfig,
    wait: Nanos,
    ops: Seq<Op>,
) -> nat
    decreases ops.len(),
{
    if ops.len() == 0 {
        0
    } else {
        let m = Machine::fresh(config, wait).run(config, ops.drop_last());
        if ops.last() is Success || m.step(config, ops.last()).transitions > m.transitions {
            0
        } else if ops.last() is Failure {
            failures_in_a_row(config, wait, ops.drop_last()) + 1
        } else {
            failures_in_a_row(config, wait, ops.drop_last())
        }
    }
}

/// The streak of a closed circuit is exactly the number of failures since the latest
/// of construction, the last success and the last transition; any other circuit has
/// none. The streak rule keeps the count below its limit, and so does a short enough
/// history.
pub proof fn law_streak_counts_failures_in_a_row(
    config: CircuitBreakerConfig,
    wait: Nanos,
    ops: Seq<Op>,
)
    requires
        config.consecutive_failures < u32::MAX || ops.len() < u32::MAX,
    ensures
        Machine::fresh(config, wait).run(config, ops).failure_count == if Machine::fresh(
            config,
            wait,
        ).run(config, ops).current == State::Closed {
            failures_in_a_row(config, wait, ops)
        } else {
            0
        },
    decreases ops.len(),
{
    if ops.len() > 0 {
        law_streak_counts_failures_in_a_row(config, wait, ops.drop_last());
        lemma_streak_bound(config, wait, ops.drop_last());
    }
}

proof fn lemma_streak_bound(config: CircuitBreakerConfig, wait: Nanos, ops: Seq<Op>)
    ensures
        ({
            let m = Machine::fresh(config, wait).run(config, ops);
            &&& m.failure_count <= ops.len()
            &&& config.consecutive_failures < u32::MAX ==> m.failure_count == 0 || m.failure_count
                < config.consecutive_failures
        }),
    decreases ops.len(),
{
    if ops.len() > 0 {
        lemma_streak_bound(config, wait, ops.drop_last());
    }
}

/// A circuit knows when it opened exactly while it is open.
pub proof fn law_open_knows_since_when(config: CircuitBreakerConfig, wait: Nanos, ops: Seq<Op>)
    ensures
        ({
            let m = Machine::fresh(config, wait).run(config, ops);
            m.current == State::Open <==> m.open_since is Some
        }),
    decreases ops.len(),
{
    if ops.len() > 0 {
        law_open_knows_since_when(config, wait, ops.drop_last());
    }
}

/// As many failures as the streak rule asks for, in whatever order they arrive,
/// trip the circuit exactly once, and one transition is reported. All of them count,
/// and nothing else does: the lifetime failure rate is one.
pub proof fn law_failures_trip_once(
    config: CircuitBreakerConfig,
    wait: Nanos,
    ops: Seq<Op>,
)
    requires
        !config.failure_rate_threshold.positive_spec(),
        1 <= config.consecutive_failures < u32::MAX,
        ops.len() == config.consecutive_failures,
        forall|i: int| 0 <= i < ops.len() ==> ops[i] is Failure,
    ensures
        ({
            let m = Machine::fresh(config, wait).run(config, ops);
            &&& m.current == State::Open
            &&& m.transitions == 1
            &&& m.total_failures == ops.len()
            &&& m.total_successes == 0
            &&& m.lifetime_rate() == (Binary64 { bits: crate::binary::ONE_64 })
            &&& Machine::fresh(config, wait).all_reports(config, ops) == seq![
                (State::Closed, State::Open),
            ]
        }),
{
    let fresh = Machine::fresh(config, wait);
    let before = ops.drop_last();
    law_short_streak_stays_closed(fresh, config, before);
    lemma_closed_run_counts_nothing(fresh, config, before);
    law_no_outcome_is_lost(fresh, config, ops);
    lemma_all_failures(ops);
    assert(ops.last() is Failure);
    rounding::lemma_quotient_of_itself(53, 1074, ops.len());
    crate::binary::lemma_one_64();
}

proof fn lemma_closed_run_counts_nothing(m: Machine, config: CircuitBreakerConfig, ops: Seq<Op>)
    requires
        m.current == State::Closed,
        m.failure_count == 0,
        !config.failure_rate_threshold.positive_spec(),
        ops.len() < config.consecutive_failures < u32::MAX,
        forall|i: int| 0 <= i < ops.len() ==> ops[i] is Failure,
    ensures
        m.run(config, ops).transitions == m.transitions,
        m.all_reports(config, ops) == Seq::<(State, State)>::empty(),
    decreases ops.len(),
{
    if ops.len() > 0 {
        law_short_streak_stays_closed(m, config, ops.drop_last());
        lemma_closed_run_counts_nothing(m, config, ops.drop_last());
        assert(ops.last() is Failure);
    }
}

proof fn lemma_all_failures(ops: Seq<Op>)
    requires
        forall|i: int| 0 <= i < ops.len() ==> ops[i] is Failure,
    ensures
        failures(ops) == ops.len(),
        successes(ops) == 0,
    decreases ops.len(),
{
    if ops.len() > 0 {
        lemma_all_failures(ops.drop_last());
        assert(ops.last() is Failure);
    }
}

/// A forced trip and a success that race on a closed circuit end the same in
/// either order, as long as the success comes before the wait is over: open,
/// with one transition, the success counted.
pub proof fn law_trip_and_success_serialize(
    config: CircuitBreakerConfig,
    wait: Nanos,
    opened: nat,
    recorded: nat,
    trip_wait: Nanos,
)
    requires
        recorded < opened + trip_wait,
        trip_wait > 0,
    ensures
        ({
            let fresh = Machine::fresh(config, wait);
            let trip = Op::Trip { now: opened, wait: trip_wait };
            let success = Op::Success { now: recorded };
            let a = fresh.step(config, trip).step(config, success);
            let b = fresh.step(config, success).step(config, trip);
            &&& a.current == State::Open && b.current == State::Open
            &&& a.transitions == 1 && b.transitions == 1
            &&& a.total_successes == 1 && b.total_successes == 1
            &&& a.total_failures == 0 && b.total_failures == 0
        }),
{
}

/// Every trip counts one attempt more, up to the limit of the counter, closing
/// clears the attempts, and nothing else changes them.
pub proof fn law_attempts_count_trips(m: Machine, config: CircuitBreakerConfig, op: Op)
    ensures
        ({
            let r = m.step(config, op);
            let trips = match op {
                Op::Success { .. } => false,
                Op::Failure { now, .. } => m.failure_trips(config, now),
                Op::Trip { .. } => true,
                Op::Reset { .. } => false,
            };
            let closes = match op {
                Op::Success { now } => m.success_report(config, now) is Some,
                Op::Failure { .. } => false,
                Op::Trip { .. } => false,
                Op::Reset { .. } => true,
            };
            r.attempts == if trips {
                m.next_attempt()
            } else if closes {
                0
            } else {
                m.attempts
            }
        }),
{
}

/// A reset leaves a circuit that reads as closed at all times, with an empty
/// window, no streak and no attempts.
pub proof fn law_reset_starts_over(
    m: Machine,
    config: CircuitBreakerConfig,
    reset: nat,
    now: nat,
)
    ensures
        ({
            let r = m.step(config, Op::Reset { now: reset });
            &&& r.effective(now) == State::Closed
            &&& r.window == Seq::<bool>::empty()
            &&& r.failure_count == 0
            &&& r.attempts == 0
        }),
{
}

/// What one operation does, and what it reports, depends on the episode alone.
pub proof fn law_step_depends_on_the_episode(
    a: Machine,
    b: Machine,
    config: CircuitBreakerConfig,
    op: Op,
)
    requires
        a.episode() == b.episode(),
    ensures
        a.step(config, op).episode() == b.step(config, op).episode(),
        a.reports(config, op) == b.reports(config, op),
{
    assert(a.capacity == b.capacity && a.window == b.window && a.failure_count == b.failure_count
        && a.success_count == b.success_count && a.current == b.current && a.open_since
        == b.open_since && a.attempts == b.attempts) by {
        assert(a.episode().capacity == b.episode().capacity);
        assert(a.episode().window == b.episode().window);
        assert(a.episode().current == b.episode().current);
    }
    assert(a.current == State::Open ==> a.wait == b.wait) by {
        assert(a.episode().wait == b.episode().wait);
    }
}

/// What a series of operations does, and what it reports, depends on the episode
/// alone.
pub proof fn law_run_depends_on_the_episode(
    a: Machine,
    b: Machine,
    config: CircuitBreakerConfig,
    ops: Seq<Op>,
)
    requires
        a.episode() == b.episode(),
    ensures
        a.run(config, ops).episode() == b.run(config, ops).episode(),
        a.all_reports(config, ops) == b.all_reports(config, ops),
    decreases ops.len(),
{
    if ops.len() > 0 {
        let before = ops.drop_last();
        law_run_depends_on_the_episode(a, b, config, before);
        law_step_depends_on_the_episode(
            a.run(config, before),
            b.run(config, before),
            config,
            ops.last(),
        );
    }
}

/// A circuit that closes, by a reset or by recovery, goes on as a fresh one does:
/// whatever follows makes of both the same but for the lifetime counters, and
/// reports the same.
pub proof fn law_closing_starts_afresh(
    m: Machine,
    config: CircuitBreakerConfig,
    wait: Nanos,
    closing: Op,
    ops: Seq<Op>,
)
    requires
        m.capacity == Machine::fresh(config, wait).capacity,
        closing is Reset || (closing is Success && m.reports(config, closing).len() > 0
            && m.step(config, closing).current == State::Closed),
    ensures
        ({
            let fresh = Machine::fresh(config, wait);
            let closed = m.step(config, closing);
            &&& closed.run(config, ops).episode() == fresh.run(config, ops).episode()
            &&& closed.all_reports(config, ops) == fresh.all_reports(config, ops)
        }),
{
    let closed = m.step(config, closing);
    let fresh = Machine::fresh(config, wait);
    assert(closed.episode() == fresh.episode());
    law_run_depends_on_the_episode(closed, fresh, config, ops);
}

/// The window after a series of outcomes.
pub open spec fn slide_all(capacity: nat, outcomes: Seq<bool>) -> Seq<bool>
    decreases outcomes.len(),
{
    if outcomes.len() == 0 {
        Seq::empty()
    } else {
        window::slide(capacity, slide_all(capacity, outcomes.drop_last()), outcomes.last())
    }
}

/// A window holds the most recent outcomes, in order: all of them until it is
/// full, then as many as it can hold.
pub proof fn law_window_holds_the_most_recent(capacity: nat, outcomes: Seq<bool>)
    requires
        capacity >= 1,
    ensures
        slide_all(capacity, outcomes) == outcomes.skip(
            if outcomes.len() <= capacity {
                0
            } else {
                outcomes.len() - capacity
            },
        ),
    decreases outcomes.len(),
{
    if outcomes.len() > 0 {
        let before = outcomes.drop_last();
        law_window_holds_the_most_recent(capacity, before);
        let kept = slide_all(capacity, before);
        if outcomes.len() <= capacity {
            assert(kept.push(outcomes.last()) =~= outcomes.skip(0));
        } else {
            assert(kept.drop_first().push(outcomes.last()) =~= outcomes.skip(
                outcomes.len() - capacity,
            ));
        }
    } else {
        assert(outcomes.skip(0) =~= Seq::<bool>::empty());
    }
}

/// Until a circuit makes its first transition, its window holds the most recent
/// outcomes recorded: as many as it has room for.
pub proof fn law_closed_window_holds_recent_outcomes(
    config: CircuitBreakerConfig,
    wait: Nanos,
    ops: Seq<Op>,
)
    requires
        Machine::fresh(config, wait).run(config, ops).transitions == 0,
    ensures
        ({
            let fresh = Machine::fresh(config, wait);
            let failed = ops.map_values(|op: Op| op is Failure);
            &&& fresh.run(config, ops).current == State::Closed
            &&& fresh.run(config, ops).window == slide_all(fresh.capacity, failed)
        }),
    decreases ops.len(),
{
    let fresh = Machine::fresh(config, wait);
    let failed = ops.map_values(|op: Op| op is Failure);
    if ops.len() > 0 {
        let before = ops.drop_last();
        law_counters_never_decrease(fresh.run(config, before), config, ops.last());
        law_closed_window_holds_recent_outcomes(config, wait, before);
        law_window_never_overflows(config, wait, before);
        assert(failed.drop_last() =~= before.map_values(|op: Op| op is Failure));
    }
}

/// The outcomes that a circuit has assessed since it last closed, or since it was
/// made: those recorded while it was closed.
pub open spec fn assessed(config: CircuitBreakerConfig, wait: Nanos, ops: Seq<Op>) -> Seq<bool>
    decreases ops.len(),
{
    if ops.len() == 0 {
        Seq::empty()
    } else {
        let m = Machine::fresh(config, wait).run(config, ops.drop_last());
        let earlier = assessed(config, wait, ops.drop_last());
        match ops.last() {
            Op::Success { now } => if m.current == State::Closed {
                earlier.push(false)
            } else if m.success_report(config, now) is Some {
                Seq::empty()
            } else {
                earlier
            },
            Op::Failure { .. } => if m.current == State::Closed {
                earlier.push(true)
            } else {
                earlier
            },
            Op::Trip { .. } => earlier,
            Op::Reset { .. } => Seq::empty(),
        }
    }
}

/// However a circuit was used, its window holds the most recent of the outcomes
/// assessed since it last closed: as many as it has room for.
pub proof fn law_window_holds_the_assessed_outcomes(
    config: CircuitBreakerConfig,
    wait: Nanos,
    ops: Seq<Op>,
)
    ensures
        ({
            let m = Machine::fresh(config, wait).run(config, ops);
            let all = assessed(config, wait, ops);
            &&& m.window == slide_all(m.capacity, all)
            &&& m.window == all.skip(
                if all.len() <= m.capacity {
                    0
                } else {
                    all.len() - m.capacity
                },
            )
        }),
    decreases ops.len(),
{
    let fresh = Machine::fresh(config, wait);
    let all = assessed(config, wait, ops);
    law_window_never_overflows(config, wait, ops);
    if ops.len() > 0 {
        let before = ops.drop_last();
        law_window_never_overflows(config, wait, before);
        law_window_holds_the_assessed_outcomes(config, wait, before);
        let earlier = assessed(config, wait, before);
        assert(earlier.push(true).drop_last() =~= earlier);
        assert(earlier.push(false).drop_last() =~= earlier);
    }
    law_window_holds_the_most_recent(fresh.capacity, all);
}

/// The failure fraction of a window is a number from zero to one.
pub proof fn law_rate_is_a_fraction(outcomes: Seq<bool>)
    ensures
        window::rate_of(outcomes).bits <= crate::binary::ONE_32,
        outcomes.len() > 0 ==> window::rate_of(outcomes).bits == Binary32::ratio_spec(
            window::failures_in(outcomes),
            outcomes.len(),
        ),
{
    if outcomes.len() > 0 {
        window::lemma_failures_at_most_len(outcomes);
        crate::binary::lemma_one_32();
        rounding::lemma_quotient_at_most_one(
            24,
            149,
            window::failures_in(outcomes),
            outcomes.len(),
        );
    }
}

/// The lifetime failure rate is a number from
/// zero to one.
pub proof fn law_lifetime_rate_is_a_fraction(m: Machine)
    ensures
        m.lifetime_rate().bits <= crate::binary::ONE_64,
{
    let total = m.total_successes + m.total_failures;
    if total > 0 {
        crate::binary::lemma_one_64();
        rounding::lemma_quotient_at_most_one(53, 1074, m.total_failures, total);
    }
}

/// Recording a success never raises the failure fraction of the window.
pub proof fn law_success_never_raises_the_rate(capacity: nat, outcomes: Seq<bool>)
    requires
        capacity >= 1,
        outcomes.len() <= capacity,
    ensures
        window::rate_of(window::slide(capacity, outcomes, false)).bits <= window::rate_of(
            outcomes,
        ).bits,
{
    let next = window::slide(capacity, outcomes, false);
    law_rate_is_a_fraction(outcomes);
    law_rate_is_a_fraction(next);
    if outcomes.len() == 0 {
        assert(next =~= seq![false]);
        assert(next.drop_last() =~= Seq::<bool>::empty());
        assert(window::failures_in(next) == 0) by {
            reveal_with_fuel(window::failures_in, 2);
        }
        lemma2_to64();
        rounding::lemma_quotient_rounds_once(24, 149, 0, 1);
        rounding::lemma_nearest_zero(24, 149, 1);
    } else {
        if outcomes.len() >= capacity {
            window::lemma_failures_drop_first(outcomes);
            assert(next.drop_last() =~= outcomes.drop_first());
        } else {
            assert(next.drop_last() =~= outcomes);
        }
        rounding::lemma_quotient_monotone(
            24,
            149,
            window::failures_in(next),
            next.len(),
            window::failures_in(outcomes),
            outcomes.len(),
        );
    }
}

/// Recording a success never raises the failure fraction of the circuit's window,
/// in whatever state the circuit is, and never trips the circuit.
pub proof fn law_success_never_trips(m: Machine, config: CircuitBreakerConfig, now: nat)
    requires
        m.wf(),
    ensures
        window::rate_of(m.with_success(config, now).window).bits <= window::rate_of(m.window).bits,
        m.success_report(config, now) is Some ==> m.success_report(config, now)->0 == (
            State::HalfOpen,
            State::Closed,
        ),
{
    law_success_never_raises_the_rate(m.capacity, m.window);
}

/// In windows of at most 2^24 outcomes the failure fraction, as the rate rule
/// sees it, reaches a threshold whenever the exact fraction does; otherwise it
/// reaches it only where the threshold is the 32-bit number that the exact
/// fraction rounds to.
pub proof fn law_rate_reaches_the_threshold(outcomes: Seq<bool>, threshold: Binary32)
    requires
        0 < outcomes.len() <= 0x100_0000,
        0 < threshold.bits < 0x7f80_0000,
    ensures
        ({
            let failed = window::failures_in(outcomes);
            let reached = rounding::scaled(24, threshold.bits as nat) * outcomes.len() <= failed
                * pow2(149);
            let rounded = rounding::nearest(24, 149, failed, outcomes.len());
            window::rate_of(outcomes).at_least_spec(threshold) <==> reached || rounded
                == threshold.bits
        }),
{
    let failed = window::failures_in(outcomes);
    window::lemma_failures_at_most_len(outcomes);
    lemma2_to64();
    law_rate_is_a_fraction(outcomes);
    rounding::lemma_quotient_rounds_once(24, 149, failed, outcomes.len());
    rounding::lemma_nearest_against(24, 149, failed, outcomes.len(), threshold.bits as nat);
}

/// With the rate evaluated from the first outcome on, the first failure of a
/// fresh circuit trips it at any threshold of at most one.
pub proof fn law_early_warning_trips_on_the_first_failure(
    config: CircuitBreakerConfig,
    wait: Nanos,
    now: nat,
)
    requires
        config.minimum_calls <= 1,
        0 < config.failure_rate_threshold.bits <= crate::binary::ONE_32,
    ensures
        Machine::fresh(config, wait).failure_trips(config, now),
{
    let m = Machine::fresh(config, wait).noted(true);
    assert(m.window =~= seq![true]);
    assert(m.window.drop_last() =~= Seq::<bool>::empty());
    assert(window::failures_in(m.window) == 1) by {
        reveal_with_fuel(window::failures_in, 2);
    }
    lemma2_to64();
    rounding::lemma_quotient_rounds_once(24, 149, 1, 1);
    crate::binary::lemma_one_32();
}

/// What the builder makes is always in range.
pub proof fn law_built_configuration_is_in_range(settings: Settings)
    ensures
        ({
            let c = settings.config();
            &&& c.consecutive_failures >= 1
            &&& c.sliding_window_size >= 1
            &&& 1 <= c.minimum_calls <= c.sliding_window_size
            &&& c.half_open_max_calls >= 1
            &&& c.success_threshold >= 1
            &&& c.failure_rate_threshold.rank() is Some
            &&& 0 <= c.failure_rate_threshold.rank()->0 <= crate::binary::ONE_32
        }),
{
}

/// One event in the life of a counter of probe permits.
pub enum Use<'a> {
    /// A permit was taken.
    Taken(HalfOpenPermit<'a>),
    /// A permit was asked for, and `in_use` were found in use.
    Refused {
        /// The count found.
        in_use: usize,
    },
    /// A permit was given back.
    Returned,
}

/// How many permits are in use after a series of events.
pub open spec fn in_use(history: Seq<Use<'_>>) -> int
    decreases history.len(),
{
    if history.len() == 0 {
        0
    } else {
        in_use(history.drop_last()) + match history.last() {
            Use::Taken(_) => 1int,
            Use::Refused { .. } => 0,
            Use::Returned => -1,
        }
    }
}

/// The events are those of one atomic counter that starts at zero: each found the
/// count that those before it had left, and only permits in use were given back.
pub open spec fn of_one_counter(history: Seq<Use<'_>>) -> bool
    decreases history.len(),
{
    history.len() == 0 || {
        &&& of_one_counter(history.drop_last())
        &&& match history.last() {
            Use::Taken(permit) => permit.before() == in_use(history.drop_last()),
            Use::Refused { in_use: found } => found == in_use(history.drop_last()),
            Use::Returned => in_use(history.drop_last()) > 0,
        }
    }
}

/// Every event is one that asking for a permit under `limit` can give.
pub open spec fn asked_under(limit: nat, history: Seq<Use<'_>>) -> bool {
    forall|i: int|
        0 <= i < history.len() ==> match #[trigger] history[i] {
            Use::Taken(permit) => permit.limit() == limit && permit.before() < permit.limit(),
            Use::Refused { in_use: found } => found >= limit,
            Use::Returned => true,
        }
}

/// However permits are asked for and given back, never more are in use than the
/// limit allows.
pub proof fn law_permits_never_exceed_the_limit(limit: nat, history: Seq<Use<'_>>)
    requires
        of_one_counter(history),
        asked_under(limit, history),
    ensures
        0 <= in_use(history) <= limit,
    decreases history.len(),
{
    if history.len() > 0 {
        assert forall|i: int| 0 <= i < history.drop_last().len() implies match
            #[trigger] history.drop_last()[i] {
            Use::Taken(permit) => permit.limit() == limit && permit.before() < permit.limit(),
            Use::Refused { in_use: found } => found >= limit,
            Use::Returned => true,
        } by {
            assert(history.drop_last()[i] == history[i]);
        }
        law_permits_never_exceed_the_limit(limit, history.drop_last());
        assert(history.last() == history[history.len() - 1]);
    }
}

/// A permit is refused only with exactly as many in use as the limit allows.
pub proof fn law_refusal_finds_all_permits_in_use(
    limit: nat,
    history: Seq<Use<'_>>,
    found: usize,
)
    requires
        of_one_counter(history.push((Use::Refused { in_use: found }))),
        asked_under(limit, history.push((Use::Refused { in_use: found }))),
    ensures
        in_use(history) == limit,
{
    let all = history.push((Use::Refused { in_use: found }));
    law_permits_never_exceed_the_limit(limit, all);
    assert(all.drop_last() =~= history);
    assert(all[all.len() - 1] == all.last());
}

/// A permit that is given back can be taken again.
pub proof fn law_returned_permit_is_free(limit: u32, history: Seq<Use<'_>>)
    requires
        of_one_counter(history.push(Use::Returned)),
        asked_under(limit as nat, history.push(Use::Returned)),
    ensures
        in_use(history.push(Use::Returned)) == in_use(history) - 1,
        crate::permit::one_more(
            in_use(history.push(Use::Returned)) as usize,
            limit as usize,
        ) is Some,
{
    let all = history.push(Use::Returned);
    assert(all.drop_last() =~= history);
    assert forall|i: int| 0 <= i < history.len() implies match #[trigger] history[i] {
        Use::Taken(permit) => permit.limit() == limit && permit.before() < permit.limit(),
        Use::Refused { in_use: found } => found >= limit,
        Use::Returned => true,
    } by {
        assert(history[i] == all[i]);
    }
    law_permits_never_exceed_the_limit(limit as nat, history);
}

/// An exponential wait starts at `initial`, or at `max` where that is shorter. It
/// never exceeds `max` and, with a factor of one or more, never falls below where it
/// started.
pub proof fn law_exponential_wait_is_bounded<G: Fn(Evaluation) -> Nanos>(
    initial: Nanos,
    max: Nanos,
    factor: Binary64,
    grow: G,
    attempt: nat,
    wait: Nanos,
)
    requires
        (BackoffStrategy::Exponential { initial, max, factor }).waits(grow, attempt, wait),
    ensures
        wait <= max,
        attempt <= 1 ==> wait == crate::backoff::shorter(initial, max),
        factor.at_least_one_spec() ==> crate::backoff::shorter(initial, max) <= wait,
{
}

/// A jittered wait never exceeds the exponential one it is drawn from, which is no
/// longer than `max`, and falls short of it by no more than its jittered share, to
/// the nanosecond. Without jitter it is that wait.
pub proof fn law_jitter_stays_within_the_wait<G: Fn(Evaluation) -> Nanos>(
    initial: Nanos,
    max: Nanos,
    factor: Binary64,
    jitter: Binary64,
    grow: G,
    attempt: nat,
    wait: Nanos,
)
    requires
        (BackoffStrategy::ExponentialJitter { initial, max, factor, jitter }).waits(
            grow,
            attempt,
            wait,
        ),
    ensures
        wait <= max,
        exists|base: Nanos|
            {
                &&& #[trigger] (BackoffStrategy::Exponential { initial, max, factor }).waits(
                    grow,
                    attempt,
                    base,
                )
                &&& wait <= base <= max
                &&& jitter.zero_spec() ==> wait == base
                &&& (wait + 1) * pow2(1074) >= base * (pow2(1074) - rounding::scaled(
                    53,
                    jitter.clamp_unit_spec().bits as nat,
                ))
            },
{
    let jittered = BackoffStrategy::ExponentialJitter { initial, max, factor, jitter };
    let plain = BackoffStrategy::Exponential { initial, max, factor };
    let base = choose|base: Nanos| #[trigger]
        jittered.growth_spec(attempt)->0.gives(grow, base) && crate::backoff::jitters(
            grow,
            base,
            jitter.clamp_unit_spec(),
            wait,
        );
    assert(plain.growth_spec(attempt) == jittered.growth_spec(attempt));
    assert(plain.waits(grow, attempt, base));
    let unit = jitter.clamp_unit_spec();
    let one = pow2(1074) as int;
    let part = rounding::scaled(53, unit.bits as nat) as int;
    let share = unit.share_spec(base) as int;
    lemma_pow2_pos(1074);
    if unit.zero_spec() {
        assert((wait + 1) * one >= base * (one - part)) by (nonlinear_arith)
            requires
                wait == base,
                one > 0,
                part >= 0,
        ;
    } else {
        vstd::arithmetic::div_mod::lemma_fundamental_div_mod(base * part, one);
        assert(share * one <= base * part) by (nonlinear_arith)
            requires
                base * part == one * share + (base * part) % one,
                (base * part) % one >= 0,
        ;
        assert((wait + 1) * one >= base * (one - part)) by (nonlinear_arith)
            requires
                wait + 1 >= base - share,
                share * one <= base * part,
                one > 0,
        ;
    }
}

/// Where powers grow with their exponent, as they do for a factor of one or more,
/// each trip waits at least as long as the trips before it, and the same attempt
/// always waits the same.
pub proof fn law_waits_grow_with_the_attempts<G: Fn(Evaluation) -> Nanos>(
    initial: Nanos,
    max: Nanos,
    factor: Binary64,
    grow: G,
    a: u32,
    b: u32,
    wait_a: Nanos,
    wait_b: Nanos,
)
    requires
        factor.at_least_one_spec(),
        forall|g: Growth, h: Growth, x: Nanos, y: Nanos|
            g.factor == factor && h == (Growth { exponent: h.exponent, ..g }) && g.exponent
                <= h.exponent && (#[trigger] call_ensures(grow, (Evaluation::Power(g),), x)) && (
            #[trigger] call_ensures(grow, (Evaluation::Power(h),), y)) ==> x <= y,
        a <= b,
        (BackoffStrategy::Exponential { initial, max, factor }).waits(grow, a as nat, wait_a),
        (BackoffStrategy::Exponential { initial, max, factor }).waits(grow, b as nat, wait_b),
    ensures
        wait_a <= wait_b,
        a == b ==> wait_a == wait_b,
{
}

/// Every further trip raises the growth factor to a power one higher.
pub proof fn law_exponent_counts_trips(attempt: nat)
    requires
        attempt >= 1,
    ensures
        crate::backoff::exponent_of(1) == 0,
        crate::backoff::exponent_of(attempt + 1) == crate::backoff::exponent_of(attempt) + 1,
{
}

/// The waits of a fixed backoff are the same at every attempt.
pub proof fn law_fixed_backoff_is_constant<G: Fn(Evaluation) -> Nanos>(
    wait: Nanos,
    grow: G,
    attempt: nat,
    got: Nanos,
)
    ensures
        BackoffStrategy::Fixed(wait).waits(grow, attempt, got) <==> got == wait,
{
}

}
