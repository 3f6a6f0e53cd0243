//! The shared circuit breaker.
//!
//! A breaker holds one [`StateMachine`] behind a lock and a counter of probe
//! permits beside it. Each operation locks the machine once, reads the clock
//! and applies one operation of the machine. What the machine holds at that
//! moment rests with every holder of the breaker. So the contracts here say
//! that the answer is that of one call of the machine's operation, made on what
//! the lock gave at a reading of the clock, and what holds whatever the machine
//! was; the machine's own contracts say what each operation does to it.
//!
//! Operations that move the circuit list the transitions they made, for the
//! caller to deliver to whoever watches the circuit.
use std::sync::atomic::AtomicUsize;
use std::sync::Arc;
use std::time::Instant;

use parking_lot::RwLock;
use vstd::prelude::*;

use crate::backoff::{Evaluation, Nanos};
use crate::binary::{Binary32, Binary64};
use crate::call::{CallEnd, Outcome};
use crate::config::CircuitBreakerConfig;
use crate::error::CircuitBreakerError;
use crate::lock::{content, content_mut, guard_new, guard_read, guard_write, nanos_since};
use crate::metrics::CircuitMetrics;
use crate::permit::HalfOpenPermit;
use crate::state::{CounterOverflow, Machine, Recorded, State, StateMachine};

verus! {

/// A finished call: what the caller gets, and what recording it did.
#[derive(Debug)]
pub struct Settled<T, E> {
    /// What the caller gets.
    pub reply: Result<T, CircuitBreakerError<E>>,
    /// What recording the end of the call did.
    pub recorded: Recorded,
}

/// Why a call was not let in.
#[derive(Debug, Clone, Copy, PartialEq, Eq, Structural)]
pub enum Refusal {
    /// The circuit is open.
    Open,
    /// The circuit is half-open and all probe permits are in use.
    Full {
        /// How many permits were in use.
        in_use: usize,
    },
}

impl Refusal {
    /// The error that the caller gets.
    pub open spec fn error_spec<E>(self) -> CircuitBreakerError<E> {
        match self {
            Refusal::Open => CircuitBreakerError::CircuitOpen,
            Refusal::Full { .. } => CircuitBreakerError::Rejected,
        }
    }

    /// The error that the caller gets.
    pub fn error<E>(self) -> (e: CircuitBreakerError<E>)
        ensures
            e == self.error_spec::<E>(),
    {
        match self {
            Refusal::Open => CircuitBreakerError::CircuitOpen,
            Refusal::Full { .. } => CircuitBreakerError::Rejected,
        }
    }
}

/// Lets a call in, or not. A closed circuit lets every call in and an open one
/// none; a half-open one lets in the calls that got a probe permit. `probe` is what
/// asking for a permit gave, which only a half-open circuit needs.
pub fn entry<'a>(state: State, probe: Option<Result<HalfOpenPermit<'a>, usize>>) -> (r: Result<
    Option<HalfOpenPermit<'a>>,
    Refusal,
>)
    requires
        state == State::HalfOpen ==> probe is Some,
    ensures
        r == entry_spec(state, probe),
{
    match state {
        State::Open => Err(Refusal::Open),
        State::HalfOpen => match probe.unwrap() {
            Ok(permit) => Ok(Some(permit)),
            Err(in_use) => Err(Refusal::Full { in_use }),
        },
        State::Closed => Ok(None),
    }
}

/// The answer to a call that finds the circuit in `state`.
pub open spec fn entry_spec<'a>(
    state: State,
    probe: Option<Result<HalfOpenPermit<'a>, usize>>,
) -> Result<Option<HalfOpenPermit<'a>>, Refusal> {
    match state {
        State::Open => Err(Refusal::Open),
        State::HalfOpen => match probe->0 {
            Ok(permit) => Ok(Some(permit)),
            Err(in_use) => Err(Refusal::Full { in_use }),
        },
        State::Closed => Ok(None),
    }
}

/// Answers a call that finds `machine` at time `now`: reads the state and, where the
/// circuit is half-open, asks for a probe permit under `limit`.
pub fn admission<'a>(
    machine: &StateMachine,
    now: Nanos,
    permits: &'a AtomicUsize,
    limit: u32,
) -> (r: Result<Option<HalfOpenPermit<'a>>, Refusal>)
    ensures
        match machine@.effective(now as nat) {
            State::Closed => r == Ok::<Option<HalfOpenPermit<'a>>, Refusal>(None),
            State::Open => r == Err::<Option<HalfOpenPermit<'a>>, Refusal>(Refusal::Open),
            State::HalfOpen => match r {
                Ok(Some(permit)) => permit.counter() == *permits && permit.limit() == limit
                    && permit.before() < limit,
                Err(Refusal::Full { in_use }) => in_use >= limit,
                _ => false,
            },
        },
        machine@.effective(now as nat) == State::HalfOpen ==> exists|
            probe: Result<HalfOpenPermit<'a>, usize>,
        |
            {
                &&& #[trigger] call_ensures(HalfOpenPermit::try_acquire, (permits, limit), probe)
                &&& r == entry_spec(State::HalfOpen, Some(probe))
            },
{
    let state = machine.current(now);
    let probe = if state.is_half_open() {
        Some(HalfOpenPermit::try_acquire(permits, limit))
    } else {
        None
    };
    entry(state, probe)
}

/// The reference is to a place that holds `value`.
spec fn refers_to<D>(place: &mut D, value: D) -> bool {
    *place == value
}

struct Inner<G> {
    name: String,
    config: CircuitBreakerConfig,
    /// Clock readings count from here.
    origin: Instant,
    state: RwLock<StateMachine>,
    /// Probe permits in use. Kept outside the lock: taking one needs no write
    /// access to the machine.
    half_open_permits: AtomicUsize,
    /// Evaluates exponential waits.
    grow: G,
}

/// A circuit breaker. Clones share one circuit.
pub struct CircuitBreaker<G: Fn(Evaluation) -> Nanos> {
    inner: Arc<Inner<G>>,
}

impl<G: Fn(Evaluation) -> Nanos> Clone for CircuitBreaker<G> {
    /// Another handle on the same circuit.
    fn clone(&self) -> (b: Self)
        ensures
            b == *self,
    {
        proof {
            use_type_invariant(self);
        }
        CircuitBreaker { inner: self.inner.clone() }
    }
}

impl<G: Fn(Evaluation) -> Nanos> CircuitBreaker<G> {
    #[verifier::type_invariant]
    spec fn inv(self) -> bool {
        forall|e: Evaluation| call_requires(self.inner.grow, (e,))
    }

    /// The name given to the breaker.
    pub closed spec fn name_spec(self) -> Seq<char> {
        self.inner.name@
    }

    /// The configuration of the breaker.
    pub closed spec fn config_spec(self) -> CircuitBreakerConfig {
        self.inner.config
    }

    /// The evaluator of the breaker.
    pub closed spec fn grow_spec(self) -> G {
        self.inner.grow
    }

    /// The counter of probe permits of the breaker.
    pub closed spec fn permits_spec(self) -> AtomicUsize {
        self.inner.half_open_permits
    }

    /// The reading of the clock that the breaker counts from.
    pub closed spec fn origin_spec(self) -> Instant {
        self.inner.origin
    }

    /// Whether `now` is a reading of the clock, counted from when the breaker was
    /// made.
    pub closed spec fn clock_reads(self, now: Nanos) -> bool {
        call_ensures(nanos_since, (&self.inner.origin,), now)
    }

    /// Whether `machine` is what a reader found in the lock.
    pub closed spec fn lock_holds(self, machine: StateMachine) -> bool {
        exists|guard|
            {
                &&& #[trigger] call_ensures(guard_read::<StateMachine>, (&self.inner.state,), guard)
                &&& call_ensures(content, (&guard,), &machine)
            }
    }

    /// Whether `machine` is what a writer got from the lock, to change in place.
    pub closed spec fn lock_lends(self, machine: &mut StateMachine) -> bool {
        exists|guard, held: &mut _|
            {
                &&& #[trigger] call_ensures(guard_write::<StateMachine>, (&self.inner.state,), guard)
                &&& refers_to(held, guard)
                &&& #[trigger] call_ensures(content_mut, (held,), machine)
            }
    }

    /// Whether the breaker was made around `machine`, with no permit in use and its
    /// clock counted from then.
    pub closed spec fn starts_with(self, machine: StateMachine) -> bool {
        &&& call_ensures(guard_new::<StateMachine>, (machine,), self.inner.state)
        &&& call_ensures(AtomicUsize::new, (0usize,), self.inner.half_open_permits)
        &&& call_ensures(Instant::now, (), self.inner.origin)
    }

    /// The breaker is a new one: it was made around a closed machine with an empty
    /// window.
    pub open spec fn is_new(self) -> bool {
        exists|machine: StateMachine|
            {
                &&& #[trigger] self.starts_with(machine)
                &&& machine@ == Machine::fresh(self.config_spec(), machine@.wait)
                &&& self.config_spec().backoff.waits(self.grow_spec(), 1, machine@.wait)
            }
    }

    /// A closed breaker with the name "default". `grow` evaluates exponential
    /// waits. It runs while the circuit is locked, so it must not use the breaker:
    /// that would wait for the lock forever.
    pub fn new(config: CircuitBreakerConfig, grow: G) -> (b: Self)
        requires
            forall|e: Evaluation| call_requires(grow, (e,)),
        ensures
            b.name_spec() == "default"@,
            b.config_spec() == config,
            b.grow_spec() == grow,
            b.is_new(),
    {
        Self::builder(config, grow).build()
    }

    /// A builder for a breaker with the name "default". `grow` evaluates exponential
    /// waits. It runs while the circuit is locked, so it must not use the breaker:
    /// that would wait for the lock forever.
    pub fn builder(config: CircuitBreakerConfig, grow: G) -> (b: CircuitBreakerBuilder<G>)
        ensures
            b.name_spec() == "default"@,
            b.config_spec() == config,
            b.grow_spec() == grow,
    {
        CircuitBreakerBuilder { name: "default".to_owned(), config, grow }
    }

    /// The name of this breaker.
    pub fn name(&self) -> (name: &str)
        ensures
            name@ == self.name_spec(),
    {
        self.inner.name.as_str()
    }

    /// The configuration of this breaker.
    pub fn config(&self) -> (config: &CircuitBreakerConfig)
        ensures
            *config == self.config_spec(),
    {
        &self.inner.config
    }

    fn now(&self) -> (now: Nanos)
        ensures
            self.clock_reads(now),
    {
        nanos_since(&self.inner.origin)
    }

    /// The current state of the circuit.
    pub fn state(&self) -> (state: State)
        ensures
            exists|m: Machine, now: nat| m.wf() && state == #[trigger] m.effective(now),
            exists|machine: StateMachine, now: Nanos|
                {
                    &&& self.lock_holds(machine)
                    &&& self.clock_reads(now)
                    &&& #[trigger] call_ensures(StateMachine::current, (&machine, now), state)
                },
    {
        let guard = guard_read(&self.inner.state);
        let machine: &StateMachine = content(&guard);
        assert(self.lock_holds(*machine));
        machine.current(self.now())
    }

    /// Whether the circuit is open.
    pub fn is_open(&self) -> (b: bool)
        ensures
            exists|state: State|
                {
                    &&& #[trigger] call_ensures(CircuitBreaker::<G>::state, (self,), state)
                    &&& b == (state == State::Open)
                },
    {
        self.state().is_open()
    }

    /// Whether the circuit is closed.
    pub fn is_closed(&self) -> (b: bool)
        ensures
            exists|state: State|
                {
                    &&& #[trigger] call_ensures(CircuitBreaker::<G>::state, (self,), state)
                    &&& b == (state == State::Closed)
                },
    {
        self.state().is_closed()
    }

    /// Whether the circuit is half-open.
    pub fn is_half_open(&self) -> (b: bool)
        ensures
            exists|state: State|
                {
                    &&& #[trigger] call_ensures(CircuitBreaker::<G>::state, (self,), state)
                    &&& b == (state == State::HalfOpen)
                },
    {
        self.state().is_half_open()
    }

    /// Asks to run a call. In a half-open circuit the answer holds the probe
    /// permit, taken below the configured limit, which the call keeps until it has
    /// ended. A half-open circuit turns the call away only with at least as many
    /// permits in use as the limit allows.
    pub fn try_enter<'a>(&'a self) -> (r: Result<Option<HalfOpenPermit<'a>>, Refusal>)
        ensures
            match r {
                Ok(Some(permit)) => permit.counter() == self.permits_spec() && permit.limit()
                    == self.config_spec().half_open_max_calls && permit.before() < permit.limit(),
                Ok(None) => true,
                Err(Refusal::Open) => true,
                Err(Refusal::Full { in_use }) => in_use >= self.config_spec().half_open_max_calls,
            },
            exists|machine: StateMachine, now: Nanos|
                {
                    &&& self.lock_holds(machine)
                    &&& self.clock_reads(now)
                    &&& #[trigger] call_ensures(
                        admission,
                        (
                            &machine,
                            now,
                            &self.permits_spec(),
                            self.config_spec().half_open_max_calls,
                        ),
                        r,
                    )
                },
    {
        let guard = guard_read(&self.inner.state);
        let machine: &StateMachine = content(&guard);
        assert(self.lock_holds(*machine));
        let now: Nanos = self.now();
        let r = admission(
            machine,
            now,
            &self.inner.half_open_permits,
            self.inner.config.half_open_max_calls,
        );
        assert(call_ensures(
            admission,
            (machine, now, &self.permits_spec(), self.config_spec().half_open_max_calls),
            r,
        ));
        r
    }

    /// Asks to run a call, as [`try_enter`](Self::try_enter) does, and answers with
    /// the error that the caller gets.
    pub fn enter<'a, E>(&'a self) -> (r: Result<
        Option<HalfOpenPermit<'a>>,
        CircuitBreakerError<E>,
    >)
        ensures
            r is Ok && r->Ok_0 is Some ==> r->Ok_0->0.limit()
                == self.config_spec().half_open_max_calls && r->Ok_0->0.before()
                < r->Ok_0->0.limit(),
            exists|answer: Result<Option<HalfOpenPermit<'a>>, Refusal>|
                {
                    &&& #[trigger] call_ensures(CircuitBreaker::<G>::try_enter, (self,), answer)
                    &&& r == match answer {
                        Ok(permit) => Ok(permit),
                        Err(refusal) => Err(refusal.error_spec::<E>()),
                    }
                },
    {
        match self.try_enter() {
            Ok(permit) => Ok(permit),
            Err(refusal) => Err(refusal.error()),
        }
    }

    /// Ends an admitted call: records what its end means for the circuit, and
    /// gives what the caller gets. The circuit stays locked until both are done, so
    /// that nothing comes in between.
    pub fn settle<T, E>(&self, end: CallEnd<T, E>) -> (r: Settled<T, E>)
        ensures
            r.reply == end.reply_spec(),
            self.recorded_spec(end.outcome_spec(), r.recorded),
            end.outcome_spec() == Outcome::Uncounted ==> r.recorded is Ok
                && r.recorded->Ok_0@.len() == 0,
            end.outcome_spec() != Outcome::Uncounted ==> exists|
                lent: &mut StateMachine,
                machine: &mut StateMachine,
                now: Nanos,
            |
                {
                    &&& #[trigger] self.lock_lends(lent)
                    &&& *lent == *machine
                    &&& *final(lent) == *final(machine)
                    &&& self.clock_reads(now)
                    &&& #[trigger] call_ensures(
                        StateMachine::try_record::<G>,
                        (machine, end.outcome_spec(), &self.config_spec(), now, &self.grow_spec()),
                        r.recorded,
                    )
                },
    {
        proof {
            use_type_invariant(self);
        }
        let outcome = end.outcome();
        if let Outcome::Uncounted = outcome {
            let recorded = self.record(outcome);
            return Settled { reply: end.reply(), recorded };
        }
        let mut guard = guard_write(&self.inner.state);
        let now: Nanos = self.now();
        let machine: &mut StateMachine = content_mut(&mut guard);
        assert(self.lock_lends(machine));
        let ghost before = machine@;
        assert(self.config_spec() == self.inner.config && self.grow_spec() == self.inner.grow);
        let recorded = machine.try_record(outcome, &self.inner.config, now, &self.inner.grow);
        proof {
            assert(recorded is Err ==> !before.has_room(outcome, self.config_spec(), now as nat));
            assert(recorded is Ok ==> recorded->Ok_0@ == before.moves(
                outcome,
                self.config_spec(),
                now as nat,
            ));
        }
        Settled { reply: end.reply(), recorded }
    }

    /// What recording an outcome can have answered, whatever the circuit was like.
    pub open spec fn recorded_spec(self, outcome: Outcome, recorded: Recorded) -> bool {
        match recorded {
            Ok(moves) => exists|m: Machine, now: nat|
                m.wf() && moves@ == #[trigger] m.moves(outcome, self.config_spec(), now),
            Err(_) => exists|m: Machine, now: nat|
                m.wf() && !#[trigger] m.has_room(outcome, self.config_spec(), now),
        }
    }

    fn record(&self, outcome: Outcome) -> (r: Recorded)
        ensures
            self.recorded_spec(outcome, r),
            outcome == Outcome::Uncounted ==> r is Ok && r->Ok_0@.len() == 0,
            outcome != Outcome::Uncounted ==> exists|
                lent: &mut StateMachine,
                machine: &mut StateMachine,
                now: Nanos,
            |
                {
                    &&& #[trigger] self.lock_lends(lent)
                    &&& *lent == *machine
                    &&& *final(lent) == *final(machine)
                    &&& self.clock_reads(now)
                    &&& #[trigger] call_ensures(
                        StateMachine::try_record::<G>,
                        (machine, outcome, &self.config_spec(), now, &self.grow_spec()),
                        r,
                    )
                },
    {
        proof {
            use_type_invariant(self);
        }
        if let Outcome::Uncounted = outcome {
            let moves: Vec<(State, State)> = Vec::new();
            proof {
                let m = Machine::fresh(self.config_spec(), 0);
                assert(m.wf() && moves@ == m.moves(outcome, self.config_spec(), 0));
            }
            return Ok(moves);
        }
        let mut guard = guard_write(&self.inner.state);
        let now: Nanos = self.now();
        let machine: &mut StateMachine = content_mut(&mut guard);
        assert(self.lock_lends(machine));
        let ghost before = machine@;
        assert(self.config_spec() == self.inner.config && self.grow_spec() == self.inner.grow);
        let r = machine.try_record(outcome, &self.inner.config, now, &self.inner.grow);
        proof {
            assert(r is Err ==> !before.has_room(outcome, self.config_spec(), now as nat));
            assert(r is Ok ==> r->Ok_0@ == before.moves(outcome, self.config_spec(), now as nat));
        }
        r
    }

    /// Records a success, without a call.
    pub fn record_success(&self) -> (r: Recorded)
        ensures
            self.recorded_spec(Outcome::Success, r),
            exists|lent: &mut StateMachine, machine: &mut StateMachine, now: Nanos|
                {
                    &&& #[trigger] self.lock_lends(lent)
                    &&& *lent == *machine
                    &&& *final(lent) == *final(machine)
                    &&& self.clock_reads(now)
                    &&& #[trigger] call_ensures(
                        StateMachine::try_record::<G>,
                        (machine, Outcome::Success, &self.config_spec(), now, &self.grow_spec()),
                        r,
                    )
                },
    {
        self.record(Outcome::Success)
    }

    /// Records a failure, without a call.
    pub fn record_failure(&self) -> (r: Recorded)
        ensures
            self.recorded_spec(Outcome::Failure, r),
            exists|lent: &mut StateMachine, machine: &mut StateMachine, now: Nanos|
                {
                    &&& #[trigger] self.lock_lends(lent)
                    &&& *lent == *machine
                    &&& *final(lent) == *final(machine)
                    &&& self.clock_reads(now)
                    &&& #[trigger] call_ensures(
                        StateMachine::try_record::<G>,
                        (machine, Outcome::Failure, &self.config_spec(), now, &self.grow_spec()),
                        r,
                    )
                },
    {
        self.record(Outcome::Failure)
    }

    /// A snapshot of the circuit.
    pub fn metrics(&self) -> (metrics: CircuitMetrics)
        ensures
            exists|m: Machine, now: nat|
                m.wf() && m.fits() && metrics == #[trigger] m.metrics_spec(now),
            exists|machine: StateMachine, now: Nanos|
                {
                    &&& self.lock_holds(machine)
                    &&& self.clock_reads(now)
                    &&& #[trigger] call_ensures(StateMachine::metrics, (&machine, now), metrics)
                },
    {
        let guard = guard_read(&self.inner.state);
        let machine: &StateMachine = content(&guard);
        assert(self.lock_holds(*machine));
        let now: Nanos = self.now();
        machine.metrics(now)
    }

    /// Failure fraction over the sliding window.
    pub fn window_failure_rate(&self) -> (rate: Binary32)
        ensures
            exists|m: Machine| m.wf() && rate == crate::window::rate_of(#[trigger] m.window),
            rate.bits <= crate::binary::ONE_32,
            exists|machine: StateMachine|
                {
                    &&& self.lock_holds(machine)
                    &&& #[trigger] call_ensures(StateMachine::window_failure_rate, (&machine,), rate)
                },
    {
        let guard = guard_read(&self.inner.state);
        let machine: &StateMachine = content(&guard);
        assert(self.lock_holds(*machine));
        machine.window_failure_rate()
    }

    /// Outcomes held in the sliding window.
    pub fn window_filled(&self) -> (n: u32)
        ensures
            exists|m: Machine| m.wf() && n == (#[trigger] m.window).len(),
            exists|machine: StateMachine|
                {
                    &&& self.lock_holds(machine)
                    &&& #[trigger] call_ensures(StateMachine::window_filled, (&machine,), n)
                },
    {
        let guard = guard_read(&self.inner.state);
        let machine: &StateMachine = content(&guard);
        assert(self.lock_holds(*machine));
        machine.window_filled()
    }

    /// The lifetime failure rate and the current failure streak, as one reading.
    pub fn failure_sample(&self) -> (r: (Binary64, u32))
        ensures
            exists|m: Machine|
                #![trigger m.lifetime_rate()]
                m.wf() && r.0 == m.lifetime_rate() && r.1 == m.failure_count,
            r.0.bits <= crate::binary::ONE_64,
            exists|machine: StateMachine|
                {
                    &&& self.lock_holds(machine)
                    &&& #[trigger] call_ensures(StateMachine::failure_sample, (&machine,), r)
                },
    {
        let guard = guard_read(&self.inner.state);
        let machine: &StateMachine = content(&guard);
        assert(self.lock_holds(*machine));
        machine.failure_sample()
    }

    /// Forces the circuit open. Counts as a trip. Reports the transition from
    /// the state that callers saw before.
    pub fn trip(&self) -> (r: Result<(State, State), CounterOverflow>)
        ensures
            exists|m: Machine, now: nat| m.wf() && r == #[trigger] m.forced(State::Open, now),
            exists|lent: &mut StateMachine, machine: &mut StateMachine, now: Nanos|
                {
                    &&& #[trigger] self.lock_lends(lent)
                    &&& *lent == *machine
                    &&& *final(lent) == *final(machine)
                    &&& self.clock_reads(now)
                    &&& #[trigger] call_ensures(
                        StateMachine::trip::<G>,
                        (machine, &self.config_spec(), now, &self.grow_spec()),
                        r,
                    )
                },
    {
        proof {
            use_type_invariant(self);
        }
        let mut guard = guard_write(&self.inner.state);
        let now: Nanos = self.now();
        let machine: &mut StateMachine = content_mut(&mut guard);
        assert(self.lock_lends(machine));
        assert(self.config_spec() == self.inner.config && self.grow_spec() == self.inner.grow);
        machine.trip(&self.inner.config, now, &self.inner.grow)
    }

    /// Forces the circuit closed, with an empty window and no attempts. Reports
    /// the transition from the state that callers saw before.
    pub fn reset(&self) -> (r: Result<(State, State), CounterOverflow>)
        ensures
            exists|m: Machine, now: nat| m.wf() && r == #[trigger] m.forced(State::Closed, now),
            exists|lent: &mut StateMachine, machine: &mut StateMachine, now: Nanos|
                {
                    &&& #[trigger] self.lock_lends(lent)
                    &&& *lent == *machine
                    &&& *final(lent) == *final(machine)
                    &&& self.clock_reads(now)
                    &&& #[trigger] call_ensures(
                        StateMachine::reset,
                        (machine, &self.config_spec(), now),
                        r,
                    )
                },
    {
        let mut guard = guard_write(&self.inner.state);
        let now: Nanos = self.now();
        let machine: &mut StateMachine = content_mut(&mut guard);
        assert(self.lock_lends(machine));
        machine.reset(&self.inner.config, now)
    }
}

/// Builder for [`CircuitBreaker`].
pub struct CircuitBreakerBuilder<G> {
    name: String,
    config: CircuitBreakerConfig,
    grow: G,
}

impl<G: Fn(Evaluation) -> Nanos> CircuitBreakerBuilder<G> {
    /// The name that the breaker will have.
    pub closed spec fn name_spec(self) -> Seq<char> {
        self.name@
    }

    /// The configuration that the breaker will have.
    pub closed spec fn config_spec(self) -> CircuitBreakerConfig {
        self.config
    }

    /// The evaluator that the breaker will have.
    pub closed spec fn grow_spec(self) -> G {
        self.grow
    }

    /// Sets the name of the breaker.
    pub fn name(self, name: &str) -> (b: Self)
        ensures
            b.name_spec() == name@,
            b.config_spec() == self.config_spec(),
            b.grow_spec() == self.grow_spec(),
    {
        CircuitBreakerBuilder { name: name.to_owned(), ..self }
    }

    /// Builds the breaker, closed and with an empty window.
    pub fn build(self) -> (b: CircuitBreaker<G>)
        requires
            forall|e: Evaluation| call_requires(self.grow_spec(), (e,)),
        ensures
            b.name_spec() == self.name_spec(),
            b.config_spec() == self.config_spec(),
            b.grow_spec() == self.grow_spec(),
            b.is_new(),
    {
        assert(self.grow_spec() == self.grow);
        let machine = StateMachine::new(&self.config, &self.grow);
        let ghost made = machine;
        let b = CircuitBreaker {
            inner: Arc::new(
                Inner {
                    name: self.name,
                    config: self.config,
                    origin: Instant::now(),
                    state: guard_new(machine),
                    half_open_permits: AtomicUsize::new(0),
                    grow: self.grow,
                },
            ),
        };
        assert(b.starts_with(made));
        b
    }
}

/// A new breaker has no permit in use, and counts time from when it was made.
pub proof fn law_new_breaker_starts_counting<G: Fn(Evaluation) -> Nanos>(
    b: CircuitBreaker<G>,
    machine: StateMachine,
)
    requires
        b.starts_with(machine),
    ensures
        call_ensures(AtomicUsize::new, (0usize,), b.permits_spec()),
        call_ensures(Instant::now, (), b.origin_spec()),
{
}

/// Every reading is the time since the breaker was made, to the nanosecond.
pub(crate) proof fn law_clock_counts_nanoseconds<G: Fn(Evaluation) -> Nanos>(
    b: CircuitBreaker<G>,
    now: Nanos,
)
    requires
        b.clock_reads(now),
    ensures
        call_ensures(nanos_since, (&b.origin_spec(),), now),
{
}

}
