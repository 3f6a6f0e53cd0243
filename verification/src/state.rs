//! The state machine: closed, open, half-open.
use vstd::prelude::*;

use crate::backoff::{Evaluation, Nanos};
use crate::binary::{Binary32, Binary64};
use crate::call::Outcome;
use crate::config::CircuitBreakerConfig;
use crate::metrics::CircuitMetrics;
use crate::window::Window;

verus! {

/// The three states of the circuit breaker.
#[derive(Debug, Clone, Copy, PartialEq, Eq, Hash, Structural)]
pub enum State {
    /// Requests are allowed.
    Closed,
    /// Requests are rejected.
    Open,
    /// Probing for recovery: a bounded number of probe calls is admitted at
    /// once, further calls are rejected without counting as failures.
    HalfOpen,
}

impl State {
    /// The name of the state.
    pub open spec fn label_spec(self) -> &'static str {
        match self {
            State::Closed => "Closed",
            State::Open => "Open",
            State::HalfOpen => "HalfOpen",
        }
    }

    /// The name of the state.
    pub fn label(&self) -> (s: &'static str)
        ensures
            s@ == self.label_spec()@,
    {
        match self {
            State::Closed => "Closed",
            State::Open => "Open",
            State::HalfOpen => "HalfOpen",
        }
    }

    /// Whether this is the open state.
    pub fn is_open(self) -> (b: bool)
        ensures
            b == (self == State::Open),
    {
        matches!(self, State::Open)
    }

    /// Whether this is the closed state.
    pub fn is_closed(self) -> (b: bool)
        ensures
            b == (self == State::Closed),
    {
        matches!(self, State::Closed)
    }

    /// Whether this is the half-open state.
    pub fn is_half_open(self) -> (b: bool)
        ensures
            b == (self == State::HalfOpen),
    {
        matches!(self, State::HalfOpen)
    }

    /// The level at which a gauge shows the state.
    pub fn gauge(&self) -> (level: u8)
        ensures
            level == match *self {
                State::Closed => 0u8,
                State::Open => 1u8,
                State::HalfOpen => 2u8,
            },
    {
        match self {
            State::Closed => 0,
            State::Open => 1,
            State::HalfOpen => 2,
        }
    }
}

/// The label of a transition: both names, with an arrow between them.
pub fn transition_label(prev: State, next: State) -> (label: String)
    ensures
        label@ == prev.label_spec()@ + "->"@ + next.label_spec()@,
{
    let mut label = prev.label().to_owned();
    label.append("->");
    label.append(next.label());
    label
}

/// A lifetime counter of the circuit has no room for what an operation adds to it.
/// The circuit is left as it was.
#[derive(Debug, Clone, Copy, PartialEq, Eq, Structural)]
pub struct CounterOverflow;

/// What recording an outcome did: the transitions it made, in order.
pub type Recorded = Result<Vec<(State, State)>, CounterOverflow>;

/// The model of a [`StateMachine`].
pub struct Machine {
    /// The state last entered.
    pub current: State,
    /// Failures in a row while closed, up to the limit of the counter.
    pub failure_count: nat,
    /// Successful probes while half-open.
    pub success_count: nat,
    /// Successes recorded since creation.
    pub total_successes: nat,
    /// Failures recorded since creation.
    pub total_failures: nat,
    /// States entered since creation.
    pub transitions: nat,
    /// When the circuit opened, while it is open.
    pub open_since: Option<nat>,
    /// How long the circuit stays open this time.
    pub wait: Nanos,
    /// Trips since the circuit was last closed.
    pub attempts: nat,
    /// The most recent outcomes recorded while closed, oldest first; `true`
    /// marks a failure.
    pub window: Seq<bool>,
    /// How many outcomes the window can hold.
    pub capacity: nat,
}

/// Time from `since` to `now`, zero where the clock has not reached `since`.
pub open spec fn elapsed(since: nat, now: nat) -> nat {
    if now >= since {
        (now - since) as nat
    } else {
        0
    }
}

impl Machine {
    /// A machine that has recorded nothing: closed, with an empty window.
    pub open spec fn fresh(config: CircuitBreakerConfig, wait: Nanos) -> Machine {
        Machine {
            current: State::Closed,
            failure_count: 0,
            success_count: 0,
            total_successes: 0,
            total_failures: 0,
            transitions: 0,
            open_since: None,
            wait: wait,
            attempts: 0,
            window: Seq::empty(),
            capacity: if config.sliding_window_size < 1 {
                1
            } else {
                config.sliding_window_size as nat
            },
        }
    }

    /// The window is within its capacity, the two streaks fit their fields, an open
    /// machine knows when it opened, and only a closed one has a streak of failures.
    pub open spec fn wf(self) -> bool {
        &&& 1 <= self.capacity <= u32::MAX
        &&& self.window.len() <= self.capacity
        &&& self.failure_count <= u32::MAX
        &&& self.success_count < u32::MAX
        &&& self.current == State::Open ==> self.open_since is Some
        &&& self.current != State::Closed ==> self.failure_count == 0
    }

    /// The lifetime counters fit their fields.
    pub open spec fn fits(self) -> bool {
        &&& self.total_successes <= u64::MAX
        &&& self.total_failures <= u64::MAX
        &&& self.transitions <= u64::MAX
    }

    /// The circuit is open and its wait is over.
    pub open spec fn due(self, now: nat) -> bool {
        &&& self.current == State::Open
        &&& self.open_since is Some
        &&& elapsed(self.open_since->0, now) >= self.wait
    }

    /// The state that callers see: an open circuit whose wait is over reads as
    /// half-open.
    pub open spec fn effective(self, now: nat) -> State {
        if self.due(now) {
            State::HalfOpen
        } else {
            self.current
        }
    }

    /// The machine once an open circuit whose wait is over has become half-open.
    pub open spec fn woken(self, now: nat) -> Machine {
        if self.due(now) {
            Machine {
                current: State::HalfOpen,
                transitions: self.transitions + 1,
                failure_count: 0,
                success_count: 0,
                open_since: None,
                ..self
            }
        } else {
            self
        }
    }

    /// The machine after it has entered `next`. Opening counts as one more
    /// attempt and sets the wait; closing clears the attempts and the window.
    pub open spec fn entered(self, next: State, now: nat, wait: Nanos) -> Machine {
        let moved = Machine {
            current: next,
            transitions: self.transitions + 1,
            failure_count: 0,
            success_count: 0,
            ..self
        };
        match next {
            State::Open => Machine {
                attempts: self.next_attempt(),
                open_since: Some(now),
                wait: wait,
                ..moved
            },
            State::Closed => Machine { attempts: 0, open_since: None, window: Seq::empty(), ..moved },
            State::HalfOpen => Machine { open_since: None, ..moved },
        }
    }

    /// The number of the next trip since the circuit was last closed.
    pub open spec fn next_attempt(self) -> nat {
        if self.attempts < u32::MAX {
            self.attempts + 1
        } else {
            u32::MAX as nat
        }
    }

    /// The failure fraction of the window reaches the threshold, with enough
    /// outcomes in the window. A threshold that is not above zero disables the
    /// rule.
    pub open spec fn rate_fires(self, config: CircuitBreakerConfig) -> bool {
        &&& config.failure_rate_threshold.positive_spec()
        &&& self.window.len() >= config.minimum_calls
        &&& crate::window::rate_of(self.window).at_least_spec(config.failure_rate_threshold)
    }

    /// The streak of failures is long enough. A threshold of `u32::MAX` disables
    /// the rule.
    pub open spec fn streak_fires(self, config: CircuitBreakerConfig) -> bool {
        &&& config.consecutive_failures < u32::MAX
        &&& self.failure_count >= config.consecutive_failures
    }

    /// Either rule for tripping fires.
    pub open spec fn should_trip(self, config: CircuitBreakerConfig) -> bool {
        self.streak_fires(config) || self.rate_fires(config)
    }

    /// A closed machine with one more outcome in its window and streak.
    pub open spec fn noted(self, failed: bool) -> Machine {
        Machine {
            failure_count: if !failed {
                0
            } else if self.failure_count < u32::MAX {
                self.failure_count + 1
            } else {
                u32::MAX as nat
            },
            window: crate::window::slide(self.capacity, self.window, failed),
            ..self
        }
    }

    /// The machine after a success was recorded.
    pub open spec fn with_success(self, config: CircuitBreakerConfig, now: nat) -> Machine {
        let m = Machine { total_successes: self.total_successes + 1, ..self.woken(now) };
        match m.current {
            State::Closed => m.noted(false),
            State::HalfOpen => if m.success_count + 1 >= config.success_threshold {
                m.entered(State::Closed, now, m.wait)
            } else {
                Machine { success_count: m.success_count + 1, ..m }
            },
            State::Open => m,
        }
    }

    /// The transition that a success causes, once the circuit has woken up.
    pub open spec fn success_report(self, config: CircuitBreakerConfig, now: nat) -> Option<
        (State, State),
    > {
        let m = self.woken(now);
        if m.current == State::HalfOpen && m.success_count + 1 >= config.success_threshold {
            Some((State::HalfOpen, State::Closed))
        } else {
            None
        }
    }

    /// Recording a failure opens the circuit.
    pub open spec fn failure_trips(self, config: CircuitBreakerConfig, now: nat) -> bool {
        let m = self.woken(now);
        match m.current {
            State::Closed => m.noted(true).should_trip(config),
            State::HalfOpen => true,
            State::Open => false,
        }
    }

    /// The machine after a failure was recorded; `wait` is the wait of the trip,
    /// where there is one.
    pub open spec fn with_failure(
        self,
        config: CircuitBreakerConfig,
        now: nat,
        wait: Nanos,
    ) -> Machine {
        let m = Machine { total_failures: self.total_failures + 1, ..self.woken(now) };
        match m.current {
            State::Closed => if m.noted(true).should_trip(config) {
                m.noted(true).entered(State::Open, now, wait)
            } else {
                m.noted(true)
            },
            State::HalfOpen => m.entered(State::Open, now, wait),
            State::Open => m,
        }
    }

    /// The transition that a failure causes, once the circuit has woken up.
    pub open spec fn failure_report(self, config: CircuitBreakerConfig, now: nat) -> Option<
        (State, State),
    > {
        if self.failure_trips(config, now) {
            Some((self.woken(now).current, State::Open))
        } else {
            None
        }
    }

    /// The machine after an outcome was recorded.
    pub open spec fn with_outcome(
        self,
        outcome: Outcome,
        config: CircuitBreakerConfig,
        now: nat,
        wait: Nanos,
    ) -> Machine {
        match outcome {
            Outcome::Success => self.with_success(config, now),
            Outcome::Failure => self.with_failure(config, now, wait),
            Outcome::Uncounted => self,
        }
    }

    /// The transitions that recording an outcome makes, in order: an open circuit
    /// whose wait is over becomes half-open first.
    pub open spec fn moves(
        self,
        outcome: Outcome,
        config: CircuitBreakerConfig,
        now: nat,
    ) -> Seq<(State, State)> {
        let woke = if self.due(now) {
            seq![(State::Open, State::HalfOpen)]
        } else {
            Seq::empty()
        };
        match outcome {
            Outcome::Success => match self.success_report(config, now) {
                Some(caused) => woke.push(caused),
                None => woke,
            },
            Outcome::Failure => match self.failure_report(config, now) {
                Some(caused) => woke.push(caused),
                None => woke,
            },
            Outcome::Uncounted => Seq::empty(),
        }
    }

    /// The lifetime counters have room for what recording an outcome adds to them.
    pub open spec fn has_room(
        self,
        outcome: Outcome,
        config: CircuitBreakerConfig,
        now: nat,
    ) -> bool {
        self.with_outcome(outcome, config, now, 0).fits()
    }

    /// What forcing the circuit into `next` answers: the transition from the state
    /// that callers saw.
    pub open spec fn forced(self, next: State, now: nat) -> Result<
        (State, State),
        CounterOverflow,
    > {
        if self.transitions < u64::MAX {
            Ok((self.effective(now), next))
        } else {
            Err(CounterOverflow)
        }
    }

    /// The lifetime share of failures, zero where nothing was recorded.
    pub open spec fn lifetime_rate(self) -> Binary64 {
        let total = self.total_successes + self.total_failures;
        if total == 0 {
            Binary64 { bits: 0 }
        } else {
            Binary64 { bits: Binary64::ratio_spec(self.total_failures, total) as u64 }
        }
    }

    /// The snapshot that callers see.
    pub open spec fn metrics_spec(self, now: nat) -> CircuitMetrics {
        CircuitMetrics {
            failure_rate: self.lifetime_rate(),
            window_failure_rate: crate::window::rate_of(self.window),
            state: self.effective(now),
            total_successes: self.total_successes as u64,
            total_failures: self.total_failures as u64,
            transitions: self.transitions as u64,
        }
    }
}

/// Drives the circuit through its three states.
///
/// Every operation takes the current clock reading, and the operations that can
/// open the circuit take the evaluator of exponential waits.
pub struct StateMachine {
    current: State,
    failure_count: u32,
    success_count: u32,
    total_successes: u64,
    total_failures: u64,
    transitions: u64,
    open_since: Option<Nanos>,
    wait_duration: Nanos,
    open_attempts: u32,
    window: Window,
}

impl View for StateMachine {
    type V = Machine;

    closed spec fn view(&self) -> Machine {
        Machine {
            current: self.current,
            failure_count: self.failure_count as nat,
            success_count: self.success_count as nat,
            total_successes: self.total_successes as nat,
            total_failures: self.total_failures as nat,
            transitions: self.transitions as nat,
            open_since: match self.open_since {
                Some(since) => Some(since as nat),
                None => None,
            },
            wait: self.wait_duration,
            attempts: self.open_attempts as nat,
            window: self.window@,
            capacity: self.window.capacity(),
        }
    }
}

impl StateMachine {
    #[verifier::type_invariant]
    spec fn inv(self) -> bool {
        &&& self.window.wf()
        &&& self.success_count < u32::MAX
        &&& self.current == State::Open ==> self.open_since is Some
        &&& self.current != State::Closed ==> self.failure_count == 0
    }

    /// A closed machine with an empty window.
    pub fn new<G: Fn(Evaluation) -> Nanos>(config: &CircuitBreakerConfig, grow: &G) -> (m: StateMachine)
        requires
            forall|e: Evaluation| call_requires(*grow, (e,)),
        ensures
            m@.wf(),
            m@ == Machine::fresh(*config, m@.wait),
            config.backoff.waits(*grow, 1, m@.wait),
    {
        let wait: Nanos = config.backoff.initial_wait(grow);
        let window = Window::new(config.sliding_window_size);
        StateMachine {
            current: State::Closed,
            failure_count: 0,
            success_count: 0,
            total_successes: 0,
            total_failures: 0,
            transitions: 0,
            open_since: None,
            wait_duration: wait,
            open_attempts: 0,
            window,
        }
    }

    fn is_due(&self, now: Nanos) -> (due: bool)
        ensures
            due == self@.due(now as nat),
    {
        match (self.current, self.open_since) {
            (State::Open, Some(since)) => now.saturating_sub(since) >= self.wait_duration,
            _ => false,
        }
    }

    /// The state that callers see. An open circuit whose wait is over reads as
    /// half-open; the machine itself changes on the next recorded outcome.
    pub fn current(&self, now: Nanos) -> (state: State)
        ensures
            state == self@.effective(now as nat),
            self@.wf(),
    {
        proof {
            use_type_invariant(&*self);
            self.window.lemma_wf();
        }
        if self.is_due(now) {
            State::HalfOpen
        } else {
            self.current
        }
    }

    /// Makes an open circuit whose wait is over half-open.
    pub fn maybe_transition_to_half_open(&mut self, now: Nanos)
        requires
            old(self)@.woken(now as nat).fits(),
        ensures
            final(self)@ == old(self)@.woken(now as nat),
            final(self)@.wf(),
    {
        proof {
            use_type_invariant(&*self);
        }
        if self.is_due(now) {
            self.current = State::HalfOpen;
            self.transitions = self.transitions + 1;
            self.failure_count = 0;
            self.success_count = 0;
            self.open_since = None;
        }
        proof {
            use_type_invariant(&*self);
            self.window.lemma_wf();
        }
    }

    /// Puts one more outcome into the window.
    fn slide_window(&mut self, failed: bool)
        ensures
            final(self)@ == (Machine {
                window: crate::window::slide(old(self)@.capacity, old(self)@.window, failed),
                ..old(self)@
            }),
    {
        proof {
            use_type_invariant(&*self);
        }
        let mut window = Window::vacant();
        std::mem::swap(&mut self.window, &mut window);
        window.record(failed);
        self.window = window;
    }

    /// Empties the window.
    fn clear_window(&mut self)
        ensures
            final(self)@ == (Machine { window: Seq::empty(), ..old(self)@ }),
    {
        proof {
            use_type_invariant(&*self);
        }
        let mut window = Window::vacant();
        std::mem::swap(&mut self.window, &mut window);
        window.clear();
        self.window = window;
    }

    /// Enters `next`. Opening the circuit counts one more attempt and takes the
    /// wait of that attempt from the backoff strategy; closing it clears the
    /// attempts and the window.
    pub fn transition<G: Fn(Evaluation) -> Nanos>(
        &mut self,
        next: State,
        config: &CircuitBreakerConfig,
        now: Nanos,
        grow: &G,
    )
        requires
            forall|e: Evaluation| call_requires(*grow, (e,)),
            old(self)@.transitions < u64::MAX,
        ensures
            final(self)@ == old(self)@.entered(next, now as nat, final(self)@.wait),
            next == State::Open ==> config.backoff.waits(
                *grow,
                old(self)@.next_attempt(),
                final(self)@.wait,
            ),
            final(self)@.wf(),
    {
        match next {
            State::Open => self.open(config, now, grow),
            State::Closed => self.close(),
            State::HalfOpen => {
                proof {
                    use_type_invariant(&*self);
                }
                self.failure_count = 0;
                self.success_count = 0;
                self.current = State::HalfOpen;
                self.transitions = self.transitions + 1;
                self.open_since = None;
            },
        }
        proof {
            use_type_invariant(&*self);
            self.window.lemma_wf();
        }
    }

    fn open<G: Fn(Evaluation) -> Nanos>(&mut self, config: &CircuitBreakerConfig, now: Nanos, grow: &G)
        requires
            forall|e: Evaluation| call_requires(*grow, (e,)),
            old(self)@.transitions < u64::MAX,
        ensures
            final(self)@ == old(self)@.entered(State::Open, now as nat, final(self)@.wait),
            config.backoff.waits(
                *grow,
                old(self)@.next_attempt(),
                final(self)@.wait,
            ),
    {
        proof {
            use_type_invariant(&*self);
        }
        let attempt: u32 = self.open_attempts.saturating_add(1);
        let wait: Nanos = config.backoff.wait_for(attempt, grow);
        self.failure_count = 0;
        self.success_count = 0;
        self.open_attempts = attempt;
        self.open_since = Some(now);
        self.wait_duration = wait;
        self.current = State::Open;
        self.transitions = self.transitions + 1;
    }

    fn close(&mut self)
        requires
            old(self)@.transitions < u64::MAX,
        ensures
            forall|now: nat, wait: Nanos|
                final(self)@ == #[trigger] old(self)@.entered(State::Closed, now, wait),
    {
        proof {
            use_type_invariant(&*self);
        }
        self.current = State::Closed;
        self.transitions = self.transitions + 1;
        self.failure_count = 0;
        self.success_count = 0;
        self.open_attempts = 0;
        self.open_since = None;
        self.clear_window();
    }

    /// Whether one more failure trips a closed machine.
    fn should_trip(&self, config: &CircuitBreakerConfig) -> (trips: bool)
        ensures
            trips == self@.noted(true).should_trip(*config),
    {
        proof {
            use_type_invariant(&*self);
        }
        let streak: u32 = self.failure_count.saturating_add(1);
        if config.consecutive_failures < u32::MAX && streak >= config.consecutive_failures {
            return true;
        }
        if !config.failure_rate_threshold.is_positive() {
            return false;
        }
        let (filled, rate) = self.window.after_failure();
        filled >= config.minimum_calls && rate.at_least(config.failure_rate_threshold)
    }

    /// Records a success and reports the transition it caused, if any. An open
    /// circuit whose wait is over becomes half-open first.
    pub fn record_success(&mut self, config: &CircuitBreakerConfig, now: Nanos) -> (report: Option<
        (State, State),
    >)
        requires
            old(self)@.with_success(*config, now as nat).fits(),
        ensures
            final(self)@ == old(self)@.with_success(*config, now as nat),
            report == old(self)@.success_report(*config, now as nat),
            final(self)@.wf(),
    {
        proof {
            use_type_invariant(&*self);
        }
        self.maybe_transition_to_half_open(now);
        proof {
            use_type_invariant(&*self);
        }
        self.total_successes = self.total_successes + 1;
        let report = match self.current {
            State::Closed => {
                self.failure_count = 0;
                self.slide_window(false);
                None
            },
            State::HalfOpen => {
                let successes: u32 = self.success_count + 1;
                if successes >= config.success_threshold {
                    self.close();
                    Some((State::HalfOpen, State::Closed))
                } else {
                    self.success_count = successes;
                    None
                }
            },
            State::Open => None,
        };
        proof {
            use_type_invariant(&*self);
            self.window.lemma_wf();
        }
        report
    }

    /// Records a failure and reports the transition it caused, if any. An open
    /// circuit whose wait is over becomes half-open first.
    pub fn record_failure<G: Fn(Evaluation) -> Nanos>(
        &mut self,
        config: &CircuitBreakerConfig,
        now: Nanos,
        grow: &G,
    ) -> (report: Option<(State, State)>)
        requires
            forall|e: Evaluation| call_requires(*grow, (e,)),
            old(self)@.with_failure(*config, now as nat, 0).fits(),
        ensures
            final(self)@ == old(self)@.with_failure(*config, now as nat, final(self)@.wait),
            old(self)@.failure_trips(*config, now as nat) ==> config.backoff.waits(
                *grow,
                old(self)@.next_attempt(),
                final(self)@.wait,
            ),
            report == old(self)@.failure_report(*config, now as nat),
            final(self)@.wf(),
    {
        proof {
            use_type_invariant(&*self);
        }
        self.maybe_transition_to_half_open(now);
        proof {
            use_type_invariant(&*self);
        }
        self.total_failures = self.total_failures + 1;
        let report = match self.current {
            State::Closed => {
                let trips = self.should_trip(config);
                self.failure_count = self.failure_count.saturating_add(1);
                self.slide_window(true);
                if trips {
                    self.open(config, now, grow);
                    Some((State::Closed, State::Open))
                } else {
                    None
                }
            },
            State::HalfOpen => {
                self.open(config, now, grow);
                Some((State::HalfOpen, State::Open))
            },
            State::Open => None,
        };
        proof {
            use_type_invariant(&*self);
            self.window.lemma_wf();
        }
        report
    }

    /// Records what a finished call means for the circuit, and lists the
    /// transitions that this made, in order.
    pub fn record<G: Fn(Evaluation) -> Nanos>(
        &mut self,
        outcome: Outcome,
        config: &CircuitBreakerConfig,
        now: Nanos,
        grow: &G,
    ) -> (moves: Vec<(State, State)>)
        requires
            forall|e: Evaluation| call_requires(*grow, (e,)),
            old(self)@.with_outcome(outcome, *config, now as nat, 0).fits(),
        ensures
            final(self)@ == old(self)@.with_outcome(
                outcome,
                *config,
                now as nat,
                final(self)@.wait,
            ),
            outcome == Outcome::Failure && old(self)@.failure_trips(*config, now as nat)
                ==> config.backoff.waits(*grow, old(self)@.next_attempt(), final(self)@.wait),
            moves@ == old(self)@.moves(outcome, *config, now as nat),
            final(self)@.wf(),
    {
        proof {
            use_type_invariant(&*self);
            self.window.lemma_wf();
        }
        let mut moves: Vec<(State, State)> = Vec::new();
        if let Outcome::Uncounted = outcome {
            return moves;
        }
        if self.is_due(now) {
            moves.push((State::Open, State::HalfOpen));
        }
        let caused = match outcome {
            Outcome::Success => self.record_success(config, now),
            _ => self.record_failure(config, now, grow),
        };
        if let Some(caused) = caused {
            moves.push(caused);
        }
        moves
    }

    /// Opens the circuit, whatever its state. Counts as a trip.
    pub fn force_open<G: Fn(Evaluation) -> Nanos>(
        &mut self,
        config: &CircuitBreakerConfig,
        now: Nanos,
        grow: &G,
    )
        requires
            forall|e: Evaluation| call_requires(*grow, (e,)),
            old(self)@.transitions < u64::MAX,
        ensures
            final(self)@ == old(self)@.entered(State::Open, now as nat, final(self)@.wait),
            config.backoff.waits(*grow, old(self)@.next_attempt(), final(self)@.wait),
            final(self)@.wf(),
    {
        self.open(config, now, grow);
        proof {
            use_type_invariant(&*self);
            self.window.lemma_wf();
        }
    }

    /// Closes the circuit, whatever its state. Clears the window and the
    /// attempts.
    pub fn force_closed(&mut self, _config: &CircuitBreakerConfig)
        requires
            old(self)@.transitions < u64::MAX,
        ensures
            final(self)@ == old(self)@.entered(State::Closed, 0, old(self)@.wait),
            final(self)@.wf(),
    {
        self.close();
        proof {
            use_type_invariant(&*self);
            self.window.lemma_wf();
        }
    }

    /// How many transitions recording an outcome makes.
    fn moves_ahead(&self, outcome: Outcome, config: &CircuitBreakerConfig, now: Nanos) -> (n: u64)
        ensures
            n == self@.moves(outcome, *config, now as nat).len(),
    {
        proof {
            use_type_invariant(&*self);
        }
        let due = self.is_due(now);
        let woke: u64 = if due {
            1
        } else {
            0
        };
        let caused = match outcome {
            Outcome::Uncounted => return 0,
            Outcome::Success => if due {
                1 >= config.success_threshold
            } else {
                match self.current {
                    State::HalfOpen => self.success_count + 1 >= config.success_threshold,
                    _ => false,
                }
            },
            Outcome::Failure => due || match self.current {
                State::Closed => self.should_trip(config),
                State::HalfOpen => true,
                State::Open => false,
            },
        };
        if caused {
            woke + 1
        } else {
            woke
        }
    }

    /// Whether the lifetime counters have room for what recording an outcome adds.
    pub fn has_room(&self, outcome: Outcome, config: &CircuitBreakerConfig, now: Nanos) -> (b: bool)
        ensures
            b == self@.has_room(outcome, *config, now as nat),
    {
        let moves: u64 = self.moves_ahead(outcome, config, now);
        let counted = match outcome {
            Outcome::Success => self.total_successes < u64::MAX,
            Outcome::Failure => self.total_failures < u64::MAX,
            Outcome::Uncounted => true,
        };
        counted && self.transitions <= u64::MAX - moves
    }

    /// Records what a finished call means for the circuit, and lists the
    /// transitions that this made, in order; leaves the circuit as it was where a
    /// lifetime counter has no room for it.
    pub fn try_record<G: Fn(Evaluation) -> Nanos>(
        &mut self,
        outcome: Outcome,
        config: &CircuitBreakerConfig,
        now: Nanos,
        grow: &G,
    ) -> (r: Recorded)
        requires
            forall|e: Evaluation| call_requires(*grow, (e,)),
        ensures
            r is Err <==> !old(self)@.has_room(outcome, *config, now as nat),
            r is Err ==> final(self)@ == old(self)@,
            r is Ok ==> {
                &&& r->Ok_0@ == old(self)@.moves(outcome, *config, now as nat)
                &&& final(self)@ == old(self)@.with_outcome(
                    outcome,
                    *config,
                    now as nat,
                    final(self)@.wait,
                )
            },
            r is Ok && outcome == Outcome::Failure && old(self)@.failure_trips(*config, now as nat)
                ==> config.backoff.waits(*grow, old(self)@.next_attempt(), final(self)@.wait),
            outcome == Outcome::Uncounted ==> r is Ok,
            old(self)@.wf(),
            final(self)@.wf(),
    {
        proof {
            use_type_invariant(&*self);
            self.window.lemma_wf();
        }
        if self.has_room(outcome, config, now) {
            Ok(self.record(outcome, config, now, grow))
        } else {
            Err(CounterOverflow)
        }
    }

    /// Forces the circuit open, which counts as a trip, and reports the transition
    /// from the state that callers saw; leaves the circuit as it was where the count
    /// of transitions has no room for it.
    pub fn trip<G: Fn(Evaluation) -> Nanos>(
        &mut self,
        config: &CircuitBreakerConfig,
        now: Nanos,
        grow: &G,
    ) -> (r: Result<(State, State), CounterOverflow>)
        requires
            forall|e: Evaluation| call_requires(*grow, (e,)),
        ensures
            r == old(self)@.forced(State::Open, now as nat),
            old(self)@.wf(),
            old(self)@.fits(),
            r is Err ==> final(self)@ == old(self)@,
            r is Ok ==> {
                &&& final(self)@ == old(self)@.entered(State::Open, now as nat, final(self)@.wait)
                &&& config.backoff.waits(*grow, old(self)@.next_attempt(), final(self)@.wait)
            },
            final(self)@.wf(),
    {
        proof {
            use_type_invariant(&*self);
            self.window.lemma_wf();
        }
        if self.transitions == u64::MAX {
            return Err(CounterOverflow);
        }
        let prev = self.current(now);
        self.force_open(config, now, grow);
        Ok((prev, State::Open))
    }

    /// Forces the circuit closed, with an empty window and no attempts, and reports
    /// the transition from the state that callers saw; leaves the circuit as it was
    /// where the count of transitions has no room for it.
    pub fn reset(&mut self, config: &CircuitBreakerConfig, now: Nanos) -> (r: Result<
        (State, State),
        CounterOverflow,
    >)
        ensures
            r == old(self)@.forced(State::Closed, now as nat),
            old(self)@.wf(),
            old(self)@.fits(),
            r is Err ==> final(self)@ == old(self)@,
            r is Ok ==> final(self)@ == old(self)@.entered(State::Closed, 0, old(self)@.wait),
            final(self)@.wf(),
    {
        proof {
            use_type_invariant(&*self);
            self.window.lemma_wf();
        }
        if self.transitions == u64::MAX {
            return Err(CounterOverflow);
        }
        let prev = self.current(now);
        self.force_closed(config);
        Ok((prev, State::Closed))
    }

    /// Lifetime share of failures among all recorded outcomes.
    pub fn failure_rate(&self) -> (rate: Binary64)
        ensures
            rate == self@.lifetime_rate(),
            rate.bits <= crate::binary::ONE_64,
            self@.wf(),
    {
        proof {
            use_type_invariant(&*self);
            self.window.lemma_wf();
        }
        let total: u128 = self.total_successes as u128 + self.total_failures as u128;
        if total == 0 {
            Binary64 { bits: 0 }
        } else {
            Binary64::ratio(self.total_failures, total)
        }
    }

    /// Failure fraction over the sliding window: the quantity that the rate rule
    /// evaluates.
    pub fn window_failure_rate(&self) -> (rate: Binary32)
        ensures
            rate == crate::window::rate_of(self@.window),
            rate.bits <= crate::binary::ONE_32,
            self@.wf(),
    {
        proof {
            use_type_invariant(&*self);
            self.window.lemma_wf();
        }
        self.window.failure_rate()
    }

    /// Outcomes held in the sliding window.
    pub fn window_filled(&self) -> (n: u32)
        ensures
            n == self@.window.len(),
            self@.wf(),
    {
        proof {
            use_type_invariant(&*self);
            self.window.lemma_wf();
        }
        self.window.filled()
    }

    /// Successes recorded since creation.
    pub fn total_successes(&self) -> (n: u64)
        ensures
            n == self@.total_successes,
    {
        self.total_successes
    }

    /// Failures recorded since creation.
    pub fn total_failures(&self) -> (n: u64)
        ensures
            n == self@.total_failures,
    {
        self.total_failures
    }

    /// State transitions since creation.
    pub fn transitions(&self) -> (n: u64)
        ensures
            n == self@.transitions,
    {
        self.transitions
    }

    /// Failures in a row in the current closed episode.
    pub fn failure_count(&self) -> (n: u32)
        ensures
            n == self@.failure_count,
    {
        self.failure_count
    }

    /// The lifetime failure rate and the current failure streak.
    pub fn failure_sample(&self) -> (r: (Binary64, u32))
        ensures
            r.0 == self@.lifetime_rate(),
            r.0.bits <= crate::binary::ONE_64,
            r.1 == self@.failure_count,
            self@.wf(),
    {
        (self.failure_rate(), self.failure_count)
    }

    /// Trips since the circuit was last closed.
    pub fn open_attempts(&self) -> (n: u32)
        ensures
            n == self@.attempts,
    {
        self.open_attempts
    }

    /// How long the circuit stays open in the current episode.
    pub fn wait_duration(&self) -> (wait: Nanos)
        ensures
            wait == self@.wait,
    {
        self.wait_duration
    }

    /// A snapshot of the counters, the rates and the state that callers see.
    pub fn metrics(&self, now: Nanos) -> (m: CircuitMetrics)
        ensures
            m == self@.metrics_spec(now as nat),
            self@.wf(),
            self@.fits(),
    {
        CircuitMetrics {
            failure_rate: self.failure_rate(),
            window_failure_rate: self.window_failure_rate(),
            state: self.current(now),
            total_successes: self.total_successes,
            total_failures: self.total_failures,
            transitions: self.transitions,
        }
    }
}

}
