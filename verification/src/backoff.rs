//! How long the circuit stays open after each trip.
use vstd::arithmetic::power2::*;
use vstd::prelude::*;

use crate::binary::{Binary64, ONE_64};
use crate::rounding;

verus! {

/// A span of time, or a clock reading, in nanoseconds.
pub type Nanos = u128;

/// Strategy for how long the circuit stays open between tripping and probing
/// again. It is applied on every trip: the first trip is attempt 1 and each
/// further trip without a recovery in between is one attempt more.
///
/// Two strategies are equal if they are of one kind and their settings are equal as
/// numbers.
#[derive(Debug, Clone, Copy)]
pub enum BackoffStrategy {
    /// The same wait on every trip.
    Fixed(Nanos),
    /// `initial * factor^(attempt - 1)`, capped at `max`.
    Exponential {
        /// Wait after the first trip.
        initial: Nanos,
        /// Upper bound on the computed wait.
        max: Nanos,
        /// Growth multiplier per trip.
        factor: Binary64,
    },
    /// The exponential wait, scaled by `1 - jitter * rand` with `rand` uniform
    /// from zero up to, but not including, one.
    ExponentialJitter {
        /// Wait after the first trip, before jitter.
        initial: Nanos,
        /// Upper bound on the computed wait, before jitter.
        max: Nanos,
        /// Growth multiplier per trip.
        factor: Binary64,
        /// Share of the wait that is left to chance; one is full jitter.
        jitter: Binary64,
    },
}

impl PartialEq for BackoffStrategy {
    fn eq(&self, other: &Self) -> (r: bool) {
        match (*self, *other) {
            (BackoffStrategy::Fixed(a), BackoffStrategy::Fixed(b)) => a == b,
            (
                BackoffStrategy::Exponential { initial: i, max: m, factor: f },
                BackoffStrategy::Exponential { initial, max, factor },
            ) => i == initial && m == max && f.equals(factor),
            (
                BackoffStrategy::ExponentialJitter { initial: i, max: m, factor: f, jitter: j },
                BackoffStrategy::ExponentialJitter { initial, max, factor, jitter },
            ) => i == initial && m == max && f.equals(factor) && j.equals(jitter),
            _ => false,
        }
    }
}

impl vstd::std_specs::cmp::PartialEqSpecImpl for BackoffStrategy {
    open spec fn obeys_eq_spec() -> bool {
        true
    }

    open spec fn eq_spec(&self, other: &Self) -> bool {
        match (*self, *other) {
            (BackoffStrategy::Fixed(a), BackoffStrategy::Fixed(b)) => a == b,
            (
                BackoffStrategy::Exponential { initial: i, max: m, factor: f },
                BackoffStrategy::Exponential { initial, max, factor },
            ) => i == initial && m == max && f.equals_spec(factor),
            (
                BackoffStrategy::ExponentialJitter { initial: i, max: m, factor: f, jitter: j },
                BackoffStrategy::ExponentialJitter { initial, max, factor, jitter },
            ) => i == initial && m == max && f.equals_spec(factor) && j.equals_spec(jitter),
            _ => false,
        }
    }
}

/// The wait of one attempt before jitter: `initial * factor^exponent`, capped at
/// `max`.
#[derive(Debug, Clone, Copy, PartialEq, Eq, Structural)]
pub struct Growth {
    /// Wait after the first trip.
    pub initial: Nanos,
    /// Upper bound on the wait.
    pub max: Nanos,
    /// The base of the power.
    pub factor: Binary64,
    /// The exponent of the power: one less than the attempt.
    pub exponent: u32,
}

/// A computation in floating point.
#[derive(Debug, Clone, Copy, PartialEq, Eq, Structural)]
pub enum Evaluation {
    /// `initial * factor^exponent`, capped at `max`.
    Power(Growth),
    /// `wait * (1 - jitter * rand)`, with `rand` drawn from zero up to, but not
    /// including, one.
    Scale {
        /// The wait before jitter.
        wait: Nanos,
        /// Share of the wait that is left to chance, from zero to one.
        jitter: Binary64,
    },
}

/// The exponent for a trip attempt: one less than the attempt.
pub open spec fn exponent_of(attempt: nat) -> nat {
    if attempt <= 1 {
        0
    } else {
        (attempt - 1) as nat
    }
}

/// The smaller of two waits.
pub open spec fn shorter(a: Nanos, b: Nanos) -> Nanos {
    if a <= b {
        a
    } else {
        b
    }
}

fn shorter_of(a: Nanos, b: Nanos) -> (r: Nanos)
    ensures
        r == shorter(a, b),
{
    if a <= b {
        a
    } else {
        b
    }
}

impl Growth {
    /// The wait of the first attempt.
    pub open spec fn first_spec(self) -> Nanos {
        shorter(self.initial, self.max)
    }

    /// A computed wait, held to its bounds: never more than `max` and, where the
    /// factor does not shrink the wait, never less than the first one.
    pub open spec fn bounded_spec(self, computed: Nanos) -> Nanos {
        if self.factor.at_least_one_spec() && computed < self.first_spec() {
            self.first_spec()
        } else {
            shorter(computed, self.max)
        }
    }

    /// Whether `wait` is this wait, when `grow` evaluates powers. The first
    /// attempt needs no power.
    pub open spec fn gives<G: Fn(Evaluation) -> Nanos>(self, grow: G, wait: Nanos) -> bool {
        if self.exponent == 0 {
            wait == self.first_spec()
        } else {
            exists|computed: Nanos| #[trigger]
                call_ensures(grow, (Evaluation::Power(self),), computed) && wait
                    == self.bounded_spec(computed)
        }
    }

    /// A computed wait, held to its bounds.
    fn bounded(self, computed: Nanos) -> (wait: Nanos)
        ensures
            wait == self.bounded_spec(computed),
    {
        let first: Nanos = shorter_of(self.initial, self.max);
        if self.factor.is_at_least_one() && computed < first {
            first
        } else {
            shorter_of(computed, self.max)
        }
    }

    /// This wait, when `grow` evaluates powers.
    pub fn wait<G: Fn(Evaluation) -> Nanos>(self, grow: &G) -> (wait: Nanos)
        requires
            forall|e: Evaluation| call_requires(*grow, (e,)),
        ensures
            self.gives(*grow, wait),
    {
        if self.exponent == 0 {
            shorter_of(self.initial, self.max)
        } else {
            let computed: Nanos = grow(Evaluation::Power(self));
            self.bounded(computed)
        }
    }
}

/// A wait drawn from `base`, held to its bounds: never more than `base`, and less by
/// no more than the share that `jitter` leaves to chance, to the nanosecond.
pub open spec fn drawn_within(base: Nanos, jitter: Binary64, drawn: Nanos) -> Nanos {
    if drawn + jitter.share_spec(base) + 1 < base {
        (base - jitter.share_spec(base) - 1) as Nanos
    } else {
        shorter(drawn, base)
    }
}

/// Whether `wait` is what a jitter from zero to one can make of `base`, when `grow`
/// draws. A jitter of zero leaves it as it is.
pub open spec fn jitters<G: Fn(Evaluation) -> Nanos>(
    grow: G,
    base: Nanos,
    jitter: Binary64,
    wait: Nanos,
) -> bool {
    if jitter.zero_spec() {
        wait == base
    } else {
        exists|drawn: Nanos| #[trigger]
            call_ensures(grow, (Evaluation::Scale { wait: base, jitter },), drawn) && wait
                == drawn_within(base, jitter, drawn)
    }
}

/// `base` with a jitter, moved into the interval from zero to one, when `grow` draws.
pub fn with_jitter<G: Fn(Evaluation) -> Nanos>(base: Nanos, jitter: Binary64, grow: &G) -> (wait:
    Nanos)
    requires
        forall|e: Evaluation| call_requires(*grow, (e,)),
    ensures
        jitters(*grow, base, jitter.clamp_unit_spec(), wait),
{
    let jitter = jitter.clamp_unit();
    if jitter.is_zero() {
        base
    } else {
        let drawn: Nanos = grow(Evaluation::Scale { wait: base, jitter });
        let share: Nanos = jitter.share_of(base);
        if share < base && drawn < base - share - 1 {
            base - share - 1
        } else {
            shorter_of(drawn, base)
        }
    }
}

impl BackoffStrategy {
    /// The wait of this strategy at an attempt, before jitter; `None` where the
    /// wait is constant.
    pub open spec fn growth_spec(self, attempt: nat) -> Option<Growth> {
        match self {
            BackoffStrategy::Fixed(_) => None,
            BackoffStrategy::Exponential { initial, max, factor } => Some(
                Growth { initial, max, factor, exponent: exponent_of(attempt) as u32 },
            ),
            BackoffStrategy::ExponentialJitter { initial, max, factor, .. } => Some(
                Growth { initial, max, factor, exponent: exponent_of(attempt) as u32 },
            ),
        }
    }

    /// Whether `wait` is a wait of this strategy at an attempt, when `grow`
    /// evaluates in floating point.
    pub open spec fn waits<G: Fn(Evaluation) -> Nanos>(
        self,
        grow: G,
        attempt: nat,
        wait: Nanos,
    ) -> bool {
        match self {
            BackoffStrategy::Fixed(d) => wait == d,
            BackoffStrategy::Exponential { .. } => self.growth_spec(attempt)->0.gives(grow, wait),
            BackoffStrategy::ExponentialJitter { jitter, .. } => exists|base: Nanos| #[trigger]
                self.growth_spec(attempt)->0.gives(grow, base) && jitters(
                    grow,
                    base,
                    jitter.clamp_unit_spec(),
                    wait,
                ),
        }
    }

    /// The wait of this strategy at a trip attempt, counted from 1, before jitter;
    /// `None` where the wait is constant.
    pub fn growth(&self, attempt: u32) -> (r: Option<Growth>)
        ensures
            r == self.growth_spec(attempt as nat),
    {
        let exponent: u32 = attempt.saturating_sub(1);
        match *self {
            BackoffStrategy::Fixed(_) => None,
            BackoffStrategy::Exponential { initial, max, factor } => Some(
                Growth { initial, max, factor, exponent },
            ),
            BackoffStrategy::ExponentialJitter { initial, max, factor, .. } => Some(
                Growth { initial, max, factor, exponent },
            ),
        }
    }

    /// Wait for the given trip attempt, counted from 1.
    pub fn wait_for<G: Fn(Evaluation) -> Nanos>(&self, attempt: u32, grow: &G) -> (wait: Nanos)
        requires
            forall|e: Evaluation| call_requires(*grow, (e,)),
        ensures
            self.waits(*grow, attempt as nat, wait),
    {
        match *self {
            BackoffStrategy::Fixed(d) => d,
            BackoffStrategy::Exponential { .. } => self.growth(attempt).unwrap().wait(grow),
            BackoffStrategy::ExponentialJitter { jitter, .. } => {
                let base: Nanos = self.growth(attempt).unwrap().wait(grow);
                with_jitter(base, jitter, grow)
            },
        }
    }

    /// The wait before any trip has been seen: that of attempt 1.
    pub fn initial_wait<G: Fn(Evaluation) -> Nanos>(&self, grow: &G) -> (wait: Nanos)
        requires
            forall|e: Evaluation| call_requires(*grow, (e,)),
        ensures
            self.waits(*grow, 1, wait),
    {
        self.wait_for(1, grow)
    }
}

/// One step of the 64-bit xorshift generator.
pub open spec fn xorshift(x: u64) -> u64 {
    let a = x ^ (x << 13);
    let b = a ^ (a >> 7);
    b ^ (b << 17)
}

/// A generator state for a reading of the wall clock, in nanoseconds since the
/// epoch: its low 64 bits made odd, or a constant where there is no reading.
pub open spec fn seed_of(reading: Option<Nanos>) -> u64 {
    match reading {
        Some(n) => (n as u64) | 1,
        None => 0x9E37_79B9_7F4A_7C15,
    }
}

/// The wall clock, in nanoseconds since the epoch, read with
/// `std::time::SystemTime::elapsed` on `UNIX_EPOCH`. `None` where the clock
/// stands before the epoch. Nothing is claimed of the reading.
#[verifier::external_body]
fn wall_clock() -> (reading: Option<Nanos>) {
    match std::time::UNIX_EPOCH.elapsed() {
        Ok(since) => Some(since.as_nanos()),
        Err(_) => None,
    }
}

/// Whether the wall clock gave this reading.
pub closed spec fn clock_gave(reading: Option<Nanos>) -> bool {
    call_ensures(wall_clock, (), reading)
}

/// The generator state for a clock reading. Never zero, which the generator
/// could not leave.
pub fn seed_from(reading: Option<Nanos>) -> (r: u64)
    ensures
        r == seed_of(reading),
        r != 0,
{
    match reading {
        Some(n) => {
            let low: u64 = #[verifier::truncate] (n as u64);
            assert(low | 1 != 0) by (bit_vector);
            low | 1
        },
        None => 0x9E37_79B9_7F4A_7C15,
    }
}

/// A fresh generator state, taken from the wall clock.
pub fn seed() -> (r: u64)
    ensures
        r != 0,
        exists|reading: Option<Nanos>| #[trigger] clock_gave(reading) && r == seed_of(reading),
{
    let reading: Option<Nanos> = wall_clock();
    assert(clock_gave(reading));
    seed_from(reading)
}

/// The generator state after `state`. State zero stands for a generator that
/// has not been seeded: it is seeded first.
pub fn next_state(state: u64) -> (r: u64)
    ensures
        r != 0,
        state != 0 ==> r == xorshift(state),
        state == 0 ==> exists|reading: Option<Nanos>| #[trigger]
            clock_gave(reading) && r == xorshift(seed_of(reading)),
{
    let x: u64 = if state == 0 {
        seed()
    } else {
        state
    };
    proof {
        law_xorshift_never_sticks(x);
    }
    let a: u64 = x ^ (x << 13);
    let b: u64 = a ^ (a >> 7);
    b ^ (b << 17)
}

/// The sample that a generator state stands for: exactly its top 53 bits over
/// 2^53, a number from zero up to, but not including, one.
pub fn sample(state: u64) -> (r: Binary64)
    ensures
        rounding::scaled(53, r.bits as nat) * pow2(53) == (state >> 11) * pow2(1074),
        r.bits < ONE_64,
{
    proof {
        assert(state >> 11 < 0x20_0000_0000_0000) by (bit_vector);
        lemma2_to64_rest();
        rounding::lemma_quotient_of_power(53, 1074, (state >> 11) as nat);
        crate::binary::lemma_one_64();
    }
    let r = Binary64::ratio(state >> 11, 0x20_0000_0000_0000);
    proof {
        if r.bits == ONE_64 {
            rounding::lemma_integer_exact(53, 1074, 1);
            lemma_pow2_pos(1074);
            assert((1 * pow2(1074)) * pow2(53) > (state >> 11) * pow2(1074)) by (nonlinear_arith)
                requires
                    (state >> 11) < pow2(53),
                    pow2(1074) > 0,
            ;
        }
    }
    r
}

/// A seeded generator stays seeded: no step leads to the zero state.
pub proof fn law_xorshift_never_sticks(x: u64)
    requires
        x != 0,
    ensures
        xorshift(x) != 0,
{
    let a = x ^ (x << 13);
    let b = a ^ (a >> 7);
    assert(x ^ (x << 13) != 0) by (bit_vector)
        requires
            x != 0,
    ;
    assert(a ^ (a >> 7) != 0) by (bit_vector)
        requires
            a != 0,
    ;
    assert(b ^ (b << 17) != 0) by (bit_vector)
        requires
            b != 0,
    ;
}

}
