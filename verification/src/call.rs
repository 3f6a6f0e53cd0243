//! What a call through the breaker ends in, and what becomes of it.
use vstd::prelude::*;

use crate::error::CircuitBreakerError;

verus! {

/// How an admitted call ended.
#[derive(Debug)]
pub enum CallEnd<T, E> {
    /// The operation returned a value.
    Succeeded(T),
    /// The operation returned an error.
    Failed {
        /// The error.
        error: E,
        /// Whether the error counts as a failure of the protected operation.
        counts: bool,
    },
    /// The operation was cut off at the time limit.
    TimedOut,
}

/// What a finished call means for the circuit.
#[derive(Debug, Clone, Copy, PartialEq, Eq, Structural)]
pub enum Outcome {
    /// A success is recorded.
    Success,
    /// A failure is recorded.
    Failure,
    /// Nothing is recorded.
    Uncounted,
}

impl<T, E> CallEnd<T, E> {
    /// What this end means for the circuit.
    pub open spec fn outcome_spec(self) -> Outcome {
        match self {
            CallEnd::Succeeded(_) => Outcome::Success,
            CallEnd::Failed { counts, .. } => if counts {
                Outcome::Failure
            } else {
                Outcome::Uncounted
            },
            CallEnd::TimedOut => Outcome::Failure,
        }
    }

    /// What the caller gets.
    pub open spec fn reply_spec(self) -> Result<T, CircuitBreakerError<E>> {
        match self {
            CallEnd::Succeeded(value) => Ok(value),
            CallEnd::Failed { error, .. } => Err(CircuitBreakerError::Failure(error)),
            CallEnd::TimedOut => Err(CircuitBreakerError::Timeout),
        }
    }

    /// What this end means for the circuit: a value is a success, a time-out is
    /// a failure, and an error is a failure if it counts.
    pub fn outcome(&self) -> (r: Outcome)
        ensures
            r == self.outcome_spec(),
    {
        match self {
            CallEnd::Succeeded(_) => Outcome::Success,
            CallEnd::Failed { counts, .. } => if *counts {
                Outcome::Failure
            } else {
                Outcome::Uncounted
            },
            CallEnd::TimedOut => Outcome::Failure,
        }
    }

    /// What the caller gets: the operation's own value or error, unchanged, or
    /// the time-out.
    pub fn reply(self) -> (r: Result<T, CircuitBreakerError<E>>)
        ensures
            r == self.reply_spec(),
    {
        match self {
            CallEnd::Succeeded(value) => Ok(value),
            CallEnd::Failed { error, .. } => Err(CircuitBreakerError::Failure(error)),
            CallEnd::TimedOut => Err(CircuitBreakerError::Timeout),
        }
    }
}

}
