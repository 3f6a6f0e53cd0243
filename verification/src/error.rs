//! What a call through the breaker can fail with.
use vstd::prelude::*;

verus! {

/// Errors of a call through the circuit breaker. The operation's own error is
/// kept as it is.
#[derive(Debug, PartialEq, Eq)]
pub enum CircuitBreakerError<E> {
    /// The circuit is open: the call was rejected before the operation ran.
    CircuitOpen,
    /// The circuit is half-open and all probe permits are in use: the call was
    /// rejected. This does not count as a failure.
    Rejected,
    /// The operation returned an error.
    Failure(E),
    /// The operation exceeded the time limit and was recorded as a failure.
    Timeout,
}

impl<E> From<E> for CircuitBreakerError<E> {
    fn from(e: E) -> (r: Self) {
        CircuitBreakerError::Failure(e)
    }
}

impl<E> vstd::std_specs::convert::FromSpecImpl<E> for CircuitBreakerError<E> {
    open spec fn obeys_from_spec() -> bool {
        true
    }

    open spec fn from_spec(e: E) -> Self {
        CircuitBreakerError::Failure(e)
    }
}

impl<E: std::fmt::Display> CircuitBreakerError<E> {
    /// The message of this error. An error of the operation speaks for itself.
    pub fn to_string(&self) -> (message: String)
        ensures
            match *self {
                CircuitBreakerError::CircuitOpen => message@ == "circuit breaker is open"@,
                CircuitBreakerError::Rejected => message@
                    == "circuit breaker: half-open probe capacity exhausted"@,
                CircuitBreakerError::Failure(e) => vstd::string::to_string_from_display_ensures::<
                    E,
                >(&e, message),
                CircuitBreakerError::Timeout => message@
                    == "circuit breaker: operation timed out"@,
            },
    {
        match self {
            CircuitBreakerError::CircuitOpen => "circuit breaker is open".to_owned(),
            CircuitBreakerError::Rejected => {
                "circuit breaker: half-open probe capacity exhausted".to_owned()
            },
            CircuitBreakerError::Failure(e) => e.to_string(),
            CircuitBreakerError::Timeout => "circuit breaker: operation timed out".to_owned(),
        }
    }
}

}
