//! Snapshot of a breaker's counters.
use vstd::prelude::*;

use crate::binary::{Binary32, Binary64};
use crate::state::State;

verus! {

/// Snapshot of circuit breaker metrics.
#[derive(Debug, Clone, Copy, PartialEq, Eq, Structural)]
pub struct CircuitMetrics {
    /// Lifetime share of failures among all recorded outcomes.
    pub failure_rate: Binary64,
    /// Failure fraction over the sliding window, zero when it is empty: the
    /// quantity that the rate rule evaluates.
    pub window_failure_rate: Binary32,
    /// Current circuit state.
    pub state: State,
    /// Successes recorded since creation.
    pub total_successes: u64,
    /// Failures recorded since creation.
    pub total_failures: u64,
    /// State transitions since creation.
    pub transitions: u64,
}

}
