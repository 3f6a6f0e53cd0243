//! A circuit breaker with a verified core.
//!
//! A breaker stands between callers and an operation that can fail. While the
//! circuit is closed, calls run and their outcomes are counted. It opens when
//! `consecutive_failures` calls in a row have failed, or when the share of
//! failures among the last `sliding_window_size` outcomes reaches
//! `failure_rate_threshold`, whichever comes first. While it is open, calls are
//! turned away. Once the wait of the backoff strategy is over it is half-open: at
//! most `half_open_max_calls` probe calls run at once, `success_threshold`
//! successes close the circuit, and one failure opens it again.
//!
//! - [`state`] holds the state machine, its mathematical model
//!   [`Machine`](state::Machine), and [`window`] the sliding window under it.
//! - [`breaker`] shares one machine among callers, with [`permit`] for the probe
//!   permits and [`lock`] for the lock and the clock. An async call is
//!   [`enter`](CircuitBreaker::enter), the operation itself, and
//!   [`settle`](CircuitBreaker::settle).
//! - [`config`] and [`backoff`] hold the settings.
//! - [`binary`] and [`rounding`] compute failure rates: floating-point numbers
//!   are held as their bit patterns, and a rate is exactly the quotient that
//!   IEEE 754 division gives.
//! - [`laws`] states what holds of the circuit as a whole, and [`behaviour`] what
//!   each operation does, written out.
//!
//! The one thing left to callers is the floating-point arithmetic of exponential
//! waits: a breaker takes a function from [`Evaluation`](backoff::Evaluation) to a
//! wait, and holds what it gives to the bounds of the strategy.
pub mod backoff;
pub mod behaviour;
pub mod binary;
pub mod breaker;
pub mod call;
pub mod config;
pub mod error;
pub mod laws;
pub mod lock;
pub mod metrics;
pub mod permit;
pub mod rounding;
pub mod state;
pub mod window;

pub use backoff::BackoffStrategy;
pub use breaker::{CircuitBreaker, CircuitBreakerBuilder};
pub use config::{CircuitBreakerConfig, CircuitBreakerConfigBuilder};
pub use error::CircuitBreakerError;
pub use metrics::CircuitMetrics;
pub use state::State;
