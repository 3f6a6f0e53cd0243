# breaker

An async circuit breaker whose state machine is verified with
[Verus](https://github.com/verus-lang/verus).

A closed circuit opens on a streak of failures or when the share of failures in
a sliding window reaches a threshold. An open one turns calls away until the wait
of its backoff strategy is over. A half-open one admits a bounded number of
probes: enough successes close it, one failure opens it again.

## Layout

- `src/` is the library, verified throughout. `state` holds the machine and its
  model, `window` the sliding window, `breaker` the handle that callers share,
  `permit` the probe permits, `config` and `backoff` the settings, `call` and
  `error` what a call ends in. `binary` and `rounding` compute failure rates on
  the bit patterns of floating-point numbers: a rate is exactly the IEEE 754
  quotient. `laws` states what holds of the circuit as a whole.
- `app/` is ordinary Rust around it: `f32`, `f64` and `Duration` settings, the
  async `call` with its time limit, state-change callbacks, metrics, and a Tower
  layer. The powers and the jitter of exponential waits are evaluated there, in
  floating point; the library holds the results to the bounds of the strategy.
- `tests/` runs the library.

## Reading the contracts

The operations of `StateMachine` say exactly what becomes of the machine, over
the model `Machine`. The handle `CircuitBreaker` applies them under a lock that
other callers hold too. Its contracts say that the answer is that of one call of
the machine's own operation, made on what the lock gave, with the breaker's
settings, at a reading of its clock; and what holds whatever the machine was like.
A probe permit carries its counter, the limit under which it was taken and the
count it found, so what is said of the limit holds of every permit there is. Every
transition is listed in what the operation returns, the one from open to half-open
included, for `app/` to deliver.

The items marked `external_body` and `assume_specification` are not proved. They
are the lock and the clock (`lock`), the permit counter (`permit`) and the wall
clock that seeds jitter (`backoff`).
