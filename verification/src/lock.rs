//! The lock around the shared state, and the clock.
use std::ops::{Deref, DerefMut};
use std::time::Instant;

use parking_lot::{lock_api, RwLock};
use vstd::prelude::*;

use crate::backoff::Nanos;

verus! {

/// The raw lock under a `parking_lot::RwLock`.
#[verifier::external_type_specification]
#[verifier::external_body]
pub struct ExRawRwLock(parking_lot::RawRwLock);

/// The generic reader-writer lock that `parking_lot::RwLock` is an instance of.
/// Its value stands for the lock itself: what it guards changes under shared
/// references and is not part of it.
#[verifier::external_type_specification]
#[verifier::external_body]
#[verifier::reject_recursive_types(R)]
#[verifier::reject_recursive_types(T)]
pub struct ExRwLock<R, T: ?Sized>(lock_api::RwLock<R, T>);

/// A reading of the monotonic clock.
#[verifier::external_type_specification]
#[verifier::external_body]
pub struct ExInstant(std::time::Instant);

/// `parking_lot::RwLock::new`: a lock around `value`. Nothing is claimed of the
/// lock, whose content any holder of a reference may change.
#[verifier::external_body]
pub(crate) fn guard_new<T>(value: T) -> (lock: RwLock<T>) {
    RwLock::new(value)
}

/// `parking_lot::RwLock::read`: shared access to the content. Nothing is claimed
/// of the content, which is whatever the last writer left there.
#[verifier::external_body]
pub(crate) fn guard_read<'a, T>(lock: &'a RwLock<T>) -> (guard: impl Deref<Target = T> + 'a) {
    lock.read()
}

/// `parking_lot::RwLock::write`: exclusive access to the content. Nothing is
/// claimed of the content, which is whatever the last writer left there.
#[verifier::external_body]
pub(crate) fn guard_write<'a, T>(lock: &'a RwLock<T>) -> (guard: impl DerefMut<Target = T> + 'a) {
    lock.write()
}

/// What a guard gives shared access to.
pub(crate) fn content<'g, T, D: Deref<Target = T>>(guard: &'g D) -> (value: &'g T)
    ensures
        call_ensures(D::deref, (guard,), value),
{
    guard.deref()
}

/// What a guard gives exclusive access to.
pub(crate) fn content_mut<'g, T, D: DerefMut<Target = T>>(guard: &'g mut D) -> (value: &'g mut T)
    ensures
        exists|held: &mut D| *held == *old(guard) && #[trigger] call_ensures(
            D::deref_mut,
            (held,),
            value,
        ),
{
    guard.deref_mut()
}

/// `std::time::Instant::now`: the monotonic clock. Nothing is claimed of the
/// reading.
pub assume_specification[ Instant::now ]() -> (now: Instant);

/// `std::time::Instant::elapsed`, in nanoseconds: the time since an earlier
/// reading. Nothing is claimed of the amount.
#[verifier::external_body]
pub(crate) fn nanos_since(origin: &Instant) -> (now: Nanos) {
    origin.elapsed().as_nanos()
}

}
