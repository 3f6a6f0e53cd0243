//! Half-open probe permits.
use std::sync::atomic::{AtomicUsize, Ordering};

use vstd::prelude::*;

verus! {

/// The count of permits in use after one more was taken, `None` where all are
/// in use.
pub open spec fn one_more(in_use: usize, max: usize) -> Option<usize> {
    if in_use < max {
        Some((in_use + 1) as usize)
    } else {
        None
    }
}

/// The count of permits in use after one more was taken, `None` where all are
/// in use.
pub fn take_slot(in_use: usize, max: usize) -> (r: Option<usize>)
    ensures
        r == one_more(in_use, max),
{
    if in_use < max {
        Some(in_use + 1)
    } else {
        None
    }
}

/// `AtomicUsize::fetch_update` with [`take_slot`]: adds one to the count in one
/// atomic step if `take_slot` allows it. The result holds the count just before:
/// in `Ok` a count that allowed one more, in `Err` a count that did not. What
/// the count is rests with the other holders of the counter.
#[verifier::external_body]
fn claim(permits: &AtomicUsize, max: usize) -> (r: Result<usize, usize>)
    ensures
        match r {
            Ok(in_use) => one_more(in_use, max) is Some,
            Err(in_use) => one_more(in_use, max) is None,
        },
{
    permits.fetch_update(Ordering::AcqRel, Ordering::Acquire, |in_use| take_slot(in_use, max))
}

/// Whether `r` is what claiming a permit under `max_calls` answered: in `Ok` the count
/// before the one that was taken, in `Err` the count that allowed no more.
pub closed spec fn claimed(permits: &AtomicUsize, max_calls: u32, r: Result<usize, usize>) -> bool {
    call_ensures(claim, (permits, max_calls as usize), r)
}

/// `AtomicUsize::fetch_sub`: takes one off the count.
#[verifier::external_body]
fn release(permits: &AtomicUsize)
    opens_invariants none
    no_unwind
{
    permits.fetch_sub(1, Ordering::Release);
}

/// Whether a permit was given back to the counter.
pub closed spec fn released(permits: AtomicUsize) -> bool {
    call_ensures(release, (&permits,), ())
}

/// A held half-open probe permit. Dropping it gives the permit back.
#[derive(Debug)]
pub struct HalfOpenPermit<'a> {
    permits: &'a AtomicUsize,
    limit: u32,
    before: usize,
}

impl<'a> HalfOpenPermit<'a> {
    /// A permit is only ever taken below its limit.
    #[verifier::type_invariant]
    spec fn inv(self) -> bool {
        self.before < self.limit
    }

    /// The counter that the permit was taken from.
    pub closed spec fn counter(self) -> AtomicUsize {
        *self.permits
    }

    /// The limit under which the permit was taken.
    pub closed spec fn limit(self) -> nat {
        self.limit as nat
    }

    /// How many permits were in use when this one was taken.
    pub closed spec fn before(self) -> nat {
        self.before as nat
    }

    /// Takes one permit. Where `max_calls` permits or more are in use, none is
    /// taken, and the count in use is given instead.
    pub fn try_acquire(permits: &'a AtomicUsize, max_calls: u32) -> (r: Result<
        HalfOpenPermit<'a>,
        usize,
    >)
        ensures
            match r {
                Ok(p) => p.counter() == *permits && p.limit() == max_calls && p.before()
                    < max_calls,
                Err(in_use) => in_use >= max_calls,
            },
            exists|count: Result<usize, usize>|
                {
                    &&& #[trigger] claimed(permits, max_calls, count)
                    &&& match count {
                        Ok(before) => r is Ok && r->Ok_0.before() == before,
                        Err(in_use) => r == Err::<HalfOpenPermit<'a>, usize>(in_use),
                    }
                },
    {
        let count = claim(permits, max_calls as usize);
        assert(claimed(permits, max_calls, count));
        match count {
            Ok(before) => Ok(HalfOpenPermit { permits, limit: max_calls, before }),
            Err(in_use) => Err(in_use),
        }
    }

    /// Takes one permit, or `None` where `max_calls` permits are in use.
    pub fn acquire(permits: &'a AtomicUsize, max_calls: u32) -> (r: Option<HalfOpenPermit<'a>>)
        ensures
            r is Some ==> r->0.counter() == *permits && r->0.limit() == max_calls
                && r->0.before() < max_calls,
            max_calls == 0 ==> r is None,
            exists|answer: Result<HalfOpenPermit<'a>, usize>|
                {
                    &&& #[trigger] call_ensures(
                        HalfOpenPermit::try_acquire,
                        (permits, max_calls),
                        answer,
                    )
                    &&& r == match answer {
                        Ok(permit) => Some(permit),
                        Err(_) => None,
                    }
                },
    {
        match Self::try_acquire(permits, max_calls) {
            Ok(permit) => Some(permit),
            Err(_) => None,
        }
    }
}

impl<'a> Drop for HalfOpenPermit<'a> {
    fn drop(&mut self)
        ensures
            released(old(self).counter()),
        opens_invariants none
        no_unwind
    {
        release(self.permits);
    }
}

}
