//! The sliding window of recent outcomes.
use std::collections::VecDeque;

use vstd::prelude::*;

use crate::binary::Binary32;

verus! {

/// How many of the outcomes are failures (`true` marks a failure).
pub open spec fn failures_in(outcomes: Seq<bool>) -> nat
    decreases outcomes.len(),
{
    if outcomes.len() == 0 {
        0
    } else {
        failures_in(outcomes.drop_last()) + if outcomes.last() {
            1nat
        } else {
            0
        }
    }
}

/// The window after one more outcome: the outcome is appended, and the oldest
/// one leaves where the window was full.
pub open spec fn slide(capacity: nat, outcomes: Seq<bool>, failed: bool) -> Seq<bool> {
    if outcomes.len() >= capacity {
        outcomes.drop_first().push(failed)
    } else {
        outcomes.push(failed)
    }
}

/// The encoding of the failure fraction of a window, zero for an empty one.
pub open spec fn rate_of(outcomes: Seq<bool>) -> Binary32 {
    if outcomes.len() == 0 {
        Binary32 { bits: 0 }
    } else {
        Binary32 { bits: Binary32::ratio_spec(failures_in(outcomes), outcomes.len()) as u32 }
    }
}

/// Fixed-capacity ring of the most recent outcomes (1 marks a failure, 0 a
/// success), with a running count of the failures in it.
pub struct Window {
    outcomes: VecDeque<u8>,
    failures: u32,
    capacity: u32,
}

impl View for Window {
    type V = Seq<bool>;

    /// The outcomes held, oldest first.
    closed spec fn view(&self) -> Seq<bool> {
        self.outcomes@.map_values(|outcome: u8| outcome == 1)
    }
}

impl Window {
    /// How many outcomes the window can hold.
    pub closed spec fn capacity(self) -> nat {
        self.capacity as nat
    }

    /// The window has room for at least one outcome, holds no more than it has
    /// room for, and the running count is right.
    pub closed spec fn wf(self) -> bool {
        &&& self.capacity >= 1
        &&& self.outcomes@.len() <= self.capacity
        &&& self.failures == failures_in(self@)
    }

    /// What `wf` says in terms of the view.
    pub proof fn lemma_wf(self)
        requires
            self.wf(),
        ensures
            1 <= self.capacity() <= u32::MAX,
            self@.len() <= self.capacity(),
    {
    }

    /// An empty window for at least one outcome.
    pub fn new(capacity: u32) -> (w: Window)
        ensures
            w.wf(),
            w@ == Seq::<bool>::empty(),
            w.capacity() == if capacity < 1 {
                1
            } else {
                capacity as nat
            },
    {
        let w = Window {
            outcomes: VecDeque::with_capacity(capacity as usize),
            failures: 0,
            capacity: if capacity < 1 {
                1
            } else {
                capacity
            },
        };
        assert(w@ =~= Seq::<bool>::empty());
        w
    }

    /// A window that stands in for one that is being worked on.
    pub(crate) fn vacant() -> (w: Window)
        ensures
            w.wf(),
    {
        let w = Window { outcomes: VecDeque::new(), failures: 0, capacity: 1 };
        assert(w@ =~= Seq::<bool>::empty());
        w
    }

    /// Records one outcome; the oldest one leaves a full window.
    pub fn record(&mut self, failed: bool)
        requires
            old(self).wf(),
        ensures
            final(self).wf(),
            final(self)@ == slide(old(self).capacity(), old(self)@, failed),
            final(self).capacity() == old(self).capacity(),
    {
        let ghost before = self@;
        if self.outcomes.len() >= self.capacity as usize {
            if let Some(evicted) = self.outcomes.pop_front() {
                proof {
                    lemma_failures_drop_first(before);
                    assert(self@ =~= before.drop_first());
                }
                if evicted == 1 {
                    self.failures = self.failures - 1;
                }
            }
        }
        let ghost kept = self@;
        self.outcomes.push_back(
            if failed {
                1
            } else {
                0
            },
        );
        proof {
            assert(self@ =~= kept.push(failed));
            assert(self@.drop_last() =~= kept);
            lemma_failures_at_most_len(kept);
        }
        if failed {
            self.failures = self.failures + 1;
        }
    }

    /// Outcomes held.
    pub fn filled(&self) -> (n: u32)
        requires
            self.wf(),
        ensures
            n == self@.len(),
    {
        self.outcomes.len() as u32
    }

    /// Failure fraction of the outcomes held, zero where there are none.
    pub fn failure_rate(&self) -> (rate: Binary32)
        requires
            self.wf(),
        ensures
            rate == rate_of(self@),
            rate.bits <= crate::binary::ONE_32,
    {
        let filled: u32 = self.filled();
        if filled == 0 {
            Binary32 { bits: 0 }
        } else {
            proof {
                lemma_failures_at_most_len(self@);
            }
            Binary32::ratio(self.failures, filled)
        }
    }

    /// Outcomes held and failure fraction once one more failure is recorded.
    pub fn after_failure(&self) -> (r: (u32, Binary32))
        requires
            self.wf(),
        ensures
            r.0 == slide(self.capacity(), self@, true).len(),
            r.1 == rate_of(slide(self.capacity(), self@, true)),
    {
        let full = self.outcomes.len() >= self.capacity as usize;
        let ghost next = slide(self.capacity(), self@, true);
        proof {
            lemma_failures_at_most_len(self@);
            lemma_failures_at_most_len(next);
            if full {
                lemma_failures_drop_first(self@);
                assert(next.drop_last() =~= self@.drop_first());
            } else {
                assert(next.drop_last() =~= self@);
            }
        }
        let leaves: u32 = if full && self.outcomes[0] == 1 {
            1
        } else {
            0
        };
        let failures: u32 = self.failures - leaves + 1;
        let filled: u32 = if full {
            self.capacity
        } else {
            self.outcomes.len() as u32 + 1
        };
        (filled, Binary32::ratio(failures, filled))
    }

    /// Forgets all outcomes.
    pub fn clear(&mut self)
        requires
            old(self).wf(),
        ensures
            final(self).wf(),
            final(self)@ == Seq::<bool>::empty(),
            final(self).capacity() == old(self).capacity(),
    {
        self.outcomes.clear();
        self.failures = 0;
        assert(self@ =~= Seq::<bool>::empty());
    }
}

/// There are no more failures than outcomes.
pub proof fn lemma_failures_at_most_len(outcomes: Seq<bool>)
    ensures
        failures_in(outcomes) <= outcomes.len(),
    decreases outcomes.len(),
{
    if outcomes.len() > 0 {
        lemma_failures_at_most_len(outcomes.drop_last());
    }
}

/// Without its oldest outcome a window has one failure less if that outcome was
/// one.
pub proof fn lemma_failures_drop_first(outcomes: Seq<bool>)
    requires
        outcomes.len() > 0,
    ensures
        failures_in(outcomes) == failures_in(outcomes.drop_first()) + if outcomes.first() {
            1nat
        } else {
            0
        },
    decreases outcomes.len(),
{
    if outcomes.len() == 1 {
        assert(outcomes.drop_last() =~= Seq::<bool>::empty());
        assert(outcomes.drop_first() =~= Seq::<bool>::empty());
    } else {
        lemma_failures_drop_first(outcomes.drop_last());
        assert(outcomes.drop_first().drop_last() =~= outcomes.drop_last().drop_first());
    }
}

}
