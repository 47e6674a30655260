//! A future written by hand, as the decisions it makes on each poll.

use vstd::prelude::*;

verus! {

/// A future that becomes ready after a given number of polls, and outputs that number.
pub struct PollCounter {
    polls: u32,
    ready_after: u32,
}

/// What the `n`-th poll of a counter made ready after `ready_after` polls answers: the number of
/// polls so far once there have been enough, and nothing (pending) before that.
pub open spec fn poll_outcome(n: nat, ready_after: nat) -> Option<nat> {
    if n >= ready_after {
        Some(n)
    } else {
        None
    }
}

impl PollCounter {
    /// How many times it has been polled.
    pub closed spec fn polls(&self) -> u32 {
        self.polls
    }

    /// How many polls it takes to become ready.
    pub closed spec fn ready_after(&self) -> u32 {
        self.ready_after
    }

    /// Creates a future that returns `Pending` until it has been polled `ready_after` times.
    pub fn new(ready_after: u32) -> (r: Self)
        ensures
            r.polls() == 0,
            r.ready_after() == ready_after,
    {
        Self { polls: 0, ready_after }
    }

    /// How many times it has been polled, which a caller checks before polling once more.
    pub fn poll_count(&self) -> (r: u32)
        ensures
            r == self.polls(),
    {
        self.polls
    }

    /// One poll: counts it, and answers the count once it has reached `ready_after`, or `None`
    /// (pending, come back later) before that.
    pub fn poll_once(&mut self) -> (r: Option<u32>)
        requires
            old(self).polls() < u32::MAX,
        ensures
            final(self).polls() == old(self).polls() + 1,
            final(self).ready_after() == old(self).ready_after(),
            r matches Some(n) ==> poll_outcome(final(self).polls() as nat, old(self).ready_after() as nat) == Some(n as nat),
            r is None ==> poll_outcome(final(self).polls() as nat, old(self).ready_after() as nat) is None,
    {
        self.polls = self.polls + 1;
        if self.polls >= self.ready_after {
            Some(self.polls)
        } else {
            None
        }
    }
}

/// Pending means come back later: a fresh counter stays pending until it has been polled
/// `ready_after` times (at least once), and then answers that number of polls.
pub proof fn law_ready_after_enough_polls(ready_after: nat)
    ensures
        forall|n: nat| 1 <= n < ready_after ==> #[trigger] poll_outcome(n, ready_after) is None,
        poll_outcome(if ready_after == 0 { 1 } else { ready_after }, ready_after) == Some(
            if ready_after == 0 { 1nat } else { ready_after },
        ),
{
}

} // verus!
