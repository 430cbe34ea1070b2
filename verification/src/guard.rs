//! The completion guard wraps the one-shot producer task so that a repeated
//! multi-way wait can keep polling it safely: the guard reports readiness
//! exactly once, on the poll that observes the producer's completion, and
//! reports "pending" forever after.

use vstd::prelude::*;

verus! {

/// What one poll of the guard reports to the control loop.
pub enum GuardPoll {
    Pending,
    Ready,
}

/// A two-state wrapper around a task that completes exactly once.
///
/// While `done` is false the underlying task is still running; once a poll
/// observes its completion the guard transitions to `done` and stays there.
pub struct CompletionGuard {
    pub done: bool,
}

impl CompletionGuard {
    /// A fresh guard over a task that has not completed yet.
    pub fn new() -> (g: CompletionGuard)
        ensures
            !g.done,
    {
        CompletionGuard { done: false }
    }

    /// Poll the guard. `underlying_ready` says whether the wrapped task has
    /// completed by now. The guard answers `Ready` only on the first poll
    /// that observes completion; after that it is permanently `Pending`.
    pub fn poll(&mut self, underlying_ready: bool) -> (r: GuardPoll)
        ensures
            r is Ready <==> (!old(self).done && underlying_ready),
            final(self).done == (old(self).done || underlying_ready),
    {
        if self.done {
            GuardPoll::Pending
        } else if underlying_ready {
            self.done = true;
            GuardPoll::Ready
        } else {
            GuardPoll::Pending
        }
    }
}

/// How many of a sequence of polls the guard answers with `Ready`, where
/// each entry of `readiness` reports whether the underlying task had
/// completed by the time of that poll.
pub open spec fn ready_count(g: CompletionGuard, readiness: Seq<bool>) -> nat
    decreases readiness.len(),
{
    if readiness.len() == 0 {
        0
    } else {
        (if !g.done && readiness[0] {
            1nat
        } else {
            0nat
        }) + ready_count(
            CompletionGuard { done: g.done || readiness[0] },
            readiness.drop_first(),
        )
    }
}

/// Over any sequence of polls, the guard reports `Ready` at most once, and
/// never again once it is done: a finished producer cannot re-trigger the
/// control loop's wait.
pub proof fn lemma_guard_ready_at_most_once(g: CompletionGuard, readiness: Seq<bool>)
    ensures
        ready_count(g, readiness) <= 1,
        g.done ==> ready_count(g, readiness) == 0,
    decreases readiness.len(),
{
    if readiness.len() > 0 {
        let next = CompletionGuard { done: g.done || readiness[0] };
        lemma_guard_ready_at_most_once(next, readiness.drop_first());
    }
}

} // verus!
