//! The control loop: the central state machine of the orchestrator.
//!
//! On every iteration the loop waits for the first of four happenings —
//! the stop signal, the producer's completion, the arrival of a queued
//! item, or the closure of the intake queue — and decides whether to admit
//! the item, to keep listening, or to leave the loop and drain.

use vstd::prelude::*;
use crate::guard::CompletionGuard;

verus! {

/// One happening observed by the control loop's multi-way wait.
pub enum Event {
    /// The stop signal resolved: shut down, admitting nothing further.
    StopResolved,
    /// The producer task ran to completion; its cloned senders may live on.
    ProducerDone,
    /// The next work item arrived from the intake queue.
    Arrived(String),
    /// The intake queue closed: no item is available and no sender is left.
    ChannelClosed,
}

/// What the control loop decides to do with one event.
pub enum ControlAction {
    /// Admit the item: spawn a pipeline task for it.
    Admit(String),
    /// Nothing to admit; keep listening.
    Noted,
    /// Leave the loop and start the drain phase.
    Exit,
}

/// The control loop's state: the guarded producer and whether the loop
/// has been left.
pub struct ControlLoop {
    pub producer: CompletionGuard,
    pub exited: bool,
}

/// The items the control loop admits from a sequence of events: every item
/// that arrives before the first stop resolution or queue closure, in
/// arrival order. Producer completion does not end admission.
pub open spec fn admitted_items(events: Seq<Event>) -> Seq<String>
    decreases events.len(),
{
    if events.len() == 0 {
        Seq::empty()
    } else {
        match events[0] {
            Event::StopResolved => Seq::empty(),
            Event::ChannelClosed => Seq::empty(),
            Event::ProducerDone => admitted_items(events.drop_first()),
            Event::Arrived(item) => seq![item] + admitted_items(events.drop_first()),
        }
    }
}

impl ControlLoop {
    /// A control loop that is listening, with the producer still running.
    pub fn new() -> (cl: ControlLoop)
        ensures
            !cl.exited,
            !cl.producer.done,
    {
        ControlLoop { producer: CompletionGuard::new(), exited: false }
    }

    /// React to one event: admit an arrived item, note the producer's
    /// completion (through the guard, so it is noted at most once), and
    /// exit on the stop signal or on queue closure.
    pub fn step(&mut self, event: Event) -> (a: ControlAction)
        requires
            !old(self).exited,
        ensures
            event is StopResolved ==> a is Exit && final(self).exited
                && final(self).producer == old(self).producer,
            event is ChannelClosed ==> a is Exit && final(self).exited
                && final(self).producer == old(self).producer,
            event matches Event::Arrived(item) ==> a == ControlAction::Admit(item)
                && !final(self).exited && final(self).producer == old(self).producer,
            event is ProducerDone ==> a is Noted && !final(self).exited
                && final(self).producer.done,
    {
        match event {
            Event::StopResolved => {
                self.exited = true;
                ControlAction::Exit
            }
            Event::ChannelClosed => {
                self.exited = true;
                ControlAction::Exit
            }
            Event::ProducerDone => {
                let _poll = self.producer.poll(true);
                ControlAction::Noted
            }
            Event::Arrived(item) => ControlAction::Admit(item),
        }
    }
}

} // verus!
