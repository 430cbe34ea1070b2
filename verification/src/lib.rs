//! A two-stage, admission-controlled work pipeline.
//!
//! Work items arrive from a producer over an intake queue. Each admitted
//! item is signed under a concurrency-limited sign gate and, when signing
//! yields identifiers, uploaded under a concurrency-limited upload gate.
//! Once the orchestrator is told to stop — or the intake queue closes —
//! no further items are admitted, and every task already spawned is
//! drained to completion before the run ends.

pub mod control;
pub mod gate;
pub mod guard;
pub mod pipeline;

use vstd::prelude::*;
use crate::control::{admitted_items, ControlAction, ControlLoop, Event};
use crate::pipeline::{items_of, uploads_of, Pipeline, TaskPhase, WorkOrder};

verus! {

/// The orders a run gives rise to: the `j`-th admitted item paired with
/// the outcome its sign stage invocation yields, `outcomes[j]`.
pub open spec fn paired_orders(
    events: Seq<Event>,
    outcomes: Seq<Option<Vec<String>>>,
) -> Seq<WorkOrder> {
    Seq::new(
        admitted_items(events).len(),
        |j: int| (WorkOrder { item: admitted_items(events)[j], sign_result: outcomes[j] }),
    )
}

/// One full run of the orchestrator over a recorded interleaving.
///
/// `events` is what the control loop's multi-way wait observes, in order;
/// `outcomes` gives, per admitted item, what that item's sign stage
/// invocation yields (the stages are outside collaborators, so their
/// outcomes are inputs here, and the run is verified for every value of
/// them). The run admits items until the stop signal resolves or the
/// intake queue closes — the producer's own completion ends nothing —
/// then drains every spawned task, and returns only after the drain.
///
/// On return: exactly one sign invocation was recorded per admitted item,
/// in admission order; an upload invocation was recorded exactly for the
/// admitted items whose sign stage yielded identifiers, in order; the
/// tracker holds no pending task and no permit is outstanding.
///
/// Both capacities must be positive: no permit is ever granted from a
/// semaphore of size zero, so a pipeline sized at zero could never drain.
pub fn run(
    num_signers: usize,
    num_uploaders: usize,
    events: Vec<Event>,
    outcomes: Vec<Option<Vec<String>>>,
) -> (p: Pipeline)
    requires
        num_signers >= 1,
        num_uploaders >= 1,
        outcomes@.len() == admitted_items(events@).len(),
    ensures
        p.wf(),
        p.sign_gate.capacity == num_signers,
        p.upload_gate.capacity == num_uploaders,
        p.sign_gate.outstanding == 0,
        p.upload_gate.outstanding == 0,
        p.orders@ == paired_orders(events@, outcomes@),
        p.tasks@.len() == admitted_items(events@).len(),
        forall|j: int| 0 <= j < p.tasks@.len() ==> #[trigger] p.tasks@[j] is Done,
        p.signs@ == admitted_items(events@),
        p.uploads@ == uploads_of(paired_orders(events@, outcomes@)),
{
    let ghost all_events = events@;
    let ghost all_outs = outcomes@;
    let mut events = events;
    let mut outcomes = outcomes;
    let mut cl = ControlLoop::new();
    let mut p = Pipeline::new(num_signers, num_uploaders);
    let mut exited = false;
    while !exited && events.len() > 0
        invariant
            p.wf(),
            p.sign_gate.capacity == num_signers,
            p.upload_gate.capacity == num_uploaders,
            p.signs@.len() == 0,
            p.uploads@.len() == 0,
            cl.exited == exited,
            forall|j: int|
                0 <= j < p.tasks@.len() ==> #[trigger] p.tasks@[j] == (TaskPhase::WaitingSign(
                    p.orders@[j],
                )),
            !exited ==> admitted_items(all_events) == items_of(p.orders@) + admitted_items(
                events@,
            ),
            exited ==> admitted_items(all_events) == items_of(p.orders@),
            outcomes@ == all_outs.skip(p.orders@.len() as int),
            forall|j: int|
                0 <= j < p.orders@.len() ==> #[trigger] p.orders@[j].sign_result == all_outs[j],
            all_outs.len() == admitted_items(all_events).len(),
        decreases events@.len(),
    {
        let ghost evs = events@;
        let ev = events.remove(0);
        let ghost gev = ev;
        proof {
            assert(evs.remove(0) =~= evs.drop_first());
        }
        let a = cl.step(ev);
        match a {
            ControlAction::Admit(item) => {
                proof {
                    assert(gev == Event::Arrived(item));
                    assert(admitted_items(evs) =~= seq![item] + admitted_items(events@));
                    assert(admitted_items(all_events).len() >= items_of(p.orders@).len() + 1);
                    assert(outcomes@.len() >= 1);
                }
                let ghost pre_orders = p.orders@;
                let outcome = outcomes.remove(0);
                p.spawn(WorkOrder { item, sign_result: outcome });
                proof {
                    assert(items_of(p.orders@) =~= items_of(pre_orders).push(item));
                    assert(items_of(p.orders@) + admitted_items(events@) =~= items_of(pre_orders)
                        + admitted_items(evs));
                    assert(outcomes@ =~= all_outs.skip(p.orders@.len() as int));
                }
            }
            ControlAction::Noted => {
                proof {
                    assert(gev is ProducerDone);
                    assert(admitted_items(evs) =~= admitted_items(events@));
                }
            }
            ControlAction::Exit => {
                exited = true;
                proof {
                    assert(gev is StopResolved || gev is ChannelClosed);
                    assert(admitted_items(evs) =~= Seq::<String>::empty());
                    assert(items_of(p.orders@) + admitted_items(evs) =~= items_of(p.orders@));
                }
            }
        }
    }
    proof {
        if !exited {
            assert(events@ =~= Seq::<Event>::empty());
            assert(items_of(p.orders@) + admitted_items(events@) =~= items_of(p.orders@));
        }
        assert(items_of(p.orders@).len() == p.orders@.len());
        assert forall|j: int| 0 <= j < p.orders@.len() implies #[trigger] p.orders@[j]
            == paired_orders(all_events, all_outs)[j] by {
            assert(items_of(p.orders@)[j] == p.orders@[j].item);
            assert(p.orders@[j].item == admitted_items(all_events)[j]);
            assert(p.orders@[j].sign_result == all_outs[j]);
        }
        assert(p.orders@ =~= paired_orders(all_events, all_outs));
        assert(p.signs@ =~= Seq::<String>::empty());
        assert(p.uploads@ =~= Seq::<Vec<String>>::empty());
    }
    p.drain();
    proof {
        assert(p.signs@ =~= items_of(paired_orders(all_events, all_outs)));
        assert(p.signs@ =~= admitted_items(all_events));
        assert(p.uploads@ =~= uploads_of(paired_orders(all_events, all_outs)));
    }
    p
}

} // verus!
