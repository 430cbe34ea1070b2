//! The pipeline tasks and the task tracker.
//!
//! Every admitted work item becomes one tracked task that walks a fixed
//! lifecycle: wait for a sign permit, sign, then — only when signing
//! yielded identifiers — wait for an upload permit and upload. The
//! `Pipeline` holds the two admission gates, the tracked tasks, and the
//! record of every sign and upload invocation that has occurred.
//!
//! The stage invocations themselves are outside collaborators — in the
//! daemon, invocations of an external command-line tool; the model
//! therefore takes each item's sign outcome as data and is verified for
//! every value of it.

use vstd::prelude::*;
use crate::gate::AdmissionGate;

verus! {

/// A work item together with the outcome its sign stage invocation yields:
/// either the identifiers to upload, or nothing, in which case the upload
/// stage is skipped for this item.
pub struct WorkOrder {
    pub item: String,
    pub sign_result: Option<Vec<String>>,
}

/// Where one pipeline task stands in its lifecycle.
pub enum TaskPhase {
    /// Waiting for a permit from the sign gate.
    WaitingSign(WorkOrder),
    /// Holding a sign permit; the sign invocation is in flight.
    Signing(WorkOrder),
    /// Signed with a result; waiting for a permit from the upload gate.
    WaitingUpload(Vec<String>),
    /// Holding an upload permit; the upload invocation is in flight.
    Uploading(Vec<String>),
    /// Finished; the task only remains to be removed by the drain.
    Done,
}

/// The task tracker and both admission gates, together with the trace of
/// stage invocations: `signs` records each item whose sign stage ran, in
/// invocation order, and `uploads` records the identifiers of each upload
/// stage invocation, in invocation order.
pub struct Pipeline {
    pub sign_gate: AdmissionGate,
    pub upload_gate: AdmissionGate,
    pub tasks: Vec<TaskPhase>,
    pub signs: Vec<String>,
    pub uploads: Vec<Vec<String>>,
    pub orders: Ghost<Seq<WorkOrder>>,
}

pub open spec fn is_signing(p: TaskPhase) -> bool {
    p is Signing
}

pub open spec fn is_uploading(p: TaskPhase) -> bool {
    p is Uploading
}

/// How many tasks currently hold a sign permit.
pub open spec fn count_signing(s: Seq<TaskPhase>) -> nat
    decreases s.len(),
{
    if s.len() == 0 {
        0
    } else {
        count_signing(s.drop_last()) + (if is_signing(s.last()) {
            1nat
        } else {
            0nat
        })
    }
}

/// How many tasks currently hold an upload permit.
pub open spec fn count_uploading(s: Seq<TaskPhase>) -> nat
    decreases s.len(),
{
    if s.len() == 0 {
        0
    } else {
        count_uploading(s.drop_last()) + (if is_uploading(s.last()) {
            1nat
        } else {
            0nat
        })
    }
}

/// A task's phase never contradicts the order it was spawned for: before
/// signing it carries that very order, and once it holds or awaits an
/// upload permit the identifiers are exactly what that order's sign stage
/// yielded. In particular, a task whose sign stage yielded nothing never
/// reaches the upload phases.
pub open spec fn phase_ok(phase: TaskPhase, order: WorkOrder) -> bool {
    match phase {
        TaskPhase::WaitingSign(w) => w == order,
        TaskPhase::Signing(w) => w == order,
        TaskPhase::WaitingUpload(ids) => order.sign_result == Some(ids),
        TaskPhase::Uploading(ids) => order.sign_result == Some(ids),
        TaskPhase::Done => true,
    }
}

/// The items of a run of orders, in order: one sign invocation is owed to
/// each.
pub open spec fn items_of(orders: Seq<WorkOrder>) -> Seq<String> {
    orders.map_values(|o: WorkOrder| o.item)
}

/// The upload invocations a run of orders gives rise to: the identifiers
/// of each order whose sign stage yields a result, in order. Orders whose
/// sign stage yields nothing contribute no upload.
pub open spec fn uploads_of(orders: Seq<WorkOrder>) -> Seq<Vec<String>>
    decreases orders.len(),
{
    if orders.len() == 0 {
        Seq::empty()
    } else {
        uploads_of(orders.drop_last()) + (match orders.last().sign_result {
            Some(ids) => seq![ids],
            None => Seq::empty(),
        })
    }
}

/// How many orders' sign stages yield a result.
pub open spec fn count_with_result(orders: Seq<WorkOrder>) -> nat
    decreases orders.len(),
{
    if orders.len() == 0 {
        0
    } else {
        count_with_result(orders.drop_last()) + (if orders.last().sign_result is Some {
            1nat
        } else {
            0nat
        })
    }
}

proof fn lemma_count_signing_update(s: Seq<TaskPhase>, i: int, v: TaskPhase)
    requires
        0 <= i < s.len(),
    ensures
        count_signing(s.update(i, v)) + (if is_signing(s[i]) {
            1nat
        } else {
            0nat
        }) == count_signing(s) + (if is_signing(v) {
            1nat
        } else {
            0nat
        }),
    decreases s.len(),
{
    let t = s.update(i, v);
    if i == s.len() - 1 {
        assert(t.drop_last() =~= s.drop_last());
    } else {
        assert(t.drop_last() =~= s.drop_last().update(i, v));
        assert(t.last() == s.last());
        lemma_count_signing_update(s.drop_last(), i, v);
    }
}

proof fn lemma_count_uploading_update(s: Seq<TaskPhase>, i: int, v: TaskPhase)
    requires
        0 <= i < s.len(),
    ensures
        count_uploading(s.update(i, v)) + (if is_uploading(s[i]) {
            1nat
        } else {
            0nat
        }) == count_uploading(s) + (if is_uploading(v) {
            1nat
        } else {
            0nat
        }),
    decreases s.len(),
{
    let t = s.update(i, v);
    if i == s.len() - 1 {
        assert(t.drop_last() =~= s.drop_last());
    } else {
        assert(t.drop_last() =~= s.drop_last().update(i, v));
        assert(t.last() == s.last());
        lemma_count_uploading_update(s.drop_last(), i, v);
    }
}

proof fn lemma_count_signing_zero(s: Seq<TaskPhase>)
    requires
        forall|j: int| 0 <= j < s.len() ==> !is_signing(#[trigger] s[j]),
    ensures
        count_signing(s) == 0,
    decreases s.len(),
{
    if s.len() > 0 {
        assert(forall|j: int|
            0 <= j < s.drop_last().len() ==> #[trigger] s.drop_last()[j] == s[j]);
        lemma_count_signing_zero(s.drop_last());
    }
}

proof fn lemma_count_uploading_zero(s: Seq<TaskPhase>)
    requires
        forall|j: int| 0 <= j < s.len() ==> !is_uploading(#[trigger] s[j]),
    ensures
        count_uploading(s) == 0,
    decreases s.len(),
{
    if s.len() > 0 {
        assert(forall|j: int|
            0 <= j < s.drop_last().len() ==> #[trigger] s.drop_last()[j] == s[j]);
        lemma_count_uploading_zero(s.drop_last());
    }
}

proof fn lemma_count_signing_pos(s: Seq<TaskPhase>, i: int)
    requires
        0 <= i < s.len(),
        is_signing(s[i]),
    ensures
        count_signing(s) >= 1,
    decreases s.len(),
{
    if i < s.len() - 1 {
        lemma_count_signing_pos(s.drop_last(), i);
    }
}

proof fn lemma_count_uploading_pos(s: Seq<TaskPhase>, i: int)
    requires
        0 <= i < s.len(),
        is_uploading(s[i]),
    ensures
        count_uploading(s) >= 1,
    decreases s.len(),
{
    if i < s.len() - 1 {
        lemma_count_uploading_pos(s.drop_last(), i);
    }
}

/// Nothing but task `i` (and, with it, the gates and the trace) moves in
/// one scheduler step: every other task, both capacities, and the
/// spawned orders stay as they were.
pub open spec fn frame_ok(pre: Pipeline, post: Pipeline, i: int) -> bool {
    &&& post.orders@ == pre.orders@
    &&& post.tasks@.len() == pre.tasks@.len()
    &&& forall|j: int|
        0 <= j < pre.tasks@.len() && j != i ==> #[trigger] post.tasks@[j] == pre.tasks@[j]
    &&& post.sign_gate.capacity == pre.sign_gate.capacity
    &&& post.upload_gate.capacity == pre.upload_gate.capacity
}

/// A step that could not progress (a full gate, or a finished task)
/// leaves the pipeline exactly as it was.
pub open spec fn stalled(pre: Pipeline, post: Pipeline) -> bool {
    &&& post.tasks@ == pre.tasks@
    &&& post.signs@ == pre.signs@
    &&& post.uploads@ == pre.uploads@
    &&& post.sign_gate == pre.sign_gate
    &&& post.upload_gate == pre.upload_gate
    &&& post.orders@ == pre.orders@
}

/// What one scheduler step on task `i` does, by the task's phase:
/// - waiting tasks advance exactly when their gate has room, taking a
///   permit;
/// - a signing task completes its sign invocation, releases its permit,
///   records the invocation, and either finishes (no result) or moves on
///   to await an upload permit (with the identifiers the sign yielded);
/// - an uploading task completes its upload invocation, releases its
///   permit and finishes, recording the upload;
/// - a finished task never moves again.
pub open spec fn step_effect(pre: Pipeline, post: Pipeline, i: int, progressed: bool) -> bool {
    &&& frame_ok(pre, post, i)
    &&& match pre.tasks@[i] {
        TaskPhase::WaitingSign(w) => if pre.sign_gate.has_room() {
            &&& progressed
            &&& post.tasks@[i] == TaskPhase::Signing(w)
            &&& post.sign_gate.outstanding == pre.sign_gate.outstanding + 1
            &&& post.upload_gate == pre.upload_gate
            &&& post.signs@ == pre.signs@
            &&& post.uploads@ == pre.uploads@
        } else {
            !progressed && stalled(pre, post)
        },
        TaskPhase::Signing(w) => {
            &&& progressed
            &&& post.sign_gate.outstanding + 1 == pre.sign_gate.outstanding
            &&& post.upload_gate == pre.upload_gate
            &&& post.signs@ == pre.signs@.push(w.item)
            &&& post.uploads@ == pre.uploads@
            &&& match w.sign_result {
                None => post.tasks@[i] is Done,
                Some(ids) => post.tasks@[i] == TaskPhase::WaitingUpload(ids),
            }
        },
        TaskPhase::WaitingUpload(ids) => if pre.upload_gate.has_room() {
            &&& progressed
            &&& post.tasks@[i] == TaskPhase::Uploading(ids)
            &&& post.upload_gate.outstanding == pre.upload_gate.outstanding + 1
            &&& post.sign_gate == pre.sign_gate
            &&& post.signs@ == pre.signs@
            &&& post.uploads@ == pre.uploads@
        } else {
            !progressed && stalled(pre, post)
        },
        TaskPhase::Uploading(ids) => {
            &&& progressed
            &&& post.tasks@[i] is Done
            &&& post.upload_gate.outstanding + 1 == pre.upload_gate.outstanding
            &&& post.sign_gate == pre.sign_gate
            &&& post.signs@ == pre.signs@
            &&& post.uploads@ == pre.uploads@.push(ids)
        },
        TaskPhase::Done => !progressed && stalled(pre, post),
    }
}

/// At every reachable state of a well-formed pipeline, the number of
/// concurrently executing sign invocations is at most the sign gate's
/// capacity, and likewise for upload invocations: each in-flight stage
/// invocation holds a permit, and neither gate ever grants more permits
/// than it was sized with.
pub proof fn lemma_concurrency_bounded(p: Pipeline)
    requires
        p.wf(),
    ensures
        count_signing(p.tasks@) <= p.sign_gate.capacity,
        count_uploading(p.tasks@) <= p.upload_gate.capacity,
{
}

/// A task whose sign stage yields no result never occupies an upload
/// phase: the upload stage is skipped outright for that item.
pub proof fn lemma_skipped_item_never_uploads(p: Pipeline, j: int)
    requires
        p.wf(),
        0 <= j < p.tasks@.len(),
        p.orders@[j].sign_result is None,
    ensures
        !(p.tasks@[j] is WaitingUpload),
        !(p.tasks@[j] is Uploading),
{
}

/// A run of orders owes exactly one upload invocation per order whose
/// sign stage yields a result — and none for the orders whose sign stage
/// yields nothing.
pub proof fn lemma_one_upload_per_yielded_result(orders: Seq<WorkOrder>)
    ensures
        uploads_of(orders).len() == count_with_result(orders),
    decreases orders.len(),
{
    if orders.len() > 0 {
        lemma_one_upload_per_yielded_result(orders.drop_last());
    }
}

impl Pipeline {
    /// Well-formedness: both gates respect their capacity, each gate's
    /// outstanding permits are exactly the tasks in the corresponding
    /// in-flight phase, and every task's phase is consistent with the
    /// order it was spawned for.
    pub open spec fn wf(self) -> bool {
        &&& self.sign_gate.wf()
        &&& self.upload_gate.wf()
        &&& self.tasks@.len() == self.orders@.len()
        &&& self.sign_gate.outstanding == count_signing(self.tasks@)
        &&& self.upload_gate.outstanding == count_uploading(self.tasks@)
        &&& forall|j: int|
            0 <= j < self.tasks@.len() ==> phase_ok(#[trigger] self.tasks@[j], self.orders@[j])
    }

    /// A pipeline with both gates at full capacity, no tasks and an empty
    /// trace.
    pub fn new(num_signers: usize, num_uploaders: usize) -> (p: Pipeline)
        ensures
            p.wf(),
            p.sign_gate.capacity == num_signers,
            p.upload_gate.capacity == num_uploaders,
            p.sign_gate.outstanding == 0,
            p.upload_gate.outstanding == 0,
            p.tasks@ =~= Seq::<TaskPhase>::empty(),
            p.orders@ =~= Seq::<WorkOrder>::empty(),
            p.signs@ =~= Seq::<String>::empty(),
            p.uploads@ =~= Seq::<Vec<String>>::empty(),
    {
        Pipeline {
            sign_gate: AdmissionGate::new(num_signers),
            upload_gate: AdmissionGate::new(num_uploaders),
            tasks: Vec::new(),
            signs: Vec::new(),
            uploads: Vec::new(),
            orders: Ghost(Seq::empty()),
        }
    }

    /// Register one admitted order with the tracker: a fresh task, waiting
    /// for its sign permit. Nothing else changes.
    pub fn spawn(&mut self, order: WorkOrder)
        requires
            old(self).wf(),
        ensures
            final(self).wf(),
            final(self).orders@ == old(self).orders@.push(order),
            final(self).tasks@ == old(self).tasks@.push(TaskPhase::WaitingSign(order)),
            final(self).sign_gate == old(self).sign_gate,
            final(self).upload_gate == old(self).upload_gate,
            final(self).signs@ == old(self).signs@,
            final(self).uploads@ == old(self).uploads@,
    {
        self.orders = Ghost(self.orders@.push(order));
        let ghost pre_tasks = self.tasks@;
        self.tasks.push(TaskPhase::WaitingSign(order));
        proof {
            assert(self.tasks@.drop_last() =~= pre_tasks);
            assert(forall|j: int|
                0 <= j < pre_tasks.len() ==> #[trigger] self.tasks@[j] == pre_tasks[j]);
        }
    }

    /// Run one cooperative scheduler step of task `i`: the task advances
    /// by one lifecycle transition, suspending (without progress) only
    /// when the semaphore it waits on is at capacity. Steps of different tasks
    /// may be interleaved in any order; well-formedness — and with it the
    /// concurrency bounds of both gates — is preserved by every step.
    pub fn step_task(&mut self, i: usize) -> (progressed: bool)
        requires
            old(self).wf(),
            i < old(self).tasks@.len(),
        ensures
            final(self).wf(),
            step_effect(*old(self), *final(self), i as int, progressed),
    {
        let ghost pre = *old(self);
        let phase = self.tasks.remove(i);
        match phase {
            TaskPhase::WaitingSign(order) => {
                if self.sign_gate.try_acquire() {
                    let ghost newphase = TaskPhase::Signing(order);
                    self.tasks.insert(i, TaskPhase::Signing(order));
                    proof {
                        assert(self.tasks@ =~= pre.tasks@.update(i as int, newphase));
                        lemma_count_signing_update(pre.tasks@, i as int, newphase);
                        lemma_count_uploading_update(pre.tasks@, i as int, newphase);
                    }
                    true
                } else {
                    self.tasks.insert(i, TaskPhase::WaitingSign(order));
                    proof {
                        assert(self.tasks@ =~= pre.tasks@);
                    }
                    false
                }
            }
            TaskPhase::Signing(order) => {
                proof {
                    lemma_count_signing_pos(pre.tasks@, i as int);
                }
                self.sign_gate.release();
                let WorkOrder { item, sign_result } = order;
                self.signs.push(item);
                match sign_result {
                    None => {
                        let ghost newphase = TaskPhase::Done;
                        self.tasks.insert(i, TaskPhase::Done);
                        proof {
                            assert(self.tasks@ =~= pre.tasks@.update(i as int, newphase));
                            lemma_count_signing_update(pre.tasks@, i as int, newphase);
                            lemma_count_uploading_update(pre.tasks@, i as int, newphase);
                        }
                        true
                    }
                    Some(ids) => {
                        let ghost newphase = TaskPhase::WaitingUpload(ids);
                        self.tasks.insert(i, TaskPhase::WaitingUpload(ids));
                        proof {
                            assert(self.tasks@ =~= pre.tasks@.update(i as int, newphase));
                            lemma_count_signing_update(pre.tasks@, i as int, newphase);
                            lemma_count_uploading_update(pre.tasks@, i as int, newphase);
                        }
                        true
                    }
                }
            }
            TaskPhase::WaitingUpload(ids) => {
                if self.upload_gate.try_acquire() {
                    let ghost newphase = TaskPhase::Uploading(ids);
                    self.tasks.insert(i, TaskPhase::Uploading(ids));
                    proof {
                        assert(self.tasks@ =~= pre.tasks@.update(i as int, newphase));
                        lemma_count_signing_update(pre.tasks@, i as int, newphase);
                        lemma_count_uploading_update(pre.tasks@, i as int, newphase);
                    }
                    true
                } else {
                    self.tasks.insert(i, TaskPhase::WaitingUpload(ids));
                    proof {
                        assert(self.tasks@ =~= pre.tasks@);
                    }
                    false
                }
            }
            TaskPhase::Uploading(ids) => {
                proof {
                    lemma_count_uploading_pos(pre.tasks@, i as int);
                }
                self.upload_gate.release();
                let ghost newphase = TaskPhase::Done;
                self.uploads.push(ids);
                self.tasks.insert(i, TaskPhase::Done);
                proof {
                    assert(self.tasks@ =~= pre.tasks@.update(i as int, newphase));
                    lemma_count_signing_update(pre.tasks@, i as int, newphase);
                    lemma_count_uploading_update(pre.tasks@, i as int, newphase);
                }
                true
            }
            TaskPhase::Done => {
                self.tasks.insert(i, TaskPhase::Done);
                proof {
                    assert(self.tasks@ =~= pre.tasks@);
                }
                false
            }
        }
    }

    /// The drain phase: with admission over, wait for every tracked task
    /// until none remains unfinished. Afterwards the tracker holds no
    /// pending task, no permit is outstanding, exactly one sign invocation
    /// has been recorded per admitted order (in admission order), and the
    /// upload invocations are exactly the sign results that were yielded.
    pub fn drain(&mut self)
        requires
            old(self).wf(),
            old(self).sign_gate.capacity >= 1,
            old(self).upload_gate.capacity >= 1,
            forall|j: int|
                0 <= j < old(self).tasks@.len() ==> #[trigger] old(self).tasks@[j]
                    == (TaskPhase::WaitingSign(old(self).orders@[j])),
        ensures
            final(self).wf(),
            final(self).orders@ == old(self).orders@,
            final(self).tasks@.len() == old(self).tasks@.len(),
            forall|j: int|
                0 <= j < final(self).tasks@.len() ==> #[trigger] final(self).tasks@[j] is Done,
            final(self).signs@ == old(self).signs@ + items_of(old(self).orders@),
            final(self).uploads@ == old(self).uploads@ + uploads_of(old(self).orders@),
            final(self).sign_gate.capacity == old(self).sign_gate.capacity,
            final(self).upload_gate.capacity == old(self).upload_gate.capacity,
            final(self).sign_gate.outstanding == 0,
            final(self).upload_gate.outstanding == 0,
    {
        let ghost orders = self.orders@;
        let ghost init_signs = self.signs@;
        let ghost init_uploads = self.uploads@;
        let ghost sc = self.sign_gate.capacity;
        let ghost uc = self.upload_gate.capacity;
        let n = self.tasks.len();
        let mut i: usize = 0;
        while i < n
            invariant
                self.wf(),
                self.orders@ == orders,
                self.tasks@.len() == n,
                n == orders.len(),
                i <= n,
                self.sign_gate.capacity == sc,
                self.upload_gate.capacity == uc,
                sc >= 1,
                uc >= 1,
                forall|j: int| 0 <= j < i ==> #[trigger] self.tasks@[j] is Done,
                forall|j: int|
                    i <= j < n ==> #[trigger] self.tasks@[j] == (TaskPhase::WaitingSign(
                        orders[j],
                    )),
                self.signs@ == init_signs + items_of(orders.take(i as int)),
                self.uploads@ == init_uploads + uploads_of(orders.take(i as int)),
            decreases n - i,
        {
            let ghost order = orders[i as int];
            proof {
                lemma_count_signing_zero(self.tasks@);
            }
            let ghost s0 = *self;
            self.step_task(i);
            // The task took its sign permit and is signing.
            assert(self.tasks@[i as int] == TaskPhase::Signing(order));
            let ghost s1 = *self;
            self.step_task(i);
            // The sign invocation completed and was recorded; the permit
            // is back, and the task finished or awaits an upload permit.
            assert(self.signs@ == s1.signs@.push(order.item));
            proof {
                lemma_count_uploading_zero(self.tasks@);
            }
            let ghost s2 = *self;
            self.step_task(i);
            let ghost s3 = *self;
            self.step_task(i);
            proof {
                assert(orders.take(i + 1).drop_last() =~= orders.take(i as int));
                assert(orders.take(i + 1).last() == order);
                assert(items_of(orders.take(i + 1)) =~= items_of(orders.take(i as int)).push(
                    order.item,
                ));
                assert(self.signs@ =~= init_signs + items_of(orders.take(i + 1)));
                match order.sign_result {
                    Some(ids) => {
                        assert(s2.tasks@[i as int] == TaskPhase::WaitingUpload(ids));
                        assert(s3.tasks@[i as int] == TaskPhase::Uploading(ids));
                        assert(self.uploads@ == s3.uploads@.push(ids));
                        assert(self.uploads@ =~= init_uploads + uploads_of(orders.take(i + 1)));
                    }
                    None => {
                        assert(s2.tasks@[i as int] is Done);
                        assert(self.uploads@ == s2.uploads@);
                        assert(uploads_of(orders.take(i + 1)) =~= uploads_of(
                            orders.take(i as int),
                        ));
                    }
                }
                assert(self.tasks@[i as int] is Done);
            }
            i = i + 1;
        }
        proof {
            assert(orders.take(n as int) =~= orders);
            assert(forall|j: int| 0 <= j < n ==> !is_signing(#[trigger] self.tasks@[j]));
            assert(forall|j: int| 0 <= j < n ==> !is_uploading(#[trigger] self.tasks@[j]));
            lemma_count_signing_zero(self.tasks@);
            lemma_count_uploading_zero(self.tasks@);
        }
    }

    /// True exactly when every tracked task has finished.
    pub fn is_drained(&self) -> (r: bool)
        ensures
            r <==> (forall|j: int| 0 <= j < self.tasks@.len() ==> self.tasks@[j] is Done),
    {
        let mut i: usize = 0;
        while i < self.tasks.len()
            invariant
                i <= self.tasks@.len(),
                forall|j: int| 0 <= j < i ==> self.tasks@[j] is Done,
            decreases self.tasks@.len() - i,
        {
            match &self.tasks[i] {
                TaskPhase::Done => {}
                _ => {
                    return false;
                }
            }
            i = i + 1;
        }
        true
    }
}

} // verus!
