//! The ready queue and the stride scheduler.

use vstd::prelude::*;

use crate::task::{TaskControlBlock, TaskStatus};

verus! {

/// Task `t` is waiting to be dispatched.
pub open spec fn is_ready(t: TaskControlBlock) -> bool {
    t.task_status == TaskStatus::Ready
}

/// Some task of the queue is ready.
pub open spec fn exists_ready(q: Seq<TaskControlBlock>) -> bool {
    exists|i: int| 0 <= i < q.len() && is_ready(#[trigger] q[i])
}

/// Index `i` is the one `fetch` dispatches: the first ready task whose
/// stride is minimal among all ready tasks.
pub open spec fn is_chosen(q: Seq<TaskControlBlock>, i: int) -> bool {
    &&& 0 <= i < q.len()
    &&& is_ready(q[i])
    &&& forall|j: int| 0 <= j < q.len() && is_ready(#[trigger] q[j]) ==> q[i].stride <= q[j].stride
    &&& forall|j: int| 0 <= j < i && is_ready(#[trigger] q[j]) ==> q[i].stride < q[j].stride
}

/// The dispatch choice is deterministic: at most one index of the queue is
/// the first ready task of minimal stride, so which task runs next is fixed
/// entirely by the strides — and through the pass size by the priorities —
/// of the ready tasks.
pub proof fn lemma_chosen_unique(q: Seq<TaskControlBlock>, i: int, j: int)
    requires
        is_chosen(q, i),
        is_chosen(q, j),
    ensures
        i == j,
{
    if i < j {
        assert(q[j].stride < q[i].stride);
        assert(q[i].stride <= q[j].stride);
    }
    if j < i {
        assert(q[i].stride < q[j].stride);
        assert(q[j].stride <= q[i].stride);
    }
}

/// What a dispatch (`fetch`) promises: nothing returned and nothing changed
/// when no queued task is ready; otherwise the first minimal-stride ready
/// task leaves the queue and comes back with its stride advanced by its
/// pass, wrapping at the integer boundary, and nothing else moves.
pub open spec fn fetch_post(
    pre: TaskManager,
    post: TaskManager,
    r: Option<TaskControlBlock>,
) -> bool {
    &&& (r is None <==> !exists_ready(pre.ready_queue@))
    &&& (r is None ==> post == pre)
    &&& (r is Some ==> exists|i: int|
        {
            &&& is_chosen(pre.ready_queue@, i)
            &&& post.ready_queue@ == pre.ready_queue@.remove(i)
            &&& r->Some_0 == TaskControlBlock {
                stride: r->Some_0.stride,
                ..pre.ready_queue@[i]
            }
            &&& r->Some_0.stride == (pre.ready_queue@[i].stride
                + pre.ready_queue@[i].spec_pass()) % (usize::MAX as int + 1)
        })
}

/// The strides of the queued tasks lie within one `BIG_STRIDE` of each
/// other.
pub open spec fn stride_band(q: Seq<TaskControlBlock>) -> bool {
    forall|i: int, j: int|
        0 <= i < q.len() && 0 <= j < q.len() ==> (#[trigger] q[i]).stride - (
        #[trigger] q[j]).stride <= crate::config::BIG_STRIDE
}

/// The fairness bound behind stride scheduling: over a yield cycle — every
/// queued task ready, one task dispatched and requeued with its advanced
/// stride — the strides stay within one `BIG_STRIDE` of each other. Since
/// each dispatch advances the dispatched task's stride by
/// `BIG_STRIDE / priority`, a bounded band forces each task's dispatch
/// count to track its priority proportionally over any long run.
///
/// The bound needs the strides not to wrap during the cycle; wrap-around
/// comparison is a known open point of this scheduler design.
pub proof fn lemma_yield_cycle_keeps_stride_band(
    pre: TaskManager,
    mid: TaskManager,
    t: TaskControlBlock,
    readd: TaskControlBlock,
    post: TaskManager,
)
    requires
        forall|i: int| 0 <= i < pre.ready_queue@.len() ==> (#[trigger] pre.ready_queue@[i]).wf(),
        forall|i: int| 0 <= i < pre.ready_queue@.len() ==> is_ready(#[trigger] pre.ready_queue@[i]),
        forall|i: int|
            0 <= i < pre.ready_queue@.len() ==> (#[trigger] pre.ready_queue@[i]).stride
                + crate::config::BIG_STRIDE <= usize::MAX,
        stride_band(pre.ready_queue@),
        fetch_post(pre, mid, Some(t)),
        readd.stride == t.stride,
        post.ready_queue@ == mid.ready_queue@.push(readd),
    ensures
        stride_band(post.ready_queue@),
{
    let q = pre.ready_queue@;
    let i0 = choose|i: int|
        {
            &&& is_chosen(q, i)
            &&& mid.ready_queue@ == q.remove(i)
            &&& t == TaskControlBlock { stride: t.stride, ..q[i] }
            &&& t.stride == (q[i].stride + q[i].spec_pass()) % (usize::MAX as int + 1)
        };
    let pass = q[i0].spec_pass();
    assert(q[i0].wf());
    assert(0 <= pass <= crate::config::BIG_STRIDE) by {
        vstd::arithmetic::div_mod::lemma_div_pos_is_pos(
            crate::config::BIG_STRIDE as int,
            q[i0].priority as int,
        );
        vstd::arithmetic::div_mod::lemma_div_is_ordered_by_denominator(
            crate::config::BIG_STRIDE as int,
            1,
            q[i0].priority as int,
        );
    }
    assert(t.stride == q[i0].stride + pass) by {
        vstd::arithmetic::div_mod::lemma_small_mod(
            (q[i0].stride + pass) as nat,
            (usize::MAX as int + 1) as nat,
        );
    }
    let n = q.len() as int;
    assert forall|a: int, b: int|
        0 <= a < post.ready_queue@.len() && 0 <= b < post.ready_queue@.len() implies (
    #[trigger] post.ready_queue@[a]).stride - (#[trigger] post.ready_queue@[b]).stride
        <= crate::config::BIG_STRIDE by {
        let pq = post.ready_queue@;
        let ta = pq[a];
        let tb = pq[b];
        if a < n - 1 {
            let a0 = if a < i0 {
                a
            } else {
                a + 1
            };
            assert(ta == q[a0]);
        } else {
            assert(ta == readd);
        }
        if b < n - 1 {
            let b0 = if b < i0 {
                b
            } else {
                b + 1
            };
            assert(tb == q[b0]);
        } else {
            assert(tb == readd);
        }
        if a == n - 1 && b < n - 1 {
            // the requeued task sits at most one pass above the old minimum
            assert(q[i0].stride <= tb.stride);
        }
    }
}

/// The ready queue: tasks that are ready, or running and about to be
/// requeued, in arrival order.
pub struct TaskManager {
    pub ready_queue: Vec<TaskControlBlock>,
}

impl TaskManager {
    pub open spec fn wf(self) -> bool {
        forall|i: int| 0 <= i < self.ready_queue@.len() ==> (#[trigger] self.ready_queue@[i]).wf()
    }

    /// An empty ready queue.
    pub fn new() -> (r: TaskManager)
        ensures
            r.wf(),
            r.ready_queue@.len() == 0,
    {
        TaskManager { ready_queue: Vec::new() }
    }

    /// Append a task to the back of the queue.
    pub fn add(&mut self, task: TaskControlBlock)
        requires
            old(self).wf(),
            task.wf(),
        ensures
            final(self).wf(),
            final(self).ready_queue@ == old(self).ready_queue@.push(task),
    {
        self.ready_queue.push(task);
    }

    /// Dispatch the next task by stride scheduling: remove and return the
    /// first ready task of minimal stride, its stride advanced by
    /// `BIG_STRIDE / priority`. When no task of the queue is ready, return
    /// nothing and change nothing — in particular no stride moves.
    pub fn fetch(&mut self) -> (r: Option<TaskControlBlock>)
        requires
            old(self).wf(),
        ensures
            final(self).wf(),
            r is Some ==> r->Some_0.wf(),
            fetch_post(*old(self), *final(self), r),
    {
        let n = self.ready_queue.len();
        let mut best: usize = n;
        let mut i: usize = 0;
        while i < n
            invariant
                *self == *old(self),
                self.wf(),
                n == self.ready_queue@.len(),
                i <= n,
                best <= n,
                best == n ==> forall|j: int| 0 <= j < i ==> !is_ready(#[trigger] self.ready_queue@[j]),
                best < n ==> {
                    &&& is_ready(self.ready_queue@[best as int])
                    &&& forall|j: int|
                        0 <= j < i && is_ready(#[trigger] self.ready_queue@[j])
                            ==> self.ready_queue@[best as int].stride <= self.ready_queue@[j].stride
                    &&& forall|j: int|
                        0 <= j < best && is_ready(#[trigger] self.ready_queue@[j])
                            ==> self.ready_queue@[best as int].stride < self.ready_queue@[j].stride
                    &&& best < i
                },
            decreases n - i,
        {
            let cand = &self.ready_queue[i];
            if cand.get_status() == TaskStatus::Ready {
                if best == n {
                    best = i;
                } else if cand.get_stride() < self.ready_queue[best].get_stride() {
                    best = i;
                }
            }
            i += 1;
        }
        if best == n {
            return None;
        }
        proof {
            assert(is_chosen(self.ready_queue@, best as int));
        }
        let mut task = self.ready_queue.remove(best);
        task.add_stride();
        Some(task)
    }
}

/// Append a task to a ready queue; the explicit-instance form of the
/// original global scheduler entry point.
pub fn add_task(manager: &mut TaskManager, task: TaskControlBlock)
    requires
        old(manager).wf(),
        task.wf(),
    ensures
        final(manager).wf(),
        final(manager).ready_queue@ == old(manager).ready_queue@.push(task),
{
    manager.add(task);
}

/// Dispatch the next task from a ready queue; the explicit-instance form of
/// the original global scheduler entry point.
pub fn fetch_task(manager: &mut TaskManager) -> (r: Option<TaskControlBlock>)
    requires
        old(manager).wf(),
    ensures
        final(manager).wf(),
        r is Some ==> r->Some_0.wf(),
        fetch_post(*old(manager), *final(manager), r),
{
    manager.fetch()
}

} // verus!
