//! Task control blocks: per-task state the scheduler and the syscall layer
//! read and update.

use vstd::prelude::*;

use crate::config::{BIG_STRIDE, MAX_SYSCALL_NUM};

verus! {

/// The status of a task in its lifecycle.
#[derive(Clone, Copy, PartialEq, Eq, Structural, Debug)]
pub enum TaskStatus {
    /// Allocated but not yet schedulable.
    UnInit,
    /// In the ready queue, waiting to be dispatched.
    Ready,
    /// Currently executing.
    Running,
    /// Terminated; kept only for the parent to observe.
    Exited,
}

/// The saved execution context of a task; opaque to the core.
#[derive(Clone, Copy, PartialEq, Eq, Structural, Debug)]
pub struct TaskContext {
    /// Saved return address.
    pub ra: usize,
    /// Saved stack pointer.
    pub sp: usize,
}

impl TaskContext {
    pub fn zero_init() -> (r: TaskContext)
        ensures
            r.ra == 0 && r.sp == 0,
    {
        TaskContext { ra: 0, sp: 0 }
    }
}

/// The task control block (TCB) of a task.
#[derive(Clone, Copy, PartialEq, Eq, Debug)]
pub struct TaskControlBlock {
    /// The task status in its lifecycle.
    pub task_status: TaskStatus,
    /// The task context.
    pub task_cx: TaskContext,
    /// The task's initial start time, set at its first dispatch.
    pub task_first_start_time: usize,
    /// The number of times each syscall was dispatched for the task,
    /// indexed by syscall id; always `MAX_SYSCALL_NUM` slots.
    pub syscall_times: [u32; MAX_SYSCALL_NUM],
    /// Accumulated stride; the ready task with the least stride runs next.
    pub stride: usize,
    /// Scheduling priority; at least one. The pass added to `stride` per
    /// dispatch is `BIG_STRIDE / priority`.
    pub priority: usize,
}

impl TaskControlBlock {
    pub open spec fn wf(self) -> bool {
        self.syscall_times@.len() == MAX_SYSCALL_NUM && 1 <= self.priority <= BIG_STRIDE
    }

    /// The stride increment one dispatch of the task costs it.
    pub open spec fn spec_pass(self) -> int {
        BIG_STRIDE as int / self.priority as int
    }

    /// A fresh, not yet schedulable task with default priority and a zeroed
    /// syscall-count table.
    pub fn new() -> (r: TaskControlBlock)
        ensures
            r.wf(),
            r.task_status == TaskStatus::UnInit,
            r.stride == 0,
            r.priority == 16,
            r.task_first_start_time == 0,
            forall|i: int| 0 <= i < MAX_SYSCALL_NUM ==> r.syscall_times@[i] == 0,
    {
        let times: [u32; MAX_SYSCALL_NUM] = [0u32; MAX_SYSCALL_NUM];
        TaskControlBlock {
            task_status: TaskStatus::UnInit,
            task_cx: TaskContext::zero_init(),
            task_first_start_time: 0,
            syscall_times: times,
            stride: 0,
            priority: 16,
        }
    }

    pub fn get_status(&self) -> (r: TaskStatus)
        ensures
            r == self.task_status,
    {
        self.task_status
    }

    pub fn get_stride(&self) -> (r: usize)
        ensures
            r == self.stride,
    {
        self.stride
    }

    pub fn get_priority(&self) -> (r: usize)
        ensures
            r == self.priority,
    {
        self.priority
    }

    /// Count one dispatch of syscall `syscall_id` for the task.
    pub fn record_syscall(&mut self, syscall_id: usize)
        requires
            old(self).wf(),
            syscall_id < MAX_SYSCALL_NUM,
            old(self).syscall_times@[syscall_id as int] < u32::MAX,
        ensures
            final(self).wf(),
            final(self).syscall_times@ == old(self).syscall_times@.update(
                syscall_id as int,
                (old(self).syscall_times@[syscall_id as int] + 1) as u32,
            ),
            (*final(self) == TaskControlBlock {
                syscall_times: final(self).syscall_times,
                ..*old(self)
            }),
    {
        let c = self.syscall_times[syscall_id];
        self.syscall_times[syscall_id] = c + 1;
    }

    /// Advance the stride by one pass, wrapping at the integer boundary.
    pub fn add_stride(&mut self)
        requires
            old(self).wf(),
        ensures
            final(self).wf(),
            final(self).stride == (old(self).stride + old(self).spec_pass()) % (usize::MAX as int + 1),
            (*final(self) == TaskControlBlock { stride: final(self).stride, ..*old(self) }),
    {
        let pass = crate::config::BIG_STRIDE / self.priority;
        proof {
            let m = usize::MAX as int + 1;
            let a = old(self).stride + old(self).spec_pass();
            if a <= usize::MAX as int {
                vstd::arithmetic::div_mod::lemma_small_mod(a as nat, m as nat);
            } else {
                vstd::arithmetic::div_mod::lemma_fundamental_div_mod_converse(a, m, 1, a - m);
            }
        }
        self.stride = self.stride.wrapping_add(pass);
    }
}

/// The counter table after a run of dispatches, one `record_syscall` step
/// per id of `ids`, oldest first.
pub open spec fn recorded(times: Seq<u32>, ids: Seq<int>) -> Seq<u32>
    decreases ids.len(),
{
    if ids.len() == 0 {
        times
    } else {
        let t = recorded(times, ids.drop_last());
        t.update(ids.last(), (t[ids.last()] + 1) as u32)
    }
}

/// How often `id` occurs in `ids`.
pub open spec fn count_of(ids: Seq<int>, id: int) -> int
    decreases ids.len(),
{
    if ids.len() == 0 {
        0int
    } else {
        count_of(ids.drop_last(), id) + if ids.last() == id {
            1int
        } else {
            0int
        }
    }
}

pub proof fn lemma_count_of_bounds(ids: Seq<int>, id: int)
    ensures
        0 <= count_of(ids, id) <= ids.len(),
    decreases ids.len(),
{
    if ids.len() > 0 {
        lemma_count_of_bounds(ids.drop_last(), id);
    }
}

/// A recording step never touches the length of the table or the slots of
/// other ids, so after any run of dispatches the counter of `id` is its
/// starting value plus exactly the number of dispatches of `id` — as long
/// as the counter cannot wrap.
pub proof fn lemma_syscall_counts_exact(times: Seq<u32>, ids: Seq<int>, id: int)
    requires
        0 <= id < times.len(),
        forall|k: int| 0 <= k < ids.len() ==> 0 <= #[trigger] ids[k] < times.len(),
        times[id] + count_of(ids, id) <= u32::MAX,
    ensures
        recorded(times, ids).len() == times.len(),
        recorded(times, ids)[id] == times[id] + count_of(ids, id),
    decreases ids.len(),
{
    if ids.len() > 0 {
        assert forall|k: int| 0 <= k < ids.drop_last().len() implies 0 <= #[trigger] ids.drop_last()[k]
            < times.len() by {
            assert(ids.drop_last()[k] == ids[k]);
        }
        lemma_count_of_bounds(ids.drop_last(), id);
        lemma_syscall_counts_exact(times, ids.drop_last(), id);
        assert(ids.last() == ids[ids.len() - 1]);
    }
}

} // verus!
