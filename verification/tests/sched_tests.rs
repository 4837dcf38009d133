use kernel_core::config::BIG_STRIDE;
use kernel_core::manager::{add_task, fetch_task, TaskManager};
use kernel_core::syscall::{sys_exit, sys_record_syscall, sys_yield};
use kernel_core::task::{TaskControlBlock, TaskStatus};

fn ready_task(id: usize, stride: usize, priority: usize) -> TaskControlBlock {
    let mut t = TaskControlBlock::new();
    t.task_status = TaskStatus::Ready;
    // the start-time field doubles as a tag in these tests
    t.task_first_start_time = id;
    t.stride = stride;
    t.priority = priority;
    t
}

#[test]
fn fetch_on_empty_queue_returns_nothing() {
    let mut m = TaskManager::new();
    assert!(m.fetch().is_none());
}

#[test]
fn fetch_skips_queues_without_ready_tasks_and_moves_no_stride() {
    let mut m = TaskManager::new();
    let mut a = ready_task(1, 7, 16);
    a.task_status = TaskStatus::Exited;
    let mut b = ready_task(2, 3, 16);
    b.task_status = TaskStatus::Running;
    m.add(a);
    m.add(b);
    assert!(m.fetch().is_none());
    assert_eq!(m.ready_queue.len(), 2);
    assert_eq!(m.ready_queue[0].stride, 7);
    assert_eq!(m.ready_queue[1].stride, 3);
}

#[test]
fn fetch_picks_minimum_stride_and_advances_it_by_the_pass() {
    let mut m = TaskManager::new();
    m.add(ready_task(1, 50, 2));
    m.add(ready_task(2, 10, 4));
    m.add(ready_task(3, 30, 8));
    let got = m.fetch().unwrap();
    assert_eq!(got.task_first_start_time, 2);
    assert_eq!(got.stride, 10 + BIG_STRIDE / 4);
    assert_eq!(m.ready_queue.len(), 2);
}

#[test]
fn fetch_breaks_stride_ties_by_queue_order() {
    let mut m = TaskManager::new();
    m.add(ready_task(1, 5, 16));
    m.add(ready_task(2, 5, 16));
    let got = m.fetch().unwrap();
    assert_eq!(got.task_first_start_time, 1);
}

#[test]
fn fetch_skips_non_ready_tasks_when_picking() {
    let mut m = TaskManager::new();
    let mut blocked = ready_task(1, 0, 16);
    blocked.task_status = TaskStatus::UnInit;
    m.add(blocked);
    m.add(ready_task(2, 99, 16));
    let got = m.fetch().unwrap();
    assert_eq!(got.task_first_start_time, 2);
    assert_eq!(m.ready_queue.len(), 1);
    assert_eq!(m.ready_queue[0].stride, 0);
}

#[test]
fn stride_scheduling_dispatches_in_proportion_to_priority() {
    // two tasks, one with twice the priority: over a long run it is
    // dispatched about twice as often
    let mut m = TaskManager::new();
    m.add(ready_task(1, 0, 2));
    m.add(ready_task(2, 1, 1));
    let mut counts = [0usize; 3];
    for _ in 0..300 {
        let mut t = fetch_task(&mut m).unwrap();
        counts[t.task_first_start_time] += 1;
        t.task_status = TaskStatus::Ready;
        add_task(&mut m, t);
    }
    assert_eq!(counts[1] + counts[2], 300);
    assert!(counts[1] >= 195 && counts[1] <= 205, "high-priority count {}", counts[1]);
}

#[test]
fn yield_requeues_the_current_task_as_ready() {
    let mut m = TaskManager::new();
    let mut cur = ready_task(7, 40, 16);
    cur.task_status = TaskStatus::Running;
    assert_eq!(sys_yield(&mut m, &mut cur), 0);
    assert_eq!(cur.task_status, TaskStatus::Ready);
    assert_eq!(m.ready_queue.len(), 1);
    assert_eq!(m.ready_queue[0].task_first_start_time, 7);
    assert_eq!(m.ready_queue[0].task_status, TaskStatus::Ready);
    assert_eq!(m.ready_queue[0].stride, 40);
}

#[test]
fn exit_marks_the_task_and_hands_over_the_next_ready_one() {
    let mut m = TaskManager::new();
    m.add(ready_task(9, 3, 16));
    let mut cur = ready_task(1, 0, 16);
    cur.task_status = TaskStatus::Running;
    let next = sys_exit(&mut m, &mut cur, 42).unwrap();
    assert_eq!(cur.task_status, TaskStatus::Exited);
    assert_eq!(next.task_first_start_time, 9);
    assert!(m.ready_queue.is_empty());

    // exiting with nothing ready leaves nothing to dispatch
    let mut cur2 = ready_task(2, 0, 16);
    cur2.task_status = TaskStatus::Running;
    assert!(sys_exit(&mut m, &mut cur2, 0).is_none());
    assert_eq!(cur2.task_status, TaskStatus::Exited);
}

#[test]
fn record_syscall_counts_each_dispatch_exactly() {
    let mut t = TaskControlBlock::new();
    assert_eq!(t.syscall_times[64], 0);
    for _ in 0..5 {
        assert_eq!(sys_record_syscall(&mut t, 64), 0);
    }
    assert_eq!(sys_record_syscall(&mut t, 93), 0);
    assert_eq!(t.syscall_times[64], 5);
    assert_eq!(t.syscall_times[93], 1);
    assert_eq!(t.syscall_times[0], 0);
}
