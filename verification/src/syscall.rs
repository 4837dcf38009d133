//! Process-management syscalls: thin entry points that validate arguments,
//! delegate to the map-area manager, the scheduler or the task control
//! block, and report success as 0 and any failure as -1.

use vstd::prelude::*;

use crate::addr::VirtAddr;
use crate::config::{MAX_SYSCALL_NUM, PAGE_SIZE};
use crate::encode::{
    le_bytes, lemma_le_bytes_len, lemma_u32s_le_len, push_le_bytes, push_u32s_le, status_byte,
    status_to_byte, u32s_le,
};
use crate::manager::{fetch_post, TaskManager};
use crate::mm::{
    fresh_pages, range_mapped, range_set, AddressSpace, MapPermission, PERM_R,
    PERM_U, PERM_W,
};
use crate::task::{TaskControlBlock, TaskStatus};
use crate::translator::{span_fits, span_image, span_mapped, user_bytes, write_user, PhysMem};

verus! {

/// How many bytes `sys_get_time` writes to the user buffer.
pub const TIME_VAL_BYTES: usize = 16;

/// How many bytes `sys_task_info` writes to the user buffer.
pub const TASK_INFO_BYTES: usize = 1 + 4 * MAX_SYSCALL_NUM + 8;

/// Wall time as whole seconds plus microseconds, as written to user space.
#[derive(Clone, Copy, PartialEq, Eq, Structural, Debug)]
pub struct TimeVal {
    pub sec: usize,
    pub usec: usize,
}

/// Task information as written to user space by `sys_task_info`.
#[derive(Clone, Copy, PartialEq, Eq, Debug)]
pub struct TaskInfo {
    /// Task status in its life cycle.
    pub status: TaskStatus,
    /// The numbers of syscalls dispatched for the task, by syscall id.
    pub syscall_times: [u32; MAX_SYSCALL_NUM],
    /// Total time since the task's first dispatch, in milliseconds.
    pub time: usize,
}

/// The wire form of a [`TimeVal`]: seconds then microseconds, eight
/// little-endian bytes each.
pub open spec fn time_val_bytes(tv: TimeVal) -> Seq<u8> {
    le_bytes(tv.sec as int, 8) + le_bytes(tv.usec as int, 8)
}

/// The wire form of a [`TaskInfo`]: one status byte, the counter table as
/// four little-endian bytes per id, then eight little-endian bytes of time.
pub open spec fn task_info_bytes(ti: TaskInfo) -> Seq<u8> {
    seq![status_byte(ti.status)] + u32s_le(ti.syscall_times@) + le_bytes(ti.time as int, 8)
}

/// Serialize a [`TimeVal`] into its wire form.
pub fn time_val_to_bytes(tv: &TimeVal) -> (r: Vec<u8>)
    ensures
        r@ == time_val_bytes(*tv),
        r@.len() == TIME_VAL_BYTES,
{
    let mut out: Vec<u8> = Vec::new();
    push_le_bytes(&mut out, tv.sec as u64, 8);
    push_le_bytes(&mut out, tv.usec as u64, 8);
    proof {
        lemma_le_bytes_len(tv.sec as int, 8);
        lemma_le_bytes_len(tv.usec as int, 8);
        assert(out@ =~= time_val_bytes(*tv));
    }
    out
}

/// Serialize a [`TaskInfo`] into its wire form.
pub fn task_info_to_bytes(ti: &TaskInfo) -> (r: Vec<u8>)
    ensures
        r@ == task_info_bytes(*ti),
        r@.len() == TASK_INFO_BYTES,
{
    let mut out: Vec<u8> = Vec::new();
    let sb = status_to_byte(ti.status);
    out.push(sb);
    push_u32s_le(&mut out, &ti.syscall_times);
    push_le_bytes(&mut out, ti.time as u64, 8);
    proof {
        lemma_u32s_le_len(ti.syscall_times@);
        lemma_le_bytes_len(ti.time as int, 8);
        assert(out@ =~= task_info_bytes(*ti));
    }
    out
}

/// The page range a syscall span `[start, start + len)` covers:
/// `floor(start)` up to `ceil(start + len)`.
pub open spec fn span_start_vpn(start: usize) -> int {
    VirtAddr { addr: start }.spec_floor()
}

/// See [`span_start_vpn`]; meaningful only when `start + len` fits a word.
pub open spec fn span_end_vpn(start: usize, len: usize) -> int {
    VirtAddr { addr: (start + len) as usize }.spec_ceil()
}

/// When `sys_mmap(start, len, port)` succeeds: aligned start, a valid
/// non-empty permission request, no address-range overflow, and a fresh,
/// in-bounds, backable page range.
pub open spec fn mmap_ok(s: AddressSpace, start: usize, len: usize, port: usize) -> bool {
    &&& VirtAddr { addr: start }.spec_aligned()
    &&& MapPermission::spec_port_valid(port)
    &&& start + len <= usize::MAX
    &&& s.spec_can_insert(span_start_vpn(start), span_end_vpn(start, len))
}

/// When `sys_munmap(start, len)` succeeds: aligned start, no address-range
/// overflow, and every page of the span currently mapped.
pub open spec fn munmap_ok(s: AddressSpace, start: usize, len: usize) -> bool {
    &&& VirtAddr { addr: start }.spec_aligned()
    &&& start + len <= usize::MAX
    &&& range_mapped(s.mapping(), span_start_vpn(start), span_end_vpn(start, len))
}

/// Map the pages covering `[start, start + len)` with the permissions named
/// by the 3-bit `port` (R=1, W=2, X=4) plus the mandatory User bit.
///
/// Returns 0 exactly when `mmap_ok` holds of the arguments — in particular
/// -1 whenever `start` is not page-aligned, `port` has no or unknown bits,
/// or the span touches an already-mapped page — and leaves the address
/// space unchanged on every failure.
pub fn sys_mmap(aspace: &mut AddressSpace, start: usize, len: usize, port: usize) -> (r: isize)
    requires
        old(aspace).wf(),
    ensures
        final(aspace).wf(),
        r == 0 || r == -1,
        r == 0 <==> mmap_ok(*old(aspace), start, len, port),
        r == 0 ==> final(aspace).mapping() == old(aspace).mapping().union_prefer_right(
            fresh_pages(
                span_start_vpn(start),
                span_end_vpn(start, len),
                old(aspace).next_ppn as int,
                MapPermission::spec_from_port(port).bits,
            ),
        ),
        r == 0 ==> final(aspace).heap_bottom == old(aspace).heap_bottom && final(aspace).brk
            == old(aspace).brk,
        r == -1 ==> *final(aspace) == *old(aspace),
{
    let va = VirtAddr::new(start);
    if !va.aligned() {
        return -1;
    }
    let perm = match MapPermission::from_port(port) {
        Some(p) => p,
        None => { return -1 },
    };
    let end = match start.checked_add(len) {
        Some(e) => e,
        None => { return -1 },
    };
    let start_vpn = va.floor();
    let end_vpn = VirtAddr::new(end).ceil();
    match aspace.insert_area(start_vpn, end_vpn, perm) {
        Ok(()) => 0,
        Err(_) => -1,
    }
}

/// Unmap the pages covering `[start, start + len)`.
///
/// Returns 0 exactly when `munmap_ok` holds — in particular -1 whenever
/// `start` is not page-aligned or any page of the span is unmapped — and
/// leaves the address space unchanged on every failure.
pub fn sys_munmap(aspace: &mut AddressSpace, start: usize, len: usize) -> (r: isize)
    requires
        old(aspace).wf(),
    ensures
        final(aspace).wf(),
        r == 0 || r == -1,
        r == 0 <==> munmap_ok(*old(aspace), start, len),
        r == 0 ==> final(aspace).mapping() == old(aspace).mapping().remove_keys(
            range_set(span_start_vpn(start), span_end_vpn(start, len)),
        ),
        r == 0 ==> final(aspace).heap_bottom == old(aspace).heap_bottom && final(aspace).brk
            == old(aspace).brk && final(aspace).next_ppn == old(aspace).next_ppn,
        r == -1 ==> *final(aspace) == *old(aspace),
{
    let va = VirtAddr::new(start);
    if !va.aligned() {
        return -1;
    }
    let end = match start.checked_add(len) {
        Some(e) => e,
        None => { return -1 },
    };
    let start_vpn = va.floor();
    let end_vpn = VirtAddr::new(end).ceil();
    match aspace.remove_area(start_vpn, end_vpn) {
        Ok(()) => 0,
        Err(_) => -1,
    }
}

/// The program break `sys_sbrk(size)` would move to.
pub open spec fn sbrk_new_brk(s: AddressSpace, size: i32) -> int {
    s.brk + size
}

/// When `sys_sbrk(size)` succeeds: the new break stays between the heap
/// bottom and the top of the address range, growth finds fresh backable
/// pages, and shrinking finds its pages still mapped.
pub open spec fn sbrk_ok(s: AddressSpace, size: i32) -> bool {
    let nb = sbrk_new_brk(s, size);
    let oldc = VirtAddr { addr: s.brk }.spec_ceil();
    let newc = if s.heap_bottom <= nb <= usize::MAX {
        VirtAddr { addr: nb as usize }.spec_ceil()
    } else {
        0
    };
    &&& s.heap_bottom <= nb <= usize::MAX
    &&& (newc > oldc ==> s.spec_can_insert(oldc, newc))
    &&& (newc < oldc ==> range_mapped(s.mapping(), newc, oldc))
}

/// Grow or shrink the task's heap by `size` bytes.
///
/// On success returns the previous program break and maps or unmaps the
/// pages between the old and new `ceil(brk)` (growth with read/write user
/// permission); on any failure returns -1 and changes nothing.
pub fn sys_sbrk(aspace: &mut AddressSpace, size: i32) -> (r: isize)
    requires
        old(aspace).wf(),
        old(aspace).brk <= isize::MAX as usize,
    ensures
        final(aspace).wf(),
        r == -1 <==> !sbrk_ok(*old(aspace), size),
        r == -1 ==> *final(aspace) == *old(aspace),
        r != -1 ==> r == old(aspace).brk && final(aspace).brk == sbrk_new_brk(
            *old(aspace),
            size,
        ) && final(aspace).heap_bottom == old(aspace).heap_bottom,
        r != -1 ==> {
            let oldc = VirtAddr { addr: old(aspace).brk }.spec_ceil();
            let newc = VirtAddr { addr: final(aspace).brk }.spec_ceil();
            if newc > oldc {
                final(aspace).mapping() == old(aspace).mapping().union_prefer_right(
                    fresh_pages(
                        oldc,
                        newc,
                        old(aspace).next_ppn as int,
                        (PERM_R | PERM_W | PERM_U) as u8,
                    ),
                )
            } else if newc < oldc {
                final(aspace).mapping() == old(aspace).mapping().remove_keys(
                    range_set(newc, oldc),
                )
            } else {
                final(aspace).mapping() == old(aspace).mapping()
            }
        },
{
    let old_brk = aspace.brk;
    let new_brk_opt = if size >= 0 {
        old_brk.checked_add(size as usize)
    } else {
        let mag = (-(size as i64)) as usize;
        old_brk.checked_sub(mag)
    };
    let new_brk = match new_brk_opt {
        Some(nb) => nb,
        None => { return -1 },
    };
    if new_brk < aspace.heap_bottom {
        return -1;
    }
    let old_ceil = VirtAddr::new(old_brk).ceil();
    let new_ceil = VirtAddr::new(new_brk).ceil();
    if new_ceil > old_ceil {
        let perm = MapPermission { bits: PERM_R | PERM_W | PERM_U };
        match aspace.insert_area(old_ceil, new_ceil, perm) {
            Ok(()) => {},
            Err(_) => { return -1 },
        }
    } else if new_ceil < old_ceil {
        match aspace.remove_area(new_ceil, old_ceil) {
            Ok(()) => {},
            Err(_) => { return -1 },
        }
    }
    aspace.brk = new_brk;
    old_brk as isize
}

/// Count one dispatch of syscall `syscall_id` for the current task; called
/// by the dispatcher on every syscall, success or failure.
///
/// Returns 0; the id's slot of the task's syscall-count table goes up by
/// exactly one and nothing else of the task changes.
pub fn sys_record_syscall(current: &mut TaskControlBlock, syscall_id: usize) -> (r: isize)
    requires
        old(current).wf(),
        syscall_id < MAX_SYSCALL_NUM,
        old(current).syscall_times@[syscall_id as int] < u32::MAX,
    ensures
        final(current).wf(),
        r == 0,
        final(current).syscall_times@ == old(current).syscall_times@.update(
            syscall_id as int,
            (old(current).syscall_times@[syscall_id as int] + 1) as u32,
        ),
        (*final(current) == TaskControlBlock {
            syscall_times: final(current).syscall_times,
            ..*old(current)
        }),
{
    current.record_syscall(syscall_id);
    0
}

/// Write the wall time (handed in by the platform clock as microseconds
/// `us`) to the user buffer at `ts` through the address translator; the
/// timezone argument is ignored, as in the ABI.
///
/// Returns 0 exactly when the whole buffer lies in writable, user-visible,
/// backed pages; on failure returns -1 and writes nothing.
pub fn sys_get_time(
    aspace: &AddressSpace,
    mem: &mut PhysMem,
    ts: usize,
    _tz: usize,
    us: usize,
) -> (r: isize)
    requires
        aspace.wf(),
        old(mem).wf(),
    ensures
        final(mem).wf(),
        final(mem).bytes@.len() == old(mem).bytes@.len(),
        r == 0 || r == -1,
        r == 0 <==> ts + TIME_VAL_BYTES <= usize::MAX && span_mapped(
            *aspace,
            ts as int,
            TIME_VAL_BYTES as int,
            PERM_W | PERM_U,
        ) && span_fits(*aspace, *old(mem), ts as int, TIME_VAL_BYTES as int),
        r == 0 ==> user_bytes(*aspace, *final(mem), ts as int, TIME_VAL_BYTES as int)
            == time_val_bytes(
            (TimeVal { sec: (us / 1000000) as usize, usec: (us % 1000000) as usize }),
        ),
        r == 0 ==> forall|j: int|
            0 <= j < final(mem).bytes@.len() && !span_image(
                *aspace,
                ts as int,
                TIME_VAL_BYTES as int,
            ).contains(j) ==> final(mem).bytes@[j] == old(mem).bytes@[j],
        r == -1 ==> *final(mem) == *old(mem),
{
    if ts > usize::MAX - TIME_VAL_BYTES {
        return -1;
    }
    let tv = TimeVal { sec: us / 1000000, usec: us % 1000000 };
    let data = time_val_to_bytes(&tv);
    match write_user(aspace, mem, ts, &data) {
        Ok(()) => 0,
        Err(_) => -1,
    }
}

/// Write the current task's status, syscall counts and running time (now
/// handed in as milliseconds) to the user buffer at `ti` through the
/// address translator.
///
/// Returns 0 exactly when the whole buffer lies in writable, user-visible,
/// backed pages; on failure returns -1 and writes nothing.
pub fn sys_task_info(
    current: &TaskControlBlock,
    aspace: &AddressSpace,
    mem: &mut PhysMem,
    ti: usize,
    now_ms: usize,
) -> (r: isize)
    requires
        current.wf(),
        aspace.wf(),
        old(mem).wf(),
        now_ms >= current.task_first_start_time,
    ensures
        final(mem).wf(),
        final(mem).bytes@.len() == old(mem).bytes@.len(),
        r == 0 || r == -1,
        r == 0 <==> ti + TASK_INFO_BYTES <= usize::MAX && span_mapped(
            *aspace,
            ti as int,
            TASK_INFO_BYTES as int,
            PERM_W | PERM_U,
        ) && span_fits(*aspace, *old(mem), ti as int, TASK_INFO_BYTES as int),
        r == 0 ==> user_bytes(*aspace, *final(mem), ti as int, TASK_INFO_BYTES as int)
            == task_info_bytes(
            (TaskInfo {
                status: current.task_status,
                syscall_times: current.syscall_times,
                time: (now_ms - current.task_first_start_time) as usize,
            }),
        ),
        r == 0 ==> forall|j: int|
            0 <= j < final(mem).bytes@.len() && !span_image(
                *aspace,
                ti as int,
                TASK_INFO_BYTES as int,
            ).contains(j) ==> final(mem).bytes@[j] == old(mem).bytes@[j],
        r == -1 ==> *final(mem) == *old(mem),
{
    if ti > usize::MAX - TASK_INFO_BYTES {
        return -1;
    }
    let info = TaskInfo {
        status: current.get_status(),
        syscall_times: current.syscall_times,
        time: now_ms - current.task_first_start_time,
    };
    let data = task_info_to_bytes(&info);
    match write_user(aspace, mem, ti, &data) {
        Ok(()) => 0,
        Err(_) => -1,
    }
}

/// The current task gives up the core: it is marked ready and requeued at
/// the back; the dispatcher will pick the next task separately.
///
/// Returns 0; the queue grows by exactly the re-marked current task.
pub fn sys_yield(manager: &mut TaskManager, current: &mut TaskControlBlock) -> (r: isize)
    requires
        old(manager).wf(),
        old(current).wf(),
    ensures
        final(manager).wf(),
        final(current).wf(),
        r == 0,
        final(current).task_status == TaskStatus::Ready,
        (*final(current) == TaskControlBlock {
            task_status: TaskStatus::Ready,
            ..*old(current)
        }),
        final(manager).ready_queue@ == old(manager).ready_queue@.push(*final(current)),
{
    current.task_status = TaskStatus::Ready;
    manager.add(*current);
    0
}

/// The current task exits with `exit_code` (recorded by the process layer,
/// not here) and the scheduler dispatches the next ready task, if any; the
/// original transfers control and never returns, this form hands the chosen
/// successor back to the dispatcher.
pub fn sys_exit(
    manager: &mut TaskManager,
    current: &mut TaskControlBlock,
    _exit_code: i32,
) -> (r: Option<TaskControlBlock>)
    requires
        old(manager).wf(),
        old(current).wf(),
    ensures
        final(manager).wf(),
        final(current).wf(),
        final(current).task_status == TaskStatus::Exited,
        (*final(current) == TaskControlBlock {
            task_status: TaskStatus::Exited,
            ..*old(current)
        }),
        fetch_post(*old(manager), *final(manager), r),
{
    current.task_status = TaskStatus::Exited;
    manager.fetch()
}

} // verus!
