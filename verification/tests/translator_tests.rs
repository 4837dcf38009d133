use kernel_core::addr::VirtAddr;
use kernel_core::config::PAGE_SIZE;
use kernel_core::mm::{AddressSpace, KernelError, PERM_R, PERM_U, PERM_W};
use kernel_core::syscall::{
    sys_get_time, sys_mmap, sys_task_info, task_info_to_bytes, time_val_to_bytes, TaskInfo,
    TimeVal, TASK_INFO_BYTES, TIME_VAL_BYTES,
};
use kernel_core::task::{TaskControlBlock, TaskStatus};
use kernel_core::translator::{read_user, translate, write_user, PhysMem};

#[test]
fn virt_addr_rounding() {
    assert_eq!(VirtAddr::new(0).floor(), 0);
    assert_eq!(VirtAddr::new(0).ceil(), 0);
    assert_eq!(VirtAddr::new(1).ceil(), 1);
    assert_eq!(VirtAddr::new(PAGE_SIZE).floor(), 1);
    assert_eq!(VirtAddr::new(PAGE_SIZE).ceil(), 1);
    assert_eq!(VirtAddr::new(PAGE_SIZE + 1).floor(), 1);
    assert_eq!(VirtAddr::new(PAGE_SIZE + 1).ceil(), 2);
    assert!(VirtAddr::new(2 * PAGE_SIZE).aligned());
    assert!(!VirtAddr::new(2 * PAGE_SIZE - 1).aligned());
    assert_eq!(VirtAddr::new(usize::MAX).ceil(), usize::MAX / PAGE_SIZE + 1);
}

#[test]
fn translate_splits_at_page_boundaries() {
    let mut aspace = AddressSpace::new(0);
    assert_eq!(sys_mmap(&mut aspace, 0, 3 * PAGE_SIZE, 0x3), 0);
    let va = PAGE_SIZE - 8;
    let ranges = translate(&aspace, va, 16, PERM_R | PERM_U).unwrap();
    assert_eq!(ranges.len(), 2);
    assert_eq!(ranges[0].offset, PAGE_SIZE - 8);
    assert_eq!(ranges[0].len, 8);
    assert_eq!(ranges[1].offset, 0);
    assert_eq!(ranges[1].len, 8);
    assert_ne!(ranges[0].ppn, ranges[1].ppn);
}

#[test]
fn translate_faults_on_unmapped_page_and_missing_permission() {
    let mut aspace = AddressSpace::new(0);
    assert_eq!(sys_mmap(&mut aspace, 0, PAGE_SIZE, 0x1), 0);
    // second page unmapped
    assert_eq!(
        translate(&aspace, PAGE_SIZE - 4, 8, PERM_R | PERM_U),
        Err(KernelError::AddressFault)
    );
    // page mapped read-only: a write translation faults
    assert_eq!(translate(&aspace, 0, 8, PERM_W | PERM_U), Err(KernelError::AddressFault));
    // a read translation passes
    assert!(translate(&aspace, 0, 8, PERM_R | PERM_U).is_ok());
}

#[test]
fn write_then_read_across_a_page_split_is_byte_identical() {
    let mut aspace = AddressSpace::new(0);
    assert_eq!(sys_mmap(&mut aspace, 0, 2 * PAGE_SIZE, 0x3), 0);
    let mut mem = PhysMem::new(4);
    let va = PAGE_SIZE - 5;
    let data: Vec<u8> = vec![10, 20, 30, 40, 50, 60, 70, 80, 90, 100];
    assert_eq!(write_user(&aspace, &mut mem, va, &data), Ok(()));
    let back = read_user(&aspace, &mem, va, data.len()).unwrap();
    assert_eq!(back, data);
}

#[test]
fn write_user_faults_leave_memory_untouched() {
    let mut aspace = AddressSpace::new(0);
    assert_eq!(sys_mmap(&mut aspace, 0, PAGE_SIZE, 0x3), 0);
    let mut mem = PhysMem::new(2);
    let data: Vec<u8> = vec![1, 2, 3];
    // span reaches into the unmapped second page
    assert_eq!(
        write_user(&aspace, &mut mem, PAGE_SIZE - 1, &data),
        Err(KernelError::AddressFault)
    );
    assert!(mem.bytes.iter().all(|&b| b == 0));
}

#[test]
fn write_user_faults_when_the_frame_is_outside_physical_memory() {
    let mut aspace = AddressSpace::new(0);
    assert_eq!(sys_mmap(&mut aspace, 0, 2 * PAGE_SIZE, 0x3), 0);
    // physical memory holds only one frame; page 1 is backed by frame 1
    let mut mem = PhysMem::new(1);
    let data: Vec<u8> = vec![5];
    assert_eq!(
        write_user(&aspace, &mut mem, PAGE_SIZE, &data),
        Err(KernelError::AddressFault)
    );
}

#[test]
fn time_val_bytes_exact_layout() {
    let tv = TimeVal { sec: 1, usec: 0x0201 };
    let b = time_val_to_bytes(&tv);
    assert_eq!(b.len(), TIME_VAL_BYTES);
    assert_eq!(&b[0..8], &[1, 0, 0, 0, 0, 0, 0, 0]);
    assert_eq!(&b[8..16], &[1, 2, 0, 0, 0, 0, 0, 0]);
}

#[test]
fn get_time_writes_the_split_timestamp_across_pages() {
    let mut aspace = AddressSpace::new(0);
    assert_eq!(sys_mmap(&mut aspace, 0, 2 * PAGE_SIZE, 0x3), 0);
    let mut mem = PhysMem::new(4);
    let ts = PAGE_SIZE - 8;
    let us = 3_456_789;
    assert_eq!(sys_get_time(&aspace, &mut mem, ts, 0, us), 0);
    let back = read_user(&aspace, &mem, ts, TIME_VAL_BYTES).unwrap();
    let expect = time_val_to_bytes(&TimeVal { sec: us / 1_000_000, usec: us % 1_000_000 });
    assert_eq!(back, expect);
    assert_eq!(u64::from_le_bytes(back[0..8].try_into().unwrap()), 3);
    assert_eq!(u64::from_le_bytes(back[8..16].try_into().unwrap()), 456_789);
}

#[test]
fn get_time_faults_on_unmapped_buffer() {
    let aspace = AddressSpace::new(0);
    let mut mem = PhysMem::new(1);
    assert_eq!(sys_get_time(&aspace, &mut mem, 0, 0, 1), -1);
    assert!(mem.bytes.iter().all(|&b| b == 0));
}

#[test]
fn task_info_reports_status_counts_and_time_across_pages() {
    let mut aspace = AddressSpace::new(0);
    assert_eq!(sys_mmap(&mut aspace, 0, 2 * PAGE_SIZE, 0x3), 0);
    let mut mem = PhysMem::new(4);

    let mut t = TaskControlBlock::new();
    t.task_status = TaskStatus::Running;
    t.task_first_start_time = 100;
    t.syscall_times[7] = 3;

    // the report straddles the page boundary
    let ti = PAGE_SIZE - 100;
    assert_eq!(sys_task_info(&t, &aspace, &mut mem, ti, 250), 0);
    let back = read_user(&aspace, &mem, ti, TASK_INFO_BYTES).unwrap();
    let expect = task_info_to_bytes(&TaskInfo {
        status: TaskStatus::Running,
        syscall_times: t.syscall_times,
        time: 150,
    });
    assert_eq!(back, expect);
    // spot-check the layout: status byte, counter 7, the time field
    assert_eq!(back[0], 2);
    assert_eq!(&back[1 + 4 * 7..1 + 4 * 7 + 4], &[3, 0, 0, 0]);
    let time_off = TASK_INFO_BYTES - 8;
    assert_eq!(u64::from_le_bytes(back[time_off..].try_into().unwrap()), 150);
}
