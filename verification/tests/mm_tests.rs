use kernel_core::config::{MAX_VPN, PAGE_SIZE};
use kernel_core::mm::{AddressSpace, KernelError, MapPermission, PERM_R, PERM_U, PERM_W, PERM_X};
use kernel_core::syscall::{sys_mmap, sys_munmap, sys_sbrk};

fn mapped_vpns(aspace: &AddressSpace, lo: usize, hi: usize) -> Vec<usize> {
    let mut out = Vec::new();
    for vpn in lo..hi {
        if aspace.find_page(vpn).is_some() {
            out.push(vpn);
        }
    }
    out
}

#[test]
fn from_port_decodes_valid_ports() {
    let p = MapPermission::from_port(0x7).unwrap();
    assert_eq!(p.bits, PERM_R | PERM_W | PERM_X | PERM_U);
    let r = MapPermission::from_port(0x1).unwrap();
    assert_eq!(r.bits, PERM_R | PERM_U);
    let w = MapPermission::from_port(0x2).unwrap();
    assert_eq!(w.bits, PERM_W | PERM_U);
    let x = MapPermission::from_port(0x4).unwrap();
    assert_eq!(x.bits, PERM_X | PERM_U);
}

#[test]
fn from_port_rejects_empty_and_unknown_bits() {
    assert!(MapPermission::from_port(0).is_none());
    assert!(MapPermission::from_port(0x8).is_none());
    assert!(MapPermission::from_port(0x9).is_none());
    assert!(MapPermission::from_port(usize::MAX).is_none());
}

#[test]
fn mmap_then_munmap_round_trip() {
    let mut aspace = AddressSpace::new(0x8000_0000);
    assert_eq!(sys_mmap(&mut aspace, 10 * PAGE_SIZE, 3 * PAGE_SIZE, 0x3), 0);
    let before = mapped_vpns(&aspace, 0, 40);
    assert_eq!(before, vec![10, 11, 12]);
    assert_eq!(sys_mmap(&mut aspace, 20 * PAGE_SIZE, PAGE_SIZE, 0x1), 0);
    assert_eq!(sys_munmap(&mut aspace, 20 * PAGE_SIZE, PAGE_SIZE), 0);
    assert_eq!(mapped_vpns(&aspace, 0, 40), vec![10, 11, 12]);
}

#[test]
fn mmap_rejects_intersecting_region_and_leaves_space_unchanged() {
    let mut aspace = AddressSpace::new(0);
    assert_eq!(sys_mmap(&mut aspace, 4 * PAGE_SIZE, 4 * PAGE_SIZE, 0x3), 0);
    let before = mapped_vpns(&aspace, 0, 20);
    // overlaps the tail of the existing mapping
    assert_eq!(sys_mmap(&mut aspace, 7 * PAGE_SIZE, 2 * PAGE_SIZE, 0x1), -1);
    assert_eq!(mapped_vpns(&aspace, 0, 20), before);
    let (ppn, perm) = aspace.find_page(4).unwrap();
    let (ppn2, _) = aspace.find_page(7).unwrap();
    assert_eq!(perm.bits, PERM_R | PERM_W | PERM_U);
    assert_ne!(ppn, ppn2);
}

#[test]
fn munmap_rejects_range_with_unmapped_page_and_changes_nothing() {
    let mut aspace = AddressSpace::new(0);
    assert_eq!(sys_mmap(&mut aspace, PAGE_SIZE, PAGE_SIZE, 0x3), 0);
    assert_eq!(sys_mmap(&mut aspace, 3 * PAGE_SIZE, PAGE_SIZE, 0x3), 0);
    let before = mapped_vpns(&aspace, 0, 10);
    assert_eq!(before, vec![1, 3]);
    // page 2 in the middle is unmapped
    assert_eq!(sys_munmap(&mut aspace, PAGE_SIZE, 3 * PAGE_SIZE), -1);
    assert_eq!(mapped_vpns(&aspace, 0, 10), vec![1, 3]);
}

#[test]
fn mmap_with_zero_port_always_fails() {
    let mut aspace = AddressSpace::new(0);
    assert_eq!(sys_mmap(&mut aspace, 0, PAGE_SIZE, 0), -1);
    assert_eq!(sys_mmap(&mut aspace, 5 * PAGE_SIZE, 123, 0), -1);
    assert_eq!(mapped_vpns(&aspace, 0, 10), Vec::<usize>::new());
}

#[test]
fn mmap_with_unaligned_start_always_fails() {
    let mut aspace = AddressSpace::new(0);
    assert_eq!(sys_mmap(&mut aspace, PAGE_SIZE + 1, PAGE_SIZE, 0x7), -1);
    assert_eq!(sys_mmap(&mut aspace, 17, 0, 0x1), -1);
    assert_eq!(sys_mmap(&mut aspace, 4095, usize::MAX, 0x3), -1);
    assert_eq!(mapped_vpns(&aspace, 0, 10), Vec::<usize>::new());
}

#[test]
fn mmap_rejects_empty_and_out_of_range_spans() {
    let mut aspace = AddressSpace::new(0);
    // len = 0 is rejected as an empty range
    assert_eq!(sys_mmap(&mut aspace, PAGE_SIZE, 0, 0x3), -1);
    // beyond the highest mappable page
    assert_eq!(sys_mmap(&mut aspace, MAX_VPN * PAGE_SIZE, PAGE_SIZE, 0x3), -1);
}

#[test]
fn munmap_of_empty_range_is_noop_success() {
    let mut aspace = AddressSpace::new(0);
    assert_eq!(sys_mmap(&mut aspace, PAGE_SIZE, PAGE_SIZE, 0x3), 0);
    assert_eq!(sys_munmap(&mut aspace, 6 * PAGE_SIZE, 0), 0);
    assert_eq!(mapped_vpns(&aspace, 0, 10), vec![1]);
}

#[test]
fn munmap_splits_an_area() {
    let mut aspace = AddressSpace::new(0);
    assert_eq!(sys_mmap(&mut aspace, 0, 5 * PAGE_SIZE, 0x3), 0);
    let (ppn0, _) = aspace.find_page(0).unwrap();
    let (ppn4, _) = aspace.find_page(4).unwrap();
    assert_eq!(sys_munmap(&mut aspace, 2 * PAGE_SIZE, PAGE_SIZE), 0);
    assert_eq!(mapped_vpns(&aspace, 0, 10), vec![0, 1, 3, 4]);
    // the surviving pages keep their frames
    assert_eq!(aspace.find_page(0).unwrap().0, ppn0);
    assert_eq!(aspace.find_page(4).unwrap().0, ppn4);
}

#[test]
fn insert_area_error_variants() {
    let mut aspace = AddressSpace::new(0);
    let perm = MapPermission::from_port(0x3).unwrap();
    assert_eq!(aspace.insert_area(5, 5, perm), Err(KernelError::ArgumentInvalid));
    assert_eq!(aspace.insert_area(6, 5, perm), Err(KernelError::ArgumentInvalid));
    assert_eq!(aspace.insert_area(0, MAX_VPN + 1, perm), Err(KernelError::ArgumentInvalid));
    assert_eq!(aspace.insert_area(0, MAX_VPN, perm), Ok(()));
    assert_eq!(aspace.insert_area(2, 3, perm), Err(KernelError::MappingConflict));
    // all frames are spent; even after unmapping, the bump allocator is empty
    assert_eq!(aspace.remove_area(0, MAX_VPN), Ok(()));
    assert_eq!(aspace.insert_area(0, 1, perm), Err(KernelError::FrameExhausted));
}

#[test]
fn remove_area_error_variant() {
    let mut aspace = AddressSpace::new(0);
    assert_eq!(aspace.remove_area(3, 4), Err(KernelError::MappingAbsent));
}

#[test]
fn sbrk_grows_shrinks_and_reports_old_break() {
    let mut aspace = AddressSpace::new(10 * PAGE_SIZE);
    let bottom = 10 * PAGE_SIZE;
    // grow by half a page: maps the page holding the new break
    assert_eq!(sys_sbrk(&mut aspace, (PAGE_SIZE / 2) as i32), bottom as isize);
    assert_eq!(mapped_vpns(&aspace, 0, 20), vec![10]);
    // grow further across a page boundary
    assert_eq!(
        sys_sbrk(&mut aspace, PAGE_SIZE as i32),
        (bottom + PAGE_SIZE / 2) as isize
    );
    assert_eq!(mapped_vpns(&aspace, 0, 20), vec![10, 11]);
    // shrink back to the bottom releases the heap pages
    let cur = bottom + PAGE_SIZE / 2 + PAGE_SIZE;
    let delta = (cur - bottom) as i32;
    assert_eq!(sys_sbrk(&mut aspace, -delta), cur as isize);
    assert_eq!(mapped_vpns(&aspace, 0, 20), Vec::<usize>::new());
    // shrinking below the bottom fails
    assert_eq!(sys_sbrk(&mut aspace, -1), -1);
}

#[test]
fn sbrk_fails_when_growth_collides_with_a_mapping() {
    let mut aspace = AddressSpace::new(10 * PAGE_SIZE);
    assert_eq!(sys_mmap(&mut aspace, 11 * PAGE_SIZE, PAGE_SIZE, 0x3), 0);
    let old = aspace.brk;
    assert_eq!(sys_sbrk(&mut aspace, (2 * PAGE_SIZE) as i32), -1);
    assert_eq!(aspace.brk, old);
    assert_eq!(mapped_vpns(&aspace, 0, 20), vec![11]);
}
