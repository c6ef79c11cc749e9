//! Address-space mapping validation: mmap/munmap acceptance and
//! rejection, atomicity on failure, the program break, and the
//! copy-to-user translation check.
use stride_kernel::kernel::add_initproc;
use stride_kernel::kernel::boot_kernel;
use stride_kernel::kernel::run_tasks;
use stride_kernel::kernel::Kernel;
use stride_kernel::syscall::sys_mmap;
use stride_kernel::syscall::sys_munmap;
use stride_kernel::syscall::sys_sbrk;
use stride_kernel::vm::copy_to_user;
use stride_kernel::vm::memory_is_available;
use stride_kernel::vm::mmap;
use stride_kernel::vm::munmap;

fn booted() -> Kernel {
    let mut k = boot_kernel();
    add_initproc(&mut k, 2);
    run_tasks(&mut k);
    k
}

#[test]
fn mmap_rejects_unaligned_start() {
    let mut k = booted();
    assert_eq!(mmap(&mut k, 0x10001, 4096, 0b011), -1);
    // The address space is unchanged: the whole range is still free.
    assert!(memory_is_available(&k, 0x10000, 0x3000));
}

#[test]
fn mmap_rejects_bad_permission_bits() {
    let mut k = booted();
    assert_eq!(mmap(&mut k, 0x10000, 4096, 0), -1);
    assert_eq!(mmap(&mut k, 0x10000, 4096, 0b1000), -1);
    assert_eq!(mmap(&mut k, 0x10000, 4096, 0b1010), -1);
    assert_eq!(sys_mmap(&mut k, 0x10000, 4096, 0), -1);
    assert_eq!(sys_mmap(&mut k, 0x10000, 4096, 9), -1);
    assert!(memory_is_available(&k, 0x10000, 4096));
}

#[test]
fn mmap_munmap_round_trip() {
    let mut k = booted();
    assert_eq!(mmap(&mut k, 0x10000, 4096, 0b011), 0);
    assert_eq!(munmap(&mut k, 0x10000, 4096), 0);
    assert_eq!(munmap(&mut k, 0x10000, 4096), -1);
}

#[test]
fn mmap_rejects_overlap_with_existing_mapping() {
    let mut k = booted();
    assert_eq!(mmap(&mut k, 0x10000, 0x2000, 0b001), 0);
    assert!(!memory_is_available(&k, 0x10000, 0x2000));
    // Any overlap, even partial, is rejected whole.
    assert_eq!(mmap(&mut k, 0x11000, 0x2000, 0b001), -1);
    assert!(memory_is_available(&k, 0x12000, 0x1000));
}

#[test]
fn partial_overlap_munmap_is_rejected_whole() {
    let mut k = booted();
    assert_eq!(mmap(&mut k, 0x10000, 0x2000, 0b011), 0);
    // [0x10000, 0x14000) covers two mapped and two unmapped pages.
    assert_eq!(munmap(&mut k, 0x10000, 0x4000), -1);
    // The original mapping is intact: mapped pages still there...
    assert!(!memory_is_available(&k, 0x10000, 0x2000));
    // ...and the tail still free.
    assert!(memory_is_available(&k, 0x12000, 0x2000));
    // Removing exactly the mapped range still works afterwards.
    assert_eq!(munmap(&mut k, 0x10000, 0x2000), 0);
    assert!(memory_is_available(&k, 0x10000, 0x4000));
}

#[test]
fn sys_munmap_matches_munmap() {
    let mut k = booted();
    assert_eq!(sys_mmap(&mut k, 0x20000, 4096, 0b111), 0);
    assert_eq!(sys_munmap(&mut k, 0x20000, 4096), 0);
    assert_eq!(sys_munmap(&mut k, 0x20000, 4096), -1);
}

#[test]
fn mmap_len_rounds_up_to_whole_pages() {
    let mut k = booted();
    assert_eq!(mmap(&mut k, 0x30000, 1, 0b001), 0);
    // One byte maps one whole page.
    assert!(!memory_is_available(&k, 0x30000, 4096));
    assert!(memory_is_available(&k, 0x31000, 4096));
    assert_eq!(munmap(&mut k, 0x30000, 4096), 0);
}

#[test]
fn copy_to_user_handles_page_spanning_destinations() {
    let mut k = booted();
    assert_eq!(mmap(&mut k, 0x10000, 0x2000, 0b011), 0);
    // Destination fully inside one mapped page.
    assert_eq!(copy_to_user(&k, 0x10010, 16), 16);
    // Destination spanning the two mapped pages.
    assert_eq!(copy_to_user(&k, 0x10ffc, 8), 8);
    // Destination running off the mapping's end fails whole.
    assert_eq!(copy_to_user(&k, 0x11ffc, 8), -1);
    // Unmapped destination fails.
    assert_eq!(copy_to_user(&k, 0x40000, 4), -1);
    // Empty copies always succeed.
    assert_eq!(copy_to_user(&k, 0x40000, 0), 0);
}

#[test]
fn sbrk_moves_the_break_and_rejects_underflow() {
    let mut k = booted();
    // Grow by 16 bytes: returns the old break.
    assert_eq!(sys_sbrk(&mut k, 16), 0);
    // Shrink below the heap bottom is rejected; nothing changes.
    assert_eq!(sys_sbrk(&mut k, -32), -1);
    // Shrink within bounds returns the current break.
    assert_eq!(sys_sbrk(&mut k, -10), 16);
    assert_eq!(sys_sbrk(&mut k, 0), 6);
}
