//! Process management syscalls: the thin dispatch layer between raw
//! user-space values and the lifecycle and mapping-validation operations.
use vstd::prelude::*;

verus! {

use crate::kernel::Kernel;
use crate::lifecycle::elapsed_ms;
use crate::lifecycle::exit_current_and_run_next;
use crate::lifecycle::exit_post;
use crate::lifecycle::get_current_task_info;
use crate::lifecycle::get_time;
use crate::lifecycle::halt_post;
use crate::lifecycle::suspend_current_and_run_next;
use crate::lifecycle::yield_post;
use crate::lifecycle::TaskInfo;
use crate::lifecycle::TimeVal;
use crate::vm::brk_post;
use crate::vm::change_program_brk;
use crate::vm::copy_to_user;
use crate::vm::mmap;
use crate::vm::mmap_post;
use crate::vm::munmap;
use crate::vm::munmap_post;
use crate::ROOT_PID;

/// Bytes of the time-value layout copied to user space: two
/// unsigned words.
pub const TIME_VAL_BYTES: usize = 16;

/// Bytes of the task-info layout copied to user space: the status word,
/// the fixed syscall-count table, and the elapsed-milliseconds word.
pub const TASK_INFO_BYTES: usize = 2012;

/// The exit syscall: terminates the current task with the given exit
/// code. Control never returns to the exiting task: when this call comes
/// back the current slot holds the next scheduled task, or nothing — and
/// a root exit has halted the kernel for good.
pub fn sys_exit(k: &mut Kernel, exit_code: i32)
    requires
        old(k).wf(),
        old(k).current is Some,
        !old(k).halted,
    ensures
        final(k).wf(),
        old(k).current->0 == ROOT_PID ==> halt_post(*old(k), *final(k), exit_code),
        old(k).current->0 != ROOT_PID ==> exit_post(*old(k), *final(k), exit_code),
{
    exit_current_and_run_next(k, exit_code);
}

/// The yield syscall: the current task gives up the core for the other
/// ready tasks. Always succeeds with `0`.
pub fn sys_yield(k: &mut Kernel) -> (r: isize)
    requires
        old(k).wf(),
        old(k).current is Some,
        !old(k).halted,
    ensures
        final(k).wf(),
        yield_post(*old(k), *final(k)),
        r == 0,
{
    suspend_current_and_run_next(k);
    0
}

/// The get-time syscall: status `0` and the `{sec, usec}` pair derived
/// from the monotonic clock. The pair is what the kernel copies to the
/// user destination `ts`, resolved through the current task's address
/// space; the raw byte write is the trap layer's, so the pair is also
/// handed back to the caller, pinned by the contract.
pub fn sys_get_time(k: &Kernel, ts: usize, tz: usize) -> (r: (isize, TimeVal))
    requires
        k.wf(),
        k.current is Some,
    ensures
        r.0 == 0,
        r.1.sec == k.clock_us / 1_000_000,
        r.1.usec == k.clock_us % 1_000_000,
{
    let tv = get_time(k, tz);
    let _written = copy_to_user(k, ts, TIME_VAL_BYTES);
    (0, tv)
}

/// The task-info syscall: status `0` and the current task's snapshot —
/// its status, its syscall-count table and its elapsed whole
/// milliseconds. The snapshot is what the kernel copies to the user
/// destination `ti`, resolved through the current task's address space;
/// as with the time syscall, it is handed back pinned by the contract.
pub fn sys_task_info(k: &Kernel, ti: usize) -> (r: (isize, TaskInfo))
    requires
        k.wf(),
        k.current is Some,
    ensures
        r.0 == 0,
        ({
            let pid = k.current->0 as int;
            &&& r.1.status == k.tasks@[pid].status
            &&& r.1.syscall_times@ == k.tasks@[pid].syscall_times@
            &&& r.1.time == elapsed_ms(k.tasks@[pid].start_time_us as int, k.clock_us as int)
        }),
{
    let info = get_current_task_info(k);
    let _written = copy_to_user(k, ti, TASK_INFO_BYTES);
    (0, info)
}

/// The mmap syscall: checks the permission bits first, as the syscall
/// layer does, then hands the request to the validator.
pub fn sys_mmap(k: &mut Kernel, start: usize, len: usize, port: usize) -> (r: isize)
    requires
        old(k).wf(),
        old(k).current is Some,
    ensures
        final(k).wf(),
        mmap_post(*old(k), *final(k), start, len, port, r),
{
    if port == 0 || port > 7 {
        return -1;
    }
    mmap(k, start, len, port)
}

/// The munmap syscall.
pub fn sys_munmap(k: &mut Kernel, start: usize, len: usize) -> (r: isize)
    requires
        old(k).wf(),
        old(k).current is Some,
    ensures
        final(k).wf(),
        munmap_post(*old(k), *final(k), start, len, r),
{
    munmap(k, start, len)
}

/// The sbrk syscall: adjusts the current task's data-segment size,
/// returning the old break, or `-1` when the adjustment is rejected.
pub fn sys_sbrk(k: &mut Kernel, size: i32) -> (r: isize)
    requires
        old(k).wf(),
        old(k).current is Some,
    ensures
        final(k).wf(),
        ({
            let t = old(k).tasks@[old(k).current->0 as int];
            if t.heap_bottom <= t.program_brk + size <= usize::MAX {
                r == t.program_brk as isize && brk_post(
                    *old(k),
                    *final(k),
                    size,
                    Some(t.program_brk),
                )
            } else {
                r == -1 && *final(k) == *old(k)
            }
        }),
{
    let res = change_program_brk(k, size);
    match res {
        Some(old_brk) => old_brk as isize,
        None => -1,
    }
}

} // verus!
