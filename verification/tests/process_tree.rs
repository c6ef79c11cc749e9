//! Process lifecycle: exit with reparenting, the fatal root exit,
//! syscall accounting, and the time and task-info snapshots.
use stride_kernel::kernel::add_initproc;
use stride_kernel::kernel::boot_kernel;
use stride_kernel::kernel::current_task;
use stride_kernel::kernel::run_tasks;
use stride_kernel::kernel::spawn;
use stride_kernel::lifecycle::advance_clock;
use stride_kernel::lifecycle::exit_current_and_run_next;
use stride_kernel::lifecycle::get_current_task_info;
use stride_kernel::lifecycle::get_time;
use stride_kernel::lifecycle::increase_current_syscall_times;
use stride_kernel::lifecycle::suspend_current_and_run_next;
use stride_kernel::syscall::sys_exit;
use stride_kernel::syscall::sys_yield;
use stride_kernel::tcb::TaskStatus;
use stride_kernel::MAX_SYSCALL_NUM;
use stride_kernel::ROOT_PID;

#[test]
fn spawn_links_parent_and_child() {
    let mut k = boot_kernel();
    add_initproc(&mut k, 2);
    let a = spawn(&mut k, ROOT_PID, 2);
    assert_eq!(a, 1);
    assert_eq!(k.tasks[a].parent, Some(ROOT_PID));
    assert_eq!(k.tasks[ROOT_PID].children, vec![a]);
    assert_eq!(k.tasks[a].status, TaskStatus::Ready);
    assert_eq!(k.tasks[a].children.len(), 0);
    assert_eq!(k.manager.ready, vec![ROOT_PID, a]);
}

#[test]
fn exit_reparents_children_to_root() {
    let mut k = boot_kernel();
    add_initproc(&mut k, 2);
    let a = spawn(&mut k, ROOT_PID, 2);
    let c1 = spawn(&mut k, a, 2);
    let c2 = spawn(&mut k, a, 2);
    assert_eq!(k.tasks[a].children, vec![c1, c2]);
    // Make `a` the current task: root runs first, then yields to `a`.
    run_tasks(&mut k);
    suspend_current_and_run_next(&mut k);
    assert_eq!(current_task(&k), Some(a));
    exit_current_and_run_next(&mut k, 7);
    // The exited task is a zombie holding the exit code, with no children.
    assert_eq!(k.tasks[a].status, TaskStatus::Zombie);
    assert_eq!(k.tasks[a].exit_code, 7);
    assert_eq!(k.tasks[a].children.len(), 0);
    // Each child now has the root as parent and stands in its list.
    assert_eq!(k.tasks[c1].parent, Some(ROOT_PID));
    assert_eq!(k.tasks[c2].parent, Some(ROOT_PID));
    assert!(k.tasks[ROOT_PID].children.contains(&c1));
    assert!(k.tasks[ROOT_PID].children.contains(&c2));
    // The zombie stays in its own parent's list until reaped.
    assert!(k.tasks[ROOT_PID].children.contains(&a));
    // The kernel went on scheduling: something else runs now.
    assert!(current_task(&k).is_some());
    assert_ne!(current_task(&k), Some(a));
    assert!(!k.halted);
}

#[test]
fn root_exit_is_fatal_and_halts_scheduling() {
    let mut k = boot_kernel();
    add_initproc(&mut k, 2);
    let a = spawn(&mut k, ROOT_PID, 2);
    run_tasks(&mut k);
    assert_eq!(current_task(&k), Some(ROOT_PID));
    sys_exit(&mut k, 9);
    assert!(k.halted);
    assert_eq!(k.halt_code, 9);
    assert_eq!(current_task(&k), None);
    // Scheduling is over for good, although a task is still ready.
    assert_eq!(k.tasks[a].status, TaskStatus::Ready);
    let progress = run_tasks(&mut k);
    assert!(!progress);
    assert_eq!(current_task(&k), None);
}

#[test]
fn yield_requeues_and_reschedules() {
    let mut k = boot_kernel();
    add_initproc(&mut k, 2);
    run_tasks(&mut k);
    // Alone in the system, the root yields to itself.
    let r = sys_yield(&mut k);
    assert_eq!(r, 0);
    assert_eq!(current_task(&k), Some(ROOT_PID));
    assert_eq!(k.tasks[ROOT_PID].status, TaskStatus::Running);
}

#[test]
fn syscall_counter_increments_and_checks_bounds() {
    let mut k = boot_kernel();
    add_initproc(&mut k, 2);
    run_tasks(&mut k);
    assert_eq!(increase_current_syscall_times(&mut k, 93), 0);
    assert_eq!(increase_current_syscall_times(&mut k, 93), 0);
    assert_eq!(increase_current_syscall_times(&mut k, 124), 0);
    assert_eq!(increase_current_syscall_times(&mut k, MAX_SYSCALL_NUM), -1);
    let info = get_current_task_info(&k);
    assert_eq!(info.syscall_times[93], 2);
    assert_eq!(info.syscall_times[124], 1);
    assert_eq!(info.syscall_times[0], 0);
    assert_eq!(info.status, TaskStatus::Running);
}

#[test]
fn get_time_splits_seconds_and_microseconds() {
    let mut k = boot_kernel();
    add_initproc(&mut k, 2);
    advance_clock(&mut k, 1_500_042);
    let tv = get_time(&k, 0);
    assert_eq!(tv.sec, 1);
    assert_eq!(tv.usec, 500_042);
}

#[test]
fn task_info_elapsed_is_nonnegative_and_nondecreasing() {
    let mut k = boot_kernel();
    add_initproc(&mut k, 2);
    run_tasks(&mut k);
    let first = get_current_task_info(&k);
    advance_clock(&mut k, 2_500);
    let second = get_current_task_info(&k);
    advance_clock(&mut k, 0);
    let third = get_current_task_info(&k);
    assert_eq!(first.time, 0);
    assert_eq!(second.time, 2);
    assert!(second.time <= third.time);
}

#[test]
fn time_and_info_syscalls_return_the_snapshot() {
    let mut k = boot_kernel();
    add_initproc(&mut k, 2);
    run_tasks(&mut k);
    advance_clock(&mut k, 2_000_007);
    assert_eq!(increase_current_syscall_times(&mut k, 64), 0);
    let (status, tv) = stride_kernel::syscall::sys_get_time(&k, 0x10000, 0);
    assert_eq!(status, 0);
    assert_eq!(tv.sec, 2);
    assert_eq!(tv.usec, 7);
    let (status, info) = stride_kernel::syscall::sys_task_info(&k, 0x10000);
    assert_eq!(status, 0);
    assert_eq!(info.status, TaskStatus::Running);
    assert_eq!(info.syscall_times[64], 1);
    assert_eq!(info.time, 2_000);
}
