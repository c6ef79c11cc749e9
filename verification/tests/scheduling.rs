//! Scheduler behaviour: bootstrap, deterministic tie-break, no immediate
//! reselection while a smaller pass is ready, and priority-proportional
//! fairness over many rounds.
use stride_kernel::kernel::add_initproc;
use stride_kernel::kernel::add_task;
use stride_kernel::kernel::boot_kernel;
use stride_kernel::kernel::current_task;
use stride_kernel::kernel::fetch_task;
use stride_kernel::kernel::run_tasks;
use stride_kernel::kernel::spawn;
use stride_kernel::kernel::take_current_task;
use stride_kernel::lifecycle::suspend_current_and_run_next;
use stride_kernel::tcb::TaskStatus;
use stride_kernel::BIG_STRIDE;
use stride_kernel::ROOT_PID;

#[test]
fn boot_state_is_empty() {
    let k = boot_kernel();
    assert_eq!(k.tasks.len(), 0);
    assert_eq!(k.manager.ready.len(), 0);
    assert_eq!(k.current, None);
    assert!(!k.halted);
    assert_eq!(k.clock_us, 0);
}

#[test]
fn bootstrap_creates_ready_root() {
    let mut k = boot_kernel();
    add_initproc(&mut k, 2);
    assert_eq!(k.tasks.len(), 1);
    assert_eq!(k.tasks[ROOT_PID].status, TaskStatus::Ready);
    assert_eq!(k.tasks[ROOT_PID].parent, None);
    assert_eq!(k.tasks[ROOT_PID].pass, 0);
    assert_eq!(k.manager.ready, vec![ROOT_PID]);
}

#[test]
fn run_tasks_installs_root() {
    let mut k = boot_kernel();
    add_initproc(&mut k, 2);
    let progress = run_tasks(&mut k);
    assert!(progress);
    assert_eq!(current_task(&k), Some(ROOT_PID));
    assert_eq!(k.tasks[ROOT_PID].status, TaskStatus::Running);
    assert_eq!(k.tasks[ROOT_PID].pass, BIG_STRIDE / 2);
}

#[test]
fn run_tasks_idle_when_nothing_ready() {
    let mut k = boot_kernel();
    let progress = run_tasks(&mut k);
    assert!(!progress);
    assert_eq!(current_task(&k), None);
}

#[test]
fn equal_pass_tie_break_is_queue_order() {
    // Three tasks with equal priority and pass zero: the scheduler hands
    // them out in queue order, round-robin.
    let mut k = boot_kernel();
    add_initproc(&mut k, 2);
    let a = spawn(&mut k, ROOT_PID, 2);
    let b = spawn(&mut k, ROOT_PID, 2);
    assert_eq!((a, b), (1, 2));
    let mut order = Vec::new();
    run_tasks(&mut k);
    order.push(current_task(&k).unwrap());
    for _ in 0..5 {
        suspend_current_and_run_next(&mut k);
        order.push(current_task(&k).unwrap());
    }
    assert_eq!(order, vec![0, 1, 2, 0, 1, 2]);
}

#[test]
fn no_immediate_reselection_while_smaller_pass_ready() {
    // Root (priority 2) runs first; after its pass advances, the fresh
    // task with pass zero must be selected, never root twice in a row
    // while the other still has the strictly smaller pass.
    let mut k = boot_kernel();
    add_initproc(&mut k, 2);
    let child = spawn(&mut k, ROOT_PID, 2);
    run_tasks(&mut k);
    assert_eq!(current_task(&k), Some(ROOT_PID));
    suspend_current_and_run_next(&mut k);
    assert_eq!(current_task(&k), Some(child));
}

#[test]
fn fetch_task_returns_min_pass_and_advances_it() {
    let mut k = boot_kernel();
    add_initproc(&mut k, 2);
    let child = spawn(&mut k, ROOT_PID, 4);
    // Both have pass 0; root was queued first, so root comes out first,
    // with its pass advanced by BIG_STRIDE / 2.
    let first = fetch_task(&mut k).unwrap();
    assert_eq!(first, ROOT_PID);
    assert_eq!(k.tasks[ROOT_PID].pass, BIG_STRIDE / 2);
    // The child is still queued; its stride is BIG_STRIDE / 4.
    let second = fetch_task(&mut k).unwrap();
    assert_eq!(second, child);
    assert_eq!(k.tasks[child].pass, BIG_STRIDE / 4);
    assert_eq!(fetch_task(&mut k), None);
    // Requeue both: the child, with the smaller pass, comes out first now.
    add_task(&mut k, first);
    add_task(&mut k, second);
    assert_eq!(fetch_task(&mut k), Some(child));
}

#[test]
fn take_current_task_empties_the_slot() {
    let mut k = boot_kernel();
    add_initproc(&mut k, 2);
    run_tasks(&mut k);
    assert_eq!(take_current_task(&mut k), Some(ROOT_PID));
    assert_eq!(current_task(&k), None);
    assert_eq!(take_current_task(&mut k), None);
}

#[test]
fn fairness_follows_priority_proportion() {
    // Root at priority 2 (stride 32768), child at priority 4 (stride
    // 16384): over many rounds the child runs about twice as often, and
    // the stride-weighted counts agree to within one stride constant.
    let mut k = boot_kernel();
    add_initproc(&mut k, 2);
    let child = spawn(&mut k, ROOT_PID, 4);
    let rounds: u64 = 31;
    let mut root_count: u64 = 0;
    let mut child_count: u64 = 0;
    run_tasks(&mut k);
    for i in 0..rounds {
        match current_task(&k) {
            Some(p) if p == ROOT_PID => root_count += 1,
            Some(p) if p == child => child_count += 1,
            other => panic!("unexpected current task {:?}", other),
        }
        if i + 1 < rounds {
            suspend_current_and_run_next(&mut k);
        }
    }
    assert_eq!(root_count + child_count, rounds);
    assert!(child_count >= root_count);
    let w_root = root_count * (BIG_STRIDE / 2);
    let w_child = child_count * (BIG_STRIDE / 4);
    assert!(w_root <= w_child + BIG_STRIDE);
    assert!(w_child <= w_root + BIG_STRIDE);
}
