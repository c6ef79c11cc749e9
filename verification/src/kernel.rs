//! The kernel's global state: the task table, the ready queue, the per-core
//! current-task slot and the clock, together with the processor operations
//! (fetch-and-install, take-current) that drive scheduling.
//!
//! There are no ambient statics: boot code constructs a [`Kernel`] once and
//! threads it through every operation. The root process must be created
//! (see [`add_initproc`]) before any task can exit, because exit reparents
//! the dying task's children to the root; this ordering is a stated
//! precondition of the operations that rely on it.
use vstd::prelude::*;

verus! {

use crate::manager::passes_of;
use crate::manager::pick_idx;
use crate::manager::TaskManager;
use crate::mem::AddressSpace;
use crate::tcb::advance_pass;
use crate::tcb::same_except_children;
use crate::tcb::same_except_sched;
use crate::tcb::stride_of;
use crate::tcb::TaskControlBlock;
use crate::tcb::TaskStatus;
use crate::BIG_STRIDE;
use crate::MAX_SYSCALL_NUM;
use crate::ROOT_PID;

/// Whether the pid `j` occurs in `s`.
pub open spec fn has_pid(s: Seq<usize>, j: int) -> bool {
    exists|k: int| 0 <= k < s.len() && s[k] == j
}

/// Witness introduction for [`has_pid`].
pub proof fn lemma_has_pid(s: Seq<usize>, w: int)
    requires
        0 <= w < s.len(),
    ensures
        has_pid(s, s[w] as int),
{
    assert(s[w] == s[w] as int);
}

/// The whole process- and memory-management state of the kernel.
pub struct Kernel {
    /// All task control blocks ever created, indexed by pid.
    pub tasks: Vec<TaskControlBlock>,
    /// The ready queue.
    pub manager: TaskManager,
    /// Pid of the running task, if any; the processor's single current slot.
    pub current: Option<usize>,
    /// Monotonic microsecond clock, advanced by the external timer.
    pub clock_us: usize,
    /// Set once the root process exits; no scheduling happens afterwards.
    pub halted: bool,
    /// The exit code reported by the fatal root exit; meaningful only
    /// once `halted` is set.
    pub halt_code: i32,
}

/// Process-tree conditions for the task with pid `i`: a valid record,
/// downward owning links (children) matched by upward weak links
/// (parent pids), no self-links, and no duplicate children.
pub open spec fn task_in_tree(tasks: Seq<TaskControlBlock>, clock: usize, i: int) -> bool {
    let t = tasks[i];
    &&& t.wf()
    &&& t.start_time_us <= clock
    &&& (t.parent is None <==> i == ROOT_PID)
    &&& (t.parent matches Some(p) ==> 0 <= p < tasks.len() && p != i
        && tasks[p as int].children@.contains(i as usize))
    &&& forall|k: int| 0 <= k < t.children@.len() ==> (#[trigger] t.children@[k]) < tasks.len()
    &&& forall|k: int|
        0 <= k < t.children@.len() ==> tasks[#[trigger] t.children@[k] as int].parent == Some(
            i as usize,
        )
    &&& forall|k1: int, k2: int|
        0 <= k1 < k2 < t.children@.len() ==> t.children@[k1] != t.children@[k2]
}

/// Every task satisfies the tree conditions.
pub open spec fn tree_wf(tasks: Seq<TaskControlBlock>, clock: usize) -> bool {
    forall|i: int| 0 <= i < tasks.len() ==> task_in_tree(tasks, clock, i)
}

/// The ready queue holds valid, distinct pids of `Ready` tasks.
pub open spec fn queue_wf(tasks: Seq<TaskControlBlock>, ready: Seq<usize>) -> bool {
    &&& forall|k: int| 0 <= k < ready.len() ==> (#[trigger] ready[k]) < tasks.len()
    &&& forall|k: int| 0 <= k < ready.len() ==> tasks[#[trigger] ready[k] as int].status is Ready
    &&& forall|k1: int, k2: int| 0 <= k1 < k2 < ready.len() ==> ready[k1] != ready[k2]
}

impl Kernel {
    /// Global well-formedness: every task satisfies the tree conditions,
    /// the ready queue holds valid, distinct, `Ready` pids, the current
    /// slot (if filled) holds a `Running` task that is not queued, and a
    /// halted kernel runs nothing.
    pub open spec fn wf(self) -> bool {
        &&& tree_wf(self.tasks@, self.clock_us)
        &&& queue_wf(self.tasks@, self.manager.ready@)
        &&& (self.current matches Some(c) ==> c < self.tasks@.len()
            && self.tasks@[c as int].status is Running && !has_pid(self.manager.ready@, c as int))
        &&& (self.halted ==> self.current is None)
    }
}

/// A fresh kernel: no tasks, nothing queued, nothing running, clock at
/// zero. The root process does not exist yet; create it with
/// [`add_initproc`] before any task can run or exit.
pub fn boot_kernel() -> (k: Kernel)
    ensures
        k.wf(),
        k.tasks@.len() == 0,
        k.manager.ready@.len() == 0,
        k.current is None,
        !k.halted,
        k.clock_us == 0,
{
    Kernel {
        tasks: Vec::new(),
        manager: TaskManager::new(),
        current: None,
        clock_us: 0,
        halted: false,
        halt_code: 0,
    }
}

/// A syscall-count table of the fixed size, all zeros.
fn zero_counts() -> (r: Vec<u32>)
    ensures
        r@.len() == MAX_SYSCALL_NUM,
        forall|i: int| 0 <= i < r@.len() ==> r@[i] == 0u32,
{
    let mut v: Vec<u32> = Vec::new();
    let mut i: usize = 0;
    while i < MAX_SYSCALL_NUM
        invariant
            i <= MAX_SYSCALL_NUM,
            v@.len() == i,
            forall|j: int| 0 <= j < v@.len() ==> v@[j] == 0u32,
        decreases MAX_SYSCALL_NUM - i,
    {
        v.push(0);
        i = i + 1;
    }
    v
}

/// Creates the root process (pid 0) in an empty kernel and queues it.
/// Must run exactly once, before anything can be scheduled or exit.
pub fn add_initproc(k: &mut Kernel, priority: u64)
    requires
        old(k).wf(),
        old(k).tasks@.len() == 0,
        old(k).manager.ready@.len() == 0,
        2 <= priority <= BIG_STRIDE,
    ensures
        final(k).wf(),
        final(k).tasks@.len() == 1,
        final(k).tasks@[ROOT_PID as int].status is Ready,
        final(k).tasks@[ROOT_PID as int].parent is None,
        final(k).tasks@[ROOT_PID as int].children@.len() == 0,
        final(k).tasks@[ROOT_PID as int].priority == priority,
        final(k).tasks@[ROOT_PID as int].pass == 0,
        final(k).tasks@[ROOT_PID as int].exit_code == 0,
        final(k).tasks@[ROOT_PID as int].start_time_us == old(k).clock_us,
        final(k).tasks@[ROOT_PID as int].heap_bottom == 0,
        final(k).tasks@[ROOT_PID as int].program_brk == 0,
        forall|i: int|
            0 <= i < MAX_SYSCALL_NUM ==> final(k).tasks@[ROOT_PID as int].syscall_times@[i]
                == 0u32,
        forall|v: int| !final(k).tasks@[ROOT_PID as int].memory.is_mapped(v),
        final(k).manager.ready@ == seq![ROOT_PID],
        final(k).current == old(k).current,
        final(k).clock_us == old(k).clock_us,
        final(k).halted == old(k).halted,
        final(k).halt_code == old(k).halt_code,
{
    let t = TaskControlBlock {
        status: TaskStatus::Ready,
        priority,
        pass: 0,
        exit_code: 0,
        parent: None,
        children: Vec::new(),
        syscall_times: zero_counts(),
        start_time_us: k.clock_us,
        memory: AddressSpace::new(),
        heap_bottom: 0,
        program_brk: 0,
    };
    k.tasks.push(t);
    k.manager.add(ROOT_PID);
    proof {
        assert(k.manager.ready@ =~= seq![ROOT_PID]);
    }
}

/// Creates a new task as a child of `parent`, `Ready` and queued, with a
/// fresh pid (the next table index), pass zero, an empty address space and
/// the clock as its start time. Process creation proper (loading an image)
/// is the loader collaborator's business; this is the structural part every
/// creation path shares.
pub fn spawn(k: &mut Kernel, parent: usize, priority: u64) -> (pid: usize)
    requires
        old(k).wf(),
        !old(k).halted,
        parent < old(k).tasks@.len(),
        2 <= priority <= BIG_STRIDE,
        old(k).tasks@.len() < usize::MAX,
    ensures
        final(k).wf(),
        pid == old(k).tasks@.len(),
        final(k).tasks@.len() == old(k).tasks@.len() + 1,
        final(k).tasks@[pid as int].status is Ready,
        final(k).tasks@[pid as int].parent == Some(parent),
        final(k).tasks@[pid as int].children@.len() == 0,
        final(k).tasks@[pid as int].priority == priority,
        final(k).tasks@[pid as int].pass == 0,
        final(k).tasks@[pid as int].start_time_us == old(k).clock_us,
        final(k).tasks@[pid as int].exit_code == 0,
        forall|i: int|
            0 <= i < MAX_SYSCALL_NUM ==> final(k).tasks@[pid as int].syscall_times@[i] == 0u32,
        forall|v: int| !final(k).tasks@[pid as int].memory.is_mapped(v),
        final(k).tasks@[pid as int].heap_bottom == 0,
        final(k).tasks@[pid as int].program_brk == 0,
        final(k).tasks@[parent as int].children@ == old(k).tasks@[parent as int].children@.push(
            pid,
        ),
        same_except_children(old(k).tasks@[parent as int], final(k).tasks@[parent as int]),
        forall|j: int|
            0 <= j < old(k).tasks@.len() && j != parent ==> final(k).tasks@[j] == old(k).tasks@[j],
        final(k).manager.ready@ == old(k).manager.ready@.push(pid),
        final(k).current == old(k).current,
        final(k).clock_us == old(k).clock_us,
        final(k).halted == old(k).halted,
        final(k).halt_code == old(k).halt_code,
{
    let pid = k.tasks.len();
    let t = TaskControlBlock {
        status: TaskStatus::Ready,
        priority,
        pass: 0,
        exit_code: 0,
        parent: Some(parent),
        children: Vec::new(),
        syscall_times: zero_counts(),
        start_time_us: k.clock_us,
        memory: AddressSpace::new(),
        heap_bottom: 0,
        program_brk: 0,
    };
    k.tasks.push(t);
    let pref = &mut k.tasks[parent];
    pref.children.push(pid);
    k.manager.add(pid);
    proof {
        let pre = *old(k);
        let ghost pl = pre.tasks@[parent as int].children@.len() as int;
        assert(k.tasks@[parent as int].children@ == pre.tasks@[parent as int].children@.push(pid));
        assert(k.tasks@[parent as int].children@[pl] == pid);
        assert(k.tasks@[parent as int].children@.contains(pid));
        assert forall|i: int| 0 <= i < k.tasks@.len() implies task_in_tree(k.tasks@, k.clock_us, i) by {
            if i < pre.tasks@.len() {
                assert(task_in_tree(pre.tasks@, pre.clock_us, i));
                if i == parent {
                    let tp = k.tasks@[i];
                    assert forall|k2: int|
                        0 <= k2 < tp.children@.len() implies (#[trigger] tp.children@[k2])
                        < k.tasks@.len() by {
                        if k2 < tp.children@.len() - 1 {
                            assert(pre.tasks@[i].children@[k2] < pre.tasks@.len());
                        }
                    }
                    assert forall|k2: int|
                        0 <= k2 < tp.children@.len() implies k.tasks@[#[trigger] tp.children@[k2] as int].parent
                        == Some(i as usize) by {
                        if k2 < tp.children@.len() - 1 {
                            assert(pre.tasks@[pre.tasks@[i].children@[k2] as int].parent == Some(
                                i as usize,
                            ));
                        }
                    }
                    assert forall|k1: int, k2: int|
                        0 <= k1 < k2 < tp.children@.len() implies tp.children@[k1]
                        != tp.children@[k2] by {
                        if k2 < tp.children@.len() - 1 {
                        } else {
                            assert(pre.tasks@[i].children@[k1] < pre.tasks@.len());
                        }
                    }
                    if pre.tasks@[i].parent is Some {
                        let p = pre.tasks@[i].parent->0;
                        assert(pre.tasks@[p as int].children@.contains(i as usize));
                        assert(k.tasks@[p as int].children@.contains(i as usize));
                    }
                } else {
                    assert(k.tasks@[i] == pre.tasks@[i]);
                    if pre.tasks@[i].parent is Some {
                        let p = pre.tasks@[i].parent->0;
                        if p == parent {
                            let ck = choose|ck: int|
                                0 <= ck < pre.tasks@[p as int].children@.len()
                                    && pre.tasks@[p as int].children@[ck] == i as usize;
                            assert(k.tasks@[p as int].children@[ck] == i as usize);
                            assert(k.tasks@[p as int].children@.contains(i as usize));
                        }
                    }
                }
            } else {
                assert(i == pid);
                assert(k.tasks@[parent as int].children@.contains(pid));
            }
        }
    }
    pid
}

/// Read-only view of the current-task slot.
pub fn current_task(k: &Kernel) -> (r: Option<usize>)
    ensures
        r == k.current,
{
    k.current
}

/// Removes and returns the current task, leaving the slot empty;
/// ownership of the running task passes to the caller. Everything else
/// is untouched.
pub fn take_current_task(k: &mut Kernel) -> (r: Option<usize>)
    requires
        old(k).wf(),
    ensures
        final(k).wf(),
        r == old(k).current,
        final(k).current is None,
        final(k).tasks@ == old(k).tasks@,
        final(k).manager.ready@ == old(k).manager.ready@,
        final(k).clock_us == old(k).clock_us,
        final(k).halted == old(k).halted,
        final(k).halt_code == old(k).halt_code,
{
    let r = k.current;
    k.current = None;
    r
}

/// Adds a `Ready` task to the ready queue; the scheduling entry point the
/// trap layer uses. Never fails.
pub fn add_task(k: &mut Kernel, pid: usize)
    requires
        old(k).wf(),
        pid < old(k).tasks@.len(),
        old(k).tasks@[pid as int].status is Ready,
        !has_pid(old(k).manager.ready@, pid as int),
        old(k).current != Some(pid),
    ensures
        final(k).wf(),
        final(k).manager.ready@ == old(k).manager.ready@.push(pid),
        final(k).tasks@ == old(k).tasks@,
        final(k).current == old(k).current,
        final(k).clock_us == old(k).clock_us,
        final(k).halted == old(k).halted,
{
    k.manager.add(pid);
}

/// Removes and returns the ready task with the smallest pass, advancing
/// its pass by its stride; `None` exactly when nothing is ready. The
/// returned task is still `Ready`: installing it is the processor's step.
pub fn fetch_task(k: &mut Kernel) -> (r: Option<usize>)
    requires
        old(k).wf(),
    ensures
        final(k).wf(),
        old(k).manager.ready@.len() == 0 ==> r is None && *final(k) == *old(k),
        old(k).manager.ready@.len() > 0 ==> {
            let i = pick_idx(old(k).tasks@, old(k).manager.ready@);
            let pid = old(k).manager.ready@[i] as int;
            &&& r == Some(old(k).manager.ready@[i])
            &&& final(k).manager.ready@ == old(k).manager.ready@.remove(i)
            &&& final(k).tasks@.len() == old(k).tasks@.len()
            &&& final(k).tasks@[pid].pass == advance_pass(
                old(k).tasks@[pid].pass,
                stride_of(old(k).tasks@[pid].priority),
            )
            &&& final(k).tasks@[pid].status == old(k).tasks@[pid].status
            &&& same_except_sched(old(k).tasks@[pid], final(k).tasks@[pid])
            &&& forall|j: int|
                0 <= j < old(k).tasks@.len() && j != pid ==> final(k).tasks@[j] == old(k).tasks@[j]
        },
        final(k).current == old(k).current,
        final(k).clock_us == old(k).clock_us,
        final(k).halted == old(k).halted,
        final(k).halt_code == old(k).halt_code,
{
    proof {
        assert forall|k2: int|
            0 <= k2 < k.manager.ready@.len() implies 2 <= k.tasks@[#[trigger] k.manager.ready@[k2] as int].priority
            <= BIG_STRIDE by {
            assert(task_in_tree(k.tasks@, k.clock_us, k.manager.ready@[k2] as int));
        }
    }
    let r = k.manager.fetch(&mut k.tasks);
    proof {
        let pre = *old(k);
        if pre.manager.ready@.len() > 0 {
            let i = pick_idx(pre.tasks@, pre.manager.ready@);
            crate::manager::lemma_first_min_idx(passes_of(pre.tasks@, pre.manager.ready@));
            let pid = pre.manager.ready@[i] as int;
            assert forall|i2: int| 0 <= i2 < k.tasks@.len() implies task_in_tree(k.tasks@, k.clock_us, i2) by {
                assert(task_in_tree(pre.tasks@, pre.clock_us, i2));
                if i2 != pid {
                    assert(k.tasks@[i2] == pre.tasks@[i2]);
                }
            }
            assert forall|k1: int, k2: int|
                0 <= k1 < k2 < k.manager.ready@.len() implies k.manager.ready@[k1]
                != k.manager.ready@[k2] by {
                assert(k.manager.ready@ == pre.manager.ready@.remove(i));
            }
            assert forall|k2: int|
                0 <= k2 < k.manager.ready@.len() implies (#[trigger] k.manager.ready@[k2])
                < k.tasks@.len() && k.tasks@[k.manager.ready@[k2] as int].status is Ready by {
                if k2 < i {
                    assert(k.manager.ready@[k2] == pre.manager.ready@[k2]);
                    assert(pre.manager.ready@[k2] != pre.manager.ready@[i]);
                } else {
                    assert(k.manager.ready@[k2] == pre.manager.ready@[k2 + 1]);
                    assert(pre.manager.ready@[k2 + 1] != pre.manager.ready@[i]);
                }
                assert(k.tasks@[k.manager.ready@[k2] as int] == pre.tasks@[k.manager.ready@[k2] as int]);
            }
            if pre.current is Some {
                let c = pre.current->0;
                assert(!has_pid(pre.manager.ready@, c as int));
                assert forall|k2: int| 0 <= k2 < k.manager.ready@.len() implies k.manager.ready@[k2]
                    != c by {
                    if k2 < i {
                        assert(pre.manager.ready@[k2] != c);
                    } else {
                        assert(pre.manager.ready@[k2 + 1] != c);
                    }
                }
                assert(!has_pid(k.manager.ready@, c as int));
            }
        }
    }
    r
}

/// One round of the processor's driving loop: if the kernel is halted or
/// nothing is ready, does nothing and reports `false`; otherwise fetches
/// the ready task with the smallest pass, marks it `Running`, installs it
/// in the current slot — the switch into its saved context — and reports
/// `true`. The driver loop outside the kernel simply invokes this
/// repeatedly; an empty round is its idle spin.
pub fn run_tasks(k: &mut Kernel) -> (progress: bool)
    requires
        old(k).wf(),
        old(k).current is None,
    ensures
        final(k).wf(),
        old(k).halted ==> *final(k) == *old(k) && !progress,
        !old(k).halted && old(k).manager.ready@.len() == 0 ==> *final(k) == *old(k) && !progress,
        !old(k).halted && old(k).manager.ready@.len() > 0 ==> {
            let i = pick_idx(old(k).tasks@, old(k).manager.ready@);
            let pid = old(k).manager.ready@[i] as int;
            &&& progress
            &&& final(k).current == Some(old(k).manager.ready@[i])
            &&& final(k).manager.ready@ == old(k).manager.ready@.remove(i)
            &&& final(k).tasks@.len() == old(k).tasks@.len()
            &&& final(k).tasks@[pid].status is Running
            &&& final(k).tasks@[pid].pass == advance_pass(
                old(k).tasks@[pid].pass,
                stride_of(old(k).tasks@[pid].priority),
            )
            &&& same_except_sched(old(k).tasks@[pid], final(k).tasks@[pid])
            &&& forall|j: int|
                0 <= j < old(k).tasks@.len() && j != pid ==> final(k).tasks@[j] == old(k).tasks@[j]
        },
        final(k).clock_us == old(k).clock_us,
        final(k).halted == old(k).halted,
        final(k).halt_code == old(k).halt_code,
{
    if k.halted {
        return false;
    }
    let fetched = fetch_task(k);
    match fetched {
        None => false,
        Some(pid) => {
            let ghost mid = *k;
            proof {
                crate::manager::lemma_first_min_idx(
                    passes_of(old(k).tasks@, old(k).manager.ready@),
                );
            }
            let t = &mut k.tasks[pid];
            t.status = TaskStatus::Running;
            k.current = Some(pid);
            proof {
                let pre = *old(k);
                crate::manager::lemma_first_min_idx(passes_of(pre.tasks@, pre.manager.ready@));
                let i = pick_idx(pre.tasks@, pre.manager.ready@);
                assert(k.tasks@ == mid.tasks@.update(pid as int, k.tasks@[pid as int]));
                assert(same_except_sched(mid.tasks@[pid as int], k.tasks@[pid as int]));
                assert forall|i2: int| 0 <= i2 < k.tasks@.len() implies task_in_tree(k.tasks@, k.clock_us, i2) by {
                    assert(task_in_tree(mid.tasks@, mid.clock_us, i2));
                    if i2 != pid {
                        assert(k.tasks@[i2] == mid.tasks@[i2]);
                    }
                }
                assert forall|k2: int|
                    0 <= k2 < k.manager.ready@.len() implies k.manager.ready@[k2] != pid as int by {
                    if k2 < i {
                        assert(pre.manager.ready@[k2] != pre.manager.ready@[i]);
                    } else {
                        assert(pre.manager.ready@[k2 + 1] != pre.manager.ready@[i]);
                    }
                }
            }
            true
        },
    }
}

} // verus!
