//! Lifecycle operations on the running task: voluntary yield, exit with
//! reparenting, syscall accounting, and the time and task-info snapshots
//! copied out to user space.
use vstd::prelude::*;

verus! {

use crate::kernel::has_pid;
use crate::kernel::lemma_has_pid;
use crate::kernel::task_in_tree;
use crate::kernel::tree_wf;
use crate::kernel::Kernel;
use crate::manager::lemma_first_min_idx;
use crate::manager::lemma_pick_same_passes;
use crate::manager::passes_of;
use crate::manager::pick_idx;
use crate::tcb::advance_pass;
use crate::tcb::same_except_children;
use crate::tcb::same_except_parent;
use crate::tcb::same_except_sched;
use crate::tcb::stride_of;
use crate::tcb::TaskStatus;
use crate::MAX_SYSCALL_NUM;
use crate::ROOT_PID;

/// A time value as copied across the user/kernel boundary.
#[derive(Clone, Copy, Debug, PartialEq, Eq, Structural)]
pub struct TimeVal {
    /// Whole seconds.
    pub sec: usize,
    /// Microseconds below one second.
    pub usec: usize,
}

/// A task-info snapshot as copied across the user/kernel boundary.
pub struct TaskInfo {
    /// The task's status at snapshot time.
    pub status: TaskStatus,
    /// Copy of the task's syscall-count table.
    pub syscall_times: Vec<u32>,
    /// Whole milliseconds the task has existed.
    pub time: usize,
}

/// Elapsed whole milliseconds between a start reading and a later clock
/// reading, both in microseconds.
pub open spec fn elapsed_ms(start: int, now: int) -> int {
    (now - start) / 1000
}

/// Advances the kernel's monotonic clock: the injection point for the
/// external timer collaborator. The clock never moves backwards.
pub fn advance_clock(k: &mut Kernel, delta_us: usize)
    requires
        old(k).wf(),
        old(k).clock_us + delta_us <= usize::MAX,
    ensures
        final(k).wf(),
        final(k).clock_us == old(k).clock_us + delta_us,
        final(k).tasks@ == old(k).tasks@,
        final(k).manager.ready@ == old(k).manager.ready@,
        final(k).current == old(k).current,
        final(k).halted == old(k).halted,
        final(k).halt_code == old(k).halt_code,
{
    k.clock_us = k.clock_us + delta_us;
    proof {
        assert forall|i: int| 0 <= i < k.tasks@.len() implies task_in_tree(
            k.tasks@,
            k.clock_us,
            i,
        ) by {
            assert(task_in_tree(old(k).tasks@, old(k).clock_us, i));
        }
    }
}

/// Full effect of [`suspend_current_and_run_next`]: the suspended task is
/// `Ready` and requeued, and the ready task with the smallest pass — which
/// may be the suspended task itself — is fetched, its pass advanced by its
/// stride, and installed as `Running`.
pub open spec fn yield_post(pre: Kernel, post: Kernel) -> bool {
    let t = pre.current->0;
    let qmid = pre.manager.ready@.push(t);
    let i = pick_idx(pre.tasks@, qmid);
    let q = qmid[i];
    &&& post.current == Some(q)
    &&& post.manager.ready@ == qmid.remove(i)
    &&& post.tasks@.len() == pre.tasks@.len()
    &&& post.tasks@[q as int].status is Running
    &&& post.tasks@[q as int].pass == advance_pass(
        pre.tasks@[q as int].pass,
        stride_of(pre.tasks@[q as int].priority),
    )
    &&& same_except_sched(pre.tasks@[q as int], post.tasks@[q as int])
    &&& (t != q ==> post.tasks@[t as int].status is Ready && post.tasks@[t as int].pass
        == pre.tasks@[t as int].pass && same_except_sched(
        pre.tasks@[t as int],
        post.tasks@[t as int],
    ))
    &&& forall|j: int|
        0 <= j < pre.tasks@.len() && j != q && j != t ==> post.tasks@[j] == pre.tasks@[j]
    &&& post.clock_us == pre.clock_us
    &&& post.halted == pre.halted
    &&& post.halt_code == pre.halt_code
}

/// Suspends the current `Running` task: marks it `Ready`, pushes it back
/// into the ready queue, and performs the switch-out/switch-in round that
/// installs the ready task with the smallest pass (possibly the same task
/// again). Used for voluntary yield and by the timer-driven suspension
/// path alike; this and exit are the only suspension points.
pub fn suspend_current_and_run_next(k: &mut Kernel)
    requires
        old(k).wf(),
        old(k).current is Some,
        !old(k).halted,
    ensures
        final(k).wf(),
        yield_post(*old(k), *final(k)),
{
    let pid = k.current.unwrap();
    k.current = None;
    let t = &mut k.tasks[pid];
    t.status = TaskStatus::Ready;
    k.manager.add(pid);
    let ghost mid = *k;
    proof {
        let pre = *old(k);
        assert(mid.tasks@ == pre.tasks@.update(pid as int, mid.tasks@[pid as int]));
        assert forall|i: int| 0 <= i < mid.tasks@.len() implies task_in_tree(
            mid.tasks@,
            mid.clock_us,
            i,
        ) by {
            assert(task_in_tree(pre.tasks@, pre.clock_us, i));
            if i != pid {
                assert(mid.tasks@[i] == pre.tasks@[i]);
            }
        }
        assert forall|k2: int|
            0 <= k2 < mid.manager.ready@.len() implies (#[trigger] mid.manager.ready@[k2])
            < mid.tasks@.len() && mid.tasks@[mid.manager.ready@[k2] as int].status is Ready by {
            if k2 < pre.manager.ready@.len() {
                assert(pre.manager.ready@[k2] != pid);
            }
        }
        assert forall|k1: int, k2: int|
            0 <= k1 < k2 < mid.manager.ready@.len() implies mid.manager.ready@[k1]
            != mid.manager.ready@[k2] by {
            if k2 == mid.manager.ready@.len() - 1 {
                assert(!has_pid(pre.manager.ready@, pid as int));
                assert(pre.manager.ready@[k1] != pid);
            }
        }
        lemma_pick_same_passes(pre.tasks@, mid.tasks@, mid.manager.ready@);
        lemma_first_min_idx(passes_of(pre.tasks@, mid.manager.ready@));
    }
    let progress = crate::kernel::run_tasks(k);
    proof {
        let pre = *old(k);
        let qmid = pre.manager.ready@.push(pid);
        let i = pick_idx(pre.tasks@, qmid);
        let q = qmid[i];
        assert(mid.manager.ready@ == qmid);
        assert(pick_idx(mid.tasks@, qmid) == i);
        if q != pid {
            assert(k.tasks@[pid as int] == mid.tasks@[pid as int]);
        }
        assert(mid.tasks@[q as int].pass == pre.tasks@[q as int].pass);
    }
}

/// Increments the current task's syscall counter for syscall `id`,
/// saturating at the counter's maximum. An out-of-bound id is a checked
/// failure: it returns `-1` and changes nothing.
pub fn increase_current_syscall_times(k: &mut Kernel, id: usize) -> (r: isize)
    requires
        old(k).wf(),
        old(k).current is Some,
    ensures
        final(k).wf(),
        id >= MAX_SYSCALL_NUM ==> r == -1 && *final(k) == *old(k),
        id < MAX_SYSCALL_NUM ==> {
            let pid = old(k).current->0 as int;
            let c = old(k).tasks@[pid].syscall_times@[id as int];
            &&& r == 0
            &&& final(k).tasks@[pid].syscall_times@ == old(k).tasks@[pid].syscall_times@.update(
                id as int,
                (if c < u32::MAX {
                    (c + 1) as u32
                } else {
                    c
                }),
            )
            &&& final(k).tasks@[pid].status == old(k).tasks@[pid].status
            &&& final(k).tasks@[pid].pass == old(k).tasks@[pid].pass
            &&& final(k).tasks@[pid].parent == old(k).tasks@[pid].parent
            &&& final(k).tasks@[pid].children == old(k).tasks@[pid].children
            &&& final(k).tasks@[pid].memory == old(k).tasks@[pid].memory
            &&& final(k).tasks@[pid].priority == old(k).tasks@[pid].priority
            &&& final(k).tasks@[pid].exit_code == old(k).tasks@[pid].exit_code
            &&& final(k).tasks@[pid].start_time_us == old(k).tasks@[pid].start_time_us
            &&& final(k).tasks@[pid].heap_bottom == old(k).tasks@[pid].heap_bottom
            &&& final(k).tasks@[pid].program_brk == old(k).tasks@[pid].program_brk
            &&& forall|j: int|
                0 <= j < old(k).tasks@.len() && j != pid ==> final(k).tasks@[j] == old(k).tasks@[j]
            &&& final(k).manager.ready@ == old(k).manager.ready@
            &&& final(k).current == old(k).current
            &&& final(k).clock_us == old(k).clock_us
            &&& final(k).halted == old(k).halted
            &&& final(k).halt_code == old(k).halt_code
        },
{
    if id >= MAX_SYSCALL_NUM {
        return -1;
    }
    let pid = k.current.unwrap();
    proof {
        assert(task_in_tree(old(k).tasks@, old(k).clock_us, pid as int));
    }
    let t = &mut k.tasks[pid];
    let c = t.syscall_times[id];
    let e = &mut t.syscall_times[id];
    if *e < u32::MAX {
        *e = *e + 1;
    }
    proof {
        let pre = *old(k);
        assert(k.tasks@ == pre.tasks@.update(pid as int, k.tasks@[pid as int]));
        assert forall|i: int| 0 <= i < k.tasks@.len() implies task_in_tree(
            k.tasks@,
            k.clock_us,
            i,
        ) by {
            assert(task_in_tree(pre.tasks@, pre.clock_us, i));
            if i != pid {
                assert(k.tasks@[i] == pre.tasks@[i]);
            }
        }
        assert forall|k2: int|
            0 <= k2 < k.manager.ready@.len() implies (#[trigger] k.manager.ready@[k2])
            < k.tasks@.len() && k.tasks@[k.manager.ready@[k2] as int].status is Ready by {
            assert(pre.tasks@[k.manager.ready@[k2] as int].status is Ready);
        }
    }
    0
}

/// The current clock reading split into whole seconds and the microsecond
/// remainder: what the time syscall reports.
pub fn get_time(k: &Kernel, _tz: usize) -> (r: TimeVal)
    ensures
        r.sec == k.clock_us / 1_000_000,
        r.usec == k.clock_us % 1_000_000,
{
    TimeVal { sec: k.clock_us / 1_000_000, usec: k.clock_us % 1_000_000 }
}

/// Snapshot of the current task under its exclusive access: status, a
/// copy of the syscall-count table, and elapsed whole milliseconds since
/// the task was created.
pub fn get_current_task_info(k: &Kernel) -> (r: TaskInfo)
    requires
        k.wf(),
        k.current is Some,
    ensures
        ({
            let pid = k.current->0 as int;
            &&& r.status == k.tasks@[pid].status
            &&& r.syscall_times@ == k.tasks@[pid].syscall_times@
            &&& r.time == elapsed_ms(k.tasks@[pid].start_time_us as int, k.clock_us as int)
            &&& r.time >= 0
        }),
{
    let pid = k.current.unwrap();
    proof {
        assert(task_in_tree(k.tasks@, k.clock_us, pid as int));
    }
    let t = &k.tasks[pid];
    let mut counts: Vec<u32> = Vec::new();
    let mut i: usize = 0;
    while i < t.syscall_times.len()
        invariant
            i <= t.syscall_times@.len(),
            counts@ =~= t.syscall_times@.subrange(0, i as int),
        decreases t.syscall_times@.len() - i,
    {
        counts.push(t.syscall_times[i]);
        i = i + 1;
    }
    proof {
        assert(counts@ =~= t.syscall_times@);
    }
    let time = (k.clock_us - t.start_time_us) / 1000;
    TaskInfo { status: t.status, syscall_times: counts, time }
}


/// State change of a fatal root exit: the kernel halts, records the exit
/// code, empties the current slot, and touches nothing else; the halted
/// flag stops all further scheduling.
pub open spec fn halt_post(pre: Kernel, post: Kernel, code: i32) -> bool {
    &&& post.halted
    &&& post.halt_code == code
    &&& post.current is None
    &&& post.tasks@ == pre.tasks@
    &&& post.manager.ready@ == pre.manager.ready@
    &&& post.clock_us == pre.clock_us
}

/// State change of a non-root exit: the dying task becomes a zombie with
/// the given exit code, its address-space frames are all released, every
/// child is reparented to the root (appended to the root's children, its
/// parent pid repointed), the dying task's own children list is emptied,
/// and one scheduling round then installs the ready task with the
/// smallest pass, if any is ready.
pub open spec fn exit_post(pre: Kernel, post: Kernel, code: i32) -> bool {
    let pid = pre.current->0 as int;
    let ch = pre.tasks@[pid].children@;
    let rdy = pre.manager.ready@;
    let len = pre.tasks@.len();
    let picked = rdy.len() > 0;
    let i = pick_idx(pre.tasks@, rdy);
    let q = rdy[i] as int;
    &&& post.tasks@.len() == len
    &&& post.clock_us == pre.clock_us
    &&& post.halted == pre.halted
    &&& post.halt_code == pre.halt_code
    &&& post.tasks@[pid].status is Zombie
    &&& post.tasks@[pid].exit_code == code
    &&& post.tasks@[pid].children@.len() == 0
    &&& forall|v: int| !post.tasks@[pid].memory.is_mapped(v)
    &&& post.tasks@[pid].parent == pre.tasks@[pid].parent
    &&& post.tasks@[ROOT_PID as int].children@ == pre.tasks@[ROOT_PID as int].children@ + ch
    &&& forall|kk: int|
        0 <= kk < ch.len() ==> post.tasks@[#[trigger] ch[kk] as int].parent == Some(ROOT_PID)
    &&& forall|j: int|
        0 <= j < len && j != pid && j != ROOT_PID ==> post.tasks@[j].children == pre.tasks@[j].children
    &&& forall|j: int|
        0 <= j < len && !has_pid(ch, j) ==> post.tasks@[j].parent == pre.tasks@[j].parent
    &&& forall|j: int|
        0 <= j < len && j != pid ==> post.tasks@[j].status == (if picked && j == q {
            TaskStatus::Running
        } else {
            pre.tasks@[j].status
        })
    &&& forall|j: int|
        0 <= j < len ==> post.tasks@[j].pass == (if picked && j == q {
            advance_pass(pre.tasks@[j].pass, stride_of(pre.tasks@[j].priority))
        } else {
            pre.tasks@[j].pass
        })
    &&& forall|j: int| 0 <= j < len ==> post.tasks@[j].priority == pre.tasks@[j].priority
    &&& forall|j: int| 0 <= j < len ==> post.tasks@[j].syscall_times == pre.tasks@[j].syscall_times
    &&& forall|j: int| 0 <= j < len ==> post.tasks@[j].start_time_us == pre.tasks@[j].start_time_us
    &&& forall|j: int| 0 <= j < len ==> post.tasks@[j].heap_bottom == pre.tasks@[j].heap_bottom
    &&& forall|j: int| 0 <= j < len ==> post.tasks@[j].program_brk == pre.tasks@[j].program_brk
    &&& forall|j: int| 0 <= j < len && j != pid ==> post.tasks@[j].memory == pre.tasks@[j].memory
    &&& forall|j: int| 0 <= j < len && j != pid ==> post.tasks@[j].exit_code == pre.tasks@[j].exit_code
    &&& (!picked ==> post.current is None && post.manager.ready@ == rdy)
    &&& (picked ==> post.current == Some(rdy[i]) && post.manager.ready@ == rdy.remove(i)
        && post.tasks@[q].status is Running)
}

/// Terminates the current task. If it is the root process, this is a
/// fatal kernel condition: the exit code is recorded and the kernel
/// halts; nothing is scheduled ever again. Otherwise the task becomes a
/// zombie holding the exit code, every child is handed to the root
/// process, the task's address-space frames are released in one step
/// while exclusive access is still held, and the scheduler switches to
/// the next ready task. Exit never resumes the caller: the current slot
/// no longer holds it when this returns.
#[verifier::rlimit(80)]
pub fn exit_current_and_run_next(k: &mut Kernel, exit_code: i32)
    requires
        old(k).wf(),
        old(k).current is Some,
        !old(k).halted,
    ensures
        final(k).wf(),
        old(k).current->0 == ROOT_PID ==> halt_post(*old(k), *final(k), exit_code),
        old(k).current->0 != ROOT_PID ==> exit_post(*old(k), *final(k), exit_code),
{
    let ghost pre = *old(k);
    let pid = k.current.unwrap();
    k.current = None;
    if pid == ROOT_PID {
        k.halted = true;
        k.halt_code = exit_code;
        return;
    }
    proof {
        assert(task_in_tree(pre.tasks@, pre.clock_us, pid as int));
    }
    let ghost k0 = *k;
    let mut ch: Vec<usize> = Vec::new();
    let mut idx: usize = 0;
    while idx < k.tasks[pid].children.len()
        invariant
            *k == k0,
            pid < k0.tasks@.len(),
            idx <= k0.tasks@[pid as int].children@.len(),
            ch@ == k0.tasks@[pid as int].children@.subrange(0, idx as int),
        decreases k0.tasks@[pid as int].children@.len() - idx,
    {
        let c = k.tasks[pid].children[idx];
        ch.push(c);
        idx = idx + 1;
        proof {
            assert(ch@ =~= k0.tasks@[pid as int].children@.subrange(0, idx as int));
        }
    }
    proof {
        assert(ch@ =~= pre.tasks@[pid as int].children@);
    }
    let t = &mut k.tasks[pid];
    t.status = TaskStatus::Zombie;
    t.exit_code = exit_code;
    t.children = Vec::new();
    t.memory.clear_all();
    let ghost mid = *k;
    proof {
        assert(mid.tasks@ == pre.tasks@.update(pid as int, mid.tasks@[pid as int]));
        assert forall|kk: int| 0 <= kk < ch@.len() implies (#[trigger] ch@[kk]) < pre.tasks@.len()
            && ch@[kk] != pid && ch@[kk] != ROOT_PID && pre.tasks@[ch@[kk] as int].parent == Some(
            pid,
        ) by {
            assert(pre.tasks@[pid as int].children@[kk] == ch@[kk]);
            assert(pre.tasks@[ch@[kk] as int].parent == Some(pid));
            assert(task_in_tree(pre.tasks@, pre.clock_us, ch@[kk] as int));
            if ch@[kk] == ROOT_PID {
                assert(pre.tasks@[ROOT_PID as int].parent is None);
            }
        }
    }
    let mut idx2: usize = 0;
    while idx2 < ch.len()
        invariant
            idx2 <= ch@.len(),
            pid < mid.tasks@.len(),
            pid != ROOT_PID,
            (ROOT_PID as int) < mid.tasks@.len(),
            forall|kk: int|
                0 <= kk < ch@.len() ==> (#[trigger] ch@[kk]) < mid.tasks@.len() && ch@[kk] != pid
                    && ch@[kk] != ROOT_PID,
            forall|k1: int, k2: int| 0 <= k1 < k2 < ch@.len() ==> ch@[k1] != ch@[k2],
            k.tasks@.len() == mid.tasks@.len(),
            k.manager == mid.manager,
            k.current == mid.current,
            k.clock_us == mid.clock_us,
            k.halted == mid.halted,
            k.halt_code == mid.halt_code,
            k.tasks@[ROOT_PID as int].children@ == mid.tasks@[ROOT_PID as int].children@
                + ch@.subrange(0, idx2 as int),
            same_except_children(mid.tasks@[ROOT_PID as int], k.tasks@[ROOT_PID as int]),
            forall|jj: int|
                0 <= jj < idx2 ==> k.tasks@[#[trigger] ch@[jj] as int].parent == Some(ROOT_PID)
                    && same_except_parent(mid.tasks@[ch@[jj] as int], k.tasks@[ch@[jj] as int]),
            forall|j: int|
                0 <= j < mid.tasks@.len() && j != ROOT_PID && !has_pid(
                    ch@.subrange(0, idx2 as int),
                    j,
                ) ==> k.tasks@[j] == mid.tasks@[j],
        decreases ch@.len() - idx2,
    {
        let ghost prev = *k;
        let c = ch[idx2];
        proof {
            assert(!has_pid(ch@.subrange(0, idx2 as int), c as int)) by {
                if has_pid(ch@.subrange(0, idx2 as int), c as int) {
                    let w = choose|w: int|
                        0 <= w < idx2 && ch@.subrange(0, idx2 as int)[w] == c as int;
                    assert(ch@[w] == ch@[idx2 as int]);
                }
            }
            assert(k.tasks@[c as int] == mid.tasks@[c as int]);
        }
        let cr = &mut k.tasks[c];
        cr.parent = Some(ROOT_PID);
        let rr = &mut k.tasks[ROOT_PID];
        rr.children.push(c);
        idx2 = idx2 + 1;
        proof {
            assert(ch@.subrange(0, idx2 as int) =~= ch@.subrange(0, idx2 - 1).push(c));
            assert(k.tasks@[ROOT_PID as int].children@ =~= mid.tasks@[ROOT_PID as int].children@
                + ch@.subrange(0, idx2 as int));
            assert forall|jj: int|
                0 <= jj < idx2 implies k.tasks@[#[trigger] ch@[jj] as int].parent == Some(ROOT_PID)
                && same_except_parent(mid.tasks@[ch@[jj] as int], k.tasks@[ch@[jj] as int]) by {
                if jj < idx2 - 1 {
                    assert(ch@[jj] != c);
                    assert(k.tasks@[ch@[jj] as int] == prev.tasks@[ch@[jj] as int]);
                }
            }
            assert forall|j: int|
                0 <= j < mid.tasks@.len() && j != ROOT_PID && !has_pid(
                    ch@.subrange(0, idx2 as int),
                    j,
                ) implies k.tasks@[j] == mid.tasks@[j] by {
                assert(j != c) by {
                    if j == c {
                        assert(ch@.subrange(0, idx2 as int)[idx2 - 1] == c as int);
                    }
                }
                assert(!has_pid(ch@.subrange(0, idx2 - 1), j)) by {
                    if has_pid(ch@.subrange(0, idx2 - 1), j) {
                        let w = choose|w: int|
                            0 <= w < idx2 - 1 && (#[trigger] ch@.subrange(0, idx2 - 1)[w]) == j;
                        assert(ch@.subrange(0, idx2 as int)[w] == j);
                    }
                }
            }
        }
    }
    proof {
        assert(ch@.subrange(0, ch@.len() as int) =~= ch@);
    }
    let ghost fin = *k;
    proof {
        exit_tree_wf_proof(pre, mid, fin, pid, ch@);
        assert forall|j: int|
            0 <= j < fin.tasks@.len() && j != pid implies #[trigger] fin.tasks@[j].status
            == pre.tasks@[j].status && fin.tasks@[j].pass == pre.tasks@[j].pass
            && fin.tasks@[j].priority == pre.tasks@[j].priority && fin.tasks@[j].syscall_times
            == pre.tasks@[j].syscall_times && fin.tasks@[j].start_time_us
            == pre.tasks@[j].start_time_us && fin.tasks@[j].heap_bottom
            == pre.tasks@[j].heap_bottom && fin.tasks@[j].program_brk == pre.tasks@[j].program_brk
            && fin.tasks@[j].memory == pre.tasks@[j].memory && fin.tasks@[j].exit_code
            == pre.tasks@[j].exit_code by {
            if j == ROOT_PID {
            } else if has_pid(ch@, j) {
                let w = choose|w: int| 0 <= w < ch@.len() && ch@[w] == j;
                assert(same_except_parent(mid.tasks@[ch@[w] as int], fin.tasks@[ch@[w] as int]));
                assert(mid.tasks@[j] == pre.tasks@[j]);
            } else {
                assert(fin.tasks@[j] == mid.tasks@[j]);
                assert(mid.tasks@[j] == pre.tasks@[j]);
            }
        }
        assert forall|j: int|
            0 <= j < fin.tasks@.len() && j != pid && j != ROOT_PID implies #[trigger] fin.tasks@[j].children
            == pre.tasks@[j].children by {
            if has_pid(ch@, j) {
                let w = choose|w: int| 0 <= w < ch@.len() && ch@[w] == j;
                assert(same_except_parent(mid.tasks@[ch@[w] as int], fin.tasks@[ch@[w] as int]));
                assert(mid.tasks@[j] == pre.tasks@[j]);
            } else {
                assert(fin.tasks@[j] == mid.tasks@[j]);
                assert(mid.tasks@[j] == pre.tasks@[j]);
            }
        }
        assert forall|j: int|
            0 <= j < fin.tasks@.len() && !has_pid(ch@, j) implies #[trigger] fin.tasks@[j].parent
            == pre.tasks@[j].parent by {
            if j == ROOT_PID {
            } else if j == pid {
            } else {
                assert(fin.tasks@[j] == mid.tasks@[j]);
                assert(mid.tasks@[j] == pre.tasks@[j]);
            }
        }
        assert(fin.tasks@[pid as int].syscall_times == pre.tasks@[pid as int].syscall_times);
        assert(fin.tasks@[pid as int].start_time_us == pre.tasks@[pid as int].start_time_us);
        assert(fin.tasks@[pid as int].heap_bottom == pre.tasks@[pid as int].heap_bottom);
        assert(fin.tasks@[pid as int].program_brk == pre.tasks@[pid as int].program_brk);
        assert(fin.tasks@[pid as int].pass == pre.tasks@[pid as int].pass);
        assert(fin.tasks@[pid as int].priority == pre.tasks@[pid as int].priority);
        assert forall|k2: int|
            0 <= k2 < fin.manager.ready@.len() implies (#[trigger] fin.manager.ready@[k2])
            < fin.tasks@.len() && fin.tasks@[fin.manager.ready@[k2] as int].status is Ready by {
            let e = fin.manager.ready@[k2] as int;
            assert(pre.tasks@[e].status is Ready);
            assert(e != pid);
            assert(fin.tasks@[e].status == pre.tasks@[e].status);
        }
        lemma_pick_same_passes(pre.tasks@, fin.tasks@, fin.manager.ready@);
        if pre.manager.ready@.len() > 0 {
            lemma_first_min_idx(passes_of(pre.tasks@, pre.manager.ready@));
        }
    }
    let progress = crate::kernel::run_tasks(k);
    proof {
        let rdy = pre.manager.ready@;
        if rdy.len() > 0 {
            let i = pick_idx(pre.tasks@, rdy);
            let q = rdy[i] as int;
            assert(q != pid);
            assert(fin.tasks@[q].pass == pre.tasks@[q].pass);
            assert(fin.tasks@[q].priority == pre.tasks@[q].priority);
        }
        let ghost post = *k;
        let ghost pid2 = pre.current->0 as int;
        let ghost ch2 = pre.tasks@[pid2].children@;
        let ghost rdy2 = pre.manager.ready@;
        let ghost len2 = pre.tasks@.len();
        let ghost picked = rdy2.len() > 0;
        let ghost i2 = pick_idx(pre.tasks@, rdy2);
        let ghost q2 = if picked {
            rdy2[i2] as int
        } else {
            0int
        };
        assert(pid2 == pid as int && ch2 == ch@);
        assert(post.tasks@[pid2].status is Zombie);
        assert(post.tasks@[pid2].exit_code == exit_code);
        assert(post.tasks@[pid2].children@.len() == 0);
        assert(forall|v: int| !post.tasks@[pid2].memory.is_mapped(v));
        assert(post.tasks@[pid2].parent == pre.tasks@[pid2].parent);
        assert(post.tasks@[ROOT_PID as int].children@ == pre.tasks@[ROOT_PID as int].children@
            + ch2);
        assert(forall|kk: int|
            0 <= kk < ch2.len() ==> post.tasks@[#[trigger] ch2[kk] as int].parent == Some(
                ROOT_PID,
            ));
        assert(forall|j: int|
            0 <= j < len2 && j != pid2 && j != ROOT_PID ==> post.tasks@[j].children
                == pre.tasks@[j].children);
        assert(forall|j: int|
            0 <= j < len2 && !has_pid(ch2, j) ==> post.tasks@[j].parent == pre.tasks@[j].parent);
        assert(forall|j: int|
            0 <= j < len2 && j != pid2 ==> post.tasks@[j].status == (if picked && j == q2 {
                TaskStatus::Running
            } else {
                pre.tasks@[j].status
            }));
        assert(forall|j: int|
            0 <= j < len2 ==> post.tasks@[j].pass == (if picked && j == q2 {
                advance_pass(pre.tasks@[j].pass, stride_of(pre.tasks@[j].priority))
            } else {
                pre.tasks@[j].pass
            }));
        assert(forall|j: int| 0 <= j < len2 ==> post.tasks@[j].priority == pre.tasks@[j].priority);
        assert(forall|j: int|
            0 <= j < len2 ==> post.tasks@[j].syscall_times == pre.tasks@[j].syscall_times);
        assert(forall|j: int|
            0 <= j < len2 ==> post.tasks@[j].start_time_us == pre.tasks@[j].start_time_us);
        assert(forall|j: int|
            0 <= j < len2 ==> post.tasks@[j].heap_bottom == pre.tasks@[j].heap_bottom);
        assert(forall|j: int|
            0 <= j < len2 ==> post.tasks@[j].program_brk == pre.tasks@[j].program_brk);
        assert(forall|j: int|
            0 <= j < len2 && j != pid2 ==> post.tasks@[j].memory == pre.tasks@[j].memory);
        assert(forall|j: int|
            0 <= j < len2 && j != pid2 ==> post.tasks@[j].exit_code == pre.tasks@[j].exit_code);
        assert(!picked ==> post.current is None && post.manager.ready@ == rdy2);
        assert(picked ==> post.current == Some(rdy2[i2]) && post.manager.ready@ == rdy2.remove(i2)
            && post.tasks@[q2].status is Running);
        assert(exit_post(pre, post, exit_code));
    }
}

/// After the bookkeeping steps of a non-root exit — `pid` zombified with
/// its children list emptied and address space cleared (`mid`), then every
/// pre-exit child `ch` repointed to the root and appended to the root's
/// children (`fin`) — the process tree is still well formed.
proof fn exit_tree_wf_proof(pre: Kernel, mid: Kernel, fin: Kernel, pid: usize, ch: Seq<usize>)
    requires
        pre.wf(),
        pid < pre.tasks@.len(),
        pid != ROOT_PID,
        ch == pre.tasks@[pid as int].children@,
        mid.tasks@.len() == pre.tasks@.len(),
        mid.tasks@ == pre.tasks@.update(pid as int, mid.tasks@[pid as int]),
        mid.tasks@[pid as int].status is Zombie,
        mid.tasks@[pid as int].children@.len() == 0,
        mid.tasks@[pid as int].memory.wf(),
        mid.tasks@[pid as int].parent == pre.tasks@[pid as int].parent,
        mid.tasks@[pid as int].priority == pre.tasks@[pid as int].priority,
        mid.tasks@[pid as int].syscall_times == pre.tasks@[pid as int].syscall_times,
        mid.tasks@[pid as int].start_time_us == pre.tasks@[pid as int].start_time_us,
        mid.tasks@[pid as int].heap_bottom == pre.tasks@[pid as int].heap_bottom,
        mid.tasks@[pid as int].program_brk == pre.tasks@[pid as int].program_brk,
        mid.clock_us == pre.clock_us,
        fin.clock_us == pre.clock_us,
        fin.tasks@.len() == mid.tasks@.len(),
        fin.tasks@[ROOT_PID as int].children@ == mid.tasks@[ROOT_PID as int].children@ + ch,
        same_except_children(mid.tasks@[ROOT_PID as int], fin.tasks@[ROOT_PID as int]),
        forall|jj: int|
            0 <= jj < ch.len() ==> fin.tasks@[#[trigger] ch[jj] as int].parent == Some(ROOT_PID)
                && same_except_parent(mid.tasks@[ch[jj] as int], fin.tasks@[ch[jj] as int]),
        forall|j: int|
            0 <= j < mid.tasks@.len() && j != ROOT_PID && !has_pid(ch, j) ==> fin.tasks@[j]
                == mid.tasks@[j],
        forall|kk: int|
            0 <= kk < ch.len() ==> (#[trigger] ch[kk]) < pre.tasks@.len() && ch[kk] != pid
                && ch[kk] != ROOT_PID,
    ensures
        tree_wf(fin.tasks@, fin.clock_us),
    decreases 0int,
{
    let len = pre.tasks@.len() as int;
    let rootlen = mid.tasks@[ROOT_PID as int].children@.len() as int;
    assert(task_in_tree(pre.tasks@, pre.clock_us, pid as int));
    assert forall|kk: int| 0 <= kk < ch.len() implies pre.tasks@[#[trigger] ch[kk] as int].parent
        == Some(pid) by {
        assert(pre.tasks@[pid as int].children@[kk] == ch[kk]);
    }
    // who points where in fin
    assert forall|j: int| 0 <= j < len implies #[trigger] fin.tasks@[j].parent == (if has_pid(
        ch,
        j,
    ) {
        Some(ROOT_PID)
    } else {
        pre.tasks@[j].parent
    }) by {
        if has_pid(ch, j) {
            let w = choose|w: int| 0 <= w < ch.len() && ch[w] == j;
            assert(fin.tasks@[ch[w] as int].parent == Some(ROOT_PID));
        } else if j == ROOT_PID {
        } else if j == pid {
            assert(!has_pid(ch, j)) by {
                if has_pid(ch, j) {
                    let w = choose|w: int| 0 <= w < ch.len() && ch[w] == j;
                }
            }
            assert(fin.tasks@[j] == mid.tasks@[j]);
        } else {
            assert(fin.tasks@[j] == mid.tasks@[j]);
        }
    }
    assert forall|j: int| 0 <= j < len && j != pid && j != ROOT_PID implies #[trigger] fin.tasks@[j].children@
        == pre.tasks@[j].children@ by {
        if has_pid(ch, j) {
            let w = choose|w: int| 0 <= w < ch.len() && ch[w] == j;
            assert(same_except_parent(mid.tasks@[ch[w] as int], fin.tasks@[ch[w] as int]));
        } else {
            assert(fin.tasks@[j] == mid.tasks@[j]);
        }
    }
    assert forall|i: int| 0 <= i < len implies task_in_tree(fin.tasks@, fin.clock_us, i) by {
        assert(task_in_tree(pre.tasks@, pre.clock_us, i));
        let tf = fin.tasks@[i];
        // field-level record facts
        if i == pid {
            assert(tf == mid.tasks@[pid as int]) by {
                assert(!has_pid(ch, i)) by {
                    if has_pid(ch, i) {
                        let w = choose|w: int| 0 <= w < ch.len() && ch[w] == i;
                    }
                }
            }
        }
        // wf of the record
        assert(tf.wf());
        assert(tf.start_time_us <= fin.clock_us);
        // parent direction
        assert(tf.parent is None <==> i == ROOT_PID) by {
            if has_pid(ch, i) {
                let w = choose|w: int| 0 <= w < ch.len() && ch[w] == i;
                assert(ch[w] != ROOT_PID);
            }
        }
        if tf.parent is Some {
            let p = tf.parent->0;
            if has_pid(ch, i) {
                assert(p == ROOT_PID);
                let w = choose|w: int| 0 <= w < ch.len() && ch[w] == i;
                assert(fin.tasks@[ROOT_PID as int].children@[rootlen + w] == ch[w]);
                assert(fin.tasks@[p as int].children@.contains(i as usize));
            } else {
                assert(p == pre.tasks@[i].parent->0);
                assert(pre.tasks@[p as int].children@.contains(i as usize));
                let w2 = choose|w2: int|
                    0 <= w2 < pre.tasks@[p as int].children@.len() && pre.tasks@[p as int].children@[w2]
                        == i as usize;
                if p == ROOT_PID {
                    assert(fin.tasks@[ROOT_PID as int].children@[w2] == i as usize);
                    assert(fin.tasks@[p as int].children@.contains(i as usize));
                } else {
                    assert(p != pid) by {
                        if p == pid {
                            assert(ch[w2] == i as usize);
                            assert(vstd::std_specs::vec::spec_vec_len(&pre.tasks)
                                == pre.tasks@.len());
                            assert(0 <= i <= usize::MAX);
                            assert(ch[w2] as int == i);
                            lemma_has_pid(ch, w2);
                        }
                    }
                    assert(fin.tasks@[p as int].children@ == pre.tasks@[p as int].children@);
                    assert(fin.tasks@[p as int].children@.contains(i as usize));
                }
            }
        }
        // children direction
        if i == pid {
            assert(tf.children@.len() == 0);
        } else if i == ROOT_PID {
            assert(tf.children@ == pre.tasks@[ROOT_PID as int].children@ + ch);
            assert forall|kk: int| 0 <= kk < tf.children@.len() implies (#[trigger] tf.children@[kk])
                < len && fin.tasks@[tf.children@[kk] as int].parent == Some(i as usize) by {
                if kk < rootlen {
                    assert(tf.children@[kk] == pre.tasks@[ROOT_PID as int].children@[kk]);
                    let c2 = tf.children@[kk];
                    assert(pre.tasks@[c2 as int].parent == Some(ROOT_PID));
                    assert(!has_pid(ch, c2 as int)) by {
                        if has_pid(ch, c2 as int) {
                            let w = choose|w: int| 0 <= w < ch.len() && ch[w] == c2 as int;
                            assert(pre.tasks@[c2 as int].parent == Some(pid));
                        }
                    }
                } else {
                    assert(tf.children@[kk] == ch[kk - rootlen]);
                    assert(fin.tasks@[ch[kk - rootlen] as int].parent == Some(ROOT_PID));
                }
            }
            assert forall|k1: int, k2: int|
                0 <= k1 < k2 < tf.children@.len() implies tf.children@[k1] != tf.children@[k2] by {
                if k1 < rootlen && k2 >= rootlen {
                    let c1 = tf.children@[k1];
                    let c2 = tf.children@[k2];
                    assert(c2 == ch[k2 - rootlen]);
                    assert(pre.tasks@[c1 as int].parent == Some(ROOT_PID));
                    assert(pre.tasks@[c2 as int].parent == Some(pid));
                } else if k1 >= rootlen {
                    assert(tf.children@[k1] == ch[k1 - rootlen]);
                    assert(tf.children@[k2] == ch[k2 - rootlen]);
                }
            }
        } else {
            assert(tf.children@ == pre.tasks@[i].children@);
            assert forall|kk: int| 0 <= kk < tf.children@.len() implies (#[trigger] tf.children@[kk])
                < len && fin.tasks@[tf.children@[kk] as int].parent == Some(i as usize) by {
                let c2 = tf.children@[kk];
                assert(pre.tasks@[c2 as int].parent == Some(i as usize));
                assert(!has_pid(ch, c2 as int)) by {
                    if has_pid(ch, c2 as int) {
                        let w = choose|w: int| 0 <= w < ch.len() && ch[w] == c2 as int;
                        assert(ch[w] as int == c2 as int);
                        assert(pre.tasks@[c2 as int].parent == Some(pid));
                        assert(vstd::std_specs::vec::spec_vec_len(&pre.tasks)
                            == pre.tasks@.len());
                        assert(0 <= i <= usize::MAX);
                        assert(pid == i as usize);
                        assert(pid as int == i);
                    }
                }
            }
        }
    }
}
} // verus!
