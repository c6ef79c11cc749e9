//! The ready queue: holds the pids of all `Ready` tasks and hands out the
//! one with the smallest stride-scheduling pass.
use vstd::prelude::*;

verus! {

use crate::tcb::advance_pass;
use crate::tcb::same_except_sched;
use crate::tcb::stride_of;
use crate::tcb::TaskControlBlock;
use crate::BIG_STRIDE;

/// The passes of the queued tasks, in queue order.
pub open spec fn passes_of(tasks: Seq<TaskControlBlock>, ready: Seq<usize>) -> Seq<u64> {
    ready.map(|j: int, pid: usize| tasks[pid as int].pass)
}

/// The index of the entry the scheduler picks from a nonempty sequence of
/// passes: the first entry holding the minimum. The tie-break — earliest
/// queue position wins among equal passes — is deterministic for any fixed
/// sequence of insertions.
pub open spec fn first_min_idx(s: Seq<u64>) -> int
    decreases s.len(),
{
    if s.len() <= 1 {
        0
    } else {
        let r = first_min_idx(s.subrange(1, s.len() as int));
        if s[0] <= s[r + 1] {
            0
        } else {
            r + 1
        }
    }
}

/// What `first_min_idx` returns: an index in bounds, holding a pass no
/// larger than any other, with every earlier entry strictly larger.
pub proof fn lemma_first_min_idx(s: Seq<u64>)
    requires
        s.len() > 0,
    ensures
        0 <= first_min_idx(s) < s.len(),
        forall|j: int| 0 <= j < s.len() ==> s[first_min_idx(s)] <= #[trigger] s[j],
        forall|j: int| 0 <= j < first_min_idx(s) ==> #[trigger] s[j] > s[first_min_idx(s)],
    decreases s.len(),
{
    if s.len() > 1 {
        let rest = s.subrange(1, s.len() as int);
        lemma_first_min_idx(rest);
        let r = first_min_idx(rest);
        assert forall|j: int| 0 <= j < s.len() implies s[first_min_idx(s)] <= #[trigger] s[j] by {
            if j >= 1 {
                assert(rest[r] <= rest[j - 1]);
            }
        }
        assert forall|j: int| 0 <= j < first_min_idx(s) implies #[trigger] s[j] > s[first_min_idx(
            s,
        )] by {
            if j >= 1 {
                assert(rest[j - 1] > rest[r]);
            }
        }
    }
}

/// The scheduler's choice reads only the passes of the queued tasks: two
/// task tables that agree on those passes yield the same pick.
pub proof fn lemma_pick_same_passes(
    t1: Seq<TaskControlBlock>,
    t2: Seq<TaskControlBlock>,
    ready: Seq<usize>,
)
    requires
        forall|j: int|
            0 <= j < ready.len() ==> t1[#[trigger] ready[j] as int].pass == t2[ready[j] as int].pass,
    ensures
        passes_of(t1, ready) == passes_of(t2, ready),
        pick_idx(t1, ready) == pick_idx(t2, ready),
{
    assert(passes_of(t1, ready) =~= passes_of(t2, ready));
}

/// The index in `ready` of the task the scheduler picks next: the first
/// queue entry whose pass is minimal.
pub open spec fn pick_idx(tasks: Seq<TaskControlBlock>, ready: Seq<usize>) -> int {
    first_min_idx(passes_of(tasks, ready))
}

/// A global priority structure over the `Ready` tasks, ordered by
/// ascending pass.
pub struct TaskManager {
    /// Pids of the queued tasks, in insertion order.
    pub ready: Vec<usize>,
}

impl TaskManager {
    /// Creates an empty ready queue.
    pub fn new() -> (r: TaskManager)
        ensures
            r.ready@.len() == 0,
    {
        TaskManager { ready: Vec::new() }
    }

    /// Adds a task to the ready queue. Never fails.
    pub fn add(&mut self, pid: usize)
        ensures
            final(self).ready@ == old(self).ready@.push(pid),
    {
        self.ready.push(pid);
    }

    /// Removes and returns the pid of the queued task with the smallest
    /// pass (ties: the one queued first), after advancing that task's pass
    /// by its stride so that its next turn is correctly delayed. Returns
    /// `None` exactly when no task is ready.
    pub fn fetch(&mut self, tasks: &mut Vec<TaskControlBlock>) -> (r: Option<usize>)
        requires
            forall|k: int|
                0 <= k < old(self).ready@.len() ==> (#[trigger] old(self).ready@[k]) < old(
                    tasks,
                )@.len(),
            forall|k: int|
                0 <= k < old(self).ready@.len() ==> 2 <= old(tasks)@[#[trigger] old(
                    self,
                ).ready@[k] as int].priority <= BIG_STRIDE,
        ensures
            old(self).ready@.len() == 0 ==> r is None && *final(self) == *old(self)
                && *final(tasks) == *old(tasks),
            old(self).ready@.len() > 0 ==> {
                let i = pick_idx(old(tasks)@, old(self).ready@);
                let pid = old(self).ready@[i] as int;
                &&& r == Some(old(self).ready@[i])
                &&& final(self).ready@ == old(self).ready@.remove(i)
                &&& final(tasks)@.len() == old(tasks)@.len()
                &&& final(tasks)@[pid].pass == advance_pass(
                    old(tasks)@[pid].pass,
                    stride_of(old(tasks)@[pid].priority),
                )
                &&& final(tasks)@[pid].status == old(tasks)@[pid].status
                &&& same_except_sched(old(tasks)@[pid], final(tasks)@[pid])
                &&& forall|j: int|
                    0 <= j < old(tasks)@.len() && j != pid ==> final(tasks)@[j] == old(tasks)@[j]
            },
    {
        if self.ready.len() == 0 {
            return None;
        }
        let ghost passes = passes_of(tasks@, self.ready@);
        let mut best: usize = 0;
        let mut k: usize = 1;
        while k < self.ready.len()
            invariant
                self.ready@.len() > 0,
                0 <= best < k <= self.ready@.len(),
                forall|k2: int|
                    0 <= k2 < self.ready@.len() ==> (#[trigger] self.ready@[k2]) < tasks@.len(),
                passes == passes_of(tasks@, self.ready@),
                forall|j: int| 0 <= j < k ==> passes[best as int] <= #[trigger] passes[j],
                forall|j: int| 0 <= j < best ==> #[trigger] passes[j] > passes[best as int],
            decreases self.ready@.len() - k,
        {
            proof {
                assert(passes[k as int] == tasks@[self.ready@[k as int] as int].pass);
                assert(passes[best as int] == tasks@[self.ready@[best as int] as int].pass);
            }
            if tasks[self.ready[k]].pass < tasks[self.ready[best]].pass {
                best = k;
            }
            k = k + 1;
        }
        proof {
            lemma_first_min_idx(passes);
            let f = first_min_idx(passes);
            if f < best {
                assert(passes[f] > passes[best as int]);
            }
            if best < f {
                assert(passes[best as int] > passes[f]);
            }
            assert(best as int == pick_idx(tasks@, self.ready@));
        }
        let pid = self.ready.remove(best);
        let stride = BIG_STRIDE / tasks[pid].priority;
        let t = &mut tasks[pid];
        if t.pass <= u64::MAX - stride {
            t.pass = t.pass + stride;
        } else {
            t.pass = u64::MAX;
        }
        Some(pid)
    }
}

} // verus!
