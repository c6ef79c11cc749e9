//! Task control block: the per-process record, its execution status and the
//! stride-scheduling metadata.
use vstd::prelude::*;

verus! {

use crate::mem::AddressSpace;
use crate::BIG_STRIDE;
use crate::MAX_SYSCALL_NUM;

/// Execution state of a task. The only transitions are
/// `Ready -> Running`, `Running -> Ready` and `Running -> Zombie`;
/// `Zombie` is terminal.
#[derive(Clone, Copy, Debug, PartialEq, Eq, Structural)]
pub enum TaskStatus {
    /// In the ready queue, waiting to be fetched.
    Ready,
    /// Installed in the processor's current slot.
    Running,
    /// Exited; retained only until its exit code is collected.
    Zombie,
}

/// The stride increment of a task with the given priority weight.
/// Priority at least 2 and at most `BIG_STRIDE` keeps it nonzero and
/// at most `BIG_STRIDE / 2`.
pub open spec fn stride_of(priority: u64) -> u64 {
    (BIG_STRIDE / priority) as u64
}

/// A pass value after one fetch: advanced by the stride, saturating at
/// `u64::MAX` so the scheduler arithmetic can never wrap.
pub open spec fn advance_pass(pass: u64, stride: u64) -> u64 {
    if pass + stride <= u64::MAX {
        (pass + stride) as u64
    } else {
        u64::MAX
    }
}

/// One per process: identity is the task's index in the kernel's task
/// table (its pid). The process tree is kept with owning links downward
/// only: `children` lists the pids of the children, while `parent` is a
/// plain pid resolved through the table, never an owning pointer, so
/// reclamation stays cycle-free.
pub struct TaskControlBlock {
    /// Where the task stands in its life cycle.
    pub status: TaskStatus,
    /// Priority weight; at least 2.
    pub priority: u64,
    /// Accumulated stride-scheduling pass; the ready task with the
    /// smallest pass runs next.
    pub pass: u64,
    /// Exit code; meaningful only once the task is a zombie.
    pub exit_code: i32,
    /// Pid of the parent; `None` only for the root process.
    pub parent: Option<usize>,
    /// Pids of the children.
    pub children: Vec<usize>,
    /// Fixed-size syscall-count table, indexed by syscall id.
    pub syscall_times: Vec<u32>,
    /// Clock reading, in microseconds, when the task was created.
    pub start_time_us: usize,
    /// The task's address space; its exclusive resource.
    pub memory: AddressSpace,
    /// Bottom of the task's data segment.
    pub heap_bottom: usize,
    /// Current program break; never below `heap_bottom`.
    pub program_brk: usize,
}

impl TaskControlBlock {
    /// Per-task well-formedness, independent of the process tree.
    pub open spec fn wf(self) -> bool {
        &&& 2 <= self.priority <= BIG_STRIDE
        &&& self.syscall_times@.len() == MAX_SYSCALL_NUM
        &&& self.memory.wf()
        &&& self.heap_bottom <= self.program_brk
    }
}

/// The two tasks agree on everything except `parent`: what reparenting
/// leaves untouched.
pub open spec fn same_except_parent(a: TaskControlBlock, b: TaskControlBlock) -> bool {
    &&& a.status == b.status
    &&& a.priority == b.priority
    &&& a.pass == b.pass
    &&& a.exit_code == b.exit_code
    &&& a.children == b.children
    &&& a.syscall_times == b.syscall_times
    &&& a.start_time_us == b.start_time_us
    &&& a.memory == b.memory
    &&& a.heap_bottom == b.heap_bottom
    &&& a.program_brk == b.program_brk
}

/// The two tasks agree on everything except `children`: what adopting a
/// child leaves untouched.
pub open spec fn same_except_children(a: TaskControlBlock, b: TaskControlBlock) -> bool {
    &&& a.status == b.status
    &&& a.priority == b.priority
    &&& a.pass == b.pass
    &&& a.exit_code == b.exit_code
    &&& a.parent == b.parent
    &&& a.syscall_times == b.syscall_times
    &&& a.start_time_us == b.start_time_us
    &&& a.memory == b.memory
    &&& a.heap_bottom == b.heap_bottom
    &&& a.program_brk == b.program_brk
}

/// The two tasks agree on everything except `status` and `pass`:
/// what a trip through the scheduler leaves untouched.
pub open spec fn same_except_sched(a: TaskControlBlock, b: TaskControlBlock) -> bool {
    &&& a.priority == b.priority
    &&& a.exit_code == b.exit_code
    &&& a.parent == b.parent
    &&& a.children == b.children
    &&& a.syscall_times == b.syscall_times
    &&& a.start_time_us == b.start_time_us
    &&& a.memory == b.memory
    &&& a.heap_bottom == b.heap_bottom
    &&& a.program_brk == b.program_brk
}

} // verus!
