//! Process- and memory-management core of a teaching operating-system kernel:
//! task lifecycle, a stride scheduler, the process tree with reparenting on
//! exit, and validation of user-requested virtual-memory mapping requests.
//!
//! All global kernel state lives in an explicitly constructed [`kernel::Kernel`]
//! value that callers thread through every operation; the bootstrap ordering
//! (root process first) is a stated precondition rather than an accident of
//! initialization order.
use vstd::prelude::*;

pub mod kernel;
pub mod laws;
pub mod lifecycle;
pub mod manager;
pub mod syscall;
pub mod mem;
pub mod tcb;
pub mod vm;

verus! {

/// Number of low bits of an address that select the byte within a page.
pub const PAGE_SIZE_BITS: usize = 12;

/// Size in bytes of one page of virtual memory.
pub const PAGE_SIZE: usize = 4096;

/// Number of entries in each task's fixed syscall-count table.
pub const MAX_SYSCALL_NUM: usize = 500;

/// The stride constant: a task of priority `p` advances its pass by
/// `BIG_STRIDE / p` each time it is fetched to run.
pub const BIG_STRIDE: u64 = 65536;

/// Process id of the root process; every orphaned task is reparented to it,
/// and its exit is a fatal kernel condition.
pub const ROOT_PID: usize = 0;

} // verus!
