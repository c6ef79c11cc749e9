//! The address-space mapping validator: mmap/munmap request validation on
//! the calling task's own address space, the program-break adjustment, and
//! the translation check behind the copy-to-user primitive. All operations
//! are effect-atomic: on any validation failure the kernel state is
//! exactly what it was before the call.
use vstd::prelude::*;

verus! {

use crate::kernel::task_in_tree;
use crate::kernel::Kernel;
use crate::mem::AddressSpace;
use crate::PAGE_SIZE;

/// The virtual page number of the page holding address `a`.
pub open spec fn first_vpn(a: int) -> int {
    a / (PAGE_SIZE as int)
}

/// How many pages the byte range `[start, start + len)` touches.
pub open spec fn span_count(start: int, len: int) -> int {
    if len == 0 {
        0
    } else {
        (start + len - 1) / (PAGE_SIZE as int) - start / (PAGE_SIZE as int) + 1
    }
}

/// Valid permission bits: at least one of the low three bits (readable,
/// writable, executable) set, and no bit above position 2.
pub open spec fn port_valid(port: usize) -> bool {
    1 <= port <= 7
}

/// When an mmap request is accepted: page-aligned start, valid permission
/// bits, a range that does not wrap the address space, and no page of the
/// range already mapped.
pub open spec fn mmap_ok(space: AddressSpace, start: int, len: int, port: usize) -> bool {
    &&& start % (PAGE_SIZE as int) == 0
    &&& port_valid(port)
    &&& start + len <= usize::MAX
    &&& space.range_is_free(first_vpn(start), span_count(start, len))
}

/// When a munmap request is accepted: page-aligned start, a range that
/// does not wrap, and every page of the range currently mapped — a
/// request covering any unmapped page is rejected in full.
pub open spec fn munmap_ok(space: AddressSpace, start: int, len: int) -> bool {
    &&& start % (PAGE_SIZE as int) == 0
    &&& start + len <= usize::MAX
    &&& space.range_is_mapped(first_vpn(start), span_count(start, len))
}

/// When a copy to user space can be performed in full: the destination
/// range does not wrap and every page it touches is mapped in the given
/// address space. An empty copy always succeeds.
pub open spec fn translate_ok(space: AddressSpace, dst: int, len: int) -> bool {
    len == 0 || (dst + len <= usize::MAX && space.range_is_mapped(
        first_vpn(dst),
        span_count(dst, len),
    ))
}

/// Exec computation of the page span of `[start, start + len)`, with the
/// bound needed by the page-level walkers.
fn span(start: usize, len: usize) -> (r: (usize, usize))
    requires
        start + len <= usize::MAX,
    ensures
        r.0 == first_vpn(start as int),
        r.1 == span_count(start as int, len as int),
        r.0 + r.1 <= usize::MAX,
{
    if len == 0 {
        proof {
            vstd::arithmetic::div_mod::lemma_div_nonincreasing(start as int, PAGE_SIZE as int);
            vstd::arithmetic::div_mod::lemma_div_pos_is_pos(start as int, PAGE_SIZE as int);
        }
        (start / PAGE_SIZE, 0)
    } else {
        let last = (start + len - 1) / PAGE_SIZE;
        let svpn = start / PAGE_SIZE;
        proof {
            vstd::arithmetic::div_mod::lemma_div_nonincreasing(
                (start + len - 1) as int,
                PAGE_SIZE as int,
            );
            vstd::arithmetic::div_mod::lemma_div_pos_is_pos((start + len - 1) as int, PAGE_SIZE as int);
            vstd::arithmetic::div_mod::lemma_div_is_ordered(
                start as int,
                (start + len - 1) as int,
                PAGE_SIZE as int,
            );
        }
        (svpn, last - svpn + 1)
    }
}

/// Whether every page of `[start, start + len)` is unmapped — free for a
/// new mapping — in the current task's address space. A range that wraps
/// the address space is never available.
pub fn memory_is_available(k: &Kernel, start: usize, len: usize) -> (r: bool)
    requires
        k.wf(),
        k.current is Some,
    ensures
        ({
            let space = k.tasks@[k.current->0 as int].memory;
            r == (len <= usize::MAX - start && space.range_is_free(
                first_vpn(start as int),
                span_count(start as int, len as int),
            ))
        }),
{
    let pid = k.current.unwrap();
    if len > usize::MAX - start {
        return false;
    }
    let (svpn, n) = span(start, len);
    k.tasks[pid].memory.all_free(svpn, n)
}

/// Full effect of [`mmap`]: the result and the state change, for every
/// input, success and failure alike.
pub open spec fn mmap_post(pre: Kernel, post: Kernel, start: usize, len: usize, port: usize, r: isize) -> bool {
    let pid = pre.current->0 as int;
        let space = pre.tasks@[pid].memory;
        let svpn = first_vpn(start as int);
        let n = span_count(start as int, len as int);
        if mmap_ok(space, start as int, len as int, port) {
            &&& r == 0
            &&& post.tasks@[pid].memory.wf()
            &&& forall|v: int|
                svpn <= v < svpn + n ==> #[trigger] post.tasks@[pid].memory.maps_to(
                    v,
                    port as u8,
                )
            &&& forall|v: int|
                !(svpn <= v < svpn + n) ==> (post.tasks@[pid].memory.is_mapped(v)
                    == space.is_mapped(v))
            &&& forall|v: int, p: u8|
                !(svpn <= v < svpn + n) ==> (post.tasks@[pid].memory.maps_to(v, p)
                    == space.maps_to(v, p))
            &&& post.tasks@[pid].status == pre.tasks@[pid].status
            &&& post.tasks@[pid].pass == pre.tasks@[pid].pass
            &&& post.tasks@[pid].parent == pre.tasks@[pid].parent
            &&& post.tasks@[pid].children == pre.tasks@[pid].children
            &&& post.tasks@[pid].syscall_times == pre.tasks@[pid].syscall_times
            &&& post.tasks@[pid].priority == pre.tasks@[pid].priority
            &&& post.tasks@[pid].exit_code == pre.tasks@[pid].exit_code
            &&& post.tasks@[pid].start_time_us == pre.tasks@[pid].start_time_us
            &&& post.tasks@[pid].heap_bottom == pre.tasks@[pid].heap_bottom
            &&& post.tasks@[pid].program_brk == pre.tasks@[pid].program_brk
            &&& forall|j: int|
                0 <= j < pre.tasks@.len() && j != pid ==> post.tasks@[j] == pre.tasks@[j]
            &&& post.manager.ready@ == pre.manager.ready@
            &&& post.current == pre.current
            &&& post.clock_us == pre.clock_us
            &&& post.halted == pre.halted
            &&& post.halt_code == pre.halt_code
        } else {
            r == -1 && post == pre
        }
}

/// Full effect of [`munmap`]: the result and the state change, for every
/// input, success and failure alike.
pub open spec fn munmap_post(pre: Kernel, post: Kernel, start: usize, len: usize, r: isize) -> bool {
    let pid = pre.current->0 as int;
        let space = pre.tasks@[pid].memory;
        let svpn = first_vpn(start as int);
        let n = span_count(start as int, len as int);
        if munmap_ok(space, start as int, len as int) {
            &&& r == 0
            &&& post.tasks@[pid].memory.wf()
            &&& forall|v: int|
                svpn <= v < svpn + n ==> !post.tasks@[pid].memory.is_mapped(v)
            &&& forall|v: int|
                !(svpn <= v < svpn + n) ==> (post.tasks@[pid].memory.is_mapped(v)
                    == space.is_mapped(v))
            &&& forall|v: int, p: u8|
                !(svpn <= v < svpn + n) ==> (post.tasks@[pid].memory.maps_to(v, p)
                    == space.maps_to(v, p))
            &&& post.tasks@[pid].status == pre.tasks@[pid].status
            &&& post.tasks@[pid].pass == pre.tasks@[pid].pass
            &&& post.tasks@[pid].parent == pre.tasks@[pid].parent
            &&& post.tasks@[pid].children == pre.tasks@[pid].children
            &&& post.tasks@[pid].syscall_times == pre.tasks@[pid].syscall_times
            &&& post.tasks@[pid].priority == pre.tasks@[pid].priority
            &&& post.tasks@[pid].exit_code == pre.tasks@[pid].exit_code
            &&& post.tasks@[pid].start_time_us == pre.tasks@[pid].start_time_us
            &&& post.tasks@[pid].heap_bottom == pre.tasks@[pid].heap_bottom
            &&& post.tasks@[pid].program_brk == pre.tasks@[pid].program_brk
            &&& forall|j: int|
                0 <= j < pre.tasks@.len() && j != pid ==> post.tasks@[j] == pre.tasks@[j]
            &&& post.manager.ready@ == pre.manager.ready@
            &&& post.current == pre.current
            &&& post.clock_us == pre.clock_us
            &&& post.halted == pre.halted
            &&& post.halt_code == pre.halt_code
        } else {
            r == -1 && post == pre
        }
}

/// Full effect of [`change_program_brk`]: the result and the state change,
/// for every input, success and failure alike.
pub open spec fn brk_post(pre: Kernel, post: Kernel, size: i32, r: Option<usize>) -> bool {
    let pid = pre.current->0 as int;
        let t = pre.tasks@[pid];
        let target = t.program_brk + size;
        if t.heap_bottom <= target <= usize::MAX {
            &&& r == Some(t.program_brk)
            &&& post.tasks@[pid].program_brk == target
            &&& post.tasks@[pid].heap_bottom == t.heap_bottom
            &&& post.tasks@[pid].status == t.status
            &&& post.tasks@[pid].pass == t.pass
            &&& post.tasks@[pid].parent == t.parent
            &&& post.tasks@[pid].children == t.children
            &&& post.tasks@[pid].syscall_times == t.syscall_times
            &&& post.tasks@[pid].priority == t.priority
            &&& post.tasks@[pid].exit_code == t.exit_code
            &&& post.tasks@[pid].start_time_us == t.start_time_us
            &&& post.tasks@[pid].memory == t.memory
            &&& forall|j: int|
                0 <= j < pre.tasks@.len() && j != pid ==> post.tasks@[j] == pre.tasks@[j]
            &&& post.manager.ready@ == pre.manager.ready@
            &&& post.current == pre.current
            &&& post.clock_us == pre.clock_us
            &&& post.halted == pre.halted
            &&& post.halt_code == pre.halt_code
        } else {
            r is None && post == pre
        }
}

/// Validates and applies an mmap request on the current task's address
/// space: fails with `-1` — leaving the whole kernel state unchanged — if
/// `start` is not page-aligned, if the permission bits are zero or hold a
/// bit above position 2, if the range wraps, or if any page of the range
/// is already mapped. Otherwise maps every page of the range with the
/// given permission bits and returns `0`.
pub fn mmap(k: &mut Kernel, start: usize, len: usize, port: usize) -> (r: isize)
    requires
        old(k).wf(),
        old(k).current is Some,
    ensures
        final(k).wf(),
        mmap_post(*old(k), *final(k), start, len, port, r),
{
    let pid = k.current.unwrap();
    if start % PAGE_SIZE != 0 {
        return -1;
    }
    if port == 0 || port > 7 {
        return -1;
    }
    if len > usize::MAX - start {
        return -1;
    }
    let (svpn, n) = span(start, len);
    if !k.tasks[pid].memory.all_free(svpn, n) {
        return -1;
    }
    proof {
        assert(task_in_tree(old(k).tasks@, old(k).clock_us, pid as int));
    }
    let perm: u8 = port as u8;
    k.tasks[pid].memory.insert_pages(svpn, n, perm);
    proof {
        assert forall|v: int|
            svpn <= v < svpn + n implies #[trigger] k.tasks@[pid as int].memory.maps_to(
            v,
            port as u8,
        ) by {
            assert(k.tasks@[pid as int].memory.maps_to(v, perm) && k.tasks@[pid as int].memory.is_mapped(
                v,
            ));
        }
        let pre = *old(k);
        assert(k.tasks@ == pre.tasks@.update(pid as int, k.tasks@[pid as int]));
        assert forall|i: int| 0 <= i < k.tasks@.len() implies task_in_tree(
            k.tasks@,
            k.clock_us,
            i,
        ) by {
            assert(task_in_tree(pre.tasks@, pre.clock_us, i));
            if i != pid {
                assert(k.tasks@[i] == pre.tasks@[i]);
            }
        }
        assert forall|k2: int|
            0 <= k2 < k.manager.ready@.len() implies (#[trigger] k.manager.ready@[k2])
            < k.tasks@.len() && k.tasks@[k.manager.ready@[k2] as int].status is Ready by {
            assert(pre.tasks@[k.manager.ready@[k2] as int].status is Ready);
        }
    }
    0
}

/// Validates and applies a munmap request on the current task's address
/// space: fails with `-1` — leaving the whole kernel state unchanged — if
/// `start` is not page-aligned, if the range wraps, or if any page of the
/// range is not currently mapped (no partial unmap). Otherwise removes
/// the mapping for exactly that range, releasing its frames, and
/// returns `0`.
pub fn munmap(k: &mut Kernel, start: usize, len: usize) -> (r: isize)
    requires
        old(k).wf(),
        old(k).current is Some,
    ensures
        final(k).wf(),
        munmap_post(*old(k), *final(k), start, len, r),
{
    let pid = k.current.unwrap();
    if start % PAGE_SIZE != 0 {
        return -1;
    }
    if len > usize::MAX - start {
        return -1;
    }
    let (svpn, n) = span(start, len);
    if !k.tasks[pid].memory.all_mapped(svpn, n) {
        return -1;
    }
    proof {
        assert(task_in_tree(old(k).tasks@, old(k).clock_us, pid as int));
    }
    k.tasks[pid].memory.remove_pages(svpn, n);
    proof {
        let pre = *old(k);
        assert(k.tasks@ == pre.tasks@.update(pid as int, k.tasks@[pid as int]));
        assert forall|i: int| 0 <= i < k.tasks@.len() implies task_in_tree(
            k.tasks@,
            k.clock_us,
            i,
        ) by {
            assert(task_in_tree(pre.tasks@, pre.clock_us, i));
            if i != pid {
                assert(k.tasks@[i] == pre.tasks@[i]);
            }
        }
        assert forall|k2: int|
            0 <= k2 < k.manager.ready@.len() implies (#[trigger] k.manager.ready@[k2])
            < k.tasks@.len() && k.tasks@[k.manager.ready@[k2] as int].status is Ready by {
            assert(pre.tasks@[k.manager.ready@[k2] as int].status is Ready);
        }
    }
    0
}

/// The bounds-checked copy-to-user primitive's validation half: resolves
/// the destination range through the current task's address-space
/// translation and reports how many bytes a byte-for-byte copy would
/// write — the full length, even when the destination spans several
/// discontiguous pages — or `-1` when any touched page is unmapped, when
/// the range wraps, or when the length cannot be reported in the result
/// type. Never a silent partial copy.
pub fn copy_to_user(k: &Kernel, dst: usize, len: usize) -> (r: isize)
    requires
        k.wf(),
        k.current is Some,
    ensures
        ({
            let space = k.tasks@[k.current->0 as int].memory;
            r == (if translate_ok(space, dst as int, len as int) && len <= isize::MAX as usize {
                len as isize
            } else {
                -1isize
            })
        }),
{
    let pid = k.current.unwrap();
    if len == 0 {
        return 0;
    }
    if len > usize::MAX - dst {
        return -1;
    }
    if len > isize::MAX as usize {
        return -1;
    }
    let (svpn, n) = span(dst, len);
    if k.tasks[pid].memory.all_mapped(svpn, n) {
        len as isize
    } else {
        -1
    }
}

/// Adjusts the current task's program break by `size` bytes via the
/// address-space collaborator's bookkeeping: returns the old break on
/// success, or `None` — changing nothing — when the new break would fall
/// below the heap bottom or beyond the address space.
pub fn change_program_brk(k: &mut Kernel, size: i32) -> (r: Option<usize>)
    requires
        old(k).wf(),
        old(k).current is Some,
    ensures
        final(k).wf(),
        brk_post(*old(k), *final(k), size, r),
{
    let pid = k.current.unwrap();
    proof {
        assert(task_in_tree(old(k).tasks@, old(k).clock_us, pid as int));
    }
    let old_brk = k.tasks[pid].program_brk;
    let heap_bottom = k.tasks[pid].heap_bottom;
    let new_brk: usize;
    if size >= 0 {
        let d = size as usize;
        if d > usize::MAX - old_brk {
            return None;
        }
        new_brk = old_brk + d;
    } else {
        let d: usize = if size == i32::MIN {
            0x8000_0000usize
        } else {
            (-size) as usize
        };
        if d > old_brk || old_brk - d < heap_bottom {
            return None;
        }
        new_brk = old_brk - d;
    }
    let t = &mut k.tasks[pid];
    t.program_brk = new_brk;
    proof {
        let pre = *old(k);
        assert(k.tasks@ == pre.tasks@.update(pid as int, k.tasks@[pid as int]));
        assert forall|i: int| 0 <= i < k.tasks@.len() implies task_in_tree(
            k.tasks@,
            k.clock_us,
            i,
        ) by {
            assert(task_in_tree(pre.tasks@, pre.clock_us, i));
            if i != pid {
                assert(k.tasks@[i] == pre.tasks@[i]);
            }
        }
        assert forall|k2: int|
            0 <= k2 < k.manager.ready@.len() implies (#[trigger] k.manager.ready@[k2])
            < k.tasks@.len() && k.tasks@[k.manager.ready@[k2] as int].status is Ready by {
            assert(pre.tasks@[k.manager.ready@[k2] as int].status is Ready);
        }
    }
    Some(old_brk)
}

} // verus!
