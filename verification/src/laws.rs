//! Scheduling and accounting laws, proved over the same spec-level model
//! (`first_min_idx`, `advance_pass`, the post predicates) that the
//! executable contracts are stated with.
use vstd::prelude::*;

verus! {

use crate::kernel::has_pid;
use crate::kernel::Kernel;
use crate::lifecycle::elapsed_ms;
use crate::lifecycle::exit_post;
use crate::manager::first_min_idx;
use crate::manager::lemma_first_min_idx;
use crate::tcb::advance_pass;
use crate::BIG_STRIDE;
use crate::ROOT_PID;

/// One scheduling round over a fixed set of always-ready tasks, by
/// position: the first task with minimal pass is selected and its pass
/// advanced by its stride. This is exactly what one `fetch` followed by a
/// requeue does, with the queue read as positions.
pub open spec fn sched_round(passes: Seq<u64>, strides: Seq<u64>) -> Seq<u64> {
    let i = first_min_idx(passes);
    passes.update(i, advance_pass(passes[i], strides[i]))
}

/// The passes after `n` scheduling rounds.
pub open spec fn sched_run(passes: Seq<u64>, strides: Seq<u64>, n: nat) -> Seq<u64>
    decreases n,
{
    if n == 0 {
        passes
    } else {
        sched_round(sched_run(passes, strides, (n - 1) as nat), strides)
    }
}

/// How many of the first `n` rounds selected the task at position `a`.
pub open spec fn sel_count(passes: Seq<u64>, strides: Seq<u64>, n: nat, a: int) -> nat
    decreases n,
{
    if n == 0 {
        0
    } else {
        sel_count(passes, strides, (n - 1) as nat, a) + (if first_min_idx(
            sched_run(passes, strides, (n - 1) as nat),
        ) == a {
            1nat
        } else {
            0nat
        })
    }
}

/// A run keeps the number of tasks.
proof fn lemma_run_shape(passes: Seq<u64>, strides: Seq<u64>, n: nat)
    requires
        passes.len() > 0,
        strides.len() == passes.len(),
    ensures
        sched_run(passes, strides, n).len() == passes.len(),
    decreases n,
{
    if n > 0 {
        lemma_run_shape(passes, strides, (n - 1) as nat);
        lemma_first_min_idx(sched_run(passes, strides, (n - 1) as nat));
    }
}

/// Starting from all passes zero, after `m` rounds every pass is at most
/// `m` stride constants — so, while `m` stays below the overflow bound,
/// the saturating pass advance is exact addition.
proof fn lemma_run_bounded(passes: Seq<u64>, strides: Seq<u64>, n: nat)
    requires
        passes.len() > 0,
        strides.len() == passes.len(),
        forall|j: int| 0 <= j < passes.len() ==> passes[j] == 0,
        forall|j: int| 0 <= j < strides.len() ==> strides[j] <= BIG_STRIDE,
        n * BIG_STRIDE <= u64::MAX,
    ensures
        sched_run(passes, strides, n).len() == passes.len(),
        forall|j: int|
            0 <= j < passes.len() ==> sched_run(passes, strides, n)[j] <= n * BIG_STRIDE,
    decreases n,
{
    lemma_run_shape(passes, strides, n);
    if n > 0 {
        let m = (n - 1) as nat;
        assert(m * BIG_STRIDE + BIG_STRIDE == n * BIG_STRIDE) by (nonlinear_arith)
            requires m + 1 == n;
        lemma_run_bounded(passes, strides, m);
        let prev = sched_run(passes, strides, m);
        let i = first_min_idx(prev);
        lemma_first_min_idx(prev);
        assert(prev[i] + strides[i] <= m * BIG_STRIDE + BIG_STRIDE);
    }
}

/// Pass accounting: starting from all passes zero, a task's pass after
/// `n` rounds is exactly its selection count times its stride, while the
/// run stays below the overflow bound.
pub proof fn lemma_pass_accounting(passes: Seq<u64>, strides: Seq<u64>, n: nat, a: int)
    requires
        passes.len() > 0,
        strides.len() == passes.len(),
        0 <= a < passes.len(),
        forall|j: int| 0 <= j < passes.len() ==> passes[j] == 0,
        forall|j: int| 0 <= j < strides.len() ==> strides[j] <= BIG_STRIDE,
        n * BIG_STRIDE <= u64::MAX,
    ensures
        sched_run(passes, strides, n)[a] == sel_count(passes, strides, n, a) * strides[a],
    decreases n,
{
    if n > 0 {
        let m = (n - 1) as nat;
        assert(m * BIG_STRIDE <= n * BIG_STRIDE) by (nonlinear_arith)
            requires m + 1 == n;
        lemma_pass_accounting(passes, strides, m, a);
        lemma_run_bounded(passes, strides, m);
        let prev = sched_run(passes, strides, m);
        let i = first_min_idx(prev);
        lemma_first_min_idx(prev);
        let c = sel_count(passes, strides, m, a);
        let cur = sched_run(passes, strides, n);
        assert(cur == sched_round(prev, strides));
        assert(sel_count(passes, strides, n, a) == c + (if i == a {
            1nat
        } else {
            0nat
        }));
        if i == a {
            assert(m * BIG_STRIDE + BIG_STRIDE == n * BIG_STRIDE) by (nonlinear_arith)
            requires m + 1 == n;
            assert(prev[a] + strides[a] <= u64::MAX);
            assert(advance_pass(prev[a], strides[a]) == prev[a] + strides[a]);
            assert(cur[a] == prev[a] + strides[a]);
            assert((c + 1) * strides[a] == c * strides[a] + strides[a]) by (nonlinear_arith);
        } else {
            assert(cur[a] == prev[a]);
        }
        assert(cur[a] == sel_count(passes, strides, n, a) * strides[a]);
    } else {
        assert(sched_run(passes, strides, n) == passes);
        assert(sel_count(passes, strides, n, a) == 0);
        assert(passes[a] == 0);
        assert(0nat * strides[a] == 0) by (nonlinear_arith);
    }
}

/// Bounded pass gap: starting from passes within one stride constant of
/// each other, no two passes ever drift more than one stride constant
/// apart — the heart of stride scheduling's no-starvation guarantee.
pub proof fn lemma_pass_gap(passes: Seq<u64>, strides: Seq<u64>, n: nat)
    requires
        passes.len() > 0,
        strides.len() == passes.len(),
        forall|a: int, b: int|
            0 <= a < passes.len() && 0 <= b < passes.len() ==> passes[a] <= passes[b]
                + BIG_STRIDE,
        forall|j: int| 0 <= j < strides.len() ==> strides[j] <= BIG_STRIDE,
    ensures
        forall|a: int, b: int|
            0 <= a < passes.len() && 0 <= b < passes.len() ==> sched_run(passes, strides, n)[a]
                <= sched_run(passes, strides, n)[b] + BIG_STRIDE,
    decreases n,
{
    lemma_run_shape(passes, strides, n);
    if n > 0 {
        let m = (n - 1) as nat;
        lemma_run_shape(passes, strides, m);
        lemma_pass_gap(passes, strides, m);
        let prev = sched_run(passes, strides, m);
        let i = first_min_idx(prev);
        lemma_first_min_idx(prev);
        let cur = sched_run(passes, strides, n);
        assert forall|a: int, b: int|
            0 <= a < passes.len() && 0 <= b < passes.len() implies cur[a] <= cur[b]
            + BIG_STRIDE by {
            assert(prev[a] <= prev[b] + BIG_STRIDE);
            assert(prev[i] <= prev[b]);
            assert(cur[i] >= prev[i]);
        }
    }
}

/// Fairness: over any run of `n` rounds from a common start, two
/// always-ready tasks' selection counts, each weighted by its own stride,
/// agree to within one stride constant. With a stride of
/// `BIG_STRIDE / p` for priority `p`, this is the priority-proportional
/// share: a task of priority `p` is selected at least (within one round's
/// worth) `1/p` as often — in fact `p` times as often — as a task whose
/// stride is the full constant.
pub proof fn lemma_stride_fairness(passes: Seq<u64>, strides: Seq<u64>, n: nat, a: int, b: int)
    requires
        passes.len() > 0,
        strides.len() == passes.len(),
        0 <= a < passes.len(),
        0 <= b < passes.len(),
        forall|j: int| 0 <= j < passes.len() ==> passes[j] == 0,
        forall|j: int| 0 <= j < strides.len() ==> strides[j] <= BIG_STRIDE,
        n * BIG_STRIDE <= u64::MAX,
    ensures
        sel_count(passes, strides, n, a) * strides[a] <= sel_count(passes, strides, n, b)
            * strides[b] + BIG_STRIDE,
{
    lemma_pass_accounting(passes, strides, n, a);
    lemma_pass_accounting(passes, strides, n, b);
    lemma_pass_gap(passes, strides, n);
}

/// Floor form of the fairness law: against any always-ready companion
/// selected `s` times with stride `strides[b]`, a task is selected at
/// least `(s * strides[b] - BIG_STRIDE) / strides[a]` times — with
/// strides of `BIG_STRIDE / q` and `BIG_STRIDE / p`, the floor of the
/// priority-proportional share, one stride constant short at worst.
pub proof fn lemma_fairness_floor(passes: Seq<u64>, strides: Seq<u64>, n: nat, a: int, b: int)
    requires
        passes.len() > 0,
        strides.len() == passes.len(),
        0 <= a < passes.len(),
        0 <= b < passes.len(),
        strides[a] >= 1,
        forall|j: int| 0 <= j < passes.len() ==> passes[j] == 0,
        forall|j: int| 0 <= j < strides.len() ==> strides[j] <= BIG_STRIDE,
        n * BIG_STRIDE <= u64::MAX,
    ensures
        sel_count(passes, strides, n, a) >= (sel_count(passes, strides, n, b) * strides[b]
            - BIG_STRIDE) / (strides[a] as int),
{
    lemma_stride_fairness(passes, strides, n, b, a);
    let x = sel_count(passes, strides, n, a) as int;
    let sa = strides[a] as int;
    let y = sel_count(passes, strides, n, b) * strides[b] - BIG_STRIDE;
    assert(y <= x * sa);
    vstd::arithmetic::div_mod::lemma_div_is_ordered(y, x * sa, sa);
    vstd::arithmetic::div_mod::lemma_div_by_multiple(x, sa);
}

/// No immediate reselection: after a round selects the task at position
/// `i` and advances its pass, if any other task is left with a strictly
/// smaller pass, the next round does not select `i` again.
pub proof fn lemma_no_back_to_back(passes: Seq<u64>, strides: Seq<u64>, j: int)
    requires
        passes.len() > 0,
        strides.len() == passes.len(),
        0 <= j < passes.len(),
        j != first_min_idx(passes),
        sched_round(passes, strides)[j] < sched_round(passes, strides)[first_min_idx(passes)],
    ensures
        first_min_idx(sched_round(passes, strides)) != first_min_idx(passes),
{
    lemma_first_min_idx(passes);
    let cur = sched_round(passes, strides);
    lemma_first_min_idx(cur);
    assert(cur[first_min_idx(cur)] <= cur[j]);
}

/// Exit reparenting: after a non-root task exits, every one of its
/// former children has the root process as its parent and stands in the
/// root's children list, and the exited task's own children list is
/// empty.
pub proof fn lemma_exit_reparents_children(pre: Kernel, post: Kernel, code: i32)
    requires
        pre.wf(),
        pre.current is Some,
        pre.current->0 != ROOT_PID,
        exit_post(pre, post, code),
    ensures
        forall|kk: int|
            0 <= kk < pre.tasks@[pre.current->0 as int].children@.len() ==> post.tasks@[(
            #[trigger] pre.tasks@[pre.current->0 as int].children@[kk]) as int].parent == Some(
                ROOT_PID,
            ),
        forall|kk: int|
            0 <= kk < pre.tasks@[pre.current->0 as int].children@.len() ==> has_pid(
                post.tasks@[ROOT_PID as int].children@,
                (#[trigger] pre.tasks@[pre.current->0 as int].children@[kk]) as int,
            ),
        post.tasks@[pre.current->0 as int].children@.len() == 0,
{
    let pid = pre.current->0 as int;
    let ch = pre.tasks@[pid].children@;
    let rootlen = pre.tasks@[ROOT_PID as int].children@.len() as int;
    assert forall|kk: int| 0 <= kk < ch.len() implies has_pid(
        post.tasks@[ROOT_PID as int].children@,
        (#[trigger] ch[kk]) as int,
    ) by {
        assert(post.tasks@[ROOT_PID as int].children@[rootlen + kk] == ch[kk]);
        crate::kernel::lemma_has_pid(post.tasks@[ROOT_PID as int].children@, rootlen + kk);
    }
}

/// Elapsed time is non-negative and non-decreasing: for a fixed start
/// time and a clock that only moves forward, the reported elapsed
/// milliseconds never decrease.
pub proof fn lemma_elapsed_monotone(start: int, c1: int, c2: int)
    requires
        0 <= start <= c1 <= c2,
    ensures
        0 <= elapsed_ms(start, c1) <= elapsed_ms(start, c2),
{
    vstd::arithmetic::div_mod::lemma_div_pos_is_pos(c1 - start, 1000);
    vstd::arithmetic::div_mod::lemma_div_is_ordered(c1 - start, c2 - start, 1000);
}

} // verus!
