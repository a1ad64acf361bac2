//! Assignment of pending tasks to free executor slots under the configured
//! distribution policy.
use vstd::prelude::*;
use crate::config::TaskDistributionPolicy;
use crate::ring::{
    ConsistentHashRing, RingNode, has_node, hash_str, hop_index, lemma_first_ge_bounds, primary_index,
    replica_node, sorted, str_hash, tolerant_choice, walk_executor,
};

verus! {

/// A task waiting for a slot.
#[derive(Debug, Clone)]
pub struct PendingTask {
    pub task_id: usize,
    /// Identity of the source files the task scans, if it scans any.
    pub scan_key: Option<String>,
}

/// Task `task` (an index into the pending tasks) goes to executor `executor`
/// (an index into the executor view).
#[derive(Debug, Clone, Copy, PartialEq, Eq, Structural)]
pub struct Assignment {
    pub task: usize,
    pub executor: usize,
}

/// Outcome of one scheduling pass.
#[derive(Debug, Clone)]
pub enum Placement {
    Assigned(Vec<Assignment>),
    /// No executor has a free slot: re-queue the tasks and retry later.
    NoCapacity,
}

/// Number of assignments to executor `e`.
pub open spec fn count_to(a: Seq<Assignment>, e: int) -> nat
    decreases a.len(),
{
    if a.len() == 0 {
        0
    } else {
        count_to(a.drop_last(), e) + if a.last().executor == e {
            1nat
        } else {
            0nat
        }
    }
}

pub open spec fn all_zero(s: Seq<usize>) -> bool {
    forall|e: int| 0 <= e < s.len() ==> #[trigger] s[e] == 0
}

pub open spec fn is_assigned(a: Seq<Assignment>, t: int) -> bool {
    exists|k: int| 0 <= k < a.len() && #[trigger] a[k].task == t
}

/// Every assignment of `a` took one slot: what is left plus what was
/// assigned is what was free before.
pub open spec fn accounts(before: Seq<usize>, after: Seq<usize>, a: Seq<Assignment>) -> bool {
    &&& after.len() == before.len()
    &&& forall|e: int| 0 <= e < before.len() ==> after[e] + #[trigger] count_to(a, e) == before[e]
    &&& forall|k: int| 0 <= k < a.len() ==> #[trigger] a[k].executor < before.len()
}

/// Each of `n` tasks is assigned at most once.
pub open spec fn distinct_tasks(a: Seq<Assignment>, n: nat) -> bool {
    &&& forall|k: int| 0 <= k < a.len() ==> #[trigger] a[k].task < n
    &&& forall|i: int, j: int| 0 <= i < j < a.len() ==> #[trigger] a[i].task != #[trigger] a[j].task
}

/// Free slots of executor `e` once the first `k` assignments of `a` are made.
pub open spec fn left_after(before: Seq<usize>, a: Seq<Assignment>, k: int, e: int) -> int {
    before[e] - count_to(a.subrange(0, k), e)
}

/// Where a round-robin turn starts: after the executor chosen last, cyclically.
pub open spec fn rr_start(a: Seq<Assignment>, k: int, m: int) -> int {
    if k == 0 {
        0
    } else if a[k - 1].executor + 1 < m {
        a[k - 1].executor + 1
    } else {
        0
    }
}

/// Round-robin: the `k`-th assignment goes to the first executor, cyclically
/// from where the turn starts, that still has a free slot.
pub open spec fn rr_choice(before: Seq<usize>, a: Seq<Assignment>, k: int) -> bool {
    let m = before.len() as int;
    let start = rr_start(a, k, m);
    exists|d: int|
        0 <= d < m && a[k].executor == #[trigger] hop_index(start, d, m) && left_after(
            before,
            a,
            k,
            a[k].executor as int,
        ) > 0 && forall|j: int| 0 <= j < d ==> left_after(before, a, k, #[trigger] hop_index(start, j, m)) == 0
}

/// Bias: the `k`-th assignment stays on the previous executor while it has a
/// free slot; otherwise it goes to the first executor with the most free slots.
#[verifier::opaque]
pub open spec fn bias_choice(before: Seq<usize>, a: Seq<Assignment>, k: int) -> bool {
    let e = a[k].executor as int;
    if k > 0 && left_after(before, a, k, a[k - 1].executor as int) > 0 {
        a[k].executor == a[k - 1].executor
    } else {
        &&& 0 <= e < before.len()
        &&& left_after(before, a, k, e) > 0
        &&& forall|j: int| 0 <= j < before.len() ==> #[trigger] left_after(before, a, k, j) <= left_after(before, a, k, e)
        &&& forall|j: int| 0 <= j < e ==> #[trigger] left_after(before, a, k, j) < left_after(before, a, k, e)
    }
}

/// A round-robin pass: tasks are taken in order, each by the round-robin rule.
pub open spec fn rr_trace(before: Seq<usize>, a: Seq<Assignment>) -> bool {
    &&& forall|k: int| 0 <= k < a.len() ==> #[trigger] a[k].task == k
    &&& forall|k: int| 0 <= k < a.len() ==> #[trigger] rr_choice(before, a, k)
}

/// A bias pass: tasks are taken in order, each by the bias rule.
pub open spec fn bias_trace(before: Seq<usize>, a: Seq<Assignment>) -> bool {
    &&& forall|k: int| 0 <= k < a.len() ==> #[trigger] a[k].task == k
    &&& forall|k: int| 0 <= k < a.len() ==> #[trigger] bias_choice(before, a, k)
}

/// Free slots of every executor once the first `k` assignments of `a` are made.
pub open spec fn slots_after(before: Seq<usize>, a: Seq<Assignment>, k: int) -> Seq<usize> {
    Seq::new(before.len(), |f: int| left_after(before, a, k, f) as usize)
}

/// Consistent hash: at its turn, a task that scans files goes to the first
/// executor with a free slot among the `tolerance + 1` replicas clockwise from
/// the hash of its scan key, if one of them has a free slot; only when none
/// has does it fall back to another executor.
pub open spec fn ch_choice(
    nodes: Seq<RingNode>,
    tolerance: usize,
    tasks: Seq<PendingTask>,
    before: Seq<usize>,
    a: Seq<Assignment>,
    k: int,
) -> bool {
    match tasks[a[k].task as int].scan_key {
        Some(key) => tolerant_choice(nodes, str_hash(key@), slots_after(before, a, k), tolerance, Some(a[k].executor))
            || tolerant_choice(nodes, str_hash(key@), slots_after(before, a, k), tolerance, None),
        None => true,
    }
}

/// A consistent-hash pass: every assignment follows the consistent-hash rule.
pub open spec fn ch_trace(
    nodes: Seq<RingNode>,
    tolerance: usize,
    tasks: Seq<PendingTask>,
    before: Seq<usize>,
    a: Seq<Assignment>,
) -> bool {
    forall|k: int| 0 <= k < a.len() ==> #[trigger] ch_choice(nodes, tolerance, tasks, before, a, k)
}

/// `nodes` is a sorted ring holding `num_replicas` replicas of each id, and
/// nothing else.
pub open spec fn ring_of(nodes: Seq<RingNode>, ids: Seq<String>, num_replicas: usize) -> bool {
    &&& sorted(nodes)
    &&& forall|k: int| 0 <= k < nodes.len() ==> #[trigger] nodes[k].executor < ids.len()
    &&& forall|e: int, rep: int|
        0 <= e < ids.len() && 0 <= rep < num_replicas ==> has_node(nodes, #[trigger] replica_node(ids, e, rep))
    &&& forall|y: RingNode|
        has_node(nodes, y) ==> exists|e: int, rep: int|
            0 <= e < ids.len() && 0 <= rep < num_replicas && y == #[trigger] replica_node(ids, e, rep)
}

/// Task `t` scans files, and no replica within reach of its key has a free slot.
spec fn blocked(nodes: Seq<RingNode>, tolerance: usize, tasks: Seq<PendingTask>, t: int, s: Seq<usize>) -> bool {
    match tasks[t].scan_key {
        Some(key) => tolerant_choice(nodes, str_hash(key@), s, tolerance, None),
        None => true,
    }
}

proof fn lemma_blocked_persists(
    nodes: Seq<RingNode>,
    tolerance: usize,
    tasks: Seq<PendingTask>,
    t: int,
    s: Seq<usize>,
    e: int,
)
    requires
        blocked(nodes, tolerance, tasks, t, s),
        forall|k: int| 0 <= k < nodes.len() ==> #[trigger] nodes[k].executor < s.len(),
        0 <= e < s.len(),
        s[e] > 0,
    ensures
        blocked(nodes, tolerance, tasks, t, s.update(e, (s[e] - 1) as usize)),
{
    match tasks[t].scan_key {
        Some(key) => {
            let h = str_hash(key@);
            let n = s.update(e, (s[e] - 1) as usize);
            if nodes.len() > 0 {
                lemma_first_ge_bounds(nodes, h, 0);
            }
            assert forall|k: int| 0 <= k <= tolerance && k < nodes.len() implies n[#[trigger] walk_executor(
                nodes,
                h,
                k,
            ) as int] == 0 by {
                let p = primary_index(nodes, h);
                let i = hop_index(p, k, nodes.len() as int);
                assert(0 <= i < nodes.len());
                let w = walk_executor(nodes, h, k) as int;
                assert(w == nodes[i].executor);
                assert(s[w] == 0);
            }
        },
        None => {},
    }
}

proof fn lemma_slots_after_push(before: Seq<usize>, sl: Seq<usize>, o: Seq<Assignment>, x: Assignment)
    requires
        accounts(before, sl, o),
    ensures
        slots_after(before, o.push(x), o.len() as int) == sl,
{
    lemma_prefix_push(o, x, o.len() as int);
    assert(o.subrange(0, o.len() as int) =~= o);
    assert(slots_after(before, o.push(x), o.len() as int) =~= sl);
}

proof fn lemma_ch_prefix(
    nodes: Seq<RingNode>,
    tolerance: usize,
    tasks: Seq<PendingTask>,
    before: Seq<usize>,
    o: Seq<Assignment>,
    x: Assignment,
    k: int,
)
    requires
        0 <= k < o.len(),
        ch_choice(nodes, tolerance, tasks, before, o, k),
    ensures
        ch_choice(nodes, tolerance, tasks, before, o.push(x), k),
{
    lemma_prefix_push(o, x, k);
    assert(o.push(x)[k] == o[k]);
    assert(slots_after(before, o.push(x), k) =~= slots_after(before, o, k));
}

/// Assignments `0..k` of a sequence that grew by one at its end are unchanged.
proof fn lemma_prefix_push(a: Seq<Assignment>, x: Assignment, k: int)
    requires
        0 <= k <= a.len(),
    ensures
        a.push(x).subrange(0, k) == a.subrange(0, k),
{
    assert(a.push(x).subrange(0, k) =~= a.subrange(0, k));
}

spec fn inv(before: Seq<usize>, slots: Seq<usize>, out: Seq<Assignment>, taken: Seq<bool>) -> bool {
    &&& accounts(before, slots, out)
    &&& distinct_tasks(out, taken.len())
    &&& forall|k: int| 0 <= k < out.len() ==> taken[#[trigger] out[k].task as int]
    &&& forall|t: int| 0 <= t < taken.len() && #[trigger] taken[t] ==> is_assigned(out, t)
}

proof fn lemma_count_push(a: Seq<Assignment>, x: Assignment, e: int)
    ensures
        count_to(a.push(x), e) == count_to(a, e) + if x.executor == e {
            1nat
        } else {
            0nat
        },
{
    assert(a.push(x).drop_last() =~= a);
}

fn place(
    slots: &mut Vec<usize>,
    out: &mut Vec<Assignment>,
    taken: &mut Vec<bool>,
    t: usize,
    e: usize,
    Ghost(before): Ghost<Seq<usize>>,
)
    requires
        inv(before, old(slots)@, old(out)@, old(taken)@),
        t < old(taken)@.len(),
        !old(taken)@[t as int],
        e < old(slots)@.len(),
        old(slots)@[e as int] > 0,
    ensures
        inv(before, final(slots)@, final(out)@, final(taken)@),
        final(slots)@ == old(slots)@.update(e as int, (old(slots)@[e as int] - 1) as usize),
        final(taken)@ == old(taken)@.update(t as int, true),
        final(out)@ == old(out)@.push(Assignment { task: t, executor: e }),
{
    let x = Assignment { task: t, executor: e };
    let ghost o = out@;
    let ghost tk = taken@;
    slots.set(e, slots[e] - 1);
    out.push(x);
    taken.set(t, true);
    proof {
        let n = out@;
        assert forall|e2: int| 0 <= e2 < before.len() implies slots@[e2] + #[trigger] count_to(n, e2)
            == before[e2] by {
            lemma_count_push(o, x, e2);
        }
        assert(n[o.len() as int] == x);
        assert forall|i: int, j: int| 0 <= i < j < n.len() implies #[trigger] n[i].task
            != #[trigger] n[j].task by {
            if j == o.len() {
                assert(taken@[o[i].task as int] == tk[o[i].task as int]);
            }
        }
        assert forall|t2: int| 0 <= t2 < taken@.len() && #[trigger] taken@[t2] implies is_assigned(n, t2) by {
            if t2 == t {
                assert(n[o.len() as int].task == t2);
            } else {
                let k = choose|k: int| 0 <= k < o.len() && #[trigger] o[k].task == t2;
                assert(n[k].task == t2);
            }
        }
    }
}

/// The first executor at or after `start`, cyclically, with a free slot.
fn find_slot(slots: &Vec<usize>, start: usize) -> (r: Option<usize>)
    requires
        start < slots@.len() || slots@.len() == 0,
    ensures
        match r {
            Some(e) => e < slots@.len() && slots@[e as int] > 0 && exists|d: int|
                0 <= d < slots@.len() && e == #[trigger] hop_index(start as int, d, slots@.len() as int)
                    && forall|j: int|
                    0 <= j < d ==> slots@[#[trigger] hop_index(start as int, j, slots@.len() as int)] == 0,
            None => all_zero(slots@),
        },
{
    let m = slots.len();
    let mut k: usize = 0;
    while k < m
        invariant
            m == slots@.len(),
            start < m || m == 0,
            0 <= k <= m,
            forall|j: int| 0 <= j < k ==> slots@[#[trigger] hop_index(start as int, j, m as int)] == 0,
        decreases m - k,
    {
        let e = if k < m - start {
            start + k
        } else {
            k - (m - start)
        };
        assert(e == hop_index(start as int, k as int, m as int));
        if slots[e] > 0 {
            return Some(e);
        }
        k = k + 1;
    }
    proof {
        assert forall|e: int| 0 <= e < m implies #[trigger] slots@[e] == 0 by {
            if e >= start {
                assert(hop_index(start as int, e - start, m as int) == e);
            } else {
                assert(hop_index(start as int, e + m - start, m as int) == e);
            }
        }
    }
    None
}

/// Round-robin placement of the tasks not yet taken (only those that scan no
/// files when `unkeyed_only`): one task per executor in turn, in executor
/// order, skipping full executors.
fn round_robin(
    tasks: &Vec<PendingTask>,
    slots: &mut Vec<usize>,
    out: &mut Vec<Assignment>,
    taken: &mut Vec<bool>,
    unkeyed_only: bool,
    Ghost(before): Ghost<Seq<usize>>,
    Ghost(nodes): Ghost<Seq<RingNode>>,
    Ghost(tolerance): Ghost<usize>,
)
    requires
        inv(before, old(slots)@, old(out)@, old(taken)@),
        old(taken)@.len() == tasks@.len(),
        forall|k: int| 0 <= k < nodes.len() ==> #[trigger] nodes[k].executor < before.len(),
        ch_trace(nodes, tolerance, tasks@, before, old(out)@),
        !unkeyed_only ==> forall|t: int|
            0 <= t < tasks@.len() && !#[trigger] old(taken)@[t] ==> blocked(nodes, tolerance, tasks@, t, old(slots)@),
    ensures
        inv(before, final(slots)@, final(out)@, final(taken)@),
        final(taken)@.len() == tasks@.len(),
        all_zero(final(slots)@) || forall|t: int|
            0 <= t < tasks@.len() && (!unkeyed_only || tasks@[t].scan_key is None)
                ==> #[trigger] final(taken)@[t],
        ch_trace(nodes, tolerance, tasks@, before, final(out)@),
        !unkeyed_only && old(out)@.len() == 0 && (forall|t: int| 0 <= t < tasks@.len() ==> !#[trigger] old(taken)@[t])
            ==> rr_trace(before, final(out)@),
{
    let n = tasks.len();
    let m = slots.len();
    let mut cursor: usize = 0;
    let mut t: usize = 0;
    let ghost fresh = !unkeyed_only && out@.len() == 0 && (forall|t: int| 0 <= t < tasks@.len() ==> !#[trigger] taken@[t]);
    while t < n
        invariant
            n == tasks@.len() == taken@.len(),
            m == slots@.len() == before.len(),
            cursor < m || m == 0,
            0 <= t <= n,
            inv(before, slots@, out@, taken@),
            fresh == (!unkeyed_only && old(out)@.len() == 0 && (forall|t: int|
                0 <= t < tasks@.len() ==> !#[trigger] old(taken)@[t])),
            fresh ==> out@.len() == t,
            fresh ==> forall|t2: int| t <= t2 < n ==> !#[trigger] taken@[t2],
            fresh ==> cursor == rr_start(out@, t as int, m as int),
            fresh ==> rr_trace(before, out@),
            forall|k: int| 0 <= k < nodes.len() ==> #[trigger] nodes[k].executor < before.len(),
            ch_trace(nodes, tolerance, tasks@, before, out@),
            !unkeyed_only ==> forall|t2: int|
                0 <= t2 < n && !#[trigger] taken@[t2] ==> blocked(nodes, tolerance, tasks@, t2, slots@),
            forall|t2: int|
                0 <= t2 < t && (!unkeyed_only || tasks@[t2].scan_key is None) ==> #[trigger] taken@[t2],
        decreases n - t,
    {
        assert(fresh ==> !taken@[t as int]);
        if !taken[t] && (!unkeyed_only || tasks[t].scan_key.is_none()) {
            match find_slot(slots, cursor) {
                Some(e) => {
                    let ghost o = out@;
                    let ghost sl = slots@;
                    let ghost tk = taken@;
                    place(slots, out, taken, t, e, Ghost(before));
                    proof {
                        let x = Assignment { task: t, executor: e };
                        lemma_slots_after_push(before, sl, o, x);
                        assert(out@[o.len() as int] == x);
                        if !unkeyed_only {
                            assert(blocked(nodes, tolerance, tasks@, t as int, sl));
                        }
                        assert(ch_choice(nodes, tolerance, tasks@, before, out@, o.len() as int));
                        assert forall|k: int| 0 <= k < out@.len() implies #[trigger] ch_choice(
                            nodes,
                            tolerance,
                            tasks@,
                            before,
                            out@,
                            k,
                        ) by {
                            if k < o.len() {
                                lemma_ch_prefix(nodes, tolerance, tasks@, before, o, x, k);
                            }
                        }
                        if !unkeyed_only {
                            assert forall|t2: int| 0 <= t2 < n && !#[trigger] taken@[t2] implies blocked(
                                nodes,
                                tolerance,
                                tasks@,
                                t2,
                                slots@,
                            ) by {
                                assert(!tk[t2]);
                                lemma_blocked_persists(nodes, tolerance, tasks@, t2, sl, e as int);
                            }
                        }
                        if fresh {
                            let x = Assignment { task: t, executor: e };
                            assert forall|f: int| 0 <= f < m implies left_after(before, out@, o.len() as int, f)
                                == sl[f] by {
                                lemma_prefix_push(o, x, o.len() as int);
                                assert(o.subrange(0, o.len() as int) =~= o);
                            }
                            assert(out@[o.len() as int] == x);
                            assert(rr_start(out@, o.len() as int, m as int) == rr_start(o, o.len() as int, m as int));
                            assert(rr_choice(before, out@, o.len() as int));
                            assert forall|k: int| 0 <= k < out@.len() implies #[trigger] out@[k].task == k by {
                                if k < o.len() {
                                    assert(out@[k] == o[k]);
                                    assert(o[k].task == k);
                                }
                            }
                            assert forall|k: int| 0 <= k < o.len() implies #[trigger] rr_choice(before, out@, k) by {
                                lemma_prefix_push(o, x, k);
                                assert(out@[k] == o[k]);
                                assert(rr_choice(before, o, k));
                                assert(rr_start(out@, k, m as int) == rr_start(o, k, m as int));
                                assert forall|f: int| 0 <= f < m implies left_after(before, out@, k, f)
                                    == left_after(before, o, k, f) by {}
                            }
                        }
                    }
                    cursor = if e + 1 < m {
                        e + 1
                    } else {
                        0
                    };
                },
                None => {
                    return ;
                },
            }
        }
        t = t + 1;
    }
}

/// Index of the first executor with the most free slots.
fn most_free(slots: &Vec<usize>) -> (r: usize)
    requires
        slots@.len() > 0,
    ensures
        r < slots@.len(),
        forall|j: int| 0 <= j < slots@.len() ==> #[trigger] slots@[j] <= slots@[r as int],
        forall|j: int| 0 <= j < r ==> #[trigger] slots@[j] < slots@[r as int],
{
    let mut best: usize = 0;
    let mut i: usize = 1;
    while i < slots.len()
        invariant
            0 < i <= slots@.len(),
            best < i,
            forall|j: int| 0 <= j < i ==> #[trigger] slots@[j] <= slots@[best as int],
            forall|j: int| 0 <= j < best ==> #[trigger] slots@[j] < slots@[best as int],
        decreases slots@.len() - i,
    {
        if slots[i] > slots[best] {
            best = i;
        }
        i = i + 1;
    }
    best
}

/// Bias placement: fill the executor with the most free slots (the first
/// such one on ties) before moving to the next, taking tasks in order.
fn bias(
    tasks: &Vec<PendingTask>,
    slots: &mut Vec<usize>,
    out: &mut Vec<Assignment>,
    taken: &mut Vec<bool>,
    Ghost(before): Ghost<Seq<usize>>,
)
    requires
        inv(before, old(slots)@, old(out)@, old(taken)@),
        old(taken)@.len() == tasks@.len(),
        old(out)@.len() == 0,
        forall|t: int| 0 <= t < tasks@.len() ==> !#[trigger] old(taken)@[t],
    ensures
        inv(before, final(slots)@, final(out)@, final(taken)@),
        final(taken)@.len() == tasks@.len(),
        all_zero(final(slots)@) || forall|t: int| 0 <= t < tasks@.len() ==> #[trigger] final(taken)@[t],
        bias_trace(before, final(out)@),
{
    let n = tasks.len();
    if slots.len() == 0 {
        return ;
    }
    let m = slots.len();
    let mut t: usize = 0;
    while t < n
        invariant
            n == tasks@.len() == taken@.len(),
            m == slots@.len() == before.len() > 0,
            0 <= t <= n,
            inv(before, slots@, out@, taken@),
            out@.len() == t,
            forall|t2: int| 0 <= t2 < t ==> #[trigger] taken@[t2],
            forall|t2: int| t <= t2 < n ==> !#[trigger] taken@[t2],
            bias_trace(before, out@),
            t < n && t > 0 ==> slots@[out@[t - 1].executor as int] == 0,
        decreases n - t,
    {
        let e = most_free(slots);
        if slots[e] == 0 {
            return ;
        }
        let ghost t0 = t;
        let ghost s0 = slots@;
        while t < n && slots[e] > 0
            invariant
                n == tasks@.len() == taken@.len(),
                m == slots@.len() == before.len(),
                e < slots@.len(),
                t0 <= t <= n,
                t0 < n,
                t > t0 || slots@[e as int] > 0,
                inv(before, slots@, out@, taken@),
                out@.len() == t,
                forall|t2: int| 0 <= t2 < t ==> #[trigger] taken@[t2],
                forall|t2: int| t <= t2 < n ==> !#[trigger] taken@[t2],
                bias_trace(before, out@),
                t > t0 ==> out@[t - 1].executor == e,
                t == t0 ==> slots@ == s0,
                forall|j: int| 0 <= j < m ==> #[trigger] s0[j] <= s0[e as int],
                forall|j: int| 0 <= j < e ==> #[trigger] s0[j] < s0[e as int],
                t0 > 0 ==> s0[out@[t0 - 1].executor as int] == 0,
            decreases n - t,
        {
            let ghost o = out@;
            let ghost sl = slots@;
            place(slots, out, taken, t, e, Ghost(before));
            proof {
                reveal(bias_choice);
                let x = Assignment { task: t, executor: e };
                assert forall|f: int| 0 <= f < m implies left_after(before, out@, t as int, f) == sl[f] by {
                    lemma_prefix_push(o, x, t as int);
                    assert(o.subrange(0, t as int) =~= o);
                }
                assert(out@[t as int] == x);
                if t > t0 {
                    assert(out@[t - 1] == o[t - 1]);
                    assert(o[t - 1].executor == e);
                    assert(left_after(before, out@, t as int, e as int) > 0);
                } else {
                    assert(sl == s0);
                    if t > 0 {
                        assert(out@[t - 1] == o[t - 1]);
                        let pe = o[t - 1].executor as int;
                        assert(0 <= pe < m);
                        assert(left_after(before, out@, t as int, pe) == 0);
                    }
                    assert(left_after(before, out@, t as int, e as int) > 0);
                    assert forall|j: int| 0 <= j < m implies #[trigger] left_after(before, out@, t as int, j)
                        <= left_after(before, out@, t as int, e as int) by {
                        assert(sl[j] == s0[j]);
                        assert(s0[j] <= s0[e as int]);
                    }
                    assert forall|j: int| 0 <= j < e implies #[trigger] left_after(before, out@, t as int, j)
                        < left_after(before, out@, t as int, e as int) by {
                        assert(sl[j] == s0[j]);
                        assert(s0[j] < s0[e as int]);
                    }
                }
                assert(bias_choice(before, out@, t as int));
                assert forall|k: int| 0 <= k < out@.len() implies #[trigger] out@[k].task == k by {
                    if k < o.len() {
                        assert(out@[k] == o[k]);
                        assert(o[k].task == k);
                    }
                }
                assert forall|k: int| 0 <= k < o.len() implies #[trigger] bias_choice(before, out@, k) by {
                    lemma_prefix_push(o, x, k);
                    assert(out@[k] == o[k]);
                    assert(bias_choice(before, o, k));
                    if k > 0 {
                        assert(out@[k - 1] == o[k - 1]);
                    }
                    assert forall|f: int| 0 <= f < m implies #[trigger] left_after(before, out@, k, f)
                        == left_after(before, o, k, f) by {}
                    let ek = o[k].executor as int;
                    assert(0 <= ek < m);
                    if k > 0 {
                        let pk = o[k - 1].executor as int;
                        assert(0 <= pk < m);
                        assert(left_after(before, out@, k, pk) == left_after(before, o, k, pk));
                    }
                    if !(k > 0 && left_after(before, o, k, o[k - 1].executor as int) > 0) {
                        assert(left_after(before, out@, k, ek) == left_after(before, o, k, ek));
                        assert forall|j: int| 0 <= j < m implies #[trigger] left_after(before, out@, k, j)
                            <= left_after(before, out@, k, ek) by {
                            assert(left_after(before, out@, k, j) == left_after(before, o, k, j));
                        }
                        assert forall|j: int| 0 <= j < ek implies #[trigger] left_after(before, out@, k, j)
                            < left_after(before, out@, k, ek) by {
                            assert(left_after(before, out@, k, j) == left_after(before, o, k, j));
                        }
                    }
                }
            }
            t = t + 1;
        }
    }
}

/// Consistent-hash placement: tasks that scan no files go round-robin first;
/// each scanning task goes to the first executor with a free slot among
/// `tolerance + 1` replicas clockwise from the hash of its scan key; what is
/// left goes round-robin.
fn consistent_hash(
    tasks: &Vec<PendingTask>,
    executor_ids: &Vec<String>,
    slots: &mut Vec<usize>,
    out: &mut Vec<Assignment>,
    taken: &mut Vec<bool>,
    num_replicas: usize,
    tolerance: usize,
    Ghost(before): Ghost<Seq<usize>>,
)
    requires
        inv(before, old(slots)@, old(out)@, old(taken)@),
        old(taken)@.len() == tasks@.len(),
        old(slots)@.len() == executor_ids@.len(),
        old(out)@.len() == 0,
    ensures
        inv(before, final(slots)@, final(out)@, final(taken)@),
        final(taken)@.len() == tasks@.len(),
        all_zero(final(slots)@) || forall|t: int| 0 <= t < tasks@.len() ==> #[trigger] final(taken)@[t],
        exists|nodes: Seq<RingNode>|
            ring_of(nodes, executor_ids@, num_replicas) && ch_trace(nodes, tolerance, tasks@, before, final(out)@),
{
    let ring = ConsistentHashRing::new(executor_ids, num_replicas);
    let ghost nodes = ring@;
    assert(ring_of(nodes, executor_ids@, num_replicas));
    round_robin(tasks, slots, out, taken, true, Ghost(before), Ghost(nodes), Ghost(tolerance));
    let n = tasks.len();
    let mut t: usize = 0;
    while t < n
        invariant
            n == tasks@.len() == taken@.len(),
            slots@.len() == before.len() == executor_ids@.len(),
            ring.wf(),
            ring.executor_count() == executor_ids@.len(),
            nodes == ring@,
            0 <= t <= n,
            inv(before, slots@, out@, taken@),
            forall|k: int| 0 <= k < nodes.len() ==> #[trigger] nodes[k].executor < before.len(),
            ch_trace(nodes, tolerance, tasks@, before, out@),
            forall|t2: int| 0 <= t2 < t && !#[trigger] taken@[t2] ==> blocked(nodes, tolerance, tasks@, t2, slots@),
        decreases n - t,
    {
        if !taken[t] {
            match &tasks[t].scan_key {
                Some(key) => {
                    let h = hash_str(key.as_str());
                    match ring.get_with_tolerance(h, slots, tolerance) {
                        Some(e) => {
                            let ghost o = out@;
                            let ghost sl = slots@;
                            let ghost tk = taken@;
                            place(slots, out, taken, t, e, Ghost(before));
                            proof {
                                let x = Assignment { task: t, executor: e };
                                lemma_slots_after_push(before, sl, o, x);
                                assert(out@[o.len() as int] == x);
                                assert(ch_choice(nodes, tolerance, tasks@, before, out@, o.len() as int));
                                assert forall|k: int| 0 <= k < out@.len() implies #[trigger] ch_choice(
                                    nodes,
                                    tolerance,
                                    tasks@,
                                    before,
                                    out@,
                                    k,
                                ) by {
                                    if k < o.len() {
                                        lemma_ch_prefix(nodes, tolerance, tasks@, before, o, x, k);
                                    }
                                }
                                assert forall|t2: int| 0 <= t2 < t + 1 && !#[trigger] taken@[t2] implies blocked(
                                    nodes,
                                    tolerance,
                                    tasks@,
                                    t2,
                                    slots@,
                                ) by {
                                    assert(!tk[t2]);
                                    lemma_blocked_persists(nodes, tolerance, tasks@, t2, sl, e as int);
                                }
                            }
                        },
                        None => {
                            assert(blocked(nodes, tolerance, tasks@, t as int, slots@));
                        },
                    }
                },
                None => {
                    assert(blocked(nodes, tolerance, tasks@, t as int, slots@));
                },
            }
        }
        t = t + 1;
    }
    round_robin(tasks, slots, out, taken, false, Ghost(before), Ghost(nodes), Ghost(tolerance));
}

/// One scheduling pass: assigns pending tasks to free slots under `policy`,
/// taking each assigned slot from `slots` at once.  No executor gets more
/// tasks than it had free slots, no task is assigned twice, and the pass
/// stops only when every task is placed or every slot is taken.  When there
/// are tasks and no free slot at all, the result is `NoCapacity` and nothing
/// changes.  Under Bias and RoundRobin tasks are taken in order and each
/// assignment follows the policy's rule exactly; under ConsistentHash a task
/// that scans files goes to the first replica within reach of its key that
/// has a free slot whenever there is one.
pub fn assign(
    tasks: &Vec<PendingTask>,
    executor_ids: &Vec<String>,
    slots: &mut Vec<usize>,
    policy: TaskDistributionPolicy,
) -> (r: Placement)
    requires
        old(slots)@.len() == executor_ids@.len(),
    ensures
        match r {
            Placement::NoCapacity => tasks@.len() > 0 && all_zero(old(slots)@) && final(slots)@
                == old(slots)@,
            Placement::Assigned(a) => {
                &&& !(tasks@.len() > 0 && all_zero(old(slots)@))
                &&& accounts(old(slots)@, final(slots)@, a@)
                &&& forall|e: int| 0 <= e < old(slots)@.len() ==> #[trigger] count_to(a@, e) <= old(slots)@[e]
                &&& distinct_tasks(a@, tasks@.len())
                &&& all_zero(final(slots)@) || forall|t: int|
                    0 <= t < tasks@.len() ==> #[trigger] is_assigned(a@, t)
                &&& policy == TaskDistributionPolicy::RoundRobin ==> rr_trace(old(slots)@, a@)
                &&& policy == TaskDistributionPolicy::Bias ==> bias_trace(old(slots)@, a@)
                &&& policy matches TaskDistributionPolicy::ConsistentHash { num_replicas, tolerance }
                    ==> exists|nodes: Seq<RingNode>|
                    ring_of(nodes, executor_ids@, num_replicas) && ch_trace(nodes, tolerance, tasks@, old(slots)@, a@)
            },
        },
{
    let n = tasks.len();
    let mut any_free = false;
    let mut i: usize = 0;
    while i < slots.len()
        invariant
            0 <= i <= slots@.len(),
            any_free <==> exists|j: int| 0 <= j < i && #[trigger] slots@[j] > 0,
        decreases slots@.len() - i,
    {
        if slots[i] > 0 {
            any_free = true;
        }
        i = i + 1;
    }
    if n > 0 && !any_free {
        return Placement::NoCapacity;
    }
    let ghost before = slots@;
    assert(before == old(slots)@);
    let mut out: Vec<Assignment> = Vec::new();
    let mut taken: Vec<bool> = Vec::new();
    let mut k: usize = 0;
    while k < n
        invariant
            0 <= k <= n,
            taken@.len() == k,
            forall|t: int| 0 <= t < k ==> !#[trigger] taken@[t],
        decreases n - k,
    {
        taken.push(false);
        k = k + 1;
    }
    proof {
        assert forall|e: int| 0 <= e < before.len() implies slots@[e] + #[trigger] count_to(out@, e)
            == before[e] by {}
    }
    match policy {
        TaskDistributionPolicy::Bias => {
            bias(tasks, slots, &mut out, &mut taken, Ghost(before));
        },
        TaskDistributionPolicy::RoundRobin => {
            round_robin(tasks, slots, &mut out, &mut taken, false, Ghost(before), Ghost(Seq::empty()), Ghost(0));
        },
        TaskDistributionPolicy::ConsistentHash { num_replicas, tolerance } => {
            consistent_hash(tasks, executor_ids, slots, &mut out, &mut taken, num_replicas, tolerance, Ghost(before));
        },
    }
    proof {
        assert forall|t: int| 0 <= t < tasks@.len() && !all_zero(slots@) implies #[trigger] is_assigned(out@, t) by {
            assert(taken@[t]);
        }
    }
    Placement::Assigned(out)
}

proof fn lemma_count_concat(a: Seq<Assignment>, b: Seq<Assignment>, e: int)
    ensures
        count_to(a + b, e) == count_to(a, e) + count_to(b, e),
    decreases b.len(),
{
    if b.len() == 0 {
        assert(a + b =~= a);
    } else {
        assert((a + b).drop_last() =~= a + b.drop_last());
        lemma_count_concat(a, b.drop_last(), e);
    }
}

/// Capacity safety across passes: when a second pass runs on the slots the
/// first one left, the two passes together account for the slots free
/// before the first, so no executor ever holds more tasks from them than it
/// had free slots.
pub proof fn lemma_capacity_safety(
    s0: Seq<usize>,
    s1: Seq<usize>,
    s2: Seq<usize>,
    a1: Seq<Assignment>,
    a2: Seq<Assignment>,
)
    requires
        accounts(s0, s1, a1),
        accounts(s1, s2, a2),
    ensures
        accounts(s0, s2, a1 + a2),
        forall|e: int| 0 <= e < s0.len() ==> #[trigger] count_to(a1 + a2, e) <= s0[e],
{
    assert forall|e: int| 0 <= e < s0.len() implies s2[e] + #[trigger] count_to(a1 + a2, e) == s0[e] by {
        lemma_count_concat(a1, a2, e);
    }
    assert forall|k: int| 0 <= k < (a1 + a2).len() implies #[trigger] (a1 + a2)[k].executor < s0.len() by {
        if k >= a1.len() {
            assert((a1 + a2)[k] == a2[k - a1.len()]);
        }
    }
}

} // verus!
