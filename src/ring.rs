//! A consistent-hash ring mapping hash keys to executor replicas.
use vstd::prelude::*;

verus! {

pub const FNV_OFFSET: u64 = 0xcbf2_9ce4_8422_2325;

pub const FNV_PRIME: u64 = 0x0100_0000_01b3;

/// FNV-1a hash of a byte sequence: a stable hash, the same in every process.
pub open spec fn fnv1a(s: Seq<u8>) -> u64
    decreases s.len(),
{
    if s.len() == 0 {
        FNV_OFFSET
    } else {
        (fnv1a(s.drop_last()) ^ (s.last() as u64)).wrapping_mul(FNV_PRIME)
    }
}

pub const GOLDEN_GAMMA: u64 = 0x9e37_79b9_7f4a_7c15;

pub const MIX_1: u64 = 0xbf58_476d_1ce4_e5b9;

pub const MIX_2: u64 = 0x94d0_49bb_1331_11eb;

/// 64-bit finalizer that spreads every input bit over the whole word.
pub open spec fn mix64(z: u64) -> u64 {
    let a = (z ^ (z >> 30u64)).wrapping_mul(MIX_1);
    let b = (a ^ (a >> 27u64)).wrapping_mul(MIX_2);
    b ^ (b >> 31u64)
}

/// Ring position of replica `r` of an executor whose id hashes to `id_hash`.
pub open spec fn replica_position(id_hash: u64, r: u64) -> u64 {
    mix64(id_hash.wrapping_add(r.wrapping_mul(GOLDEN_GAMMA)))
}

fn replica_pos(id_hash: u64, r: u64) -> (p: u64)
    ensures
        p == replica_position(id_hash, r),
{
    let z = id_hash.wrapping_add(r.wrapping_mul(GOLDEN_GAMMA));
    let a = (z ^ (z >> 30u64)).wrapping_mul(MIX_1);
    let b = (a ^ (a >> 27u64)).wrapping_mul(MIX_2);
    b ^ (b >> 31u64)
}

pub fn hash_bytes(b: &[u8]) -> (r: u64)
    ensures
        r == fnv1a(b@),
{
    let mut h: u64 = FNV_OFFSET;
    let mut i: usize = 0;
    while i < b.len()
        invariant
            0 <= i <= b@.len(),
            h == fnv1a(b@.subrange(0, i as int)),
        decreases b@.len() - i,
    {
        proof {
            assert(b@.subrange(0, i + 1).drop_last() =~= b@.subrange(0, i as int));
        }
        h = (h ^ (b[i] as u64)).wrapping_mul(FNV_PRIME);
        i = i + 1;
    }
    proof {
        assert(b@.subrange(0, b@.len() as int) =~= b@);
    }
    h
}

/// Stable hash of a string's UTF-8 bytes.
pub fn hash_str(s: &str) -> (r: u64)
    ensures
        r == str_hash(s@),
{
    hash_bytes(s.as_bytes())
}

/// One replica of an executor on the ring.
#[derive(Debug, Clone, Copy, PartialEq, Eq, Structural)]
pub struct RingNode {
    pub position: u64,
    /// Index of the executor in the executor list the ring was built from.
    pub executor: usize,
}

pub open spec fn sorted(nodes: Seq<RingNode>) -> bool {
    forall|i: int, j: int|
        0 <= i < j < nodes.len() ==> #[trigger] nodes[i].position <= #[trigger] nodes[j].position
}

/// Index of the first node at or after `from` whose position is at least `h`;
/// past the end the walk wraps to the first node.
pub open spec fn first_ge(nodes: Seq<RingNode>, h: u64, from: int) -> int
    decreases nodes.len() - from,
{
    if from >= nodes.len() || from < 0 {
        0
    } else if nodes[from].position >= h {
        from
    } else {
        first_ge(nodes, h, from + 1)
    }
}

/// Index of the node that owns hash `h`: the nearest one clockwise.
pub open spec fn primary_index(nodes: Seq<RingNode>, h: u64) -> int {
    first_ge(nodes, h, 0)
}

/// Index of the node `k` hops clockwise from `p`, for `p, k < len`.
pub open spec fn hop_index(p: int, k: int, len: int) -> int {
    if p + k < len {
        p + k
    } else {
        p + k - len
    }
}

/// Executor of the node `k` hops clockwise from the owner of `h`.
pub open spec fn walk_executor(nodes: Seq<RingNode>, h: u64, k: int) -> usize {
    nodes[hop_index(primary_index(nodes, h), k, nodes.len() as int)].executor
}

pub proof fn lemma_first_ge_bounds(nodes: Seq<RingNode>, h: u64, from: int)
    requires
        nodes.len() > 0,
    ensures
        0 <= first_ge(nodes, h, from) < nodes.len(),
    decreases nodes.len() - from,
{
    if from >= nodes.len() || from < 0 {
    } else if nodes[from].position >= h {
    } else {
        lemma_first_ge_bounds(nodes, h, from + 1);
    }
}

/// Stable hash of a string's UTF-8 encoding.
pub open spec fn str_hash(c: Seq<char>) -> u64 {
    fnv1a(vstd::utf8::encode_utf8(c))
}

pub open spec fn has_node(nodes: Seq<RingNode>, x: RingNode) -> bool {
    exists|k: int| 0 <= k < nodes.len() && #[trigger] nodes[k] == x
}

/// The node for replica `rep` of executor `e` of the id list.
pub open spec fn replica_node(ids: Seq<String>, e: int, rep: int) -> RingNode {
    RingNode { position: replica_position(str_hash(ids[e]@), rep as u64), executor: e as usize }
}

/// `r` is the executor of the first of at most `tolerance + 1` replicas
/// clockwise from the owner of `h` that has a free slot, or `None` when none has.
pub open spec fn tolerant_choice(
    nodes: Seq<RingNode>,
    h: u64,
    slots: Seq<usize>,
    tolerance: usize,
    r: Option<usize>,
) -> bool {
    match r {
        Some(x) => exists|k: int|
            0 <= k <= tolerance && k < nodes.len() && x == #[trigger] walk_executor(nodes, h, k)
                && slots[x as int] > 0 && forall|j: int|
                0 <= j < k ==> slots[walk_executor(nodes, h, j) as int] == 0,
        None => forall|k: int|
            0 <= k <= tolerance && k < nodes.len() ==> slots[#[trigger] walk_executor(nodes, h, k) as int]
                == 0,
    }
}

/// A ring of executor replicas sorted by position.
pub struct ConsistentHashRing {
    nodes: Vec<RingNode>,
    num_executors: usize,
}

impl ConsistentHashRing {
    pub closed spec fn view(&self) -> Seq<RingNode> {
        self.nodes@
    }

    pub closed spec fn executor_count(&self) -> nat {
        self.num_executors as nat
    }

    pub open spec fn wf(&self) -> bool {
        &&& sorted(self@)
        &&& forall|k: int| 0 <= k < self@.len() ==> #[trigger] self@[k].executor < self.executor_count()
    }

    pub fn len(&self) -> (r: usize)
        ensures
            r == self@.len(),
    {
        self.nodes.len()
    }

    /// Inserts a node, keeping the nodes sorted; equal positions keep insertion order.
    fn insert_node(&mut self, x: RingNode)
        requires
            old(self).wf(),
            x.executor < old(self).executor_count(),
        ensures
            final(self).wf(),
            final(self).executor_count() == old(self).executor_count(),
            has_node(final(self)@, x),
            forall|y: RingNode| has_node(old(self)@, y) ==> has_node(final(self)@, y),
            forall|y: RingNode| has_node(final(self)@, y) ==> y == x || has_node(old(self)@, y),
    {
        let mut idx: usize = 0;
        while idx < self.nodes.len() && self.nodes[idx].position <= x.position
            invariant
                0 <= idx <= self.nodes@.len(),
                forall|k: int| 0 <= k < idx ==> #[trigger] self.nodes@[k].position <= x.position,
            decreases self.nodes@.len() - idx,
        {
            idx = idx + 1;
        }
        let ghost before = self.nodes@;
        proof {
            before.insert_ensures(idx as int, x);
        }
        self.nodes.insert(idx, x);
        proof {
            let after = self.nodes@;
            assert(after[idx as int] == x);
            assert forall|i: int, j: int| 0 <= i < j < after.len() implies #[trigger] after[i].position
                <= #[trigger] after[j].position by {
                if j < idx {
                    assert(after[i] == before[i] && after[j] == before[j]);
                } else if j == idx {
                    assert(after[i] == before[i]);
                } else if i < idx {
                    assert(after[i] == before[i] && after[j] == before[j - 1]);
                } else if i == idx {
                    assert(after[j] == before[j - 1]);
                    assert(before[idx as int].position > x.position);
                } else {
                    assert(after[i] == before[i - 1] && after[j] == before[j - 1]);
                }
            }
            assert forall|k: int| 0 <= k < after.len() implies #[trigger] after[k].executor
                < self.executor_count() by {
                if k < idx {
                    assert(after[k] == before[k]);
                } else if k > idx {
                    assert(after[k] == before[k - 1]);
                }
            }
            assert forall|y: RingNode| has_node(before, y) implies has_node(after, y) by {
                let k = choose|k: int| 0 <= k < before.len() && #[trigger] before[k] == y;
                if k < idx {
                    assert(after[k] == y);
                } else {
                    assert(after[k + 1] == y);
                }
            }
            assert forall|y: RingNode| has_node(after, y) implies y == x || has_node(before, y) by {
                let k = choose|k: int| 0 <= k < after.len() && #[trigger] after[k] == y;
                if k < idx {
                    assert(before[k] == y);
                } else if k > idx {
                    assert(before[k - 1] == y);
                }
            }
        }
    }

    /// Builds the ring holding `num_replicas` replicas of each executor id,
    /// and nothing else.
    pub fn new(executor_ids: &Vec<String>, num_replicas: usize) -> (r: ConsistentHashRing)
        ensures
            r.wf(),
            r.executor_count() == executor_ids@.len(),
            forall|e: int, rep: int|
                0 <= e < executor_ids@.len() && 0 <= rep < num_replicas ==> has_node(
                    r@,
                    #[trigger] replica_node(executor_ids@, e, rep),
                ),
            forall|y: RingNode|
                has_node(r@, y) ==> exists|e: int, rep: int|
                    0 <= e < executor_ids@.len() && 0 <= rep < num_replicas && y
                        == #[trigger] replica_node(executor_ids@, e, rep),
    {
        let ids = executor_ids;
        let mut ring = ConsistentHashRing { nodes: Vec::new(), num_executors: ids.len() };
        let mut e: usize = 0;
        while e < ids.len()
            invariant
                0 <= e <= ids@.len(),
                ring.wf(),
                ring.executor_count() == ids@.len(),
                forall|e2: int, rep: int|
                    0 <= e2 < e && 0 <= rep < num_replicas ==> has_node(
                        ring@,
                        #[trigger] replica_node(ids@, e2, rep),
                    ),
                forall|y: RingNode|
                    has_node(ring@, y) ==> exists|e2: int, rep: int|
                        0 <= e2 < ids@.len() && 0 <= rep < num_replicas && y
                            == #[trigger] replica_node(ids@, e2, rep),
            decreases ids@.len() - e,
        {
            let h = hash_str(ids[e].as_str());
            let mut rep: usize = 0;
            while rep < num_replicas
                invariant
                    0 <= e < ids@.len(),
                    0 <= rep <= num_replicas,
                    h == str_hash(ids@[e as int]@),
                    ring.wf(),
                    ring.executor_count() == ids@.len(),
                    forall|e2: int, other_rep: int|
                        (0 <= e2 < e && 0 <= other_rep < num_replicas) || (e2 == e && 0 <= other_rep < rep)
                            ==> has_node(ring@, #[trigger] replica_node(ids@, e2, other_rep)),
                    forall|y: RingNode|
                        has_node(ring@, y) ==> exists|e2: int, other_rep: int|
                            0 <= e2 < ids@.len() && 0 <= other_rep < num_replicas && y
                                == #[trigger] replica_node(ids@, e2, other_rep),
                decreases num_replicas - rep,
            {
                let x = RingNode { position: replica_pos(h, rep as u64), executor: e };
                assert(x == replica_node(ids@, e as int, rep as int));
                ring.insert_node(x);
                rep = rep + 1;
            }
            e = e + 1;
        }
        ring
    }

    fn primary(&self, h: u64) -> (r: usize)
        requires
            self@.len() > 0,
        ensures
            r == primary_index(self@, h),
            r < self@.len(),
    {
        proof {
            lemma_first_ge_bounds(self@, h, 0);
        }
        let mut i: usize = 0;
        while i < self.nodes.len()
            invariant
                0 <= i <= self@.len(),
                self@ == self.nodes@,
                first_ge(self@, h, 0) == first_ge(self@, h, i as int),
            decreases self@.len() - i,
        {
            if self.nodes[i].position >= h {
                return i;
            }
            i = i + 1;
        }
        0
    }

    /// The executor owning hash `h`: the one of the nearest replica clockwise
    /// from `h`.  The answer depends on the ring and `h` alone.
    pub fn lookup(&self, h: u64) -> (r: Option<usize>)
        ensures
            self@.len() == 0 ==> r is None,
            self@.len() > 0 ==> r == Some(self@[primary_index(self@, h)].executor),
    {
        if self.nodes.len() == 0 {
            return None;
        }
        let p = self.primary(h);
        Some(self.nodes[p].executor)
    }

    /// Walks clockwise from the owner of `h` over at most `tolerance + 1`
    /// replicas and returns the executor of the first one with a free slot.
    pub fn get_with_tolerance(&self, h: u64, slots: &Vec<usize>, tolerance: usize) -> (r: Option<usize>)
        requires
            self.wf(),
            slots@.len() == self.executor_count(),
        ensures
            tolerant_choice(self@, h, slots@, tolerance, r),
            r matches Some(e) ==> e < slots@.len() && slots@[e as int] > 0,
    {
        let len = self.nodes.len();
        if len == 0 {
            return None;
        }
        let p = self.primary(h);
        let mut k: usize = 0;
        while k < len && k <= tolerance
            invariant
                len == self@.len(),
                p == primary_index(self@, h),
                p < len,
                self.wf(),
                slots@.len() == self.executor_count(),
                0 <= k <= len,
                k <= tolerance + 1,
                forall|j: int| 0 <= j < k ==> slots@[#[trigger] walk_executor(self@, h, j) as int] == 0,
            decreases len - k,
        {
            let idx = if k < len - p {
                p + k
            } else {
                k - (len - p)
            };
            assert(idx == hop_index(p as int, k as int, len as int));
            let e = self.nodes[idx].executor;
            assert(e == walk_executor(self@, h, k as int));
            if slots[e] > 0 {
                return Some(e);
            }
            k = k + 1;
        }
        None
    }
}

/// Routing is stable: on a well-formed ring, a key whose owner has a free
/// slot is placed on that owner, whatever the tolerance, so the same key is
/// routed to the same executor as long as it does not overflow.
pub proof fn lemma_routing_stable(ring: ConsistentHashRing, h: u64, slots: Seq<usize>, tolerance: usize, e: usize)
    requires
        ring.wf(),
        ring@.len() > 0,
        slots.len() == ring.executor_count(),
        e == ring@[primary_index(ring@, h)].executor,
        slots[e as int] > 0,
    ensures
        walk_executor(ring@, h, 0) == e,
        forall|r: Option<usize>| #[trigger] tolerant_choice(ring@, h, slots, tolerance, r) ==> r == Some(e),
{
    lemma_first_ge_bounds(ring@, h, 0);
    assert(hop_index(primary_index(ring@, h), 0, ring@.len() as int) == primary_index(ring@, h));
    assert forall|r: Option<usize>| #[trigger] tolerant_choice(ring@, h, slots, tolerance, r) implies r == Some(e) by {
        match r {
            Some(x) => {
                let k = choose|k: int|
                    0 <= k <= tolerance && k < ring@.len() && x == #[trigger] walk_executor(ring@, h, k)
                        && slots[x as int] > 0 && forall|j: int|
                        0 <= j < k ==> slots[walk_executor(ring@, h, j) as int] == 0;
                if k > 0 {
                    assert(slots[walk_executor(ring@, h, 0) as int] == 0);
                }
            },
            None => {
                assert(slots[walk_executor(ring@, h, 0) as int] == 0);
            },
        }
    }
}

} // verus!
