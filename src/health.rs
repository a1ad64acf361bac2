//! Executor liveness: heartbeats, slot usage, and the
//! `Active -> Terminating -> Dead` lifecycle driven by timeouts.
use vstd::prelude::*;

verus! {

/// Lifecycle state of an executor.
#[derive(Debug, Clone, Copy, PartialEq, Eq, Structural)]
pub enum ExecutorState {
    Active,
    /// Draining: known but accepting no new tasks until the grace period ends.
    Terminating,
    Dead,
}

/// What the tracker knows of one executor.
#[derive(Debug)]
pub struct ExecutorRecord {
    pub id: String,
    pub last_heartbeat: u64,
    pub capacity: usize,
    /// Ids of the tasks running on the executor.
    pub in_flight: Vec<usize>,
    pub state: ExecutorState,
    /// When the executor entered `Terminating`.
    pub terminating_since: u64,
}

/// Free slots of an executor: none unless it is `Active`.
pub open spec fn free_slots(r: ExecutorRecord) -> nat {
    if r.state == ExecutorState::Active && r.in_flight@.len() < r.capacity {
        (r.capacity - r.in_flight@.len()) as nat
    } else {
        0
    }
}

/// The sweep at time `now` declares the executor dead.
pub open spec fn expires(r: ExecutorRecord, now: u64, timeout: u64, grace: u64) -> bool {
    match r.state {
        ExecutorState::Active => now > r.last_heartbeat && now - r.last_heartbeat > timeout,
        ExecutorState::Terminating => now > r.terminating_since && now - r.terminating_since > grace,
        ExecutorState::Dead => false,
    }
}

/// `n` is `o` turned `Dead` with its slots released.
pub open spec fn died(o: ExecutorRecord, n: ExecutorRecord) -> bool {
    &&& n.id == o.id
    &&& n.last_heartbeat == o.last_heartbeat
    &&& n.capacity == o.capacity
    &&& n.terminating_since == o.terminating_since
    &&& n.state == ExecutorState::Dead
    &&& n.in_flight@.len() == 0
}

pub open spec fn unique_ids(execs: Seq<ExecutorRecord>) -> bool {
    forall|i: int, j: int|
        0 <= i < execs.len() && 0 <= j < execs.len() && i != j ==> #[trigger] execs[i].id@
            != #[trigger] execs[j].id@
}

pub open spec fn knows(execs: Seq<ExecutorRecord>, id: Seq<char>) -> bool {
    exists|i: int| 0 <= i < execs.len() && #[trigger] execs[i].id@ == id
}

/// Records are never dropped or reordered, and a dead one never changes.
pub open spec fn keeps_dead(o: Seq<ExecutorRecord>, n: Seq<ExecutorRecord>) -> bool {
    &&& o.len() <= n.len()
    &&& forall|i: int| 0 <= i < o.len() ==> #[trigger] n[i].id@ == o[i].id@
    &&& forall|i: int| 0 <= i < o.len() && o[i].state == ExecutorState::Dead ==> #[trigger] n[i] == o[i]
}

/// Tasks on `e` never exceed its declared capacity.
pub open spec fn within_capacity(execs: Seq<ExecutorRecord>) -> bool {
    forall|i: int| 0 <= i < execs.len() ==> #[trigger] execs[i].in_flight@.len() <= execs[i].capacity
}

/// Tracks every executor that ever registered.
pub struct ExecutorHealthTracker {
    executors: Vec<ExecutorRecord>,
}

fn copy_ids(v: &Vec<usize>) -> (r: Vec<usize>)
    ensures
        r@ == v@,
{
    let r = v.clone();
    proof {
        assert(r@ =~= v@);
    }
    r
}

impl ExecutorHealthTracker {
    pub closed spec fn view(&self) -> Seq<ExecutorRecord> {
        self.executors@
    }

    /// Ids are unique, and a dead executor holds no task.
    pub open spec fn wf(&self) -> bool {
        &&& unique_ids(self@)
        &&& forall|i: int|
            0 <= i < self@.len() && #[trigger] self@[i].state == ExecutorState::Dead
                ==> self@[i].in_flight@.len() == 0
    }

    pub fn new() -> (r: ExecutorHealthTracker)
        ensures
            r.wf(),
            r@.len() == 0,
    {
        ExecutorHealthTracker { executors: Vec::new() }
    }

    fn find(&self, id: &String) -> (r: Option<usize>)
        ensures
            match r {
                Some(i) => i < self@.len() && self@[i as int].id@ == id@,
                None => !knows(self@, id@),
            },
    {
        let mut i: usize = 0;
        while i < self.executors.len()
            invariant
                0 <= i <= self@.len(),
                self@ == self.executors@,
                forall|k: int| 0 <= k < i ==> #[trigger] self@[k].id@ != id@,
            decreases self@.len() - i,
        {
            if self.executors[i].id == *id {
                return Some(i);
            }
            i = i + 1;
        }
        None
    }

    /// Free slots of executor `id`; 0 for an unknown, terminating or dead one.
    pub fn available_slots(&self, id: &String) -> (r: usize)
        requires
            self.wf(),
        ensures
            forall|i: int| 0 <= i < self@.len() && #[trigger] self@[i].id@ == id@ ==> r == free_slots(self@[i]),
            !knows(self@, id@) ==> r == 0,
    {
        match self.find(id) {
            Some(i) => {
                let rec = &self.executors[i];
                if rec.state == ExecutorState::Active && rec.in_flight.len() < rec.capacity {
                    rec.capacity - rec.in_flight.len()
                } else {
                    0
                }
            },
            None => 0,
        }
    }

    /// State of executor `id`, if it ever registered.
    pub fn executor_state(&self, id: &String) -> (r: Option<ExecutorState>)
        requires
            self.wf(),
        ensures
            forall|i: int| 0 <= i < self@.len() && #[trigger] self@[i].id@ == id@ ==> r == Some(self@[i].state),
            !knows(self@, id@) ==> r is None,
    {
        match self.find(id) {
            Some(i) => Some(self.executors[i].state),
            None => None,
        }
    }

    /// Records a heartbeat.  An unknown id registers as a new `Active`
    /// executor; a live one gets its timestamp and capacity refreshed without
    /// changing state (a terminating executor is not revived); a dead one is
    /// ignored, since it returns only under a new identity.
    pub fn record_heartbeat(&mut self, id: String, timestamp: u64, capacity: usize)
        requires
            old(self).wf(),
        ensures
            final(self).wf(),
            keeps_dead(old(self)@, final(self)@),
            knows(final(self)@, id@),
            !knows(old(self)@, id@) ==> final(self)@ == old(self)@.push(
                ExecutorRecord {
                    id: final(self)@.last().id,
                    last_heartbeat: timestamp,
                    capacity,
                    in_flight: final(self)@.last().in_flight,
                    state: ExecutorState::Active,
                    terminating_since: 0,
                },
            ) && final(self)@.last().id@ == id@ && final(self)@.last().in_flight@.len() == 0,
            forall|i: int|
                0 <= i < old(self)@.len() && #[trigger] old(self)@[i].id@ == id@ ==> {
                    &&& final(self)@.len() == old(self)@.len()
                    &&& forall|j: int| 0 <= j < old(self)@.len() && j != i ==> final(self)@[j] == old(self)@[j]
                    &&& if old(self)@[i].state == ExecutorState::Dead {
                        final(self)@[i] == old(self)@[i]
                    } else {
                        &&& final(self)@[i].id == old(self)@[i].id
                        &&& final(self)@[i].last_heartbeat == timestamp
                        &&& final(self)@[i].capacity == capacity
                        &&& final(self)@[i].in_flight@ == old(self)@[i].in_flight@
                        &&& final(self)@[i].state == old(self)@[i].state
                        &&& final(self)@[i].terminating_since == old(self)@[i].terminating_since
                    }
                },
    {
        match self.find(&id) {
            Some(i) => {
                if self.executors[i].state != ExecutorState::Dead {
                    let rec = ExecutorRecord {
                        id: self.executors[i].id.clone(),
                        last_heartbeat: timestamp,
                        capacity,
                        in_flight: copy_ids(&self.executors[i].in_flight),
                        state: self.executors[i].state,
                        terminating_since: self.executors[i].terminating_since,
                    };
                    self.executors.set(i, rec);
                }
                proof {
                    assert(self@[i as int].id@ == id@);
                }
            },
            None => {
                let ghost o = self@;
                self.executors.push(
                    ExecutorRecord {
                        id,
                        last_heartbeat: timestamp,
                        capacity,
                        in_flight: Vec::new(),
                        state: ExecutorState::Active,
                        terminating_since: 0,
                    },
                );
                proof {
                    assert(self@[o.len() as int].id@ == id@);
                }
            },
        }
    }

    /// The read view handed to the distribution engine: each executor's id
    /// and free slots, in registration order.
    pub fn slot_view(&self) -> (r: (Vec<String>, Vec<usize>))
        ensures
            r.0@.len() == self@.len(),
            r.1@.len() == self@.len(),
            forall|i: int| 0 <= i < self@.len() ==> #[trigger] r.0@[i] == self@[i].id,
            forall|i: int| 0 <= i < self@.len() ==> #[trigger] r.1@[i] == free_slots(self@[i]),
    {
        let mut ids: Vec<String> = Vec::new();
        let mut slots: Vec<usize> = Vec::new();
        let mut i: usize = 0;
        while i < self.executors.len()
            invariant
                0 <= i <= self@.len(),
                self@ == self.executors@,
                ids@.len() == i,
                slots@.len() == i,
                forall|k: int| 0 <= k < i ==> #[trigger] ids@[k] == self@[k].id,
                forall|k: int| 0 <= k < i ==> #[trigger] slots@[k] == free_slots(self@[k]),
            decreases self@.len() - i,
        {
            let rec = &self.executors[i];
            ids.push(rec.id.clone());
            let free = if rec.state == ExecutorState::Active && rec.in_flight.len() < rec.capacity {
                rec.capacity - rec.in_flight.len()
            } else {
                0
            };
            slots.push(free);
            i = i + 1;
        }
        (ids, slots)
    }

    /// Moves an `Active` executor to `Terminating` at time `now`; returns
    /// whether it did.  Any other executor is left as it is.
    pub fn mark_terminating(&mut self, id: &String, now: u64) -> (r: bool)
        requires
            old(self).wf(),
        ensures
            final(self).wf(),
            keeps_dead(old(self)@, final(self)@),
            final(self)@.len() == old(self)@.len(),
            r <==> exists|i: int|
                0 <= i < old(self)@.len() && #[trigger] old(self)@[i].id@ == id@ && old(self)@[i].state
                    == ExecutorState::Active,
            forall|i: int|
                0 <= i < old(self)@.len() ==> if r && #[trigger] old(self)@[i].id@ == id@ {
                    &&& final(self)@[i].id == old(self)@[i].id
                    &&& final(self)@[i].last_heartbeat == old(self)@[i].last_heartbeat
                    &&& final(self)@[i].capacity == old(self)@[i].capacity
                    &&& final(self)@[i].in_flight@ == old(self)@[i].in_flight@
                    &&& final(self)@[i].state == ExecutorState::Terminating
                    &&& final(self)@[i].terminating_since == now
                } else {
                    final(self)@[i] == old(self)@[i]
                },
    {
        match self.find(id) {
            Some(i) => {
                if self.executors[i].state == ExecutorState::Active {
                    let rec = ExecutorRecord {
                        id: self.executors[i].id.clone(),
                        last_heartbeat: self.executors[i].last_heartbeat,
                        capacity: self.executors[i].capacity,
                        in_flight: copy_ids(&self.executors[i].in_flight),
                        state: ExecutorState::Terminating,
                        terminating_since: now,
                    };
                    self.executors.set(i, rec);
                    true
                } else {
                    false
                }
            },
            None => false,
        }
    }

    /// Reserves a slot of executor `id` for task `task_id`.  Succeeds only
    /// when the executor is `Active` with a free slot.
    pub fn reserve(&mut self, id: &String, task_id: usize) -> (r: bool)
        requires
            old(self).wf(),
        ensures
            final(self).wf(),
            keeps_dead(old(self)@, final(self)@),
            final(self)@.len() == old(self)@.len(),
            within_capacity(old(self)@) ==> within_capacity(final(self)@),
            r <==> exists|i: int|
                0 <= i < old(self)@.len() && #[trigger] old(self)@[i].id@ == id@ && free_slots(
                    old(self)@[i],
                ) > 0,
            forall|i: int|
                0 <= i < old(self)@.len() ==> if r && #[trigger] old(self)@[i].id@ == id@ {
                    &&& final(self)@[i].id == old(self)@[i].id
                    &&& final(self)@[i].in_flight@ == old(self)@[i].in_flight@.push(task_id)
                    &&& final(self)@[i].state == old(self)@[i].state
                    &&& final(self)@[i].capacity == old(self)@[i].capacity
                    &&& final(self)@[i].last_heartbeat == old(self)@[i].last_heartbeat
                    &&& final(self)@[i].terminating_since == old(self)@[i].terminating_since
                } else {
                    final(self)@[i] == old(self)@[i]
                },
    {
        match self.find(id) {
            Some(i) => {
                if self.executors[i].state == ExecutorState::Active && self.executors[i].in_flight.len()
                    < self.executors[i].capacity {
                    let mut tasks = copy_ids(&self.executors[i].in_flight);
                    tasks.push(task_id);
                    let rec = ExecutorRecord {
                        id: self.executors[i].id.clone(),
                        last_heartbeat: self.executors[i].last_heartbeat,
                        capacity: self.executors[i].capacity,
                        in_flight: tasks,
                        state: ExecutorState::Active,
                        terminating_since: self.executors[i].terminating_since,
                    };
                    self.executors.set(i, rec);
                    true
                } else {
                    false
                }
            },
            None => false,
        }
    }

    /// Releases the slot that task `task_id` holds on executor `id`, when the
    /// completion of the task is reported.  A slot is released at most once:
    /// a task not in flight there is not released again.
    pub fn release(&mut self, id: &String, task_id: usize) -> (r: bool)
        requires
            old(self).wf(),
        ensures
            final(self).wf(),
            keeps_dead(old(self)@, final(self)@),
            final(self)@.len() == old(self)@.len(),
            within_capacity(old(self)@) ==> within_capacity(final(self)@),
            r <==> exists|i: int|
                0 <= i < old(self)@.len() && #[trigger] old(self)@[i].id@ == id@ && old(
                    self,
                )@[i].in_flight@.contains(task_id),
            forall|i: int|
                0 <= i < old(self)@.len() ==> if r && #[trigger] old(self)@[i].id@ == id@ {
                    &&& final(self)@[i].id == old(self)@[i].id
                    &&& exists|k: int|
                        0 <= k < old(self)@[i].in_flight@.len() && old(self)@[i].in_flight@[k] == task_id
                            && final(self)@[i].in_flight@ == old(self)@[i].in_flight@.remove(k)
                    &&& final(self)@[i].state == old(self)@[i].state
                    &&& final(self)@[i].capacity == old(self)@[i].capacity
                    &&& final(self)@[i].last_heartbeat == old(self)@[i].last_heartbeat
                    &&& final(self)@[i].terminating_since == old(self)@[i].terminating_since
                } else {
                    final(self)@[i] == old(self)@[i]
                },
    {
        match self.find(id) {
            Some(i) => {
                let mut k: usize = 0;
                let mut found = false;
                let n = self.executors[i].in_flight.len();
                while k < n && !found
                    invariant
                        i < self@.len(),
                        n == self@[i as int].in_flight@.len(),
                        0 <= k <= n,
                        found ==> k < n && self@[i as int].in_flight@[k as int] == task_id,
                        forall|j: int| 0 <= j < k ==> self@[i as int].in_flight@[j] != task_id,
                    decreases n - k + if found {
                        0int
                    } else {
                        1int
                    },
                {
                    if self.executors[i].in_flight[k] == task_id {
                        found = true;
                    } else {
                        k = k + 1;
                    }
                }
                if !found {
                    proof {
                        assert(!self@[i as int].in_flight@.contains(task_id));
                    }
                    return false;
                }
                let mut tasks = copy_ids(&self.executors[i].in_flight);
                tasks.remove(k);
                let rec = ExecutorRecord {
                    id: self.executors[i].id.clone(),
                    last_heartbeat: self.executors[i].last_heartbeat,
                    capacity: self.executors[i].capacity,
                    in_flight: tasks,
                    state: self.executors[i].state,
                    terminating_since: self.executors[i].terminating_since,
                };
                let ghost o = self@;
                self.executors.set(i, rec);
                proof {
                    assert(o[i as int].in_flight@.contains(task_id));
                    assert forall|j: int| 0 <= j < o.len() && #[trigger] o[j].id@ == id@ implies j == i by {}
                }
                true
            },
            None => false,
        }
    }

    /// The periodic sweep at time `now`: an `Active` executor silent for more
    /// than `timeout` seconds, or one `Terminating` for more than `grace`
    /// seconds, becomes `Dead` and its slots are released.  Returns the ids
    /// of the tasks that were in flight on them, to be re-queued.
    pub fn sweep(&mut self, now: u64, timeout: u64, grace: u64) -> (requeued: Vec<usize>)
        requires
            old(self).wf(),
        ensures
            final(self).wf(),
            keeps_dead(old(self)@, final(self)@),
            final(self)@.len() == old(self)@.len(),
            within_capacity(old(self)@) ==> within_capacity(final(self)@),
            forall|i: int|
                0 <= i < old(self)@.len() ==> if expires(#[trigger] old(self)@[i], now, timeout, grace) {
                    died(old(self)@[i], final(self)@[i])
                } else {
                    final(self)@[i] == old(self)@[i]
                },
            forall|i: int, k: int|
                0 <= i < old(self)@.len() && expires(old(self)@[i], now, timeout, grace) && 0 <= k
                    < old(self)@[i].in_flight@.len() ==> requeued@.contains(#[trigger] old(self)@[i].in_flight@[k]),
            forall|x: usize|
                #[trigger] requeued@.contains(x) ==> exists|i: int|
                    0 <= i < old(self)@.len() && expires(#[trigger] old(self)@[i], now, timeout, grace)
                        && old(self)@[i].in_flight@.contains(x),
    {
        let ghost o = self@;
        let mut requeued: Vec<usize> = Vec::new();
        let mut i: usize = 0;
        while i < self.executors.len()
            invariant
                0 <= i <= self@.len(),
                self@.len() == o.len(),
                unique_ids(o),
                forall|j: int|
                    0 <= j < o.len() && #[trigger] o[j].state == ExecutorState::Dead ==> o[j].in_flight@.len() == 0,
                forall|j: int| i <= j < o.len() ==> #[trigger] self@[j] == o[j],
                forall|j: int|
                    0 <= j < i ==> if expires(#[trigger] o[j], now, timeout, grace) {
                        died(o[j], self@[j])
                    } else {
                        self@[j] == o[j]
                    },
                forall|j: int, k: int|
                    0 <= j < i && expires(o[j], now, timeout, grace) && 0 <= k < o[j].in_flight@.len()
                        ==> requeued@.contains(#[trigger] o[j].in_flight@[k]),
                forall|x: usize|
                    #[trigger] requeued@.contains(x) ==> exists|j: int|
                        0 <= j < i && expires(#[trigger] o[j], now, timeout, grace) && o[j].in_flight@.contains(x),
            decreases o.len() - i,
        {
            let rec = &self.executors[i];
            let expired = match rec.state {
                ExecutorState::Active => now > rec.last_heartbeat && now - rec.last_heartbeat > timeout,
                ExecutorState::Terminating => now > rec.terminating_since && now - rec.terminating_since
                    > grace,
                ExecutorState::Dead => false,
            };
            if expired {
                let ghost before = requeued@;
                let mut tasks = copy_ids(&rec.in_flight);
                let ghost moved = tasks@;
                let dead = ExecutorRecord {
                    id: rec.id.clone(),
                    last_heartbeat: rec.last_heartbeat,
                    capacity: rec.capacity,
                    in_flight: Vec::new(),
                    state: ExecutorState::Dead,
                    terminating_since: rec.terminating_since,
                };
                requeued.append(&mut tasks);
                self.executors.set(i, dead);
                proof {
                    assert(requeued@ == before + moved);
                    assert forall|j: int, k: int|
                        0 <= j <= i && expires(o[j], now, timeout, grace) && 0 <= k
                            < o[j].in_flight@.len() implies requeued@.contains(#[trigger] o[j].in_flight@[k]) by {
                        if j == i {
                            assert(requeued@[before.len() + k] == o[j].in_flight@[k]);
                        } else {
                            let w = choose|w: int| 0 <= w < before.len() && before[w] == o[j].in_flight@[k];
                            assert(requeued@[w] == o[j].in_flight@[k]);
                        }
                    }
                    assert forall|x: usize| #[trigger] requeued@.contains(x) implies exists|j: int|
                        0 <= j < i + 1 && expires(#[trigger] o[j], now, timeout, grace) && o[j].in_flight@.contains(
                            x,
                        ) by {
                        let w = choose|w: int| 0 <= w < requeued@.len() && requeued@[w] == x;
                        if w < before.len() {
                            assert(before.contains(x));
                        } else {
                            assert(moved[w - before.len()] == x);
                            assert(o[i as int].in_flight@.contains(x));
                        }
                    }
                }
            }
            i = i + 1;
        }
        proof {
            assert forall|j: int|
                0 <= j < self@.len() && #[trigger] self@[j].state == ExecutorState::Dead implies self@[j].in_flight@.len()
                == 0 by {
                if !expires(o[j], now, timeout, grace) {
                    assert(self@[j] == o[j]);
                }
            }
            assert forall|a: int, b: int|
                0 <= a < self@.len() && 0 <= b < self@.len() && a != b implies #[trigger] self@[a].id@
                != #[trigger] self@[b].id@ by {
                assert(self@[a].id == o[a].id && self@[b].id == o[b].id);
            }
            assert forall|j: int| 0 <= j < o.len() && o[j].state == ExecutorState::Dead implies #[trigger] self@[j]
                == o[j] by {}
        }
        requeued
    }
}

/// Dead-executor exclusion: a dead executor has no free slot, and no
/// operation on the tracker changes a dead record, so along any chain of
/// operations that each keep dead records (as every mutating method of the
/// tracker ensures) the executor keeps reporting 0 available slots.
pub proof fn lemma_dead_stays_excluded(
    s0: Seq<ExecutorRecord>,
    s1: Seq<ExecutorRecord>,
    s2: Seq<ExecutorRecord>,
    i: int,
)
    requires
        0 <= i < s0.len(),
        s0[i].state == ExecutorState::Dead,
        keeps_dead(s0, s1),
        keeps_dead(s1, s2),
    ensures
        keeps_dead(s0, s2),
        s2[i] == s0[i],
        s2[i].state == ExecutorState::Dead,
        free_slots(s2[i]) == 0,
{
    assert(s1[i] == s0[i]);
    assert(s2[i] == s1[i]);
    assert forall|j: int| 0 <= j < s0.len() implies #[trigger] s2[j].id@ == s0[j].id@ by {
        assert(s1[j].id@ == s0[j].id@);
    }
    assert forall|j: int| 0 <= j < s0.len() && s0[j].state == ExecutorState::Dead implies #[trigger] s2[j]
        == s0[j] by {
        assert(s1[j] == s0[j]);
    }
}

} // verus!
