//! Delayed clean-up of finished jobs: first their data, then their state.
use vstd::prelude::*;

verus! {

/// A job that reached a terminal state.
#[derive(Debug, PartialEq, Eq)]
pub struct FinishedJob {
    pub job_id: String,
    pub finished_at: u64,
    /// Whether its shuffle and intermediate data were removed.
    pub data_cleaned: bool,
}

/// The data sweep at `now` removes the job's data.
pub open spec fn data_due(j: FinishedJob, now: u64, data_interval: u64) -> bool {
    &&& data_interval > 0
    &&& !j.data_cleaned
    &&& now >= j.finished_at
    &&& now - j.finished_at >= data_interval
}

/// The state sweep at `now` removes the job's record: its interval has
/// passed, and its data is gone unless data clean-up is disabled.
pub open spec fn state_due(j: FinishedJob, now: u64, data_interval: u64, state_interval: u64) -> bool {
    &&& state_interval > 0
    &&& now >= j.finished_at
    &&& now - j.finished_at >= state_interval
    &&& (data_interval == 0 || j.data_cleaned)
}

/// Some job of `jobs` with id `id` is due for the data sweep.
pub open spec fn data_due_id(jobs: Seq<FinishedJob>, id: Seq<char>, now: u64, data_interval: u64) -> bool {
    exists|i: int| 0 <= i < jobs.len() && #[trigger] jobs[i].job_id@ == id && data_due(jobs[i], now, data_interval)
}

/// Some job of `jobs` with id `id` is due for the state sweep.
pub open spec fn state_due_id(
    jobs: Seq<FinishedJob>,
    id: Seq<char>,
    now: u64,
    data_interval: u64,
    state_interval: u64,
) -> bool {
    exists|i: int|
        0 <= i < jobs.len() && #[trigger] jobs[i].job_id@ == id && state_due(
            jobs[i],
            now,
            data_interval,
            state_interval,
        )
}

pub open spec fn has_id(ids: Seq<String>, id: Seq<char>) -> bool {
    exists|k: int| 0 <= k < ids.len() && #[trigger] ids[k]@ == id
}

/// Finished jobs awaiting clean-up, with the two delays (0 disables a sweep).
pub struct CleanupScheduler {
    jobs: Vec<FinishedJob>,
    data_interval: u64,
    state_interval: u64,
}

impl CleanupScheduler {
    pub closed spec fn view(&self) -> Seq<FinishedJob> {
        self.jobs@
    }

    pub closed spec fn data_interval_spec(&self) -> u64 {
        self.data_interval
    }

    pub closed spec fn state_interval_spec(&self) -> u64 {
        self.state_interval
    }

    pub fn new(data_interval: u64, state_interval: u64) -> (r: CleanupScheduler)
        ensures
            r@.len() == 0,
            r.data_interval_spec() == data_interval,
            r.state_interval_spec() == state_interval,
    {
        CleanupScheduler { jobs: Vec::new(), data_interval, state_interval }
    }

    pub fn len(&self) -> (r: usize)
        ensures
            r == self@.len(),
    {
        self.jobs.len()
    }

    /// Registers a job that reached a terminal state at `at`.
    pub fn job_finished(&mut self, job_id: String, at: u64)
        ensures
            final(self).data_interval_spec() == old(self).data_interval_spec(),
            final(self).state_interval_spec() == old(self).state_interval_spec(),
            final(self)@ == old(self)@.push(FinishedJob { job_id, finished_at: at, data_cleaned: false }),
    {
        self.jobs.push(FinishedJob { job_id, finished_at: at, data_cleaned: false });
    }

    /// The data sweep at `now`: marks the data of every due job removed and
    /// returns their ids.  Running it again at the same time does nothing.
    pub fn sweep_data(&mut self, now: u64) -> (cleaned: Vec<String>)
        ensures
            final(self).data_interval_spec() == old(self).data_interval_spec(),
            final(self).state_interval_spec() == old(self).state_interval_spec(),
            final(self)@.len() == old(self)@.len(),
            forall|i: int|
                0 <= i < old(self)@.len() ==> if data_due(
                    #[trigger] old(self)@[i],
                    now,
                    old(self).data_interval_spec(),
                ) {
                    final(self)@[i] == FinishedJob { data_cleaned: true, ..old(self)@[i] }
                } else {
                    final(self)@[i] == old(self)@[i]
                },
            forall|i: int|
                0 <= i < final(self)@.len() ==> !data_due(
                    #[trigger] final(self)@[i],
                    now,
                    final(self).data_interval_spec(),
                ),
            cleaned@.len() <= old(self)@.len(),
            forall|k: int|
                0 <= k < cleaned@.len() ==> data_due_id(
                    old(self)@,
                    #[trigger] cleaned@[k]@,
                    now,
                    old(self).data_interval_spec(),
                ),
            forall|i: int|
                0 <= i < old(self)@.len() && data_due(#[trigger] old(self)@[i], now, old(self).data_interval_spec())
                    ==> has_id(cleaned@, old(self)@[i].job_id@),
    {
        let ghost o = self.jobs@;
        let ghost di = self.data_interval;
        let ghost si = self.state_interval;
        let mut cleaned: Vec<String> = Vec::new();
        let mut i: usize = 0;
        while i < self.jobs.len()
            invariant
                self.data_interval == di,
                self.state_interval == si,
                0 <= i <= self.jobs@.len() == o.len(),
                cleaned@.len() <= i,
                forall|j: int| i <= j < o.len() ==> #[trigger] self.jobs@[j] == o[j],
                forall|j: int|
                    0 <= j < i ==> if data_due(#[trigger] o[j], now, self.data_interval) {
                        self.jobs@[j] == FinishedJob { data_cleaned: true, ..o[j] }
                    } else {
                        self.jobs@[j] == o[j]
                    },
                forall|k: int|
                    0 <= k < cleaned@.len() ==> data_due_id(o, #[trigger] cleaned@[k]@, now, self.data_interval),
                forall|j: int|
                    0 <= j < i && data_due(#[trigger] o[j], now, self.data_interval) ==> has_id(
                        cleaned@,
                        o[j].job_id@,
                    ),
            decreases o.len() - i,
        {
            let due = {
                let j = &self.jobs[i];
                self.data_interval > 0 && !j.data_cleaned && now >= j.finished_at && now - j.finished_at
                    >= self.data_interval
            };
            if due {
                let ghost before = cleaned@;
                let id = self.jobs[i].job_id.clone();
                cleaned.push(self.jobs[i].job_id.clone());
                let done = FinishedJob {
                    job_id: id,
                    finished_at: self.jobs[i].finished_at,
                    data_cleaned: true,
                };
                self.jobs.set(i, done);
                proof {
                    assert(cleaned@[before.len() as int]@ == o[i as int].job_id@);
                    assert forall|j: int|
                        0 <= j < i + 1 && data_due(#[trigger] o[j], now, self.data_interval) implies has_id(
                        cleaned@,
                        o[j].job_id@,
                    ) by {
                        if j < i {
                            let k = choose|k: int| 0 <= k < before.len() && #[trigger] before[k]@ == o[j].job_id@;
                            assert(cleaned@[k] == before[k]);
                        }
                    }
                    assert forall|k: int| 0 <= k < cleaned@.len() implies data_due_id(
                        o,
                        #[trigger] cleaned@[k]@,
                        now,
                        self.data_interval,
                    ) by {
                        if k < before.len() {
                            assert(cleaned@[k] == before[k]);
                        } else {
                            assert(o[i as int].job_id@ == cleaned@[k]@);
                        }
                    }
                }
            }
            i = i + 1;
        }
        proof {
            assert forall|j: int| 0 <= j < self.jobs@.len() implies !data_due(
                #[trigger] self.jobs@[j],
                now,
                self.data_interval,
            ) by {
                if data_due(o[j], now, self.data_interval) {
                } else {
                    assert(self.jobs@[j] == o[j]);
                }
            }
        }
        cleaned
    }

    /// The state sweep at `now`: removes the record of every due job and
    /// returns their ids.  A job's record is never removed while its data
    /// clean-up is enabled and has not run.
    pub fn sweep_state(&mut self, now: u64) -> (removed: Vec<String>)
        ensures
            final(self).data_interval_spec() == old(self).data_interval_spec(),
            final(self).state_interval_spec() == old(self).state_interval_spec(),
            forall|j: FinishedJob|
                old(self)@.contains(j) && !state_due(
                    j,
                    now,
                    old(self).data_interval_spec(),
                    old(self).state_interval_spec(),
                ) ==> #[trigger] final(self)@.contains(j),
            forall|j: FinishedJob|
                #[trigger] final(self)@.contains(j) ==> old(self)@.contains(j) && !state_due(
                    j,
                    now,
                    old(self).data_interval_spec(),
                    old(self).state_interval_spec(),
                ),
            forall|k: int|
                0 <= k < removed@.len() ==> state_due_id(
                    old(self)@,
                    #[trigger] removed@[k]@,
                    now,
                    old(self).data_interval_spec(),
                    old(self).state_interval_spec(),
                ),
            forall|i: int|
                0 <= i < old(self)@.len() && state_due(
                    #[trigger] old(self)@[i],
                    now,
                    old(self).data_interval_spec(),
                    old(self).state_interval_spec(),
                ) ==> has_id(removed@, old(self)@[i].job_id@),
    {
        let mut rest: Vec<FinishedJob> = Vec::new();
        std::mem::swap(&mut self.jobs, &mut rest);
        let ghost o = rest@;
        let n = rest.len();
        let ghost di = self.data_interval;
        let ghost si = self.state_interval;
        let mut removed: Vec<String> = Vec::new();
        let mut i: usize = 0;
        while rest.len() > 0
            invariant
                self.data_interval == di,
                self.state_interval == si,
                i + rest@.len() == o.len(),
                rest@ == o.subrange(i as int, o.len() as int),
                forall|j: FinishedJob|
                    #[trigger] o.subrange(0, i as int).contains(j) && !state_due(j, now, self.data_interval, self.state_interval)
                        ==> self.jobs@.contains(j),
                forall|j: FinishedJob|
                    #[trigger] self.jobs@.contains(j) ==> o.contains(j) && !state_due(
                        j,
                        now,
                        self.data_interval,
                        self.state_interval,
                    ),
                n == o.len(),
                forall|k: int|
                    0 <= k < removed@.len() ==> state_due_id(
                        o,
                        #[trigger] removed@[k]@,
                        now,
                        self.data_interval,
                        self.state_interval,
                    ),
                forall|j: int|
                    0 <= j < i && state_due(#[trigger] o[j], now, self.data_interval, self.state_interval)
                        ==> has_id(removed@, o[j].job_id@),
            decreases rest@.len(),
        {
            let ghost before_jobs = self.jobs@;
            let ghost before = removed@;
            let job = rest.remove(0);
            assert(job == o[i as int]);
            let due = self.state_interval > 0 && now >= job.finished_at && now - job.finished_at
                >= self.state_interval && (self.data_interval == 0 || job.data_cleaned);
            if due {
                removed.push(job.job_id);
                proof {
                    assert(removed@[before.len() as int]@ == o[i as int].job_id@);
                    assert forall|j: int|
                        0 <= j < i + 1 && state_due(#[trigger] o[j], now, self.data_interval, self.state_interval)
                            implies has_id(removed@, o[j].job_id@) by {
                        if j < i {
                            let k = choose|k: int| 0 <= k < before.len() && #[trigger] before[k]@ == o[j].job_id@;
                            assert(removed@[k] == before[k]);
                        }
                    }
                    assert forall|k: int| 0 <= k < removed@.len() implies state_due_id(
                        o,
                        #[trigger] removed@[k]@,
                        now,
                        self.data_interval,
                        self.state_interval,
                    ) by {
                        if k < before.len() {
                            assert(removed@[k] == before[k]);
                        } else {
                            assert(o[i as int].job_id@ == removed@[k]@);
                        }
                    }
                }
            } else {
                self.jobs.push(job);
                proof {
                    assert(self.jobs@[before_jobs.len() as int] == o[i as int]);
                }
            }
            proof {
                assert(rest@ =~= o.subrange(i + 1, o.len() as int));
                assert forall|j: FinishedJob|
                    #[trigger] o.subrange(0, i + 1).contains(j) && !state_due(
                        j,
                        now,
                        self.data_interval,
                        self.state_interval,
                    ) implies self.jobs@.contains(j) by {
                    let w = choose|w: int| 0 <= w < i + 1 && #[trigger] o.subrange(0, i + 1)[w] == j;
                    if w < i {
                        assert(o.subrange(0, i as int)[w] == j);
                        assert(o.subrange(0, i as int).contains(j));
                        let v = choose|v: int| 0 <= v < before_jobs.len() && #[trigger] before_jobs[v] == j;
                        assert(self.jobs@[v] == j);
                    } else {
                        assert(self.jobs@[before_jobs.len() as int] == j);
                    }
                }
                assert forall|j: FinishedJob| #[trigger] self.jobs@.contains(j) implies o.contains(j)
                    && !state_due(j, now, self.data_interval, self.state_interval) by {
                    let v = choose|v: int| 0 <= v < self.jobs@.len() && #[trigger] self.jobs@[v] == j;
                    if v < before_jobs.len() {
                        assert(before_jobs[v] == j);
                        assert(before_jobs.contains(j));
                    } else {
                        assert(o[i as int] == j);
                    }
                }
            }
            i = i + 1;
        }
        proof {
            assert(o.subrange(0, o.len() as int) =~= o);
        }
        removed
    }
}

/// Clean-up ordering: with both sweeps enabled, a job whose state the state
/// sweep removes has had its data removed by the data sweep already, and the
/// data sweep only removes data once the data interval has passed.
pub proof fn lemma_state_after_data(
    j: FinishedJob,
    now: u64,
    data_interval: u64,
    state_interval: u64,
)
    requires
        data_interval > 0,
        state_interval > 0,
        state_due(j, now, data_interval, state_interval),
    ensures
        j.data_cleaned,
        !data_due(j, now, data_interval),
{
}

} // verus!
