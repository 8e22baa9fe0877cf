//! The job queue and its correlation table.
//!
//! A connection handler enqueues a request together with the handle on which
//! it awaits the decision; the queue assigns a job id that no live job holds,
//! remembers the handle under that id, and keeps the job in a FIFO backlog
//! until an idle worker takes it. The decision is routed back by id: the
//! first of `send_response` and `remove_job` to reach an id resolves it, and
//! every later attempt is a no-op.
use crate::decision::WorkerRequest;
use std::collections::HashMap;
use std::collections::VecDeque;
use vstd::prelude::*;

verus! {

broadcast use vstd::std_specs::hash::group_hash_axioms;

/// Relies on `rand::random`: a value drawn from the thread-local generator.
/// Nothing is promised of it; job ids are checked against the live ones.
pub assume_specification<T>[ rand::random::<T> ]() -> (r: T)
    where
        rand::distributions::Standard: rand::distributions::Distribution<T>,
;

/// The number of distinct job ids.
pub const ID_SPACE: u64 = 0x1_0000_0000;

/// What one worker is doing.
#[derive(Clone, Copy, Debug, PartialEq, Eq, Structural)]
pub enum WorkerSlot {
    /// The worker was removed from the pool; its index is not reused.
    Retired,
    /// The worker waits for a job.
    Idle,
    /// The worker runs the job with this id inside its sandbox.
    Busy(u32),
}

#[derive(Debug, PartialEq, Eq, Structural)]
pub enum QueueError {
    /// No worker is registered to consume the job.
    NoWorkersAvailable,
    /// Live jobs and workers together could exhaust the id space.
    NoFreeJobId,
}

pub struct Queue<S, H> {
    workers: Vec<WorkerSlot>,
    backlog: VecDeque<WorkerRequest<S>>,
    returners: HashMap<u32, H>,
}

/// The effect of one queue operation on the correlation table.
pub enum Effect<H> {
    /// The table is left as it was.
    Keep,
    /// A fresh id is registered with the handle awaiting its decision.
    Register(u32, H),
    /// The entry under the id, if any, is taken out: delivered or canceled.
    Resolve(u32),
}

pub open spec fn apply_effect<H>(m: Map<u32, H>, e: Effect<H>) -> Map<u32, H> {
    match e {
        Effect::Keep => m,
        Effect::Register(id, h) => m.insert(id, h),
        Effect::Resolve(id) => m.remove(id),
    }
}

/// An effect that the queue can produce: it registers only ids not in the table.
pub open spec fn effect_allowed<H>(m: Map<u32, H>, e: Effect<H>) -> bool {
    match e {
        Effect::Register(id, _) => !m.contains_key(id),
        _ => true,
    }
}

/// The table after a run of effects.
pub open spec fn apply_all<H>(m: Map<u32, H>, run: Seq<Effect<H>>) -> Map<u32, H>
    decreases run.len(),
{
    if run.len() == 0 {
        m
    } else {
        apply_effect(apply_all(m, run.drop_last()), run.last())
    }
}

/// Every effect of the run is one the queue can produce at that point.
pub open spec fn run_allowed<H>(m: Map<u32, H>, run: Seq<Effect<H>>) -> bool
    decreases run.len(),
{
    if run.len() == 0 {
        true
    } else {
        run_allowed(m, run.drop_last()) && effect_allowed(apply_all(m, run.drop_last()), run.last())
    }
}

/// How many effects of the run resolve `id` while it is in the table.
pub open spec fn resolutions<H>(m: Map<u32, H>, run: Seq<Effect<H>>, id: u32) -> nat
    decreases run.len(),
{
    if run.len() == 0 {
        0
    } else {
        let before = apply_all(m, run.drop_last());
        resolutions(m, run.drop_last(), id) + if run.last() == Effect::<H>::Resolve(id)
            && before.contains_key(id) {
            1nat
        } else {
            0nat
        }
    }
}

/// Whether the run registers `id` anew.
pub open spec fn registers<H>(run: Seq<Effect<H>>, id: u32) -> bool {
    exists|i: int| 0 <= i < run.len() && run[i] is Register && run[i]->Register_0 == id
}

/// Once a job is registered, any run of queue operations that does not hand
/// its id out again resolves it exactly once if it leaves the table, and not
/// at all if the job is still waiting: no decision is delivered twice, none is
/// both delivered and canceled, and no entry disappears unresolved.
pub proof fn lemma_resolved_exactly_once<H>(m: Map<u32, H>, run: Seq<Effect<H>>, id: u32)
    requires
        m.contains_key(id),
        run_allowed(m, run),
        !registers(run, id),
    ensures
        resolutions(m, run, id) <= 1,
        resolutions(m, run, id) == 0 <==> apply_all(m, run).contains_key(id),
    decreases run.len(),
{
    if run.len() > 0 {
        let init = run.drop_last();
        assert(!registers(init, id)) by {
            if registers(init, id) {
                let i = choose|i: int| 0 <= i < init.len() && init[i] is Register
                    && init[i]->Register_0 == id;
                assert(run[i] == init[i]);
            }
        }
        lemma_resolved_exactly_once(m, init, id);
        assert(!(run.last() is Register && run.last()->Register_0 == id)) by {
            if run.last() is Register && run.last()->Register_0 == id {
                assert(run[run.len() - 1] == run.last());
            }
        }
    }
}

/// A backlog operation: a job arrives, or the oldest waiting job is taken.
pub enum BacklogStep<J> {
    Arrive(J),
    Take,
}

/// The backlog after the step.
pub open spec fn backlog_after<J>(b: Seq<J>, s: BacklogStep<J>) -> Seq<J> {
    match s {
        BacklogStep::Arrive(j) => b.push(j),
        BacklogStep::Take => if b.len() > 0 {
            b.drop_first()
        } else {
            b
        },
    }
}

/// The jobs that the step hands to a worker.
pub open spec fn taken_by<J>(b: Seq<J>, s: BacklogStep<J>) -> Seq<J> {
    match s {
        BacklogStep::Take => if b.len() > 0 {
            seq![b[0]]
        } else {
            seq![]
        },
        _ => seq![],
    }
}

pub open spec fn backlog_after_all<J>(b: Seq<J>, run: Seq<BacklogStep<J>>) -> Seq<J>
    decreases run.len(),
{
    if run.len() == 0 {
        b
    } else {
        backlog_after(backlog_after_all(b, run.drop_last()), run.last())
    }
}

/// The jobs handed to workers over the run, in the order they were handed out.
pub open spec fn taken_all<J>(b: Seq<J>, run: Seq<BacklogStep<J>>) -> Seq<J>
    decreases run.len(),
{
    if run.len() == 0 {
        seq![]
    } else {
        taken_all(b, run.drop_last()) + taken_by(backlog_after_all(b, run.drop_last()), run.last())
    }
}

/// The jobs of the run that arrive, in arrival order.
pub open spec fn arrivals<J>(run: Seq<BacklogStep<J>>) -> Seq<J>
    decreases run.len(),
{
    if run.len() == 0 {
        seq![]
    } else {
        arrivals(run.drop_last()) + match run.last() {
            BacklogStep::Arrive(j) => seq![j],
            BacklogStep::Take => seq![],
        }
    }
}

/// Workers drain the backlog in arrival order, whenever they join: over any
/// run of arrivals and takes, the jobs handed out followed by those still
/// waiting are exactly the jobs that were waiting followed by the arrivals.
pub proof fn lemma_backlog_fifo<J>(b: Seq<J>, run: Seq<BacklogStep<J>>)
    ensures
        taken_all(b, run) + backlog_after_all(b, run) == b + arrivals(run),
    decreases run.len(),
{
    if run.len() > 0 {
        let init = run.drop_last();
        lemma_backlog_fifo(b, init);
        let mid = backlog_after_all(b, init);
        match run.last() {
            BacklogStep::Arrive(j) => {
                assert(taken_all(b, run) + backlog_after_all(b, run) =~= (taken_all(b, init)
                    + mid).push(j));
                assert(b + arrivals(run) =~= (b + arrivals(init)).push(j));
            },
            BacklogStep::Take => {
                if mid.len() > 0 {
                    assert(taken_all(b, run) + backlog_after_all(b, run) =~= taken_all(b, init)
                        + mid);
                } else {
                    assert(taken_all(b, run) + backlog_after_all(b, run) =~= taken_all(b, init)
                        + mid);
                }
                assert(arrivals(run) =~= arrivals(init));
            },
        }
    } else {
        assert(taken_all(b, run) + backlog_after_all(b, run) =~= b + arrivals(run));
    }
}

/// The `k`-th id probed from `start`, counting upwards and wrapping around.
pub open spec fn probe(start: u32, k: int) -> u32 {
    if start + k < ID_SPACE {
        (start + k) as u32
    } else {
        (start + k - ID_SPACE) as u32
    }
}

/// The ids held by busy workers.
pub open spec fn busy_ids(slots: Seq<WorkerSlot>) -> Set<u32> {
    Set::new(|id: u32| exists|w: int| 0 <= w < slots.len() && slots[w] == WorkerSlot::Busy(id))
}

/// The id a slot holds, if it is busy.
pub open spec fn slot_id(s: WorkerSlot) -> u32 {
    match s {
        WorkerSlot::Busy(id) => id,
        _ => 0,
    }
}

proof fn lemma_busy_ids_bound(slots: Seq<WorkerSlot>)
    ensures
        busy_ids(slots).finite(),
        busy_ids(slots).len() <= slots.len(),
{
    let ks = slots.map_values(|s: WorkerSlot| slot_id(s));
    assert forall|id: u32| busy_ids(slots).contains(id) implies ks.to_set().contains(id) by {
        let w = choose|w: int| 0 <= w < slots.len() && slots[w] == WorkerSlot::Busy(id);
        assert(ks[w] == id);
    }
    ks.lemma_cardinality_of_set();
    vstd::set_lib::lemma_len_subset(busy_ids(slots), ks.to_set());
}

impl<S, H> Queue<S, H> {
    /// The workers of the pool, by index.
    pub closed spec fn slots(&self) -> Seq<WorkerSlot> {
        self.workers@
    }

    /// The jobs waiting for a worker, oldest first.
    pub closed spec fn backlog(&self) -> Seq<WorkerRequest<S>> {
        self.backlog@
    }

    /// The correlation table: each unresolved job id with its awaiting handle.
    pub closed spec fn pending(&self) -> Map<u32, H> {
        self.returners@
    }

    /// Whether a worker is registered that can take jobs.
    pub open spec fn has_workers(&self) -> bool {
        exists|w: int| 0 <= w < self.slots().len() && self.slots()[w] != WorkerSlot::Retired
    }

    /// Whether `id` names a live job: one awaiting its decision or running.
    pub open spec fn in_use(&self, id: u32) -> bool {
        self.pending().contains_key(id) || busy_ids(self.slots()).contains(id)
    }

    /// Whether the queue has room for one more job id.
    pub open spec fn has_room(&self) -> bool {
        self.pending().len() + self.slots().len() < ID_SPACE
    }

    /// The jobs left after `id` is resolved: a queued copy of it is dropped.
    pub open spec fn backlog_without(&self, id: u32) -> Seq<WorkerRequest<S>> {
        self.backlog().filter(|j: WorkerRequest<S>| j.job_id != id)
    }

    pub closed spec fn wf(&self) -> bool {
        let b = self.backlog@;
        let s = self.workers@;
        &&& forall|i: int| 0 <= i < b.len() ==> self.returners@.contains_key(#[trigger] b[i].job_id)
        &&& forall|i: int, j: int|
            0 <= i < j < b.len() ==> #[trigger] b[i].job_id != #[trigger] b[j].job_id
        &&& forall|i: int| 0 <= i < b.len() ==> !busy_ids(s).contains(#[trigger] b[i].job_id)
        &&& forall|v: int, w: int|
            0 <= v < w < s.len() && #[trigger] s[v] is Busy && #[trigger] s[w] is Busy ==> s[v]
                != s[w]
    }

    /// An empty queue with no workers.
    pub fn new() -> (r: Self)
        ensures
            r.wf(),
            r.slots() == Seq::<WorkerSlot>::empty(),
            r.backlog() == Seq::<WorkerRequest<S>>::empty(),
            r.pending() == Map::<u32, H>::empty(),
    {
        Queue { workers: Vec::new(), backlog: VecDeque::new(), returners: HashMap::new() }
    }

    /// Registers an idle worker and returns its index.
    pub fn add_worker(&mut self) -> (r: usize)
        requires
            old(self).wf(),
        ensures
            final(self).wf(),
            r == old(self).slots().len(),
            final(self).slots() == old(self).slots().push(WorkerSlot::Idle),
            final(self).has_workers(),
            final(self).backlog() == old(self).backlog(),
            final(self).pending() == apply_effect(old(self).pending(), Effect::Keep),
    {
        let r = self.workers.len();
        self.workers.push(WorkerSlot::Idle);
        proof {
            assert(self.workers@[r as int] == WorkerSlot::Idle);
            assert forall|id: u32|
                busy_ids(self.workers@).contains(id) == busy_ids(old(self).workers@).contains(
                    id,
                ) by {
                if busy_ids(self.workers@).contains(id) {
                    let w = choose|w: int|
                        0 <= w < self.workers@.len() && self.workers@[w] == WorkerSlot::Busy(id);
                    assert(old(self).workers@[w] == WorkerSlot::Busy(id));
                }
                if busy_ids(old(self).workers@).contains(id) {
                    let w = choose|w: int|
                        0 <= w < old(self).workers@.len() && old(self).workers@[w]
                            == WorkerSlot::Busy(id);
                    assert(self.workers@[w] == WorkerSlot::Busy(id));
                }
            }
        }
        r
    }

    /// Retires the worker at `worker`. A job it was running stays in the
    /// table until its handler cancels it. Returns whether a worker was
    /// retired.
    pub fn remove_worker(&mut self, worker: usize) -> (r: bool)
        requires
            old(self).wf(),
        ensures
            final(self).wf(),
            r == (worker < old(self).slots().len() && old(self).slots()[worker as int]
                != WorkerSlot::Retired),
            r ==> final(self).slots() == old(self).slots().update(
                worker as int,
                WorkerSlot::Retired,
            ),
            !r ==> final(self).slots() == old(self).slots(),
            final(self).backlog() == old(self).backlog(),
            final(self).pending() == apply_effect(old(self).pending(), Effect::Keep),
    {
        if worker < self.workers.len() && self.workers[worker] != WorkerSlot::Retired {
            self.workers.set(worker, WorkerSlot::Retired);
            proof {
                assert forall|id: u32| busy_ids(self.workers@).contains(id) implies busy_ids(
                    old(self).workers@,
                ).contains(id) by {
                    let w = choose|w: int|
                        0 <= w < self.workers@.len() && self.workers@[w] == WorkerSlot::Busy(id);
                    assert(old(self).workers@[w] == WorkerSlot::Busy(id));
                }
            }
            true
        } else {
            false
        }
    }

    /// Whether `id` is held by a busy worker.
    fn running(&self, id: u32) -> (r: bool)
        ensures
            r == busy_ids(self.slots()).contains(id),
    {
        let mut w: usize = 0;
        while w < self.workers.len()
            invariant
                w <= self.workers@.len(),
                forall|v: int| 0 <= v < w ==> self.workers@[v] != WorkerSlot::Busy(id),
            decreases self.workers@.len() - w,
        {
            if self.workers[w] == WorkerSlot::Busy(id) {
                return true;
            }
            w += 1;
        }
        false
    }

    /// Whether `id` names a live job.
    fn id_in_use(&self, id: u32) -> (r: bool)
        ensures
            r == self.in_use(id),
    {
        self.returners.contains_key(&id) || self.running(id)
    }

    /// An id that no live job holds: a random draw, then the ids above it in turn.
    fn fresh_job_id(&self) -> (r: u32)
        requires
            self.has_room(),
        ensures
            !self.in_use(r),
    {
        let ghost live = Set::new(|id: u32| self.in_use(id));
        proof {
            lemma_busy_ids_bound(self.slots());
            assert(live =~= self.pending().dom().union(busy_ids(self.slots())));
            vstd::set_lib::lemma_len_union(self.pending().dom(), busy_ids(self.slots()));
        }
        let start: u32 = rand::random::<u32>();
        let mut c: u32 = start;
        let ghost mut probed: Seq<u32> = Seq::empty();
        while self.id_in_use(c)
            invariant
                live == Set::new(|id: u32| self.in_use(id)),
                live.finite(),
                live.len() < ID_SPACE,
                probed.len() <= live.len(),
                probed.no_duplicates(),
                forall|i: int|
                    0 <= i < probed.len() ==> #[trigger] probed[i] == probe(start, i)
                        && live.contains(probed[i]),
                c == probe(start, probed.len() as int),
            decreases live.len() - probed.len(),
        {
            proof {
                let k = probed.len() as int;
                assert forall|i: int| 0 <= i < k implies probed[i] != c by {
                    assert(probed[i] == probe(start, i));
                }
                let prev = probed;
                probed = probed.push(c);
                assert forall|i: int| 0 <= i < probed.len() implies #[trigger] probed[i] == probe(
                    start,
                    i,
                ) && live.contains(probed[i]) by {
                    if i < k {
                        assert(probed[i] == prev[i]);
                    }
                }
                assert forall|x: u32| probed.to_set().contains(x) implies live.contains(x) by {
                    let i = choose|i: int| 0 <= i < probed.len() && probed[i] == x;
                }
                probed.unique_seq_to_set();
                vstd::set_lib::lemma_len_subset(probed.to_set(), live);
            }
            c = if c == u32::MAX {
                0
            } else {
                c + 1
            };
        }
        c
    }

    /// Registers a job for `value`: assigns it an id that no live job holds,
    /// remembers `returner` under that id and appends the job to the backlog.
    /// Fails fast when no worker is registered.
    pub fn enqueue(&mut self, value: S, returner: H) -> (r: Result<u32, QueueError>)
        requires
            old(self).wf(),
        ensures
            final(self).wf(),
            r is Ok <==> old(self).has_workers() && old(self).has_room(),
            r == Err::<u32, QueueError>(QueueError::NoWorkersAvailable) <==> !old(
                self,
            ).has_workers(),
            r == Err::<u32, QueueError>(QueueError::NoFreeJobId) <==> old(self).has_workers()
                && !old(self).has_room(),
            r is Err ==> final(self).slots() == old(self).slots() && final(self).backlog() == old(
                self,
            ).backlog() && final(self).pending() == apply_effect(
                old(self).pending(),
                Effect::Keep,
            ),
            r matches Ok(id) ==> {
                &&& !old(self).in_use(id)
                &&& effect_allowed(old(self).pending(), Effect::Register(id, returner))
                &&& final(self).pending() == apply_effect(
                    old(self).pending(),
                    Effect::Register(id, returner),
                )
                &&& final(self).backlog() == backlog_after(
                    old(self).backlog(),
                    BacklogStep::Arrive(WorkerRequest { job_id: id, value }),
                )
                &&& final(self).slots() == old(self).slots()
            },
    {
        let mut any = false;
        let mut w: usize = 0;
        while w < self.workers.len()
            invariant
                w <= self.workers@.len(),
                any == exists|v: int| 0 <= v < w && self.workers@[v] != WorkerSlot::Retired,
            decreases self.workers@.len() - w,
        {
            if self.workers[w] != WorkerSlot::Retired {
                any = true;
            }
            w += 1;
        }
        if !any {
            return Err(QueueError::NoWorkersAvailable);
        }
        let slots = self.workers.len() as u64;
        if slots >= ID_SPACE || self.returners.len() as u64 >= ID_SPACE - slots {
            return Err(QueueError::NoFreeJobId);
        }
        let id = self.fresh_job_id();
        self.returners.insert(id, returner);
        self.backlog.push_back(WorkerRequest { job_id: id, value });
        proof {
            let b = self.backlog@;
            assert forall|i: int| 0 <= i < b.len() implies self.returners@.contains_key(
                #[trigger] b[i].job_id,
            ) by {
                if i < b.len() - 1 {
                    assert(b[i] == old(self).backlog@[i]);
                }
            }
            assert forall|i: int, j: int| 0 <= i < j < b.len() implies #[trigger] b[i].job_id
                != #[trigger] b[j].job_id by {
                assert(b[i] == old(self).backlog@[i]);
                if j < b.len() - 1 {
                    assert(b[j] == old(self).backlog@[j]);
                }
            }
            assert forall|i: int| 0 <= i < b.len() implies !busy_ids(self.workers@).contains(
                #[trigger] b[i].job_id,
            ) by {
                if i < b.len() - 1 {
                    assert(b[i] == old(self).backlog@[i]);
                }
            }
        }
        Ok(id)
    }

    /// Hands the oldest waiting job to `worker`, which then runs it. A worker
    /// that is busy, retired or unknown gets nothing, so no sandbox ever runs
    /// more than one job at a time.
    pub fn next_job(&mut self, worker: usize) -> (r: Option<WorkerRequest<S>>)
        requires
            old(self).wf(),
        ensures
            final(self).wf(),
            final(self).pending() == apply_effect(old(self).pending(), Effect::Keep),
            r is Some <==> worker < old(self).slots().len() && old(self).slots()[worker as int]
                == WorkerSlot::Idle && old(self).backlog().len() > 0,
            r matches Some(job) ==> {
                &&& seq![job] == taken_by(old(self).backlog(), BacklogStep::Take)
                &&& final(self).backlog() == backlog_after(old(self).backlog(), BacklogStep::Take)
                &&& final(self).slots() == old(self).slots().update(
                    worker as int,
                    WorkerSlot::Busy(job.job_id),
                )
                &&& old(self).pending().contains_key(job.job_id)
            },
            r is None ==> final(self).slots() == old(self).slots() && final(self).backlog() == old(
                self,
            ).backlog(),
    {
        if worker >= self.workers.len() || self.workers[worker] != WorkerSlot::Idle {
            return None;
        }
        let job = match self.backlog.pop_front() {
            Some(job) => job,
            None => {
                return None;
            },
        };
        let ghost ob = old(self).backlog@;
        let ghost os = old(self).workers@;
        self.workers.set(worker, WorkerSlot::Busy(job.job_id));
        proof {
            let b = self.backlog@;
            let s = self.workers@;
            assert(ob[0] == job);
            assert forall|id: u32| #[trigger] busy_ids(s).contains(id) <==> (busy_ids(os).contains(
                id,
            ) || id == job.job_id) by {
                if busy_ids(s).contains(id) && id != job.job_id {
                    let w = choose|w: int| 0 <= w < s.len() && s[w] == WorkerSlot::Busy(id);
                    assert(os[w] == WorkerSlot::Busy(id));
                }
                if busy_ids(os).contains(id) {
                    let w = choose|w: int| 0 <= w < os.len() && os[w] == WorkerSlot::Busy(id);
                    assert(s[w] == WorkerSlot::Busy(id));
                }
                if id == job.job_id {
                    assert(s[worker as int] == WorkerSlot::Busy(id));
                }
            }
            assert forall|i: int| 0 <= i < b.len() implies self.returners@.contains_key(
                #[trigger] b[i].job_id,
            ) by {
                assert(b[i] == ob[i + 1]);
            }
            assert forall|i: int, j: int| 0 <= i < j < b.len() implies #[trigger] b[i].job_id
                != #[trigger] b[j].job_id by {
                assert(b[i] == ob[i + 1]);
                assert(b[j] == ob[j + 1]);
            }
            assert forall|i: int| 0 <= i < b.len() implies !busy_ids(s).contains(
                #[trigger] b[i].job_id,
            ) by {
                assert(b[i] == ob[i + 1]);
                assert(ob[0].job_id != ob[i + 1].job_id);
            }
            assert forall|v: int, w: int|
                0 <= v < w < s.len() && #[trigger] s[v] is Busy && #[trigger] s[w] is Busy implies s[v]
                != s[w] by {
                if v == worker {
                    assert(busy_ids(os).contains(s[w]->Busy_0));
                } else if w == worker {
                    assert(busy_ids(os).contains(s[v]->Busy_0));
                }
            }
            assert(seq![job] =~= taken_by(ob, BacklogStep::Take));
        }
        Some(job)
    }

    /// Marks `worker` idle once its sandbox has run the current job to the end.
    pub fn finish_job(&mut self, worker: usize)
        requires
            old(self).wf(),
        ensures
            final(self).wf(),
            worker < old(self).slots().len() && old(self).slots()[worker as int] is Busy
                ==> final(self).slots() == old(self).slots().update(
                worker as int,
                WorkerSlot::Idle,
            ),
            !(worker < old(self).slots().len() && old(self).slots()[worker as int] is Busy)
                ==> final(self).slots() == old(self).slots(),
            final(self).backlog() == old(self).backlog(),
            final(self).pending() == apply_effect(old(self).pending(), Effect::Keep),
    {
        if worker < self.workers.len() {
            if let WorkerSlot::Busy(_) = self.workers[worker] {
                self.workers.set(worker, WorkerSlot::Idle);
                proof {
                    assert forall|id: u32| busy_ids(self.workers@).contains(id) implies busy_ids(
                        old(self).workers@,
                    ).contains(id) by {
                        let w = choose|w: int|
                            0 <= w < self.workers@.len() && self.workers@[w] == WorkerSlot::Busy(
                                id,
                            );
                        assert(old(self).workers@[w] == WorkerSlot::Busy(id));
                    }
                }
            }
        }
    }

    /// Takes the entry for `id` out of the table, and a queued copy of the job
    /// out of the backlog.
    fn resolve(&mut self, id: u32) -> (r: Option<H>)
        requires
            old(self).wf(),
        ensures
            final(self).wf(),
            final(self).pending() == apply_effect(old(self).pending(), Effect::Resolve(id)),
            r == (if old(self).pending().contains_key(id) {
                Some(old(self).pending()[id])
            } else {
                None
            }),
            final(self).backlog() == old(self).backlog_without(id),
            final(self).slots() == old(self).slots(),
    {
        let r = self.returners.remove(&id);
        let ghost ob = self.backlog@;
        let mut i: usize = 0;
        while i < self.backlog.len() && self.backlog[i].job_id != id
            invariant
                self.backlog@ == ob,
                i <= ob.len(),
                forall|k: int| 0 <= k < i ==> (#[trigger] ob[k]).job_id != id,
            decreases ob.len() - i,
        {
            i += 1;
        }
        if i < self.backlog.len() {
            self.backlog.remove(i);
            proof {
                assert(ob[i as int].job_id == id);
                lemma_filter_drops_one(ob, i as int, id);
            }
        } else {
            proof {
                lemma_filter_keeps_all(ob, id);
            }
        }
        proof {
            let b = self.backlog@;
            assert forall|k: int| 0 <= k < b.len() implies self.returners@.contains_key(
                #[trigger] b[k].job_id,
            ) by {
                lemma_filter_member(ob, id, k);
            }
            assert forall|k: int, j: int| 0 <= k < j < b.len() implies #[trigger] b[k].job_id
                != #[trigger] b[j].job_id by {
                lemma_filter_distinct(ob, id, k, j);
            }
            assert forall|k: int| 0 <= k < b.len() implies !busy_ids(self.workers@).contains(
                #[trigger] b[k].job_id,
            ) by {
                lemma_filter_member(ob, id, k);
            }
        }
        r
    }

    /// Delivers a decision: takes the entry for `job_id` out of the table and
    /// returns the handle the decision is to be sent on. Returns `None` when the
    /// job was already resolved (its handler canceled it, or it was delivered).
    pub fn send_response(&mut self, job_id: u32) -> (r: Option<H>)
        requires
            old(self).wf(),
        ensures
            final(self).wf(),
            final(self).pending() == apply_effect(old(self).pending(), Effect::Resolve(job_id)),
            r == (if old(self).pending().contains_key(job_id) {
                Some(old(self).pending()[job_id])
            } else {
                None
            }),
            final(self).backlog() == old(self).backlog_without(job_id),
            final(self).slots() == old(self).slots(),
    {
        self.resolve(job_id)
    }

    /// Cancels a job whose handler gave up: its entry is removed without a
    /// delivery, and a queued copy is dropped. Returns whether the job was
    /// still unresolved.
    pub fn remove_job(&mut self, job_id: u32) -> (r: bool)
        requires
            old(self).wf(),
        ensures
            final(self).wf(),
            final(self).pending() == apply_effect(old(self).pending(), Effect::Resolve(job_id)),
            r == old(self).pending().contains_key(job_id),
            final(self).backlog() == old(self).backlog_without(job_id),
            final(self).slots() == old(self).slots(),
    {
        let r = self.resolve(job_id);
        r.is_some()
    }
}

/// No sandbox runs more than one job, and no job runs in more than one
/// sandbox: the jobs a worker runs form a set of at most one id, and two
/// workers never run the same job.
pub proof fn lemma_one_job_per_sandbox<S, H>(q: Queue<S, H>, v: int, w: int)
    requires
        q.wf(),
        0 <= v < q.slots().len(),
        0 <= w < q.slots().len(),
        v != w,
    ensures
        Set::new(|id: u32| q.slots()[w] == WorkerSlot::Busy(id)).finite(),
        Set::new(|id: u32| q.slots()[w] == WorkerSlot::Busy(id)).len() <= 1,
        q.slots()[v] is Busy && q.slots()[w] is Busy ==> q.slots()[v] != q.slots()[w],
{
    let running = Set::new(|id: u32| q.slots()[w] == WorkerSlot::Busy(id));
    match q.slots()[w] {
        WorkerSlot::Busy(id) => {
            assert(running =~= set![id]);
        },
        _ => {
            assert(running =~= Set::<u32>::empty());
        },
    }
    if v < w {
        assert(q.workers@[v] is Busy && q.workers@[w] is Busy ==> q.workers@[v] != q.workers@[w]);
    } else {
        assert(q.workers@[w] is Busy && q.workers@[v] is Busy ==> q.workers@[w] != q.workers@[v]);
    }
}

proof fn lemma_filter_keeps_all<S>(b: Seq<WorkerRequest<S>>, id: u32)
    requires
        forall|k: int| 0 <= k < b.len() ==> (#[trigger] b[k]).job_id != id,
    ensures
        b.filter(|j: WorkerRequest<S>| j.job_id != id) == b,
    decreases b.len(),
{
    reveal(Seq::filter);
    if b.len() > 0 {
        lemma_filter_keeps_all(b.drop_last(), id);
        assert(b.drop_last().push(b.last()) =~= b);
    } else {
        assert(b.filter(|j: WorkerRequest<S>| j.job_id != id) =~= b);
    }
}

proof fn lemma_filter_drops_one<S>(b: Seq<WorkerRequest<S>>, i: int, id: u32)
    requires
        0 <= i < b.len(),
        b[i].job_id == id,
        forall|k: int, j: int|
            0 <= k < j < b.len() ==> #[trigger] b[k].job_id != #[trigger] b[j].job_id,
    ensures
        b.filter(|j: WorkerRequest<S>| j.job_id != id) == b.remove(i),
    decreases b.len(),
{
    reveal(Seq::filter);
    if i == b.len() - 1 {
        lemma_filter_keeps_all(b.drop_last(), id);
        assert(b.remove(i) =~= b.drop_last());
    } else {
        lemma_filter_drops_one(b.drop_last(), i, id);
        assert(b.last() == b[b.len() - 1]);
        assert(b.remove(i) =~= b.drop_last().remove(i).push(b.last()));
    }
}

proof fn lemma_filter_member<S>(b: Seq<WorkerRequest<S>>, id: u32, k: int)
    requires
        0 <= k < b.filter(|j: WorkerRequest<S>| j.job_id != id).len(),
    ensures
        b.contains(b.filter(|j: WorkerRequest<S>| j.job_id != id)[k]),
        b.filter(|j: WorkerRequest<S>| j.job_id != id)[k].job_id != id,
    decreases b.len(),
{
    reveal(Seq::filter);
    let f = |j: WorkerRequest<S>| j.job_id != id;
    let fl = b.drop_last().filter(f);
    if f(b.last()) && k == fl.len() {
        assert(b.filter(f) == fl.push(b.last()));
        assert(b[b.len() - 1] == b.last());
    } else {
        if f(b.last()) {
            assert(b.filter(f) == fl.push(b.last()));
        } else {
            assert(b.filter(f) == fl);
        }
        assert(b.filter(f)[k] == fl[k]);
        lemma_filter_member(b.drop_last(), id, k);
        let x = choose|x: int| 0 <= x < b.drop_last().len() && b.drop_last()[x] == fl[k];
        assert(b[x] == fl[k]);
    }
}

proof fn lemma_filter_distinct<S>(b: Seq<WorkerRequest<S>>, id: u32, k: int, j: int)
    requires
        0 <= k < j < b.filter(|j: WorkerRequest<S>| j.job_id != id).len(),
        forall|x: int, y: int|
            0 <= x < y < b.len() ==> #[trigger] b[x].job_id != #[trigger] b[y].job_id,
    ensures
        b.filter(|j: WorkerRequest<S>| j.job_id != id)[k].job_id != b.filter(
            |j: WorkerRequest<S>| j.job_id != id,
        )[j].job_id,
    decreases b.len(),
{
    reveal(Seq::filter);
    let f = |j: WorkerRequest<S>| j.job_id != id;
    let fl = b.drop_last().filter(f);
    if f(b.last()) {
        assert(b.filter(f) == fl.push(b.last()));
        if j < fl.len() {
            lemma_filter_distinct(b.drop_last(), id, k, j);
        } else {
            assert(b.filter(f)[j] == b.last());
            assert(b.filter(f)[k] == fl[k]);
            lemma_filter_member(b.drop_last(), id, k);
            let x = choose|x: int| 0 <= x < b.drop_last().len() && b.drop_last()[x] == fl[k];
            assert(b[x] == fl[k]);
            assert(b[b.len() - 1] == b.last());
        }
    } else {
        assert(b.filter(f) == fl);
        lemma_filter_distinct(b.drop_last(), id, k, j);
    }
}

} // verus!
