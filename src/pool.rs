use vstd::prelude::*;
use std::collections::VecDeque;

verus! {

/// Where one worker of a pool stands.
#[derive(Clone, Copy, Debug, PartialEq, Eq, Structural)]
pub enum WorkerStatus {
    /// Waiting for a job.
    Idle,
    /// Running the job it claimed last.
    Executing,
    /// Gone: the pool was closed and no job was left for it.
    ShutDown,
}

/// What a worker that asks for work is told.
pub enum Claim<T> {
    /// Run this job; it is handed to no other worker.
    Job(T),
    /// No job yet: wait for a submission or for shutdown.
    Wait,
    /// The pool is closed and drained: exit.
    Stop,
}

/// The abstract value of a pool. Jobs are known by their position in `submitted`.
pub struct PoolModel<T> {
    /// Every job the pool accepted, in submission order.
    pub submitted: Seq<T>,
    /// How many jobs have been claimed: always the first ones of `submitted`.
    pub claimed: nat,
    /// For each claimed job, the worker that claimed it.
    pub claimer: Seq<nat>,
    /// For each executing worker, the job it runs.
    pub running: Map<nat, nat>,
    /// The jobs whose execution has ended.
    pub finished: Set<nat>,
    /// The status of each worker; the pool's size is fixed.
    pub workers: Seq<WorkerStatus>,
    /// Set once shutdown began: no job is accepted after it.
    pub closed: bool,
}

/// The pool's bookkeeping holds together: each claimed job was claimed by one worker of
/// the pool and is either finished or being run by that worker, and an executing worker
/// runs exactly one unfinished job.
pub open spec fn model_wf<T>(p: PoolModel<T>) -> bool {
    &&& p.workers.len() > 0
    &&& p.claimed <= p.submitted.len()
    &&& p.claimer.len() == p.claimed
    &&& forall|k: int| 0 <= k < p.claimed ==> #[trigger] p.claimer[k] < p.workers.len()
    &&& forall|w: nat| #[trigger] p.running.dom().contains(w) <==> (w < p.workers.len()
        && p.workers[w as int] == WorkerStatus::Executing)
    &&& forall|w: nat| #[trigger] p.running.dom().contains(w) ==> p.running[w] < p.claimed
        && p.claimer[p.running[w] as int] == w && !p.finished.contains(p.running[w])
    &&& forall|k: nat| #[trigger] p.finished.contains(k) ==> k < p.claimed
    &&& forall|k: int|
        0 <= k < p.claimed && !p.finished.contains(k as nat) ==> p.running.dom().contains(
            #[trigger] p.claimer[k],
        ) && p.running[p.claimer[k]] == k
    &&& forall|w: int| 0 <= w < p.workers.len() && #[trigger] p.workers[w] == WorkerStatus::ShutDown
        ==> p.closed
}

/// A new pool of `size` idle workers and no job.
pub open spec fn new_spec<T>(size: nat) -> PoolModel<T> {
    PoolModel {
        submitted: Seq::empty(),
        claimed: 0,
        claimer: Seq::empty(),
        running: Map::empty(),
        finished: Set::empty(),
        workers: Seq::new(size, |i: int| WorkerStatus::Idle),
        closed: false,
    }
}

/// Submitting a job: accepted (and queued last) unless shutdown has begun.
pub open spec fn submit_spec<T>(p: PoolModel<T>, job: T) -> (PoolModel<T>, bool) {
    if p.closed {
        (p, false)
    } else {
        (PoolModel { submitted: p.submitted.push(job), ..p }, true)
    }
}

/// Idle worker `w` asks for work: it gets the oldest unclaimed job, or waits while the
/// pool is open, or shuts down once the pool is closed and drained.
pub open spec fn claim_spec<T>(p: PoolModel<T>, w: nat) -> (PoolModel<T>, Claim<T>) {
    if p.claimed < p.submitted.len() {
        (
            PoolModel {
                claimed: p.claimed + 1,
                claimer: p.claimer.push(w),
                running: p.running.insert(w, p.claimed),
                workers: p.workers.update(w as int, WorkerStatus::Executing),
                ..p
            },
            Claim::Job(p.submitted[p.claimed as int]),
        )
    } else if p.closed {
        (PoolModel { workers: p.workers.update(w as int, WorkerStatus::ShutDown), ..p }, Claim::Stop)
    } else {
        (p, Claim::Wait)
    }
}

/// Executing worker `w` has run its job to the end and is idle again.
pub open spec fn finish_spec<T>(p: PoolModel<T>, w: nat) -> PoolModel<T> {
    PoolModel {
        running: p.running.remove(w),
        finished: p.finished.insert(p.running[w]),
        workers: p.workers.update(w as int, WorkerStatus::Idle),
        ..p
    }
}

/// Shutdown begins: no further job is accepted; queued and running jobs are kept.
pub open spec fn close_spec<T>(p: PoolModel<T>) -> PoolModel<T> {
    PoolModel { closed: true, ..p }
}

/// The shared side of a fixed-size worker pool: the job queue, each worker's status,
/// and the shutdown flag. Whoever holds it decides who runs what; it runs nothing.
pub struct WorkerPool<T> {
    queue: VecDeque<T>,
    workers: Vec<WorkerStatus>,
    closed: bool,
    submitted: Ghost<Seq<T>>,
    claimed: Ghost<nat>,
    claimer: Ghost<Seq<nat>>,
    running: Ghost<Map<nat, nat>>,
    finished: Ghost<Set<nat>>,
    history: Ghost<Seq<PoolEvent<T>>>,
}

impl<T> View for WorkerPool<T> {
    type V = PoolModel<T>;

    closed spec fn view(&self) -> PoolModel<T> {
        PoolModel {
            submitted: self.submitted@,
            claimed: self.claimed@,
            claimer: self.claimer@,
            running: self.running@,
            finished: self.finished@,
            workers: self.workers@,
            closed: self.closed,
        }
    }
}

impl<T> WorkerPool<T> {
    pub closed spec fn wf(&self) -> bool {
        &&& model_wf(self@)
        &&& self.queue@ == self.submitted@.subrange(self.claimed@ as int, self.submitted@.len() as int)
        &&& replay(self@.workers.len(), self.history@) == Some(self@)
    }

    /// Everything that happened to the pool since it was made, in order.
    pub closed spec fn history(&self) -> Seq<PoolEvent<T>> {
        self.history@
    }

    /// A well-formed pool keeps its bookkeeping, and is what its history made of a new
    /// pool of its size.
    pub proof fn lemma_bookkeeping(&self)
        requires
            self.wf(),
        ensures
            model_wf(self@),
            replay(self@.workers.len(), self.history()) == Some(self@),
    {
    }

    /// Every job this pool accepted runs exactly once: once all of them have been claimed
    /// and no worker is executing, each has finished, claimed by a single worker.
    pub proof fn lemma_ran_every_job_once(&self)
        requires
            self.wf(),
            self@.claimed == self@.submitted.len(),
            self@.running.dom() == Set::<nat>::empty(),
        ensures
            self@.finished == Set::new(|k: nat| k < self@.submitted.len()),
            self@.claimer.len() == self@.submitted.len(),
            forall|k: int| 0 <= k < self@.submitted.len() ==> #[trigger] self@.claimer[k] < self@.workers.len(),
    {
        lemma_every_job_runs_once(self@.workers.len(), self.history@);
    }

    /// A pool of `size` idle workers.
    pub fn new(size: usize) -> (r: WorkerPool<T>)
        requires
            size > 0,
        ensures
            r.wf(),
            r@ == new_spec::<T>(size as nat),
            r.history() == Seq::<PoolEvent<T>>::empty(),
    {
        let mut workers: Vec<WorkerStatus> = Vec::new();
        let mut i: usize = 0;
        while i < size
            invariant
                i <= size,
                workers@ == Seq::new(i as nat, |j: int| WorkerStatus::Idle),
            decreases size - i,
        {
            workers.push(WorkerStatus::Idle);
            assert(workers@ =~= Seq::new(i as nat + 1, |j: int| WorkerStatus::Idle));
            i = i + 1;
        }
        let r = WorkerPool {
            queue: VecDeque::new(),
            workers,
            closed: false,
            submitted: Ghost(Seq::empty()),
            claimed: Ghost(0),
            claimer: Ghost(Seq::empty()),
            running: Ghost(Map::empty()),
            finished: Ghost(Set::empty()),
            history: Ghost(Seq::empty()),
        };
        assert(r.queue@ =~= r.submitted@.subrange(0, 0));
        assert(r@ =~= new_spec::<T>(size as nat));
        r
    }

    /// The number of workers.
    pub fn size(&self) -> (r: usize)
        ensures
            r == self@.workers.len(),
    {
        self.workers.len()
    }

    /// The status of worker `w`.
    pub fn status(&self, w: usize) -> (r: WorkerStatus)
        requires
            w < self@.workers.len(),
        ensures
            r == self@.workers[w as int],
    {
        self.workers[w]
    }

    /// True once shutdown has begun.
    pub fn is_closed(&self) -> (r: bool)
        ensures
            r == self@.closed,
    {
        self.closed
    }

    /// The number of submitted jobs that no worker has claimed yet.
    pub fn pending(&self) -> (r: usize)
        requires
            self.wf(),
        ensures
            r == self@.submitted.len() - self@.claimed,
    {
        self.queue.len()
    }

    /// Queues a job for some worker, without waiting. After shutdown began the job is
    /// refused and handed back.
    pub fn submit(&mut self, job: T) -> (r: Result<(), T>)
        requires
            old(self).wf(),
        ensures
            final(self).wf(),
            final(self)@ == submit_spec(old(self)@, job).0,
            r is Ok <==> submit_spec(old(self)@, job).1,
            r is Err ==> r == Err::<(), T>(job),
            final(self).history() == old(self).history().push(PoolEvent::Submit(job)),
    {
        proof {
            lemma_replay_step(self@.workers.len(), self.history@, PoolEvent::Submit(job));
        }
        self.history = Ghost(self.history@.push(PoolEvent::Submit(job)));
        if self.closed {
            return Err(job);
        }
        self.queue.push_back(job);
        self.submitted = Ghost(self.submitted@.push(job));
        assert(self.queue@ =~= self.submitted@.subrange(self.claimed@ as int, self.submitted@.len() as int));
        assert(self@ =~= submit_spec(old(self)@, job).0);
        Ok(())
    }

    /// Idle worker `w` asks for work.
    pub fn claim(&mut self, w: usize) -> (r: Claim<T>)
        requires
            old(self).wf(),
            w < old(self)@.workers.len(),
            old(self)@.workers[w as int] == WorkerStatus::Idle,
        ensures
            final(self).wf(),
            (final(self)@, r) == claim_spec(old(self)@, w as nat),
            final(self).history() == old(self).history().push(PoolEvent::Claim(w as nat)),
    {
        proof {
            lemma_replay_step(self@.workers.len(), self.history@, PoolEvent::Claim(w as nat));
        }
        self.history = Ghost(self.history@.push(PoolEvent::Claim(w as nat)));
        proof {
            lemma_claim_takes_next_job(self@, w as nat);
        }
        match self.queue.pop_front() {
            Some(job) => {
                let ghost k = self.claimed@;
                self.claimer = Ghost(self.claimer@.push(w as nat));
                self.running = Ghost(self.running@.insert(w as nat, k));
                self.claimed = Ghost(k + 1);
                self.workers.set(w, WorkerStatus::Executing);
                assert(self.queue@ =~= self.submitted@.subrange(self.claimed@ as int, self.submitted@.len() as int));
                assert(self@ =~= claim_spec(old(self)@, w as nat).0);
                Claim::Job(job)
            },
            None => {
                if self.closed {
                    self.workers.set(w, WorkerStatus::ShutDown);
                    assert(self@ =~= claim_spec(old(self)@, w as nat).0);
                    Claim::Stop
                } else {
                    Claim::Wait
                }
            },
        }
    }

    /// Executing worker `w` reports that its job has run to the end.
    pub fn finish(&mut self, w: usize)
        requires
            old(self).wf(),
            w < old(self)@.workers.len(),
            old(self)@.workers[w as int] == WorkerStatus::Executing,
        ensures
            final(self).wf(),
            final(self)@ == finish_spec(old(self)@, w as nat),
            final(self).history() == old(self).history().push(PoolEvent::Finish(w as nat)),
    {
        proof {
            lemma_replay_step(self@.workers.len(), self.history@, PoolEvent::Finish(w as nat));
        }
        self.history = Ghost(self.history@.push(PoolEvent::Finish(w as nat)));
        proof {
            lemma_finish_frees_worker(self@, w as nat);
        }
        let ghost k = self@.running[w as nat];
        self.running = Ghost(self.running@.remove(w as nat));
        self.finished = Ghost(self.finished@.insert(k));
        self.workers.set(w, WorkerStatus::Idle);
        assert(self@ =~= finish_spec(old(self)@, w as nat));
    }

    /// Begins shutdown: from now on submissions are refused. Queued jobs are still
    /// claimed, and running ones run to the end.
    pub fn close(&mut self)
        requires
            old(self).wf(),
        ensures
            final(self).wf(),
            final(self)@ == close_spec(old(self)@),
            final(self).history() == old(self).history().push(PoolEvent::Close),
    {
        proof {
            lemma_replay_step(self@.workers.len(), self.history@, PoolEvent::Close);
        }
        self.history = Ghost(self.history@.push(PoolEvent::Close));
        self.closed = true;
        assert(self@ =~= close_spec(old(self)@));
    }
}

/// A claim never hands out a job twice: a worker that gets a job gets the oldest
/// unclaimed one, and the jobs claimed before keep their claimers.
pub proof fn lemma_claim_takes_next_job<T>(p: PoolModel<T>, w: nat)
    requires
        model_wf(p),
        w < p.workers.len(),
        p.workers[w as int] == WorkerStatus::Idle,
    ensures
        model_wf(claim_spec(p, w).0),
        claim_spec(p, w).1 is Job ==> claim_spec(p, w).1 == Claim::Job(p.submitted[p.claimed as int])
            && claim_spec(p, w).0.claimed == p.claimed + 1
            && claim_spec(p, w).0.claimer == p.claimer.push(w),
        !(claim_spec(p, w).1 is Job) ==> claim_spec(p, w).0.claimed == p.claimed
            && claim_spec(p, w).0.claimer == p.claimer,
{
    let q = claim_spec(p, w).0;
    if p.claimed < p.submitted.len() {
        let k = p.claimed;
        assert forall|v: nat| #[trigger] q.running.dom().contains(v) implies q.running[v] < q.claimed
            && q.claimer[q.running[v] as int] == v && !q.finished.contains(q.running[v]) by {
            if v != w {
                assert(p.running.dom().contains(v));
                assert(q.claimer[p.running[v] as int] == p.claimer[p.running[v] as int]);
            } else {
                assert(q.claimer[k as int] == w);
                if p.finished.contains(k) {
                    assert(k < p.claimed);
                }
            }
        }
        assert forall|j: int|
            0 <= j < q.claimed && !q.finished.contains(j as nat) implies q.running.dom().contains(
                #[trigger] q.claimer[j],
            ) && q.running[q.claimer[j]] == j by {
            if j < k {
                assert(p.claimer[j] == q.claimer[j]);
                assert(p.running.dom().contains(p.claimer[j]));
            }
        }
        assert forall|v: nat| #[trigger] q.running.dom().contains(v) <==> (v < q.workers.len()
            && q.workers[v as int] == WorkerStatus::Executing) by {
            if v != w {
                assert(p.running.dom().contains(v) <==> q.running.dom().contains(v));
            }
        }
        assert forall|j: int| 0 <= j < q.claimed implies #[trigger] q.claimer[j] < q.workers.len() by {
            if j < k {
                assert(p.claimer[j] == q.claimer[j]);
            }
        }
    } else if p.closed {
        assert forall|v: nat| #[trigger] q.running.dom().contains(v) <==> (v < q.workers.len()
            && q.workers[v as int] == WorkerStatus::Executing) by {
            if v != w {
                assert(p.running.dom().contains(v) <==> q.running.dom().contains(v));
            } else {
                assert(!p.running.dom().contains(v));
            }
        }
    }
}

/// Finishing keeps the bookkeeping: the worker's job joins the finished ones and the
/// worker is idle again.
pub proof fn lemma_finish_frees_worker<T>(p: PoolModel<T>, w: nat)
    requires
        model_wf(p),
        w < p.workers.len(),
        p.workers[w as int] == WorkerStatus::Executing,
    ensures
        model_wf(finish_spec(p, w)),
        finish_spec(p, w).finished == p.finished.insert(p.running[w]),
        !p.finished.contains(p.running[w]),
{
    let q = finish_spec(p, w);
    let k = p.running[w];
    assert(p.running.dom().contains(w));
    assert forall|v: nat| #[trigger] q.running.dom().contains(v) implies q.running[v] < q.claimed
        && q.claimer[q.running[v] as int] == v && !q.finished.contains(q.running[v]) by {
        assert(p.running.dom().contains(v));
        if q.running[v] == k {
            assert(p.claimer[k as int] == v);
        }
    }
    assert forall|j: int|
        0 <= j < q.claimed && !q.finished.contains(j as nat) implies q.running.dom().contains(
            #[trigger] q.claimer[j],
        ) && q.running[q.claimer[j]] == j by {
        assert(p.running.dom().contains(p.claimer[j]));
    }
    assert forall|v: nat| #[trigger] q.running.dom().contains(v) <==> (v < q.workers.len()
        && q.workers[v as int] == WorkerStatus::Executing) by {
        if v != w {
            assert(p.running.dom().contains(v) <==> q.running.dom().contains(v));
        }
    }
}

/// Something that happens to a pool.
pub enum PoolEvent<T> {
    Submit(T),
    Claim(nat),
    Finish(nat),
    Close,
}

/// The event may happen now: only an idle worker claims, only an executing one finishes.
pub open spec fn event_allowed<T>(p: PoolModel<T>, e: PoolEvent<T>) -> bool {
    match e {
        PoolEvent::Claim(w) => w < p.workers.len() && p.workers[w as int] == WorkerStatus::Idle,
        PoolEvent::Finish(w) => w < p.workers.len() && p.workers[w as int] == WorkerStatus::Executing,
        _ => true,
    }
}

/// The pool after one event.
pub open spec fn apply_event<T>(p: PoolModel<T>, e: PoolEvent<T>) -> PoolModel<T> {
    match e {
        PoolEvent::Submit(job) => submit_spec(p, job).0,
        PoolEvent::Claim(w) => claim_spec(p, w).0,
        PoolEvent::Finish(w) => finish_spec(p, w),
        PoolEvent::Close => close_spec(p),
    }
}

/// A pool of `size` workers after the events, in order; `None` if one of them could not
/// have happened when it did.
pub open spec fn replay<T>(size: nat, events: Seq<PoolEvent<T>>) -> Option<PoolModel<T>>
    decreases events.len(),
{
    if events.len() == 0 {
        Some(new_spec(size))
    } else {
        match replay(size, events.drop_last()) {
            Some(p) => if event_allowed(p, events.last()) {
                Some(apply_event(p, events.last()))
            } else {
                None
            },
            None => None,
        }
    }
}

/// One more allowed event: the replay ends in the event's result.
pub proof fn lemma_replay_step<T>(size: nat, events: Seq<PoolEvent<T>>, e: PoolEvent<T>)
    requires
        replay(size, events) is Some,
        event_allowed(replay(size, events)->Some_0, e),
    ensures
        replay(size, events.push(e)) == Some(apply_event(replay(size, events)->Some_0, e)),
{
    assert(events.push(e).drop_last() =~= events);
}

/// Any interleaving of submissions, claims, finishes and shutdown keeps the pool's
/// bookkeeping: each claimed job has one claimer and is running or finished.
pub proof fn lemma_replay_keeps_bookkeeping<T>(size: nat, events: Seq<PoolEvent<T>>)
    requires
        size > 0,
        replay(size, events) is Some,
    ensures
        model_wf(replay(size, events)->Some_0),
    decreases events.len(),
{
    if events.len() == 0 {
        let p = new_spec::<T>(size);
        assert forall|w: nat| #[trigger] p.running.dom().contains(w) <==> (w < p.workers.len()
            && p.workers[w as int] == WorkerStatus::Executing) by {}
    } else {
        lemma_replay_keeps_bookkeeping(size, events.drop_last());
        let p = replay(size, events.drop_last())->Some_0;
        match events.last() {
            PoolEvent::Claim(w) => lemma_claim_takes_next_job(p, w),
            PoolEvent::Finish(w) => lemma_finish_frees_worker(p, w),
            PoolEvent::Submit(job) => {
                assert forall|w: nat| #[trigger] p.running.dom().contains(w) ==> p.running[w] < p.claimed
                    && p.claimer[p.running[w] as int] == w && !p.finished.contains(p.running[w]) by {}
            },
            PoolEvent::Close => {},
        }
    }
}

/// Every job runs exactly once, whatever the pool's size, the order of submissions and
/// the timing of claims: once a pool of `size` workers has handed out every job it
/// accepted and no worker is executing, each accepted job has finished, and each was
/// claimed by a single worker of the pool.
pub proof fn lemma_every_job_runs_once<T>(size: nat, events: Seq<PoolEvent<T>>)
    requires
        size > 0,
        replay(size, events) is Some,
        replay(size, events)->Some_0.claimed == replay(size, events)->Some_0.submitted.len(),
        replay(size, events)->Some_0.running.dom() == Set::<nat>::empty(),
    ensures
        ({
            let p = replay(size, events)->Some_0;
            &&& p.finished == Set::new(|k: nat| k < p.submitted.len())
            &&& p.claimer.len() == p.submitted.len()
            &&& forall|k: int| 0 <= k < p.submitted.len() ==> #[trigger] p.claimer[k] < size
        }),
{
    lemma_replay_keeps_bookkeeping(size, events);
    lemma_drained_pool_ran_every_job(replay(size, events)->Some_0);
    lemma_replay_keeps_size(size, events);
}

/// The pool's size is fixed.
pub proof fn lemma_replay_keeps_size<T>(size: nat, events: Seq<PoolEvent<T>>)
    requires
        replay(size, events) is Some,
    ensures
        replay(size, events)->Some_0.workers.len() == size,
    decreases events.len(),
{
    if events.len() > 0 {
        lemma_replay_keeps_size(size, events.drop_last());
    }
}

/// Every job runs exactly once: once all submitted jobs have been claimed and no worker
/// is executing, each of them has finished, and each was claimed by a single worker of
/// the pool.
pub proof fn lemma_drained_pool_ran_every_job<T>(p: PoolModel<T>)
    requires
        model_wf(p),
        p.claimed == p.submitted.len(),
        p.running.dom() == Set::<nat>::empty(),
    ensures
        forall|k: nat| k < p.submitted.len() ==> #[trigger] p.finished.contains(k),
        forall|k: int| 0 <= k < p.submitted.len() ==> #[trigger] p.claimer[k] < p.workers.len(),
        p.finished == Set::new(|k: nat| k < p.submitted.len()),
{
    assert forall|k: nat| k < p.submitted.len() implies #[trigger] p.finished.contains(k) by {
        if !p.finished.contains(k) {
            assert(p.running.dom().contains(p.claimer[k as int]));
        }
    }
    assert(p.finished =~= Set::new(|k: nat| k < p.submitted.len()));
}

/// Shutdown drops nothing that was accepted: it keeps the queue, the running jobs and the
/// finished ones, every claimed job stays running with its claimer until it finishes, and
/// a job submitted afterwards is refused, so it never runs at all.
pub proof fn lemma_shutdown_keeps_accepted_jobs<T>(p: PoolModel<T>, job: T)
    requires
        model_wf(p),
    ensures
        model_wf(close_spec(p)),
        close_spec(p).closed,
        close_spec(p).submitted == p.submitted,
        close_spec(p).claimed == p.claimed,
        close_spec(p).claimer == p.claimer,
        close_spec(p).running == p.running,
        close_spec(p).finished == p.finished,
        close_spec(p).workers == p.workers,
        submit_spec(close_spec(p), job) == (close_spec(p), false),
        forall|k: int|
            0 <= k < p.claimed ==> close_spec(p).finished.contains(k as nat) || (close_spec(
                p,
            ).running.dom().contains(#[trigger] close_spec(p).claimer[k]) && close_spec(p).running[close_spec(
                p,
            ).claimer[k]] == k),
{
}

} // verus!
