use std::collections::VecDeque;
use vstd::prelude::*;
use vstd::multiset::Multiset;

verus! {

/// Where a worker stands in its life.
#[derive(PartialEq, Eq, Structural, Clone, Copy, Debug)]
pub enum Phase {
    /// Waiting for the queue to hand it a job.
    Idle,
    /// Running a job to completion.
    Busy,
    /// Saw the queue closed and drained; its thread ends.
    Exited,
}

/// Number of workers that are running a job.
pub open spec fn busy_count(phases: Seq<Phase>) -> nat
    decreases phases.len(),
{
    if phases.len() == 0 {
        0
    } else {
        busy_count(phases.drop_last()) + if phases.last() == Phase::Busy { 1nat } else { 0nat }
    }
}

/// Updating one worker's phase changes the count by that worker alone.
pub proof fn lemma_busy_count_update(phases: Seq<Phase>, i: int, p: Phase)
    requires
        0 <= i < phases.len(),
    ensures
        busy_count(phases.update(i, p)) + (if phases[i] == Phase::Busy { 1nat } else { 0nat })
            == busy_count(phases) + (if p == Phase::Busy { 1nat } else { 0nat }),
    decreases phases.len(),
{
    let u = phases.update(i, p);
    if i == phases.len() - 1 {
        assert(u.drop_last() =~= phases.drop_last());
    } else {
        lemma_busy_count_update(phases.drop_last(), i, p);
        assert(u.drop_last() =~= phases.drop_last().update(i, p));
    }
}

/// No more workers are busy than there are workers.
pub proof fn lemma_busy_count_bound(phases: Seq<Phase>)
    ensures
        busy_count(phases) <= phases.len(),
    decreases phases.len(),
{
    if phases.len() > 0 {
        lemma_busy_count_bound(phases.drop_last());
    }
}

/// What a worker is told to do when it asks the queue for work.
pub enum Take<T> {
    /// Run this job, then report back with `finish`.
    Run(T),
    /// Nothing queued yet: block until a job is submitted or the pool closes.
    Wait,
    /// The pool is closed and the backlog is drained: end the thread.
    Exit,
}

/// A submission refused because the pool no longer accepts work; the job comes back.
pub struct Closed<T>(pub T);

/// The jobs of a delivery record, in delivery order.
pub open spec fn jobs_of<T>(taken: Seq<(nat, T)>) -> Seq<T> {
    taken.map_values(|d: (nat, T)| d.1)
}

/// The shared state of a fixed-size worker pool: a FIFO queue of jobs, the
/// phase of every worker, and whether submissions are still accepted.
///
/// Beside it run a ghost record of every job ever submitted, every delivery
/// (worker id and job), and how many delivered jobs have completed.
pub struct Scheduler<T> {
    queue: VecDeque<T>,
    phases: Vec<Phase>,
    accepting: bool,
    submitted: Ghost<Seq<T>>,
    taken: Ghost<Seq<(nat, T)>>,
    completed: Ghost<nat>,
}

impl<T> Scheduler<T> {
    /// Jobs queued and not yet handed to a worker, oldest first.
    pub closed spec fn pending(&self) -> Seq<T> {
        self.queue@
    }

    /// The phase of each worker, indexed by worker id.
    pub closed spec fn phases(&self) -> Seq<Phase> {
        self.phases@
    }

    /// Whether new jobs are accepted.
    pub closed spec fn accepting(&self) -> bool {
        self.accepting
    }

    /// Every job accepted so far, in submission order.
    pub closed spec fn submitted(&self) -> Seq<T> {
        self.submitted@
    }

    /// Every delivery so far, in order: the worker that received it and the job.
    pub closed spec fn taken(&self) -> Seq<(nat, T)> {
        self.taken@
    }

    /// How many delivered jobs have run to completion.
    pub closed spec fn completed(&self) -> nat {
        self.completed@
    }

    /// The number of workers.
    pub open spec fn size(&self) -> nat {
        self.phases().len()
    }

    /// Whether every worker has ended.
    pub open spec fn all_exited(&self) -> bool {
        forall|i: int| 0 <= i < self.size() ==> self.phases()[i] == Phase::Exited
    }

    /// The invariant: deliveries are the submitted jobs' prefix and the queue
    /// the rest; each delivery names a real worker; every delivered job is
    /// either complete or being run by a busy worker; a worker exits only once
    /// the pool is closed and drained.
    pub closed spec fn wf(&self) -> bool {
        &&& self.phases@.len() > 0
        &&& self.submitted@ == jobs_of(self.taken@) + self.queue@
        &&& forall|k: int| 0 <= k < self.taken@.len() ==> self.taken@[k].0 < self.phases@.len()
        &&& self.completed@ + busy_count(self.phases@) == self.taken@.len()
        &&& (exists|i: int| 0 <= i < self.phases@.len() && self.phases@[i] == Phase::Exited)
            ==> (!self.accepting && self.queue@.len() == 0)
    }

    /// A pool of `size` idle workers with ids `0..size`, an empty queue, open
    /// for submissions.
    pub fn new(size: usize) -> (r: Self)
        requires
            size > 0,
        ensures
            r.wf(),
            r.size() == size,
            forall|i: int| 0 <= i < size ==> r.phases()[i] == Phase::Idle,
            r.accepting(),
            r.pending() == Seq::<T>::empty(),
            r.submitted() == Seq::<T>::empty(),
            r.taken() == Seq::<(nat, T)>::empty(),
            r.completed() == 0,
    {
        let mut phases: Vec<Phase> = Vec::with_capacity(size);
        let mut i: usize = 0;
        while i < size
            invariant
                i <= size,
                phases@.len() == i,
                forall|j: int| 0 <= j < i ==> phases@[j] == Phase::Idle,
            decreases size - i,
        {
            phases.push(Phase::Idle);
            i = i + 1;
        }
        proof {
            lemma_busy_count_idle(phases@);
        }
        let r = Scheduler {
            queue: VecDeque::new(),
            phases,
            accepting: true,
            submitted: Ghost(Seq::empty()),
            taken: Ghost(Seq::empty()),
            completed: Ghost(0),
        };
        assert(jobs_of(r.taken@) =~= Seq::<T>::empty());
        assert(r.submitted@ =~= jobs_of(r.taken@) + r.queue@);
        r
    }

    /// Queues `job` behind everything already queued, if the pool still
    /// accepts work; otherwise hands it back and changes nothing.
    pub fn submit(&mut self, job: T) -> (r: Result<(), Closed<T>>)
        requires
            old(self).wf(),
        ensures
            final(self).wf(),
            r is Ok <==> old(self).accepting(),
            r is Ok ==> {
                &&& final(self).pending() == old(self).pending().push(job)
                &&& final(self).submitted() == old(self).submitted().push(job)
            },
            r matches Err(Closed(j)) ==> {
                &&& j == job
                &&& final(self).pending() == old(self).pending()
                &&& final(self).submitted() == old(self).submitted()
            },
            final(self).accepting() == old(self).accepting(),
            final(self).phases() == old(self).phases(),
            final(self).taken() == old(self).taken(),
            final(self).completed() == old(self).completed(),
    {
        if !self.accepting {
            return Err(Closed(job));
        }
        self.queue.push_back(job);
        self.submitted = Ghost(self.submitted@.push(job));
        assert(self.submitted@ =~= jobs_of(self.taken@) + self.queue@);
        Ok(())
    }

    /// Worker `worker`, idle, asks for work. The oldest queued job goes to it,
    /// closed pool or not; with nothing queued it exits if the pool is closed
    /// and waits otherwise.
    pub fn take(&mut self, worker: usize) -> (r: Take<T>)
        requires
            old(self).wf(),
            worker < old(self).size(),
            old(self).phases()[worker as int] == Phase::Idle,
        ensures
            final(self).wf(),
            final(self).accepting() == old(self).accepting(),
            final(self).submitted() == old(self).submitted(),
            final(self).completed() == old(self).completed(),
            old(self).pending().len() > 0 ==> {
                &&& r == Take::Run(old(self).pending()[0])
                &&& final(self).pending() == old(self).pending().drop_first()
                &&& final(self).phases() == old(self).phases().update(worker as int, Phase::Busy)
                &&& final(self).taken() == old(self).taken().push((worker as nat, old(self).pending()[0]))
            },
            old(self).pending().len() == 0 && !old(self).accepting() ==> {
                &&& r is Exit
                &&& final(self).pending() == old(self).pending()
                &&& final(self).phases() == old(self).phases().update(worker as int, Phase::Exited)
                &&& final(self).taken() == old(self).taken()
            },
            old(self).pending().len() == 0 && old(self).accepting() ==> {
                &&& r is Wait
                &&& final(self).pending() == old(self).pending()
                &&& final(self).phases() == old(self).phases()
                &&& final(self).taken() == old(self).taken()
            },
    {
        proof {
            lemma_busy_count_update(self.phases@, worker as int, Phase::Busy);
            lemma_busy_count_update(self.phases@, worker as int, Phase::Exited);
        }
        match self.queue.pop_front() {
            Some(job) => {
                let ghost d = (worker as nat, job);
                self.phases.set(worker, Phase::Busy);
                self.taken = Ghost(self.taken@.push(d));
                assert(jobs_of(self.taken@) =~= jobs_of(old(self).taken@).push(job));
                assert(self.submitted@ =~= jobs_of(self.taken@) + self.queue@);
                assert(self.phases@[worker as int] == Phase::Busy);
                Take::Run(job)
            },
            None => {
                if self.accepting {
                    Take::Wait
                } else {
                    self.phases.set(worker, Phase::Exited);
                    Take::Exit
                }
            },
        }
    }

    /// Worker `worker` reports that the job it was running has completed; it
    /// is idle again.
    pub fn finish(&mut self, worker: usize)
        requires
            old(self).wf(),
            worker < old(self).size(),
            old(self).phases()[worker as int] == Phase::Busy,
        ensures
            final(self).wf(),
            final(self).phases() == old(self).phases().update(worker as int, Phase::Idle),
            final(self).completed() == old(self).completed() + 1,
            final(self).accepting() == old(self).accepting(),
            final(self).pending() == old(self).pending(),
            final(self).submitted() == old(self).submitted(),
            final(self).taken() == old(self).taken(),
    {
        proof {
            lemma_busy_count_update(self.phases@, worker as int, Phase::Idle);
        }
        self.phases.set(worker, Phase::Idle);
        self.completed = Ghost(self.completed@ + 1);
        assert forall|i: int| 0 <= i < self.phases@.len() && self.phases@[i] == Phase::Exited
            implies old(self).phases@[i] == Phase::Exited by {}
    }

    /// The number of workers.
    pub fn worker_count(&self) -> (r: usize)
        ensures
            r == self.size(),
    {
        self.phases.len()
    }

    /// Whether new jobs are accepted.
    pub fn is_accepting(&self) -> (r: bool)
        ensures
            r == self.accepting(),
    {
        self.accepting
    }

    /// How many jobs are queued and not yet handed out.
    pub fn pending_len(&self) -> (r: usize)
        ensures
            r == self.pending().len(),
    {
        self.queue.len()
    }

    /// The phase of worker `worker`.
    pub fn phase(&self, worker: usize) -> (r: Phase)
        requires
            worker < self.size(),
        ensures
            r == self.phases()[worker as int],
    {
        self.phases[worker]
    }

    /// Whether every worker has exited, so that all of them can be joined
    /// without blocking on work.
    pub fn is_shut_down(&self) -> (r: bool)
        ensures
            r == self.all_exited(),
    {
        let mut i: usize = 0;
        while i < self.phases.len()
            invariant
                i <= self.phases@.len(),
                forall|j: int| 0 <= j < i ==> self.phases@[j] == Phase::Exited,
            decreases self.phases@.len() - i,
        {
            if self.phases[i] != Phase::Exited {
                return false;
            }
            i = i + 1;
        }
        true
    }

    /// Stops accepting submissions. The backlog stays queued, to be drained
    /// by the workers before they exit.
    pub fn close(&mut self)
        requires
            old(self).wf(),
        ensures
            final(self).wf(),
            !final(self).accepting(),
            final(self).pending() == old(self).pending(),
            final(self).phases() == old(self).phases(),
            final(self).submitted() == old(self).submitted(),
            final(self).taken() == old(self).taken(),
            final(self).completed() == old(self).completed(),
    {
        self.accepting = false;
    }
}

/// A pool with no busy worker counts none.
pub proof fn lemma_busy_count_idle(phases: Seq<Phase>)
    requires
        forall|j: int| 0 <= j < phases.len() ==> phases[j] != Phase::Busy,
    ensures
        busy_count(phases) == 0,
    decreases phases.len(),
{
    if phases.len() > 0 {
        lemma_busy_count_idle(phases.drop_last());
    }
}

/// Deliveries follow submission order and each accepted job is handed out at
/// most once: the k-th delivery is the k-th submitted job, and the jobs not
/// yet delivered are exactly the queued ones, in order.
pub proof fn law_fifo_exactly_once<T>(s: &Scheduler<T>)
    requires
        s.wf(),
    ensures
        s.taken().len() + s.pending().len() == s.submitted().len(),
        forall|k: int| 0 <= k < s.taken().len() ==> #[trigger] s.taken()[k].1 == s.submitted()[k],
        forall|k: int|
            0 <= k < s.pending().len() ==> #[trigger] s.pending()[k] == s.submitted()[s.taken().len() + k],
        forall|k: int| 0 <= k < s.taken().len() ==> #[trigger] s.taken()[k].0 < s.size(),
{
    assert forall|k: int| 0 <= k < s.taken().len() implies #[trigger] s.taken()[k].1 == s.submitted()[k] by {
        assert(jobs_of(s.taken@)[k] == s.taken@[k].1);
    }
}

/// Of two jobs submitted one after the other, the earlier is delivered
/// first: once the later one has gone to a worker, so has the earlier, each
/// to exactly one delivery.
pub proof fn law_earlier_job_delivered_first<T>(s: &Scheduler<T>, a: int, b: int)
    requires
        s.wf(),
        0 <= a < b < s.submitted().len(),
        b < s.taken().len(),
    ensures
        s.taken()[a].1 == s.submitted()[a],
        s.taken()[b].1 == s.submitted()[b],
{
    law_fifo_exactly_once(s);
}

/// Once every worker has exited, the pool is closed, nothing is left queued,
/// no job is running, and every accepted job was delivered once and has
/// completed.
pub proof fn law_shutdown_drains<T>(s: &Scheduler<T>)
    requires
        s.wf(),
        s.all_exited(),
    ensures
        !s.accepting(),
        s.pending().len() == 0,
        busy_count(s.phases()) == 0,
        jobs_of(s.taken()) == s.submitted(),
        s.completed() == s.submitted().len(),
{
    assert(s.phases@[0] == Phase::Exited);
    lemma_busy_count_idle(s.phases@);
    assert(s.submitted@ =~= jobs_of(s.taken@));
}

/// However the submissions of several callers interleave, once the pool has
/// shut down every job that any caller submitted has been delivered and
/// completed: none lost, none duplicated.
pub proof fn law_interleaved_submissions_all_run<T>(s: &Scheduler<T>, batches: Seq<Seq<T>>)
    requires
        s.wf(),
        s.all_exited(),
        s.submitted().to_multiset() == batches.flatten().to_multiset(),
    ensures
        jobs_of(s.taken()).to_multiset() == batches.flatten().to_multiset(),
        s.completed() == batches.flatten().len(),
{
    law_shutdown_drains(s);
    s.submitted().to_multiset_ensures();
    batches.flatten().to_multiset_ensures();
}

/// No more jobs run at once than there are workers; with a single worker, a
/// job is delivered only after every earlier delivery has completed.
pub proof fn law_running_bounded_by_workers<T>(s: &Scheduler<T>)
    requires
        s.wf(),
    ensures
        s.taken().len() <= s.completed() + s.size(),
        s.size() == 1 ==> s.taken().len() <= s.completed() + 1,
{
    lemma_busy_count_bound(s.phases@);
}

} // verus!
