//! The run queues: one shared queue that takes every job, and one queue for
//! each worker.
//!
//! A job is the id of the task whose handler is to run. The queues are those
//! of `crossbeam_deque`; the items marked `external_body` say what its
//! operations do to a queue that nothing else touches during the call. That
//! holds here because the queues are private to `TasksManager`, which is
//! reached through `&mut` alone and hands out no stealer.
use crate::config::DEFAULT_TASK_POOL_SIZE;
use vstd::prelude::*;

verus! {

/// `crossbeam_deque::Worker`, the queue of one worker. What it holds is
/// known by `worker_jobs` and `worker_lifo` alone.
#[verifier::external_type_specification]
#[verifier::external_body]
#[verifier::reject_recursive_types(T)]
pub struct ExWorker<T>(crossbeam_deque::Worker<T>);

/// `crossbeam_deque::Injector`, the shared queue. What it holds is known by
/// `injector_jobs` alone.
#[verifier::external_type_specification]
#[verifier::external_body]
#[verifier::reject_recursive_types(T)]
pub struct ExInjector<T>(crossbeam_deque::Injector<T>);

/// The jobs in a worker's queue, the oldest first.
pub uninterp spec fn worker_jobs(worker: crossbeam_deque::Worker<usize>) -> Seq<usize>;

/// Whether a worker's queue was made to pop the newest job first.
pub uninterp spec fn worker_lifo(worker: crossbeam_deque::Worker<usize>) -> bool;

/// The jobs in a shared queue, the oldest first.
pub uninterp spec fn injector_jobs(queue: crossbeam_deque::Injector<usize>) -> Seq<usize>;

/// What an attempt to steal from a queue gave.
#[derive(Clone, Copy, Debug, PartialEq, Eq, Structural)]
pub enum StealOutcome {
    /// The queue was empty.
    Empty,
    /// This job was taken.
    Success(usize),
    /// Nothing was taken; the attempt may be made again.
    Retry,
}

impl StealOutcome {
    /// The job, if one was taken.
    pub fn success(self) -> (job: Option<usize>)
        ensures
            job == match self {
                StealOutcome::Success(taken) => Some(taken),
                _ => None::<usize>,
            },
    {
        match self {
            StealOutcome::Success(taken) => Some(taken),
            _ => None,
        }
    }
}

/// Calls `crossbeam_deque::Injector::new`: the new queue is empty.
#[verifier::external_body]
fn new_injector() -> (queue: crossbeam_deque::Injector<usize>)
    ensures
        injector_jobs(queue) == Seq::<usize>::empty(),
{
    crossbeam_deque::Injector::new()
}

/// Calls `crossbeam_deque::Worker::new_lifo`: the new queue is empty and pops
/// the newest job first.
#[verifier::external_body]
fn new_lifo_worker() -> (worker: crossbeam_deque::Worker<usize>)
    ensures
        worker_jobs(worker) == Seq::<usize>::empty(),
        worker_lifo(worker),
{
    crossbeam_deque::Worker::new_lifo()
}

/// Calls `crossbeam_deque::Injector::push`: the job becomes the newest of the
/// queue.
#[verifier::external_body]
fn inject(queue: &mut crossbeam_deque::Injector<usize>, job: usize)
    ensures
        injector_jobs(*final(queue)) == injector_jobs(*old(queue)).push(job),
{
    queue.push(job)
}

/// Calls `crossbeam_deque::Worker::pop`. A queue that pops the newest first
/// gives its newest job and loses it; an empty one gives nothing.
#[verifier::external_body]
fn pop_local(worker: &mut crossbeam_deque::Worker<usize>) -> (job: Option<usize>)
    ensures
        worker_lifo(*final(worker)) == worker_lifo(*old(worker)),
        worker_lifo(*old(worker)) ==> match job {
            Some(taken) => {
                &&& worker_jobs(*old(worker)).len() > 0
                &&& taken == worker_jobs(*old(worker)).last()
                &&& worker_jobs(*final(worker)) == worker_jobs(*old(worker)).drop_last()
            },
            None => {
                &&& worker_jobs(*old(worker)).len() == 0
                &&& worker_jobs(*final(worker)) == worker_jobs(*old(worker))
            },
        },
{
    worker.pop()
}

/// Calls `crossbeam_deque::Injector::steal_batch_and_pop`.
///
/// On success the oldest job of the shared queue is given, and some number of
/// the jobs behind it, which the source leaves open, have moved to the
/// worker's queue; where that queue pops the newest first, they lie on it so
/// that the oldest of them is popped first. An empty shared queue gives
/// `Empty`. On `Empty` and on `Retry` both queues are as they were.
#[verifier::external_body]
fn steal_batch_and_pop(
    queue: &mut crossbeam_deque::Injector<usize>,
    dest: &mut crossbeam_deque::Worker<usize>,
) -> (outcome: StealOutcome)
    ensures
        worker_lifo(*final(dest)) == worker_lifo(*old(dest)),
        match outcome {
            StealOutcome::Success(taken) => {
                &&& injector_jobs(*old(queue)).len() > injector_jobs(*final(queue)).len()
                &&& taken == injector_jobs(*old(queue)).first()
                &&& injector_jobs(*final(queue)) == injector_jobs(*old(queue)).skip(
                    injector_jobs(*old(queue)).len() - injector_jobs(*final(queue)).len(),
                )
                &&& worker_lifo(*old(dest)) ==> worker_jobs(*final(dest)) == worker_jobs(
                    *old(dest),
                ) + injector_jobs(*old(queue)).subrange(
                    1,
                    injector_jobs(*old(queue)).len() - injector_jobs(*final(queue)).len(),
                ).reverse()
            },
            StealOutcome::Empty => {
                &&& injector_jobs(*old(queue)).len() == 0
                &&& injector_jobs(*final(queue)) == injector_jobs(*old(queue))
                &&& worker_jobs(*final(dest)) == worker_jobs(*old(dest))
            },
            StealOutcome::Retry => {
                &&& injector_jobs(*final(queue)) == injector_jobs(*old(queue))
                &&& worker_jobs(*final(dest)) == worker_jobs(*old(dest))
            },
        },
{
    match queue.steal_batch_and_pop(dest) {
        crossbeam_deque::Steal::Empty => StealOutcome::Empty,
        crossbeam_deque::Steal::Success(job) => StealOutcome::Success(job),
        crossbeam_deque::Steal::Retry => StealOutcome::Retry,
    }
}

/// Calls `crossbeam_deque::Worker::stealer` and, on the stealer,
/// `crossbeam_deque::Stealer::steal`. A queue that holds a job gives its
/// oldest job and loses it; an empty queue gives `Empty` and stays as it
/// was.
///
/// `Retry` does not come. The source answers it only where the queue's
/// buffer was swapped or its front index had moved between the read and the
/// compare-and-exchange, which is a strong one. Neither can be while nothing
/// else touches the queue, and nothing does: the worker is held by `&mut`,
/// and the stealer is made and dropped here.
#[verifier::external_body]
fn steal_from(worker: &mut crossbeam_deque::Worker<usize>) -> (outcome: StealOutcome)
    ensures
        worker_lifo(*final(worker)) == worker_lifo(*old(worker)),
        outcome !is Retry,
        match outcome {
            StealOutcome::Success(taken) => {
                &&& worker_jobs(*old(worker)).len() > 0
                &&& taken == worker_jobs(*old(worker)).first()
                &&& worker_jobs(*final(worker)) == worker_jobs(*old(worker)).drop_first()
            },
            _ => {
                &&& worker_jobs(*old(worker)).len() == 0
                &&& worker_jobs(*final(worker)) == worker_jobs(*old(worker))
            },
        },
{
    match worker.stealer().steal() {
        crossbeam_deque::Steal::Empty => StealOutcome::Empty,
        crossbeam_deque::Steal::Success(job) => StealOutcome::Success(job),
        crossbeam_deque::Steal::Retry => StealOutcome::Retry,
    }
}

/// What the run queues hold: the jobs of the shared queue and of each
/// worker's queue, the oldest first.
#[verifier::ext_equal]
pub struct PoolView {
    pub global: Seq<usize>,
    pub locals: Seq<Seq<usize>>,
}

impl PoolView {
    /// Number of jobs in the queues of the workers `0..upto`.
    pub open spec fn local_count(self, upto: int) -> nat
        decreases upto,
    {
        if upto <= 0 {
            0
        } else {
            self.local_count(upto - 1) + self.locals[upto - 1].len()
        }
    }

    /// Number of jobs in all queues.
    pub open spec fn count(self) -> nat {
        self.global.len() + self.local_count(self.locals.len() as int)
    }

    /// Whether no queue holds a job.
    pub open spec fn is_empty(self) -> bool {
        &&& self.global.len() == 0
        &&& forall|i: int| 0 <= i < self.locals.len() ==> (#[trigger] self.locals[i]).len() == 0
    }

    /// The queues with `job` as the newest of the shared queue.
    pub open spec fn pushed(self, job: usize) -> PoolView {
        PoolView { global: self.global.push(job), ..self }
    }

    /// The queues after `worker` has popped the newest job of its own queue.
    pub open spec fn popped(self, worker: int) -> PoolView {
        PoolView { locals: self.locals.update(worker, self.locals[worker].drop_last()), ..self }
    }

    /// Whether `after` is what the queues are once `worker`, its own queue
    /// empty, has taken the oldest job of the shared queue together with
    /// `moved` of the jobs behind it, which lie on its own queue with the
    /// oldest on top.
    pub open spec fn took_global(self, after: PoolView, worker: int, moved: int) -> bool {
        &&& 0 <= moved < self.global.len()
        &&& after.global == self.global.skip(moved + 1)
        &&& after.locals == self.locals.update(
            worker,
            self.locals[worker] + self.global.subrange(1, moved + 1).reverse(),
        )
    }

    /// The queues after the oldest job of the queue of `victim` was stolen.
    pub open spec fn robbed(self, victim: int) -> PoolView {
        PoolView { locals: self.locals.update(victim, self.locals[victim].drop_first()), ..self }
    }

    /// Whether a draw by `worker` may give `job` and leave the queues as
    /// `after`.
    ///
    /// A worker with a job of its own gets the newest of them. A worker
    /// without one gets the oldest job of the shared queue, or else the
    /// oldest job of the first worker, in index order, whose queue holds one.
    /// It gets nothing only if no worker's queue holds a job: the shared
    /// queue may ask for another try, a worker's queue does not. Whenever
    /// nothing is given the queues are as they were; that is so for a
    /// `worker` that is no worker.
    pub open spec fn draws(self, after: PoolView, worker: int, job: Option<usize>) -> bool {
        &&& after.locals.len() == self.locals.len()
        &&& job is None ==> after == self
        &&& !(0 <= worker < self.locals.len()) ==> job is None
        &&& 0 <= worker < self.locals.len() && job is None ==> self.idle()
        &&& 0 <= worker < self.locals.len() && self.locals[worker].len() > 0 ==> {
            &&& job == Some(self.locals[worker].last())
            &&& after == self.popped(worker)
        }
        &&& 0 <= worker < self.locals.len() && self.locals[worker].len() == 0 ==> (job matches Some(
            taken,
        ) ==> {
            ||| {
                &&& self.global.len() > 0
                &&& taken == self.global.first()
                &&& exists|moved: int| self.took_global(after, worker, moved)
            }
            ||| exists|victim: int|
                {
                    &&& 0 <= victim < self.locals.len()
                    &&& self.first_with_a_job(victim)
                    &&& taken == self.locals[victim].first()
                    &&& after == self.robbed(victim)
                }
        })
    }

    /// Whether no worker's queue holds a job.
    pub open spec fn idle(self) -> bool {
        forall|i: int| 0 <= i < self.locals.len() ==> (#[trigger] self.locals[i]).len() == 0
    }

    /// Whether `victim` is the first worker, in index order, whose queue
    /// holds a job.
    pub open spec fn first_with_a_job(self, victim: int) -> bool {
        &&& self.locals[victim].len() > 0
        &&& forall|i: int| 0 <= i < victim ==> (#[trigger] self.locals[i]).len() == 0
    }
}

/// The number of jobs in the workers' queues after one of the queues was
/// replaced.
pub proof fn lemma_local_count_update(pool: PoolView, index: int, queue: Seq<usize>, upto: int)
    requires
        0 <= index < pool.locals.len(),
        0 <= upto <= pool.locals.len(),
    ensures
        (PoolView { locals: pool.locals.update(index, queue), ..pool }).local_count(upto) == if index
            < upto {
            pool.local_count(upto) - pool.locals[index].len() + queue.len()
        } else {
            pool.local_count(upto) as int
        },
    decreases upto,
{
    if upto > 0 {
        lemma_local_count_update(pool, index, queue, upto - 1);
    }
}

/// A draw gives a job that was in the queues, and takes no other: with a job
/// given the queues hold one job less, with none given they are as they
/// were. An empty pool gives nothing, and a worker is given nothing only if
/// no worker's queue holds a job.
pub proof fn law_draw_takes_one_job(
    pool: PoolView,
    after: PoolView,
    worker: int,
    job: Option<usize>,
)
    requires
        pool.draws(after, worker, job),
    ensures
        job is Some ==> after.count() + 1 == pool.count(),
        job is None ==> after == pool,
        pool.is_empty() ==> job is None,
        0 <= worker < pool.locals.len() && job is None ==> pool.idle(),
{
    let n = pool.locals.len() as int;
    if job is Some {
        let taken = job->Some_0;
        if pool.locals[worker].len() > 0 {
            lemma_local_count_update(pool, worker, pool.locals[worker].drop_last(), n);
        } else if pool.global.len() > 0 && taken == pool.global.first() && exists|moved: int|
            pool.took_global(after, worker, moved) {
            let moved = choose|moved: int| pool.took_global(after, worker, moved);
            let batch = pool.global.subrange(1, moved + 1).reverse();
            lemma_local_count_update(pool, worker, pool.locals[worker] + batch, n);
            assert(after.local_count(n) == (PoolView {
                locals: pool.locals.update(worker, pool.locals[worker] + batch),
                ..pool
            }).local_count(n)) by {
                lemma_local_count_same(
                    after,
                    PoolView {
                        locals: pool.locals.update(worker, pool.locals[worker] + batch),
                        ..pool
                    },
                    n,
                );
            }
        } else {
            let victim = choose|victim: int|
                {
                    &&& 0 <= victim < pool.locals.len()
                    &&& pool.first_with_a_job(victim)
                    &&& taken == pool.locals[victim].first()
                    &&& after == pool.robbed(victim)
                };
            lemma_local_count_update(pool, victim, pool.locals[victim].drop_first(), n);
        }
    }
}

/// The count of the workers' jobs depends on their queues alone.
pub proof fn lemma_local_count_same(first: PoolView, second: PoolView, upto: int)
    requires
        first.locals == second.locals,
    ensures
        first.local_count(upto) == second.local_count(upto),
    decreases upto,
{
    if upto > 0 {
        lemma_local_count_same(first, second, upto - 1);
    }
}

/// The shared run queue and the workers' own queues.
pub struct TasksManager {
    global_queue: crossbeam_deque::Injector<usize>,
    local_queues: Vec<crossbeam_deque::Worker<usize>>,
}

impl View for TasksManager {
    type V = PoolView;

    closed spec fn view(&self) -> PoolView {
        PoolView {
            global: injector_jobs(self.global_queue),
            locals: Seq::new(self.local_queues@.len(), |i: int| worker_jobs(self.local_queues@[i])),
        }
    }
}

impl TasksManager {
    /// Every worker's queue pops the newest job first.
    pub closed spec fn wf(&self) -> bool {
        forall|i: int|
            0 <= i < self.local_queues@.len() ==> worker_lifo(#[trigger] self.local_queues@[i])
    }

    /// An empty shared queue and no worker.
    pub fn new() -> (pool: TasksManager)
        ensures
            pool.wf(),
            pool@ == (PoolView { global: Seq::empty(), locals: Seq::empty() }),
    {
        let pool = TasksManager { global_queue: new_injector(), local_queues: Vec::new() };
        pool
    }

    /// Adds the workers' queues, all empty: as many as the pool has workers.
    pub fn start(&mut self)
        requires
            old(self).wf(),
        ensures
            final(self).wf(),
            final(self)@.global == old(self)@.global,
            final(self)@.locals == old(self)@.locals + Seq::new(
                DEFAULT_TASK_POOL_SIZE as nat,
                |i: int| Seq::<usize>::empty(),
            ),
    {
        let mut added: usize = 0;
        while added < DEFAULT_TASK_POOL_SIZE
            invariant
                added <= DEFAULT_TASK_POOL_SIZE,
                self.wf(),
                self@.global == old(self)@.global,
                self@.locals == old(self)@.locals + Seq::new(
                    added as nat,
                    |i: int| Seq::<usize>::empty(),
                ),
            decreases DEFAULT_TASK_POOL_SIZE - added,
        {
            let ghost before = self@;
            let worker = new_lifo_worker();
            self.local_queues.push(worker);
            assert(self@.locals =~= before.locals.push(Seq::<usize>::empty()));
            added = added + 1;
        }
    }

    /// Number of workers.
    pub fn worker_count(&self) -> (count: usize)
        ensures
            count == self@.locals.len(),
    {
        self.local_queues.len()
    }

    /// Puts `job` on the shared queue, behind the jobs that are there.
    pub fn push(&mut self, job: usize)
        requires
            old(self).wf(),
        ensures
            final(self).wf(),
            final(self)@ == old(self)@.pushed(job),
    {
        inject(&mut self.global_queue, job);
    }

    /// Finds a job for `worker`: the newest of its own queue; else the oldest
    /// of the shared queue, part of which moves to the worker's queue; else
    /// the oldest job of the first worker, in index order, whose queue holds
    /// one. Where the shared queue asks for another try, that counts as a
    /// miss.
    ///
    /// A worker with a job of its own gets that one. Nothing is given when
    /// every queue is empty, or when `worker` is no worker; a worker is given
    /// nothing only if no worker's queue holds a job. Whenever nothing is
    /// given the queues are as they were.
    pub fn get_task(&mut self, worker: usize) -> (job: Option<usize>)
        requires
            old(self).wf(),
        ensures
            final(self).wf(),
            old(self)@.draws(final(self)@, worker as int, job),
    {
        if worker >= self.local_queues.len() {
            return None;
        }
        // 1. local
        if let Some(job) = pop_local(&mut self.local_queues[worker]) {
            assert(self@ =~= old(self)@.popped(worker as int));
            return Some(job);
        }
        // 2. global
        let ghost shared = self@.global;
        if let Some(job) = steal_batch_and_pop(
            &mut self.global_queue,
            &mut self.local_queues[worker],
        ).success() {
            let ghost moved = shared.len() - self@.global.len() - 1;
            assert(self@.locals =~= old(self)@.locals.update(
                worker as int,
                old(self)@.locals[worker as int] + shared.subrange(1, moved + 1).reverse(),
            ));
            assert(old(self)@.took_global(self@, worker as int, moved));
            return Some(job);
        }
        // 3. stealers
        let mut i: usize = 0;
        while i < self.local_queues.len()
            invariant
                self.wf(),
                i <= self.local_queues@.len(),
                worker < self.local_queues@.len(),
                self@ == old(self)@,
                self@.locals[worker as int].len() == 0,
                forall|j: int| 0 <= j < i ==> (#[trigger] self@.locals[j]).len() == 0,
            decreases self.local_queues@.len() - i,
        {
            let outcome = steal_from(&mut self.local_queues[i]);
            if let Some(job) = outcome.success() {
                assert(old(self)@.first_with_a_job(i as int));
                assert(self@ =~= old(self)@.robbed(i as int));
                return Some(job);
            }
            assert(self@ =~= old(self)@);
            assert(self@.locals[i as int].len() == 0);
            i = i + 1;
        }
        None
    }
}

} // verus!
