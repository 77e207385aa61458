//! The reactor: the driver of the wheel together with the run queues.
use crate::core_reactor::{elapsed, CoreReactor, Turn};
use crate::task_manager::TaskManager;
use crate::task_reactor::{PoolView, TasksManager};
use crate::time_wheel::{TickAnswers, TierTimeWheel};
use vstd::prelude::*;

verus! {

/// The driver of the wheel and the run queues that it feeds.
pub struct TaskReactor {
    core_reactor: CoreReactor,
    task_manager: TasksManager,
}

impl TaskReactor {
    pub closed spec fn wf(&self) -> bool {
        self.task_manager.wf()
    }

    /// What the run queues hold.
    pub closed spec fn pool(&self) -> PoolView {
        self.task_manager@
    }

    /// The milliseconds that the next tick lets pass.
    pub closed spec fn delta(&self) -> int {
        self.core_reactor.delta()
    }

    /// The time that a tick lets pass is a count of milliseconds that fits
    /// into 64 bits.
    pub proof fn lemma_delta_bound(&self)
        ensures
            0 <= self.delta() <= u64::MAX,
    {
        self.core_reactor.lemma_delta_bound();
    }

    /// A reactor with an empty shared queue and no worker.
    pub fn new() -> (reactor: TaskReactor)
        ensures
            reactor.wf(),
            reactor.pool() == (PoolView { global: Seq::empty(), locals: Seq::empty() }),
            reactor.delta() == crate::config::DEFAULT_TICK_TIME,
    {
        TaskReactor { core_reactor: CoreReactor::new(), task_manager: TasksManager::new() }
    }

    /// Adds the workers' queues.
    pub fn start(&mut self)
        requires
            old(self).wf(),
        ensures
            final(self).wf(),
            final(self).delta() == old(self).delta(),
            final(self).pool().global == old(self).pool().global,
            final(self).pool().locals == old(self).pool().locals + Seq::new(
                crate::config::DEFAULT_TASK_POOL_SIZE as nat,
                |i: int| Seq::<usize>::empty(),
            ),
    {
        self.task_manager.start();
    }

    /// One turn of the reactor, begun at `start_time`. Gives the ordered
    /// firings, for the mailboxes of their tasks.
    pub fn turn(
        &mut self,
        time_wheel: &mut TierTimeWheel,
        task_manager: &mut TaskManager,
        start_time: i64,
    ) -> (ordered: Vec<usize>)
        requires
            old(self).wf(),
            old(time_wheel).wf(),
            old(task_manager).wf(),
        ensures
            final(self).wf(),
            final(time_wheel).wf(),
            final(task_manager).wf(),
            exists|now: i64, answers: TickAnswers|
                (Turn {
                    wheel: old(time_wheel)@,
                    manager: old(task_manager)@,
                    pool: old(self).pool(),
                }).turns_into(
                    Turn {
                        wheel: final(time_wheel)@,
                        manager: final(task_manager)@,
                        pool: final(self).pool(),
                    },
                    ordered@,
                    old(self).delta(),
                    now as int,
                    answers,
                ),
            exists|end_time: i64| final(self).delta() == elapsed(start_time as int, end_time as int),
    {
        let ordered = self.core_reactor.start(
            time_wheel,
            &mut self.task_manager,
            task_manager,
            start_time,
        );
        proof {
            let before = Turn {
                wheel: old(time_wheel)@,
                manager: old(task_manager)@,
                pool: old(self).pool(),
            };
            let after = Turn { wheel: time_wheel@, manager: task_manager@, pool: self.pool() };
            let (now, answers) = choose|now: i64, answers: TickAnswers|
                before.turns_into(after, ordered@, old(self).delta(), now as int, answers);
            assert(before.turns_into(after, ordered@, old(self).delta(), now as int, answers));
        }
        ordered
    }

    /// The work of one turn at `now`, without the measure of its time.
    pub fn dispatch(
        &mut self,
        time_wheel: &mut TierTimeWheel,
        task_manager: &mut TaskManager,
        now: i64,
    ) -> (ordered: Vec<usize>)
        requires
            old(self).wf(),
            old(time_wheel).wf(),
            old(task_manager).wf(),
        ensures
            final(self).wf(),
            final(time_wheel).wf(),
            final(task_manager).wf(),
            final(self).delta() == old(self).delta(),
            exists|answers: TickAnswers|
                (Turn {
                    wheel: old(time_wheel)@,
                    manager: old(task_manager)@,
                    pool: old(self).pool(),
                }).turns_into(
                    Turn {
                        wheel: final(time_wheel)@,
                        manager: final(task_manager)@,
                        pool: final(self).pool(),
                    },
                    ordered@,
                    old(self).delta(),
                    now as int,
                    answers,
                ),
    {
        let ordered = self.core_reactor.dispatch(
            time_wheel,
            &mut self.task_manager,
            task_manager,
            now,
        );
        proof {
            let before = Turn {
                wheel: old(time_wheel)@,
                manager: old(task_manager)@,
                pool: old(self).pool(),
            };
            let after = Turn { wheel: time_wheel@, manager: task_manager@, pool: self.pool() };
            let answers = choose|answers: TickAnswers|
                before.turns_into(after, ordered@, old(self).delta(), now as int, answers);
            assert(before.turns_into(after, ordered@, old(self).delta(), now as int, answers));
        }
        ordered
    }

    /// Keeps the time that a turn took, from `start_time` to `end_time`.
    pub fn measure(&mut self, start_time: i64, end_time: i64)
        requires
            old(self).wf(),
        ensures
            final(self).wf(),
            final(self).pool() == old(self).pool(),
            final(self).delta() == elapsed(start_time as int, end_time as int),
    {
        self.core_reactor.measure(start_time, end_time);
    }

    /// Finds a job for `worker`; see `TasksManager::get_task`.
    pub fn get_task(&mut self, worker: usize) -> (job: Option<usize>)
        requires
            old(self).wf(),
        ensures
            final(self).wf(),
            final(self).delta() == old(self).delta(),
            old(self).pool().draws(final(self).pool(), worker as int, job),
    {
        self.task_manager.get_task(worker)
    }
}

} // verus!
