//! The scheduler: the wheel, the tasks' state and the reactor under one roof.
use crate::calendar::{cron_accepts, now_millis, on_the_second, CronSchedule};
use crate::core_reactor::{elapsed, jobs_of, occurrences, Turn};
use crate::error::SchedulerError;
use crate::once::law_turn_routes_no_task_twice;
use crate::reactor::TaskReactor;
use crate::records::{
    law_one_record_per_task, lemma_placed_records, lemma_wheel_records_none, records, single,
    within,
};
use crate::suppression::{
    law_pause_suppression, lemma_placed_holds, lemma_registered_suppressed,
    lemma_status_updated_suppressed, lemma_with_actor_suppressed, suppressed,
};
use crate::task::{RepeatModel, Task, TaskOrderType, TaskStatus};
use crate::task_actor::{ActorView, TaskActor};
use crate::task_manager::{ManagerView, TaskManager};
use crate::task_reactor::PoolView;
use crate::time_wheel::{delay, delay_until, empty_wheel, TickAnswers, TierTimeWheel, TierView};
use vstd::prelude::*;

verus! {

/// What the scheduler holds: the wheel, the tasks' state, the run queues, and
/// the milliseconds that the next tick lets pass.
#[verifier::ext_equal]
pub struct SchedulerView {
    pub wheel: TierView,
    pub manager: ManagerView,
    pub pool: PoolView,
    pub delta: int,
}

/// The text that a schedule is parsed from, where the cron parser accepts
/// `cron`.
pub open spec fn parsed(cron: Seq<char>) -> Option<Seq<char>> {
    if cron_accepts(cron) {
        Some(cron)
    } else {
        None
    }
}

/// The scheduler as it is made: four empty rings, no task, an empty shared
/// run queue, an empty queue for each worker, and a first tick of one tick
/// time. `last_id` is what it counts as the last id handed out.
pub open spec fn fresh(last_id: usize) -> SchedulerView {
    SchedulerView {
        wheel: TierView {
            millisecond: empty_wheel(10, 100),
            second: empty_wheel(60, 1000),
            minute: empty_wheel(60, 60000),
            hour: empty_wheel(24, 3600000),
        },
        manager: ManagerView {
            counter: last_id as int,
            live: Map::empty(),
            idle: Map::empty(),
            notices: Seq::empty(),
        },
        pool: PoolView {
            global: Seq::empty(),
            locals: Seq::new(
                crate::config::DEFAULT_TASK_POOL_SIZE as nat,
                |i: int| Seq::<usize>::empty(),
            ),
        },
        delta: crate::config::DEFAULT_TICK_TIME as int,
    }
}

impl SchedulerView {
    /// What a registration gives, for a schedule parsed from `schedule`, or
    /// none if the expression was not accepted, whose next instant is `next`:
    /// the first of these failures, or else the id of the new task, which is
    /// one more than the last id handed out. The failures: the expression was
    /// not accepted; the schedule names no instant; no id is left.
    pub open spec fn registration(
        self,
        schedule: Option<Seq<char>>,
        next: Option<i64>,
    ) -> Result<usize, SchedulerError> {
        match (schedule, next, self.manager.next_id()) {
            (None, _, _) => Err(SchedulerError::CronParse),
            (Some(_), None, _) => Err(SchedulerError::ComputeFailure),
            (Some(_), Some(_), None) => Err(SchedulerError::IdExhausted),
            (Some(_), Some(_), Some(id)) => Ok(id),
        }
    }

    /// The scheduler after such a registration at `now`. A registration that
    /// fails leaves the scheduler as it was: no id is used up, so the ids of
    /// the tasks stay dense. On success the new task is live, running, with
    /// the firing instant `next`, and lies in the wheel by its delay from
    /// `now`.
    pub open spec fn registered(
        self,
        schedule: Option<Seq<char>>,
        next: Option<i64>,
        now: i64,
        repeat: RepeatModel,
        order: TaskOrderType,
    ) -> SchedulerView {
        match (schedule, next, self.manager.next_id()) {
            (Some(text), Some(instant), Some(id)) => SchedulerView {
                wheel: self.wheel.placed(
                    Task { task_order_type: order, task_status: TaskStatus::Running, task_id: id },
                    delay_until(instant as int, now as int),
                ),
                manager: self.manager.allocated().registered(
                    id,
                    ActorView { schedule: text, repeat, target: instant },
                ),
                ..self
            },
            _ => self,
        }
    }

    /// Whether a registration of `cron` may end in the state `after` with the
    /// result `result`, where the schedule answered `next`, a whole second if
    /// it names an instant, and the clock read `now`.
    pub open spec fn registers(
        self,
        after: SchedulerView,
        result: Result<usize, SchedulerError>,
        cron: Seq<char>,
        repeat: RepeatModel,
        order: TaskOrderType,
        next: Option<i64>,
        now: i64,
    ) -> bool {
        &&& on_the_second(next)
        &&& result == self.registration(parsed(cron), next)
        &&& after == self.registered(parsed(cron), next, now, repeat, order)
    }

    /// The scheduler after a request to give task `id` the status `status`.
    pub open spec fn status_updated(self, id: usize, status: TaskStatus) -> SchedulerView {
        SchedulerView { manager: self.manager.status_updated(id, status), ..self }
    }

    /// What a request to give task `id` the schedule `cron` gives.
    pub open spec fn retuning(self, id: usize, cron: Seq<char>) -> Result<(), SchedulerError> {
        if !cron_accepts(cron) {
            Err(SchedulerError::CronParse)
        } else if !self.manager.knows(id) {
            Err(SchedulerError::UnknownTask)
        } else {
            Ok(())
        }
    }

    /// The scheduler after such a request, where `next` is the next instant
    /// of the new schedule.
    pub open spec fn retuned(self, id: usize, cron: Seq<char>, next: Option<i64>) -> SchedulerView {
        if cron_accepts(cron) {
            SchedulerView { manager: self.manager.retuned(id, cron, next), ..self }
        } else {
            self
        }
    }

    /// Whether such a request may end in the state `after`, where the new
    /// schedule answered `next`, a whole second if it names an instant.
    pub open spec fn retunes(
        self,
        after: SchedulerView,
        id: usize,
        cron: Seq<char>,
        next: Option<i64>,
    ) -> bool {
        on_the_second(next) && after == self.retuned(id, cron, next)
    }

    /// The part of the scheduler that a turn of the reactor works on.
    pub open spec fn turn(self) -> Turn {
        Turn { wheel: self.wheel, manager: self.manager, pool: self.pool }
    }
}

/// An in-process scheduler that fires tasks at the instants of their cron
/// schedules.
pub struct Scheduler {
    time_wheel: TierTimeWheel,
    task_reactor: TaskReactor,
    task_manager: TaskManager,
}

impl View for Scheduler {
    type V = SchedulerView;

    closed spec fn view(&self) -> SchedulerView {
        SchedulerView {
            wheel: self.time_wheel@,
            manager: self.task_manager@,
            pool: self.task_reactor.pool(),
            delta: self.task_reactor.delta(),
        }
    }
}

impl Scheduler {
    /// The parts are well formed; every parked task that the wheel holds
    /// will have ceased to count as running once the pending notices have
    /// reached it; and the wheel holds at most one record of each task, all
    /// of them under ids that were handed out.
    pub closed spec fn wf(&self) -> bool {
        &&& self.time_wheel.wf()
        &&& self.task_reactor.wf()
        &&& self.task_manager.wf()
        &&& suppressed(self.time_wheel@, self.task_manager@)
        &&& single(self.time_wheel@)
        &&& within(self.time_wheel@, self.task_manager@.counter)
    }

    /// Well-formedness, as far as the view shows it.
    pub proof fn lemma_wf(&self)
        requires
            self.wf(),
        ensures
            self@.wheel.wf(),
            self@.manager.wf(),
            suppressed(self@.wheel, self@.manager),
            single(self@.wheel),
            within(self@.wheel, self@.manager.counter),
            0 <= self@.delta <= u64::MAX,
    {
        self.task_reactor.lemma_delta_bound();
    }

    /// The wheel.
    pub fn time_wheel(&self) -> (wheel: &TierTimeWheel)
        ensures
            wheel@ == self@.wheel,
    {
        &self.time_wheel
    }

    /// The tasks' state.
    pub fn task_manager(&self) -> (manager: &TaskManager)
        ensures
            manager@ == self@.manager,
    {
        &self.task_manager
    }

    /// A scheduler with an empty wheel, no task, and the workers' queues in
    /// place.
    pub fn new() -> (scheduler: Scheduler)
        ensures
            scheduler.wf(),
            scheduler@ == fresh(0),
    {
        Self::with_last_id(0)
    }

    /// Such a scheduler, which counts `last_id` as the last id handed out.
    pub fn with_last_id(last_id: usize) -> (scheduler: Scheduler)
        ensures
            scheduler.wf(),
            scheduler@ == fresh(last_id),
    {
        let time_wheel = TierTimeWheel::new();
        let mut task_reactor = TaskReactor::new();
        let task_manager = TaskManager::with_last_id(last_id);
        task_reactor.start();
        let scheduler = Scheduler { time_wheel, task_reactor, task_manager };
        assert(scheduler@.pool =~= fresh(last_id).pool);
        assert(scheduler@.wheel =~= fresh(last_id).wheel);
        assert forall|id: usize| #[trigger] records(scheduler.time_wheel@, id) <= 1 by {
            lemma_wheel_records_none(scheduler.time_wheel@, id);
        }
        scheduler
    }

    /// Registers a task at `now`. `schedule` is its parsed schedule, or none
    /// if its expression was not accepted; `next` is the next instant of the
    /// schedule. An id is handed out only when nothing else stands in the
    /// way, so a registration that fails changes nothing.
    pub fn register(
        &mut self,
        schedule: Option<CronSchedule>,
        next: Option<i64>,
        now: i64,
        repeat: RepeatModel,
        order: TaskOrderType,
    ) -> (result: Result<usize, SchedulerError>)
        requires
            old(self).wf(),
        ensures
            final(self).wf(),
            result == old(self)@.registration(
                match schedule {
                    Some(parsed) => Some(parsed@),
                    None => None,
                },
                next,
            ),
            final(self)@ == old(self)@.registered(
                match schedule {
                    Some(parsed) => Some(parsed@),
                    None => None,
                },
                next,
                now,
                repeat,
                order,
            ),
    {
        let cron_schedule = match schedule {
            Some(cron_schedule) => cron_schedule,
            None => {
                return Err(SchedulerError::CronParse);
            },
        };
        let next_time: i64 = match next {
            Some(next_time) => next_time,
            None => {
                return Err(SchedulerError::ComputeFailure);
            },
        };
        if let Some(task_id) = self.task_manager.get_new_id() {
            let milliseconds: i64 = delay(next_time, now);
            let actor = TaskActor::new(cron_schedule, repeat, next_time);
            let task = Task::new(order, task_id);
            proof {
                lemma_registered_suppressed(
                    self.time_wheel@,
                    self.task_manager@,
                    task,
                    milliseconds as int,
                    actor@,
                );
                let wheel = self.time_wheel@;
                assert forall|other: Task| #[trigger] wheel.holds(other) implies other.task_id
                    != task_id by {
                    assert(other.task_id <= old(self).task_manager@.counter);
                }
                lemma_wheel_records_none(wheel, task_id);
                assert forall|id: usize| #[trigger]
                    records(wheel.placed(task, milliseconds as int), id) <= 1 by {
                    lemma_placed_records(wheel, task, milliseconds as int, id);
                    assert(records(wheel, id) <= 1);
                }
                assert forall|other: Task| #[trigger]
                    wheel.placed(task, milliseconds as int).holds(other) implies other.task_id
                    <= task_id by {
                    lemma_placed_holds(wheel, task, milliseconds as int, other);
                    if other != task {
                        assert(wheel.holds(other));
                    }
                }
            }
            self.task_manager.insert_new_task(task_id, actor);
            self.time_wheel.push_T_to_time_wheel(task, milliseconds);
            Ok(task_id)
        } else {
            assert(self@ =~= old(self)@);
            Err(SchedulerError::IdExhausted)
        }
    }

    /// Parses `cron`, asks the schedule for its next instant, reads the
    /// clock, and registers a task of the given kind.
    fn push(&mut self, cron: &str, repeat: RepeatModel, order: TaskOrderType) -> (result: Result<
        usize,
        SchedulerError,
    >)
        requires
            old(self).wf(),
        ensures
            final(self).wf(),
            exists|next: Option<i64>, now: i64|
                old(self)@.registers(final(self)@, result, cron@, repeat, order, next, now),
    {
        let (schedule, next) = match CronSchedule::parse(cron) {
            Ok(parsed) => {
                let next = parsed.upcoming();
                (Some(parsed), next)
            },
            Err(_) => (None, None),
        };
        let now = now_millis();
        let result = self.register(schedule, next, now, repeat, order);
        assert(old(self)@.registers(self@, result, cron@, repeat, order, next, now));
        result
    }

    /// Registers an ordered task; the same as `push_order_task`.
    pub fn push_task(&mut self, cron: &str, repeat: RepeatModel) -> (result: Result<
        usize,
        SchedulerError,
    >)
        requires
            old(self).wf(),
        ensures
            final(self).wf(),
            exists|next: Option<i64>, now: i64|
                old(self)@.registers(
                    final(self)@,
                    result,
                    cron@,
                    repeat,
                    TaskOrderType::Order,
                    next,
                    now,
                ),
    {
        self.push_order_task(cron, repeat)
    }

    /// Registers a task whose firings never overlap: each waits for the one
    /// before it.
    ///
    /// Gives the id of the new task, or the first of these failures:
    /// `CronParse` if the cron parser does not accept `cron`;
    /// `ComputeFailure` if the schedule names no instant to come;
    /// `IdExhausted` if no id is left. A failure changes nothing. What is
    /// fixed of the outcome is fixed by `registers`; the schedule's answer
    /// and the clock's reading are not.
    pub fn push_order_task(&mut self, cron: &str, repeat: RepeatModel) -> (result: Result<
        usize,
        SchedulerError,
    >)
        requires
            old(self).wf(),
        ensures
            final(self).wf(),
            exists|next: Option<i64>, now: i64|
                old(self)@.registers(
                    final(self)@,
                    result,
                    cron@,
                    repeat,
                    TaskOrderType::Order,
                    next,
                    now,
                ),
    {
        self.push(cron, repeat, TaskOrderType::Order)
    }

    /// Registers a task whose firings may overlap. Fails as
    /// `push_order_task` does.
    pub fn push_disorder_task(&mut self, cron: &str, repeat: RepeatModel) -> (result: Result<
        usize,
        SchedulerError,
    >)
        requires
            old(self).wf(),
        ensures
            final(self).wf(),
            exists|next: Option<i64>, now: i64|
                old(self)@.registers(
                    final(self)@,
                    result,
                    cron@,
                    repeat,
                    TaskOrderType::Disorder,
                    next,
                    now,
                ),
    {
        self.push(cron, repeat, TaskOrderType::Disorder)
    }

    /// Parks a live task: it stays in the wheel and does not fire. Succeeds
    /// on a known task, parked or not.
    pub fn pause_task_by_id(&mut self, task_id: usize) -> (paused: bool)
        requires
            old(self).wf(),
        ensures
            final(self).wf(),
            paused == old(self)@.manager.accepts(task_id, TaskStatus::Pause),
            final(self)@ == old(self)@.status_updated(task_id, TaskStatus::Pause),
    {
        proof {
            lemma_status_updated_suppressed(
                self.time_wheel@,
                self.task_manager@,
                task_id,
                TaskStatus::Pause,
            );
        }
        self.task_manager.update_task_status_by_id(task_id, TaskStatus::Pause)
    }

    /// Makes a parked task live again. Succeeds on a parked task.
    pub fn restart_task_by_id(&mut self, task_id: usize) -> (restarted: bool)
        requires
            old(self).wf(),
        ensures
            final(self).wf(),
            restarted == old(self)@.manager.accepts(task_id, TaskStatus::Running),
            final(self)@ == old(self)@.status_updated(task_id, TaskStatus::Running),
    {
        proof {
            lemma_status_updated_suppressed(
                self.time_wheel@,
                self.task_manager@,
                task_id,
                TaskStatus::Running,
            );
        }
        self.task_manager.update_task_status_by_id(task_id, TaskStatus::Running)
    }

    /// Forgets a task, live or parked. Succeeds on a known task.
    pub fn destory_task_by_id(&mut self, task_id: usize) -> (destroyed: bool)
        requires
            old(self).wf(),
        ensures
            final(self).wf(),
            destroyed == old(self)@.manager.accepts(task_id, TaskStatus::Destory),
            final(self)@ == old(self)@.status_updated(task_id, TaskStatus::Destory),
    {
        proof {
            lemma_status_updated_suppressed(
                self.time_wheel@,
                self.task_manager@,
                task_id,
                TaskStatus::Destory,
            );
        }
        self.task_manager.update_task_status_by_id(task_id, TaskStatus::Destory)
    }

    /// Gives a task the schedule parsed from `cron`. Fails with `CronParse`
    /// if the cron parser does not accept `cron`, else with `UnknownTask` if
    /// `task_id` names no task; a failure changes nothing. On success the
    /// task has the new schedule, and its firing instant is the next instant
    /// of that schedule, if it names one.
    pub fn update_cron_by_id(&mut self, task_id: usize, cron: &str) -> (result: Result<
        (),
        SchedulerError,
    >)
        requires
            old(self).wf(),
        ensures
            final(self).wf(),
            result == old(self)@.retuning(task_id, cron@),
            exists|next: Option<i64>| #[trigger]
                old(self)@.retunes(final(self)@, task_id, cron@, next),
    {
        match CronSchedule::parse(cron) {
            Ok(cron_schedule) => {
                let ghost before = self.task_manager@;
                let updated = self.task_manager.update_cron_by_id(task_id, cron_schedule);
                proof {
                    let next = choose|next: Option<i64>| #[trigger]
                        before.retunes(self.task_manager@, task_id, cron@, next);
                    assert(self@ =~= old(self)@.retuned(task_id, cron@, next));
                    assert(old(self)@.retunes(self@, task_id, cron@, next));
                    match before.actor(task_id) {
                        Some(actor) => {
                            lemma_with_actor_suppressed(
                                self.time_wheel@,
                                before,
                                task_id,
                                actor.retuned(cron@, next),
                            );
                        },
                        None => {},
                    }
                }
                if !updated {
                    return Err(SchedulerError::UnknownTask);
                }
                Ok(())
            },
            Err(_) => {
                assert(self@ =~= old(self)@.retuned(task_id, cron@, None));
                assert(old(self)@.retunes(self@, task_id, cron@, None));
                Err(SchedulerError::CronParse)
            },
        }
    }

    /// One turn of the reactor, begun at `start_time`: the notices reach the
    /// tasks in the wheel, the wheel ticks by the time that the last turn
    /// took, the disordered firings go to the shared run queue, and the time
    /// of this turn is kept for the next. Gives the ordered firings, for the
    /// mailboxes of their tasks.
    pub fn turn(&mut self, start_time: i64) -> (ordered: Vec<usize>)
        requires
            old(self).wf(),
        ensures
            final(self).wf(),
            exists|now: i64, answers: TickAnswers|
                old(self)@.turn().turns_into(
                    final(self)@.turn(),
                    ordered@,
                    old(self)@.delta,
                    now as int,
                    answers,
                ),
            exists|end_time: i64| final(self)@.delta == elapsed(start_time as int, end_time as int),
            final(self)@.manager.idle.dom() == old(self)@.manager.idle.dom(),
            final(self)@.manager.live.dom() == old(self)@.manager.live.dom(),
            final(self)@.manager.counter == old(self)@.manager.counter,
            forall|k: int|
                0 <= k < ordered@.len() ==> !old(self)@.manager.idle.contains_key(
                    #[trigger] ordered@[k],
                ),
            old(self)@.pool.global.len() <= final(self)@.pool.global.len(),
            final(self)@.pool.global.subrange(0, old(self)@.pool.global.len() as int)
                == old(self)@.pool.global,
            forall|k: int|
                old(self)@.pool.global.len() <= k < final(self)@.pool.global.len()
                    ==> !old(self)@.manager.idle.contains_key(#[trigger] final(self)@.pool.global[k]),
            final(self)@.pool.locals == old(self)@.pool.locals,
            forall|id: usize|
                occurrences(#[trigger] ordered@, id) + occurrences(
                    final(self)@.pool.global.skip(old(self)@.pool.global.len() as int),
                    id,
                ) <= 1,
    {
        let ordered = self.task_reactor.turn(
            &mut self.time_wheel,
            &mut self.task_manager,
            start_time,
        );
        proof {
            let (now, answers) = choose|now: i64, answers: TickAnswers|
                old(self)@.turn().turns_into(
                    self@.turn(),
                    ordered@,
                    old(self)@.delta,
                    now as int,
                    answers,
                );
            assert(old(self)@.turn().turns_into(
                self@.turn(),
                ordered@,
                old(self)@.delta,
                now as int,
                answers,
            ));
            old(self).lemma_wf();
            law_pause_suppression(old(self)@.turn(), old(self)@.delta, now as int, answers);
            law_one_record_per_task(old(self)@.turn(), old(self)@.delta, now as int, answers);
            law_turn_routes_no_task_twice(old(self)@.turn(), old(self)@.delta, now as int, answers);
            let added = jobs_of(
                old(self)@.turn().harvest(old(self)@.delta, now as int, answers).fired,
                TaskOrderType::Disorder,
            );
            assert(self@.pool.global == old(self)@.pool.global + added);
            assert(self@.pool.global.skip(old(self)@.pool.global.len() as int) =~= added);
            assert(self@.pool.global.subrange(0, old(self)@.pool.global.len() as int)
                =~= old(self)@.pool.global);
            assert forall|k: int|
                old(self)@.pool.global.len() <= k < self@.pool.global.len()
                    implies !old(self)@.manager.idle.contains_key(#[trigger] self@.pool.global[k]) by {
                assert(self@.pool.global[k] == added[k - old(self)@.pool.global.len()]);
            }
        }
        ordered
    }

    /// Finds a job for `worker`: the newest of its own queue, else the oldest
    /// of the shared queue, else the oldest of another worker's queue. The
    /// wheel and the tasks are left alone.
    pub fn get_task(&mut self, worker: usize) -> (job: Option<usize>)
        requires
            old(self).wf(),
        ensures
            final(self).wf(),
            final(self)@.wheel == old(self)@.wheel,
            final(self)@.manager == old(self)@.manager,
            final(self)@.delta == old(self)@.delta,
            old(self)@.pool.draws(final(self)@.pool, worker as int, job),
    {
        self.task_reactor.get_task(worker)
    }
}

} // verus!
