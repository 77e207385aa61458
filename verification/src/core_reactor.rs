//! The driver: one turn drains the notices, ticks the wheel, and routes what
//! fired.
use crate::calendar::now_millis;
use crate::config::DEFAULT_TICK_TIME;
use crate::task::TaskOrderType;
use crate::task_manager::{ManagerView, TaskManager};
use crate::task_reactor::{PoolView, TasksManager};
use crate::time_wheel::{Dispatch, Harvest, TickAnswers, TierTimeWheel, TierView};
use vstd::prelude::*;

verus! {

/// The ids of the firings of kind `order` among `fired`, in their order.
pub open spec fn jobs_of(fired: Seq<Dispatch>, order: TaskOrderType) -> Seq<usize>
    decreases fired.len(),
{
    if fired.len() == 0 {
        Seq::empty()
    } else if fired.last().task_order_type == order {
        jobs_of(fired.drop_last(), order).push(fired.last().task_id)
    } else {
        jobs_of(fired.drop_last(), order)
    }
}

/// How often `id` occurs among `jobs`.
pub open spec fn occurrences(jobs: Seq<usize>, id: usize) -> nat
    decreases jobs.len(),
{
    if jobs.len() == 0 {
        0
    } else {
        occurrences(jobs.drop_last(), id) + if jobs.last() == id {
            1nat
        } else {
            0nat
        }
    }
}

/// The milliseconds from `start` to `end`; none if the clock went back.
pub open spec fn elapsed(start: int, end: int) -> int {
    if end <= start {
        0
    } else {
        end - start
    }
}

/// The milliseconds from `start` to `end`; none if the clock went back.
pub fn elapsed_millis(start: i64, end: i64) -> (milliseconds: u64)
    ensures
        milliseconds == elapsed(start as int, end as int),
{
    if end <= start {
        0
    } else if start >= 0 {
        (end - start) as u64
    } else if end < 0 {
        (end - start) as u64
    } else {
        let below: u64 = (-(start + 1)) as u64 + 1;
        end as u64 + below
    }
}

/// What one turn of the reactor works on.
pub struct Turn {
    pub wheel: TierView,
    pub manager: ManagerView,
    pub pool: PoolView,
}

impl Turn {
    /// The harvest of a turn at `now`, `delta` milliseconds after the last:
    /// the notices reach the tasks in the wheel and are gone, then the wheel
    /// ticks.
    pub open spec fn harvest(self, delta: int, now: int, answers: TickAnswers) -> Harvest {
        (Harvest {
            wheel: self.wheel.noticed(self.manager.notices),
            manager: self.manager.drained(),
            fired: Seq::empty(),
        }).tick(delta, now, answers)
    }

    /// The state after such a turn: the disordered firings are on the shared
    /// run queue, in the order in which they were decided.
    pub open spec fn turned(self, delta: int, now: int, answers: TickAnswers) -> Turn {
        let harvest = self.harvest(delta, now, answers);
        Turn {
            wheel: harvest.wheel,
            manager: harvest.manager,
            pool: PoolView {
                global: self.pool.global + jobs_of(harvest.fired, TaskOrderType::Disorder),
                ..self.pool
            },
        }
    }

    /// Whether such a turn ends in the state `after` and gives the ordered
    /// firings `ordered`, where the schedules gave the `answers`, each a whole
    /// second if it names an instant.
    pub open spec fn turns_into(
        self,
        after: Turn,
        ordered: Seq<usize>,
        delta: int,
        now: int,
        answers: TickAnswers,
    ) -> bool {
        &&& answers.on_the_second()
        &&& after == self.turned(delta, now, answers)
        &&& ordered == self.ordered(delta, now, answers)
    }

    /// The ordered firings of such a turn, in the order in which they were
    /// decided.
    pub open spec fn ordered(self, delta: int, now: int, answers: TickAnswers) -> Seq<usize> {
        jobs_of(self.harvest(delta, now, answers).fired, TaskOrderType::Order)
    }
}

/// The driver of the wheel. It keeps the time that the last turn took, which
/// is what the next tick lets pass.
pub struct CoreReactor {
    tick_delta: u64,
}

impl CoreReactor {
    /// The milliseconds that the next tick lets pass.
    pub closed spec fn delta(&self) -> int {
        self.tick_delta as int
    }

    /// The time that a tick lets pass is a count of milliseconds that fits
    /// into 64 bits.
    pub proof fn lemma_delta_bound(&self)
        ensures
            0 <= self.delta() <= u64::MAX,
    {
    }

    /// A reactor whose first tick lets one tick time pass.
    pub fn new() -> (reactor: CoreReactor)
        ensures
            reactor.delta() == DEFAULT_TICK_TIME,
    {
        CoreReactor { tick_delta: DEFAULT_TICK_TIME }
    }

    /// The milliseconds that the next tick lets pass.
    pub fn tick_delta(&self) -> (delta: u64)
        ensures
            delta == self.delta(),
    {
        self.tick_delta
    }

    /// Sends each firing where it belongs: a disordered one to the shared run
    /// queue, an ordered one to the result, for the mailbox of its task.
    pub fn route(fired: &Vec<Dispatch>, global_queue: &mut TasksManager) -> (ordered: Vec<usize>)
        requires
            old(global_queue).wf(),
        ensures
            final(global_queue).wf(),
            ordered@ == jobs_of(fired@, TaskOrderType::Order),
            final(global_queue)@ == (PoolView {
                global: old(global_queue)@.global + jobs_of(fired@, TaskOrderType::Disorder),
                ..old(global_queue)@
            }),
    {
        let mut ordered: Vec<usize> = Vec::new();
        let mut i: usize = 0;
        while i < fired.len()
            invariant
                i <= fired@.len(),
                global_queue.wf(),
                ordered@ == jobs_of(fired@.subrange(0, i as int), TaskOrderType::Order),
                global_queue@ == (PoolView {
                    global: old(global_queue)@.global + jobs_of(
                        fired@.subrange(0, i as int),
                        TaskOrderType::Disorder,
                    ),
                    ..old(global_queue)@
                }),
            decreases fired@.len() - i,
        {
            let dispatch = fired[i];
            assert(fired@.subrange(0, i + 1).drop_last() =~= fired@.subrange(0, i as int));
            match dispatch.task_order_type {
                TaskOrderType::Order => {
                    ordered.push(dispatch.task_id);
                },
                TaskOrderType::Disorder => {
                    global_queue.push(dispatch.task_id);
                },
            }
            i = i + 1;
        }
        assert(fired@.subrange(0, i as int) =~= fired@);
        ordered
    }

    /// The work of one turn at `now`: the notices are drained and reach the
    /// tasks in the wheel, the wheel ticks by the time that the last turn
    /// took, and the firings are routed. Gives the ordered firings.
    pub fn dispatch(
        &self,
        time_wheel: &mut TierTimeWheel,
        global_queue: &mut TasksManager,
        task_manager: &mut TaskManager,
        now: i64,
    ) -> (ordered: Vec<usize>)
        requires
            old(time_wheel).wf(),
            old(global_queue).wf(),
            old(task_manager).wf(),
        ensures
            final(time_wheel).wf(),
            final(global_queue).wf(),
            final(task_manager).wf(),
            exists|answers: TickAnswers|
                (Turn {
                    wheel: old(time_wheel)@,
                    manager: old(task_manager)@,
                    pool: old(global_queue)@,
                }).turns_into(
                    Turn {
                        wheel: final(time_wheel)@,
                        manager: final(task_manager)@,
                        pool: final(global_queue)@,
                    },
                    ordered@,
                    self.delta(),
                    now as int,
                    answers,
                ),
    {
        let notices = task_manager.drain_notice_list();
        time_wheel.apply_notices(&notices);
        let fired = time_wheel.tick(self.tick_delta, task_manager, now);
        let ordered = Self::route(&fired, global_queue);
        proof {
            let before = Turn {
                wheel: old(time_wheel)@,
                manager: old(task_manager)@,
                pool: old(global_queue)@,
            };
            let start = Harvest {
                wheel: before.wheel.noticed(before.manager.notices),
                manager: before.manager.drained(),
                fired: Seq::empty(),
            };
            let answers = choose|answers: TickAnswers|
                start.ticks_into(
                    Harvest { wheel: time_wheel@, manager: task_manager@, fired: fired@ },
                    self.delta(),
                    now as int,
                    answers,
                );
            assert(before.turns_into(
                Turn { wheel: time_wheel@, manager: task_manager@, pool: global_queue@ },
                ordered@,
                self.delta(),
                now as int,
                answers,
            ));
        }
        ordered
    }

    /// Keeps the time that a turn took, from `start_time` to `end_time`.
    pub fn measure(&mut self, start_time: i64, end_time: i64)
        ensures
            final(self).delta() == elapsed(start_time as int, end_time as int),
    {
        self.tick_delta = elapsed_millis(start_time, end_time);
    }

    /// One turn of the reactor, begun at `start_time`: the work of the turn at
    /// the present moment, and then the measure of the time that the turn
    /// took, to the moment at which the work is done.
    pub fn start(
        &mut self,
        time_wheel: &mut TierTimeWheel,
        global_queue: &mut TasksManager,
        task_manager: &mut TaskManager,
        start_time: i64,
    ) -> (ordered: Vec<usize>)
        requires
            old(time_wheel).wf(),
            old(global_queue).wf(),
            old(task_manager).wf(),
        ensures
            final(time_wheel).wf(),
            final(global_queue).wf(),
            final(task_manager).wf(),
            exists|now: i64, answers: TickAnswers|
                (Turn {
                    wheel: old(time_wheel)@,
                    manager: old(task_manager)@,
                    pool: old(global_queue)@,
                }).turns_into(
                    Turn {
                        wheel: final(time_wheel)@,
                        manager: final(task_manager)@,
                        pool: final(global_queue)@,
                    },
                    ordered@,
                    old(self).delta(),
                    now as int,
                    answers,
                ),
            exists|end_time: i64| final(self).delta() == elapsed(start_time as int, end_time as int),
    {
        let now = now_millis();
        let ordered = self.dispatch(time_wheel, global_queue, task_manager, now);
        let end_time = now_millis();
        self.measure(start_time, end_time);
        ordered
    }
}

} // verus!
