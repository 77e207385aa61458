//! What holds of the scheduler whatever the schedules answer and whatever
//! the clock reads.
use crate::core_reactor::{jobs_of, Turn};
use crate::scheduler::SchedulerView;
use crate::suppression::{
    lemma_noticed_holds, lemma_placed_holds, lemma_tick_quiet, lemma_with_actor_same_tasks,
    same_tasks,
};
use crate::error::SchedulerError;
use crate::task::{RepeatModel, Task, TaskOrderType, TaskStatus};
use crate::task_manager::ManagerView;
use crate::time_wheel::{
    hours_ahead, is_due, noticed, slot_of, tier_of, Dispatch, Harvest, TickAnswers, Tier,
    TierView, WheelView,
};
use vstd::prelude::*;

verus! {

/// The repeat state after `counted` firings: a count falls by one with each
/// firing and stops at zero; the other states never change.
pub proof fn lemma_ticked_times(repeat: RepeatModel, counted: nat)
    ensures
        repeat.ticked_times(counted) == match repeat {
            RepeatModel::Once => RepeatModel::Once,
            RepeatModel::Repetition => RepeatModel::Repetition,
            RepeatModel::Times(times) => RepeatModel::Times(
                if times >= counted {
                    (times - counted) as usize
                } else {
                    0
                },
            ),
        },
    decreases counted,
{
    if counted > 0 {
        lemma_ticked_times(repeat.ticked(), (counted - 1) as nat);
    }
}

/// How often a task fires. After `counted` firings have been counted, the firing that
/// is counted next is followed by another one exactly if the task repeats
/// without end, or was registered for more than `counted + 1` firings. So a
/// task registered for `n >= 1` firings has its `n`th firing as its last,
/// and a task registered for one firing has its first as its last.
pub proof fn law_repeat_bounds(repeat: RepeatModel, counted: nat)
    ensures
        repeat.ticked_times(counted).fires_again() == match repeat {
            RepeatModel::Once => false,
            RepeatModel::Repetition => true,
            RepeatModel::Times(times) => counted + 1 < times,
        },
{
    lemma_ticked_times(repeat, counted);
}

/// Whether the harvest of `task` at `now` fires it: the task counts as
/// running, its state is known, and its firing instant is at most the slack
/// ahead.
pub open spec fn fires(harvest: Harvest, task: Task, now: int) -> bool {
    &&& task.task_status == TaskStatus::Running
    &&& harvest.manager.actor(task.task_id) matches Some(actor)
    &&& is_due(actor.target as int, now)
}

/// What one harvest does to one task. The harvest of a task fires it exactly if
/// it is running, known and due, and then once. With the firing the firing
/// is counted; the task goes back into the wheel only if another firing
/// follows, and then with the instant that its schedule named next as its
/// new firing instant.
pub proof fn law_fires_once(harvest: Harvest, task: Task, now: int, next: Option<i64>)
    requires
        harvest.wf(),
    ensures
        fires(harvest, task, now) ==> {
            let after = harvest.take(task, now, next);
            let actor = harvest.manager.actor(task.task_id)->Some_0;
            &&& after.fired == harvest.fired.push(
                Dispatch { task_id: task.task_id, task_order_type: task.task_order_type },
            )
            &&& after.manager.actor(task.task_id) matches Some(counted)
            &&& counted.repeat == actor.repeat.ticked()
            &&& counted.schedule == actor.schedule
            &&& (actor.repeat.fires_again() && next is Some ==> {
                &&& counted.target == next->Some_0
                &&& after.wheel.holds(task)
            })
            &&& (!actor.repeat.fires_again() || next is None ==> {
                &&& counted.target == actor.target
                &&& after.wheel == harvest.wheel
            })
        },
        !fires(harvest, task, now) ==> harvest.take(task, now, next).fired == harvest.fired,
{
    if fires(harvest, task, now) {
        let actor = harvest.manager.actor(task.task_id)->Some_0;
        lemma_with_actor_same_tasks(harvest.manager, task.task_id, actor.ticked());
        if actor.repeat.fires_again() && next is Some {
            let after = harvest.take(task, now, next);
            let milliseconds = choose|milliseconds: int|
                after.wheel == harvest.wheel.placed(task, milliseconds);
            lemma_placed_holds(harvest.wheel, task, milliseconds, task);
        }
    }
}

/// The harvest of a bucket keeps the firings that were there and adds at
/// most one for each task of the bucket.
pub proof fn law_bucket_fires_each_at_most_once(
    harvest: Harvest,
    tasks: Seq<Task>,
    now: int,
    nexts: Seq<Option<i64>>,
)
    ensures
        harvest.fired.len() <= harvest.take_all(tasks, now, nexts).fired.len() <= harvest.fired.len()
            + tasks.len(),
        harvest.take_all(tasks, now, nexts).fired.subrange(0, harvest.fired.len() as int)
            == harvest.fired,
    decreases tasks.len(),
{
    if tasks.len() > 0 {
        let first = harvest.take(tasks.last(), now, nexts[tasks.len() - 1]);
        law_bucket_fires_each_at_most_once(first, tasks.drop_last(), now, nexts);
        let end = first.take_all(tasks.drop_last(), now, nexts);
        assert(end.fired.subrange(0, harvest.fired.len() as int) =~= end.fired.subrange(
            0,
            first.fired.len() as int,
        ).subrange(0, harvest.fired.len() as int));
        assert(first.fired.subrange(0, harvest.fired.len() as int) =~= harvest.fired);
    } else {
        assert(harvest.fired.subrange(0, harvest.fired.len() as int) =~= harvest.fired);
    }
}

/// Every firing is routed exactly once: to the mailbox of its task if the
/// task is ordered, to the shared run queue if it is not.
pub proof fn law_routed_once(fired: Seq<Dispatch>)
    ensures
        jobs_of(fired, TaskOrderType::Order).len() + jobs_of(fired, TaskOrderType::Disorder).len()
            == fired.len(),
    decreases fired.len(),
{
    if fired.len() > 0 {
        law_routed_once(fired.drop_last());
    }
}

/// Ids are fresh. An id that is handed out names no task yet, and the id
/// handed out after it is greater by one: no id is handed out twice.
pub proof fn law_id_uniqueness(manager: ManagerView)
    requires
        manager.wf(),
    ensures
        manager.allocated().wf(),
        manager.next_id() matches Some(id) ==> {
            &&& !manager.knows(id)
            &&& id == manager.counter + 1
            &&& manager.allocated().counter == id
            &&& manager.allocated().reserved(id)
            &&& (manager.allocated().next_id() matches Some(after) ==> after == id + 1)
        },
        manager.next_id() is None ==> manager.allocated() == manager,
{
}

/// Ids are dense. A registration that fails leaves the scheduler as it was
/// and uses up no id; one that succeeds hands out the id that follows the
/// last one handed out, and counts it.
pub proof fn law_ids_dense(
    scheduler: SchedulerView,
    schedule: Option<Seq<char>>,
    next: Option<i64>,
    now: i64,
    repeat: RepeatModel,
    order: TaskOrderType,
)
    requires
        scheduler.manager.wf(),
    ensures
        scheduler.registration(schedule, next) is Err ==> scheduler.registered(
            schedule,
            next,
            now,
            repeat,
            order,
        ) == scheduler,
        scheduler.registration(schedule, next) matches Ok(id) ==> {
            &&& id == scheduler.manager.counter + 1
            &&& scheduler.registered(schedule, next, now, repeat, order).manager.counter == id
            &&& scheduler.registered(schedule, next, now, repeat, order).manager.live.contains_key(
                id,
            )
        },
        scheduler.registration(schedule, next) == Err::<usize, SchedulerError>(
            SchedulerError::CronParse,
        ) <==> schedule is None,
        scheduler.registration(schedule, next) == Err::<usize, SchedulerError>(
            SchedulerError::ComputeFailure,
        ) <==> schedule is Some && next is None,
        scheduler.registration(schedule, next) == Err::<usize, SchedulerError>(
            SchedulerError::IdExhausted,
        ) <==> schedule is Some && next is Some && scheduler.manager.counter >= usize::MAX,
{
}

/// Two registrations, one after the other, never give the same id.
pub proof fn law_registrations_differ(
    scheduler: SchedulerView,
    first_schedule: Option<Seq<char>>,
    first_next: Option<i64>,
    first_now: i64,
    first_repeat: RepeatModel,
    first_order: TaskOrderType,
    second_schedule: Option<Seq<char>>,
    second_next: Option<i64>,
)
    requires
        scheduler.manager.wf(),
    ensures
        ({
            let first = scheduler.registration(first_schedule, first_next);
            let second = scheduler.registered(
                first_schedule,
                first_next,
                first_now,
                first_repeat,
                first_order,
            ).registration(second_schedule, second_next);
            first matches Ok(a) ==> (second matches Ok(b) ==> a < b)
        }),
{
}

/// A new schedule is taken up. A task that is given a schedule has that
/// schedule from then on, and its firing instant is the next instant of that
/// schedule, where it names one.
pub proof fn law_update_cron_take_up(
    manager: ManagerView,
    id: usize,
    cron: Seq<char>,
    next: Option<i64>,
)
    requires
        manager.wf(),
        manager.knows(id),
    ensures
        manager.retuned(id, cron, next).wf(),
        same_tasks(manager, manager.retuned(id, cron, next)),
        manager.retuned(id, cron, next).actor(id) matches Some(actor) && actor.schedule == cron
            && actor.repeat == manager.actor(id)->Some_0.repeat && actor.target == match next {
            Some(instant) => instant,
            None => manager.actor(id)->Some_0.target,
        },
{
    let actor = manager.actor(id)->Some_0;
    lemma_with_actor_same_tasks(manager, id, actor.retuned(cron, next));
}

/// Whether every task known to `before` is known to `after` with the same
/// schedule.
pub open spec fn schedules_kept(before: ManagerView, after: ManagerView) -> bool {
    forall|id: usize| #[trigger]
        before.knows(id) ==> after.actor(id) is Some && after.actor(id)->Some_0.schedule
            == before.actor(id)->Some_0.schedule
}

/// The harvest of one task changes no schedule.
pub proof fn lemma_take_keeps_schedules(
    harvest: Harvest,
    task: Task,
    now: int,
    next: Option<i64>,
)
    requires
        harvest.manager.wf(),
    ensures
        harvest.take(task, now, next).manager.wf(),
        schedules_kept(harvest.manager, harvest.take(task, now, next).manager),
{
    let id = task.task_id;
    match harvest.manager.actor(id) {
        Some(actor) => {
            lemma_with_actor_same_tasks(harvest.manager, id, actor.ticked());
            let counted = harvest.manager.ticked(id);
            match next {
                Some(instant) => {
                    lemma_with_actor_same_tasks(harvest.manager, id, actor.retargeted(instant));
                    lemma_with_actor_same_tasks(
                        counted,
                        id,
                        counted.actor(id)->Some_0.retargeted(instant),
                    );
                },
                None => {},
            }
        },
        None => {},
    }
}

/// The harvest of a bucket changes no schedule.
pub proof fn lemma_take_all_keeps_schedules(
    harvest: Harvest,
    tasks: Seq<Task>,
    now: int,
    nexts: Seq<Option<i64>>,
)
    requires
        harvest.manager.wf(),
    ensures
        harvest.take_all(tasks, now, nexts).manager.wf(),
        schedules_kept(harvest.manager, harvest.take_all(tasks, now, nexts).manager),
    decreases tasks.len(),
{
    if tasks.len() > 0 {
        let first = harvest.take(tasks.last(), now, nexts[tasks.len() - 1]);
        lemma_take_keeps_schedules(harvest, tasks.last(), now, nexts[tasks.len() - 1]);
        lemma_take_all_keeps_schedules(first, tasks.drop_last(), now, nexts);
        let end = first.take_all(tasks.drop_last(), now, nexts);
        assert forall|id: usize| #[trigger] harvest.manager.knows(id) implies end.actor_schedule(
            id,
        ) == harvest.actor_schedule(id) && end.manager.actor(id) is Some by {
            assert(first.manager.knows(id));
        }
    }
}

impl Harvest {
    /// The schedule of task `id`, for a known task.
    pub open spec fn actor_schedule(self, id: usize) -> Seq<char> {
        self.manager.actor(id)->Some_0.schedule
    }
}

/// A schedule stays. A turn of the reactor changes no
/// schedule: whatever fires later is asked of the schedule that the task was
/// given last.
pub proof fn law_turn_keeps_schedules(before: Turn, delta: int, now: int, answers: TickAnswers)
    requires
        before.manager.wf(),
    ensures
        schedules_kept(before.manager, before.turned(delta, now, answers).manager),
{
    let start = Harvest {
        wheel: before.wheel.noticed(before.manager.notices),
        manager: before.manager.drained(),
        fired: Seq::empty(),
    };
    let h0 = Harvest { wheel: start.wheel.tick(delta), ..start };
    lemma_turn_keeps_schedules(h0, Tier::Millisecond, now, answers.millisecond);
    let h1 = h0.turn(Tier::Millisecond, now, answers.millisecond);
    lemma_turn_keeps_schedules(h1, Tier::Second, now, answers.second);
    let h2 = h1.turn(Tier::Second, now, answers.second);
    lemma_turn_keeps_schedules(h2, Tier::Minute, now, answers.minute);
    let h3 = h2.turn(Tier::Minute, now, answers.minute);
    lemma_turn_keeps_schedules(h3, Tier::Hour, now, answers.hour);
    let h4 = h3.turn(Tier::Hour, now, answers.hour);
    assert forall|id: usize| #[trigger] before.manager.knows(id) implies h4.manager.actor(id)
        is Some && h4.manager.actor(id)->Some_0.schedule == before.manager.actor(
        id,
    )->Some_0.schedule by {
        assert(h0.manager.knows(id));
        assert(h1.manager.knows(id));
        assert(h2.manager.knows(id));
        assert(h3.manager.knows(id));
    }
}

/// The turn of one ring changes no schedule.
pub proof fn lemma_turn_keeps_schedules(
    harvest: Harvest,
    tier: Tier,
    now: int,
    nexts: Seq<Option<i64>>,
)
    requires
        harvest.manager.wf(),
    ensures
        harvest.turn(tier, now, nexts).manager.wf(),
        schedules_kept(harvest.manager, harvest.turn(tier, now, nexts).manager),
{
    let ring = harvest.wheel.wheel(tier);
    if ring.interval == 0 {
        let start = Harvest {
            wheel: harvest.wheel.with_wheel(tier, ring.rewound().advanced()),
            ..harvest
        };
        lemma_take_all_keeps_schedules(start, ring.due(), now, nexts);
    }
}

/// The ring after `turns` harvests of the bucket under its pointer.
pub open spec fn harvested(ring: WheelView, turns: nat) -> WheelView
    decreases turns,
{
    if turns == 0 {
        ring
    } else {
        harvested(ring.rewound().advanced(), (turns - 1) as nat)
    }
}

/// The slot that lies `offset` slots ahead of the pointer, round the ring.
pub open spec fn ahead(ring: WheelView, offset: int) -> int {
    if ring.pointer + offset >= ring.slots.len() {
        ring.pointer + offset - ring.slots.len()
    } else {
        ring.pointer + offset
    }
}

/// A record put `offset` slots ahead of the pointer comes under the pointer
/// after exactly `offset` harvests of the ring, and is then the last of its
/// bucket.
pub proof fn law_comes_up(ring: WheelView, offset: nat, task: Task)
    requires
        ring.wf(),
        offset < ring.slots.len(),
    ensures
        harvested(ring.put(ahead(ring, offset as int), task), offset).wf(),
        harvested(ring.put(ahead(ring, offset as int), task), offset).pointer == ahead(
            ring,
            offset as int,
        ),
        harvested(ring.put(ahead(ring, offset as int), task), offset).due().len() > 0,
        harvested(ring.put(ahead(ring, offset as int), task), offset).due().last() == task,
    decreases offset,
{
    let slot = ahead(ring, offset as int);
    if offset > 0 {
        let next = ring.rewound().advanced();
        assert(ring.put(slot, task).rewound().advanced() =~= next.put(slot, task));
        assert(ahead(next, offset - 1) == slot);
        law_comes_up(next, (offset - 1) as nat, task);
    }
}

/// The number of harvests of its ring after which a record placed with the
/// delay `milliseconds` comes under the pointer.
pub open spec fn turns_ahead(milliseconds: int) -> nat {
    match tier_of(milliseconds) {
        Tier::Millisecond => if milliseconds <= 0 {
            0
        } else {
            ((milliseconds / 100) % 10) as nat
        },
        Tier::Second => ((milliseconds / 1000) % 60) as nat,
        Tier::Minute => ((milliseconds / 1000 / 60) % 60) as nat,
        Tier::Hour => hours_ahead(milliseconds) as nat,
    }
}

/// Where a placed record comes up. A record placed with a delay lies in the
/// ring of its tier as many slots ahead of the pointer as the delay holds
/// slot widths, counted round the ring, and in the hour ring no further
/// than the farthest slot, 23 ahead. It comes under the pointer after that
/// many harvests of the ring.
pub proof fn law_placed_comes_up(wheel: TierView, task: Task, milliseconds: int)
    requires
        wheel.wf(),
    ensures
        ({
            let tier = tier_of(milliseconds);
            let turns = turns_ahead(milliseconds);
            let ring = harvested(wheel.placed(task, milliseconds).wheel(tier), turns);
            &&& turns < wheel.wheel(tier).slots.len()
            &&& ring.pointer == slot_of(wheel.wheel(tier).pointer, milliseconds)
            &&& ring.due().len() > 0
            &&& ring.due().last() == task
        }),
{
    let tier = tier_of(milliseconds);
    let ring = wheel.wheel(tier);
    let turns = turns_ahead(milliseconds);
    assert(ahead(ring, turns as int) == slot_of(ring.pointer, milliseconds));
    law_comes_up(ring, turns, task);
}

/// The time that passes adds up: two ticks let pass what one tick of their
/// sum lets pass. So a ring has its turn at the first tick by which its slot
/// width has passed since its last turn.
pub proof fn law_ticks_add(wheel: TierView, first: int, second: int)
    requires
        0 <= first,
        0 <= second,
    ensures
        wheel.tick(first).tick(second) == wheel.tick(first + second),
{
}

/// Whether the wheel holds a record of task `id`.
pub open spec fn has_record(wheel: TierView, id: usize) -> bool {
    exists|task: Task| #[trigger] wheel.holds(task) && task.task_id == id
}

/// Only what the wheel holds fires. Every firing of a turn of the reactor is
/// of a task of which the wheel held a record when the turn began. So a task
/// whose record was dropped, after its last firing or because it was
/// destroyed, never fires again.
pub proof fn law_fires_only_what_the_wheel_holds(
    before: Turn,
    delta: int,
    now: int,
    answers: TickAnswers,
)
    requires
        before.wheel.wf(),
        before.manager.wf(),
        0 <= delta,
    ensures
        forall|k: int|
            0 <= k < before.harvest(delta, now, answers).fired.len() ==> has_record(
                before.wheel,
                (#[trigger] before.harvest(delta, now, answers).fired[k]).task_id,
            ),
{
    let absent = Set::new(|id: usize| !has_record(before.wheel, id));
    let notices = before.manager.notices;
    let start = Harvest {
        wheel: before.wheel.noticed(notices),
        manager: before.manager.drained(),
        fired: Seq::empty(),
    };
    lemma_noticed_holds(before.wheel, notices, arbitrary());
    assert forall|other: Task| #[trigger]
        start.wheel.holds(other) && absent.contains(other.task_id) implies other.task_status
        != TaskStatus::Running by {
        lemma_noticed_holds(before.wheel, notices, other);
        let task = choose|task: Task| #[trigger]
            before.wheel.holds(task) && other == noticed(task, notices);
        assert(before.wheel.holds(task) && task.task_id == other.task_id);
    }
    lemma_tick_quiet(start, delta, now, answers, absent);
    let fired = before.harvest(delta, now, answers).fired;
    assert forall|k: int| 0 <= k < fired.len() implies has_record(
        before.wheel,
        (#[trigger] fired[k]).task_id,
    ) by {
        assert(!absent.contains(fired[k].task_id));
    }
}

/// Fidelity of the millisecond ring. A record that is placed with less than
/// a second to go lies as many slots ahead as its delay holds tenths of a
/// second. Each harvest before it comes up takes a slot width, so at least
/// that many tenths have passed when it comes up: it is then due, and less
/// than a tenth of a second early.
pub proof fn law_fine_ring_fidelity(target: i64, placed: i64, now: i64)
    requires
        0 <= target - placed < 1000,
        now - placed >= 100 * ((target - placed) / 100),
    ensures
        tier_of(target - placed) == Tier::Millisecond,
        is_due(target as int, now as int),
        target - now < 100,
{
}

} // verus!
