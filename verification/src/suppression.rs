//! Why a parked task does not fire.
//!
//! A task is parked from the moment a pause succeeds until a restart
//! succeeds. The wheel may still hold its record, and the record may still
//! say `Running`: the notice of the pause reaches it at the next turn of the
//! reactor, before anything is harvested. The lemmas here show that this is
//! enough: no turn fires a task that is parked when the turn begins.
use crate::core_reactor::{jobs_of, Turn};
use crate::task::{Task, TaskOrderType, TaskStatus};
use crate::task_manager::ManagerView;
use crate::time_wheel::{
    noticed, slot_of, status_after, tier_of, Dispatch, Harvest, TickAnswers, Tier, TierView,
    WheelView,
};
use vstd::prelude::*;

verus! {

/// Whether no task of `parked` that the wheel holds counts as running.
pub open spec fn calm(wheel: TierView, parked: Set<usize>) -> bool {
    forall|task: Task| #[trigger]
        wheel.holds(task) && parked.contains(task.task_id) ==> task.task_status
            != TaskStatus::Running
}

/// Whether no firing among `fired` is of a task of `parked`.
pub open spec fn silent(fired: Seq<Dispatch>, parked: Set<usize>) -> bool {
    forall|k: int| 0 <= k < fired.len() ==> !parked.contains((#[trigger] fired[k]).task_id)
}

/// Whether every parked task that the wheel holds will have ceased to count
/// as running once the pending notices have reached it.
pub open spec fn suppressed(wheel: TierView, manager: ManagerView) -> bool {
    forall|task: Task| #[trigger]
        wheel.holds(task) && manager.idle.contains_key(task.task_id) ==> status_after(
            manager.notices,
            task.task_id,
            task.task_status,
        ) != TaskStatus::Running
}

/// A ring holds, after a task was put into it, what it held before and that
/// task.
pub proof fn lemma_put_holds(wheel: WheelView, index: int, task: Task, other: Task)
    requires
        0 <= index < wheel.slots.len(),
    ensures
        wheel.put(index, task).holds(other) <==> wheel.holds(other) || other == task,
{
    let after = wheel.put(index, task);
    if after.holds(other) {
        let (i, j) = choose|i: int, j: int|
            0 <= i < after.slots.len() && 0 <= j < after.slots[i].len() && #[trigger] after.slots[i][j]
                == other;
        if i == index && j == wheel.slots[index].len() {
        } else {
            assert(wheel.slots[i][j] == other);
        }
    }
    if wheel.holds(other) {
        let (i, j) = choose|i: int, j: int|
            0 <= i < wheel.slots.len() && 0 <= j < wheel.slots[i].len() && #[trigger] wheel.slots[i][j]
                == other;
        assert(after.slots[i][j] == other);
    }
    if other == task {
        assert(after.slots[index][wheel.slots[index].len() as int] == other);
    }
}

/// A ring holds, after a harvest, no more than before; what was harvested
/// was held.
pub proof fn lemma_advanced_holds(wheel: WheelView, other: Task)
    requires
        wheel.wf(),
    ensures
        wheel.rewound().advanced().holds(other) ==> wheel.holds(other),
        wheel.due().contains(other) ==> wheel.holds(other),
{
    let after = wheel.rewound().advanced();
    if after.holds(other) {
        let (i, j) = choose|i: int, j: int|
            0 <= i < after.slots.len() && 0 <= j < after.slots[i].len() && #[trigger] after.slots[i][j]
                == other;
        assert(wheel.slots[i][j] == other);
    }
    if wheel.due().contains(other) {
        let j = choose|j: int| 0 <= j < wheel.due().len() && wheel.due()[j] == other;
        assert(wheel.slots[wheel.pointer][j] == other);
    }
}

/// The bucket that a delay selects exists.
pub proof fn lemma_slot_exists(wheel: TierView, milliseconds: int)
    requires
        wheel.wf(),
    ensures
        0 <= slot_of(wheel.wheel(tier_of(milliseconds)).pointer, milliseconds) < wheel.wheel(
            tier_of(milliseconds),
        ).slots.len(),
{
}

/// The wheel holds, after a task was placed in it, what it held before and
/// that task.
pub proof fn lemma_placed_holds(wheel: TierView, task: Task, milliseconds: int, other: Task)
    requires
        wheel.wf(),
    ensures
        wheel.placed(task, milliseconds).wf(),
        wheel.placed(task, milliseconds).holds(other) <==> wheel.holds(other) || other == task,
{
    lemma_slot_exists(wheel, milliseconds);
    let tier = tier_of(milliseconds);
    let ring = wheel.wheel(tier);
    lemma_put_holds(ring, slot_of(ring.pointer, milliseconds), task, other);
}

/// Whether two managers know the same tasks, live and parked, and hold the
/// same notices and the same count of ids.
pub open spec fn same_tasks(before: ManagerView, after: ManagerView) -> bool {
    &&& after.live.dom() == before.live.dom()
    &&& after.idle.dom() == before.idle.dom()
    &&& after.notices == before.notices
    &&& after.counter == before.counter
}

/// A change of one task's state leaves every task where it is.
pub proof fn lemma_with_actor_same_tasks(
    manager: ManagerView,
    id: usize,
    actor: crate::task_actor::ActorView,
)
    requires
        manager.wf(),
    ensures
        manager.with_actor(id, actor).wf(),
        same_tasks(manager, manager.with_actor(id, actor)),
{
    let after = manager.with_actor(id, actor);
    assert(after.live.dom() =~= manager.live.dom());
    assert(after.idle.dom() =~= manager.idle.dom());
}

/// The harvest of one task leaves a calm wheel calm and fires no parked
/// task, provided that the task itself, if parked, does not count as running.
pub proof fn lemma_take_quiet(
    harvest: Harvest,
    task: Task,
    now: int,
    next: Option<i64>,
    parked: Set<usize>,
)
    requires
        harvest.wf(),
        calm(harvest.wheel, parked),
        silent(harvest.fired, parked),
        parked.contains(task.task_id) ==> task.task_status != TaskStatus::Running,
    ensures
        harvest.take(task, now, next).wf(),
        calm(harvest.take(task, now, next).wheel, parked),
        silent(harvest.take(task, now, next).fired, parked),
        same_tasks(harvest.manager, harvest.take(task, now, next).manager),
{
    let after = harvest.take(task, now, next);
    let id = task.task_id;
    match harvest.manager.actor(id) {
        Some(actor) => {
            lemma_with_actor_same_tasks(harvest.manager, id, actor.ticked());
            let counted = harvest.manager.ticked(id);
            match next {
                Some(instant) => {
                    lemma_with_actor_same_tasks(harvest.manager, id, actor.retargeted(instant));
                    match counted.actor(id) {
                        Some(ticked) => {
                            lemma_with_actor_same_tasks(counted, id, ticked.retargeted(instant));
                        },
                        None => {},
                    }
                },
                None => {},
            }
        },
        None => {},
    }
    assert forall|other: Task| #[trigger]
        after.wheel.holds(other) && parked.contains(other.task_id) implies other.task_status
        != TaskStatus::Running by {
        if after.wheel != harvest.wheel {
            let milliseconds = choose|milliseconds: int|
                after.wheel == harvest.wheel.placed(task, milliseconds);
            lemma_placed_holds(harvest.wheel, task, milliseconds, other);
        }
    }
    assert(after.wheel.wf()) by {
        if after.wheel != harvest.wheel {
            let milliseconds = choose|milliseconds: int|
                after.wheel == harvest.wheel.placed(task, milliseconds);
            lemma_placed_holds(harvest.wheel, task, milliseconds, task);
        }
    }
}

/// The harvest of a bucket leaves a calm wheel calm and fires no parked task,
/// provided that no parked task of the bucket counts as running.
pub proof fn lemma_take_all_quiet(
    harvest: Harvest,
    tasks: Seq<Task>,
    now: int,
    nexts: Seq<Option<i64>>,
    parked: Set<usize>,
)
    requires
        harvest.wf(),
        calm(harvest.wheel, parked),
        silent(harvest.fired, parked),
        forall|k: int|
            0 <= k < tasks.len() && parked.contains((#[trigger] tasks[k]).task_id)
                ==> tasks[k].task_status != TaskStatus::Running,
    ensures
        harvest.take_all(tasks, now, nexts).wf(),
        calm(harvest.take_all(tasks, now, nexts).wheel, parked),
        silent(harvest.take_all(tasks, now, nexts).fired, parked),
        same_tasks(harvest.manager, harvest.take_all(tasks, now, nexts).manager),
    decreases tasks.len(),
{
    if tasks.len() > 0 {
        let last = tasks.last();
        assert(last == tasks[tasks.len() - 1]);
        lemma_take_quiet(harvest, last, now, nexts[tasks.len() - 1], parked);
        let rest = tasks.drop_last();
        assert forall|k: int|
            0 <= k < rest.len() && parked.contains(
                (#[trigger] rest[k]).task_id,
            ) implies rest[k].task_status != TaskStatus::Running by {
            assert(rest[k] == tasks[k]);
        }
        lemma_take_all_quiet(harvest.take(last, now, nexts[tasks.len() - 1]), rest, now, nexts, parked);
    }
}

/// The turn of one ring leaves a calm wheel calm and fires no parked task.
pub proof fn lemma_turn_quiet(
    harvest: Harvest,
    tier: Tier,
    now: int,
    nexts: Seq<Option<i64>>,
    parked: Set<usize>,
)
    requires
        harvest.wf(),
        calm(harvest.wheel, parked),
        silent(harvest.fired, parked),
    ensures
        harvest.turn(tier, now, nexts).wf(),
        calm(harvest.turn(tier, now, nexts).wheel, parked),
        silent(harvest.turn(tier, now, nexts).fired, parked),
        same_tasks(harvest.manager, harvest.turn(tier, now, nexts).manager),
{
    let ring = harvest.wheel.wheel(tier);
    if ring.interval == 0 {
        let emptied = harvest.wheel.with_wheel(tier, ring.rewound().advanced());
        let start = Harvest { wheel: emptied, ..harvest };
        assert forall|other: Task| #[trigger] emptied.holds(other) implies harvest.wheel.holds(
            other,
        ) by {
            lemma_advanced_holds(ring, other);
        }
        assert forall|k: int|
            0 <= k < ring.due().len() && parked.contains(
                (#[trigger] ring.due()[k]).task_id,
            ) implies ring.due()[k].task_status != TaskStatus::Running by {
            lemma_advanced_holds(ring, ring.due()[k]);
            assert(harvest.wheel.holds(ring.due()[k]));
        }
        lemma_take_all_quiet(start, ring.due(), now, nexts, parked);
    }
}

/// One tick leaves a calm wheel calm and fires no parked task.
pub proof fn lemma_tick_quiet(
    harvest: Harvest,
    delta: int,
    now: int,
    answers: TickAnswers,
    parked: Set<usize>,
)
    requires
        harvest.wf(),
        0 <= delta,
        calm(harvest.wheel, parked),
        silent(harvest.fired, parked),
    ensures
        harvest.tick(delta, now, answers).wf(),
        calm(harvest.tick(delta, now, answers).wheel, parked),
        silent(harvest.tick(delta, now, answers).fired, parked),
        same_tasks(harvest.manager, harvest.tick(delta, now, answers).manager),
{
    let h0 = Harvest { wheel: harvest.wheel.tick(delta), ..harvest };
    assert forall|other: Task| #[trigger] h0.wheel.holds(other) implies harvest.wheel.holds(
        other,
    ) by {}
    lemma_turn_quiet(h0, Tier::Millisecond, now, answers.millisecond, parked);
    let h1 = h0.turn(Tier::Millisecond, now, answers.millisecond);
    lemma_turn_quiet(h1, Tier::Second, now, answers.second, parked);
    let h2 = h1.turn(Tier::Second, now, answers.second);
    lemma_turn_quiet(h2, Tier::Minute, now, answers.minute, parked);
    let h3 = h2.turn(Tier::Minute, now, answers.minute);
    lemma_turn_quiet(h3, Tier::Hour, now, answers.hour, parked);
}

/// A ring holds, once notices have reached it, the tasks that it held, each
/// with the status that the notices give it.
pub proof fn lemma_noticed_ring(wheel: WheelView, notices: Seq<(usize, TaskStatus)>, other: Task)
    requires
        wheel.wf(),
    ensures
        wheel.noticed(notices).wf(),
        wheel.noticed(notices).holds(other) ==> exists|task: Task| #[trigger]
            wheel.holds(task) && other == noticed(task, notices),
{
    let after = wheel.noticed(notices);
    if after.holds(other) {
        let (i, j) = choose|i: int, j: int|
            0 <= i < after.slots.len() && 0 <= j < after.slots[i].len() && #[trigger] after.slots[i][j]
                == other;
        let task = wheel.slots[i][j];
        assert(wheel.holds(task) && other == noticed(task, notices));
    }
}

/// The wheel holds, once notices have reached it, the tasks that it held,
/// each with the status that the notices give it.
pub proof fn lemma_noticed_holds(wheel: TierView, notices: Seq<(usize, TaskStatus)>, other: Task)
    requires
        wheel.wf(),
    ensures
        wheel.noticed(notices).wf(),
        wheel.noticed(notices).holds(other) ==> exists|task: Task| #[trigger]
            wheel.holds(task) && other == noticed(task, notices),
{
    lemma_noticed_ring(wheel.millisecond, notices, other);
    lemma_noticed_ring(wheel.second, notices, other);
    lemma_noticed_ring(wheel.minute, notices, other);
    lemma_noticed_ring(wheel.hour, notices, other);
    let after = wheel.noticed(notices);
    if after.holds(other) {
        if after.millisecond.holds(other) {
            let task = choose|task: Task| #[trigger]
                wheel.millisecond.holds(task) && other == noticed(task, notices);
            assert(wheel.holds(task) && other == noticed(task, notices));
        } else if after.second.holds(other) {
            let task = choose|task: Task| #[trigger]
                wheel.second.holds(task) && other == noticed(task, notices);
            assert(wheel.holds(task) && other == noticed(task, notices));
        } else if after.minute.holds(other) {
            let task = choose|task: Task| #[trigger]
                wheel.minute.holds(task) && other == noticed(task, notices);
            assert(wheel.holds(task) && other == noticed(task, notices));
        } else {
            let task = choose|task: Task| #[trigger]
                wheel.hour.holds(task) && other == noticed(task, notices);
            assert(wheel.holds(task) && other == noticed(task, notices));
        }
    }
}

/// What is routed came out of the firings.
pub proof fn lemma_jobs_silent(fired: Seq<Dispatch>, order: TaskOrderType, parked: Set<usize>)
    requires
        silent(fired, parked),
    ensures
        forall|k: int|
            0 <= k < jobs_of(fired, order).len() ==> !parked.contains(
                #[trigger] jobs_of(fired, order)[k],
            ),
    decreases fired.len(),
{
    if fired.len() > 0 {
        assert forall|k: int| 0 <= k < fired.drop_last().len() implies !parked.contains(
            (#[trigger] fired.drop_last()[k]).task_id,
        ) by {
            assert(fired.drop_last()[k] == fired[k]);
        }
        lemma_jobs_silent(fired.drop_last(), order, parked);
        assert(!parked.contains(fired[fired.len() - 1].task_id));
        let rest = jobs_of(fired.drop_last(), order);
        assert forall|k: int| 0 <= k < jobs_of(fired, order).len() implies !parked.contains(
            #[trigger] jobs_of(fired, order)[k],
        ) by {
            if k < rest.len() {
                assert(jobs_of(fired, order)[k] == rest[k]);
            }
        }
    }
}

/// A parked task is silent. A turn of the reactor fires no task that is parked
/// when the turn begins, neither to a mailbox nor to the run queue, however
/// much time has passed and whatever the schedules answer; and after the turn
/// the same holds again.
pub proof fn law_pause_suppression(before: Turn, delta: int, now: int, answers: TickAnswers)
    requires
        before.wheel.wf(),
        before.manager.wf(),
        0 <= delta,
        suppressed(before.wheel, before.manager),
    ensures
        before.turned(delta, now, answers).wheel.wf(),
        before.turned(delta, now, answers).manager.wf(),
        suppressed(
            before.turned(delta, now, answers).wheel,
            before.turned(delta, now, answers).manager,
        ),
        before.turned(delta, now, answers).manager.idle.dom() == before.manager.idle.dom(),
        before.turned(delta, now, answers).manager.live.dom() == before.manager.live.dom(),
        before.turned(delta, now, answers).manager.counter == before.manager.counter,
        before.turned(delta, now, answers).manager.notices == Seq::<(usize, TaskStatus)>::empty(),
        silent(before.harvest(delta, now, answers).fired, before.manager.idle.dom()),
        forall|k: int|
            0 <= k < before.ordered(delta, now, answers).len() ==> !before.manager.idle.contains_key(
                #[trigger] before.ordered(delta, now, answers)[k],
            ),
        forall|k: int|
            0 <= k < jobs_of(before.harvest(delta, now, answers).fired, TaskOrderType::Disorder).len()
                ==> !before.manager.idle.contains_key(
                #[trigger] jobs_of(
                    before.harvest(delta, now, answers).fired,
                    TaskOrderType::Disorder,
                )[k],
            ),
{
    let parked = before.manager.idle.dom();
    let notices = before.manager.notices;
    let start = Harvest {
        wheel: before.wheel.noticed(notices),
        manager: before.manager.drained(),
        fired: Seq::empty(),
    };
    lemma_noticed_holds(before.wheel, notices, arbitrary());
    assert forall|other: Task| #[trigger]
        start.wheel.holds(other) && parked.contains(other.task_id) implies other.task_status
        != TaskStatus::Running by {
        lemma_noticed_holds(before.wheel, notices, other);
        let task = choose|task: Task| #[trigger]
            before.wheel.holds(task) && other == noticed(task, notices);
        assert(before.wheel.holds(task));
    }
    lemma_tick_quiet(start, delta, now, answers, parked);
    let end = start.tick(delta, now, answers);
    lemma_jobs_silent(end.fired, TaskOrderType::Order, parked);
    lemma_jobs_silent(end.fired, TaskOrderType::Disorder, parked);
    assert forall|task: Task| #[trigger]
        end.wheel.holds(task) && end.manager.idle.contains_key(task.task_id) implies status_after(
        end.manager.notices,
        task.task_id,
        task.task_status,
    ) != TaskStatus::Running by {
        assert(parked.contains(task.task_id));
    }
}

/// The last notice decides: one more notice for a task gives the task its
/// status, and leaves every other task with what the notices before gave it.
pub proof fn lemma_status_after_push(
    notices: Seq<(usize, TaskStatus)>,
    notice: (usize, TaskStatus),
    id: usize,
    status: TaskStatus,
)
    ensures
        status_after(notices.push(notice), id, status) == if notice.0 == id {
            notice.1
        } else {
            status_after(notices, id, status)
        },
{
    assert(notices.push(notice).drop_last() =~= notices);
}

/// A change of status keeps the parked tasks suppressed: a pause leaves a
/// notice that reaches the task before the next harvest.
pub proof fn lemma_status_updated_suppressed(
    wheel: TierView,
    manager: ManagerView,
    id: usize,
    status: TaskStatus,
)
    requires
        manager.wf(),
        suppressed(wheel, manager),
    ensures
        manager.status_updated(id, status).wf(),
        suppressed(wheel, manager.status_updated(id, status)),
{
    let after = manager.status_updated(id, status);
    assert forall|task: Task| #[trigger]
        wheel.holds(task) && after.idle.contains_key(task.task_id) implies status_after(
        after.notices,
        task.task_id,
        task.task_status,
    ) != TaskStatus::Running by {
        if after != manager {
            lemma_status_after_push(manager.notices, (id, status), task.task_id, task.task_status);
        }
    }
}

/// A change of one task's state keeps the parked tasks suppressed.
pub proof fn lemma_with_actor_suppressed(
    wheel: TierView,
    manager: ManagerView,
    id: usize,
    actor: crate::task_actor::ActorView,
)
    requires
        manager.wf(),
        suppressed(wheel, manager),
    ensures
        manager.with_actor(id, actor).wf(),
        suppressed(wheel, manager.with_actor(id, actor)),
{
    lemma_with_actor_same_tasks(manager, id, actor);
    let after = manager.with_actor(id, actor);
    assert forall|task: Task| #[trigger]
        wheel.holds(task) && after.idle.contains_key(task.task_id) implies status_after(
        after.notices,
        task.task_id,
        task.task_status,
    ) != TaskStatus::Running by {
        assert(manager.idle.dom().contains(task.task_id));
    }
}

/// A new task, placed in the wheel under an id that no task has, keeps the
/// parked tasks suppressed.
pub proof fn lemma_registered_suppressed(
    wheel: TierView,
    manager: ManagerView,
    task: Task,
    milliseconds: int,
    actor: crate::task_actor::ActorView,
)
    requires
        wheel.wf(),
        manager.wf(),
        suppressed(wheel, manager),
        !manager.knows(task.task_id),
    ensures
        suppressed(wheel.placed(task, milliseconds), manager.registered(task.task_id, actor)),
{
    let after = manager.registered(task.task_id, actor);
    assert forall|other: Task| #[trigger]
        wheel.placed(task, milliseconds).holds(other) && after.idle.contains_key(
            other.task_id,
        ) implies status_after(after.notices, other.task_id, other.task_status)
        != TaskStatus::Running by {
        lemma_placed_holds(wheel, task, milliseconds, other);
    }
}

} // verus!
