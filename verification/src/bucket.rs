//! Why each task of a bucket is harvested as if it were alone.
//!
//! The tasks of a bucket are harvested one after another. As long as the
//! wheel and the bucket hold between them at most one record of each task,
//! what happens to one task is what would happen to it if the bucket held
//! nothing else: whether it fires, how its state changes, and where its
//! record goes.
use crate::core_reactor::{jobs_of, occurrences};
use crate::fidelity::{firing, lemma_take_all_fires};
use crate::laws::fires;
use crate::once::{lemma_count_contains, lemma_routed_count};
use crate::records::{
    count_in, fired_count, lemma_placed_records, lemma_take_records, lemma_take_wf, records,
    single_with,
};
use crate::suppression::{lemma_slot_exists, lemma_with_actor_same_tasks};
use crate::task::{Task, TaskOrderType, TaskStatus};
use crate::time_wheel::{
    delay_until, is_due, slot_of, tier_of, Dispatch, Harvest, TierView,
};
use vstd::prelude::*;

verus! {

/// The delay by which the record of `task` goes back into the wheel when the
/// task is harvested at `now`, where its schedule answered `next`; none if
/// the record is dropped.
///
/// The record of a paused task goes back by the delay to `next`. That of a
/// running task that is not due goes back by what is left of its delay. That
/// of a running task that fires goes back by the delay to `next` if another
/// firing follows. In every other case it is dropped: a destroyed task, a
/// task whose state is gone, a schedule without an answer, a last firing.
pub open spec fn goes_back(harvest: Harvest, task: Task, now: int, next: Option<i64>) -> Option<
    int,
> {
    match (task.task_status, harvest.manager.actor(task.task_id)) {
        (TaskStatus::Pause, Some(_)) => match next {
            Some(instant) => Some(delay_until(instant as int, now)),
            None => None,
        },
        (TaskStatus::Running, Some(actor)) => if !is_due(actor.target as int, now) {
            Some(delay_until(actor.target as int, now))
        } else if actor.repeat.fires_again() {
            match next {
                Some(instant) => Some(delay_until(instant as int, now)),
                None => None,
            }
        } else {
            None
        },
        _ => None,
    }
}

/// Whether the bucket that the delay `milliseconds` selects holds `task`.
pub open spec fn lies_by(wheel: TierView, task: Task, milliseconds: int) -> bool {
    wheel.wheel(tier_of(milliseconds)).slots[slot_of(
        wheel.wheel(tier_of(milliseconds)).pointer,
        milliseconds,
    )].contains(task)
}

/// Whether two wheels have the pointers of their rings on the same slots.
pub open spec fn same_pointers(first: TierView, second: TierView) -> bool {
    &&& first.millisecond.pointer == second.millisecond.pointer
    &&& first.second.pointer == second.second.pointer
    &&& first.minute.pointer == second.minute.pointer
    &&& first.hour.pointer == second.hour.pointer
}

/// What the harvest of one task does, said by whether it fires and whether
/// its record goes back.
pub proof fn lemma_take_by_cases(harvest: Harvest, task: Task, now: int, next: Option<i64>)
    requires
        harvest.wf(),
    ensures
        harvest.take(task, now, next).fired == if fires(harvest, task, now) {
            harvest.fired.push(firing(task))
        } else {
            harvest.fired
        },
        harvest.take(task, now, next).wheel == match goes_back(harvest, task, now, next) {
            Some(milliseconds) => harvest.wheel.placed(task, milliseconds),
            None => harvest.wheel,
        },
        same_pointers(harvest.wheel, harvest.take(task, now, next).wheel),
{
    match goes_back(harvest, task, now, next) {
        Some(milliseconds) => {
            lemma_slot_exists(harvest.wheel, milliseconds);
        },
        None => {},
    }
}

/// The harvest of one task counts its own firing and its own record, and no
/// other task's.
pub proof fn lemma_take_counts(
    harvest: Harvest,
    task: Task,
    now: int,
    next: Option<i64>,
    id: usize,
)
    requires
        harvest.wf(),
    ensures
        fired_count(harvest.take(task, now, next).fired, id) == fired_count(harvest.fired, id)
            + if fires(harvest, task, now) && task.task_id == id {
            1nat
        } else {
            0nat
        },
        records(harvest.take(task, now, next).wheel, id) == records(harvest.wheel, id)
            + if goes_back(harvest, task, now, next) is Some && task.task_id == id {
            1nat
        } else {
            0nat
        },
{
    lemma_take_by_cases(harvest, task, now, next);
    if fires(harvest, task, now) {
        assert(harvest.fired.push(firing(task)).drop_last() =~= harvest.fired);
    }
    match goes_back(harvest, task, now, next) {
        Some(milliseconds) => {
            lemma_placed_records(harvest.wheel, task, milliseconds, id);
        },
        None => {},
    }
}

/// The harvest of one task leaves the state of every other task as it is,
/// and leaves every record where it lies.
pub proof fn lemma_take_leaves(
    harvest: Harvest,
    other: Task,
    now: int,
    next: Option<i64>,
    task: Task,
    milliseconds: int,
)
    requires
        harvest.wf(),
        other.task_id != task.task_id,
    ensures
        harvest.take(other, now, next).manager.actor(task.task_id) == harvest.manager.actor(
            task.task_id,
        ),
        lies_by(harvest.wheel, task, milliseconds) ==> lies_by(
            harvest.take(other, now, next).wheel,
            task,
            milliseconds,
        ),
{
    let id = other.task_id;
    match harvest.manager.actor(id) {
        Some(actor) => {
            lemma_with_actor_same_tasks(harvest.manager, id, actor.ticked());
            match next {
                Some(instant) => {
                    lemma_with_actor_same_tasks(harvest.manager, id, actor.retargeted(instant));
                    lemma_with_actor_same_tasks(
                        harvest.manager.ticked(id),
                        id,
                        harvest.manager.ticked(id).actor(id)->Some_0.retargeted(instant),
                    );
                },
                None => {},
            }
        },
        None => {},
    }
    lemma_take_by_cases(harvest, other, now, next);
    if lies_by(harvest.wheel, task, milliseconds) {
        lemma_slot_exists(harvest.wheel, milliseconds);
        let ring = harvest.wheel.wheel(tier_of(milliseconds));
        let slot = slot_of(ring.pointer, milliseconds);
        let j = choose|j: int| 0 <= j < ring.slots[slot].len() && ring.slots[slot][j] == task;
        match goes_back(harvest, other, now, next) {
            Some(delay) => {
                lemma_slot_exists(harvest.wheel, delay);
                let after = harvest.take(other, now, next).wheel.wheel(tier_of(milliseconds));
                assert(after.slots[slot][j] == task);
            },
            None => {},
        }
    }
}

/// What holds of a task of the bucket, or of one that has just been
/// harvested out of it, while the rest of the bucket is harvested: its
/// firings, its state and its records are those of `alone`, and its record,
/// if it went back, lies where its delay put it.
pub open spec fn settled(harvest: Harvest, alone: Harvest, task: Task, back: Option<int>) -> bool {
    &&& harvest.wf()
    &&& harvest.manager.actor(task.task_id) == alone.manager.actor(task.task_id)
    &&& fired_count(harvest.fired, task.task_id) == fired_count(alone.fired, task.task_id)
    &&& records(harvest.wheel, task.task_id) == records(alone.wheel, task.task_id)
    &&& same_pointers(harvest.wheel, alone.wheel)
    &&& back matches Some(milliseconds) ==> lies_by(harvest.wheel, task, milliseconds)
}

/// The harvest of a bucket that holds no record of a task leaves what is
/// settled of that task as it is.
pub proof fn lemma_take_all_leaves(
    harvest: Harvest,
    tasks: Seq<Task>,
    now: int,
    nexts: Seq<Option<i64>>,
    alone: Harvest,
    task: Task,
    back: Option<int>,
)
    requires
        settled(harvest, alone, task, back),
        count_in(tasks, task.task_id) == 0,
    ensures
        settled(harvest.take_all(tasks, now, nexts), alone, task, back),
    decreases tasks.len(),
{
    if tasks.len() > 0 {
        let last = tasks.last();
        let next = nexts[tasks.len() - 1];
        assert(tasks.contains(last)) by {
            assert(tasks[tasks.len() - 1] == last);
        }
        lemma_count_contains(tasks, last);
        lemma_take_wf(harvest, last, now, next);
        lemma_take_counts(harvest, last, now, next, task.task_id);
        lemma_take_by_cases(harvest, last, now, next);
        match back {
            Some(milliseconds) => {
                lemma_take_leaves(harvest, last, now, next, task, milliseconds);
            },
            None => {
                lemma_take_leaves(harvest, last, now, next, task, 0);
            },
        }
        lemma_take_all_leaves(
            harvest.take(last, now, next),
            tasks.drop_last(),
            now,
            nexts,
            alone,
            task,
            back,
        );
    }
}

/// Each task of a bucket is harvested as if it were alone. Take a bucket of
/// any length, harvested from a wheel that holds, together with the bucket,
/// at most one record of each task, and any task of the bucket.
///
/// The task fires exactly if it is running, known and due, and then once,
/// with the kind it was registered with. Its state afterwards is what its
/// own harvest makes of it: the firing counted, the firing instant moved on.
/// Its record goes back into the wheel exactly if `goes_back` names a delay,
/// and then lies once in the bucket that this delay selects; otherwise the
/// wheel holds no record of the task.
pub proof fn law_each_task_alone(
    harvest: Harvest,
    tasks: Seq<Task>,
    now: int,
    nexts: Seq<Option<i64>>,
    place: int,
)
    requires
        harvest.wf(),
        single_with(harvest.wheel, tasks),
        0 <= place < tasks.len(),
    ensures
        ({
            let task = tasks[place];
            let next = nexts[place];
            let end = harvest.take_all(tasks, now, nexts);
            &&& fired_count(end.fired, task.task_id) == fired_count(harvest.fired, task.task_id)
                + if fires(harvest, task, now) {
                1nat
            } else {
                0nat
            }
            &&& fires(harvest, task, now) ==> end.fired.contains(firing(task))
            &&& end.manager.actor(task.task_id) == harvest.take(task, now, next).manager.actor(
                task.task_id,
            )
            &&& match goes_back(harvest, task, now, next) {
                Some(milliseconds) => {
                    &&& records(end.wheel, task.task_id) == 1
                    &&& lies_by(end.wheel, task, milliseconds)
                },
                None => records(end.wheel, task.task_id) == 0,
            }
        }),
    decreases tasks.len(),
{
    let task = tasks[place];
    let next = nexts[place];
    let alone = harvest.take(task, now, next);
    let back = goes_back(harvest, task, now, next);
    lemma_settles(harvest, tasks, now, nexts, place);
    lemma_take_counts(harvest, task, now, next, task.task_id);
    assert(tasks.contains(task));
    lemma_count_contains(tasks, task);
    assert(records(harvest.wheel, task.task_id) + count_in(tasks, task.task_id) <= 1);
    if fires(harvest, task, now) {
        lemma_take_all_fires(harvest, tasks, now, nexts, task);
    }
}

/// A firing among the firings is routed at least once by its kind.
pub proof fn lemma_routed_by_kind(fired: Seq<Dispatch>, dispatch: Dispatch)
    requires
        fired.contains(dispatch),
    ensures
        occurrences(jobs_of(fired, dispatch.task_order_type), dispatch.task_id) >= 1,
    decreases fired.len(),
{
    let routed = jobs_of(fired.drop_last(), dispatch.task_order_type);
    if fired.last() == dispatch {
        assert(routed.push(dispatch.task_id).drop_last() =~= routed);
    } else {
        let k = choose|k: int| 0 <= k < fired.len() && fired[k] == dispatch;
        assert(fired.drop_last()[k] == dispatch);
        lemma_routed_by_kind(fired.drop_last(), dispatch);
        if fired.last().task_order_type == dispatch.task_order_type {
            assert(routed.push(fired.last().task_id).drop_last() =~= routed);
        }
    }
}

/// A firing goes where its kind says, and nowhere else. Take a bucket of any
/// length, harvested with no firing decided yet from a wheel that holds,
/// together with the bucket, at most one record of each task, and a task of
/// the bucket that is running, known and due.
///
/// If the task is ordered, its id is handed once to the list for the
/// mailboxes and not to the shared run queue, so that its run waits for the
/// runs before it. If the task is disordered, its id is put once on the
/// shared run queue and not handed to the list for the mailboxes, so that
/// its run waits for none.
pub proof fn law_firing_goes_by_its_kind(
    harvest: Harvest,
    tasks: Seq<Task>,
    now: int,
    nexts: Seq<Option<i64>>,
    place: int,
)
    requires
        harvest.wf(),
        single_with(harvest.wheel, tasks),
        harvest.fired.len() == 0,
        0 <= place < tasks.len(),
        fires(harvest, tasks[place], now),
    ensures
        ({
            let task = tasks[place];
            let fired = harvest.take_all(tasks, now, nexts).fired;
            let other = match task.task_order_type {
                TaskOrderType::Order => TaskOrderType::Disorder,
                TaskOrderType::Disorder => TaskOrderType::Order,
            };
            &&& occurrences(jobs_of(fired, task.task_order_type), task.task_id) == 1
            &&& occurrences(jobs_of(fired, other), task.task_id) == 0
        }),
{
    let task = tasks[place];
    let fired = harvest.take_all(tasks, now, nexts).fired;
    law_each_task_alone(harvest, tasks, now, nexts, place);
    lemma_routed_count(fired, task.task_id);
    lemma_routed_by_kind(fired, firing(task));
}

/// The harvest of a bucket settles each of its tasks as the task's own
/// harvest does.
pub proof fn lemma_settles(
    harvest: Harvest,
    tasks: Seq<Task>,
    now: int,
    nexts: Seq<Option<i64>>,
    place: int,
)
    requires
        harvest.wf(),
        single_with(harvest.wheel, tasks),
        0 <= place < tasks.len(),
    ensures
        settled(
            harvest.take_all(tasks, now, nexts),
            harvest.take(tasks[place], now, nexts[place]),
            tasks[place],
            goes_back(harvest, tasks[place], now, nexts[place]),
        ),
    decreases tasks.len(),
{
    let task = tasks[place];
    let next = nexts[place];
    let alone = harvest.take(task, now, next);
    let back = goes_back(harvest, task, now, next);
    let last = tasks.last();
    let rest = tasks.drop_last();
    let first = harvest.take(last, now, nexts[tasks.len() - 1]);
    assert(tasks.contains(task));
    lemma_count_contains(tasks, task);
    assert(records(harvest.wheel, task.task_id) + count_in(tasks, task.task_id) <= 1);
    lemma_take_wf(harvest, last, now, nexts[tasks.len() - 1]);
    lemma_take_wf(harvest, task, now, next);
    lemma_take_by_cases(harvest, task, now, next);
    if place == tasks.len() - 1 {
        // The task is the first to be harvested; the rest are other tasks.
        assert(count_in(rest, task.task_id) == 0);
        match back {
            Some(milliseconds) => {
                lemma_slot_exists(harvest.wheel, milliseconds);
                let ring = harvest.wheel.wheel(tier_of(milliseconds));
                let slot = slot_of(ring.pointer, milliseconds);
                let placed = alone.wheel.wheel(tier_of(milliseconds));
                assert(placed.slots[slot][ring.slots[slot].len() as int] == task);
            },
            None => {},
        }
        lemma_take_all_leaves(alone, rest, now, nexts, alone, task, back);
    } else {
        // Another task is harvested first; it leaves this one alone.
        assert(rest[place] == task);
        assert(rest.contains(task));
        lemma_count_contains(rest, task);
        assert(last.task_id != task.task_id);
        assert forall|id: usize| #[trigger] records(first.wheel, id) + count_in(rest, id)
            <= 1 by {
            lemma_take_records(harvest, last, now, nexts[tasks.len() - 1], id);
            assert(records(harvest.wheel, id) + count_in(tasks, id) <= 1);
        }
        lemma_take_leaves(harvest, last, now, nexts[tasks.len() - 1], task, 0);
        lemma_take_counts(harvest, last, now, nexts[tasks.len() - 1], task.task_id);
        lemma_take_by_cases(harvest, last, now, nexts[tasks.len() - 1]);
        lemma_settles(first, rest, now, nexts, place);
        // The task's own harvest does the same after the other task's as
        // before it.
        let later = first.take(task, now, next);
        lemma_take_wf(first, task, now, next);
        lemma_take_by_cases(first, task, now, next);
        lemma_take_counts(first, task, now, next, task.task_id);
        lemma_take_counts(harvest, task, now, next, task.task_id);
        assert(goes_back(first, task, now, next) == back);
        assert(fires(first, task, now) == fires(harvest, task, now));
        lemma_own_state(harvest, first, task, now, next);
        let end = first.take_all(rest, now, nexts);
        assert(settled(end, later, task, back));
        assert(settled(end, alone, task, back));
    }
}

/// The state that a task's own harvest leaves it in depends on the task's
/// state before, and on nothing else of the harvest.
pub proof fn lemma_own_state(
    first: Harvest,
    second: Harvest,
    task: Task,
    now: int,
    next: Option<i64>,
)
    requires
        first.wf(),
        second.wf(),
        first.manager.actor(task.task_id) == second.manager.actor(task.task_id),
    ensures
        first.take(task, now, next).manager.actor(task.task_id) == second.take(
            task,
            now,
            next,
        ).manager.actor(task.task_id),
{
    let id = task.task_id;
    match first.manager.actor(id) {
        Some(actor) => {
            lemma_with_actor_same_tasks(first.manager, id, actor.ticked());
            lemma_with_actor_same_tasks(second.manager, id, actor.ticked());
            match next {
                Some(instant) => {
                    lemma_with_actor_same_tasks(first.manager, id, actor.retargeted(instant));
                    lemma_with_actor_same_tasks(second.manager, id, actor.retargeted(instant));
                    lemma_with_actor_same_tasks(
                        first.manager.ticked(id),
                        id,
                        actor.ticked().retargeted(instant),
                    );
                    lemma_with_actor_same_tasks(
                        second.manager.ticked(id),
                        id,
                        actor.ticked().retargeted(instant),
                    );
                },
                None => {},
            }
        },
        None => {},
    }
}

} // verus!
