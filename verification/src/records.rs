//! Why the wheel holds at most one record of each task.
//!
//! A registration places one record under an id that no record has. A
//! harvest takes the records of a bucket out of the wheel and puts each back
//! at most once. So no task is ever harvested twice for one firing instant.
use crate::core_reactor::Turn;
use crate::suppression::{
    lemma_advanced_holds, lemma_noticed_holds, lemma_placed_holds, lemma_slot_exists,
    lemma_take_quiet, same_tasks,
};
use crate::task::{Task, TaskStatus};
use crate::time_wheel::{
    noticed, noticed_bucket, slot_of, tier_of, Dispatch, Harvest, TickAnswers, Tier, TierView,
    WheelView,
};
use vstd::prelude::*;

verus! {

/// Number of records of task `id` in a bucket.
pub open spec fn count_in(bucket: Seq<Task>, id: usize) -> nat
    decreases bucket.len(),
{
    if bucket.len() == 0 {
        0
    } else {
        count_in(bucket.drop_last(), id) + if bucket.last().task_id == id {
            1nat
        } else {
            0nat
        }
    }
}

/// Number of records of task `id` in the buckets `0..upto` of a ring.
pub open spec fn records_upto(ring: WheelView, id: usize, upto: int) -> nat
    decreases upto,
{
    if upto <= 0 {
        0
    } else {
        records_upto(ring, id, upto - 1) + count_in(ring.slots[upto - 1], id)
    }
}

/// Number of records of task `id` in a ring.
pub open spec fn ring_records(ring: WheelView, id: usize) -> nat {
    records_upto(ring, id, ring.slots.len() as int)
}

/// Number of records of task `id` in the wheel.
pub open spec fn records(wheel: TierView, id: usize) -> nat {
    ring_records(wheel.millisecond, id) + ring_records(wheel.second, id) + ring_records(
        wheel.minute,
        id,
    ) + ring_records(wheel.hour, id)
}

/// Whether the wheel holds at most one record of each task.
pub open spec fn single(wheel: TierView) -> bool {
    forall|id: usize| #[trigger] records(wheel, id) <= 1
}

/// Whether every record in the wheel has an id that was handed out.
pub open spec fn within(wheel: TierView, counter: int) -> bool {
    forall|task: Task| #[trigger] wheel.holds(task) ==> task.task_id <= counter
}

/// A bucket with one more record.
pub proof fn lemma_count_push(bucket: Seq<Task>, task: Task, id: usize)
    ensures
        count_in(bucket.push(task), id) == count_in(bucket, id) + if task.task_id == id {
            1nat
        } else {
            0nat
        },
{
    assert(bucket.push(task).drop_last() =~= bucket);
}

/// A bucket without a record of task `id` counts none.
pub proof fn lemma_count_none(bucket: Seq<Task>, id: usize)
    requires
        forall|j: int| 0 <= j < bucket.len() ==> (#[trigger] bucket[j]).task_id != id,
    ensures
        count_in(bucket, id) == 0,
    decreases bucket.len(),
{
    if bucket.len() > 0 {
        assert forall|j: int| 0 <= j < bucket.drop_last().len() implies (
        #[trigger] bucket.drop_last()[j]).task_id != id by {
            assert(bucket.drop_last()[j] == bucket[j]);
        }
        lemma_count_none(bucket.drop_last(), id);
        assert(bucket[bucket.len() - 1].task_id != id);
    }
}

/// Notices change the status of a record, never its task.
pub proof fn lemma_count_noticed(bucket: Seq<Task>, notices: Seq<(usize, TaskStatus)>, id: usize)
    ensures
        count_in(noticed_bucket(bucket, notices), id) == count_in(bucket, id),
    decreases bucket.len(),
{
    if bucket.len() > 0 {
        assert(noticed_bucket(bucket, notices).drop_last() =~= noticed_bucket(
            bucket.drop_last(),
            notices,
        ));
        lemma_count_noticed(bucket.drop_last(), notices, id);
    }
}

/// The count of a ring after one of its buckets was replaced.
pub proof fn lemma_records_update(
    ring: WheelView,
    index: int,
    bucket: Seq<Task>,
    id: usize,
    upto: int,
)
    requires
        0 <= index < ring.slots.len(),
        0 <= upto <= ring.slots.len(),
    ensures
        records_upto(WheelView { slots: ring.slots.update(index, bucket), ..ring }, id, upto)
            == if index < upto {
            records_upto(ring, id, upto) - count_in(ring.slots[index], id) + count_in(bucket, id)
        } else {
            records_upto(ring, id, upto) as int
        },
    decreases upto,
{
    if upto > 0 {
        lemma_records_update(ring, index, bucket, id, upto - 1);
    }
}

/// The count of a ring depends on its buckets alone.
pub proof fn lemma_records_same(first: WheelView, second: WheelView, id: usize, upto: int)
    requires
        first.slots == second.slots,
    ensures
        records_upto(first, id, upto) == records_upto(second, id, upto),
    decreases upto,
{
    if upto > 0 {
        lemma_records_same(first, second, id, upto - 1);
    }
}

/// The count of one bucket is no more than that of the ring.
pub proof fn lemma_records_bucket(ring: WheelView, index: int, id: usize, upto: int)
    requires
        0 <= index < upto <= ring.slots.len(),
    ensures
        count_in(ring.slots[index], id) <= records_upto(ring, id, upto),
    decreases upto,
{
    if index < upto - 1 {
        lemma_records_bucket(ring, index, id, upto - 1);
    }
}

/// A ring that holds no record of task `id` counts none.
pub proof fn lemma_records_none(ring: WheelView, id: usize, upto: int)
    requires
        0 <= upto <= ring.slots.len(),
        forall|task: Task| #[trigger] ring.holds(task) ==> task.task_id != id,
    ensures
        records_upto(ring, id, upto) == 0,
    decreases upto,
{
    if upto > 0 {
        lemma_records_none(ring, id, upto - 1);
        let bucket = ring.slots[upto - 1];
        assert forall|j: int| 0 <= j < bucket.len() implies (#[trigger] bucket[j]).task_id
            != id by {
            assert(ring.slots[upto - 1][j] == bucket[j]);
            assert(ring.holds(bucket[j]));
        }
        lemma_count_none(bucket, id);
    }
}

/// A ring with one more record.
pub proof fn lemma_put_records(ring: WheelView, index: int, task: Task, id: usize)
    requires
        0 <= index < ring.slots.len(),
    ensures
        ring_records(ring.put(index, task), id) == ring_records(ring, id) + if task.task_id
            == id {
            1nat
        } else {
            0nat
        },
{
    lemma_count_push(ring.slots[index], task, id);
    lemma_records_update(
        ring,
        index,
        ring.slots[index].push(task),
        id,
        ring.slots.len() as int,
    );
    lemma_records_bucket(ring, index, id, ring.slots.len() as int);
}

/// A ring after a harvest has lost the records of the harvested bucket.
pub proof fn lemma_advanced_records(ring: WheelView, id: usize)
    requires
        ring.wf(),
    ensures
        ring_records(ring.rewound().advanced(), id) + count_in(ring.due(), id) == ring_records(
            ring,
            id,
        ),
{
    let n = ring.slots.len() as int;
    lemma_records_update(ring, ring.pointer, Seq::empty(), id, n);
    lemma_records_bucket(ring, ring.pointer, id, n);
    lemma_records_same(
        ring.rewound().advanced(),
        WheelView { slots: ring.slots.update(ring.pointer, Seq::empty()), ..ring },
        id,
        n,
    );
}

/// A ring counts, once notices have reached it, what it counted before.
pub proof fn lemma_noticed_records(
    ring: WheelView,
    notices: Seq<(usize, TaskStatus)>,
    id: usize,
    upto: int,
)
    requires
        0 <= upto <= ring.slots.len(),
    ensures
        records_upto(ring.noticed(notices), id, upto) == records_upto(ring, id, upto),
    decreases upto,
{
    if upto > 0 {
        lemma_noticed_records(ring, notices, id, upto - 1);
        lemma_count_noticed(ring.slots[upto - 1], notices, id);
    }
}

/// The wheel with one more record.
pub proof fn lemma_placed_records(wheel: TierView, task: Task, milliseconds: int, id: usize)
    requires
        wheel.wf(),
    ensures
        records(wheel.placed(task, milliseconds), id) == records(wheel, id) + if task.task_id
            == id {
            1nat
        } else {
            0nat
        },
{
    lemma_slot_exists(wheel, milliseconds);
    let ring = wheel.wheel(tier_of(milliseconds));
    lemma_put_records(ring, slot_of(ring.pointer, milliseconds), task, id);
}

/// The time that passes changes no record.
pub proof fn lemma_tick_records(wheel: TierView, delta: int, id: usize)
    ensures
        records(wheel.tick(delta), id) == records(wheel, id),
{
    lemma_records_same(
        wheel.millisecond.tick(delta),
        wheel.millisecond,
        id,
        wheel.millisecond.slots.len() as int,
    );
    lemma_records_same(wheel.second.tick(delta), wheel.second, id, wheel.second.slots.len() as int);
    lemma_records_same(wheel.minute.tick(delta), wheel.minute, id, wheel.minute.slots.len() as int);
    lemma_records_same(wheel.hour.tick(delta), wheel.hour, id, wheel.hour.slots.len() as int);
}

/// The wheel counts, once notices have reached it, what it counted before.
pub proof fn lemma_noticed_wheel_records(
    wheel: TierView,
    notices: Seq<(usize, TaskStatus)>,
    id: usize,
)
    ensures
        records(wheel.noticed(notices), id) == records(wheel, id),
{
    lemma_noticed_records(wheel.millisecond, notices, id, wheel.millisecond.slots.len() as int);
    lemma_noticed_records(wheel.second, notices, id, wheel.second.slots.len() as int);
    lemma_noticed_records(wheel.minute, notices, id, wheel.minute.slots.len() as int);
    lemma_noticed_records(wheel.hour, notices, id, wheel.hour.slots.len() as int);
}

/// A wheel that holds no record of task `id` counts none.
pub proof fn lemma_wheel_records_none(wheel: TierView, id: usize)
    requires
        forall|task: Task| #[trigger] wheel.holds(task) ==> task.task_id != id,
    ensures
        records(wheel, id) == 0,
{
    assert forall|task: Task| #[trigger] wheel.millisecond.holds(task) implies task.task_id
        != id by {
        assert(wheel.holds(task));
    }
    assert forall|task: Task| #[trigger] wheel.second.holds(task) implies task.task_id != id by {
        assert(wheel.holds(task));
    }
    assert forall|task: Task| #[trigger] wheel.minute.holds(task) implies task.task_id != id by {
        assert(wheel.holds(task));
    }
    assert forall|task: Task| #[trigger] wheel.hour.holds(task) implies task.task_id != id by {
        assert(wheel.holds(task));
    }
    lemma_records_none(wheel.millisecond, id, wheel.millisecond.slots.len() as int);
    lemma_records_none(wheel.second, id, wheel.second.slots.len() as int);
    lemma_records_none(wheel.minute, id, wheel.minute.slots.len() as int);
    lemma_records_none(wheel.hour, id, wheel.hour.slots.len() as int);
}

/// Number of firings of task `id` among `fired`.
pub open spec fn fired_count(fired: Seq<Dispatch>, id: usize) -> nat
    decreases fired.len(),
{
    if fired.len() == 0 {
        0
    } else {
        fired_count(fired.drop_last(), id) + if fired.last().task_id == id {
            1nat
        } else {
            0nat
        }
    }
}

/// The harvest of one task keeps the parts well formed and the tasks where
/// they are.
pub proof fn lemma_take_wf(harvest: Harvest, task: Task, now: int, next: Option<i64>)
    requires
        harvest.wf(),
    ensures
        harvest.take(task, now, next).wf(),
        same_tasks(harvest.manager, harvest.take(task, now, next).manager),
{
    lemma_take_quiet(
        Harvest { fired: Seq::empty(), ..harvest },
        task,
        now,
        next,
        Set::<usize>::empty(),
    );
}

/// The harvest of one task puts at most that task into the wheel, and fires
/// at most that task, once.
pub proof fn lemma_take_records(
    harvest: Harvest,
    task: Task,
    now: int,
    next: Option<i64>,
    id: usize,
)
    requires
        harvest.wf(),
    ensures
        records(harvest.take(task, now, next).wheel, id) <= records(harvest.wheel, id) + if task.task_id
            == id {
            1nat
        } else {
            0nat
        },
        fired_count(harvest.take(task, now, next).fired, id) <= fired_count(harvest.fired, id)
            + if task.task_id == id {
            1nat
        } else {
            0nat
        },
{
    let after = harvest.take(task, now, next);
    if after.wheel != harvest.wheel {
        let milliseconds = choose|milliseconds: int|
            after.wheel == harvest.wheel.placed(task, milliseconds);
        lemma_placed_records(harvest.wheel, task, milliseconds, id);
    }
    if after.fired != harvest.fired {
        let dispatch = Dispatch { task_id: task.task_id, task_order_type: task.task_order_type };
        assert(after.fired == harvest.fired.push(dispatch));
        assert(after.fired.drop_last() =~= harvest.fired);
    }
}

/// The harvest of one task leaves in the wheel what was there before, and
/// at most that task besides.
pub proof fn lemma_take_holds(
    harvest: Harvest,
    task: Task,
    now: int,
    next: Option<i64>,
    other: Task,
)
    requires
        harvest.wf(),
    ensures
        harvest.take(task, now, next).wheel.holds(other) ==> harvest.wheel.holds(other) || other
            == task,
{
    let after = harvest.take(task, now, next);
    if after.wheel != harvest.wheel {
        let milliseconds = choose|milliseconds: int|
            after.wheel == harvest.wheel.placed(task, milliseconds);
        lemma_placed_holds(harvest.wheel, task, milliseconds, other);
    }
}

/// Whether the wheel and a bucket taken out of it hold between them at most
/// one record of each task.
pub open spec fn single_with(wheel: TierView, bucket: Seq<Task>) -> bool {
    forall|id: usize| #[trigger] records(wheel, id) + count_in(bucket, id) <= 1
}

/// Whether the wheel and a bucket taken out of it hold only records with ids
/// that were handed out.
pub open spec fn within_with(wheel: TierView, bucket: Seq<Task>, counter: int) -> bool {
    &&& within(wheel, counter)
    &&& forall|k: int| 0 <= k < bucket.len() ==> (#[trigger] bucket[k]).task_id <= counter
}

/// The harvest of a bucket puts each of its records back at most once, and
/// fires each task at most as often as the bucket holds a record of it.
pub proof fn lemma_take_all_records(
    harvest: Harvest,
    tasks: Seq<Task>,
    now: int,
    nexts: Seq<Option<i64>>,
    counter: int,
)
    requires
        harvest.wf(),
        single_with(harvest.wheel, tasks),
        within_with(harvest.wheel, tasks, counter),
    ensures
        harvest.take_all(tasks, now, nexts).wf(),
        same_tasks(harvest.manager, harvest.take_all(tasks, now, nexts).manager),
        single(harvest.take_all(tasks, now, nexts).wheel),
        within(harvest.take_all(tasks, now, nexts).wheel, counter),
        forall|id: usize|
            fired_count(#[trigger] harvest.take_all(tasks, now, nexts).fired, id) <= fired_count(
                harvest.fired,
                id,
            ) + count_in(tasks, id),
    decreases tasks.len(),
{
    if tasks.len() == 0 {
        assert forall|id: usize| #[trigger] records(harvest.wheel, id) <= 1 by {
            assert(records(harvest.wheel, id) + count_in(tasks, id) <= 1);
        }
    } else {
        let last = tasks.last();
        let next = nexts[tasks.len() - 1];
        let rest = tasks.drop_last();
        let first = harvest.take(last, now, next);
        lemma_take_wf(harvest, last, now, next);
        assert forall|id: usize| #[trigger] records(first.wheel, id) + count_in(rest, id)
            <= 1 by {
            lemma_take_records(harvest, last, now, next, id);
            assert(records(harvest.wheel, id) + count_in(tasks, id) <= 1);
        }
        assert forall|task: Task| #[trigger] first.wheel.holds(task) implies task.task_id
            <= counter by {
            lemma_take_holds(harvest, last, now, next, task);
            assert(tasks[tasks.len() - 1] == last);
        }
        assert forall|k: int| 0 <= k < rest.len() implies (#[trigger] rest[k]).task_id
            <= counter by {
            assert(rest[k] == tasks[k]);
        }
        lemma_take_all_records(first, rest, now, nexts, counter);
        let end = first.take_all(rest, now, nexts);
        assert forall|id: usize|
            fired_count(#[trigger] harvest.take_all(tasks, now, nexts).fired, id) <= fired_count(
                harvest.fired,
                id,
            ) + count_in(tasks, id) by {
            lemma_take_records(harvest, last, now, next, id);
            assert(fired_count(end.fired, id) <= fired_count(first.fired, id) + count_in(rest, id));
        }
    }
}

/// The records of a wheel of which one ring was replaced.
pub proof fn lemma_with_wheel_records(wheel: TierView, tier: Tier, ring: WheelView, id: usize)
    ensures
        records(wheel.with_wheel(tier, ring), id) + ring_records(wheel.wheel(tier), id) == records(
            wheel,
            id,
        ) + ring_records(ring, id),
{
}

/// The turn of one ring leaves the wheel with at most one record of each
/// task, if it was so before, and fires no task twice.
pub proof fn lemma_turn_records(
    harvest: Harvest,
    tier: Tier,
    now: int,
    nexts: Seq<Option<i64>>,
    counter: int,
)
    requires
        harvest.wf(),
        single(harvest.wheel),
        within(harvest.wheel, counter),
    ensures
        harvest.turn(tier, now, nexts).wf(),
        same_tasks(harvest.manager, harvest.turn(tier, now, nexts).manager),
        single(harvest.turn(tier, now, nexts).wheel),
        within(harvest.turn(tier, now, nexts).wheel, counter),
        forall|id: usize|
            fired_count(#[trigger] harvest.turn(tier, now, nexts).fired, id) <= fired_count(
                harvest.fired,
                id,
            ) + 1,
{
    let ring = harvest.wheel.wheel(tier);
    if ring.interval == 0 {
        let emptied = harvest.wheel.with_wheel(tier, ring.rewound().advanced());
        let start = Harvest { wheel: emptied, ..harvest };
        assert forall|id: usize| #[trigger] records(emptied, id) + count_in(ring.due(), id)
            <= 1 by {
            lemma_advanced_records(ring, id);
            lemma_with_wheel_records(harvest.wheel, tier, ring.rewound().advanced(), id);
            assert(records(harvest.wheel, id) <= 1);
        }
        assert forall|task: Task| #[trigger] emptied.holds(task) implies task.task_id
            <= counter by {
            lemma_advanced_holds(ring, task);
            assert(harvest.wheel.holds(task));
        }
        assert forall|k: int| 0 <= k < ring.due().len() implies (#[trigger] ring.due()[k]).task_id
            <= counter by {
            lemma_advanced_holds(ring, ring.due()[k]);
            assert(harvest.wheel.holds(ring.due()[k]));
        }
        lemma_take_all_records(start, ring.due(), now, nexts, counter);
        assert forall|id: usize|
            fired_count(#[trigger] harvest.turn(tier, now, nexts).fired, id) <= fired_count(
                harvest.fired,
                id,
            ) + 1 by {
            assert(records(emptied, id) + count_in(ring.due(), id) <= 1);
        }
    }
}

/// One record for each task. A turn of the reactor leaves the wheel with at
/// most one record of each task, and with records of tasks alone whose ids
/// were handed out, if it was so before the turn.
pub proof fn law_one_record_per_task(before: Turn, delta: int, now: int, answers: TickAnswers)
    requires
        before.wheel.wf(),
        before.manager.wf(),
        0 <= delta,
        single(before.wheel),
        within(before.wheel, before.manager.counter),
    ensures
        single(before.turned(delta, now, answers).wheel),
        within(before.turned(delta, now, answers).wheel, before.manager.counter),
{
    let counter = before.manager.counter;
    let notices = before.manager.notices;
    let start = Harvest {
        wheel: before.wheel.noticed(notices),
        manager: before.manager.drained(),
        fired: Seq::empty(),
    };
    lemma_noticed_holds(before.wheel, notices, arbitrary());
    let h0 = Harvest { wheel: start.wheel.tick(delta), ..start };
    assert forall|id: usize| #[trigger] records(h0.wheel, id) <= 1 by {
        lemma_noticed_wheel_records(before.wheel, notices, id);
        lemma_tick_records(start.wheel, delta, id);
        assert(records(before.wheel, id) <= 1);
    }
    assert forall|task: Task| #[trigger] h0.wheel.holds(task) implies task.task_id <= counter by {
        assert(start.wheel.holds(task));
        lemma_noticed_holds(before.wheel, notices, task);
        let origin = choose|origin: Task| #[trigger]
            before.wheel.holds(origin) && task == noticed(origin, notices);
        assert(before.wheel.holds(origin));
    }
    lemma_turn_records(h0, Tier::Millisecond, now, answers.millisecond, counter);
    let h1 = h0.turn(Tier::Millisecond, now, answers.millisecond);
    lemma_turn_records(h1, Tier::Second, now, answers.second, counter);
    let h2 = h1.turn(Tier::Second, now, answers.second);
    lemma_turn_records(h2, Tier::Minute, now, answers.minute, counter);
    let h3 = h2.turn(Tier::Minute, now, answers.minute);
    lemma_turn_records(h3, Tier::Hour, now, answers.hour, counter);
}

/// A record that a bucket holds counts.
pub proof fn lemma_bucket_counts(bucket: Seq<Task>, j: int)
    requires
        0 <= j < bucket.len(),
    ensures
        count_in(bucket, bucket[j].task_id) >= 1,
    decreases bucket.len(),
{
    if j < bucket.len() - 1 {
        assert(bucket.drop_last()[j] == bucket[j]);
        lemma_bucket_counts(bucket.drop_last(), j);
    }
}

/// A record that a ring holds counts.
pub proof fn lemma_ring_holds_counts(ring: WheelView, task: Task)
    requires
        ring.holds(task),
    ensures
        ring_records(ring, task.task_id) >= 1,
{
    let (i, j) = choose|i: int, j: int|
        0 <= i < ring.slots.len() && 0 <= j < ring.slots[i].len() && #[trigger] ring.slots[i][j]
            == task;
    lemma_bucket_counts(ring.slots[i], j);
    lemma_records_bucket(ring, i, task.task_id, ring.slots.len() as int);
}

/// A record that the wheel holds counts.
pub proof fn lemma_holds_counts(wheel: TierView, task: Task)
    requires
        wheel.holds(task),
    ensures
        records(wheel, task.task_id) >= 1,
{
    if wheel.millisecond.holds(task) {
        lemma_ring_holds_counts(wheel.millisecond, task);
    } else if wheel.second.holds(task) {
        lemma_ring_holds_counts(wheel.second, task);
    } else if wheel.minute.holds(task) {
        lemma_ring_holds_counts(wheel.minute, task);
    } else {
        lemma_ring_holds_counts(wheel.hour, task);
    }
}

} // verus!
