//! Why a record in the millisecond ring fires when it comes up.
//!
//! A record that lies some slots ahead of the pointer of the millisecond
//! ring stays where it is while other records come and go, comes one slot
//! nearer with each harvest of the ring, and is harvested when the pointer
//! has reached it. If its task is then running, known and due, it fires in
//! that very tick.
use crate::laws::law_bucket_fires_each_at_most_once;
use crate::once::lemma_count_contains;
use crate::records::{
    count_in, lemma_advanced_records, lemma_holds_counts, lemma_placed_records,
    lemma_take_records, lemma_take_wf, lemma_tick_records, lemma_turn_records,
    lemma_with_wheel_records, records, single, single_with,
};
use crate::suppression::lemma_placed_holds;
use crate::task::{Task, TaskStatus};
use crate::time_wheel::{is_due, tier_of, Dispatch, Harvest, TickAnswers, Tier, TierView};
use vstd::prelude::*;

verus! {

/// Whether the bucket `slot` of the millisecond ring holds `task`.
pub open spec fn lies_in(wheel: TierView, task: Task, slot: int) -> bool {
    0 <= slot < 10 && wheel.millisecond.slots[slot].contains(task)
}

/// The slot of the millisecond ring that lies `ahead` slots ahead of the
/// pointer.
pub open spec fn slot_ahead(wheel: TierView, ahead: int) -> int {
    (wheel.millisecond.pointer + ahead) % 10
}

/// Whether a record of a running task, whose state is known and whose firing
/// instant is `target`, waits `ahead` slots ahead of the pointer of the
/// millisecond ring, in a wheel that holds at most one record of each task.
pub open spec fn waits(harvest: Harvest, task: Task, ahead: int, target: i64) -> bool {
    &&& harvest.wf()
    &&& single(harvest.wheel)
    &&& 0 <= ahead < 10
    &&& lies_in(harvest.wheel, task, slot_ahead(harvest.wheel, ahead))
    &&& task.task_status == TaskStatus::Running
    &&& harvest.manager.actor(task.task_id) matches Some(actor) && actor.target == target
}

/// The firing of `task`.
pub open spec fn firing(task: Task) -> Dispatch {
    Dispatch { task_id: task.task_id, task_order_type: task.task_order_type }
}

/// The harvest of another task leaves a record in the millisecond ring where
/// it is, and the state of its task as it is.
pub proof fn lemma_take_keeps(
    harvest: Harvest,
    other: Task,
    now: int,
    next: Option<i64>,
    task: Task,
    slot: int,
)
    requires
        harvest.wf(),
        lies_in(harvest.wheel, task, slot),
        other.task_id != task.task_id,
    ensures
        lies_in(harvest.take(other, now, next).wheel, task, slot),
        harvest.take(other, now, next).wheel.millisecond.pointer
            == harvest.wheel.millisecond.pointer,
        harvest.take(other, now, next).manager.actor(task.task_id) == harvest.manager.actor(
            task.task_id,
        ),
{
    let after = harvest.take(other, now, next);
    let j = choose|j: int|
        0 <= j < harvest.wheel.millisecond.slots[slot].len()
            && harvest.wheel.millisecond.slots[slot][j] == task;
    assert(after.wheel.millisecond.slots[slot][j] == task);
}

/// The harvest of a bucket that holds no record of a task leaves the record
/// of that task in the millisecond ring where it is, and the state of the
/// task as it is.
pub proof fn lemma_take_all_keeps(
    harvest: Harvest,
    tasks: Seq<Task>,
    now: int,
    nexts: Seq<Option<i64>>,
    task: Task,
    slot: int,
)
    requires
        harvest.wf(),
        lies_in(harvest.wheel, task, slot),
        single_with(harvest.wheel, tasks),
    ensures
        lies_in(harvest.take_all(tasks, now, nexts).wheel, task, slot),
        harvest.take_all(tasks, now, nexts).wheel.millisecond.pointer
            == harvest.wheel.millisecond.pointer,
        harvest.take_all(tasks, now, nexts).manager.actor(task.task_id) == harvest.manager.actor(
            task.task_id,
        ),
    decreases tasks.len(),
{
    if tasks.len() > 0 {
        let last = tasks.last();
        let next = nexts[tasks.len() - 1];
        let first = harvest.take(last, now, next);
        lemma_lies_holds(harvest.wheel, task, slot);
        lemma_holds_counts(harvest.wheel, task);
        assert(tasks.contains(last)) by {
            assert(tasks[tasks.len() - 1] == last);
        }
        lemma_count_contains(tasks, last);
        assert(records(harvest.wheel, task.task_id) + count_in(tasks, task.task_id) <= 1);
        lemma_take_keeps(harvest, last, now, next, task, slot);
        lemma_take_wf(harvest, last, now, next);
        assert forall|id: usize| #[trigger] records(first.wheel, id) + count_in(
            tasks.drop_last(),
            id,
        ) <= 1 by {
            lemma_take_records(harvest, last, now, next, id);
            assert(records(harvest.wheel, id) + count_in(tasks, id) <= 1);
        }
        lemma_take_all_keeps(first, tasks.drop_last(), now, nexts, task, slot);
    }
}

/// A record that lies in a bucket of the millisecond ring is held by the
/// wheel.
pub proof fn lemma_lies_holds(wheel: TierView, task: Task, slot: int)
    requires
        lies_in(wheel, task, slot),
        wheel.wf(),
    ensures
        wheel.holds(task),
        wheel.millisecond.holds(task),
{
    let j = choose|j: int|
        0 <= j < wheel.millisecond.slots[slot].len() && wheel.millisecond.slots[slot][j] == task;
    assert(wheel.millisecond.slots[slot][j] == task);
}

/// The turn of a ring leaves a record in the millisecond ring where it is,
/// unless it is the millisecond ring that has its turn and the record lies
/// under its pointer.
pub proof fn lemma_turn_keeps(
    harvest: Harvest,
    tier: Tier,
    now: int,
    nexts: Seq<Option<i64>>,
    task: Task,
    slot: int,
)
    requires
        harvest.wf(),
        single(harvest.wheel),
        lies_in(harvest.wheel, task, slot),
        tier == Tier::Millisecond && harvest.wheel.millisecond.interval == 0 ==> slot
            != harvest.wheel.millisecond.pointer,
    ensures
        harvest.turn(tier, now, nexts).wf(),
        single(harvest.turn(tier, now, nexts).wheel),
        lies_in(harvest.turn(tier, now, nexts).wheel, task, slot),
        harvest.turn(tier, now, nexts).manager.actor(task.task_id) == harvest.manager.actor(
            task.task_id,
        ),
        harvest.turn(tier, now, nexts).wheel.millisecond.pointer == if tier == Tier::Millisecond
            && harvest.wheel.millisecond.interval == 0 {
            harvest.wheel.millisecond.advanced().pointer
        } else {
            harvest.wheel.millisecond.pointer
        },
        harvest.turn(tier, now, nexts).fired.len() >= harvest.fired.len(),
        harvest.turn(tier, now, nexts).fired.subrange(0, harvest.fired.len() as int)
            == harvest.fired,
{
    lemma_turn_records(harvest, tier, now, nexts, usize::MAX as int);
    let ring = harvest.wheel.wheel(tier);
    if ring.interval == 0 {
        let emptied = harvest.wheel.with_wheel(tier, ring.rewound().advanced());
        let start = Harvest { wheel: emptied, ..harvest };
        assert forall|id: usize| #[trigger] records(emptied, id) + count_in(ring.due(), id)
            <= 1 by {
            lemma_advanced_records(ring, id);
            lemma_with_wheel_records(harvest.wheel, tier, ring.rewound().advanced(), id);
            assert(records(harvest.wheel, id) <= 1);
        }
        let j = choose|j: int|
            0 <= j < harvest.wheel.millisecond.slots[slot].len()
                && harvest.wheel.millisecond.slots[slot][j] == task;
        assert(emptied.millisecond.slots[slot][j] == task);
        lemma_take_all_keeps(start, ring.due(), now, nexts, task, slot);
        law_bucket_fires_each_at_most_once(start, ring.due(), now, nexts);
    } else {
        assert(harvest.fired.subrange(0, harvest.fired.len() as int) =~= harvest.fired);
    }
}

/// The harvest of a bucket fires each running, known and due task of which
/// the bucket holds the one record.
pub proof fn lemma_take_all_fires(
    harvest: Harvest,
    tasks: Seq<Task>,
    now: int,
    nexts: Seq<Option<i64>>,
    task: Task,
)
    requires
        harvest.wf(),
        single_with(harvest.wheel, tasks),
        tasks.contains(task),
        task.task_status == TaskStatus::Running,
        harvest.manager.actor(task.task_id) matches Some(actor) && is_due(
            actor.target as int,
            now,
        ),
    ensures
        harvest.take_all(tasks, now, nexts).fired.contains(firing(task)),
    decreases tasks.len(),
{
    let last = tasks.last();
    let next = nexts[tasks.len() - 1];
    let rest = tasks.drop_last();
    let first = harvest.take(last, now, next);
    lemma_take_wf(harvest, last, now, next);
    if last == task {
        law_bucket_fires_each_at_most_once(first, rest, now, nexts);
        let end = first.take_all(rest, now, nexts);
        assert(first.fired.last() == firing(task));
        assert(end.fired.subrange(0, first.fired.len() as int)[first.fired.len() - 1] == firing(
            task,
        ));
        assert(end.fired[first.fired.len() - 1] == firing(task));
    } else {
        let j = choose|j: int| 0 <= j < tasks.len() && tasks[j] == task;
        assert(rest[j] == task);
        assert(tasks[tasks.len() - 1] == last);
        lemma_count_contains(rest, task);
        assert(records(harvest.wheel, task.task_id) + count_in(tasks, task.task_id) <= 1);
        assert(last.task_id != task.task_id);
        assert forall|id: usize| #[trigger] records(first.wheel, id) + count_in(rest, id)
            <= 1 by {
            lemma_take_records(harvest, last, now, next, id);
            assert(records(harvest.wheel, id) + count_in(tasks, id) <= 1);
        }
        lemma_take_all_fires(first, rest, now, nexts, task);
    }
}

/// A firing stays among the firings through the turn of a ring.
pub proof fn lemma_turn_keeps_firing(
    harvest: Harvest,
    tier: Tier,
    now: int,
    nexts: Seq<Option<i64>>,
    dispatch: Dispatch,
)
    requires
        harvest.fired.contains(dispatch),
    ensures
        harvest.turn(tier, now, nexts).fired.contains(dispatch),
{
    let ring = harvest.wheel.wheel(tier);
    let k = choose|k: int| 0 <= k < harvest.fired.len() && harvest.fired[k] == dispatch;
    if ring.interval == 0 {
        let start = Harvest {
            wheel: harvest.wheel.with_wheel(tier, ring.rewound().advanced()),
            ..harvest
        };
        law_bucket_fires_each_at_most_once(start, ring.due(), now, nexts);
        let end = start.take_all(ring.due(), now, nexts);
        assert(end.fired.subrange(0, harvest.fired.len() as int)[k] == dispatch);
        assert(end.fired[k] == dispatch);
    }
}

/// A waiting record, tick by tick. Take a record of a running and known task
/// that waits some slots ahead of the pointer of the millisecond ring, and
/// one tick.
///
/// If the tick does not bring the ring's countdown to its end, the record
/// waits as before. If it does and the record lies ahead of the pointer, the
/// record waits one slot nearer. If it does and the record lies under the
/// pointer, the task fires in this tick, provided that it is due. In the
/// meantime nothing touches the firing instant of the task.
pub proof fn law_waits_then_fires(
    harvest: Harvest,
    task: Task,
    ahead: int,
    target: i64,
    delta: int,
    now: int,
    answers: TickAnswers,
)
    requires
        waits(harvest, task, ahead, target),
        0 <= delta,
    ensures
        harvest.wheel.millisecond.interval > delta ==> waits(
            harvest.tick(delta, now, answers),
            task,
            ahead,
            target,
        ),
        harvest.wheel.millisecond.interval <= delta && ahead > 0 ==> waits(
            harvest.tick(delta, now, answers),
            task,
            ahead - 1,
            target,
        ),
        harvest.wheel.millisecond.interval <= delta && ahead == 0 && is_due(target as int, now)
            ==> harvest.tick(delta, now, answers).fired.contains(firing(task)),
{
    let slot = slot_ahead(harvest.wheel, ahead);
    let h0 = Harvest { wheel: harvest.wheel.tick(delta), ..harvest };
    assert forall|id: usize| #[trigger] records(h0.wheel, id) <= 1 by {
        lemma_tick_records(harvest.wheel, delta, id);
        assert(records(harvest.wheel, id) <= 1);
    }
    let h1 = h0.turn(Tier::Millisecond, now, answers.millisecond);
    let h2 = h1.turn(Tier::Second, now, answers.second);
    let h3 = h2.turn(Tier::Minute, now, answers.minute);
    let h4 = h3.turn(Tier::Hour, now, answers.hour);
    if harvest.wheel.millisecond.interval <= delta && ahead == 0 {
        if is_due(target as int, now) {
            let ring = h0.wheel.millisecond;
            let start = Harvest {
                wheel: h0.wheel.with_wheel(Tier::Millisecond, ring.rewound().advanced()),
                ..h0
            };
            assert forall|id: usize| #[trigger] records(start.wheel, id) + count_in(
                ring.due(),
                id,
            ) <= 1 by {
                lemma_advanced_records(ring, id);
                lemma_with_wheel_records(h0.wheel, Tier::Millisecond, ring.rewound().advanced(), id);
                assert(records(h0.wheel, id) <= 1);
            }
            lemma_take_all_fires(start, ring.due(), now, answers.millisecond, task);
            lemma_turn_keeps_firing(h1, Tier::Second, now, answers.second, firing(task));
            lemma_turn_keeps_firing(h2, Tier::Minute, now, answers.minute, firing(task));
            lemma_turn_keeps_firing(h3, Tier::Hour, now, answers.hour, firing(task));
        }
    } else {
        lemma_turn_keeps(h0, Tier::Millisecond, now, answers.millisecond, task, slot);
        lemma_turn_keeps(h1, Tier::Second, now, answers.second, task, slot);
        lemma_turn_keeps(h2, Tier::Minute, now, answers.minute, task, slot);
        lemma_turn_keeps(h3, Tier::Hour, now, answers.hour, task, slot);
    }
}

/// Where a record begins to wait. A record of a running and known task that
/// is placed with at most a second to go, in a wheel that holds no record of
/// the task, waits in the millisecond ring as many slots ahead of the
/// pointer as its delay holds tenths of a second, counted round the ring.
pub proof fn law_placed_waits(harvest: Harvest, task: Task, milliseconds: int, target: i64)
    requires
        harvest.wf(),
        single(harvest.wheel),
        records(harvest.wheel, task.task_id) == 0,
        milliseconds <= 1000,
        task.task_status == TaskStatus::Running,
        harvest.manager.actor(task.task_id) matches Some(actor) && actor.target == target,
    ensures
        tier_of(milliseconds) == Tier::Millisecond,
        waits(
            Harvest { wheel: harvest.wheel.placed(task, milliseconds), ..harvest },
            task,
            if milliseconds <= 0 {
                0
            } else {
                (milliseconds / 100) % 10
            },
            target,
        ),
{
    let placed = harvest.wheel.placed(task, milliseconds);
    let ahead = if milliseconds <= 0 {
        0
    } else {
        (milliseconds / 100) % 10
    };
    lemma_placed_holds(harvest.wheel, task, milliseconds, task);
    assert forall|id: usize| #[trigger] records(placed, id) <= 1 by {
        lemma_placed_records(harvest.wheel, task, milliseconds, id);
        assert(records(harvest.wheel, id) <= 1);
    }
    let slot = slot_ahead(placed, ahead);
    let bucket = harvest.wheel.millisecond.slots[slot];
    assert(placed.millisecond.slots[slot] == bucket.push(task));
    assert(placed.millisecond.slots[slot][bucket.len() as int] == task);
}

} // verus!
