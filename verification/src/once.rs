//! Why no turn of the reactor fires a task twice.
//!
//! A task that has fired moves on to the instant that its schedule named
//! next. Its record then either lies in the millisecond ring, which has had
//! its turn, or is more than a second away, and so is not due should a
//! coarser ring come up with it later in the same tick.
use crate::core_reactor::{jobs_of, occurrences, Turn};
use crate::records::{
    count_in, fired_count, lemma_advanced_records, lemma_noticed_wheel_records,
    lemma_take_records, lemma_take_wf, lemma_tick_records, lemma_with_wheel_records, records,
    single, single_with,
};
use crate::suppression::{
    lemma_advanced_holds, lemma_noticed_holds, lemma_put_holds, lemma_slot_exists,
    lemma_with_actor_same_tasks,
};
use crate::task::{Task, TaskOrderType};
use crate::task_manager::ManagerView;
use crate::time_wheel::{
    is_due, slot_of, tier_of, Dispatch, Harvest, TickAnswers, Tier, TierView,
};
use vstd::prelude::*;

verus! {

/// The place of a tier in the order in which the rings have their turn.
pub open spec fn turn_of(tier: Tier) -> int {
    match tier {
        Tier::Millisecond => 0,
        Tier::Second => 1,
        Tier::Minute => 2,
        Tier::Hour => 3,
    }
}

/// Whether a ring whose turn is `from` or later holds `task`.
pub open spec fn pending(wheel: TierView, from: int, task: Task) -> bool {
    ||| from <= 0 && wheel.millisecond.holds(task)
    ||| from <= 1 && wheel.second.holds(task)
    ||| from <= 2 && wheel.minute.holds(task)
    ||| from <= 3 && wheel.hour.holds(task)
}

/// Whether task `id`, if its state is known, is not due at `now`.
pub open spec fn cold(manager: ManagerView, id: usize, now: int) -> bool {
    manager.actor(id) matches Some(actor) ==> !is_due(actor.target as int, now)
}

/// What holds in the middle of a tick at `now`, while the bucket `rest` is
/// being harvested and the rings from turn `from` on are still to come: the
/// wheel and the bucket hold at most one record of each task; no task has
/// fired twice; and no task that has fired and still has a record to be
/// harvested in this tick is due.
pub open spec fn once(harvest: Harvest, rest: Seq<Task>, from: int, now: int) -> bool {
    &&& harvest.wf()
    &&& single_with(harvest.wheel, rest)
    &&& forall|id: usize| #[trigger] fired_count(harvest.fired, id) <= 1
    &&& forall|task: Task| #[trigger]
        to_come(harvest.wheel, rest, from, task) && fired_count(harvest.fired, task.task_id) >= 1
            ==> cold(harvest.manager, task.task_id, now)
}

/// Whether `task` is still to be harvested: it is in the bucket at hand, or
/// in a ring whose turn is `from` or later.
pub open spec fn to_come(wheel: TierView, rest: Seq<Task>, from: int, task: Task) -> bool {
    rest.contains(task) || pending(wheel, from, task)
}

/// A record placed in the wheel is pending only if its ring is still to have
/// its turn.
pub proof fn lemma_placed_pending(
    wheel: TierView,
    task: Task,
    milliseconds: int,
    from: int,
    other: Task,
)
    requires
        wheel.wf(),
    ensures
        pending(wheel.placed(task, milliseconds), from, other) ==> pending(wheel, from, other) || (
        other == task && from <= turn_of(tier_of(milliseconds))),
{
    lemma_slot_exists(wheel, milliseconds);
    let ring = wheel.wheel(tier_of(milliseconds));
    lemma_put_holds(ring, slot_of(ring.pointer, milliseconds), task, other);
}

/// A record of a task in a bucket makes the count of the bucket positive.
pub proof fn lemma_count_contains(bucket: Seq<Task>, task: Task)
    requires
        bucket.contains(task),
    ensures
        count_in(bucket, task.task_id) >= 1,
    decreases bucket.len(),
{
    if bucket.last() != task {
        let j = choose|j: int| 0 <= j < bucket.len() && bucket[j] == task;
        assert(bucket.drop_last()[j] == task);
        lemma_count_contains(bucket.drop_last(), task);
    }
}

/// The state of a task is not touched when that of another is replaced.
pub proof fn lemma_with_actor_other(
    manager: ManagerView,
    id: usize,
    actor: crate::task_actor::ActorView,
    other: usize,
)
    requires
        manager.wf(),
        other != id,
    ensures
        manager.with_actor(id, actor).actor(other) == manager.actor(other),
{
}

/// The harvest of one task touches the state of no other task.
pub proof fn lemma_take_other(
    harvest: Harvest,
    task: Task,
    now: int,
    next: Option<i64>,
    other: usize,
)
    requires
        harvest.wf(),
        other != task.task_id,
    ensures
        harvest.take(task, now, next).manager.actor(other) == harvest.manager.actor(other),
{
    let id = task.task_id;
    match harvest.manager.actor(id) {
        Some(actor) => {
            lemma_with_actor_same_tasks(harvest.manager, id, actor.ticked());
            let counted = harvest.manager.ticked(id);
            lemma_with_actor_other(harvest.manager, id, actor.ticked(), other);
            match next {
                Some(instant) => {
                    lemma_with_actor_other(harvest.manager, id, actor.retargeted(instant), other);
                    lemma_with_actor_other(
                        counted,
                        id,
                        counted.actor(id)->Some_0.retargeted(instant),
                        other,
                    );
                },
                None => {},
            }
        },
        None => {},
    }
}

/// The harvest of one task of the bucket at hand keeps what holds in the
/// middle of a tick.
pub proof fn lemma_take_once(
    harvest: Harvest,
    tasks: Seq<Task>,
    from: int,
    now: int,
    next: Option<i64>,
)
    requires
        tasks.len() > 0,
        from >= 1,
        once(harvest, tasks, from, now),
    ensures
        once(harvest.take(tasks.last(), now, next), tasks.drop_last(), from, now),
{
    let task = tasks.last();
    let id = task.task_id;
    let rest = tasks.drop_last();
    let after = harvest.take(task, now, next);
    lemma_take_wf(harvest, task, now, next);
    assert(tasks[tasks.len() - 1] == task);
    assert(tasks.contains(task));
    assert(to_come(harvest.wheel, tasks, from, task));
    lemma_count_contains(tasks, task);
    // One record of each task.
    assert forall|other: usize| #[trigger] records(after.wheel, other) + count_in(rest, other)
        <= 1 by {
        lemma_take_records(harvest, task, now, next, other);
        assert(records(harvest.wheel, other) + count_in(tasks, other) <= 1);
    }
    // No task has fired twice.
    assert forall|other: usize| #[trigger] fired_count(after.fired, other) <= 1 by {
        lemma_take_records(harvest, task, now, next, other);
        assert(fired_count(harvest.fired, other) <= 1);
        if after.fired != harvest.fired && other == id {
            if fired_count(harvest.fired, id) >= 1 {
                assert(cold(harvest.manager, id, now));
            }
        }
    }
    // What has fired and is still to come is not due.
    assert forall|other: Task| #[trigger]
        to_come(after.wheel, rest, from, other) && fired_count(after.fired, other.task_id)
            >= 1 implies cold(after.manager, other.task_id, now) by {
        if other.task_id != id {
            lemma_take_other(harvest, task, now, next, other.task_id);
            lemma_take_records(harvest, task, now, next, other.task_id);
            if rest.contains(other) {
                let j = choose|j: int| 0 <= j < rest.len() && rest[j] == other;
                assert(tasks[j] == other);
                assert(tasks.contains(other));
            } else if after.wheel != harvest.wheel {
                let milliseconds = choose|milliseconds: int|
                    after.wheel == harvest.wheel.placed(task, milliseconds);
                lemma_placed_pending(harvest.wheel, task, milliseconds, from, other);
            }
            assert(to_come(harvest.wheel, tasks, from, other));
            assert(fired_count(harvest.fired, other.task_id) >= 1) by {
                if after.fired != harvest.fired {
                    assert(after.fired.drop_last() =~= harvest.fired);
                }
            }
        } else {
            // The bucket holds no second record of the task, and neither
            // does the wheel; so the record is the one that was placed.
            assert(records(harvest.wheel, id) + count_in(tasks, id) <= 1);
            assert(records(after.wheel, id) + count_in(rest, id) <= 1);
            if rest.contains(other) {
                lemma_count_contains(rest, other);
                assert(count_in(tasks, id) == count_in(rest, id) + 1);
            } else {
                lemma_pending_counts(harvest.wheel, from, other);
                if pending(harvest.wheel, from, other) {
                    assert(false);
                }
                assert(after.wheel != harvest.wheel);
                let milliseconds = choose|milliseconds: int|
                    after.wheel == harvest.wheel.placed(task, milliseconds);
                lemma_placed_pending(harvest.wheel, task, milliseconds, from, other);
                assert(milliseconds > 1000);
            }
        }
    }
}

/// A record that a ring holds counts.
pub proof fn lemma_pending_counts(wheel: TierView, from: int, task: Task)
    ensures
        pending(wheel, from, task) ==> records(wheel, task.task_id) >= 1,
{
    if wheel.holds(task) {
        crate::records::lemma_holds_counts(wheel, task);
    }
}

/// The harvest of the bucket at hand keeps what holds in the middle of a
/// tick.
pub proof fn lemma_take_all_once(
    harvest: Harvest,
    tasks: Seq<Task>,
    from: int,
    now: int,
    nexts: Seq<Option<i64>>,
)
    requires
        from >= 1,
        once(harvest, tasks, from, now),
    ensures
        once(harvest.take_all(tasks, now, nexts), Seq::empty(), from, now),
    decreases tasks.len(),
{
    if tasks.len() > 0 {
        lemma_take_once(harvest, tasks, from, now, nexts[tasks.len() - 1]);
        lemma_take_all_once(
            harvest.take(tasks.last(), now, nexts[tasks.len() - 1]),
            tasks.drop_last(),
            from,
            now,
            nexts,
        );
    } else {
        assert(tasks =~= Seq::empty());
    }
}

/// The turn of one ring keeps what holds in the middle of a tick.
pub proof fn lemma_turn_once(harvest: Harvest, tier: Tier, now: int, nexts: Seq<Option<i64>>)
    requires
        once(harvest, Seq::empty(), turn_of(tier), now),
    ensures
        once(harvest.turn(tier, now, nexts), Seq::empty(), turn_of(tier) + 1, now),
{
    let from = turn_of(tier);
    let ring = harvest.wheel.wheel(tier);
    let nothing = Seq::<Task>::empty();
    if ring.interval == 0 {
        let emptied = harvest.wheel.with_wheel(tier, ring.rewound().advanced());
        let start = Harvest { wheel: emptied, ..harvest };
        assert forall|id: usize| #[trigger] records(emptied, id) + count_in(ring.due(), id)
            <= 1 by {
            lemma_advanced_records(ring, id);
            lemma_with_wheel_records(harvest.wheel, tier, ring.rewound().advanced(), id);
            assert(records(harvest.wheel, id) + count_in(nothing, id) <= 1);
        }
        assert forall|task: Task| #[trigger]
            to_come(emptied, ring.due(), from + 1, task) && fired_count(
                start.fired,
                task.task_id,
            ) >= 1 implies cold(start.manager, task.task_id, now) by {
            lemma_advanced_holds(ring, task);
            assert(pending(harvest.wheel, from, task));
            assert(to_come(harvest.wheel, nothing, from, task));
        }
        lemma_take_all_once(start, ring.due(), from + 1, now, nexts);
    } else {
        assert forall|task: Task| #[trigger]
            to_come(harvest.wheel, nothing, from + 1, task) && fired_count(
                harvest.fired,
                task.task_id,
            ) >= 1 implies cold(harvest.manager, task.task_id, now) by {
            assert(to_come(harvest.wheel, nothing, from, task));
        }
    }
}

/// A tick fires no task twice, whatever the schedules answer,
/// provided that the wheel holds at most one record of each task.
pub proof fn law_tick_fires_no_task_twice(
    harvest: Harvest,
    delta: int,
    now: int,
    answers: TickAnswers,
)
    requires
        harvest.wf(),
        0 <= delta,
        single(harvest.wheel),
        harvest.fired.len() == 0,
    ensures
        forall|id: usize| #[trigger] fired_count(harvest.tick(delta, now, answers).fired, id) <= 1,
{
    let nothing = Seq::<Task>::empty();
    let h0 = Harvest { wheel: harvest.wheel.tick(delta), ..harvest };
    assert forall|id: usize| #[trigger] records(h0.wheel, id) + count_in(nothing, id) <= 1 by {
        lemma_tick_records(harvest.wheel, delta, id);
        assert(records(harvest.wheel, id) <= 1);
    }
    assert(once(h0, nothing, 0, now));
    lemma_turn_once(h0, Tier::Millisecond, now, answers.millisecond);
    let h1 = h0.turn(Tier::Millisecond, now, answers.millisecond);
    lemma_turn_once(h1, Tier::Second, now, answers.second);
    let h2 = h1.turn(Tier::Second, now, answers.second);
    lemma_turn_once(h2, Tier::Minute, now, answers.minute);
    let h3 = h2.turn(Tier::Minute, now, answers.minute);
    lemma_turn_once(h3, Tier::Hour, now, answers.hour);
}

/// A turn of the reactor fires no task twice.
pub proof fn law_turn_fires_no_task_twice(before: Turn, delta: int, now: int, answers: TickAnswers)
    requires
        before.wheel.wf(),
        before.manager.wf(),
        0 <= delta,
        single(before.wheel),
    ensures
        forall|id: usize| #[trigger]
            fired_count(before.harvest(delta, now, answers).fired, id) <= 1,
{
    let notices = before.manager.notices;
    let start = Harvest {
        wheel: before.wheel.noticed(notices),
        manager: before.manager.drained(),
        fired: Seq::empty(),
    };
    lemma_noticed_holds(before.wheel, notices, arbitrary());
    assert forall|id: usize| #[trigger] records(start.wheel, id) <= 1 by {
        lemma_noticed_wheel_records(before.wheel, notices, id);
        assert(records(before.wheel, id) <= 1);
    }
    law_tick_fires_no_task_twice(start, delta, now, answers);
}

/// A task is routed as often as it fired.
pub proof fn lemma_routed_count(fired: Seq<Dispatch>, id: usize)
    ensures
        occurrences(jobs_of(fired, TaskOrderType::Order), id) + occurrences(
            jobs_of(fired, TaskOrderType::Disorder),
            id,
        ) == fired_count(fired, id),
    decreases fired.len(),
{
    if fired.len() > 0 {
        lemma_routed_count(fired.drop_last(), id);
        let ordered = jobs_of(fired.drop_last(), TaskOrderType::Order);
        let disordered = jobs_of(fired.drop_last(), TaskOrderType::Disorder);
        assert(ordered.push(fired.last().task_id).drop_last() =~= ordered);
        assert(disordered.push(fired.last().task_id).drop_last() =~= disordered);
    }
}

/// A turn of the reactor routes no task twice: each task is
/// handed at most once to its mailbox or to the run queue, and never to
/// both.
pub proof fn law_turn_routes_no_task_twice(
    before: Turn,
    delta: int,
    now: int,
    answers: TickAnswers,
)
    requires
        before.wheel.wf(),
        before.manager.wf(),
        0 <= delta,
        single(before.wheel),
    ensures
        forall|id: usize|
            occurrences(#[trigger] before.ordered(delta, now, answers), id) + occurrences(
                jobs_of(before.harvest(delta, now, answers).fired, TaskOrderType::Disorder),
                id,
            ) <= 1,
{
    law_turn_fires_no_task_twice(before, delta, now, answers);
    assert forall|id: usize|
        occurrences(#[trigger] before.ordered(delta, now, answers), id) + occurrences(
            jobs_of(before.harvest(delta, now, answers).fired, TaskOrderType::Disorder),
            id,
        ) <= 1 by {
        lemma_routed_count(before.harvest(delta, now, answers).fired, id);
        assert(fired_count(before.harvest(delta, now, answers).fired, id) <= 1);
    }
}

} // verus!
