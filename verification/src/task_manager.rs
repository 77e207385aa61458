//! The control surface: task ids, the live and the parked actors, and the
//! notices that tell the dispatcher of a change of status.
use crate::calendar::{all_on_the_second, on_the_second, CronSchedule};
use crate::task::{RepeatModel, Task, TaskStatus};
use crate::task_actor::{ActorView, SignalReply, TaskActor, TaskSignal};
use std::collections::HashMap;
use vstd::prelude::*;

verus! {

broadcast use vstd::std_specs::hash::group_hash_axioms;

/// What the manager holds: the last id handed out, the live actors, the
/// parked actors, and the notices not yet taken by the dispatcher, oldest
/// first.
#[verifier::ext_equal]
pub struct ManagerView {
    pub counter: int,
    pub live: Map<usize, ActorView>,
    pub idle: Map<usize, ActorView>,
    pub notices: Seq<(usize, TaskStatus)>,
}

impl ManagerView {
    /// No task is both live and parked, and every task has an id that was
    /// handed out.
    pub open spec fn wf(self) -> bool {
        &&& 0 <= self.counter <= usize::MAX
        &&& forall|id: usize| !(self.live.contains_key(id) && self.idle.contains_key(id))
        &&& forall|id: usize| self.live.contains_key(id) ==> 1 <= id <= self.counter
        &&& forall|id: usize| self.idle.contains_key(id) ==> 1 <= id <= self.counter
    }

    /// Whether `id` names a live or a parked task.
    pub open spec fn knows(self, id: usize) -> bool {
        self.live.contains_key(id) || self.idle.contains_key(id)
    }

    /// The state of task `id`, live or parked.
    pub open spec fn actor(self, id: usize) -> Option<ActorView> {
        if self.live.contains_key(id) {
            Some(self.live[id])
        } else if self.idle.contains_key(id) {
            Some(self.idle[id])
        } else {
            None
        }
    }

    /// The manager with the state of task `id` replaced, where it is. An
    /// unknown id changes nothing.
    pub open spec fn with_actor(self, id: usize, actor: ActorView) -> ManagerView {
        if self.live.contains_key(id) {
            ManagerView { live: self.live.insert(id, actor), ..self }
        } else if self.idle.contains_key(id) {
            ManagerView { idle: self.idle.insert(id, actor), ..self }
        } else {
            self
        }
    }

    /// The id that the next allocation hands out, if one is left.
    pub open spec fn next_id(self) -> Option<usize> {
        if self.counter < usize::MAX {
            Some((self.counter + 1) as usize)
        } else {
            None
        }
    }

    /// The manager after an allocation.
    pub open spec fn allocated(self) -> ManagerView {
        if self.counter < usize::MAX {
            ManagerView { counter: self.counter + 1, ..self }
        } else {
            self
        }
    }

    /// Whether `id` was handed out and names no task yet.
    pub open spec fn reserved(self, id: usize) -> bool {
        1 <= id <= self.counter && !self.knows(id)
    }

    /// The manager with a new live task.
    pub open spec fn registered(self, id: usize, actor: ActorView) -> ManagerView {
        ManagerView { live: self.live.insert(id, actor), ..self }
    }

    /// Whether a request to give task `id` the status `status` succeeds: a
    /// known task can be paused and destroyed, a parked one resumed.
    pub open spec fn accepts(self, id: usize, status: TaskStatus) -> bool {
        match status {
            TaskStatus::Pause => self.knows(id),
            TaskStatus::Destory => self.knows(id),
            TaskStatus::Running => self.idle.contains_key(id),
        }
    }

    /// The manager after a request to give task `id` the status `status`.
    /// Pausing a live task parks it, resuming a parked task makes it live,
    /// destroying a task forgets it; each of these leaves a notice. Any other
    /// request changes nothing.
    pub open spec fn status_updated(self, id: usize, status: TaskStatus) -> ManagerView {
        match status {
            TaskStatus::Pause => if self.live.contains_key(id) && !self.idle.contains_key(id) {
                ManagerView {
                    live: self.live.remove(id),
                    idle: self.idle.insert(id, self.live[id]),
                    notices: self.notices.push((id, status)),
                    ..self
                }
            } else {
                self
            },
            TaskStatus::Destory => if self.knows(id) {
                ManagerView {
                    live: self.live.remove(id),
                    idle: self.idle.remove(id),
                    notices: self.notices.push((id, status)),
                    ..self
                }
            } else {
                self
            },
            TaskStatus::Running => if self.idle.contains_key(id) {
                ManagerView {
                    live: self.live.insert(id, self.idle[id]),
                    idle: self.idle.remove(id),
                    notices: self.notices.push((id, status)),
                    ..self
                }
            } else {
                self
            },
        }
    }

    /// The manager after one firing of task `id` has been counted.
    pub open spec fn ticked(self, id: usize) -> ManagerView {
        match self.actor(id) {
            Some(actor) => self.with_actor(id, actor.ticked()),
            None => self,
        }
    }

    /// The manager after task `id` has been given the firing instant `target`.
    pub open spec fn retargeted(self, id: usize, target: i64) -> ManagerView {
        match self.actor(id) {
            Some(actor) => self.with_actor(id, actor.retargeted(target)),
            None => self,
        }
    }

    /// The manager after task `id` has been given the schedule parsed from
    /// `schedule`, whose next instant is `next`.
    pub open spec fn retuned(self, id: usize, schedule: Seq<char>, next: Option<i64>) -> ManagerView {
        match self.actor(id) {
            Some(actor) => self.with_actor(id, actor.retuned(schedule, next)),
            None => self,
        }
    }

    /// Whether `after` is the manager once task `id` has been given the
    /// schedule parsed from `schedule`, whose answer was `next`: an answer
    /// that a schedule can give names a whole second.
    pub open spec fn retunes(
        self,
        after: ManagerView,
        id: usize,
        schedule: Seq<char>,
        next: Option<i64>,
    ) -> bool {
        on_the_second(next) && after == self.retuned(id, schedule, next)
    }

    /// The manager after the dispatcher has taken the notices.
    pub open spec fn drained(self) -> ManagerView {
        ManagerView { notices: Seq::empty(), ..self }
    }
}

/// Allocates task ids, keeps the state of every task, and records each change
/// of status for the dispatcher.
pub struct TaskManager {
    task_id_counter: usize,
    id_task_mapping: HashMap<usize, TaskActor>,
    idle_task: HashMap<usize, TaskActor>,
    notice_list: Vec<(usize, TaskStatus)>,
}

impl View for TaskManager {
    type V = ManagerView;

    closed spec fn view(&self) -> ManagerView {
        ManagerView {
            counter: self.task_id_counter as int,
            live: self.id_task_mapping@.map_values(|actor: TaskActor| actor@),
            idle: self.idle_task@.map_values(|actor: TaskActor| actor@),
            notices: self.notice_list@,
        }
    }
}

impl TaskManager {
    pub open spec fn wf(&self) -> bool {
        self@.wf()
    }

    /// A manager that has handed out no id and knows no task.
    pub fn new() -> (manager: TaskManager)
        ensures
            manager.wf(),
            manager@ == (ManagerView {
                counter: 0,
                live: Map::empty(),
                idle: Map::empty(),
                notices: Seq::empty(),
            }),
    {
        Self::with_last_id(0)
    }

    /// A manager that knows no task and counts `last_id` as the last id
    /// handed out.
    pub fn with_last_id(last_id: usize) -> (manager: TaskManager)
        ensures
            manager.wf(),
            manager@ == (ManagerView {
                counter: last_id as int,
                live: Map::empty(),
                idle: Map::empty(),
                notices: Seq::empty(),
            }),
    {
        let manager = TaskManager {
            task_id_counter: last_id,
            id_task_mapping: HashMap::new(),
            idle_task: HashMap::new(),
            notice_list: Vec::new(),
        };
        manager
    }

    /// Hands out the next id: one more than the last, starting at 1. Gives
    /// nothing once `usize::MAX` has been handed out.
    pub fn get_new_id(&mut self) -> (id: Option<usize>)
        requires
            old(self).wf(),
        ensures
            final(self).wf(),
            id == old(self)@.next_id(),
            final(self)@ == old(self)@.allocated(),
    {
        if self.task_id_counter < usize::MAX {
            self.task_id_counter = self.task_id_counter + 1;
            assert(self@ =~= old(self)@.allocated());
            return Some(self.task_id_counter);
        }
        None
    }

    /// Makes `actor` the live task `task_id`.
    pub fn insert_new_task(&mut self, task_id: usize, actor: TaskActor)
        requires
            old(self).wf(),
            old(self)@.reserved(task_id),
        ensures
            final(self).wf(),
            final(self)@ == old(self)@.registered(task_id, actor@),
    {
        self.id_task_mapping.insert(task_id, actor);
    }

    /// Takes the notices, oldest first, and leaves none behind.
    pub fn drain_notice_list(&mut self) -> (notices: Vec<(usize, TaskStatus)>)
        requires
            old(self).wf(),
        ensures
            final(self).wf(),
            notices@ == old(self)@.notices,
            final(self)@ == old(self)@.drained(),
    {
        let mut notices: Vec<(usize, TaskStatus)> = Vec::new();
        std::mem::swap(&mut self.notice_list, &mut notices);
        assert(self@ =~= old(self)@.drained());
        notices
    }

    /// Gives task `task_id` the status `task_status` and says whether that
    /// was done.
    ///
    /// Pausing sends `Pause` to the live actor and parks its state; a task
    /// that is parked already stays so. Resuming makes a parked actor live
    /// again. Destroying sends `Destory` and forgets the task, live or parked.
    /// Each change leaves a notice for the dispatcher. An unknown id, and a
    /// request to resume a task that is not parked, fail and change nothing.
    pub fn update_task_status_by_id(&mut self, task_id: usize, task_status: TaskStatus) -> (updated:
        bool)
        requires
            old(self).wf(),
        ensures
            final(self).wf(),
            updated == old(self)@.accepts(task_id, task_status),
            final(self)@ == old(self)@.status_updated(task_id, task_status),
    {
        match task_status {
            TaskStatus::Pause => {
                if self.idle_task.contains_key(&task_id) {
                    return true;
                }
                match self.id_task_mapping.remove(&task_id) {
                    Some(mut actor) => {
                        match actor.handle_signal(TaskSignal::Pause) {
                            SignalReply::Parked => {
                                self.idle_task.insert(task_id, actor);
                                self.notice_list.push((task_id, task_status));
                                assert(self@ =~= old(self)@.status_updated(task_id, task_status));
                                true
                            },
                            _ => {
                                self.id_task_mapping.insert(task_id, actor);
                                false
                            },
                        }
                    },
                    None => {
                        assert(self@ =~= old(self)@);
                        false
                    },
                }
            },
            TaskStatus::Destory => {
                match self.id_task_mapping.remove(&task_id) {
                    Some(mut actor) => {
                        match actor.handle_signal(TaskSignal::Destory) {
                            SignalReply::Stopped => {
                                self.notice_list.push((task_id, task_status));
                                assert(self@ =~= old(self)@.status_updated(task_id, task_status));
                                true
                            },
                            _ => {
                                self.id_task_mapping.insert(task_id, actor);
                                false
                            },
                        }
                    },
                    None => match self.idle_task.remove(&task_id) {
                        Some(_) => {
                            self.notice_list.push((task_id, task_status));
                            assert(self@ =~= old(self)@.status_updated(task_id, task_status));
                            true
                        },
                        None => {
                        assert(self@ =~= old(self)@);
                        false
                    },
                    },
                }
            },
            TaskStatus::Running => {
                match self.idle_task.remove(&task_id) {
                    Some(actor) => {
                        self.id_task_mapping.insert(task_id, actor);
                        self.notice_list.push((task_id, task_status));
                        assert(self@ =~= old(self)@.status_updated(task_id, task_status));
                        true
                    },
                    None => {
                        assert(self@ =~= old(self)@);
                        false
                    },
                }
            },
        }
    }

    /// Gives task `task_id` the schedule `cron`, whose next instant is
    /// `next`, and says whether the task is known.
    pub fn retune_task(&mut self, task_id: usize, cron: CronSchedule, next: Option<i64>) -> (updated:
        bool)
        requires
            old(self).wf(),
        ensures
            final(self).wf(),
            updated == old(self)@.knows(task_id),
            final(self)@ == old(self)@.retuned(task_id, cron@, next),
    {
        match self.id_task_mapping.remove(&task_id) {
            Some(mut actor) => {
                actor.retune(cron, next);
                self.id_task_mapping.insert(task_id, actor);
                true
            },
            None => match self.idle_task.remove(&task_id) {
                Some(mut actor) => {
                    actor.retune(cron, next);
                    self.idle_task.insert(task_id, actor);
                    assert(self@ =~= old(self)@.retuned(task_id, cron@, next));
                    true
                },
                None => {
                        assert(self@ =~= old(self)@);
                        false
                    },
            },
        }
    }

    /// Gives task `task_id` the schedule `cron` and moves its firing instant
    /// to the next instant of that schedule, if it has one. Says whether the
    /// task is known; an unknown id changes nothing.
    pub fn update_cron_by_id(&mut self, task_id: usize, cron: CronSchedule) -> (updated: bool)
        requires
            old(self).wf(),
        ensures
            final(self).wf(),
            updated == old(self)@.knows(task_id),
            exists|next: Option<i64>| #[trigger]
                old(self)@.retunes(final(self)@, task_id, cron@, next),
    {
        let next = cron.upcoming();
        let ghost text = cron@;
        let updated = self.retune_task(task_id, cron, next);
        assert(old(self)@.retunes(self@, task_id, text, next));
        updated
    }

    /// The firing instant of task `task_id`, if the task is known.
    pub fn get_target_date_time(&self, task_id: usize) -> (target: Option<i64>)
        requires
            self.wf(),
        ensures
            match self@.actor(task_id) {
                Some(actor) => target == Some(actor.target),
                None => target is None,
            },
    {
        match self.id_task_mapping.get(&task_id) {
            Some(actor) => Some(actor.get_target_date_time()),
            None => match self.idle_task.get(&task_id) {
                Some(actor) => Some(actor.get_target_date_time()),
                None => None,
            },
        }
    }

    /// The repeat state of task `task_id`, if the task is known.
    pub fn get_repeat_model(&self, task_id: usize) -> (repeat: Option<RepeatModel>)
        requires
            self.wf(),
        ensures
            match self@.actor(task_id) {
                Some(actor) => repeat == Some(actor.repeat),
                None => repeat is None,
            },
    {
        match self.id_task_mapping.get(&task_id) {
            Some(actor) => Some(actor.get_repeat_model()),
            None => match self.idle_task.get(&task_id) {
                Some(actor) => Some(actor.get_repeat_model()),
                None => None,
            },
        }
    }

    /// The next instant of the schedule of task `task_id` after the present
    /// moment. An unknown task has none. For a known task, live or parked,
    /// the answer is that of its schedule: a whole second, if there is one.
    pub fn get_next_datetime(&self, task_id: usize) -> (next: Option<i64>)
        requires
            self.wf(),
        ensures
            !self@.knows(task_id) ==> next is None,
            on_the_second(next),
    {
        match self.id_task_mapping.get(&task_id) {
            Some(actor) => actor.get_next_datetime(),
            None => match self.idle_task.get(&task_id) {
                Some(actor) => actor.get_next_datetime(),
                None => None,
            },
        }
    }

    /// Asks, for each of `tasks`, the schedule of the task for its next instant
    /// after the present moment.
    pub fn get_next_datetimes(&self, tasks: &Vec<Task>) -> (nexts: Vec<Option<i64>>)
        requires
            self.wf(),
        ensures
            nexts@.len() == tasks@.len(),
            forall|i: int|
                0 <= i < tasks@.len() && !self@.knows(tasks@[i].task_id) ==> (
                #[trigger] nexts@[i]) is None,
            all_on_the_second(nexts@),
    {
        let mut nexts: Vec<Option<i64>> = Vec::new();
        let mut i: usize = 0;
        while i < tasks.len()
            invariant
                self.wf(),
                i <= tasks@.len(),
                nexts@.len() == i,
                forall|j: int|
                    0 <= j < i && !self@.knows(tasks@[j].task_id) ==> (#[trigger] nexts@[j]) is None,
                all_on_the_second(nexts@),
            decreases tasks@.len() - i,
        {
            nexts.push(self.get_next_datetime(tasks[i].task_id));
            i = i + 1;
        }
        nexts
    }

    /// Counts one firing of task `task_id` and says whether another follows.
    /// An unknown task gives no answer.
    pub fn tick_repeat_model(&mut self, task_id: usize) -> (again: Option<bool>)
        requires
            old(self).wf(),
        ensures
            final(self).wf(),
            match old(self)@.actor(task_id) {
                Some(actor) => again == Some(actor.repeat.fires_again()),
                None => again is None,
            },
            final(self)@ == old(self)@.ticked(task_id),
    {
        match self.id_task_mapping.remove(&task_id) {
            Some(mut actor) => {
                let again = actor.tick_repeat_model();
                self.id_task_mapping.insert(task_id, actor);
                Some(again)
            },
            None => match self.idle_task.remove(&task_id) {
                Some(mut actor) => {
                    let again = actor.tick_repeat_model();
                    self.idle_task.insert(task_id, actor);
                    assert(self@ =~= old(self)@.ticked(task_id));
                    Some(again)
                },
                None => {
                    assert(self@ =~= old(self)@);
                    None
                },
            },
        }
    }

    /// Gives task `task_id` the firing instant `target_datetime`. An unknown
    /// id changes nothing.
    pub fn set_target_date_time(&mut self, task_id: usize, target_datetime: i64)
        requires
            old(self).wf(),
        ensures
            final(self).wf(),
            final(self)@ == old(self)@.retargeted(task_id, target_datetime),
    {
        match self.id_task_mapping.remove(&task_id) {
            Some(mut actor) => {
                actor.set_target_date_time(target_datetime);
                self.id_task_mapping.insert(task_id, actor);
            },
            None => match self.idle_task.remove(&task_id) {
                Some(mut actor) => {
                    actor.set_target_date_time(target_datetime);
                    self.idle_task.insert(task_id, actor);
                    assert(self@ =~= old(self)@.retargeted(task_id, target_datetime));
                },
                None => {
                    assert(self@ =~= old(self)@);
                },
            },
        }
    }

    /// Whether `task_id` names a live or a parked task.
    pub fn knows(&self, task_id: usize) -> (known: bool)
        ensures
            known == self@.knows(task_id),
    {
        self.id_task_mapping.contains_key(&task_id) || self.idle_task.contains_key(&task_id)
    }

    /// Whether `task_id` names a parked task.
    pub fn is_parked(&self, task_id: usize) -> (parked: bool)
        ensures
            parked == self@.idle.contains_key(task_id),
    {
        self.idle_task.contains_key(&task_id)
    }

    /// The last id handed out.
    pub fn last_id(&self) -> (id: usize)
        ensures
            id == self@.counter,
    {
        self.task_id_counter
    }
}

} // verus!
