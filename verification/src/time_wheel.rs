//! One ring of buckets and the four-tier wheel built from such rings.
use crate::config::{
    DEFAULT_HOUR_TIME_WHEEL_SETTING, DEFAULT_MILLISECOND_TIME_WHEEL_SETTING,
    DEFAULT_MINUTE_TIME_WHEEL_SETTING, DEFAULT_SECOND_TIME_WHEEL_SETTING, DUE_SLACK,
};
use crate::calendar::all_on_the_second;
use crate::task::{Task, TaskOrderType, TaskStatus};
use crate::task_manager::{ManagerView, TaskManager};
use std::collections::VecDeque;
use vstd::prelude::*;

verus! {

/// What a ring holds: its buckets in ring order, the index of the bucket under
/// the pointer, the milliseconds left until the pointer moves, and the slot
/// width.
#[verifier::ext_equal]
pub struct WheelView {
    pub slots: Seq<Seq<Task>>,
    pub pointer: int,
    pub interval: int,
    pub interval_setting: int,
}

impl WheelView {
    pub open spec fn wf(self) -> bool {
        &&& self.slots.len() > 0
        &&& 0 <= self.pointer < self.slots.len()
        &&& 0 <= self.interval <= u64::MAX
        &&& 0 <= self.interval_setting <= u64::MAX
    }

    /// The ring after `delta` milliseconds have passed: the countdown falls,
    /// and stops at zero.
    pub open spec fn tick(self, delta: int) -> WheelView {
        WheelView {
            interval: if self.interval >= delta {
                self.interval - delta
            } else {
                0
            },
            ..self
        }
    }

    /// The ring with its countdown set back to the slot width.
    pub open spec fn rewound(self) -> WheelView {
        WheelView { interval: self.interval_setting, ..self }
    }

    /// The bucket under the pointer.
    pub open spec fn due(self) -> Seq<Task> {
        self.slots[self.pointer]
    }

    /// The ring after a harvest: the bucket under the pointer is empty and the
    /// pointer has moved one slot on, round the ring.
    pub open spec fn advanced(self) -> WheelView {
        WheelView {
            slots: self.slots.update(self.pointer, Seq::empty()),
            pointer: if self.pointer + 1 >= self.slots.len() {
                0
            } else {
                self.pointer + 1
            },
            ..self
        }
    }

    /// The ring with `task` appended to the bucket at `index`.
    pub open spec fn put(self, index: int, task: Task) -> WheelView {
        WheelView { slots: self.slots.update(index, self.slots[index].push(task)), ..self }
    }

    /// Whether some bucket of the ring holds `task`.
    pub open spec fn holds(self, task: Task) -> bool {
        exists|i: int, j: int|
            0 <= i < self.slots.len() && 0 <= j < self.slots[i].len() && #[trigger] self.slots[i][j]
                == task
    }

    /// The ring once `notices` have reached every task in it.
    pub open spec fn noticed(self, notices: Seq<(usize, TaskStatus)>) -> WheelView {
        WheelView {
            slots: Seq::new(self.slots.len(), |i: int| noticed_bucket(self.slots[i], notices)),
            ..self
        }
    }
}

/// The status of task `id` once `notices` have reached it, oldest first: that
/// of the last notice for the task, and `status` if there is none.
pub open spec fn status_after(
    notices: Seq<(usize, TaskStatus)>,
    id: usize,
    status: TaskStatus,
) -> TaskStatus
    decreases notices.len(),
{
    if notices.len() == 0 {
        status
    } else if notices.last().0 == id {
        notices.last().1
    } else {
        status_after(notices.drop_last(), id, status)
    }
}

/// `task` once `notices` have reached it.
pub open spec fn noticed(task: Task, notices: Seq<(usize, TaskStatus)>) -> Task {
    Task { task_status: status_after(notices, task.task_id, task.task_status), ..task }
}

/// A bucket once `notices` have reached each of its tasks.
pub open spec fn noticed_bucket(bucket: Seq<Task>, notices: Seq<(usize, TaskStatus)>) -> Seq<
    Task,
> {
    Seq::new(bucket.len(), |j: int| noticed(bucket[j], notices))
}

/// The status of task `id` once `notices` have reached it.
pub fn status_for(notices: &Vec<(usize, TaskStatus)>, id: usize, status: TaskStatus) -> (after:
    TaskStatus)
    ensures
        after == status_after(notices@, id, status),
{
    let mut i: usize = notices.len();
    assert(notices@.subrange(0, i as int) =~= notices@);
    while i > 0
        invariant
            i <= notices@.len(),
            status_after(notices@, id, status) == status_after(
                notices@.subrange(0, i as int),
                id,
                status,
            ),
        decreases i,
    {
        let (noticed_id, noticed_status) = notices[i - 1];
        if noticed_id == id {
            return noticed_status;
        }
        assert(notices@.subrange(0, i as int).drop_last() =~= notices@.subrange(0, i - 1));
        i = i - 1;
    }
    status
}

/// No notice changes nothing.
pub proof fn lemma_no_notice(wheel: WheelView, notices: Seq<(usize, TaskStatus)>)
    requires
        notices.len() == 0,
    ensures
        wheel.noticed(notices) == wheel,
{
    assert forall|i: int| 0 <= i < wheel.slots.len() implies noticed_bucket(
        #[trigger] wheel.slots[i],
        notices,
    ) == wheel.slots[i] by {
        assert(noticed_bucket(wheel.slots[i], notices) =~= wheel.slots[i]);
    }
    assert(wheel.noticed(notices).slots =~= wheel.slots);
}

/// A fixed-length ring of buckets with a rotating pointer.
pub struct TimeWheel {
    slot: Vec<VecDeque<Task>>,
    pointer: usize,
    interval: u64,
    interval_setting: u64,
}

impl View for TimeWheel {
    type V = WheelView;

    closed spec fn view(&self) -> WheelView {
        WheelView {
            slots: Seq::new(self.slot@.len(), |i: int| self.slot@[i]@),
            pointer: self.pointer as int,
            interval: self.interval as int,
            interval_setting: self.interval_setting as int,
        }
    }
}

impl TimeWheel {
    pub open spec fn wf(&self) -> bool {
        self@.wf()
    }

    /// A ring of `slot_len` empty buckets, each `interval` milliseconds wide,
    /// with the pointer on the first bucket and a full countdown.
    pub fn new(slot_len: usize, interval: u64) -> (wheel: TimeWheel)
        requires
            slot_len > 0,
        ensures
            wheel.wf(),
            wheel@.slots == Seq::new(slot_len as nat, |i: int| Seq::<Task>::empty()),
            wheel@.pointer == 0,
            wheel@.interval == interval,
            wheel@.interval_setting == interval,
    {
        let mut slot: Vec<VecDeque<Task>> = Vec::with_capacity(slot_len);
        let mut i: usize = 0;
        while i < slot_len
            invariant
                i <= slot_len,
                slot@.len() == i,
                forall|j: int| 0 <= j < i ==> (#[trigger] slot@[j])@ == Seq::<Task>::empty(),
            decreases slot_len - i,
        {
            slot.push(VecDeque::new());
            i = i + 1;
        }
        let wheel = TimeWheel { slot, pointer: 0, interval, interval_setting: interval };
        wheel
    }

    /// Lets `delta` milliseconds pass.
    pub fn tick(&mut self, delta: u64)
        ensures
            final(self)@ == old(self)@.tick(delta as int),
    {
        self.interval = if self.interval >= delta {
            self.interval - delta
        } else {
            0
        };
    }

    /// Says whether the countdown has run out, and if so starts it again.
    pub fn interval_finished(&mut self) -> (finished: bool)
        ensures
            finished == (old(self)@.interval == 0),
            finished ==> final(self)@ == old(self)@.rewound(),
            !finished ==> final(self)@ == old(self)@,
    {
        if self.interval == 0 {
            self.interval = self.interval_setting;
            true
        } else {
            false
        }
    }

    /// Empties the bucket under the pointer, in bucket order, and moves the
    /// pointer one slot on.
    pub fn check(&mut self) -> (tasks: Vec<Task>)
        requires
            old(self).wf(),
        ensures
            final(self).wf(),
            tasks@ == old(self)@.due(),
            final(self)@ == old(self)@.advanced(),
    {
        let mut tasks_vec: Vec<Task> = Vec::new();
        let at: usize = self.pointer;
        while self.slot[at].len() > 0
            invariant
                self.slot@.len() == old(self).slot@.len(),
                at == old(self).pointer,
                at < self.slot@.len(),
                self.pointer == old(self).pointer,
                self.interval == old(self).interval,
                self.interval_setting == old(self).interval_setting,
                forall|j: int|
                    0 <= j < self.slot@.len() && j != at ==> (#[trigger] self.slot@[j])@
                        == old(self).slot@[j]@,
                tasks_vec@ + self.slot@[at as int]@ == old(self).slot@[at as int]@,
            decreases self.slot@[at as int]@.len(),
        {
            if let Some(t) = self.slot[at].pop_front() {
                tasks_vec.push(t);
            }
        }
        assert(self.slot@[at as int]@ =~= Seq::<Task>::empty());
        let next: usize = if at >= self.slot.len() - 1 {
            0
        } else {
            at + 1
        };
        self.pointer = next;
        tasks_vec
    }

    /// Appends `task` to the bucket at `index`.
    pub fn push_at(&mut self, index: usize, task: Task)
        requires
            old(self).wf(),
            index < old(self)@.slots.len(),
        ensures
            final(self).wf(),
            final(self)@ == old(self)@.put(index as int, task),
    {
        self.slot[index].push_back(task);
    }

    /// Lets `notices` reach every task of the bucket at `index`.
    fn notice_bucket(&mut self, index: usize, notices: &Vec<(usize, TaskStatus)>)
        requires
            old(self).wf(),
            index < old(self)@.slots.len(),
        ensures
            final(self).wf(),
            final(self)@ == (WheelView {
                slots: old(self)@.slots.update(
                    index as int,
                    noticed_bucket(old(self)@.slots[index as int], notices@),
                ),
                ..old(self)@
            }),
    {
        let ghost bucket = self.slot@[index as int]@;
        let n: usize = self.slot[index].len();
        let mut k: usize = 0;
        while k < n
            invariant
                k <= n,
                n == bucket.len(),
                index < self.slot@.len(),
                self.slot@.len() == old(self).slot@.len(),
                self.pointer == old(self).pointer,
                self.interval == old(self).interval,
                self.interval_setting == old(self).interval_setting,
                forall|j: int|
                    0 <= j < self.slot@.len() && j != index ==> (#[trigger] self.slot@[j])@
                        == old(self).slot@[j]@,
                self.slot@[index as int]@ == bucket.subrange(k as int, n as int) + noticed_bucket(
                    bucket,
                    notices@,
                ).subrange(0, k as int),
            decreases n - k,
        {
            if let Some(task) = self.slot[index].pop_front() {
                let after = status_for(notices, task.task_id, task.task_status);
                let updated = Task { task_status: after, ..task };
                self.slot[index].push_back(updated);
            }
            k = k + 1;
        }
        assert(self.slot@[index as int]@ =~= noticed_bucket(bucket, notices@));
    }

    /// Lets `notices` reach every task in the ring.
    pub fn apply_notices(&mut self, notices: &Vec<(usize, TaskStatus)>)
        requires
            old(self).wf(),
        ensures
            final(self).wf(),
            final(self)@ == old(self)@.noticed(notices@),
    {
        let n: usize = self.slot.len();
        let mut i: usize = 0;
        while i < n
            invariant
                i <= n,
                n == old(self)@.slots.len(),
                self.wf(),
                self@.slots.len() == n,
                self@.pointer == old(self)@.pointer,
                self@.interval == old(self)@.interval,
                self@.interval_setting == old(self)@.interval_setting,
                forall|j: int|
                    0 <= j < i ==> #[trigger] self@.slots[j] == noticed_bucket(
                        old(self)@.slots[j],
                        notices@,
                    ),
                forall|j: int| i <= j < n ==> #[trigger] self@.slots[j] == old(self)@.slots[j],
            decreases n - i,
        {
            self.notice_bucket(i, notices);
            i = i + 1;
        }
    }

    /// A copy of the bucket at `index`, in bucket order; nothing for an index
    /// beyond the ring.
    pub fn bucket(&self, index: usize) -> (tasks: Vec<Task>)
        ensures
            tasks@ == if index < self@.slots.len() {
                self@.slots[index as int]
            } else {
                Seq::empty()
            },
    {
        let mut tasks: Vec<Task> = Vec::new();
        if index < self.slot.len() {
            let mut j: usize = 0;
            while j < self.slot[index].len()
                invariant
                    index < self.slot@.len(),
                    j <= self.slot@[index as int]@.len(),
                    tasks@ == self.slot@[index as int]@.subrange(0, j as int),
                decreases self.slot@[index as int]@.len() - j,
            {
                tasks.push(self.slot[index][j]);
                j = j + 1;
            }
        }
        tasks
    }

    /// The milliseconds left until the pointer moves.
    pub fn interval(&self) -> (interval: u64)
        ensures
            interval == self@.interval,
    {
        self.interval
    }

    /// The slot under the pointer.
    pub fn pointer(&self) -> (pointer: usize)
        ensures
            pointer == self@.pointer,
    {
        self.pointer
    }

    /// Number of slots.
    pub fn slot_count(&self) -> (count: usize)
        ensures
            count == self@.slots.len(),
    {
        self.slot.len()
    }
}

/// The four tiers, finest first.
#[derive(Clone, Copy, Debug, PartialEq, Eq, Structural)]
pub enum Tier {
    Millisecond,
    Second,
    Minute,
    Hour,
}

/// The tier that takes a task due in `milliseconds`: up to a second the
/// millisecond wheel, up to a minute the second wheel, up to an hour the
/// minute wheel, beyond that the hour wheel.
pub open spec fn tier_of(milliseconds: int) -> Tier {
    if milliseconds <= 1000 {
        Tier::Millisecond
    } else if milliseconds <= 60000 {
        Tier::Second
    } else if milliseconds <= 3600000 {
        Tier::Minute
    } else {
        Tier::Hour
    }
}

/// The bucket, in the wheel of its tier, that takes a task due in
/// `milliseconds` when the pointer of that wheel is at `pointer`.
///
/// Every wheel counts the delay in slot widths from the pointer, round the
/// ring; a delay that is already over counts as none. In the hour wheel a
/// delay of more slot widths than lie ahead of the pointer counts as the
/// farthest slot, the one just behind the pointer, so that a deadline beyond
/// the horizon comes up last and is placed anew then.
pub open spec fn slot_of(pointer: int, milliseconds: int) -> int {
    match tier_of(milliseconds) {
        Tier::Millisecond => if milliseconds <= 0 {
            pointer
        } else {
            (pointer + milliseconds / 100) % 10
        },
        Tier::Second => (pointer + milliseconds / 1000) % 60,
        Tier::Minute => (pointer + milliseconds / 1000 / 60) % 60,
        Tier::Hour => (pointer + hours_ahead(milliseconds)) % 24,
    }
}

/// The slots that a delay of more than an hour lies ahead in the hour wheel:
/// its hours, and no more than the 23 that lie ahead of the pointer.
pub open spec fn hours_ahead(milliseconds: int) -> int {
    if milliseconds / 1000 / 3600 >= 23 {
        23
    } else {
        milliseconds / 1000 / 3600
    }
}

/// What the tiered wheel holds: its four rings.
#[verifier::ext_equal]
pub struct TierView {
    pub millisecond: WheelView,
    pub second: WheelView,
    pub minute: WheelView,
    pub hour: WheelView,
}

impl TierView {
    /// The rings have 10, 60, 60 and 24 buckets.
    pub open spec fn wf(self) -> bool {
        &&& self.millisecond.wf() && self.millisecond.slots.len() == 10
        &&& self.second.wf() && self.second.slots.len() == 60
        &&& self.minute.wf() && self.minute.slots.len() == 60
        &&& self.hour.wf() && self.hour.slots.len() == 24
    }

    pub open spec fn wheel(self, tier: Tier) -> WheelView {
        match tier {
            Tier::Millisecond => self.millisecond,
            Tier::Second => self.second,
            Tier::Minute => self.minute,
            Tier::Hour => self.hour,
        }
    }

    pub open spec fn with_wheel(self, tier: Tier, wheel: WheelView) -> TierView {
        match tier {
            Tier::Millisecond => TierView { millisecond: wheel, ..self },
            Tier::Second => TierView { second: wheel, ..self },
            Tier::Minute => TierView { minute: wheel, ..self },
            Tier::Hour => TierView { hour: wheel, ..self },
        }
    }

    /// The wheel with `task`, due in `milliseconds`, appended to the bucket
    /// that its delay selects.
    pub open spec fn placed(self, task: Task, milliseconds: int) -> TierView {
        let tier = tier_of(milliseconds);
        let wheel = self.wheel(tier);
        self.with_wheel(tier, wheel.put(slot_of(wheel.pointer, milliseconds), task))
    }

    /// The wheel after `delta` milliseconds have passed on every ring.
    pub open spec fn tick(self, delta: int) -> TierView {
        TierView {
            millisecond: self.millisecond.tick(delta),
            second: self.second.tick(delta),
            minute: self.minute.tick(delta),
            hour: self.hour.tick(delta),
        }
    }

    /// Whether some bucket of some ring holds `task`.
    pub open spec fn holds(self, task: Task) -> bool {
        ||| self.millisecond.holds(task)
        ||| self.second.holds(task)
        ||| self.minute.holds(task)
        ||| self.hour.holds(task)
    }

    /// The wheel once `notices` have reached every task in it.
    pub open spec fn noticed(self, notices: Seq<(usize, TaskStatus)>) -> TierView {
        TierView {
            millisecond: self.millisecond.noticed(notices),
            second: self.second.noticed(notices),
            minute: self.minute.noticed(notices),
            hour: self.hour.noticed(notices),
        }
    }
}

/// A firing that the dispatcher hands to its host: an ordered one goes to the
/// task's own mailbox, a disordered one to the shared run queue.
#[derive(Clone, Copy, Debug, PartialEq, Eq, Structural)]
pub struct Dispatch {
    pub task_id: usize,
    pub task_order_type: TaskOrderType,
}

/// The milliseconds from `now` to `target`, kept within the range of `i64`.
pub open spec fn delay_until(target: int, now: int) -> int {
    if target - now > i64::MAX {
        i64::MAX as int
    } else if target - now < i64::MIN {
        i64::MIN as int
    } else {
        target - now
    }
}

/// The milliseconds from `now` to `target`, kept within the range of `i64`.
pub fn delay(target: i64, now: i64) -> (milliseconds: i64)
    ensures
        milliseconds == delay_until(target as int, now as int),
{
    if now >= 0 {
        if target < i64::MIN + now {
            i64::MIN
        } else {
            target - now
        }
    } else {
        if target > i64::MAX + now {
            i64::MAX
        } else {
            target - now
        }
    }
}

/// Whether a task that is to fire at `target` is due at `now`: its instant is
/// at most the slack ahead, or has passed.
pub open spec fn is_due(target: int, now: int) -> bool {
    delay_until(target, now) <= DUE_SLACK
}

/// What the schedules gave during one tick: for each ring, and for each task
/// of the bucket harvested from it, the next instant of the task's schedule.
pub struct TickAnswers {
    pub millisecond: Seq<Option<i64>>,
    pub second: Seq<Option<i64>>,
    pub minute: Seq<Option<i64>>,
    pub hour: Seq<Option<i64>>,
}

impl TickAnswers {
    /// Whether each answer names a whole second, if it names an instant: what
    /// a schedule can answer.
    pub open spec fn on_the_second(self) -> bool {
        &&& all_on_the_second(self.millisecond)
        &&& all_on_the_second(self.second)
        &&& all_on_the_second(self.minute)
        &&& all_on_the_second(self.hour)
    }
}

/// What a harvest works on: the wheel, the tasks' state, and the firings
/// handed out so far, oldest first.
#[verifier::ext_equal]
pub struct Harvest {
    pub wheel: TierView,
    pub manager: ManagerView,
    pub fired: Seq<Dispatch>,
}

impl Harvest {
    pub open spec fn wf(self) -> bool {
        self.wheel.wf() && self.manager.wf()
    }

    /// The harvest of one task taken out of a bucket at `now`, where `next`
    /// is what the task's schedule gave as its next instant.
    ///
    /// A destroyed task is dropped, and so is one whose state is gone. A
    /// paused task does not fire: it moves on to the next instant of its
    /// schedule, and is dropped if there is none. A running task that is not
    /// due yet goes back into the wheel by what is left of its delay. A
    /// running task that is due fires once and has the firing counted; if
    /// another firing follows it moves on to the next instant of its
    /// schedule, and otherwise, or if there is no such instant, it is dropped.
    pub open spec fn take(self, task: Task, now: int, next: Option<i64>) -> Harvest {
        let id = task.task_id;
        match task.task_status {
            TaskStatus::Destory => self,
            TaskStatus::Pause => match (self.manager.actor(id), next) {
                (Some(_), Some(instant)) => Harvest {
                    wheel: self.wheel.placed(task, delay_until(instant as int, now)),
                    manager: self.manager.retargeted(id, instant),
                    ..self
                },
                _ => self,
            },
            TaskStatus::Running => match self.manager.actor(id) {
                None => self,
                Some(actor) => if is_due(actor.target as int, now) {
                    let fired = self.fired.push(
                        Dispatch { task_id: id, task_order_type: task.task_order_type },
                    );
                    let counted = self.manager.ticked(id);
                    match next {
                        Some(instant) => if actor.repeat.fires_again() {
                            Harvest {
                                wheel: self.wheel.placed(task, delay_until(instant as int, now)),
                                manager: counted.retargeted(id, instant),
                                fired,
                            }
                        } else {
                            Harvest { manager: counted, fired, ..self }
                        },
                        None => Harvest { manager: counted, fired, ..self },
                    }
                } else {
                    Harvest {
                        wheel: self.wheel.placed(task, delay_until(actor.target as int, now)),
                        ..self
                    }
                },
            },
        }
    }

    /// The turn of one ring: if its countdown has run out, the countdown
    /// starts again, the pointer moves on, and the bucket that was under the
    /// pointer is harvested.
    pub open spec fn turn(self, tier: Tier, now: int, nexts: Seq<Option<i64>>) -> Harvest {
        let wheel = self.wheel.wheel(tier);
        if wheel.interval == 0 {
            (Harvest {
                wheel: self.wheel.with_wheel(tier, wheel.rewound().advanced()),
                ..self
            }).take_all(wheel.due(), now, nexts)
        } else {
            self
        }
    }

    /// One tick: `delta` milliseconds pass on every ring, then the rings have
    /// their turn, finest first.
    pub open spec fn tick(self, delta: int, now: int, answers: TickAnswers) -> Harvest {
        (Harvest { wheel: self.wheel.tick(delta), ..self }).turn(
            Tier::Millisecond,
            now,
            answers.millisecond,
        ).turn(Tier::Second, now, answers.second).turn(Tier::Minute, now, answers.minute).turn(
            Tier::Hour,
            now,
            answers.hour,
        )
    }

    /// Whether one tick may end in the harvest `after`, where the schedules
    /// gave the `answers`, each a whole second if it names an instant.
    pub open spec fn ticks_into(
        self,
        after: Harvest,
        delta: int,
        now: int,
        answers: TickAnswers,
    ) -> bool {
        answers.on_the_second() && after == self.tick(delta, now, answers)
    }

    /// The harvest of a whole bucket, taken from its last task to its first.
    /// `nexts` holds, for each task of the bucket, what its schedule gave as
    /// its next instant.
    pub open spec fn take_all(self, tasks: Seq<Task>, now: int, nexts: Seq<Option<i64>>) -> Harvest
        decreases tasks.len(),
    {
        if tasks.len() == 0 {
            self
        } else {
            self.take(tasks.last(), now, nexts[tasks.len() - 1]).take_all(
                tasks.drop_last(),
                now,
                nexts,
            )
        }
    }
}

/// Four cascaded rings of 100 ms, 1 s, 1 min and 1 h slot width.
pub struct TierTimeWheel {
    millisecond_time_wheel: TimeWheel,
    second_time_wheel: TimeWheel,
    minute_time_wheel: TimeWheel,
    hour_time_wheel: TimeWheel,
}

impl View for TierTimeWheel {
    type V = TierView;

    closed spec fn view(&self) -> TierView {
        TierView {
            millisecond: self.millisecond_time_wheel@,
            second: self.second_time_wheel@,
            minute: self.minute_time_wheel@,
            hour: self.hour_time_wheel@,
        }
    }
}

impl TierTimeWheel {
    pub open spec fn wf(&self) -> bool {
        self@.wf()
    }

    /// Four empty rings, each with its pointer on the first bucket and a full
    /// countdown.
    pub fn new() -> (wheel: TierTimeWheel)
        ensures
            wheel.wf(),
            wheel@.millisecond == empty_wheel(10, 100),
            wheel@.second == empty_wheel(60, 1000),
            wheel@.minute == empty_wheel(60, 60000),
            wheel@.hour == empty_wheel(24, 3600000),
    {
        let wheel = TierTimeWheel {
            millisecond_time_wheel: TimeWheel::new(
                DEFAULT_MILLISECOND_TIME_WHEEL_SETTING.0,
                DEFAULT_MILLISECOND_TIME_WHEEL_SETTING.1,
            ),
            second_time_wheel: TimeWheel::new(
                DEFAULT_SECOND_TIME_WHEEL_SETTING.0,
                DEFAULT_SECOND_TIME_WHEEL_SETTING.1,
            ),
            minute_time_wheel: TimeWheel::new(
                DEFAULT_MINUTE_TIME_WHEEL_SETTING.0,
                DEFAULT_MINUTE_TIME_WHEEL_SETTING.1,
            ),
            hour_time_wheel: TimeWheel::new(
                DEFAULT_HOUR_TIME_WHEEL_SETTING.0,
                DEFAULT_HOUR_TIME_WHEEL_SETTING.1,
            ),
        };
        wheel
    }

    /// Puts `task`, due in `milliseconds`, into the bucket that its delay
    /// selects.
    #[allow(non_snake_case)]
    pub fn push_T_to_time_wheel(&mut self, task: Task, milliseconds: i64)
        requires
            old(self).wf(),
        ensures
            final(self).wf(),
            final(self)@ == old(self)@.placed(task, milliseconds as int),
    {
        if milliseconds > 1000 {
            let seconds: u64 = (milliseconds / 1000) as u64;
            if milliseconds > 3600000 {
                self.push_T_to_hour_time_wheel(task, seconds);
            } else if milliseconds > 60000 {
                self.push_T_to_minute_time_wheel(task, seconds);
            } else {
                self.push_T_to_second_time_wheel(task, seconds);
            }
        } else if milliseconds <= 0 {
            self.push_T_to_millisecond_time_wheel(task, 0);
        } else {
            self.push_T_to_millisecond_time_wheel(task, milliseconds as u64);
        }
    }

    /// Lets `notices`, oldest first, reach every task in the wheel: each task
    /// takes the status of the last notice that names it.
    pub fn apply_notices(&mut self, notices: &Vec<(usize, TaskStatus)>)
        requires
            old(self).wf(),
        ensures
            final(self).wf(),
            final(self)@ == old(self)@.noticed(notices@),
    {
        if notices.len() > 0 {
            self.millisecond_time_wheel.apply_notices(notices);
            self.second_time_wheel.apply_notices(notices);
            self.minute_time_wheel.apply_notices(notices);
            self.hour_time_wheel.apply_notices(notices);
        } else {
            proof {
                lemma_no_notice(self@.millisecond, notices@);
                lemma_no_notice(self@.second, notices@);
                lemma_no_notice(self@.minute, notices@);
                lemma_no_notice(self@.hour, notices@);
            }
        }
    }

    /// The ring of `tier`.
    pub fn wheel(&self, tier: Tier) -> (ring: &TimeWheel)
        ensures
            ring@ == self@.wheel(tier),
    {
        match tier {
            Tier::Millisecond => &self.millisecond_time_wheel,
            Tier::Second => &self.second_time_wheel,
            Tier::Minute => &self.minute_time_wheel,
            Tier::Hour => &self.hour_time_wheel,
        }
    }

    /// Lets `delta` milliseconds pass on every ring.
    pub fn advance(&mut self, delta: u64)
        requires
            old(self).wf(),
        ensures
            final(self).wf(),
            final(self)@ == old(self)@.tick(delta as int),
    {
        self.millisecond_time_wheel.tick(delta);
        self.second_time_wheel.tick(delta);
        self.minute_time_wheel.tick(delta);
        self.hour_time_wheel.tick(delta);
    }

    /// Takes the bucket under the pointer of the ring of `tier`, if the
    /// countdown of that ring has run out.
    pub fn harvest_due(&mut self, tier: Tier) -> (due: Option<Vec<Task>>)
        requires
            old(self).wf(),
        ensures
            final(self).wf(),
            match due {
                Some(tasks) => {
                    &&& old(self)@.wheel(tier).interval == 0
                    &&& tasks@ == old(self)@.wheel(tier).due()
                    &&& final(self)@ == old(self)@.with_wheel(
                        tier,
                        old(self)@.wheel(tier).rewound().advanced(),
                    )
                },
                None => old(self)@.wheel(tier).interval != 0 && final(self)@ == old(self)@,
            },
    {
        match tier {
            Tier::Millisecond => if self.millisecond_time_wheel.interval_finished() {
                Some(self.millisecond_time_wheel.check())
            } else {
                None
            },
            Tier::Second => if self.second_time_wheel.interval_finished() {
                Some(self.second_time_wheel.check())
            } else {
                None
            },
            Tier::Minute => if self.minute_time_wheel.interval_finished() {
                Some(self.minute_time_wheel.check())
            } else {
                None
            },
            Tier::Hour => if self.hour_time_wheel.interval_finished() {
                Some(self.hour_time_wheel.check())
            } else {
                None
            },
        }
    }

    /// The turn of the ring of `tier`: harvests its bucket if its countdown
    /// has run out, asking the schedule of each harvested task for its next
    /// instant. Gives what the schedules answered.
    fn turn(
        &mut self,
        tier: Tier,
        return_result: &mut Vec<Dispatch>,
        manager: &mut TaskManager,
        now: i64,
    ) -> (answers: Ghost<Seq<Option<i64>>>)
        requires
            old(self).wf(),
            old(manager).wf(),
        ensures
            final(self).wf(),
            final(manager).wf(),
            all_on_the_second(answers@),
            (Harvest { wheel: final(self)@, manager: final(manager)@, fired: final(return_result)@ })
                == (Harvest {
                wheel: old(self)@,
                manager: old(manager)@,
                fired: old(return_result)@,
            }).turn(tier, now as int, answers@),
    {
        match self.harvest_due(tier) {
            Some(tasks) => {
                let nexts = manager.get_next_datetimes(&tasks);
                self.check_time_wheel_result(tasks, &nexts, return_result, manager, now);
                Ghost(nexts@)
            },
            None => Ghost(Seq::empty()),
        }
    }

    /// One tick of the wheel at `now`, `delta` milliseconds after the last:
    /// the countdown of every ring falls by `delta`, then each ring whose
    /// countdown has run out is harvested, finest first. Gives the firings in
    /// the order in which they were decided.
    ///
    /// All of this is fixed but the instants that the schedules name when
    /// they are asked: those are the `answers`, of which it is known that
    /// each names a whole second, if it names an instant.
    pub fn tick(&mut self, delta: u64, manager: &mut TaskManager, now: i64) -> (fired: Vec<Dispatch>)
        requires
            old(self).wf(),
            old(manager).wf(),
        ensures
            final(self).wf(),
            final(manager).wf(),
            exists|answers: TickAnswers|
                (Harvest {
                    wheel: old(self)@,
                    manager: old(manager)@,
                    fired: Seq::empty(),
                }).ticks_into(
                    Harvest { wheel: final(self)@, manager: final(manager)@, fired: fired@ },
                    delta as int,
                    now as int,
                    answers,
                ),
    {
        self.advance(delta);
        let mut return_result: Vec<Dispatch> = Vec::new();
        let millisecond = self.turn(Tier::Millisecond, &mut return_result, manager, now);
        let second = self.turn(Tier::Second, &mut return_result, manager, now);
        let minute = self.turn(Tier::Minute, &mut return_result, manager, now);
        let hour = self.turn(Tier::Hour, &mut return_result, manager, now);
        let ghost answers = TickAnswers {
            millisecond: millisecond@,
            second: second@,
            minute: minute@,
            hour: hour@,
        };
        assert((Harvest {
            wheel: old(self)@,
            manager: old(manager)@,
            fired: Seq::empty(),
        }).ticks_into(
            Harvest { wheel: self@, manager: manager@, fired: return_result@ },
            delta as int,
            now as int,
            answers,
        ));
        return_result
    }

    /// Harvests one task taken out of a bucket at `now`. `next` is what the
    /// task's schedule gave as its next instant. A firing is appended to
    /// `return_result`.
    pub fn harvest_task(
        &mut self,
        task: Task,
        next: Option<i64>,
        return_result: &mut Vec<Dispatch>,
        manager: &mut TaskManager,
        now: i64,
    )
        requires
            old(self).wf(),
            old(manager).wf(),
        ensures
            final(self).wf(),
            final(manager).wf(),
            (Harvest { wheel: final(self)@, manager: final(manager)@, fired: final(return_result)@ })
                == (Harvest { wheel: old(self)@, manager: old(manager)@, fired: old(return_result)@ }).take(
                task,
                now as int,
                next,
            ),
    {
        let id: usize = task.task_id;
        match task.task_status {
            TaskStatus::Destory => {},
            TaskStatus::Pause => {
                if manager.knows(id) {
                    if let Some(instant) = next {
                        manager.set_target_date_time(id, instant);
                        self.push_T_to_time_wheel(task, delay(instant, now));
                    }
                }
            },
            TaskStatus::Running => {
                if let Some(target) = manager.get_target_date_time(id) {
                    let milliseconds: i64 = delay(target, now);
                    if milliseconds <= DUE_SLACK {
                        return_result.push(
                            Dispatch { task_id: id, task_order_type: task.task_order_type },
                        );
                        if let Some(again) = manager.tick_repeat_model(id) {
                            if again {
                                if let Some(instant) = next {
                                    manager.set_target_date_time(id, instant);
                                    self.push_T_to_time_wheel(task, delay(instant, now));
                                }
                            }
                        }
                    } else {
                        self.push_T_to_time_wheel(task, milliseconds);
                    }
                }
            },
        }
    }

    /// Harvests the tasks taken out of one bucket at `now`, from the last to
    /// the first. `nexts` holds, for each of them, what its schedule gave as
    /// its next instant. The firings are appended to `return_result`.
    pub fn check_time_wheel_result(
        &mut self,
        time_wheel_result: Vec<Task>,
        nexts: &Vec<Option<i64>>,
        return_result: &mut Vec<Dispatch>,
        manager: &mut TaskManager,
        now: i64,
    )
        requires
            old(self).wf(),
            old(manager).wf(),
            nexts@.len() == time_wheel_result@.len(),
        ensures
            final(self).wf(),
            final(manager).wf(),
            (Harvest { wheel: final(self)@, manager: final(manager)@, fired: final(return_result)@ })
                == (Harvest {
                wheel: old(self)@,
                manager: old(manager)@,
                fired: old(return_result)@,
            }).take_all(time_wheel_result@, now as int, nexts@),
    {
        let mut tasks = time_wheel_result;
        let ghost start = Harvest {
            wheel: old(self)@,
            manager: old(manager)@,
            fired: old(return_result)@,
        };
        while tasks.len() > 0
            invariant
                self.wf(),
                manager.wf(),
                tasks@.len() <= nexts@.len(),
                (Harvest { wheel: self@, manager: manager@, fired: return_result@ }).take_all(
                    tasks@,
                    now as int,
                    nexts@,
                ) == start.take_all(time_wheel_result@, now as int, nexts@),
            decreases tasks@.len(),
        {
            if let Some(task) = tasks.pop() {
                let next = nexts[tasks.len()];
                self.harvest_task(task, next, return_result, manager, now);
            }
        }
    }

    #[allow(non_snake_case)]
    fn push_T_to_millisecond_time_wheel(&mut self, task: Task, milliseconds: u64)
        requires
            old(self).wf(),
            milliseconds <= 1000,
        ensures
            final(self).wf(),
            final(self)@ == old(self)@.with_wheel(
                Tier::Millisecond,
                old(self)@.millisecond.put(
                    (old(self)@.millisecond.pointer + milliseconds / 100) % 10,
                    task,
                ),
            ),
    {
        let offset: usize = (milliseconds / 100) as usize;
        let target_pointer: usize = (self.millisecond_time_wheel.pointer() + offset)
            % self.millisecond_time_wheel.slot_count();
        self.millisecond_time_wheel.push_at(target_pointer, task);
    }

    #[allow(non_snake_case)]
    fn push_T_to_second_time_wheel(&mut self, task: Task, seconds: u64)
        requires
            old(self).wf(),
            seconds <= 60,
        ensures
            final(self).wf(),
            final(self)@ == old(self)@.with_wheel(
                Tier::Second,
                old(self)@.second.put((old(self)@.second.pointer + seconds) % 60, task),
            ),
    {
        let offset: usize = seconds as usize;
        let target_pointer: usize = (self.second_time_wheel.pointer() + offset)
            % self.second_time_wheel.slot_count();
        self.second_time_wheel.push_at(target_pointer, task);
    }

    #[allow(non_snake_case)]
    fn push_T_to_minute_time_wheel(&mut self, task: Task, seconds: u64)
        requires
            old(self).wf(),
            seconds <= 3600,
        ensures
            final(self).wf(),
            final(self)@ == old(self)@.with_wheel(
                Tier::Minute,
                old(self)@.minute.put((old(self)@.minute.pointer + seconds / 60) % 60, task),
            ),
    {
        let offset: usize = (seconds / 60) as usize;
        let target_pointer: usize = (self.minute_time_wheel.pointer() + offset)
            % self.minute_time_wheel.slot_count();
        self.minute_time_wheel.push_at(target_pointer, task);
    }

    #[allow(non_snake_case)]
    fn push_T_to_hour_time_wheel(&mut self, task: Task, seconds: u64)
        requires
            old(self).wf(),
        ensures
            final(self).wf(),
            final(self)@ == old(self)@.with_wheel(
                Tier::Hour,
                old(self)@.hour.put(
                    (old(self)@.hour.pointer + if seconds / 3600 >= 23 {
                        23
                    } else {
                        seconds as int / 3600
                    }) % 24,
                    task,
                ),
            ),
    {
        let hours: u64 = seconds / 3600;
        let last: usize = self.hour_time_wheel.slot_count() - 1;
        let offset: usize = if hours >= last as u64 {
            last
        } else {
            hours as usize
        };
        let target_pointer: usize = (self.hour_time_wheel.pointer() + offset)
            % self.hour_time_wheel.slot_count();
        self.hour_time_wheel.push_at(target_pointer, task);
    }
}

/// A ring of `slot_len` empty buckets, `interval` milliseconds wide, with its
/// pointer on the first bucket and a full countdown.
pub open spec fn empty_wheel(slot_len: nat, interval: int) -> WheelView {
    WheelView {
        slots: Seq::new(slot_len, |i: int| Seq::<Task>::empty()),
        pointer: 0,
        interval,
        interval_setting: interval,
    }
}

} // verus!
