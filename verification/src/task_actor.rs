//! The state of one task and the commands that change it.
use crate::calendar::{on_the_second, CronSchedule};
use crate::task::RepeatModel;
use vstd::prelude::*;

verus! {

/// What an actor holds: the expression of its schedule, its repeat state and
/// the instant at which its task is to fire next.
pub struct ActorView {
    pub schedule: Seq<char>,
    pub repeat: RepeatModel,
    pub target: i64,
}

impl ActorView {
    /// The state after one firing has been counted.
    pub open spec fn ticked(self) -> ActorView {
        ActorView { repeat: self.repeat.ticked(), ..self }
    }

    /// The state with a new firing instant.
    pub open spec fn retargeted(self, target: i64) -> ActorView {
        ActorView { target, ..self }
    }

    /// Whether `after` is the state once the schedule has been replaced by
    /// the one parsed from `schedule`, whose answer was `next`: an answer
    /// that a schedule can give names a whole second.
    pub open spec fn retunes(self, after: ActorView, schedule: Seq<char>, next: Option<i64>) -> bool {
        on_the_second(next) && after == self.retuned(schedule, next)
    }

    /// The state after the schedule has been replaced by the one parsed from
    /// `schedule`, whose next instant is `next`: the firing instant follows
    /// the new schedule where it names an instant, and stays where it names
    /// none.
    pub open spec fn retuned(self, schedule: Seq<char>, next: Option<i64>) -> ActorView {
        ActorView {
            schedule,
            target: match next {
                Some(instant) => instant,
                None => self.target,
            },
            ..self
        }
    }
}

/// A command to an actor.
pub enum TaskSignal {
    /// Hand out the handler.
    GetHandle,
    /// Run the handler once.
    RunHandle,
    /// Ask the schedule for its next instant.
    GetNextDatetime,
    /// Count one firing and say whether another follows.
    TickRepeatModel,
    /// Set the firing instant.
    SetTargetDateTime(i64),
    /// Read the firing instant.
    GetTargetDateTime,
    /// End the actor.
    Destory,
    /// Park the actor.
    Pause,
    /// Replace the schedule.
    UpdateCron(CronSchedule),
}

/// What an actor answers to a command, or asks of whoever hosts it.
pub enum SignalReply {
    /// The host hands out the task's handler.
    Handle,
    /// The host runs the task's handler to its end before it delivers the
    /// next command.
    Run,
    /// The next instant of the schedule, if it has one.
    NextDatetime(Option<i64>),
    /// Whether another firing follows.
    Repeat(bool),
    /// The firing instant.
    Target(i64),
    /// The state was changed; there is nothing to answer.
    Done,
    /// The actor has ended.
    Stopped,
    /// The actor has ended and its state is to be kept.
    Parked,
}

/// Whether an actor in state `before` that is sent `signal` may answer
/// `reply` and be in state `after`. All is fixed but what the schedule
/// answers when it is asked for its next instant.
pub open spec fn answers(
    before: ActorView,
    signal: TaskSignal,
    reply: SignalReply,
    after: ActorView,
) -> bool {
    match signal {
        TaskSignal::GetHandle => reply == SignalReply::Handle && after == before,
        TaskSignal::RunHandle => reply == SignalReply::Run && after == before,
        TaskSignal::GetNextDatetime => {
            &&& reply matches SignalReply::NextDatetime(next)
            &&& on_the_second(next)
            &&& after == before
        },
        TaskSignal::TickRepeatModel => {
            &&& reply == SignalReply::Repeat(before.repeat.fires_again())
            &&& after == before.ticked()
        },
        TaskSignal::SetTargetDateTime(target) => {
            &&& reply == SignalReply::Done
            &&& after == before.retargeted(target)
        },
        TaskSignal::GetTargetDateTime => {
            &&& reply == SignalReply::Target(before.target)
            &&& after == before
        },
        TaskSignal::Destory => reply == SignalReply::Stopped && after == before,
        TaskSignal::Pause => reply == SignalReply::Parked && after == before,
        TaskSignal::UpdateCron(schedule) => {
            &&& reply == SignalReply::Done
            &&& exists|next: Option<i64>| #[trigger] before.retunes(after, schedule@, next)
        },
    }
}

/// The mutable state of one task.
pub struct TaskActor {
    cron_schedule: CronSchedule,
    repeat_model: RepeatModel,
    target_datetime: i64,
}

impl View for TaskActor {
    type V = ActorView;

    closed spec fn view(&self) -> ActorView {
        ActorView {
            schedule: self.cron_schedule@,
            repeat: self.repeat_model,
            target: self.target_datetime,
        }
    }
}

impl TaskActor {
    pub fn new(cron_schedule: CronSchedule, repeat_model: RepeatModel, target_datetime: i64) -> (actor:
        TaskActor)
        ensures
            actor@ == (ActorView {
                schedule: cron_schedule@,
                repeat: repeat_model,
                target: target_datetime,
            }),
    {
        TaskActor { cron_schedule, repeat_model, target_datetime }
    }

    /// The next instant of the schedule after the present moment, if the
    /// schedule has one: a whole second, whatever the clock reads.
    pub fn get_next_datetime(&self) -> (next: Option<i64>)
        ensures
            on_the_second(next),
    {
        self.cron_schedule.upcoming()
    }

    /// Counts one firing and says whether another follows.
    pub fn tick_repeat_model(&mut self) -> (again: bool)
        ensures
            again == old(self)@.repeat.fires_again(),
            final(self)@ == old(self)@.ticked(),
    {
        let (left, again) = self.repeat_model.tick();
        self.repeat_model = left;
        again
    }

    pub fn set_target_date_time(&mut self, target_datetime: i64)
        ensures
            final(self)@ == old(self)@.retargeted(target_datetime),
    {
        self.target_datetime = target_datetime;
    }

    pub fn get_target_date_time(&self) -> (target: i64)
        ensures
            target == self@.target,
    {
        self.target_datetime
    }

    pub fn get_repeat_model(&self) -> (repeat: RepeatModel)
        ensures
            repeat == self@.repeat,
    {
        self.repeat_model
    }

    /// Replaces the schedule by `schedule`, whose next instant is `next`.
    pub fn retune(&mut self, schedule: CronSchedule, next: Option<i64>)
        ensures
            final(self)@ == old(self)@.retuned(schedule@, next),
    {
        self.cron_schedule = schedule;
        if let Some(instant) = next {
            self.target_datetime = instant;
        }
    }

    /// Handles one command: the body of the actor's message loop. The loop
    /// goes on after every reply but `Stopped` and `Parked`.
    pub fn handle_signal(&mut self, signal: TaskSignal) -> (reply: SignalReply)
        ensures
            answers(old(self)@, signal, reply, final(self)@),
    {
        match signal {
            TaskSignal::GetHandle => SignalReply::Handle,
            TaskSignal::RunHandle => SignalReply::Run,
            TaskSignal::GetNextDatetime => SignalReply::NextDatetime(self.get_next_datetime()),
            TaskSignal::TickRepeatModel => SignalReply::Repeat(self.tick_repeat_model()),
            TaskSignal::SetTargetDateTime(target) => {
                self.set_target_date_time(target);
                SignalReply::Done
            },
            TaskSignal::GetTargetDateTime => SignalReply::Target(self.get_target_date_time()),
            TaskSignal::Destory => SignalReply::Stopped,
            TaskSignal::Pause => SignalReply::Parked,
            TaskSignal::UpdateCron(schedule) => {
                let next = schedule.upcoming();
                let ghost text = schedule@;
                self.retune(schedule, next);
                assert(old(self)@.retunes(self@, text, next));
                SignalReply::Done
            },
        }
    }
}

} // verus!
