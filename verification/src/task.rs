//! The record that travels through the time wheels.
use vstd::prelude::*;

verus! {

/// How often a task fires.
#[derive(Clone, Copy, Debug, PartialEq, Eq, Structural)]
pub enum RepeatModel {
    /// Fire once.
    Once,
    /// Fire at every instant of the schedule.
    Repetition,
    /// Fire this many more times.
    Times(usize),
}

impl RepeatModel {
    /// Whether the task fires again after the firing that is being counted.
    pub open spec fn fires_again(self) -> bool {
        match self {
            RepeatModel::Once => false,
            RepeatModel::Repetition => true,
            RepeatModel::Times(times) => times > 1,
        }
    }

    /// The repeat state after one firing has been counted. A count that has
    /// reached zero stays there.
    pub open spec fn ticked(self) -> RepeatModel {
        match self {
            RepeatModel::Once => RepeatModel::Once,
            RepeatModel::Repetition => RepeatModel::Repetition,
            RepeatModel::Times(times) => RepeatModel::Times(
                if times > 0 {
                    (times - 1) as usize
                } else {
                    0
                },
            ),
        }
    }

    /// The repeat state after `firings` firings have been counted.
    pub open spec fn ticked_times(self, firings: nat) -> RepeatModel
        decreases firings,
    {
        if firings == 0 {
            self
        } else {
            self.ticked().ticked_times((firings - 1) as nat)
        }
    }

    /// Counts one firing: gives the repeat state after it, and whether the
    /// task fires again.
    pub fn tick(self) -> (counted: (RepeatModel, bool))
        ensures
            counted.0 == self.ticked(),
            counted.1 == self.fires_again(),
    {
        match self {
            RepeatModel::Once => (RepeatModel::Once, false),
            RepeatModel::Repetition => (RepeatModel::Repetition, true),
            RepeatModel::Times(times) => {
                let left: usize = if times > 0 {
                    times - 1
                } else {
                    0
                };
                (RepeatModel::Times(left), left > 0)
            },
        }
    }
}

/// Whether successive firings of one task may overlap.
#[derive(Clone, Copy, Debug, PartialEq, Eq, Structural)]
pub enum TaskOrderType {
    /// At most one execution in flight.
    Order,
    /// Any number of executions in flight.
    Disorder,
}

/// The life cycle of a task as the dispatcher sees it.
#[derive(Clone, Copy, Debug, PartialEq, Eq, Structural)]
pub enum TaskStatus {
    /// Parked: kept in a wheel, never fired.
    Pause,
    /// Gone: dropped at the next harvest.
    Destory,
    /// Fired when due.
    Running,
}

/// A task as a wheel holds it.
#[derive(Clone, Copy, Debug, PartialEq, Eq, Structural)]
pub struct Task {
    pub task_order_type: TaskOrderType,
    pub task_status: TaskStatus,
    pub task_id: usize,
}

impl Task {
    /// A running task.
    pub fn new(task_order_type: TaskOrderType, task_id: usize) -> (task: Task)
        ensures
            task == (Task { task_order_type, task_status: TaskStatus::Running, task_id }),
    {
        Task { task_order_type, task_status: TaskStatus::Running, task_id }
    }

    pub fn is_running(&self) -> (running: bool)
        ensures
            running == (self.task_status == TaskStatus::Running),
    {
        match self.task_status {
            TaskStatus::Pause => false,
            TaskStatus::Destory => false,
            TaskStatus::Running => true,
        }
    }
}

} // verus!
