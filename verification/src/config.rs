//! The fixed settings of the scheduler.
use vstd::prelude::*;

verus! {

/// Slot count and slot width (ms) of the millisecond wheel.
pub const DEFAULT_MILLISECOND_TIME_WHEEL_SETTING: (usize, u64) = (10, 100);

/// Slot count and slot width (ms) of the second wheel.
pub const DEFAULT_SECOND_TIME_WHEEL_SETTING: (usize, u64) = (60, 1000);

/// Slot count and slot width (ms) of the minute wheel.
pub const DEFAULT_MINUTE_TIME_WHEEL_SETTING: (usize, u64) = (60, 60000);

/// Slot count and slot width (ms) of the hour wheel.
pub const DEFAULT_HOUR_TIME_WHEEL_SETTING: (usize, u64) = (24, 3600000);

/// Milliseconds between two turns of the reactor.
pub const DEFAULT_TICK_TIME: u64 = 25;

/// Number of workers that draw jobs from the run queues.
pub const DEFAULT_TASK_POOL_SIZE: usize = 12;

/// Capacity of the mailbox in front of each task.
pub const DEFAULT_CHANNEL_SIZE: usize = 8;

/// A task whose firing instant is at most this many milliseconds ahead is due.
pub const DUE_SLACK: i64 = 100;

} // verus!
