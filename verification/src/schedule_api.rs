//! The scheduler's public surface in one place.
pub use crate::error::SchedulerError;
pub use crate::scheduler::Scheduler;
pub use crate::task::RepeatModel;
