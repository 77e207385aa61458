//! An embeddable scheduler core: a tiered time wheel that buckets tasks by
//! their next firing instant, the per-task state that decides how often a task
//! fires, the control surface that pauses, resumes, retunes and destroys
//! tasks, and the work-stealing queues from which fired jobs are drawn.
//!
//! Every instant is a count of milliseconds since the Unix epoch, every delay
//! a count of milliseconds.
pub mod bucket;
pub mod calendar;
pub mod config;
pub mod core_reactor;
pub mod error;
pub mod fidelity;
pub mod laws;
pub mod once;
pub mod reactor;
pub mod records;
pub mod schedule_api;
pub mod scheduler;
pub mod suppression;
pub mod task;
pub mod task_actor;
pub mod task_manager;
pub mod task_reactor;
pub mod time_wheel;
