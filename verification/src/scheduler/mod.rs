//! The scheduler: its queues, and the cycle that moves tasks between them.
pub mod laws;
pub mod queue;
pub mod scheduler;

pub use scheduler::{Dispatch, SchedulerView, TaskScheduler};
