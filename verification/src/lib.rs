//! A cooperative, non-preemptive task scheduler for a single-core controller.
//!
//! A task is a small program of atomic steps on hardware pins. The scheduler
//! keeps one queue per task status, admits tasks into a bounded ready queue by
//! priority, runs one step of the highest-priority ready task per cycle and
//! blocks tasks that yield until their waiting time has passed. A resource
//! manager lends a pin only to a task that declared it.
//!
//! The library decides and never touches hardware or the clock: a cycle takes
//! the current clock reading and answers with the pin command to carry out.
pub mod error;
pub mod resource;
pub mod scheduler;
pub mod task;

pub use error::{BootstrapError, ResourceError, SchedulerError};
pub use resource::{Request, ResourceManager, TaskResource};
pub use scheduler::{Dispatch, SchedulerView, TaskScheduler};
pub use task::{
    ContextView, Level, PinCommand, Shot, StepOutcome, Task, TaskBuilder, TaskContext,
    TaskContextBuilder, TaskPriority, TaskStatus, TaskStep, TaskView,
};
