//! Tasks and the value types they are made of.
pub mod context;
pub mod laws;
pub mod level;
pub mod priority;
pub mod shot;
pub mod status;
pub mod step;
pub mod task;

pub use context::{ContextView, TaskContext, TaskContextBuilder};
pub use level::Level;
pub use priority::TaskPriority;
pub use shot::Shot;
pub use status::TaskStatus;
pub use step::{PinCommand, StepOutcome, TaskStep};
pub use task::{Task, TaskBuilder, TaskView};
