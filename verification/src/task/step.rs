use super::context::{ContextView, TaskContext};
use super::level::Level;
use crate::error::ResourceError;
use crate::resource::manager::{lend, ResourceManager};
use crate::resource::request::Request;
use crate::resource::resource::TaskResource;
use vstd::prelude::*;

verus! {

/// The smallest instruction of a task's program.
#[derive(Debug, PartialEq, Eq, Structural, Clone, Copy)]
pub enum TaskStep {
    /// Read the level of a pin.
    ReadGPIO(i32),
    /// Drive a pin to a level.
    WriteGPIO(i32, Level),
    /// Give the processor back for this many milliseconds.
    Yield(u32),
}

/// What the platform has to do to a pin of the pool, named by its place there.
#[derive(Debug, PartialEq, Eq, Structural, Clone, Copy)]
pub enum PinCommand {
    /// Configure the pin as an input, read its level and report it.
    Read(usize),
    /// Configure the pin as an output and set its level.
    Write(usize, Level),
}

/// What comes of a step whose pin, if it needs one, was lent.
#[derive(Debug, PartialEq, Eq, Structural, Clone, Copy)]
pub enum StepOutcome {
    /// The pin is lent for this command; it goes back when the command is done.
    Command(PinCommand),
    /// The task has to wait for this condition.
    Pending(Request),
}

impl TaskStep {
    /// What the step comes to for a task with the given context, on a pool of
    /// `pool` pins: a read or a write needs its pin lent and becomes a command
    /// on it, a yield becomes a pending condition of the same length.
    pub open spec fn outcome(self, context: ContextView, pool: nat) -> Result<
        StepOutcome,
        ResourceError,
    > {
        match self {
            TaskStep::ReadGPIO(number) => match lend(pool, context, TaskResource::Pin(number)) {
                Ok(pin) => Ok(StepOutcome::Command(PinCommand::Read(pin))),
                Err(e) => Err(e),
            },
            TaskStep::WriteGPIO(number, level) => match lend(
                pool,
                context,
                TaskResource::Pin(number),
            ) {
                Ok(pin) => Ok(StepOutcome::Command(PinCommand::Write(pin, level))),
                Err(e) => Err(e),
            },
            TaskStep::Yield(ms) => Ok(StepOutcome::Pending(Request::Yield(ms as usize))),
        }
    }

    /// Executes the step as far as the library can: asks the manager for the
    /// pin and says what is left to do. Nothing is changed.
    pub fn execute(&self, context: &TaskContext, manager: &ResourceManager) -> (r: Result<
        StepOutcome,
        ResourceError,
    >)
        ensures
            r == self.outcome(context@, manager.pool()),
    {
        match *self {
            TaskStep::ReadGPIO(number) => {
                let pin = manager.acquire(TaskResource::Pin(number), context)?;
                Ok(StepOutcome::Command(PinCommand::Read(pin)))
            },
            TaskStep::WriteGPIO(number, level) => {
                let pin = manager.acquire(TaskResource::Pin(number), context)?;
                Ok(StepOutcome::Command(PinCommand::Write(pin, level)))
            },
            TaskStep::Yield(ms) => Ok(StepOutcome::Pending(Request::Yield(ms as usize))),
        }
    }
}

} // verus!
