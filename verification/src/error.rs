use vstd::prelude::*;

verus! {

/// Why a pin was not lent to a task.
#[derive(Debug, PartialEq, Eq, Structural, Clone, Copy)]
pub enum ResourceError {
    /// The task never declared the pin.
    NotDeclared(i32),
    /// The task declared the pin, but the pool holds no pin of that number.
    NotFound(i32),
}

/// Why the pin pool could not be set up.
#[derive(Debug, PartialEq, Eq, Structural, Clone, Copy)]
pub enum BootstrapError {
    /// The platform's peripherals had been claimed before.
    AlreadyClaimed,
}

/// Every failure that ends the scheduler's loop.
#[derive(Debug, PartialEq, Eq, Structural, Clone, Copy)]
pub enum SchedulerError {
    /// A step asked for a pin that its task may not have.
    Resource(ResourceError),
    /// The pin pool could not be set up.
    Bootstrap(BootstrapError),
    /// The pin driver failed while carrying out a command; holds its error code.
    HardwareConfig(i32),
    /// A task had no step at its program counter.
    ProgramCounterOutOfBounds,
}

impl SchedulerError {
    /// What the loop makes of the pin driver's answer to a command: success
    /// lets it go on, an error code ends it.
    pub fn from_driver(outcome: Result<(), i32>) -> (r: Result<(), SchedulerError>)
        ensures
            outcome is Ok ==> r is Ok,
            outcome matches Err(code) ==> r == Err::<(), SchedulerError>(
                SchedulerError::HardwareConfig(code),
            ),
    {
        match outcome {
            Ok(()) => Ok(()),
            Err(code) => Err(SchedulerError::HardwareConfig(code)),
        }
    }
}

} // verus!
