use vstd::prelude::*;

verus! {

/// One of the six states of a task's life, after the process control block of
/// classical operating-system design.
///
/// A task starts as `New`, is admitted to `Ready`, is `Running` while one of
/// its steps executes, and then is `Blocked`, `Ready` again or `Exited`.
/// `Suspended` is reserved for an explicit suspend operation from outside; no
/// transition of the scheduler enters it.
#[derive(Debug, PartialEq, Eq, Structural, PartialOrd, Ord, Clone, Copy, Hash)]
pub enum TaskStatus {
    /// Just created, not yet admitted.
    New,
    /// Waiting for its turn on the processor.
    Ready,
    /// Executing a step.
    Running,
    /// Waiting for a pending condition to be resolved.
    Blocked,
    /// Finished; terminal.
    Exited,
    /// Set aside from outside; never entered by the scheduler.
    Suspended,
}

} // verus!
