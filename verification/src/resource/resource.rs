use vstd::prelude::*;

verus! {

/// Something a task can own exclusively while one of its steps runs.
#[derive(Debug, PartialEq, Eq, Structural, Clone, Copy)]
pub enum TaskResource {
    /// A hardware pin, named by its number.
    Pin(i32),
}

} // verus!
