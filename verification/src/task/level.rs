use vstd::prelude::*;

verus! {

/// The logic level of a digital pin.
#[derive(Debug, PartialEq, Eq, Structural, Clone, Copy, Hash)]
pub enum Level {
    Low,
    High,
}

} // verus!
