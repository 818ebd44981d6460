use vstd::prelude::*;

verus! {

/// A condition that must be resolved before a blocked task may run again.
#[derive(Debug, PartialEq, Eq, Structural, PartialOrd, Ord, Clone, Copy)]
pub enum Request {
    /// This many milliseconds must pass, counted from the moment the task was
    /// last dispatched.
    Yield(usize),
}

/// Milliseconds from `since` to `now` on a clock that never runs backwards:
/// zero where `now` lies before `since`.
pub open spec fn elapsed_between(since: u64, now: u64) -> nat {
    if now >= since {
        (now - since) as nat
    } else {
        0
    }
}

impl Request {
    /// Whether the condition is resolved once `elapsed` milliseconds have passed.
    pub open spec fn is_due(self, elapsed: nat) -> bool {
        match self {
            Request::Yield(ms) => elapsed >= ms,
        }
    }

    /// Whether the condition, stamped at `since`, is resolved at `now`.
    pub fn due(&self, since: u64, now: u64) -> (r: bool)
        ensures
            r == self.is_due(elapsed_between(since, now)),
    {
        let elapsed: u64 = if now >= since {
            now - since
        } else {
            0
        };
        match self {
            Request::Yield(ms) => elapsed >= *ms as u64,
        }
    }
}

} // verus!
