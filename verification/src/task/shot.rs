use vstd::prelude::*;

verus! {

/// How many more full passes through its steps a task may begin.
#[derive(Debug, PartialEq, Eq, Structural, PartialOrd, Ord, Clone, Copy, Hash)]
pub enum Shot {
    /// No bound: the task repeats for ever.
    Infinity,
    /// A bound on the passes that remain.
    Custom(usize),
}

impl Shot {
    /// The counter after one pass has been consumed: an unbounded counter and
    /// a bounded one at zero stay as they are.
    pub open spec fn decremented(self) -> Shot {
        match self {
            Shot::Infinity => Shot::Infinity,
            Shot::Custom(n) => if n == 0 {
                Shot::Custom(0)
            } else {
                Shot::Custom((n - 1) as usize)
            },
        }
    }

    /// A counter is exhausted exactly when it is bounded and reads zero.
    pub open spec fn exhausted(self) -> bool {
        self == Shot::Custom(0)
    }

    /// The counter for `n` passes, where zero asks for no bound.
    pub fn new(n: usize) -> (shot: Shot)
        ensures
            n == 0 ==> shot == Shot::Infinity,
            n > 0 ==> shot == Shot::Custom(n),
    {
        if n == 0 {
            Shot::Infinity
        } else {
            Shot::Custom(n)
        }
    }

    /// Consumes one pass.
    pub fn decrement(&mut self)
        ensures
            *final(self) == old(self).decremented(),
    {
        match *self {
            Shot::Infinity => {},
            Shot::Custom(n) => {
                if n > 0 {
                    *self = Shot::Custom(n - 1);
                }
            },
        }
    }

    /// Whether the counter is bounded and reads zero.
    pub fn is_exhausted(&self) -> (r: bool)
        ensures
            r == self.exhausted(),
    {
        match *self {
            Shot::Infinity => false,
            Shot::Custom(n) => n == 0,
        }
    }
}

} // verus!
