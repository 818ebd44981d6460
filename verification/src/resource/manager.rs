use super::resource::TaskResource;
use crate::error::{BootstrapError, ResourceError};
use crate::task::context::{ContextView, TaskContext};
use vstd::prelude::*;

verus! {

/// What a task with the given context gets when it asks for a resource of a
/// pool of `pool` pins, numbered from zero: the pin's place in the pool, if
/// the task has declared the pin and the pool holds it. A pin that was never
/// declared is refused as such, whether or not the pool holds it.
pub open spec fn lend(pool: nat, context: ContextView, resource: TaskResource) -> Result<
    usize,
    ResourceError,
> {
    match resource {
        TaskResource::Pin(number) => if !context.declares(number) {
            Err(ResourceError::NotDeclared(number))
        } else if number < 0 || number >= pool {
            Err(ResourceError::NotFound(number))
        } else {
            Ok(number as usize)
        },
    }
}

/// The one owner of the pool of hardware pins.
///
/// The pool is a table of pin handles indexed by pin number. The manager lends
/// a pin for the length of one step, and only to a task that declared it. It
/// keeps no record of which task holds which pin: two tasks never run at once,
/// so a declaration is all it checks.
#[derive(Debug, PartialEq, Eq)]
pub struct ResourceManager {
    pins: usize,
}

impl ResourceManager {
    /// The number of pins in the pool.
    pub closed spec fn pool(&self) -> nat {
        self.pins as nat
    }

    /// Sets up the pool from what the platform handed over when its
    /// peripherals were claimed: the number of pins, or nothing where they had
    /// been claimed before.
    pub fn new(enumeration: Option<usize>) -> (r: Result<Self, BootstrapError>)
        ensures
            enumeration is None ==> r == Err::<Self, BootstrapError>(BootstrapError::AlreadyClaimed),
            enumeration matches Some(count) ==> r is Ok && r->Ok_0.pool() == count,
    {
        match enumeration {
            Some(count) => Ok(Self { pins: count }),
            None => Err(BootstrapError::AlreadyClaimed),
        }
    }

    /// The number of pins in the pool.
    pub fn pin_count(&self) -> (count: usize)
        ensures
            count == self.pool(),
    {
        self.pins
    }

    /// Lends a resource to the task with the given context for one step, and
    /// answers with the pin's place in the pool.
    pub fn acquire(&self, resource: TaskResource, context: &TaskContext) -> (r: Result<
        usize,
        ResourceError,
    >)
        ensures
            r == lend(self.pool(), context@, resource),
    {
        match resource {
            TaskResource::Pin(number) => {
                if !context.declares(number) {
                    Err(ResourceError::NotDeclared(number))
                } else if number < 0 || number as usize >= self.pins {
                    Err(ResourceError::NotFound(number))
                } else {
                    Ok(number as usize)
                }
            },
        }
    }
}

/// A pin that the pool holds is lent exactly to the tasks that declared it,
/// and a pin that a task never declared is refused as not declared, whether
/// or not the pool holds it.
pub proof fn lemma_lent_iff_declared(pool: nat, context: ContextView, pin: i32)
    ensures
        0 <= pin < pool ==> (lend(pool, context, TaskResource::Pin(pin)) is Ok
            <==> context.declares(pin)),
        lend(pool, context, TaskResource::Pin(pin)) matches Ok(place) ==> place == pin,
        !context.declares(pin) ==> lend(pool, context, TaskResource::Pin(pin)) == Err::<
            usize,
            ResourceError,
        >(ResourceError::NotDeclared(pin)),
        context.declares(pin) && !(0 <= pin < pool) ==> lend(pool, context, TaskResource::Pin(pin))
            == Err::<usize, ResourceError>(ResourceError::NotFound(pin)),
{
}

} // verus!
