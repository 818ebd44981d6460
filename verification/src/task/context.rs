use super::level::Level;
use super::priority::TaskPriority;
use super::status::TaskStatus;
use crate::resource::request::{elapsed_between, Request};
use vstd::prelude::*;

verus! {

/// What a context holds, as plain mathematical values.
#[verifier::ext_equal]
pub struct ContextView {
    pub name: Seq<char>,
    pub id: u128,
    pub priority: TaskPriority,
    pub state: TaskStatus,
    pub program_counter: nat,
    pub pins_used: Seq<i32>,
    pub block_requests: Seq<Request>,
    pub last_run_timestamp: u64,
    pub last_pin_read_level_register: Level,
}

/// Whether a 128-bit identifier carries the marks of a random (version 4)
/// UUID: version digit 4 and the two variant bits `10`.
pub open spec fn is_random_uuid(id: u128) -> bool {
    id & 0xF000_C000_0000_0000_0000u128 == 0x4000_8000_0000_0000_0000u128
}

/// The conditions that are still pending once `elapsed` milliseconds have passed.
pub open spec fn still_pending(elapsed: nat) -> spec_fn(Request) -> bool {
    |request: Request| !request.is_due(elapsed)
}

impl ContextView {
    /// Whether the task has declared the pin as its own.
    pub open spec fn declares(self, pin: i32) -> bool {
        self.pins_used.contains(pin)
    }

    /// The context once the clock reads `now`: every pending condition whose
    /// waiting time has passed since the last dispatch is gone, the others
    /// stay in their order.
    pub open spec fn resolved(self, now: u64) -> ContextView {
        ContextView {
            block_requests: self.block_requests.filter(
                still_pending(elapsed_between(self.last_run_timestamp, now)),
            ),
            ..self
        }
    }

    /// A task may leave the blocked queue once nothing is pending.
    pub open spec fn is_free(self) -> bool {
        self.block_requests.len() == 0
    }
}

/// The scheduling record of a task: who it is, how urgent it is, where it
/// stands in its life and in its program, which pins it has declared, what it
/// waits for and when it last ran.
#[derive(Debug, PartialEq, Eq, Clone)]
pub struct TaskContext {
    name: String,
    id: u128,
    priority: TaskPriority,
    state: TaskStatus,
    program_counter: usize,
    pins_used: Vec<i32>,
    block_requests: Vec<Request>,
    last_run_timestamp: u64,
    last_pin_read_level_register: Level,
}

impl View for TaskContext {
    type V = ContextView;

    closed spec fn view(&self) -> ContextView {
        ContextView {
            name: self.name@,
            id: self.id,
            priority: self.priority,
            state: self.state,
            program_counter: self.program_counter as nat,
            pins_used: self.pins_used@,
            block_requests: self.block_requests@,
            last_run_timestamp: self.last_run_timestamp,
            last_pin_read_level_register: self.last_pin_read_level_register,
        }
    }
}

/// Draws a fresh identifier with `uuid::Uuid::new_v4` and hands it out as the
/// number that `Uuid::as_u128` gives. The identifier is random; all that is
/// claimed of it is that it carries the version and variant marks that
/// `new_v4` sets on every identifier it makes. `new_v4` panics if the operating
/// system cannot supply random bytes.
#[verifier::external_body]
fn fresh_id() -> (id: u128)
    ensures
        is_random_uuid(id),
{
    uuid::Uuid::new_v4().as_u128()
}

impl Default for TaskContext {
    /// A nameless context of low priority with a fresh identifier.
    fn default() -> (context: Self)
        ensures
            is_random_uuid(context@.id),
            context@ == (ContextView {
                name: Seq::<char>::empty(),
                id: context@.id,
                priority: TaskPriority::Low,
                state: TaskStatus::New,
                program_counter: 0,
                pins_used: Seq::<i32>::empty(),
                block_requests: Seq::<Request>::empty(),
                last_run_timestamp: 0,
                last_pin_read_level_register: Level::Low,
            }),
    {
        Self::with_id(fresh_id(), String::new(), TaskPriority::Low)
    }
}

impl TaskContext {
    /// The context of a task that has just been created: a fresh identifier,
    /// status `New`, at the start of its program, no pin declared, nothing
    /// pending, never dispatched.
    pub fn new(name: String, priority: TaskPriority) -> (context: Self)
        ensures
            is_random_uuid(context@.id),
            context@ == (ContextView {
                name: name@,
                id: context@.id,
                priority: priority,
                state: TaskStatus::New,
                program_counter: 0,
                pins_used: Seq::<i32>::empty(),
                block_requests: Seq::<Request>::empty(),
                last_run_timestamp: 0,
                last_pin_read_level_register: Level::Low,
            }),
    {
        Self::with_id(fresh_id(), name, priority)
    }

    /// The context of a task that has just been created, under the given
    /// identifier: status `New`, at the start of its program, no pin
    /// declared, nothing pending, never dispatched.
    pub fn with_id(id: u128, name: String, priority: TaskPriority) -> (context: Self)
        ensures
            context@ == (ContextView {
                name: name@,
                id: id,
                priority: priority,
                state: TaskStatus::New,
                program_counter: 0,
                pins_used: Seq::<i32>::empty(),
                block_requests: Seq::<Request>::empty(),
                last_run_timestamp: 0,
                last_pin_read_level_register: Level::Low,
            }),
    {
        Self {
            name,
            id,
            priority,
            state: TaskStatus::New,
            program_counter: 0,
            pins_used: Vec::new(),
            block_requests: Vec::new(),
            last_run_timestamp: 0,
            last_pin_read_level_register: Level::Low,
        }
    }

    /// The display name of the task.
    pub fn name(&self) -> (r: &String)
        ensures
            r@ == self@.name,
    {
        &self.name
    }

    /// The identifier of the task.
    pub fn id(&self) -> (r: &u128)
        ensures
            *r == self@.id,
    {
        &self.id
    }

    /// The execution priority of the task.
    pub fn priority(&self) -> (r: &TaskPriority)
        ensures
            *r == self@.priority,
    {
        &self.priority
    }

    /// Sets the execution priority of the task.
    pub fn set_priority(&mut self, val: TaskPriority) -> (r: &mut Self)
        ensures
            r@ == (ContextView { priority: val, ..old(self)@ }),
            *final(self) == *final(r),
    {
        self.priority = val;
        self
    }

    /// The execution priority of the task, to be changed in place.
    pub fn priority_mut(&mut self) -> (r: &mut TaskPriority)
        ensures
            *r == old(self)@.priority,
            final(self)@ == (ContextView { priority: *final(r), ..old(self)@ }),
    {
        &mut self.priority
    }

    /// The state of the task.
    pub fn state(&self) -> (r: &TaskStatus)
        ensures
            *r == self@.state,
    {
        &self.state
    }

    /// Sets the state of the task.
    pub fn set_state(&mut self, val: TaskStatus) -> (r: &mut Self)
        ensures
            r@ == (ContextView { state: val, ..old(self)@ }),
            *final(self) == *final(r),
    {
        self.state = val;
        self
    }

    /// The state of the task, to be changed in place.
    pub fn state_mut(&mut self) -> (r: &mut TaskStatus)
        ensures
            *r == old(self)@.state,
            final(self)@ == (ContextView { state: *final(r), ..old(self)@ }),
    {
        &mut self.state
    }

    /// The index of the step that the task executes next.
    pub fn program_counter(&self) -> (r: &usize)
        ensures
            *r as nat == self@.program_counter,
    {
        &self.program_counter
    }

    /// Sets the index of the step that the task executes next.
    pub fn set_program_counter(&mut self, val: usize) -> (r: &mut Self)
        ensures
            r@ == (ContextView { program_counter: val as nat, ..old(self)@ }),
            *final(self) == *final(r),
    {
        self.program_counter = val;
        self
    }

    /// The index of the step that the task executes next, to be changed in place.
    pub fn program_counter_mut(&mut self) -> (r: &mut usize)
        ensures
            *r as nat == old(self)@.program_counter,
            final(self)@ == (ContextView { program_counter: *final(r) as nat, ..old(self)@ }),
    {
        &mut self.program_counter
    }

    /// The pins that the task has declared.
    pub fn pins_used(&self) -> (r: &Vec<i32>)
        ensures
            r@ == self@.pins_used,
    {
        &self.pins_used
    }

    /// Sets the pins that the task has declared.
    pub fn set_pins_used(&mut self, val: Vec<i32>) -> (r: &mut Self)
        ensures
            r@ == (ContextView { pins_used: val@, ..old(self)@ }),
            *final(self) == *final(r),
    {
        self.pins_used = val;
        self
    }

    /// The pins that the task has declared, to be changed in place.
    pub fn pins_used_mut(&mut self) -> (r: &mut Vec<i32>)
        ensures
            r@ == old(self)@.pins_used,
            final(self)@ == (ContextView { pins_used: final(r)@, ..old(self)@ }),
    {
        &mut self.pins_used
    }

    /// The conditions that the task waits for.
    pub fn block_requests(&self) -> (r: &Vec<Request>)
        ensures
            r@ == self@.block_requests,
    {
        &self.block_requests
    }

    /// Sets the conditions that the task waits for.
    pub fn set_block_requests(&mut self, val: Vec<Request>) -> (r: &mut Self)
        ensures
            r@ == (ContextView { block_requests: val@, ..old(self)@ }),
            *final(self) == *final(r),
    {
        self.block_requests = val;
        self
    }

    /// The conditions that the task waits for, to be changed in place.
    pub fn block_requests_mut(&mut self) -> (r: &mut Vec<Request>)
        ensures
            r@ == old(self)@.block_requests,
            final(self)@ == (ContextView { block_requests: final(r)@, ..old(self)@ }),
    {
        &mut self.block_requests
    }

    /// The clock reading, in milliseconds, at which the task was last dispatched.
    pub fn last_run_timestamp(&self) -> (r: &u64)
        ensures
            *r == self@.last_run_timestamp,
    {
        &self.last_run_timestamp
    }

    /// Sets the clock reading, in milliseconds, at which the task was last dispatched.
    pub fn set_last_run_timestamp(&mut self, val: u64) -> (r: &mut Self)
        ensures
            r@ == (ContextView { last_run_timestamp: val, ..old(self)@ }),
            *final(self) == *final(r),
    {
        self.last_run_timestamp = val;
        self
    }

    /// The clock reading, in milliseconds, at which the task was last dispatched, to be changed in place.
    pub fn last_run_timestamp_mut(&mut self) -> (r: &mut u64)
        ensures
            *r == old(self)@.last_run_timestamp,
            final(self)@ == (ContextView { last_run_timestamp: *final(r), ..old(self)@ }),
    {
        &mut self.last_run_timestamp
    }

    /// The level that was last read from a pin.
    pub fn last_pin_read_level_register(&self) -> (r: &Level)
        ensures
            *r == self@.last_pin_read_level_register,
    {
        &self.last_pin_read_level_register
    }

    /// Sets the level that was last read from a pin.
    pub fn set_last_pin_read_level_register(&mut self, val: Level) -> (r: &mut Self)
        ensures
            r@ == (ContextView { last_pin_read_level_register: val, ..old(self)@ }),
            *final(self) == *final(r),
    {
        self.last_pin_read_level_register = val;
        self
    }

    /// The level that was last read from a pin, to be changed in place.
    pub fn last_pin_read_level_register_mut(&mut self) -> (r: &mut Level)
        ensures
            *r == old(self)@.last_pin_read_level_register,
            final(self)@ == (ContextView { last_pin_read_level_register: *final(r), ..old(self)@ }),
    {
        &mut self.last_pin_read_level_register
    }

    /// Whether the task has declared the pin as its own.
    pub fn declares(&self, pin: i32) -> (r: bool)
        ensures
            r == self@.declares(pin),
    {
        let mut i: usize = 0;
        while i < self.pins_used.len()
            invariant
                i <= self.pins_used.len(),
                forall|j: int| 0 <= j < i ==> self.pins_used@[j] != pin,
            decreases self.pins_used.len() - i,
        {
            if self.pins_used[i] == pin {
                return true;
            }
            i += 1;
        }
        false
    }

    /// Declares a pin as the task's own.
    pub fn declare(&mut self, pin: i32)
        ensures
            final(self)@ == (ContextView {
                pins_used: old(self)@.pins_used.push(pin),
                ..old(self)@
            }),
    {
        self.pins_used.push(pin);
    }

    /// Adds a condition that the task has to wait for.
    pub fn block_on(&mut self, request: Request)
        ensures
            final(self)@ == (ContextView {
                block_requests: old(self)@.block_requests.push(request),
                ..old(self)@
            }),
    {
        self.block_requests.push(request);
    }

    /// Drops every pending condition that is resolved when the clock reads `now`.
    pub fn resolve(&mut self, now: u64)
        ensures
            final(self)@ == old(self)@.resolved(now),
    {
        let ghost pending = still_pending(elapsed_between(self.last_run_timestamp, now));
        let mut kept: Vec<Request> = Vec::new();
        let mut i: usize = 0;
        while i < self.block_requests.len()
            invariant
                i <= self.block_requests.len(),
                *self == *old(self),
                pending == still_pending(elapsed_between(self.last_run_timestamp, now)),
                kept@ == self.block_requests@.take(i as int).filter(pending),
            decreases self.block_requests.len() - i,
        {
            let request = self.block_requests[i];
            proof {
                let before = self.block_requests@.take(i as int);
                assert(self.block_requests@.take(i + 1) == before.push(request));
                before.lemma_filter_push(request, pending);
            }
            if !request.due(self.last_run_timestamp, now) {
                kept.push(request);
            }
            i += 1;
        }
        proof {
            assert(self.block_requests@.take(i as int) == self.block_requests@);
        }
        self.block_requests = kept;
    }

    /// Whether nothing is pending.
    pub fn is_free(&self) -> (r: bool)
        ensures
            r == self@.is_free(),
    {
        self.block_requests.len() == 0
    }
}

/// Puts a context together field by field. What is not set stays as in
/// [`TaskContext::default`].
#[derive(Debug)]
pub struct TaskContextBuilder {
    context: TaskContext,
}

impl View for TaskContextBuilder {
    type V = ContextView;

    closed spec fn view(&self) -> ContextView {
        self.context@
    }
}

impl TaskContext {
    /// Starts a context: nameless, of low priority, with a fresh identifier.
    pub fn builder() -> (builder: TaskContextBuilder)
        ensures
            is_random_uuid(builder@.id),
            builder@ == (ContextView {
                name: Seq::<char>::empty(),
                id: builder@.id,
                priority: TaskPriority::Low,
                state: TaskStatus::New,
                program_counter: 0,
                pins_used: Seq::<i32>::empty(),
                block_requests: Seq::<Request>::empty(),
                last_run_timestamp: 0,
                last_pin_read_level_register: Level::Low,
            }),
    {
        TaskContextBuilder { context: TaskContext::default() }
    }
}

impl TaskContextBuilder {
    /// Sets the display name.
    pub fn name(self, name: &str) -> (builder: Self)
        ensures
            builder@ == (ContextView { name: name@, ..self@ }),
    {
        let mut context = self.context;
        context.name = name.to_owned();
        Self { context }
    }

    /// Sets the priority.
    pub fn priority(self, priority: TaskPriority) -> (builder: Self)
        ensures
            builder@ == (ContextView { priority: priority, ..self@ }),
    {
        let mut context = self.context;
        context.priority = priority;
        Self { context }
    }

    /// The context that was put together.
    pub fn build(self) -> (context: TaskContext)
        ensures
            context@ == self@,
    {
        self.context
    }
}

} // verus!
