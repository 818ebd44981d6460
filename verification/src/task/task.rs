use super::context::{is_random_uuid, ContextView, TaskContext};
use super::level::Level;
use super::priority::TaskPriority;
use super::shot::Shot;
use super::status::TaskStatus;
use super::step::{PinCommand, StepOutcome, TaskStep};
use crate::error::SchedulerError;
use crate::resource::manager::ResourceManager;
use crate::resource::request::Request;
use crate::resource::resource::TaskResource;
use vstd::prelude::*;

verus! {

/// What a task holds, as plain mathematical values.
#[verifier::ext_equal]
pub struct TaskView {
    pub context: ContextView,
    pub steps: Seq<TaskStep>,
    pub shots: Shot,
}

impl TaskView {
    /// Whether the program counter has reached the end of the step list: a
    /// full pass has just been completed.
    pub open spec fn at_end(self) -> bool {
        self.context.program_counter >= self.steps.len()
    }

    /// The same task with another program counter.
    pub open spec fn at(self, program_counter: nat) -> TaskView {
        TaskView { context: ContextView { program_counter, ..self.context }, ..self }
    }

    /// The same task in another state.
    pub open spec fn in_state(self, state: TaskStatus) -> TaskView {
        TaskView { context: ContextView { state, ..self.context }, ..self }
    }

    /// The same task, dispatched when the clock reads `now`.
    pub open spec fn stamped(self, now: u64) -> TaskView {
        TaskView { context: ContextView { last_run_timestamp: now, ..self.context }, ..self }
    }

    /// The same task, waiting for one more condition.
    pub open spec fn blocked_on(self, request: Request) -> TaskView {
        TaskView {
            context: ContextView {
                block_requests: self.context.block_requests.push(request),
                ..self.context
            },
            ..self
        }
    }

    /// The task once the clock reads `now`: see [`ContextView::resolved`].
    pub open spec fn resolved(self, now: u64) -> TaskView {
        TaskView { context: self.context.resolved(now), ..self }
    }

    /// The task as it begins a step: at the end of a pass it goes back to the
    /// start of its program and one pass is consumed.
    pub open spec fn wrapped(self) -> TaskView {
        if self.at_end() {
            TaskView { shots: self.shots.decremented(), ..self.at(0) }
        } else {
            self
        }
    }

    /// What the step at the program counter comes to, on a pool of `pool` pins.
    pub open spec fn current_outcome(self, pool: nat) -> Result<StepOutcome, crate::error::ResourceError>
        recommends
            !self.at_end(),
    {
        self.steps[self.context.program_counter as int].outcome(self.context, pool)
    }

    /// The task after one step on a pool of `pool` pins.
    ///
    /// The task begins the step wrapped around. With no step at the program
    /// counter, which happens only where the program is empty, nothing more
    /// changes. Else the counter advances by one, also where the pin is then
    /// refused, and a condition that the step asks to wait for joins the
    /// pending ones.
    pub open spec fn stepped(self, pool: nat) -> TaskView {
        let begun = self.wrapped();
        if begun.at_end() {
            begun
        } else {
            let advanced = begun.at(begun.context.program_counter + 1);
            match begun.current_outcome(pool) {
                Ok(StepOutcome::Pending(request)) => advanced.blocked_on(request),
                _ => advanced,
            }
        }
    }

    /// What one step on a pool of `pool` pins answers: the command to carry
    /// out, if the step is one on a pin; the refusal of the pin; or that the
    /// task has no step at its program counter.
    pub open spec fn step_result(self, pool: nat) -> Result<Option<PinCommand>, SchedulerError> {
        let begun = self.wrapped();
        if begun.at_end() {
            Err(SchedulerError::ProgramCounterOutOfBounds)
        } else {
            match begun.current_outcome(pool) {
                Ok(StepOutcome::Command(command)) => Ok(Some(command)),
                Ok(StepOutcome::Pending(_)) => Ok(None),
                Err(e) => Err(SchedulerError::Resource(e)),
            }
        }
    }

    /// Where a task goes after a step: to `Blocked` while a condition is
    /// pending; else, at the end of a pass with its passes exhausted, to
    /// `Exited`; else back to `Ready`.
    pub open spec fn settled(self) -> TaskStatus {
        if !self.context.is_free() {
            TaskStatus::Blocked
        } else if self.at_end() && self.shots.exhausted() {
            TaskStatus::Exited
        } else {
            TaskStatus::Ready
        }
    }

    /// Whether every step from `from` up to `to` gets its pin, on a pool of
    /// `pool` pins.
    pub open spec fn all_granted(self, from: nat, to: nat, pool: nat) -> bool {
        forall|k: int| from <= k < to ==> (#[trigger] self.steps[k]).outcome(self.context, pool) is Ok
    }

    /// What the steps from `from` up to `to` come to, in their order.
    pub open spec fn outcomes(self, from: nat, to: nat, pool: nat) -> Seq<StepOutcome> {
        Seq::new(
            (to - from) as nat,
            |i: int| self.steps[from + i].outcome(self.context, pool)->Ok_0,
        )
    }
}

/// A unit of cooperative work: a program of steps, the scheduling record that
/// goes with it, and the number of passes it may still begin.
///
/// A task is created without resources. Each pin that its steps use has to be
/// declared with [`Task::assign`] before the step runs.
#[derive(Debug, PartialEq, Eq, Clone)]
pub struct Task {
    context: TaskContext,
    steps: Vec<TaskStep>,
    shots: Shot,
}

impl View for Task {
    type V = TaskView;

    closed spec fn view(&self) -> TaskView {
        TaskView { context: self.context@, steps: self.steps@, shots: self.shots }
    }
}

impl Task {
    /// A new task with the given name, priority, passes and program: status
    /// `New`, at the start of its program, no pin declared, a fresh identifier.
    pub fn new(name: &str, priority: TaskPriority, shots: Shot, steps: Vec<TaskStep>) -> (task:
        Self)
        ensures
            is_random_uuid(task@.context.id),
            task@ == (TaskView {
                context: ContextView {
                    name: name@,
                    id: task@.context.id,
                    priority: priority,
                    state: TaskStatus::New,
                    program_counter: 0,
                    pins_used: Seq::<i32>::empty(),
                    block_requests: Seq::<Request>::empty(),
                    last_run_timestamp: 0,
                    last_pin_read_level_register: Level::Low,
                },
                steps: steps@,
                shots: shots,
            }),
    {
        Self { context: TaskContext::new(name.to_owned(), priority), steps, shots }
    }

    /// The scheduling record of the task.
    pub fn context(&self) -> (r: &TaskContext)
        ensures
            r@ == self@.context,
    {
        &self.context
    }

    /// Replaces the scheduling record of the task.
    pub fn set_context(&mut self, val: TaskContext) -> (r: &mut Self)
        ensures
            r@ == (TaskView { context: val@, ..old(self)@ }),
            *final(self) == *final(r),
    {
        self.context = val;
        self
    }

    /// The scheduling record of the task, to be changed in place.
    pub fn context_mut(&mut self) -> (r: &mut TaskContext)
        ensures
            r@ == old(self)@.context,
            final(self)@ == (TaskView { context: final(r)@, ..old(self)@ }),
    {
        &mut self.context
    }

    /// The program of the task.
    pub fn steps(&self) -> (r: &Vec<TaskStep>)
        ensures
            r@ == self@.steps,
    {
        &self.steps
    }

    /// The number of passes that the task may still begin.
    pub fn shots(&self) -> (r: &Shot)
        ensures
            *r == self@.shots,
    {
        &self.shots
    }

    /// Sets the number of passes that the task may still begin.
    pub fn set_shots(&mut self, val: Shot) -> (r: &mut Self)
        ensures
            r@ == (TaskView { shots: val, ..old(self)@ }),
            *final(self) == *final(r),
    {
        self.shots = val;
        self
    }

    /// The number of passes that the task may still begin, to be changed in place.
    pub fn shots_mut(&mut self) -> (r: &mut Shot)
        ensures
            *r == old(self)@.shots,
            final(self)@ == (TaskView { shots: *final(r), ..old(self)@ }),
    {
        &mut self.shots
    }

    /// Runs what is left of the current pass in one go, without a scheduler.
    ///
    /// The task begins wrapped around, as for a single step. Each step from
    /// the program counter on is executed in turn and what it comes to is
    /// appended to `performed`: the commands for the platform to carry out,
    /// and the waits, which the platform sits out, since nothing else can run
    /// meanwhile. No condition is recorded as pending. The run stops at the
    /// first step whose pin is refused, with the program counter on that step.
    /// A pass is consumed at the wrap-around only, as in a single step.
    pub fn run(&mut self, manager: &ResourceManager, performed: &mut Vec<StepOutcome>) -> (r:
        Result<(), SchedulerError>)
        ensures
            ({
                let begun = old(self)@.wrapped();
                let pool = manager.pool();
                let start = begun.context.program_counter;
                let stop = final(self)@.context.program_counter;
                &&& start <= stop <= begun.steps.len()
                &&& begun.all_granted(start, stop, pool)
                &&& final(performed)@ == old(performed)@ + begun.outcomes(start, stop, pool)
                &&& match r {
                    Ok(()) => {
                        &&& stop == begun.steps.len()
                        &&& final(self)@ == begun.at(stop)
                    },
                    Err(e) => {
                        &&& stop < begun.steps.len()
                        &&& begun.at(stop).current_outcome(pool) is Err
                        &&& e == SchedulerError::Resource(begun.at(stop).current_outcome(pool)->Err_0)
                        &&& final(self)@ == begun.at(stop)
                    },
                }
            }),
    {
        if *self.context.program_counter() >= self.steps.len() {
            self.context.set_program_counter(0);
            self.shots.decrement();
        }
        let ghost begun = self@;
        let ghost pool = manager.pool();
        let ghost start = begun.context.program_counter;
        let mut pc: usize = *self.context.program_counter();
        while pc < self.steps.len()
            invariant
                begun == old(self)@.wrapped(),
                pool == manager.pool(),
                start == begun.context.program_counter,
                start <= pc <= self.steps.len(),
                self@ == begun.at(pc as nat),
                begun.all_granted(start, pc as nat, pool),
                performed@ == old(performed)@ + begun.outcomes(start, pc as nat, pool),
            decreases self.steps.len() - pc,
        {
            let task_step = self.steps[pc];
            match task_step.execute(&self.context, manager) {
                Ok(outcome) => {
                    performed.push(outcome);
                    pc += 1;
                    self.context.set_program_counter(pc);
                    proof {
                        assert(begun.outcomes(start, pc as nat, pool) =~= begun.outcomes(
                            start,
                            (pc - 1) as nat,
                            pool,
                        ).push(outcome));
                    }
                },
                Err(e) => {
                    return Err(SchedulerError::Resource(e));
                },
            }
        }
        Ok(())
    }

    /// Runs one step of the task and says which command, if any, the platform
    /// has to carry out for it.
    pub fn step(&mut self, manager: &ResourceManager) -> (r: Result<
        Option<PinCommand>,
        SchedulerError,
    >)
        ensures
            final(self)@ == old(self)@.stepped(manager.pool()),
            r == old(self)@.step_result(manager.pool()),
    {
        if *self.context.program_counter() >= self.steps.len() {
            self.context.set_program_counter(0);
            self.shots.decrement();
        }
        let pc: usize = *self.context.program_counter();
        if pc >= self.steps.len() {
            return Err(SchedulerError::ProgramCounterOutOfBounds);
        }
        let task_step = self.steps[pc];
        self.context.set_program_counter(pc + 1);
        match task_step.execute(&self.context, manager) {
            Ok(StepOutcome::Command(command)) => Ok(Some(command)),
            Ok(StepOutcome::Pending(request)) => {
                self.context.block_on(request);
                Ok(None)
            },
            Err(e) => Err(SchedulerError::Resource(e)),
        }
    }

    /// Drops every pending condition that is resolved when the clock reads `now`.
    pub fn resolve(&mut self, now: u64)
        ensures
            final(self)@ == old(self)@.resolved(now),
    {
        self.context.resolve(now);
    }

    /// Moves the task to the state in which a step has left it, and says
    /// which state that is.
    pub fn settle(&mut self) -> (status: TaskStatus)
        ensures
            status == old(self)@.settled(),
            final(self)@ == old(self)@.in_state(status),
    {
        let status = if !self.context.is_free() {
            TaskStatus::Blocked
        } else if *self.context.program_counter() >= self.steps.len() && self.shots.is_exhausted() {
            TaskStatus::Exited
        } else {
            TaskStatus::Ready
        };
        self.context.set_state(status);
        status
    }

    /// Declares a resource as the task's own and hands the task back. Nothing
    /// checks here that the resource exists: that is found out when a step
    /// asks for it.
    pub fn assign(self, resource: TaskResource) -> (task: Self)
        ensures
            resource matches TaskResource::Pin(pin) ==> task@ == (TaskView {
                context: ContextView {
                    pins_used: self@.context.pins_used.push(pin),
                    ..self@.context
                },
                ..self@
            }),
    {
        let mut task = self;
        match resource {
            TaskResource::Pin(pin) => task.context.declare(pin),
        }
        task
    }
}

/// Puts a task together field by field. What is not set stays as it starts:
/// a default context, an empty program, no bound on the passes.
#[derive(Debug)]
pub struct TaskBuilder {
    context: TaskContext,
    steps: Vec<TaskStep>,
    shots: Shot,
}

impl View for TaskBuilder {
    type V = TaskView;

    closed spec fn view(&self) -> TaskView {
        TaskView { context: self.context@, steps: self.steps@, shots: self.shots }
    }
}

impl Task {
    /// Starts a task: a default context, an empty program, no bound on the
    /// passes.
    pub fn builder() -> (builder: TaskBuilder)
        ensures
            is_random_uuid(builder@.context.id),
            builder@ == (TaskView {
                context: ContextView {
                    name: Seq::<char>::empty(),
                    id: builder@.context.id,
                    priority: TaskPriority::Low,
                    state: TaskStatus::New,
                    program_counter: 0,
                    pins_used: Seq::<i32>::empty(),
                    block_requests: Seq::<Request>::empty(),
                    last_run_timestamp: 0,
                    last_pin_read_level_register: Level::Low,
                },
                steps: Seq::<TaskStep>::empty(),
                shots: Shot::Infinity,
            }),
    {
        TaskBuilder { context: TaskContext::default(), steps: Vec::new(), shots: Shot::Infinity }
    }
}

impl TaskBuilder {
    /// Sets the scheduling record.
    pub fn context(self, context: TaskContext) -> (builder: Self)
        ensures
            builder@ == (TaskView { context: context@, ..self@ }),
    {
        Self { context, steps: self.steps, shots: self.shots }
    }

    /// Sets the program.
    pub fn steps(self, steps: Vec<TaskStep>) -> (builder: Self)
        ensures
            builder@ == (TaskView { steps: steps@, ..self@ }),
    {
        Self { context: self.context, steps, shots: self.shots }
    }

    /// Sets the number of passes.
    pub fn shots(self, shots: Shot) -> (builder: Self)
        ensures
            builder@ == (TaskView { shots: shots, ..self@ }),
    {
        Self { context: self.context, steps: self.steps, shots }
    }

    /// The task that was put together.
    pub fn build(self) -> (task: Task)
        ensures
            task@ == self@,
    {
        Task { context: self.context, steps: self.steps, shots: self.shots }
    }
}

} // verus!
