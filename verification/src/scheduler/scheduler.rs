use super::queue::{
    admission, fill_ready, free, held, next, resolve_all, resolved_at, select, take_free, views,
};
use crate::error::SchedulerError;
use crate::resource::manager::ResourceManager;
use crate::task::status::TaskStatus;
use crate::task::step::PinCommand;
use crate::task::task::{Task, TaskView};
use vstd::prelude::*;

verus! {

/// What one cycle of the scheduler did to the task it dispatched.
#[derive(Debug, PartialEq, Eq, Structural, Clone, Copy)]
pub struct Dispatch {
    /// The identifier of the task.
    pub task: u128,
    /// The command that the platform has to carry out for the step, if any.
    pub command: Option<PinCommand>,
    /// The state in which the step has left the task.
    pub status: TaskStatus,
}

/// What a scheduler holds, as plain mathematical values: one queue for each
/// status, the capacity of the ready queue and the number of pins in the pool.
#[verifier::ext_equal]
pub struct SchedulerView {
    pub new: Seq<TaskView>,
    pub ready: Seq<TaskView>,
    pub running: Seq<TaskView>,
    pub blocked: Seq<TaskView>,
    pub exited: Seq<TaskView>,
    pub suspended: Seq<TaskView>,
    pub queue_size: nat,
    pub pool: nat,
}

impl SchedulerView {
    /// A scheduler with empty queues.
    pub open spec fn empty(queue_size: nat, pool: nat) -> SchedulerView {
        SchedulerView {
            new: Seq::empty(),
            ready: Seq::empty(),
            running: Seq::empty(),
            blocked: Seq::empty(),
            exited: Seq::empty(),
            suspended: Seq::empty(),
            queue_size,
            pool,
        }
    }

    /// The queue of the tasks with the given status.
    pub open spec fn queue(self, status: TaskStatus) -> Seq<TaskView> {
        match status {
            TaskStatus::New => self.new,
            TaskStatus::Ready => self.ready,
            TaskStatus::Running => self.running,
            TaskStatus::Blocked => self.blocked,
            TaskStatus::Exited => self.exited,
            TaskStatus::Suspended => self.suspended,
        }
    }

    /// The same scheduler with another queue for the given status.
    pub open spec fn with_queue(self, status: TaskStatus, queue: Seq<TaskView>) -> SchedulerView {
        match status {
            TaskStatus::New => SchedulerView { new: queue, ..self },
            TaskStatus::Ready => SchedulerView { ready: queue, ..self },
            TaskStatus::Running => SchedulerView { running: queue, ..self },
            TaskStatus::Blocked => SchedulerView { blocked: queue, ..self },
            TaskStatus::Exited => SchedulerView { exited: queue, ..self },
            TaskStatus::Suspended => SchedulerView { suspended: queue, ..self },
        }
    }

    /// The scheduler after a task was submitted: the task stands at the end of
    /// the queue that matches its status.
    pub open spec fn scheduled(self, task: TaskView) -> SchedulerView {
        self.with_queue(task.context.state, self.queue(task.context.state).push(task))
    }

    /// The scheduler after a sequence of tasks was submitted in its order.
    pub open spec fn scheduled_all(self, tasks: Seq<TaskView>) -> SchedulerView
        decreases tasks.len(),
    {
        if tasks.len() == 0 {
            self
        } else {
            self.scheduled_all(tasks.drop_last()).scheduled(tasks.last())
        }
    }

    /// First part of a cycle: the pending conditions of the blocked tasks are
    /// resolved against the clock.
    pub open spec fn resolved(self, now: u64) -> SchedulerView {
        SchedulerView { blocked: resolved_at(self.blocked, now), ..self }
    }

    /// Second part of a cycle: new tasks are admitted to the ready queue,
    /// highest priority first, as far as its capacity allows.
    pub open spec fn admitted(self) -> SchedulerView {
        let (new, ready) = admission(self.new, self.ready, self.queue_size);
        SchedulerView { new, ready, ..self }
    }

    /// The task that a cycle dispatches, as it begins its step: the one to
    /// take from the ready queue, running, stamped with the clock reading.
    pub open spec fn chosen(self, now: u64) -> TaskView
        recommends
            self.ready.len() > 0,
    {
        self.ready[next(self.ready)].in_state(TaskStatus::Running).stamped(now)
    }

    /// Third part of a cycle: the chosen task leaves the ready queue and runs
    /// one step. If the step fails the task is lost. Else it joins the end of
    /// the blocked or of the ready queue, as its new state says, or is dropped
    /// because it has exited. With no task ready nothing happens.
    pub open spec fn dispatched(self, now: u64) -> SchedulerView {
        if self.ready.len() == 0 {
            self
        } else {
            let rest = self.ready.remove(next(self.ready));
            let after = self.chosen(now).stepped(self.pool);
            if self.chosen(now).step_result(self.pool) is Err {
                SchedulerView { ready: rest, ..self }
            } else {
                match after.settled() {
                    TaskStatus::Blocked => SchedulerView {
                        ready: rest,
                        blocked: self.blocked.push(after.in_state(TaskStatus::Blocked)),
                        ..self
                    },
                    TaskStatus::Exited => SchedulerView { ready: rest, ..self },
                    _ => SchedulerView {
                        ready: rest.push(after.in_state(TaskStatus::Ready)),
                        ..self
                    },
                }
            }
        }
    }

    /// What the third part of a cycle answers: nothing where no task is ready,
    /// the failure of the step, or what the step did.
    pub open spec fn dispatch_result(self, now: u64) -> Result<Option<Dispatch>, SchedulerError> {
        if self.ready.len() == 0 {
            Ok(None)
        } else {
            match self.chosen(now).step_result(self.pool) {
                Err(e) => Err(e),
                Ok(command) => Ok(
                    Some(
                        Dispatch {
                            task: self.chosen(now).context.id,
                            command,
                            status: self.chosen(now).stepped(self.pool).settled(),
                        },
                    ),
                ),
            }
        }
    }

    /// Last part of a cycle: the blocked tasks for which nothing is pending
    /// are promoted to the ready queue, highest priority first, as far as its
    /// capacity allows. Those that find no room stay blocked, behind the tasks
    /// that are still held.
    pub open spec fn promoted(self) -> SchedulerView {
        let (left, ready) = admission(self.blocked.filter(free()), self.ready, self.queue_size);
        SchedulerView { ready, blocked: self.blocked.filter(held()) + left, ..self }
    }

    /// The scheduler after one cycle at clock reading `now`. A cycle in which
    /// the step fails ends there, without promotion.
    pub open spec fn cycled(self, now: u64) -> SchedulerView {
        let begun = self.resolved(now).admitted();
        if begun.dispatch_result(now) is Err {
            begun.dispatched(now)
        } else {
            begun.dispatched(now).promoted()
        }
    }

    /// What one cycle at clock reading `now` answers.
    pub open spec fn cycle_result(self, now: u64) -> Result<Option<Dispatch>, SchedulerError> {
        self.resolved(now).admitted().dispatch_result(now)
    }
}

/// The control loop's state: the pin pool's manager, one queue of tasks for
/// each status, and the capacity that bounds the ready queue.
#[derive(Debug)]
pub struct TaskScheduler {
    manager: ResourceManager,
    new: Vec<Task>,
    ready: Vec<Task>,
    running: Vec<Task>,
    blocked: Vec<Task>,
    exited: Vec<Task>,
    suspended: Vec<Task>,
    queue_size: usize,
}

impl View for TaskScheduler {
    type V = SchedulerView;

    closed spec fn view(&self) -> SchedulerView {
        SchedulerView {
            new: views(self.new@),
            ready: views(self.ready@),
            running: views(self.running@),
            blocked: views(self.blocked@),
            exited: views(self.exited@),
            suspended: views(self.suspended@),
            queue_size: self.queue_size as nat,
            pool: self.manager.pool(),
        }
    }
}

impl TaskScheduler {
    /// A scheduler with empty queues and room for ten ready tasks, on the pin
    /// pool that the platform handed over: see [`ResourceManager::new`].
    pub fn new(enumeration: Option<usize>) -> (r: Result<Self, SchedulerError>)
        ensures
            enumeration is None ==> r is Err && r->Err_0 == SchedulerError::Bootstrap(
                crate::error::BootstrapError::AlreadyClaimed,
            ),
            enumeration matches Some(count) ==> r is Ok && r->Ok_0@ == SchedulerView::empty(
                10,
                count as nat,
            ),
    {
        Self::with_queue_size(enumeration, 10)
    }

    /// A scheduler with empty queues and room for `queue_size` ready tasks.
    pub fn with_queue_size(enumeration: Option<usize>, queue_size: usize) -> (r: Result<
        Self,
        SchedulerError,
    >)
        ensures
            enumeration is None ==> r is Err && r->Err_0 == SchedulerError::Bootstrap(
                crate::error::BootstrapError::AlreadyClaimed,
            ),
            enumeration matches Some(count) ==> r is Ok && r->Ok_0@ == SchedulerView::empty(
                queue_size as nat,
                count as nat,
            ),
    {
        match ResourceManager::new(enumeration) {
            Err(e) => Err(SchedulerError::Bootstrap(e)),
            Ok(manager) => {
                let scheduler = Self {
                    manager,
                    new: Vec::new(),
                    ready: Vec::new(),
                    running: Vec::new(),
                    blocked: Vec::new(),
                    exited: Vec::new(),
                    suspended: Vec::new(),
                    queue_size,
                };
                proof {
                    assert(scheduler@ =~= SchedulerView::empty(
                        queue_size as nat,
                        enumeration->Some_0 as nat,
                    ));
                }
                Ok(scheduler)
            },
        }
    }

    /// The queue of the tasks with the given status.
    pub fn queue(&self, status: TaskStatus) -> (r: &Vec<Task>)
        ensures
            views(r@) == self@.queue(status),
    {
        match status {
            TaskStatus::New => &self.new,
            TaskStatus::Ready => &self.ready,
            TaskStatus::Running => &self.running,
            TaskStatus::Blocked => &self.blocked,
            TaskStatus::Exited => &self.exited,
            TaskStatus::Suspended => &self.suspended,
        }
    }

    /// The number of tasks that the ready queue has room for.
    pub fn queue_size(&self) -> (r: usize)
        ensures
            r == self@.queue_size,
    {
        self.queue_size
    }

    /// The manager of the pin pool.
    pub fn manager(&self) -> (r: &ResourceManager)
        ensures
            r.pool() == self@.pool,
    {
        &self.manager
    }

    /// Submits a task: it joins the end of the queue that matches its status.
    pub fn schedule(&mut self, task: Task)
        ensures
            final(self)@ == old(self)@.scheduled(task@),
            final(self)@.queue(task@.context.state) == old(self)@.queue(task@.context.state).push(
                task@,
            ),
            forall|status: TaskStatus|
                status != task@.context.state ==> final(self)@.queue(status) == old(self)@.queue(
                    status,
                ),
    {
        let ghost before = self@;
        match *task.context().state() {
            TaskStatus::New => self.new.push(task),
            TaskStatus::Ready => self.ready.push(task),
            TaskStatus::Running => self.running.push(task),
            TaskStatus::Blocked => self.blocked.push(task),
            TaskStatus::Exited => self.exited.push(task),
            TaskStatus::Suspended => self.suspended.push(task),
        }
        proof {
            assert(self@ =~= before.scheduled(task@));
        }
    }

    /// Submits a sequence of tasks in its order.
    pub fn schedule_bulk(&mut self, tasks: Vec<Task>)
        ensures
            final(self)@ == old(self)@.scheduled_all(views(tasks@)),
    {
        let ghost all = views(tasks@);
        for task in it: tasks
            invariant
                all == views(it.seq()),
                self@ == old(self)@.scheduled_all(all.take(it.index() as int)),
        {
            proof {
                let seen = all.take(it.index() + 1);
                assert(seen.drop_last() == all.take(it.index() as int));
                assert(seen.last() == task@);
            }
            self.schedule(task);
        }
        proof {
            assert(all.take(all.len() as int) == all);
        }
    }

    /// Runs one cycle of the control loop at clock reading `now`, in
    /// milliseconds: resolves the conditions of the blocked tasks, admits new
    /// tasks, runs one step of the ready task of highest priority, and
    /// promotes the blocked tasks that are free.
    ///
    /// The answer names the task that ran, the state it is left in and the
    /// command that the platform has to carry out before the next cycle. An
    /// error ends the loop: the task whose step failed is lost.
    pub fn tick(&mut self, now: u64) -> (r: Result<Option<Dispatch>, SchedulerError>)
        ensures
            final(self)@ == old(self)@.cycled(now),
            r == old(self)@.cycle_result(now),
    {
        resolve_all(&mut self.blocked, now);
        fill_ready(&mut self.new, &mut self.ready, self.queue_size);
        let ghost begun = self@;
        assert(begun == old(self)@.resolved(now).admitted());
        let mut report: Option<Dispatch> = None;
        if let Some(i) = select(&self.ready) {
            let mut task = self.ready.remove(i);
            task.context_mut().set_state(TaskStatus::Running).set_last_run_timestamp(now);
            assert(task@ == begun.chosen(now));
            let command = match task.step(&self.manager) {
                Ok(command) => command,
                Err(e) => {
                    assert(self@ =~= begun.dispatched(now));
                    return Err(e);
                },
            };
            let id = *task.context().id();
            let status = task.settle();
            match status {
                TaskStatus::Blocked => self.blocked.push(task),
                TaskStatus::Exited => {},
                _ => self.ready.push(task),
            }
            report = Some(Dispatch { task: id, command, status });
        }
        assert(self@ =~= begun.dispatched(now));
        let ghost mid = self@;
        let mut freed = take_free(&mut self.blocked);
        fill_ready(&mut freed, &mut self.ready, self.queue_size);
        self.blocked.append(&mut freed);
        assert(self@ =~= mid.promoted());
        Ok(report)
    }

    /// One turn of the control loop: takes the pin driver's answer to the
    /// command of the turn before and the clock reading, and runs the next
    /// cycle. A driver error ends the loop at once and leaves the scheduler
    /// as it is; with no command outstanding the answer to give is `Ok`.
    pub fn advance(&mut self, answer: Result<(), i32>, now: u64) -> (r: Result<
        Option<Dispatch>,
        SchedulerError,
    >)
        ensures
            answer matches Err(code) ==> r == Err::<Option<Dispatch>, SchedulerError>(
                SchedulerError::HardwareConfig(code),
            ) && final(self)@ == old(self)@,
            answer is Ok ==> r == old(self)@.cycle_result(now) && final(self)@ == old(
                self,
            )@.cycled(now),
    {
        match SchedulerError::from_driver(answer) {
            Err(e) => Err(e),
            Ok(()) => self.tick(now),
        }
    }
}

} // verus!
