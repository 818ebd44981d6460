//! What holds of a task's steps, passes and waits.
use super::context::{still_pending, ContextView};
use super::shot::Shot;
use super::status::TaskStatus;
use super::step::TaskStep;
use super::task::TaskView;
use crate::resource::request::{elapsed_between, Request};
use vstd::prelude::*;

verus! {

/// A task exits only at the end of a pass, with nothing pending, when its
/// counter is bounded and reads zero; and then it does.
pub proof fn lemma_exit_only_when_exhausted(task: TaskView)
    ensures
        task.settled() == TaskStatus::Exited <==> task.context.is_free() && task.at_end()
            && task.shots == Shot::Custom(0),
{
}

/// A task with an unbounded counter never exits: a step leaves the counter
/// unbounded, and leaves the task blocked or ready.
pub proof fn lemma_unbounded_never_exits(task: TaskView, pool: nat)
    requires
        task.shots == Shot::Infinity,
    ensures
        task.stepped(pool).shots == Shot::Infinity,
        task.stepped(pool).settled() != TaskStatus::Exited,
{
}

/// A counter only ever goes down, and never below zero: a step leaves it as
/// it was, or consumes one pass at the wrap-around.
pub proof fn lemma_step_consumes_at_wrap(task: TaskView, pool: nat)
    ensures
        task.stepped(pool).shots == if task.at_end() {
            task.shots.decremented()
        } else {
            task.shots
        },
        task.stepped(pool).steps == task.steps,
{
}

/// A step changes nothing of a task but its place in the program, its
/// counter and what it waits for: the program itself, the priority, the
/// identity, the declared pins, the state and the time stamp are as before.
pub proof fn lemma_step_keeps_identity(task: TaskView, pool: nat)
    ensures
        task.stepped(pool).steps == task.steps,
        task.stepped(pool).context.priority == task.context.priority,
        task.stepped(pool).context.id == task.context.id,
        task.stepped(pool).context.name == task.context.name,
        task.stepped(pool).context.pins_used == task.context.pins_used,
        task.stepped(pool).context.state == task.context.state,
        task.stepped(pool).context.last_run_timestamp == task.context.last_run_timestamp,
        task.stepped(pool).context.program_counter <= task.steps.len(),
        task.step_result(pool) is Ok ==> 1 <= task.stepped(pool).context.program_counter,
{
}

/// Right after a yield step the task is to be blocked: the step answers with
/// no command, and the wait has joined the pending conditions.
pub proof fn lemma_yield_blocks(task: TaskView, pool: nat, ms: u32)
    requires
        !task.wrapped().at_end(),
        task.wrapped().steps[task.wrapped().context.program_counter as int] == TaskStep::Yield(ms),
    ensures
        task.step_result(pool) == Ok::<Option<super::step::PinCommand>, crate::error::SchedulerError>(
            None,
        ),
        task.stepped(pool).context.block_requests == task.context.block_requests.push(
            Request::Yield(ms as usize),
        ),
        task.stepped(pool).settled() == TaskStatus::Blocked,
{
}

/// A blocked task is free to be promoted at a clock reading exactly when
/// each of its pending conditions is due by then, counted from its last
/// dispatch.
pub proof fn lemma_free_when_all_due(context: ContextView, now: u64)
    ensures
        context.resolved(now).is_free() <==> forall|k: int|
            0 <= k < context.block_requests.len() ==> (#[trigger] context.block_requests[k]).is_due(
                elapsed_between(context.last_run_timestamp, now),
            ),
{
    let pending = still_pending(elapsed_between(context.last_run_timestamp, now));
    let requests = context.block_requests;
    let kept = requests.filter(pending);
    if kept.len() == 0 {
        assert forall|k: int| 0 <= k < requests.len() implies !pending(#[trigger] requests[k]) by {
            if pending(requests[k]) {
                requests.lemma_filter_contains(pending, k);
            }
        }
    } else {
        let witness = kept[0];
        requests.lemma_filter_pred(pending, 0);
        assert(kept.contains(witness));
        requests.lemma_filter_contains_rev(pending, witness);
    }
}

/// A task that waits for a single yield of `ms` milliseconds is free again
/// exactly when that much time has passed since it was dispatched.
pub proof fn lemma_yield_served_after_wait(context: ContextView, ms: usize, now: u64)
    requires
        context.block_requests == seq![Request::Yield(ms)],
    ensures
        context.resolved(now).is_free() <==> elapsed_between(context.last_run_timestamp, now) >= ms,
{
    lemma_free_when_all_due(context, now);
    assert(context.block_requests[0] == Request::Yield(ms));
}

impl TaskView {
    /// The same task with nothing pending.
    pub open spec fn released(self) -> TaskView {
        TaskView {
            context: ContextView { block_requests: Seq::empty(), ..self.context },
            ..self
        }
    }

    /// The task after `count` dispatches, each of which found it free: before
    /// each step the conditions that the step before left pending have been
    /// resolved.
    pub open spec fn after_steps(self, pool: nat, count: nat) -> TaskView
        decreases count,
    {
        if count == 0 {
            self
        } else {
            self.after_steps(pool, (count - 1) as nat).released().stepped(pool)
        }
    }

    /// Whether the program ends in a yield.
    pub open spec fn ends_in_yield(self) -> bool {
        self.steps.len() > 0 && self.steps.last() is Yield
    }
}

/// A task with an unbounded counter never exits, however many steps and
/// passes lie behind it.
pub proof fn lemma_unbounded_never_exits_after(task: TaskView, pool: nat, count: nat)
    requires
        task.shots == Shot::Infinity,
        count > 0,
    ensures
        task.after_steps(pool, count).shots == Shot::Infinity,
        task.after_steps(pool, count).settled() != TaskStatus::Exited,
    decreases count,
{
    if count > 1 {
        lemma_unbounded_never_exits_after(task, pool, (count - 1) as nat);
    }
    lemma_unbounded_never_exits(task.after_steps(pool, (count - 1) as nat).released(), pool);
}

/// A run is a row of single steps: where the steps get their pins, the task
/// stands after `count` steps of a run where `count` dispatches would have
/// left it, but for the waits, which a run sits out and records nowhere.
pub proof fn lemma_run_repeats_the_step(task: TaskView, pool: nat, count: nat)
    requires
        1 <= count,
        task.wrapped().context.program_counter + count <= task.steps.len(),
        task.wrapped().all_granted(
            task.wrapped().context.program_counter,
            task.wrapped().context.program_counter + count,
            pool,
        ),
    ensures
        task.after_steps(pool, count).released() == task.wrapped().at(
            task.wrapped().context.program_counter + count,
        ).released(),
        task.after_steps(pool, count).shots == task.wrapped().shots,
    decreases count,
{
    let begun = task.wrapped();
    let start = begun.context.program_counter;
    let before = task.after_steps(pool, (count - 1) as nat);
    if count > 1 {
        lemma_run_repeats_the_step(task, pool, (count - 1) as nat);
        assert(before.released() == begun.at((start + count - 1) as nat).released());
        assert(before.released().wrapped() == before.released());
    } else {
        assert(before == task);
        assert(task.released().wrapped() == begun.released());
    }
    let resumed = before.released().wrapped();
    assert(resumed.context.program_counter == start + count - 1);
    assert(resumed.steps == begun.steps);
    assert(begun.steps[start + count - 1].outcome(begun.context, pool) is Ok);
    assert(resumed.steps[start + count - 1].outcome(resumed.context, pool)
        == begun.steps[start + count - 1].outcome(begun.context, pool));
    assert(task.after_steps(pool, count).released() =~= begun.at(start + count).released());
}

/// The passes that are left of `n` after `passes` of them were consumed.
pub open spec fn passes_left(n: usize, passes: nat) -> usize {
    if passes <= n {
        (n - passes) as usize
    } else {
        0
    }
}

/// Where a task with a bounded counter stands, and when it exits.
///
/// Take a task at the start of its program, with a counter of `n` and a
/// program whose steps all get their pins. After `passes` full passes and
/// `into` steps more, the program counter reads `into` and `passes` passes
/// have been consumed. The task exits exactly at the end of a pass that it
/// completes with its counter at zero, and only if the program does not end
/// in a yield: the first time at the end of pass `n + 1`. A program that ends
/// in a yield leaves the task blocked at the end of each pass, so that it
/// never exits.
pub proof fn lemma_exit_after_passes(task: TaskView, pool: nat, n: usize, passes: nat, into: nat)
    requires
        task.context.program_counter == 0,
        task.shots == Shot::Custom(n),
        task.all_granted(0, task.steps.len(), pool),
        1 <= into <= task.steps.len(),
    ensures
        ({
            let then = task.after_steps(pool, passes * task.steps.len() + into);
            &&& then.context.program_counter == into
            &&& then.shots == Shot::Custom(passes_left(n, passes))
            &&& then.steps == task.steps
            &&& then.context.pins_used == task.context.pins_used
            &&& then.settled() == TaskStatus::Exited <==> into == task.steps.len() && passes >= n
                && !task.ends_in_yield()
        }),
    decreases passes, into,
{
    let length = task.steps.len();
    let count = passes * length + into;
    let before = task.after_steps(pool, (count - 1) as nat);
    if into > 1 {
        lemma_exit_after_passes(task, pool, n, passes, (into - 1) as nat);
        assert(passes * length + (into - 1) == count - 1);
    } else if passes > 0 {
        lemma_exit_after_passes(task, pool, n, (passes - 1) as nat, length);
        assert((passes - 1) * length + length == passes * length) by (nonlinear_arith);
    } else {
        assert(passes * length == 0) by (nonlinear_arith)
            requires
                passes == 0,
        ;
        assert(before == task);
    }
    assert(count >= 1) by (nonlinear_arith)
        requires
            count == passes * length + into,
            into >= 1,
            passes >= 0,
            length >= 0,
    ;
    let begun = before.released().wrapped();
    assert(begun.context.program_counter == into - 1);
    assert(begun.steps[into - 1].outcome(task.context, pool) is Ok);
    assert(begun.steps[into - 1].outcome(begun.context, pool) == begun.steps[into - 1].outcome(
        task.context,
        pool,
    ));
    if into == length {
        assert(task.steps.last() == task.steps[into - 1]);
    }
}

} // verus!
