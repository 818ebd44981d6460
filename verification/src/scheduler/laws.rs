//! What holds of admission, promotion and the cycle as a whole.
use super::queue::{admission, free, held, lemma_next_exists, next, rank};
use super::scheduler::{Dispatch, SchedulerView};
use crate::resource::request::{elapsed_between, Request};
use crate::task::shot::Shot;
use crate::task::step::TaskStep;
use crate::task::status::TaskStatus;
use crate::task::task::TaskView;
use vstd::prelude::*;

verus! {

/// Admission only appends to the ready queue, moves each task it takes from
/// one queue to the other with status `Ready`, and stops exactly when the
/// ready queue is full or nobody waits. In particular a ready queue within
/// its capacity stays within it, and a full one is left alone.
pub proof fn lemma_admission_shape(waiting: Seq<TaskView>, ready: Seq<TaskView>, capacity: nat)
    ensures
        ({
            let (left, filled) = admission(waiting, ready, capacity);
            &&& ready.len() <= filled.len()
            &&& filled.subrange(0, ready.len() as int) == ready
            &&& left.len() + filled.len() == waiting.len() + ready.len()
            &&& forall|k: int|
                ready.len() <= k < filled.len() ==> (#[trigger] filled[k]).context.state
                    == TaskStatus::Ready
            &&& ready.len() <= capacity ==> filled.len() <= capacity
            &&& ready.len() <= capacity ==> (left.len() == 0 || filled.len() == capacity)
            &&& ready.len() >= capacity ==> left == waiting && filled == ready
        }),
    decreases waiting.len(),
{
    if ready.len() >= capacity || waiting.len() == 0 {
        assert(ready.subrange(0, ready.len() as int) =~= ready);
    } else {
        lemma_next_exists(waiting);
        let i = next(waiting);
        let fewer = waiting.remove(i);
        let more = ready.push(waiting[i].in_state(TaskStatus::Ready));
        lemma_admission_shape(fewer, more, capacity);
        let (left, filled) = admission(fewer, more, capacity);
        assert(filled.subrange(0, ready.len() as int) =~= more.subrange(0, ready.len() as int)) by {
            assert(filled.subrange(0, more.len() as int) == more);
            assert forall|k: int| 0 <= k < ready.len() implies filled[k] == more[k] by {
                assert(filled.subrange(0, more.len() as int)[k] == filled[k]);
            }
        }
        assert(more.subrange(0, ready.len() as int) =~= ready);
        assert forall|k: int| ready.len() <= k < filled.len() implies (#[trigger] filled[k]).context.state
            == TaskStatus::Ready by {
            if k == ready.len() {
                assert(filled.subrange(0, more.len() as int)[k] == filled[k]);
            }
        }
    }
}

/// Admission never raises a rank: where no waiting task ranks above `bound`,
/// neither does a task that it admits or leaves waiting.
pub proof fn lemma_admission_ranks_bounded(
    waiting: Seq<TaskView>,
    ready: Seq<TaskView>,
    capacity: nat,
    bound: u8,
)
    requires
        forall|j: int| 0 <= j < waiting.len() ==> #[trigger] rank(waiting, j) <= bound,
    ensures
        ({
            let (left, filled) = admission(waiting, ready, capacity);
            &&& forall|j: int| 0 <= j < left.len() ==> #[trigger] rank(left, j) <= bound
            &&& forall|k: int| ready.len() <= k < filled.len() ==> #[trigger] rank(filled, k) <= bound
        }),
    decreases waiting.len(),
{
    if ready.len() >= capacity || waiting.len() == 0 {
    } else {
        lemma_next_exists(waiting);
        let i = next(waiting);
        let fewer = waiting.remove(i);
        let more = ready.push(waiting[i].in_state(TaskStatus::Ready));
        assert forall|j: int| 0 <= j < fewer.len() implies #[trigger] rank(fewer, j) <= bound by {
            if j < i {
                assert(rank(fewer, j) == rank(waiting, j));
            } else {
                assert(rank(fewer, j) == rank(waiting, j + 1));
            }
        }
        lemma_admission_ranks_bounded(fewer, more, capacity, bound);
        lemma_admission_shape(fewer, more, capacity);
        let (left, filled) = admission(fewer, more, capacity);
        assert forall|k: int| ready.len() <= k < filled.len() implies #[trigger] rank(filled, k)
            <= bound by {
            if k == ready.len() {
                assert(filled.subrange(0, more.len() as int)[k] == filled[k]);
                assert(rank(filled, k) == rank(waiting, i));
            }
        }
    }
}

/// Admission goes by priority: the tasks that it admits stand in the ready
/// queue in falling order of rank, and no task that it leaves waiting ranks
/// above one that it admits. So of two waiting tasks of different priority
/// the lower is never admitted before the higher, nor without it.
pub proof fn lemma_admission_by_priority(
    waiting: Seq<TaskView>,
    ready: Seq<TaskView>,
    capacity: nat,
)
    ensures
        ({
            let (left, filled) = admission(waiting, ready, capacity);
            &&& forall|k: int, j: int|
                ready.len() <= k < filled.len() && 0 <= j < left.len() ==> #[trigger] rank(left, j)
                    <= #[trigger] rank(filled, k)
            &&& forall|k: int, l: int|
                ready.len() <= k <= l < filled.len() ==> #[trigger] rank(filled, l)
                    <= #[trigger] rank(filled, k)
        }),
    decreases waiting.len(),
{
    if ready.len() >= capacity || waiting.len() == 0 {
    } else {
        lemma_next_exists(waiting);
        let i = next(waiting);
        let top = rank(waiting, i);
        let fewer = waiting.remove(i);
        let more = ready.push(waiting[i].in_state(TaskStatus::Ready));
        assert forall|j: int| 0 <= j < fewer.len() implies #[trigger] rank(fewer, j) <= top by {
            if j < i {
                assert(rank(fewer, j) == rank(waiting, j));
            } else {
                assert(rank(fewer, j) == rank(waiting, j + 1));
            }
        }
        lemma_admission_by_priority(fewer, more, capacity);
        lemma_admission_ranks_bounded(fewer, more, capacity, top);
        lemma_admission_shape(fewer, more, capacity);
        let (left, filled) = admission(fewer, more, capacity);
        let first = ready.len() as int;
        assert(rank(filled, first) == top) by {
            assert(filled.subrange(0, more.len() as int)[first] == filled[first]);
        }
        assert forall|k: int, j: int|
            ready.len() <= k < filled.len() && 0 <= j < left.len() implies #[trigger] rank(left, j)
            <= #[trigger] rank(filled, k) by {
            if k == first {
                assert(rank(left, j) <= top);
            }
        }
        assert forall|k: int, l: int| ready.len() <= k <= l < filled.len() implies #[trigger] rank(
            filled,
            l,
        ) <= #[trigger] rank(filled, k) by {
            if k == first {
                if l > first {
                    assert(rank(filled, l) <= top);
                }
            }
        }
    }
}

/// Where a slot is open and tasks wait, the slot goes to a task that no
/// waiting task outranks.
pub proof fn lemma_open_slot_goes_to_highest(
    waiting: Seq<TaskView>,
    ready: Seq<TaskView>,
    capacity: nat,
    j: int,
)
    requires
        ready.len() < capacity,
        0 <= j < waiting.len(),
    ensures
        ({
            let (left, filled) = admission(waiting, ready, capacity);
            &&& ready.len() < filled.len()
            &&& filled[ready.len() as int] == waiting[next(waiting)].in_state(TaskStatus::Ready)
            &&& rank(waiting, j) <= rank(filled, ready.len() as int)
        }),
{
    lemma_next_exists(waiting);
    let i = next(waiting);
    let fewer = waiting.remove(i);
    let more = ready.push(waiting[i].in_state(TaskStatus::Ready));
    lemma_admission_shape(fewer, more, capacity);
    let (left, filled) = admission(fewer, more, capacity);
    assert(filled.subrange(0, more.len() as int)[ready.len() as int] == filled[ready.len() as int]);
    assert(rank(waiting, j) <= rank(waiting, i));
}

/// Admission makes up no task: what holds of every waiting task holds of
/// every task left waiting, and what holds of every waiting task once it is
/// `Ready` holds of every task admitted.
pub proof fn lemma_admission_keeps(
    waiting: Seq<TaskView>,
    ready: Seq<TaskView>,
    capacity: nat,
    staying: spec_fn(TaskView) -> bool,
    moving: spec_fn(TaskView) -> bool,
)
    requires
        forall|j: int| 0 <= j < waiting.len() ==> staying(#[trigger] waiting[j]),
        forall|j: int|
            0 <= j < waiting.len() ==> moving((#[trigger] waiting[j]).in_state(TaskStatus::Ready)),
    ensures
        ({
            let (left, filled) = admission(waiting, ready, capacity);
            &&& forall|j: int| 0 <= j < left.len() ==> staying(#[trigger] left[j])
            &&& forall|k: int| ready.len() <= k < filled.len() ==> moving(#[trigger] filled[k])
        }),
    decreases waiting.len(),
{
    if ready.len() >= capacity || waiting.len() == 0 {
    } else {
        lemma_next_exists(waiting);
        let i = next(waiting);
        let fewer = waiting.remove(i);
        let more = ready.push(waiting[i].in_state(TaskStatus::Ready));
        assert forall|j: int| 0 <= j < fewer.len() implies staying(#[trigger] fewer[j]) && moving(
            fewer[j].in_state(TaskStatus::Ready),
        ) by {
            if j < i {
                assert(fewer[j] == waiting[j]);
            } else {
                assert(fewer[j] == waiting[j + 1]);
            }
        }
        lemma_admission_keeps(fewer, more, capacity, staying, moving);
        lemma_admission_shape(fewer, more, capacity);
        let (left, filled) = admission(fewer, more, capacity);
        assert forall|k: int| ready.len() <= k < filled.len() implies moving(#[trigger] filled[k]) by {
            if k == ready.len() {
                assert(filled.subrange(0, more.len() as int)[k] == filled[k]);
            }
        }
    }
}

/// The tasks of a queue, each taken as `Ready`.
pub open spec fn as_ready(queue: Seq<TaskView>) -> Seq<TaskView> {
    queue.map_values(|task: TaskView| task.in_state(TaskStatus::Ready))
}

/// Admission loses no task and makes up none: but for the status of the
/// tasks that it admits, the two queues together hold after it the tasks they
/// held before, each as often as before.
pub proof fn lemma_admission_rearranges(
    waiting: Seq<TaskView>,
    ready: Seq<TaskView>,
    capacity: nat,
)
    ensures
        ({
            let (left, filled) = admission(waiting, ready, capacity);
            as_ready(left).to_multiset().add(filled.to_multiset()) == as_ready(
                waiting,
            ).to_multiset().add(ready.to_multiset())
        }),
    decreases waiting.len(),
{
    if ready.len() >= capacity || waiting.len() == 0 {
    } else {
        lemma_next_exists(waiting);
        let i = next(waiting);
        let fewer = waiting.remove(i);
        let moved = waiting[i].in_state(TaskStatus::Ready);
        let more = ready.push(moved);
        lemma_admission_rearranges(fewer, more, capacity);
        assert(as_ready(fewer) =~= as_ready(waiting).remove(i));
        vstd::seq_lib::to_multiset_remove(as_ready(waiting), i);
        vstd::seq_lib::to_multiset_build(ready, moved);
        assert(as_ready(waiting)[i] == moved);
        assert(as_ready(waiting).to_multiset().count(moved) > 0) by {
            vstd::seq_lib::to_multiset_contains(as_ready(waiting), moved);
            assert(as_ready(waiting).contains(moved));
        }
        assert(as_ready(waiting).to_multiset().remove(moved).add(
            ready.to_multiset().insert(moved),
        ) =~= as_ready(waiting).to_multiset().add(ready.to_multiset()));
    }
}

/// After each admission step the ready queue is within its capacity, if it
/// was before: after the admission of new tasks, after the promotion of
/// blocked ones, and after a whole cycle.
pub proof fn lemma_ready_within_capacity(scheduler: SchedulerView, now: u64)
    requires
        scheduler.ready.len() <= scheduler.queue_size,
    ensures
        scheduler.admitted().ready.len() <= scheduler.queue_size,
        scheduler.promoted().ready.len() <= scheduler.queue_size,
        scheduler.cycled(now).ready.len() <= scheduler.queue_size,
        scheduler.cycled(now).queue_size == scheduler.queue_size,
{
    lemma_admission_shape(scheduler.new, scheduler.ready, scheduler.queue_size);
    lemma_admission_shape(scheduler.blocked.filter(free()), scheduler.ready, scheduler.queue_size);
    let begun = scheduler.resolved(now).admitted();
    let run = begun.dispatched(now);
    if begun.ready.len() > 0 {
        lemma_next_exists(begun.ready);
    }
    lemma_admission_shape(run.blocked.filter(free()), run.ready, run.queue_size);
}

/// Dispatch goes by priority: the task that a cycle runs is one that no ready
/// task outranks, and the last of those in the queue.
pub proof fn lemma_dispatch_takes_highest(scheduler: SchedulerView, now: u64, j: int)
    requires
        0 <= j < scheduler.ready.len(),
    ensures
        scheduler.chosen(now).context.priority.value() >= rank(scheduler.ready, j),
        j > next(scheduler.ready) ==> scheduler.chosen(now).context.priority.value() > rank(
            scheduler.ready,
            j,
        ),
        scheduler.dispatch_result(now) matches Ok(Some(report)) ==> report.task
            == scheduler.ready[next(scheduler.ready)].context.id,
{
    lemma_next_exists(scheduler.ready);
    assert(rank(scheduler.ready, j) <= rank(scheduler.ready, next(scheduler.ready)));
    if j > next(scheduler.ready) {
        assert(rank(scheduler.ready, j) < rank(scheduler.ready, next(scheduler.ready)));
    }
}

/// Right after it has executed a yield step the dispatched task is blocked:
/// it stands at the end of the blocked queue with status `Blocked`, stamped
/// with the clock reading of its dispatch, and waits for the yield.
pub proof fn lemma_yield_blocks_dispatched(scheduler: SchedulerView, now: u64, ms: u32)
    requires
        scheduler.ready.len() > 0,
        !scheduler.chosen(now).wrapped().at_end(),
        scheduler.chosen(now).wrapped().steps[scheduler.chosen(
            now,
        ).wrapped().context.program_counter as int] == TaskStep::Yield(ms),
    ensures
        scheduler.dispatch_result(now) == Ok::<Option<Dispatch>, crate::error::SchedulerError>(
            Some(
                Dispatch {
                    task: scheduler.chosen(now).context.id,
                    command: None,
                    status: TaskStatus::Blocked,
                },
            ),
        ),
        scheduler.dispatched(now).blocked.len() == scheduler.blocked.len() + 1,
        scheduler.dispatched(now).blocked.last().context.state == TaskStatus::Blocked,
        scheduler.dispatched(now).blocked.last().context.last_run_timestamp == now,
        scheduler.dispatched(now).blocked.last().context.block_requests.last() == Request::Yield(
            ms as usize,
        ),
        scheduler.dispatched(now).ready.len() == scheduler.ready.len() - 1,
{
    lemma_next_exists(scheduler.ready);
    crate::task::laws::lemma_yield_blocks(scheduler.chosen(now), scheduler.pool, ms);
}

/// A task that yields is held for the length of its wait: dispatched with
/// nothing pending at clock reading `now`, it is blocked by a yield of `ms`
/// milliseconds, and at a later reading it is free to be promoted exactly
/// when at least `ms` milliseconds have passed since `now`.
pub proof fn lemma_yield_holds_for_its_wait(scheduler: SchedulerView, now: u64, ms: u32, later: u64)
    requires
        scheduler.ready.len() > 0,
        scheduler.chosen(now).context.is_free(),
        !scheduler.chosen(now).wrapped().at_end(),
        scheduler.chosen(now).wrapped().steps[scheduler.chosen(
            now,
        ).wrapped().context.program_counter as int] == TaskStep::Yield(ms),
    ensures
        ({
            let held_task = scheduler.dispatched(now).blocked.last();
            &&& held_task.context.state == TaskStatus::Blocked
            &&& !held_task.context.is_free()
            &&& held_task.resolved(later).context.is_free() <==> elapsed_between(now, later) >= ms
        }),
{
    lemma_yield_blocks_dispatched(scheduler, now, ms);
    crate::task::laws::lemma_yield_blocks(scheduler.chosen(now), scheduler.pool, ms);
    let held_task = scheduler.dispatched(now).blocked.last();
    assert(held_task.context.block_requests =~= seq![Request::Yield(ms as usize)]);
    crate::task::laws::lemma_yield_served_after_wait(held_task.context, ms as usize, later);
}

/// A blocked task returns to the ready queue only when it is free and only
/// as far as capacity allows: promotion appends to the ready queue tasks for
/// which nothing is pending, no more than there is room for; a full ready
/// queue is left alone, and every blocked task then stays blocked. The tasks
/// that stay are unchanged.
pub proof fn lemma_promotion_needs_room(scheduler: SchedulerView)
    ensures
        ({
            let after = scheduler.promoted();
            &&& after.ready.len() >= scheduler.ready.len()
            &&& after.ready.subrange(0, scheduler.ready.len() as int) == scheduler.ready
            &&& after.ready.len() + after.blocked.len() == scheduler.ready.len()
                + scheduler.blocked.len()
            &&& forall|k: int|
                scheduler.ready.len() <= k < after.ready.len() ==> (#[trigger] after.ready[k]).context.is_free()
                    && after.ready[k].context.state == TaskStatus::Ready
            &&& scheduler.ready.len() <= scheduler.queue_size ==> after.ready.len()
                <= scheduler.queue_size
            &&& scheduler.ready.len() >= scheduler.queue_size ==> after.ready == scheduler.ready
                && after.blocked == scheduler.blocked.filter(held()) + scheduler.blocked.filter(
                free(),
            )
            &&& forall|j: int|
                0 <= j < after.blocked.len() ==> scheduler.blocked.contains(#[trigger] after.blocked[j])
        }),
{
    let freed = scheduler.blocked.filter(free());
    let kept = scheduler.blocked.filter(held());
    let (left, filled) = admission(freed, scheduler.ready, scheduler.queue_size);
    lemma_admission_shape(freed, scheduler.ready, scheduler.queue_size);
    lemma_partition_lengths(scheduler.blocked);
    let was_blocked = |task: TaskView| scheduler.blocked.contains(task);
    let is_free_and_ready = |task: TaskView|
        task.context.is_free() && task.context.state == TaskStatus::Ready;
    assert forall|j: int| 0 <= j < freed.len() implies was_blocked(#[trigger] freed[j])
        && is_free_and_ready(freed[j].in_state(TaskStatus::Ready)) by {
        scheduler.blocked.lemma_filter_pred(free(), j);
        assert(freed.contains(freed[j]));
        scheduler.blocked.lemma_filter_contains_rev(free(), freed[j]);
    }
    lemma_admission_keeps(
        freed,
        scheduler.ready,
        scheduler.queue_size,
        was_blocked,
        is_free_and_ready,
    );
    assert forall|j: int| 0 <= j < (kept + left).len() implies scheduler.blocked.contains(
        #[trigger] (kept + left)[j],
    ) by {
        if j < kept.len() {
            assert(kept.contains(kept[j]));
            scheduler.blocked.lemma_filter_contains_rev(held(), kept[j]);
        } else {
            assert(was_blocked(left[j - kept.len()]));
        }
    }
}

/// Parting a blocked queue into free and held tasks loses none.
pub proof fn lemma_partition_lengths(blocked: Seq<TaskView>)
    ensures
        blocked.filter(free()).len() + blocked.filter(held()).len() == blocked.len(),
    decreases blocked.len(),
{
    if blocked.len() > 0 {
        let front = blocked.drop_last();
        lemma_partition_lengths(front);
        assert(blocked == front.push(blocked.last()));
        front.lemma_filter_push(blocked.last(), free());
        front.lemma_filter_push(blocked.last(), held());
    } else {
        assert(blocked.filter(free()).len() <= blocked.len()) by {
            blocked.lemma_filter_len(free());
        }
        assert(blocked.filter(held()).len() <= blocked.len()) by {
            blocked.lemma_filter_len(held());
        }
    }
}

/// Whether every task of a queue has an unbounded counter.
pub open spec fn all_unbounded(queue: Seq<TaskView>) -> bool {
    forall|j: int| 0 <= j < queue.len() ==> (#[trigger] queue[j]).shots == Shot::Infinity
}

/// Tasks with an unbounded counter never exit, however many passes they
/// complete: where every new, ready and blocked task has an unbounded
/// counter, a cycle reports no exit, loses no task unless it fails, and
/// leaves every task with an unbounded counter.
pub proof fn lemma_unbounded_tasks_stay(scheduler: SchedulerView, now: u64)
    requires
        all_unbounded(scheduler.new),
        all_unbounded(scheduler.ready),
        all_unbounded(scheduler.blocked),
    ensures
        all_unbounded(scheduler.cycled(now).new),
        all_unbounded(scheduler.cycled(now).ready),
        all_unbounded(scheduler.cycled(now).blocked),
        scheduler.cycle_result(now) matches Ok(Some(report)) ==> report.status != TaskStatus::Exited,
        scheduler.cycle_result(now) is Ok ==> scheduler.cycled(now).new.len() + scheduler.cycled(
            now,
        ).ready.len() + scheduler.cycled(now).blocked.len() == scheduler.new.len()
            + scheduler.ready.len() + scheduler.blocked.len(),
{
    let unbounded = |task: TaskView| task.shots == Shot::Infinity;
    let solved = scheduler.resolved(now);
    assert(all_unbounded(solved.blocked));
    lemma_admission_keeps(solved.new, solved.ready, solved.queue_size, unbounded, unbounded);
    lemma_admission_shape(solved.new, solved.ready, solved.queue_size);
    let begun = solved.admitted();
    assert(all_unbounded(begun.ready)) by {
        assert forall|j: int| 0 <= j < begun.ready.len() implies (#[trigger] begun.ready[j]).shots
            == Shot::Infinity by {
            if j < solved.ready.len() {
                assert(begun.ready.subrange(0, solved.ready.len() as int)[j] == begun.ready[j]);
            } else {
                assert(unbounded(begun.ready[j]));
            }
        }
    }
    assert(all_unbounded(begun.new)) by {
        assert forall|j: int| 0 <= j < begun.new.len() implies (#[trigger] begun.new[j]).shots
            == Shot::Infinity by {
            assert(unbounded(begun.new[j]));
        }
    }
    let run = begun.dispatched(now);
    if begun.ready.len() > 0 {
        lemma_next_exists(begun.ready);
        crate::task::laws::lemma_unbounded_never_exits(begun.chosen(now), begun.pool);
    }
    assert(all_unbounded(run.ready));
    assert(all_unbounded(run.blocked));
    if begun.dispatch_result(now) is Ok {
        let freed = run.blocked.filter(free());
        let kept = run.blocked.filter(held());
        assert forall|j: int| 0 <= j < freed.len() implies unbounded(#[trigger] freed[j]) by {
            assert(freed.contains(freed[j]));
            run.blocked.lemma_filter_contains_rev(free(), freed[j]);
        }
        assert forall|j: int| 0 <= j < kept.len() implies unbounded(#[trigger] kept[j]) by {
            assert(kept.contains(kept[j]));
            run.blocked.lemma_filter_contains_rev(held(), kept[j]);
        }
        lemma_admission_keeps(freed, run.ready, run.queue_size, unbounded, unbounded);
        lemma_admission_shape(freed, run.ready, run.queue_size);
        lemma_partition_lengths(run.blocked);
        let after = run.promoted();
        assert forall|j: int| 0 <= j < after.ready.len() implies (#[trigger] after.ready[j]).shots
            == Shot::Infinity by {
            if j < run.ready.len() {
                assert(after.ready.subrange(0, run.ready.len() as int)[j] == after.ready[j]);
            } else {
                assert(unbounded(after.ready[j]));
            }
        }
        assert forall|j: int| 0 <= j < after.blocked.len() implies (#[trigger] after.blocked[j]).shots
            == Shot::Infinity by {
            if j < kept.len() {
                assert(unbounded(kept[j]));
            } else {
                let (left, filled) = admission(freed, run.ready, run.queue_size);
                assert(unbounded(left[j - kept.len()]));
            }
        }
    }
}

/// Whether each task of a queue has the given status.
pub open spec fn all_in_state(queue: Seq<TaskView>, status: TaskStatus) -> bool {
    forall|j: int| 0 <= j < queue.len() ==> (#[trigger] queue[j]).context.state == status
}

impl SchedulerView {
    /// Whether every task stands in the queue that matches its status.
    pub open spec fn queues_match_status(self) -> bool {
        forall|status: TaskStatus| all_in_state(#[trigger] self.queue(status), status)
    }
}

/// A submitted task joins the queue that matches its status and no other
/// queue changes, so that every task still stands in the queue of its status.
pub proof fn lemma_schedule_matches_status(scheduler: SchedulerView, task: TaskView)
    ensures
        scheduler.scheduled(task).queue(task.context.state) == scheduler.queue(
            task.context.state,
        ).push(task),
        forall|status: TaskStatus|
            status != task.context.state ==> scheduler.scheduled(task).queue(status)
                == scheduler.queue(status),
        scheduler.queues_match_status() ==> scheduler.scheduled(task).queues_match_status(),
{
    if scheduler.queues_match_status() {
        let after = scheduler.scheduled(task);
        assert forall|status: TaskStatus| all_in_state(#[trigger] after.queue(status), status) by {
            assert(all_in_state(scheduler.queue(status), status));
        }
    }
}

/// A cycle keeps every task in the queue that matches its status.
pub proof fn lemma_cycle_matches_status(scheduler: SchedulerView, now: u64)
    requires
        scheduler.queues_match_status(),
    ensures
        scheduler.cycled(now).queues_match_status(),
{
    assert(all_in_state(scheduler.queue(TaskStatus::New), TaskStatus::New));
    assert(all_in_state(scheduler.queue(TaskStatus::Ready), TaskStatus::Ready));
    assert(all_in_state(scheduler.queue(TaskStatus::Running), TaskStatus::Running));
    assert(all_in_state(scheduler.queue(TaskStatus::Blocked), TaskStatus::Blocked));
    assert(all_in_state(scheduler.queue(TaskStatus::Exited), TaskStatus::Exited));
    assert(all_in_state(scheduler.queue(TaskStatus::Suspended), TaskStatus::Suspended));
    let is_new = |task: TaskView| task.context.state == TaskStatus::New;
    let is_ready = |task: TaskView| task.context.state == TaskStatus::Ready;
    let is_blocked = |task: TaskView| task.context.state == TaskStatus::Blocked;
    let solved = scheduler.resolved(now);
    assert(all_in_state(solved.blocked, TaskStatus::Blocked));
    lemma_admission_keeps(solved.new, solved.ready, solved.queue_size, is_new, is_ready);
    lemma_admission_shape(solved.new, solved.ready, solved.queue_size);
    let begun = solved.admitted();
    assert(all_in_state(begun.new, TaskStatus::New)) by {
        assert forall|j: int| 0 <= j < begun.new.len() implies (#[trigger] begun.new[j]).context.state
            == TaskStatus::New by {
            assert(is_new(begun.new[j]));
        }
    }
    assert(all_in_state(begun.ready, TaskStatus::Ready)) by {
        assert forall|j: int| 0 <= j < begun.ready.len() implies (#[trigger] begun.ready[j]).context.state
            == TaskStatus::Ready by {
            if j < solved.ready.len() {
                assert(begun.ready.subrange(0, solved.ready.len() as int)[j] == begun.ready[j]);
            }
        }
    }
    let run = begun.dispatched(now);
    if begun.ready.len() > 0 {
        lemma_next_exists(begun.ready);
    }
    assert(all_in_state(run.ready, TaskStatus::Ready));
    assert(all_in_state(run.blocked, TaskStatus::Blocked));
    let after = scheduler.cycled(now);
    if begun.dispatch_result(now) is Ok {
        let freed = run.blocked.filter(free());
        let kept = run.blocked.filter(held());
        assert forall|j: int| 0 <= j < freed.len() implies is_blocked(#[trigger] freed[j]) by {
            assert(freed.contains(freed[j]));
            run.blocked.lemma_filter_contains_rev(free(), freed[j]);
        }
        assert forall|j: int| 0 <= j < kept.len() implies is_blocked(#[trigger] kept[j]) by {
            assert(kept.contains(kept[j]));
            run.blocked.lemma_filter_contains_rev(held(), kept[j]);
        }
        lemma_admission_keeps(freed, run.ready, run.queue_size, is_blocked, is_ready);
        lemma_admission_shape(freed, run.ready, run.queue_size);
        let (left, filled) = admission(freed, run.ready, run.queue_size);
        assert forall|j: int| 0 <= j < after.ready.len() implies (#[trigger] after.ready[j]).context.state
            == TaskStatus::Ready by {
            if j < run.ready.len() {
                assert(after.ready.subrange(0, run.ready.len() as int)[j] == after.ready[j]);
            }
        }
        assert forall|j: int| 0 <= j < after.blocked.len() implies (#[trigger] after.blocked[j]).context.state
            == TaskStatus::Blocked by {
            if j < kept.len() {
                assert(is_blocked(kept[j]));
            } else {
                assert(is_blocked(left[j - kept.len()]));
            }
        }
    }
    assert forall|status: TaskStatus| all_in_state(#[trigger] after.queue(status), status) by {
        match status {
            TaskStatus::New => {},
            TaskStatus::Ready => {},
            TaskStatus::Running => {},
            TaskStatus::Blocked => {},
            TaskStatus::Exited => {},
            TaskStatus::Suspended => {},
        }
    }
}

/// Whether nothing is pending for any task of a queue.
pub open spec fn all_free(queue: Seq<TaskView>) -> bool {
    forall|j: int| 0 <= j < queue.len() ==> (#[trigger] queue[j]).context.is_free()
}

/// A task with a pending condition is blocked: where nothing is pending for
/// the new and the ready tasks, the same holds after a cycle. The blocked
/// queue is where the tasks with pending conditions are, together with those
/// whose conditions are resolved and that wait for room in the ready queue.
pub proof fn lemma_pending_tasks_are_blocked(scheduler: SchedulerView, now: u64)
    requires
        all_free(scheduler.new),
        all_free(scheduler.ready),
    ensures
        all_free(scheduler.cycled(now).new),
        all_free(scheduler.cycled(now).ready),
{
    let is_free = |task: TaskView| task.context.is_free();
    let solved = scheduler.resolved(now);
    lemma_admission_keeps(solved.new, solved.ready, solved.queue_size, is_free, is_free);
    lemma_admission_shape(solved.new, solved.ready, solved.queue_size);
    let begun = solved.admitted();
    assert(all_free(begun.new)) by {
        assert forall|j: int| 0 <= j < begun.new.len() implies (#[trigger] begun.new[j]).context.is_free() by {
            assert(is_free(begun.new[j]));
        }
    }
    assert(all_free(begun.ready)) by {
        assert forall|j: int| 0 <= j < begun.ready.len() implies (#[trigger] begun.ready[j]).context.is_free() by {
            if j < solved.ready.len() {
                assert(begun.ready.subrange(0, solved.ready.len() as int)[j] == begun.ready[j]);
            } else {
                assert(is_free(begun.ready[j]));
            }
        }
    }
    let run = begun.dispatched(now);
    if begun.ready.len() > 0 {
        lemma_next_exists(begun.ready);
    }
    assert(all_free(run.ready));
    if begun.dispatch_result(now) is Ok {
        lemma_promotion_needs_room(run);
        let after = run.promoted();
        assert forall|j: int| 0 <= j < after.ready.len() implies (#[trigger] after.ready[j]).context.is_free() by {
            if j < run.ready.len() {
                assert(after.ready.subrange(0, run.ready.len() as int)[j] == after.ready[j]);
            }
        }
    }
}

/// A cycle loses no task but the one that exits or whose step fails: the
/// new, ready and blocked queues together hold one task less after a cycle
/// that reports an exit or fails, and as many as before after any other.
pub proof fn lemma_cycle_loses_only_the_exited(scheduler: SchedulerView, now: u64)
    ensures
        ({
            let before = scheduler.new.len() + scheduler.ready.len() + scheduler.blocked.len();
            let after = scheduler.cycled(now).new.len() + scheduler.cycled(now).ready.len()
                + scheduler.cycled(now).blocked.len();
            match scheduler.cycle_result(now) {
                Err(_) => after == before - 1,
                Ok(Some(report)) => if report.status == TaskStatus::Exited {
                    after == before - 1
                } else {
                    after == before
                },
                Ok(None) => after == before,
            }
        }),
        scheduler.cycled(now).running == scheduler.running,
        scheduler.cycled(now).exited == scheduler.exited,
        scheduler.cycled(now).suspended == scheduler.suspended,
        scheduler.cycled(now).queue_size == scheduler.queue_size,
        scheduler.cycled(now).pool == scheduler.pool,
{
    let solved = scheduler.resolved(now);
    lemma_admission_shape(solved.new, solved.ready, solved.queue_size);
    let begun = solved.admitted();
    let run = begun.dispatched(now);
    if begun.ready.len() > 0 {
        lemma_next_exists(begun.ready);
    }
    if begun.dispatch_result(now) is Ok {
        lemma_promotion_needs_room(run);
    }
}

} // verus!
