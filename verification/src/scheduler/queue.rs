use crate::task::status::TaskStatus;
use crate::task::task::{Task, TaskView};
use vstd::prelude::*;

verus! {

/// What the tasks of a queue hold, in the order of the queue.
pub open spec fn views(queue: Seq<Task>) -> Seq<TaskView> {
    queue.map_values(|task: Task| task@)
}

/// The byte by which the task at place `i` of a queue is ranked.
pub open spec fn rank(queue: Seq<TaskView>, i: int) -> u8 {
    queue[i].context.priority.value()
}

/// Whether the task at place `i` is the one to take from a queue: no task of
/// the queue has a higher priority, and of those with the same priority it is
/// the last.
pub open spec fn is_next(queue: Seq<TaskView>, i: int) -> bool {
    &&& 0 <= i < queue.len()
    &&& forall|j: int| 0 <= j < queue.len() ==> #[trigger] rank(queue, j) <= rank(queue, i)
    &&& forall|j: int| i < j < queue.len() ==> #[trigger] rank(queue, j) < rank(queue, i)
}

/// The place of the task to take from a queue that is not empty.
pub open spec fn next(queue: Seq<TaskView>) -> int {
    choose|i: int| is_next(queue, i)
}

/// A queue has at most one task to take.
pub proof fn lemma_next_unique(queue: Seq<TaskView>, i: int, j: int)
    requires
        is_next(queue, i),
        is_next(queue, j),
    ensures
        i == j,
{
    if i < j {
        assert(rank(queue, j) < rank(queue, i));
        assert(rank(queue, i) <= rank(queue, j));
    } else if j < i {
        assert(rank(queue, i) < rank(queue, j));
        assert(rank(queue, j) <= rank(queue, i));
    }
}

/// A queue that is not empty has a task to take, and `next` names it.
pub proof fn lemma_next_exists(queue: Seq<TaskView>)
    requires
        queue.len() > 0,
    ensures
        is_next(queue, next(queue)),
    decreases queue.len(),
{
    if queue.len() == 1 {
        assert(is_next(queue, 0));
    } else {
        let front = queue.drop_last();
        lemma_next_exists(front);
        let best = next(front);
        let last = queue.len() - 1;
        assert forall|j: int| 0 <= j < front.len() implies rank(front, j) == rank(queue, j) by {}
        if rank(queue, last) >= rank(queue, best) {
            assert forall|j: int| 0 <= j < queue.len() implies #[trigger] rank(queue, j) <= rank(
                queue,
                last,
            ) by {
                if j < last {
                    assert(rank(front, j) <= rank(front, best));
                }
            }
            assert(is_next(queue, last));
        } else {
            assert forall|j: int| 0 <= j < queue.len() implies #[trigger] rank(queue, j) <= rank(
                queue,
                best,
            ) by {
                if j < last {
                    assert(rank(front, j) <= rank(front, best));
                }
            }
            assert forall|j: int| best < j < queue.len() implies #[trigger] rank(queue, j) < rank(
                queue,
                best,
            ) by {
                if j < last {
                    assert(rank(front, j) < rank(front, best));
                }
            }
            assert(is_next(queue, best));
        }
    }
}

/// Finds the task to take from a queue, if the queue holds one.
pub fn select(queue: &Vec<Task>) -> (place: Option<usize>)
    ensures
        queue.len() == 0 <==> place is None,
        place matches Some(i) ==> i == next(views(queue@)) && i < queue.len(),
{
    if queue.len() == 0 {
        return None;
    }
    let ghost all = views(queue@);
    let mut best: usize = 0;
    let mut best_rank: u8 = queue[0].context().priority().byte();
    let mut j: usize = 1;
    while j < queue.len()
        invariant
            all == views(queue@),
            1 <= j <= queue.len(),
            best < j,
            best_rank == rank(all, best as int),
            forall|k: int| 0 <= k < j ==> #[trigger] rank(all, k) <= rank(all, best as int),
            forall|k: int| best < k < j ==> #[trigger] rank(all, k) < rank(all, best as int),
        decreases queue.len() - j,
    {
        let r: u8 = queue[j].context().priority().byte();
        if r >= best_rank {
            best = j;
            best_rank = r;
        }
        j += 1;
    }
    proof {
        assert(is_next(all, best as int));
        lemma_next_exists(all);
        lemma_next_unique(all, best as int, next(all));
    }
    Some(best)
}

/// Admission into a bounded queue: while `ready` holds fewer than `capacity`
/// tasks and one is waiting, the task to take from `waiting` leaves it and
/// joins the end of `ready` with status `Ready`. Gives what is left waiting,
/// and the ready queue.
pub open spec fn admission(waiting: Seq<TaskView>, ready: Seq<TaskView>, capacity: nat) -> (
    Seq<TaskView>,
    Seq<TaskView>,
)
    decreases waiting.len(),
{
    if ready.len() >= capacity || waiting.len() == 0 {
        (waiting, ready)
    } else {
        proof {
            lemma_next_exists(waiting);
        }
        let i = next(waiting);
        admission(waiting.remove(i), ready.push(waiting[i].in_state(TaskStatus::Ready)), capacity)
    }
}

/// Moves tasks from `waiting` into `ready` as [`admission`] says.
pub fn fill_ready(waiting: &mut Vec<Task>, ready: &mut Vec<Task>, capacity: usize)
    ensures
        (views(final(waiting)@), views(final(ready)@)) == admission(
            views(old(waiting)@),
            views(old(ready)@),
            capacity as nat,
        ),
{
    while ready.len() < capacity
        invariant
            admission(views(waiting@), views(ready@), capacity as nat) == admission(
                views(old(waiting)@),
                views(old(ready)@),
                capacity as nat,
            ),
        decreases waiting.len(),
    {
        let ghost before_waiting = views(waiting@);
        let ghost before_ready = views(ready@);
        match select(waiting) {
            None => {
                return ;
            },
            Some(i) => {
                let mut task = waiting.remove(i);
                task.context_mut().set_state(TaskStatus::Ready);
                ready.push(task);
                proof {
                    assert(views(waiting@) =~= before_waiting.remove(i as int));
                    assert(views(ready@) =~= before_ready.push(
                        before_waiting[i as int].in_state(TaskStatus::Ready),
                    ));
                }
            },
        }
    }
}

/// A blocked queue once the clock reads `now`: each task has lost the pending
/// conditions that are resolved by then.
pub open spec fn resolved_at(queue: Seq<TaskView>, now: u64) -> Seq<TaskView> {
    queue.map_values(|task: TaskView| task.resolved(now))
}

/// Resolves the pending conditions of every task of a blocked queue.
pub fn resolve_all(blocked: &mut Vec<Task>, now: u64)
    ensures
        views(final(blocked)@) == resolved_at(views(old(blocked)@), now),
{
    let mut i: usize = 0;
    while i < blocked.len()
        invariant
            i <= blocked.len(),
            blocked.len() == old(blocked).len(),
            forall|k: int| 0 <= k < i ==> (#[trigger] blocked@[k])@ == old(blocked)@[k]@.resolved(now),
            forall|k: int| i <= k < blocked.len() ==> #[trigger] blocked@[k] == old(blocked)@[k],
        decreases blocked.len() - i,
    {
        blocked[i].resolve(now);
        i += 1;
    }
    proof {
        assert(views(blocked@) =~= resolved_at(views(old(blocked)@), now));
    }
}

/// The tasks that may leave a blocked queue: nothing is pending for them.
pub open spec fn free() -> spec_fn(TaskView) -> bool {
    |task: TaskView| task.context.is_free()
}

/// The tasks that have to stay in a blocked queue.
pub open spec fn held() -> spec_fn(TaskView) -> bool {
    |task: TaskView| !task.context.is_free()
}

/// Parts a blocked queue in two: the free tasks are handed out, the others
/// stay, both in their order.
pub fn take_free(blocked: &mut Vec<Task>) -> (freed: Vec<Task>)
    ensures
        views(freed@) == views(old(blocked)@).filter(free()),
        views(final(blocked)@) == views(old(blocked)@).filter(held()),
{
    let mut all: Vec<Task> = Vec::new();
    core::mem::swap(blocked, &mut all);
    let mut freed: Vec<Task> = Vec::new();
    let ghost total = views(all@);
    for task in it: all
        invariant
            total == views(it.seq()),
            views(freed@) == total.take(it.index() as int).filter(free()),
            views(blocked@) == total.take(it.index() as int).filter(held()),
    {
        proof {
            let seen = total.take(it.index() as int);
            assert(total.take(it.index() + 1) == seen.push(task@));
            seen.lemma_filter_push(task@, free());
            seen.lemma_filter_push(task@, held());
        }
        if task.context().is_free() {
            freed.push(task);
        } else {
            blocked.push(task);
        }
    }
    proof {
        assert(total.take(total.len() as int) == total);
    }
    freed
}

} // verus!
