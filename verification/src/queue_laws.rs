//! What holds of the task queue over every sequence of operations.
//!
//! The operations are gathered into one transition function on the queue's
//! view, and the laws are proved by induction over sequences of them: ids
//! only grow, the structural invariants are kept, dispatch is first in first
//! out, the concurrency cap holds, and a task is claimed at most once.

use crate::progress::{progress_of, within_unit};
use crate::task_queue::{
    first, first_from, fresh_task, keep, keep_last, keeps_invariants, last_before, retried,
    running_count, taker, with_line, with_status, QueueView, Select, StatusView, TaskType, TaskView,
};
use crate::worker::append_lines;
use vstd::prelude::*;

verus! {

/// One operation on the queue, with its arguments.
pub enum QueueOp {
    Enqueue { task_type: TaskType, package_name: Seq<char> },
    SetStatus { id: usize, status: StatusView, now: u64 },
    Append { id: usize, line: Seq<char>, limit: usize },
    ClearCompleted,
    Claim { now: u64 },
    CancelQueued { id: usize },
    MoveUp { id: usize },
    MoveDown { id: usize },
    RunNow { id: usize },
    RequestCancel { id: usize, limit: usize },
    TakeCancel { id: usize },
    AutoClear { minutes: u64, now: u64 },
    Retry { id: usize },
    Finalize { id: usize, outcome: Result<(), Seq<char>>, now: u64 },
    Tick { cap: usize, minutes: u64, now: u64 },
}

/// One turn of the scheduler: old ended tasks are cleared, and the first
/// queued task is claimed unless `cap` tasks run already.
pub open spec fn tick(q: QueueView, cap: usize, minutes: u64, now: u64) -> QueueView {
    let cleared = q.auto_clear(minutes, now);
    if cleared.running() >= cap {
        cleared
    } else {
        cleared.claim(now)
    }
}

/// The queue after one operation.
pub open spec fn step(q: QueueView, op: QueueOp) -> QueueView {
    match op {
        QueueOp::Enqueue { task_type, package_name } => q.enqueue(task_type, package_name),
        QueueOp::SetStatus { id, status, now } => q.set_status(id, status, now),
        QueueOp::Append { id, line, limit } => q.append(id, line, limit),
        QueueOp::ClearCompleted => q.retain(Select::Live),
        QueueOp::Claim { now } => q.claim(now),
        QueueOp::CancelQueued { id } => q.retain(Select::NotQueuedId(id)),
        QueueOp::MoveUp { id } => q.move_up(id),
        QueueOp::MoveDown { id } => q.move_down(id),
        QueueOp::RunNow { id } => q.run_now(id),
        QueueOp::RequestCancel { id, limit } => q.request_cancel(id, limit),
        QueueOp::TakeCancel { id } => q.take_cancel(id),
        QueueOp::AutoClear { minutes, now } => q.auto_clear(minutes, now),
        QueueOp::Retry { id } => q.retry(id),
        QueueOp::Finalize { id, outcome, now } => q.finalize(id, outcome, now),
        QueueOp::Tick { cap, minutes, now } => tick(q, cap, minutes, now),
    }
}

/// The id of the task that the operation claims, if it claims one.
pub open spec fn claimed_by(q: QueueView, op: QueueOp) -> Option<usize> {
    match op {
        QueueOp::Claim { now } => match q.claimed(now) {
            Some(t) => Some(t.id),
            None => None,
        },
        QueueOp::Tick { cap, minutes, now } => {
            let cleared = q.auto_clear(minutes, now);
            if cleared.running() >= cap {
                None
            } else {
                match cleared.claimed(now) {
                    Some(t) => Some(t.id),
                    None => None,
                }
            }
        },
        _ => None,
    }
}

/// Whether the operation hands out an id.
pub open spec fn allocates(q: QueueView, op: QueueOp) -> bool {
    match op {
        QueueOp::Enqueue { .. } => true,
        QueueOp::Retry { id } => q.failed_at(id) is Some,
        _ => false,
    }
}

/// Whether every operation of `ops`, applied in turn from `q`, finds an id
/// left to hand out where it needs one.
pub open spec fn within_limits(q: QueueView, ops: Seq<QueueOp>) -> bool
    decreases ops.len(),
{
    if ops.len() == 0 {
        true
    } else {
        (allocates(q, ops[0]) ==> q.next_id < usize::MAX) && within_limits(
            step(q, ops[0]),
            ops.drop_first(),
        )
    }
}

/// The queue after the operations of `ops`, applied in turn.
pub open spec fn run(q: QueueView, ops: Seq<QueueOp>) -> QueueView
    decreases ops.len(),
{
    if ops.len() == 0 {
        q
    } else {
        run(step(q, ops[0]), ops.drop_first())
    }
}

/// The ids of the tasks claimed while `ops` are applied in turn from `q`, in
/// the order of the claims.
pub open spec fn claims(q: QueueView, ops: Seq<QueueOp>) -> Seq<usize>
    decreases ops.len(),
{
    if ops.len() == 0 {
        Seq::empty()
    } else {
        let rest = claims(step(q, ops[0]), ops.drop_first());
        match claimed_by(q, ops[0]) {
            Some(id) => seq![id] + rest,
            None => rest,
        }
    }
}

/// What the first position found holds: it is in range, `sel` takes its
/// task, and `sel` takes no task between `from` and it.
pub proof fn lemma_first_from(tasks: Seq<TaskView>, sel: Select, from: int)
    requires
        0 <= from,
    ensures
        match first_from(tasks, sel, from) {
            Some(at) => from <= at < tasks.len() && sel.takes(tasks[at]) && forall|j: int|
                from <= j < at ==> !sel.takes(#[trigger] tasks[j]),
            None => forall|j: int| from <= j < tasks.len() ==> !sel.takes(#[trigger] tasks[j]),
        },
    decreases tasks.len() - from,
{
    if from < tasks.len() && !sel.takes(tasks[from]) {
        lemma_first_from(tasks, sel, from + 1);
    }
}

/// What the last position found holds: it is in range, `sel` takes its task,
/// and `sel` takes no task between it and `before`.
pub proof fn lemma_last_before(tasks: Seq<TaskView>, sel: Select, before: int)
    requires
        before <= tasks.len(),
    ensures
        match last_before(tasks, sel, before) {
            Some(at) => 0 <= at < before && sel.takes(tasks[at]) && forall|j: int|
                at < j < before ==> !sel.takes(#[trigger] tasks[j]),
            None => forall|j: int| 0 <= j < before ==> !sel.takes(#[trigger] tasks[j]),
        },
    decreases before,
{
    if before > 0 && !sel.takes(tasks[before - 1]) {
        lemma_last_before(tasks, sel, before - 1);
    }
}

/// Every task that `keep` leaves was there before, and the order of those
/// left is the order they had: the task at `i` came from a position
/// `origin(i)` that grows with `i`.
pub proof fn lemma_keep_origin(tasks: Seq<TaskView>, sel: Select) -> (origin: Seq<int>)
    ensures
        origin.len() == keep(tasks, sel).len(),
        forall|i: int|
            0 <= i < origin.len() ==> 0 <= #[trigger] origin[i] < tasks.len() && keep(
                tasks,
                sel,
            )[i] == tasks[origin[i]] && sel.takes(tasks[origin[i]]),
        forall|i: int, j: int|
            0 <= i < j < origin.len() ==> #[trigger] origin[i] < #[trigger] origin[j],
        forall|k: int|
            0 <= k < tasks.len() && sel.takes(tasks[k]) ==> exists|i: int|
                0 <= i < origin.len() && origin[i] == k,
    decreases tasks.len(),
{
    if tasks.len() == 0 {
        assert(keep(tasks, sel) =~= Seq::empty()) by {
            reveal(Seq::filter);
        }
        Seq::empty()
    } else {
        let init = tasks.drop_last();
        let last = tasks.last();
        let inner = lemma_keep_origin(init, sel);
        assert(tasks =~= init.push(last));
        init.lemma_filter_push(last, taker(sel));
        if sel.takes(last) {
            let origin = inner.push(tasks.len() - 1);
            assert forall|k: int| 0 <= k < tasks.len() && sel.takes(tasks[k]) implies exists|
                i: int,
            |
                0 <= i < origin.len() && origin[i] == k by {
                if k < tasks.len() - 1 {
                    assert(sel.takes(init[k]));
                    let i = choose|i: int| 0 <= i < inner.len() && inner[i] == k;
                    assert(origin[i] == k);
                } else {
                    assert(origin[origin.len() - 1] == k);
                }
            }
            origin
        } else {
            assert forall|k: int| 0 <= k < tasks.len() && sel.takes(tasks[k]) implies exists|
                i: int,
            |
                0 <= i < inner.len() && inner[i] == k by {
                assert(sel.takes(init[k]));
            }
            inner
        }
    }
}

/// One elementary change of the queue. Every operation is at most two of
/// them in a row.
pub enum Prim {
    /// No change.
    Skip,
    /// A fresh task at the tail, under the next id.
    Push { task_type: TaskType, package_name: Seq<char> },
    /// One more line of output for the task at a position.
    Line { at: int, line: Seq<char>, limit: usize },
    /// A new status for the task at a position.
    Status { at: int, status: StatusView, now: u64 },
    /// Only the tasks that a choice takes.
    Retain { sel: Select },
    /// Two queued tasks exchanged.
    Swap { a: int, b: int },
    /// A queued task moved forward to the place of another.
    Shift { at: int, head: int },
    /// Another set of pending requests to cancel.
    Pending { ids: Set<usize> },
}

/// The queue after one elementary change.
pub open spec fn apply(q: QueueView, p: Prim) -> QueueView {
    match p {
        Prim::Skip => q,
        Prim::Push { task_type, package_name } => q.enqueue(task_type, package_name),
        Prim::Line { at, line, limit } => q.put(at, with_line(q.tasks[at], line, limit)),
        Prim::Status { at, status, now } => q.put(at, with_status(q.tasks[at], status, now)),
        Prim::Retain { sel } => q.retain(sel),
        Prim::Swap { a, b } => q.swap(a, b),
        Prim::Shift { at, head } => QueueView {
            tasks: q.tasks.remove(at).insert(head, q.tasks[at]),
            ..q
        },
        Prim::Pending { ids } => QueueView { cancel_requested: ids, ..q },
    }
}

/// Whether an elementary change fits the queue: its positions are in range,
/// an id is left to hand out, tasks that change places are queued, and a
/// choice of tasks to keep takes every task that has not ended and is not
/// queued.
pub open spec fn fits(q: QueueView, p: Prim) -> bool {
    match p {
        Prim::Skip => true,
        Prim::Push { .. } => q.next_id < usize::MAX,
        Prim::Line { at, .. } => 0 <= at < q.tasks.len(),
        Prim::Status { at, .. } => 0 <= at < q.tasks.len(),
        Prim::Retain { sel } => sel is Live || sel is NotQueuedId || sel is Since,
        Prim::Swap { a, b } => 0 <= a < q.tasks.len() && 0 <= b < q.tasks.len() && a != b
            && q.tasks[a].status is Queued && q.tasks[b].status is Queued,
        Prim::Shift { at, head } => 0 <= head < at < q.tasks.len()
            && q.tasks[at].status is Queued && q.tasks[head].status is Queued,
        Prim::Pending { .. } => true,
    }
}

/// A new status for the task with this id, or no change where no task has it.
pub open spec fn status_part(q: QueueView, id: usize, status: StatusView, now: u64) -> Prim {
    match first(q.tasks, Select::Id(id)) {
        Some(at) => Prim::Status { at, status, now },
        None => Prim::Skip,
    }
}

/// One more line for the task with this id, or no change where no task has it.
pub open spec fn line_part(q: QueueView, id: usize, line: Seq<char>, limit: usize) -> Prim {
    match first(q.tasks, Select::Id(id)) {
        Some(at) => Prim::Line { at, line, limit },
        None => Prim::Skip,
    }
}

/// The first queued task made running, or no change where none waits.
pub open spec fn claim_part(q: QueueView, now: u64) -> Prim {
    match first(q.tasks, Select::Queued) {
        Some(at) => Prim::Status { at, status: StatusView::Running, now },
        None => Prim::Skip,
    }
}

/// Old ended tasks cleared, or no change where the retention is 0 minutes.
pub open spec fn clear_part(minutes: u64, now: u64) -> Prim {
    if minutes == 0 {
        Prim::Skip
    } else {
        Prim::Retain { sel: Select::Since(QueueView::cutoff(minutes, now)) }
    }
}

/// The two elementary changes that make up an operation.
pub open spec fn parts(q: QueueView, op: QueueOp) -> (Prim, Prim) {
    match op {
        QueueOp::Enqueue { task_type, package_name } => (
            Prim::Push { task_type, package_name },
            Prim::Skip,
        ),
        QueueOp::SetStatus { id, status, now } => (status_part(q, id, status, now), Prim::Skip),
        QueueOp::Append { id, line, limit } => (line_part(q, id, line, limit), Prim::Skip),
        QueueOp::ClearCompleted => (Prim::Retain { sel: Select::Live }, Prim::Skip),
        QueueOp::Claim { now } => (claim_part(q, now), Prim::Skip),
        QueueOp::CancelQueued { id } => (Prim::Retain { sel: Select::NotQueuedId(id) }, Prim::Skip),
        QueueOp::MoveUp { id } => match q.up_pair(id) {
            Some((at, prev)) => (Prim::Swap { a: at, b: prev }, Prim::Skip),
            None => (Prim::Skip, Prim::Skip),
        },
        QueueOp::MoveDown { id } => match q.down_pair(id) {
            Some((at, next)) => (Prim::Swap { a: at, b: next }, Prim::Skip),
            None => (Prim::Skip, Prim::Skip),
        },
        QueueOp::RunNow { id } => match q.front_pair(id) {
            Some((at, head)) => (Prim::Shift { at, head }, Prim::Skip),
            None => (Prim::Skip, Prim::Skip),
        },
        QueueOp::RequestCancel { id, limit } => if q.is_running(id) {
            (
                Prim::Pending { ids: q.cancel_requested.insert(id) },
                line_part(q, id, crate::task_queue::cancel_notice(), limit),
            )
        } else {
            (Prim::Skip, Prim::Skip)
        },
        QueueOp::TakeCancel { id } => (
            Prim::Pending { ids: q.cancel_requested.remove(id) },
            Prim::Skip,
        ),
        QueueOp::AutoClear { minutes, now } => (clear_part(minutes, now), Prim::Skip),
        QueueOp::Retry { id } => match q.failed_at(id) {
            Some(at) => (
                Prim::Push {
                    task_type: q.tasks[at].task_type,
                    package_name: q.tasks[at].package_name,
                },
                Prim::Skip,
            ),
            None => (Prim::Skip, Prim::Skip),
        },
        QueueOp::Finalize { id, outcome, now } => (
            Prim::Pending { ids: q.cancel_requested.remove(id) },
            status_part(q, id, q.final_status(id, outcome), now),
        ),
        QueueOp::Tick { cap, minutes, now } => {
            let cleared = apply(q, clear_part(minutes, now));
            (
                clear_part(minutes, now),
                if cleared.running() >= cap {
                    Prim::Skip
                } else {
                    claim_part(cleared, now)
                },
            )
        },
    }
}

/// An operation is its two elementary changes in a row, and each fits the
/// queue it meets.
#[verifier::rlimit(40)]
pub proof fn lemma_parts(q: QueueView, op: QueueOp)
    requires
        allocates(q, op) ==> q.next_id < usize::MAX,
    ensures
        step(q, op) == apply(apply(q, parts(q, op).0), parts(q, op).1),
        fits(q, parts(q, op).0),
        fits(apply(q, parts(q, op).0), parts(q, op).1),
{
    match op {
        QueueOp::SetStatus { id, .. } => {
            lemma_first_from(q.tasks, Select::Id(id), 0);
        },
        QueueOp::Append { id, .. } => {
            lemma_first_from(q.tasks, Select::Id(id), 0);
        },
        QueueOp::Claim { .. } => {
            lemma_first_from(q.tasks, Select::Queued, 0);
        },
        QueueOp::MoveUp { id } => {
            lemma_first_from(q.tasks, Select::QueuedId(id), 0);
            if first(q.tasks, Select::QueuedId(id)) is Some {
                lemma_last_before(q.tasks, Select::Queued, first(q.tasks, Select::QueuedId(id))->0);
            }
        },
        QueueOp::MoveDown { id } => {
            lemma_first_from(q.tasks, Select::QueuedId(id), 0);
            if first(q.tasks, Select::QueuedId(id)) is Some {
                lemma_first_from(
                    q.tasks,
                    Select::Queued,
                    first(q.tasks, Select::QueuedId(id))->0 + 1,
                );
            }
        },
        QueueOp::RunNow { id } => {
            lemma_first_from(q.tasks, Select::QueuedId(id), 0);
            lemma_first_from(q.tasks, Select::Queued, 0);
        },
        QueueOp::RequestCancel { id, .. } => {
            lemma_first_from(q.tasks, Select::Id(id), 0);
        },
        QueueOp::Retry { id } => {
            lemma_first_from(q.tasks, Select::Id(id), 0);
        },
        QueueOp::Finalize { id, .. } => {
            lemma_first_from(q.tasks, Select::Id(id), 0);
        },
        QueueOp::Tick { minutes, now, .. } => {
            lemma_first_from(apply(q, clear_part(minutes, now)).tasks, Select::Queued, 0);
        },
        _ => {},
    }
}

/// Keeping some of the tasks keeps the ids apart and below the next id.
pub proof fn lemma_retain_wf(q: QueueView, sel: Select)
    requires
        q.wf(),
    ensures
        q.retain(sel).wf(),
{
    let origin = lemma_keep_origin(q.tasks, sel);
    let kept = q.retain(sel);
    assert forall|i: int| 0 <= i < kept.tasks.len() implies (#[trigger] kept.tasks[i]).id
        < kept.next_id by {
        assert(kept.tasks[i] == q.tasks[origin[i]]);
    }
    assert forall|i: int, j: int| 0 <= i < j < kept.tasks.len() implies (
    #[trigger] kept.tasks[i]).id != (#[trigger] kept.tasks[j]).id by {
        assert(kept.tasks[i] == q.tasks[origin[i]]);
        assert(kept.tasks[j] == q.tasks[origin[j]]);
        assert(origin[i] < origin[j]);
    }
}

/// An elementary change that fits keeps the ids apart and below the next
/// id, and hands out no id twice.
pub proof fn lemma_apply_wf(q: QueueView, p: Prim)
    requires
        q.wf(),
        fits(q, p),
    ensures
        apply(q, p).wf(),
        apply(q, p).next_id >= q.next_id,
        p is Push ==> apply(q, p).next_id > q.next_id,
{
    match p {
        Prim::Retain { sel } => {
            lemma_retain_wf(q, sel);
        },
        Prim::Shift { at, head } => {
            let r = apply(q, p).tasks;
            assert forall|i: int| 0 <= i < r.len() implies exists|k: int|
                0 <= k < q.tasks.len() && #[trigger] r[i] == q.tasks[k] && k == shift_origin(
                    at,
                    head,
                    i,
                ) by {
                assert(r[i] == q.tasks[shift_origin(at, head, i)]);
            }
            assert forall|i: int, j: int| 0 <= i < j < r.len() implies (#[trigger] r[i]).id != (
            #[trigger] r[j]).id by {
                assert(r[i] == q.tasks[shift_origin(at, head, i)]);
                assert(r[j] == q.tasks[shift_origin(at, head, j)]);
            }
            assert forall|i: int| 0 <= i < r.len() implies (#[trigger] r[i]).id < q.next_id by {
                assert(r[i] == q.tasks[shift_origin(at, head, i)]);
            }
        },
        _ => {},
    }
}

/// Where the task at position `i` stood before the task at `at` moved
/// forward to `head`.
pub open spec fn shift_origin(at: int, head: int, i: int) -> int {
    if i < head {
        i
    } else if i == head {
        at
    } else if i <= at {
        i - 1
    } else {
        i
    }
}

/// Each operation keeps the ids apart and below the next id, and the next
/// id never falls, as long as an id is left where one is handed out.
#[verifier::rlimit(40)]
pub proof fn lemma_step_wf(q: QueueView, op: QueueOp)
    requires
        q.wf(),
        allocates(q, op) ==> q.next_id < usize::MAX,
    ensures
        step(q, op).wf(),
        step(q, op).next_id >= q.next_id,
        allocates(q, op) ==> step(q, op).next_id > q.next_id,
{
    lemma_parts(q, op);
    lemma_apply_wf(q, parts(q, op).0);
    lemma_apply_wf(apply(q, parts(q, op).0), parts(q, op).1);
}

/// 1 for a running task, 0 for another.
pub open spec fn running_one(t: TaskView) -> nat {
    if t.status is Running {
        1
    } else {
        0
    }
}

/// The running tasks of two sequences in a row are those of the one and
/// those of the other.
pub proof fn lemma_running_count_add(a: Seq<TaskView>, b: Seq<TaskView>)
    ensures
        running_count(a + b) == running_count(a) + running_count(b),
    decreases b.len(),
{
    if b.len() == 0 {
        assert(a + b =~= a);
    } else {
        assert((a + b).drop_last() =~= a + b.drop_last());
        lemma_running_count_add(a, b.drop_last());
    }
}

/// The running tasks are those before a position, the task at it if it
/// runs, and those after it.
pub proof fn lemma_running_count_at(tasks: Seq<TaskView>, at: int)
    requires
        0 <= at < tasks.len(),
    ensures
        running_count(tasks) == running_count(tasks.take(at)) + running_one(tasks[at])
            + running_count(tasks.skip(at + 1)),
{
    let one = seq![tasks[at]];
    assert(one =~= Seq::<TaskView>::empty().push(tasks[at]));
    crate::task_queue::lemma_running_count_push(Seq::empty(), tasks[at]);
    assert(running_count(Seq::<TaskView>::empty()) == 0);
    assert(running_count(one) == running_one(tasks[at]));
    assert(tasks =~= (tasks.take(at) + one) + tasks.skip(at + 1));
    lemma_running_count_add(tasks.take(at) + one, tasks.skip(at + 1));
    lemma_running_count_add(tasks.take(at), one);
}

/// Replacing a task changes the count of running tasks by what the old and
/// the new task count.
pub proof fn lemma_running_count_update(tasks: Seq<TaskView>, at: int, t: TaskView)
    requires
        0 <= at < tasks.len(),
    ensures
        running_count(tasks.update(at, t)) + running_one(tasks[at]) == running_count(tasks)
            + running_one(t),
{
    let next = tasks.update(at, t);
    lemma_running_count_at(tasks, at);
    lemma_running_count_at(next, at);
    assert(next.take(at) =~= tasks.take(at));
    assert(next.skip(at + 1) =~= tasks.skip(at + 1));
}

/// Keeping some of the tasks does not raise the count of running tasks.
pub proof fn lemma_running_count_keep(tasks: Seq<TaskView>, sel: Select)
    ensures
        running_count(keep(tasks, sel)) <= running_count(tasks),
    decreases tasks.len(),
{
    if tasks.len() == 0 {
        assert(keep(tasks, sel) =~= Seq::empty()) by {
            reveal(Seq::filter);
        }
    } else {
        let init = tasks.drop_last();
        assert(tasks =~= init.push(tasks.last()));
        init.lemma_filter_push(tasks.last(), taker(sel));
        lemma_running_count_keep(init, sel);
        crate::task_queue::lemma_running_count_push(keep(init, sel), tasks.last());
    }
}

/// An elementary change raises the count of running tasks only by making a
/// task running that was not, and then by one.
pub proof fn lemma_apply_running(q: QueueView, p: Prim)
    requires
        fits(q, p),
    ensures
        match p {
            Prim::Status { at, status, .. } => apply(q, p).running() + running_one(q.tasks[at])
                == q.running() + if status is Running {
                1nat
            } else {
                0nat
            },
            Prim::Retain { .. } => apply(q, p).running() <= q.running(),
            _ => apply(q, p).running() == q.running(),
        },
{
    match p {
        Prim::Skip => {},
        Prim::Push { task_type, package_name } => {
            crate::task_queue::lemma_running_count_push(
                q.tasks,
                fresh_task(q.next_id, task_type, package_name),
            );
        },
        Prim::Line { at, line, limit } => {
            lemma_running_count_update(q.tasks, at, with_line(q.tasks[at], line, limit));
        },
        Prim::Status { at, status, now } => {
            lemma_running_count_update(q.tasks, at, with_status(q.tasks[at], status, now));
        },
        Prim::Retain { sel } => {
            lemma_running_count_keep(q.tasks, sel);
        },
        Prim::Swap { a, b } => {
            lemma_running_count_update(q.tasks, a, q.tasks[b]);
            lemma_running_count_update(q.tasks.update(a, q.tasks[b]), b, q.tasks[a]);
        },
        Prim::Shift { at, head } => {
            let t = q.tasks[at];
            let rest = q.tasks.remove(at);
            lemma_running_count_at(q.tasks, at);
            assert(rest =~= q.tasks.take(at) + q.tasks.skip(at + 1));
            lemma_running_count_add(q.tasks.take(at), q.tasks.skip(at + 1));
            let moved = rest.insert(head, t);
            lemma_running_count_at(moved, head);
            assert(moved.take(head) =~= rest.take(head));
            assert(moved.skip(head + 1) =~= rest.skip(head));
            assert(rest =~= rest.take(head) + rest.skip(head));
            lemma_running_count_add(rest.take(head), rest.skip(head));
        },
        Prim::Pending { .. } => {},
    }
}

/// Whether the operation makes a task running by itself, without the
/// scheduler's check of the cap.
pub open spec fn starts_unchecked(op: QueueOp) -> bool {
    op is Claim || (op matches QueueOp::SetStatus { status, .. } && status is Running)
}

/// The concurrency cap: while the scheduler's turns are held to a cap of at
/// most `n`, and tasks are made running otherwise only while fewer than `n`
/// run, the count of running tasks never exceeds `n`.
#[verifier::rlimit(40)]
pub proof fn lemma_step_within_cap(q: QueueView, op: QueueOp, n: nat)
    requires
        q.running() <= n,
        op matches QueueOp::Tick { cap, .. } ==> cap <= n,
        starts_unchecked(op) ==> q.running() < n,
        allocates(q, op) ==> q.next_id < usize::MAX,
    ensures
        step(q, op).running() <= n,
{
    lemma_parts(q, op);
    lemma_apply_running(q, parts(q, op).0);
    lemma_apply_running(apply(q, parts(q, op).0), parts(q, op).1);
}

/// A scheduler's turn under cap `n` claims at most one task, and none
/// while `n` tasks run.
#[verifier::rlimit(40)]
pub proof fn lemma_tick_within_cap(q: QueueView, cap: usize, minutes: u64, now: u64)
    ensures
        tick(q, cap, minutes, now).running() <= if q.running() > cap {
            q.running()
        } else {
            cap as nat
        },
{
    let op = QueueOp::Tick { cap, minutes, now };
    lemma_parts(q, op);
    lemma_apply_running(q, parts(q, op).0);
    lemma_apply_running(apply(q, parts(q, op).0), parts(q, op).1);
}

/// An elementary change keeps a finishing time recorded exactly for the
/// tasks that have ended.
pub proof fn lemma_apply_finish_times(q: QueueView, p: Prim)
    requires
        q.finish_times_agree(),
        fits(q, p),
    ensures
        apply(q, p).finish_times_agree(),
{
    match p {
        Prim::Retain { sel } => {
            let origin = lemma_keep_origin(q.tasks, sel);
            let kept = q.retain(sel);
            assert forall|i: int| 0 <= i < kept.tasks.len() implies ((
            #[trigger] kept.tasks[i]).finished_at_unix is Some
                <==> kept.tasks[i].status.is_terminal()) by {
                assert(kept.tasks[i] == q.tasks[origin[i]]);
            }
        },
        Prim::Shift { at, head } => {
            let r = apply(q, p).tasks;
            assert forall|i: int| 0 <= i < r.len() implies ((
            #[trigger] r[i]).finished_at_unix is Some <==> r[i].status.is_terminal()) by {
                assert(r[i] == q.tasks[shift_origin(at, head, i)]);
            }
        },
        _ => {},
    }
}

/// Each operation keeps a finishing time recorded exactly for the tasks
/// that have ended.
#[verifier::rlimit(40)]
pub proof fn lemma_step_finish_times(q: QueueView, op: QueueOp)
    requires
        q.finish_times_agree(),
        allocates(q, op) ==> q.next_id < usize::MAX,
    ensures
        step(q, op).finish_times_agree(),
{
    lemma_parts(q, op);
    lemma_apply_finish_times(q, parts(q, op).0);
    lemma_apply_finish_times(apply(q, parts(q, op).0), parts(q, op).1);
}

/// An elementary change keeps every progress between 0 and 1.
pub proof fn lemma_apply_progress(q: QueueView, p: Prim)
    requires
        q.progress_in_range(),
        fits(q, p),
    ensures
        apply(q, p).progress_in_range(),
{
    match p {
        Prim::Retain { sel } => {
            let origin = lemma_keep_origin(q.tasks, sel);
            let kept = q.retain(sel);
            assert forall|i: int| 0 <= i < kept.tasks.len() implies match (
            #[trigger] kept.tasks[i]).progress {
                Some(f) => within_unit(f),
                None => true,
            } by {
                assert(kept.tasks[i] == q.tasks[origin[i]]);
            }
        },
        Prim::Shift { at, head } => {
            let r = apply(q, p).tasks;
            assert forall|i: int| 0 <= i < r.len() implies match (#[trigger] r[i]).progress {
                Some(f) => within_unit(f),
                None => true,
            } by {
                assert(r[i] == q.tasks[shift_origin(at, head, i)]);
            }
        },
        _ => {},
    }
}

/// Each operation keeps every progress between 0 and 1.
#[verifier::rlimit(40)]
pub proof fn lemma_step_progress(q: QueueView, op: QueueOp)
    requires
        q.progress_in_range(),
        allocates(q, op) ==> q.next_id < usize::MAX,
    ensures
        step(q, op).progress_in_range(),
{
    lemma_parts(q, op);
    lemma_apply_progress(q, parts(q, op).0);
    lemma_apply_progress(apply(q, parts(q, op).0), parts(q, op).1);
}

/// Each operation keeps what holds of the queue: ids apart and below the
/// next id, a finishing time exactly for the tasks that have ended, and
/// every progress between 0 and 1.
pub proof fn lemma_step_invariants(q: QueueView, op: QueueOp)
    requires
        allocates(q, op) ==> q.next_id < usize::MAX,
    ensures
        keeps_invariants(q, step(q, op)),
{
    if q.wf() {
        lemma_step_wf(q, op);
    }
    if q.finish_times_agree() {
        lemma_step_finish_times(q, op);
    }
    if q.progress_in_range() {
        lemma_step_progress(q, op);
    }
}

/// What setting a status comes to: the task with the id has the status; it
/// has a finishing time exactly where the status is an end; made running it
/// is stamped with the start and named "Preparing"; and no other task
/// changes.
pub proof fn lemma_set_status_effect(q: QueueView, id: usize, status: StatusView, now: u64)
    requires
        first(q.tasks, Select::Id(id)) is Some,
    ensures
        ({
            let at = first(q.tasks, Select::Id(id))->0;
            let after = q.set_status(id, status, now);
            &&& 0 <= at < q.tasks.len()
            &&& after.tasks.len() == q.tasks.len()
            &&& after.tasks[at].id == id
            &&& after.tasks[at].status == status
            &&& after.tasks[at].finished_at_unix is Some <==> status.is_terminal()
            &&& status is Running ==> after.tasks[at].phase == Some("Preparing"@)
                && after.tasks[at].started_at_unix == Some(now)
            &&& forall|i: int|
                0 <= i < q.tasks.len() && i != at ==> #[trigger] after.tasks[i] == q.tasks[i]
            &&& after.next_id == q.next_id
            &&& after.cancel_requested == q.cancel_requested
        }),
{
    lemma_first_from(q.tasks, Select::Id(id), 0);
}

/// What a line comes to for progress: every task keeps its progress, but
/// the task with the id takes over the fraction that the line reports where
/// that lies between 0 and 1.
pub proof fn lemma_append_progress(q: QueueView, id: usize, line: Seq<char>, limit: usize)
    ensures
        q.append(id, line, limit).tasks.len() == q.tasks.len(),
        forall|i: int|
            0 <= i < q.tasks.len() ==> (#[trigger] q.append(id, line, limit).tasks[i]).progress
                == q.tasks[i].progress || (q.append(id, line, limit).tasks[i].progress
                == progress_of(line) && progress_of(line) is Some && within_unit(
                progress_of(line)->0,
            )),
{
    lemma_first_from(q.tasks, Select::Id(id), 0);
}

/// The id that an operation names, or 0 where it names none.
pub open spec fn op_id(op: QueueOp) -> usize {
    match op {
        QueueOp::SetStatus { id, .. } => id,
        QueueOp::Append { id, .. } => id,
        QueueOp::CancelQueued { id } => id,
        QueueOp::MoveUp { id } => id,
        QueueOp::MoveDown { id } => id,
        QueueOp::RunNow { id } => id,
        QueueOp::RequestCancel { id, .. } => id,
        QueueOp::TakeCancel { id } => id,
        QueueOp::Retry { id } => id,
        QueueOp::Finalize { id, .. } => id,
        _ => 0,
    }
}

/// Every sequence of operations keeps the ids apart and below the next id,
/// and the next id never falls.
pub proof fn lemma_run_wf(q: QueueView, ops: Seq<QueueOp>)
    requires
        q.wf(),
        within_limits(q, ops),
    ensures
        run(q, ops).wf(),
        run(q, ops).next_id >= q.next_id,
    decreases ops.len(),
{
    if ops.len() > 0 {
        lemma_step_wf(q, ops[0]);
        lemma_run_wf(step(q, ops[0]), ops.drop_first());
    }
}

/// Uniqueness of ids: a task enqueued after another, whatever happens in
/// between, gets a strictly larger id. `q.next_id` is the id that the first
/// enqueue hands out, and the next id of the queue that the second enqueue
/// meets is the id that it hands out.
pub proof fn lemma_successive_ids_increase(
    q: QueueView,
    task_type: TaskType,
    package_name: Seq<char>,
    ops: Seq<QueueOp>,
)
    requires
        q.wf(),
        q.next_id < usize::MAX,
        within_limits(q.enqueue(task_type, package_name), ops),
    ensures
        q.next_id < run(q.enqueue(task_type, package_name), ops).next_id,
{
    lemma_step_wf(q, QueueOp::Enqueue { task_type, package_name });
    lemma_run_wf(q.enqueue(task_type, package_name), ops);
}

/// Whether no task with this id waits, and the id is handed out already.
pub open spec fn spent(q: QueueView, id: usize) -> bool {
    &&& id < q.next_id
    &&& forall|i: int|
        0 <= i < q.tasks.len() && (#[trigger] q.tasks[i]).id == id ==> !(q.tasks[i].status
            is Queued)
}

/// Whether the operation sets the task with this id back to waiting.
pub open spec fn requeues(op: QueueOp, id: usize) -> bool {
    op matches QueueOp::SetStatus { id: target, status, .. } && target == id && status is Queued
}

/// An elementary change leaves no task with a spent id waiting, unless it
/// sets that very task back to waiting.
pub proof fn lemma_apply_spent(q: QueueView, p: Prim, id: usize)
    requires
        q.wf(),
        fits(q, p),
        spent(q, id),
        !(p matches Prim::Status { at, status, .. } && status is Queued && q.tasks[at].id == id),
    ensures
        spent(apply(q, p), id),
{
    lemma_apply_wf(q, p);
    let r = apply(q, p).tasks;
    match p {
        Prim::Retain { sel } => {
            let origin = lemma_keep_origin(q.tasks, sel);
            assert forall|i: int| 0 <= i < r.len() && (#[trigger] r[i]).id == id implies !(
            r[i].status is Queued) by {
                assert(r[i] == q.tasks[origin[i]]);
            }
        },
        Prim::Shift { at, head } => {
            assert forall|i: int| 0 <= i < r.len() && (#[trigger] r[i]).id == id implies !(
            r[i].status is Queued) by {
                assert(r[i] == q.tasks[shift_origin(at, head, i)]);
            }
        },
        _ => {},
    }
}

/// An operation leaves no task with a spent id waiting, and claims no such
/// task, unless it sets that very task back to waiting.
#[verifier::rlimit(40)]
pub proof fn lemma_step_spent(q: QueueView, op: QueueOp, id: usize)
    requires
        q.wf(),
        spent(q, id),
        !requeues(op, id),
        allocates(q, op) ==> q.next_id < usize::MAX,
    ensures
        spent(step(q, op), id),
        claimed_by(q, op) != Some(id),
{
    lemma_parts(q, op);
    lemma_first_from(q.tasks, Select::Id(op_id(op)), 0);
    lemma_first_from(q.tasks, Select::Queued, 0);
    let mid = apply(q, parts(q, op).0);
    lemma_apply_wf(q, parts(q, op).0);
    lemma_apply_spent(q, parts(q, op).0, id);
    lemma_first_from(mid.tasks, Select::Queued, 0);
    lemma_apply_spent(mid, parts(q, op).1, id);
}

/// Over a sequence of operations none of which sets the task with a spent
/// id back to waiting, that task is never claimed.
pub proof fn lemma_spent_never_claimed(q: QueueView, ops: Seq<QueueOp>, id: usize)
    requires
        q.wf(),
        spent(q, id),
        within_limits(q, ops),
        forall|k: int| 0 <= k < ops.len() ==> !requeues(#[trigger] ops[k], id),
    ensures
        !claims(q, ops).contains(id),
    decreases ops.len(),
{
    if ops.len() > 0 {
        lemma_step_wf(q, ops[0]);
        lemma_step_spent(q, ops[0], id);
        let rest = ops.drop_first();
        assert forall|k: int| 0 <= k < rest.len() implies !requeues(#[trigger] rest[k], id) by {
            assert(rest[k] == ops[k + 1]);
        }
        lemma_spent_never_claimed(step(q, ops[0]), rest, id);
        let tail = claims(step(q, ops[0]), rest);
        if claims(q, ops).contains(id) {
            let i = choose|i: int| 0 <= i < claims(q, ops).len() && claims(q, ops)[i] == id;
            if claimed_by(q, ops[0]) is Some {
                if i > 0 {
                    assert(tail[i - 1] == id);
                }
            } else {
                assert(tail[i] == id);
            }
        }
    }
}

/// At most one claim: the task that a claim makes running is claimed by no
/// later operation, as long as none sets it back to waiting.
pub proof fn lemma_claimed_at_most_once(q: QueueView, now: u64, ops: Seq<QueueOp>)
    requires
        q.wf(),
        q.claimed(now) is Some,
        within_limits(q.claim(now), ops),
        forall|k: int| 0 <= k < ops.len() ==> !requeues(#[trigger] ops[k], q.claimed(now)->0.id),
    ensures
        q.claimed(now)->0.status is Running,
        !claims(q.claim(now), ops).contains(q.claimed(now)->0.id),
{
    lemma_first_from(q.tasks, Select::Queued, 0);
    lemma_step_wf(q, QueueOp::Claim { now });
    lemma_spent_never_claimed(q.claim(now), ops, q.claimed(now)->0.id);
}

/// Whether the queued tasks stand in the order of their ids, and no id at
/// or above the next id or below `bound` waits.
pub open spec fn in_order(q: QueueView, bound: int) -> bool {
    &&& q.wf()
    &&& bound <= q.next_id
    &&& forall|i: int|
        0 <= i < q.tasks.len() && (#[trigger] q.tasks[i]).status is Queued ==> bound
            <= q.tasks[i].id
    &&& forall|i: int, j: int|
        0 <= i < j < q.tasks.len() && (#[trigger] q.tasks[i]).status is Queued && (
        #[trigger] q.tasks[j]).status is Queued ==> q.tasks[i].id < q.tasks[j].id
}

/// Whether the operation may change the order in which queued tasks stand:
/// by moving one, or by setting a task that does not wait back to waiting.
pub open spec fn reorders(q: QueueView, op: QueueOp) -> bool {
    op is MoveUp || op is MoveDown || op is RunNow || (op matches QueueOp::SetStatus {
        id,
        status,
        ..
    } && status is Queued && (match first(q.tasks, Select::Id(id)) {
        Some(at) => !(q.tasks[at].status is Queued),
        None => false,
    }))
}

/// An elementary change that neither moves a task nor sets one back to
/// waiting keeps the queued tasks in the order of their ids.
pub proof fn lemma_apply_in_order(q: QueueView, p: Prim, bound: int)
    requires
        in_order(q, bound),
        fits(q, p),
        !(p is Swap),
        !(p is Shift),
        !(p matches Prim::Status { at, status, .. } && status is Queued && !(q.tasks[at].status
            is Queued)),
    ensures
        in_order(apply(q, p), bound),
{
    lemma_apply_wf(q, p);
    let r = apply(q, p).tasks;
    match p {
        Prim::Retain { sel } => {
            let origin = lemma_keep_origin(q.tasks, sel);
            assert forall|i: int| 0 <= i < r.len() && (#[trigger] r[i]).status is Queued implies bound
                <= r[i].id by {
                assert(r[i] == q.tasks[origin[i]]);
            }
            assert forall|i: int, j: int|
                0 <= i < j < r.len() && (#[trigger] r[i]).status is Queued && (
                #[trigger] r[j]).status is Queued implies r[i].id < r[j].id by {
                assert(r[i] == q.tasks[origin[i]]);
                assert(r[j] == q.tasks[origin[j]]);
                assert(origin[i] < origin[j]);
            }
        },
        _ => {},
    }
}

/// Making the first queued task running leaves the queued tasks in order
/// and all of them above the id of that task.
pub proof fn lemma_claim_in_order(q: QueueView, now: u64, bound: int)
    requires
        in_order(q, bound),
        first(q.tasks, Select::Queued) is Some,
    ensures
        bound <= q.claimed(now)->0.id,
        in_order(q.claim(now), q.claimed(now)->0.id + 1),
{
    lemma_first_from(q.tasks, Select::Queued, 0);
    let at = first(q.tasks, Select::Queued)->0;
    let r = q.claim(now).tasks;
    assert(q.tasks[at].status is Queued);
    assert forall|i: int| 0 <= i < r.len() && (#[trigger] r[i]).status is Queued implies q.tasks[at].id
        + 1 <= r[i].id by {
        assert(i != at);
        assert(r[i] == q.tasks[i]);
        assert(q.tasks[i].status is Queued);
        if i < at {
            assert(Select::Queued.takes(q.tasks[i]));
        }
    }
}

/// An operation that does not reorder keeps the queued tasks in the order
/// of their ids, and where it claims a task, that task has the least id of
/// those that wait.
#[verifier::rlimit(40)]
pub proof fn lemma_step_in_order(q: QueueView, op: QueueOp, bound: int)
    requires
        in_order(q, bound),
        !reorders(q, op),
        allocates(q, op) ==> q.next_id < usize::MAX,
    ensures
        match claimed_by(q, op) {
            Some(id) => bound <= id && in_order(step(q, op), id + 1),
            None => in_order(step(q, op), bound),
        },
{
    lemma_parts(q, op);
    let head = parts(q, op).0;
    let tail = parts(q, op).1;
    let mid = apply(q, head);
    match op {
        QueueOp::Claim { now } => {
            if first(q.tasks, Select::Queued) is Some {
                lemma_claim_in_order(q, now, bound);
            }
        },
        QueueOp::Tick { cap, minutes, now } => {
            lemma_apply_in_order(q, head, bound);
            if mid.running() < cap && first(mid.tasks, Select::Queued) is Some {
                lemma_claim_in_order(mid, now, bound);
            }
        },
        QueueOp::SetStatus { id, .. } => {
            lemma_first_from(q.tasks, Select::Id(id), 0);
            lemma_apply_in_order(q, head, bound);
        },
        QueueOp::Append { id, .. } => {
            lemma_first_from(q.tasks, Select::Id(id), 0);
            lemma_apply_in_order(q, head, bound);
        },
        QueueOp::RequestCancel { id, .. } => {
            lemma_first_from(q.tasks, Select::Id(id), 0);
            lemma_apply_in_order(q, head, bound);
            lemma_apply_in_order(mid, tail, bound);
        },
        QueueOp::Finalize { id, .. } => {
            lemma_first_from(q.tasks, Select::Id(id), 0);
            lemma_apply_in_order(q, head, bound);
            lemma_apply_in_order(mid, tail, bound);
        },
        QueueOp::Retry { id } => {
            lemma_first_from(q.tasks, Select::Id(id), 0);
            lemma_apply_in_order(q, head, bound);
        },
        QueueOp::MoveUp { .. } => {},
        QueueOp::MoveDown { .. } => {},
        QueueOp::RunNow { .. } => {},
        _ => {
            lemma_apply_in_order(q, head, bound);
        },
    }
}

/// First in, first out: from a queue whose waiting tasks stand in the order
/// of their ids, as every queue built by enqueueing does, and over
/// operations that do not reorder, tasks are claimed in the order of their
/// ids, which is the order in which they were enqueued.
pub proof fn lemma_claims_in_enqueue_order(q: QueueView, ops: Seq<QueueOp>, bound: int)
    requires
        in_order(q, bound),
        within_limits(q, ops),
        forall|k: int| 0 <= k < ops.len() ==> !reorders(run(q, ops.take(k)), #[trigger] ops[k]),
    ensures
        forall|i: int| 0 <= i < claims(q, ops).len() ==> bound <= #[trigger] claims(q, ops)[i],
        forall|i: int, j: int|
            0 <= i < j < claims(q, ops).len() ==> #[trigger] claims(q, ops)[i] < #[trigger] claims(
                q,
                ops,
            )[j],
    decreases ops.len(),
{
    if ops.len() > 0 {
        let rest = ops.drop_first();
        let next = step(q, ops[0]);
        assert(ops.take(0) =~= Seq::empty());
        assert(!reorders(q, ops[0]));
        lemma_step_in_order(q, ops[0], bound);
        assert forall|k: int| 0 <= k < rest.len() implies !reorders(
            run(next, rest.take(k)),
            #[trigger] rest[k],
        ) by {
            assert(rest[k] == ops[k + 1]);
            assert(ops.take(k + 1).drop_first() =~= rest.take(k));
            assert(ops.take(k + 1)[0] == ops[0]);
        }
        let tail = claims(next, rest);
        match claimed_by(q, ops[0]) {
            Some(id) => {
                lemma_claims_in_enqueue_order(next, rest, id + 1);
                let all = claims(q, ops);
                assert(all =~= seq![id] + tail);
                assert forall|i: int| 0 <= i < all.len() implies bound <= #[trigger] all[i] by {
                    if i > 0 {
                        assert(all[i] == tail[i - 1]);
                    }
                }
                assert forall|i: int, j: int| 0 <= i < j < all.len() implies #[trigger] all[i]
                    < #[trigger] all[j] by {
                    assert(all[j] == tail[j - 1]);
                    if i > 0 {
                        assert(all[i] == tail[i - 1]);
                    }
                }
            },
            None => {
                lemma_claims_in_enqueue_order(next, rest, bound);
            },
        }
    }
}

/// The empty queue has its waiting tasks in order.
pub proof fn lemma_empty_in_order()
    ensures
        in_order(QueueView::empty(), 0),
{
}

/// Whether the operation consumes the pending request to cancel this id.
pub open spec fn consumes(op: QueueOp, id: usize) -> bool {
    (op matches QueueOp::TakeCancel { id: target } && target == id) || (op matches QueueOp::Finalize {
        id: target,
        ..
    } && target == id)
}

/// A pending request to cancel stays pending until an operation consumes it.
pub proof fn lemma_pending_persists(q: QueueView, ops: Seq<QueueOp>, id: usize)
    requires
        q.cancel_requested.contains(id),
        forall|k: int| 0 <= k < ops.len() ==> !consumes(#[trigger] ops[k], id),
    ensures
        run(q, ops).cancel_requested.contains(id),
    decreases ops.len(),
{
    if ops.len() > 0 {
        let rest = ops.drop_first();
        assert(!consumes(ops[0], id));
        assert forall|k: int| 0 <= k < rest.len() implies !consumes(#[trigger] rest[k], id) by {
            assert(rest[k] == ops[k + 1]);
        }
        lemma_pending_persists(step(q, ops[0]), rest, id);
    }
}

/// Ending a task whose request to cancel is pending makes it canceled,
/// whatever the outcome, and consumes the request.
pub proof fn lemma_finalize_pending(
    q: QueueView,
    id: usize,
    outcome: Result<(), Seq<char>>,
    now: u64,
)
    requires
        q.wf(),
        q.cancel_requested.contains(id),
    ensures
        forall|i: int|
            0 <= i < q.finalize(id, outcome, now).tasks.len() && (#[trigger] q.finalize(
                id,
                outcome,
                now,
            ).tasks[i]).id == id ==> q.finalize(id, outcome, now).tasks[i].status is Canceled,
        !q.finalize(id, outcome, now).cancel_requested.contains(id),
{
    lemma_first_from(q.tasks, Select::Id(id), 0);
}

/// Cancellation precedence: once a request to cancel a running task is
/// accepted, whatever else happens before the task ends, short of consuming
/// the request, the task ends canceled, never failed nor completed, and the
/// request is consumed.
pub proof fn lemma_cancel_precedence(
    q: QueueView,
    id: usize,
    limit: usize,
    ops: Seq<QueueOp>,
    outcome: Result<(), Seq<char>>,
    now: u64,
)
    requires
        q.wf(),
        q.is_running(id),
        within_limits(q.request_cancel(id, limit), ops),
        forall|k: int| 0 <= k < ops.len() ==> !consumes(#[trigger] ops[k], id),
    ensures
        ({
            let ended = run(q.request_cancel(id, limit), ops).finalize(id, outcome, now);
            &&& forall|i: int|
                0 <= i < ended.tasks.len() && (#[trigger] ended.tasks[i]).id == id
                    ==> ended.tasks[i].status is Canceled
            &&& !ended.cancel_requested.contains(id)
        }),
{
    let asked = q.request_cancel(id, limit);
    lemma_step_wf(q, QueueOp::RequestCancel { id, limit });
    lemma_first_from(q.tasks, Select::Id(id), 0);
    assert(asked.cancel_requested.contains(id));
    lemma_run_wf(asked, ops);
    lemma_pending_persists(asked, ops, id);
    lemma_finalize_pending(run(asked, ops), id, outcome, now);
}

/// Without a pending request to cancel, the outcome decides how a task
/// ends: completed on success, failed with the reason on failure.
pub proof fn lemma_finalize_by_outcome(
    q: QueueView,
    id: usize,
    outcome: Result<(), Seq<char>>,
    now: u64,
)
    requires
        q.wf(),
        !q.cancel_requested.contains(id),
    ensures
        forall|i: int|
            0 <= i < q.finalize(id, outcome, now).tasks.len() && (#[trigger] q.finalize(
                id,
                outcome,
                now,
            ).tasks[i]).id == id ==> q.finalize(id, outcome, now).tasks[i].status == (match outcome {
                Ok(_) => StatusView::Completed,
                Err(reason) => StatusView::Failed(reason),
            }),
{
    lemma_first_from(q.tasks, Select::Id(id), 0);
}

/// Retrying creates a new identity: the new task gets the next id, which no
/// task has yet, stands at the tail as a fresh task of the same kind and
/// target, and every task of before, the failed one too, stays as it was.
pub proof fn lemma_retry_new_identity(q: QueueView, id: usize)
    requires
        q.wf(),
        q.failed_at(id) is Some,
    ensures
        q.next_id != id,
        q.retry(id).tasks.len() == q.tasks.len() + 1,
        q.retry(id).tasks.take(q.tasks.len() as int) == q.tasks,
        q.retry(id).tasks.last() == fresh_task(
            q.next_id,
            q.tasks[q.failed_at(id)->0].task_type,
            q.tasks[q.failed_at(id)->0].package_name,
        ),
        q.tasks[q.failed_at(id)->0].id == id,
        forall|i: int| 0 <= i < q.tasks.len() ==> (#[trigger] q.tasks[i]).id != q.next_id,
{
    lemma_first_from(q.tasks, Select::Id(id), 0);
    assert(q.retry(id).tasks.take(q.tasks.len() as int) =~= q.tasks);
}

/// What retrying comes to, as long as an id is left where one is handed
/// out: the result and the new queue are as `retried` says, and in a queue
/// whose ids are apart the new id differs from the failed task's and is
/// above every id held.
pub proof fn lemma_retried(q: QueueView, id: usize)
    requires
        q.failed_at(id) is Some ==> q.next_id < usize::MAX,
    ensures
        retried(
            q,
            q.retry(id),
            id,
            if q.failed_at(id) is Some {
                Some(q.next_id)
            } else {
                None
            },
        ),
        q.wf() && q.failed_at(id) is Some ==> q.next_id != id && forall|i: int|
            0 <= i < q.tasks.len() ==> (#[trigger] q.tasks[i]).id < q.next_id,
{
    lemma_first_from(q.tasks, Select::Id(id), 0);
}

/// The output after a burst of lines, each appended under the cap `limit`.
pub open spec fn append_all(output: Seq<Seq<char>>, lines: Seq<Seq<char>>, limit: usize) -> Seq<
    Seq<char>,
>
    decreases lines.len(),
{
    if lines.len() == 0 {
        output
    } else {
        append_all(keep_last(output.push(lines[0]), limit), lines.drop_first(), limit)
    }
}

/// Cutting to the last `limit` lines before more lines follow changes
/// nothing of the last `limit` lines of the whole.
pub proof fn lemma_keep_last_absorbs(a: Seq<Seq<char>>, b: Seq<Seq<char>>, limit: usize)
    ensures
        keep_last(keep_last(a, limit) + b, limit) == keep_last(a + b, limit),
{
    assert(keep_last(keep_last(a, limit) + b, limit) =~= keep_last(a + b, limit));
}

/// The output cap: after a burst of one line or more, the output is the
/// last `limit` lines of what was there followed by the burst, so it is no
/// longer than `limit` and ends with the most recent lines.
pub proof fn lemma_burst_keeps_most_recent(
    output: Seq<Seq<char>>,
    lines: Seq<Seq<char>>,
    limit: usize,
)
    requires
        lines.len() > 0,
    ensures
        append_all(output, lines, limit) == keep_last(output + lines, limit),
        append_all(output, lines, limit).len() <= limit,
        append_all(output, lines, limit).is_suffix_of(output + lines),
    decreases lines.len(),
{
    let first_line = lines[0];
    let rest = lines.drop_first();
    let cut = keep_last(output.push(first_line), limit);
    assert(output + lines =~= output.push(first_line) + rest);
    if rest.len() == 0 {
        assert(output.push(first_line) + rest =~= output.push(first_line));
        assert(append_all(cut, rest, limit) == cut);
    } else {
        lemma_burst_keeps_most_recent(cut, rest, limit);
        lemma_keep_last_absorbs(output.push(first_line), rest, limit);
    }
    let whole = output + lines;
    let kept = keep_last(whole, limit);
    if whole.len() > limit {
        assert(whole =~= whole.take(whole.len() - limit) + kept);
    } else {
        assert(whole =~= Seq::<Seq<char>>::empty() + kept);
    }
}

/// Replacing a task by one of the same id leaves every task where a
/// search by id finds it.
pub proof fn lemma_put_keeps_ids(q: QueueView, at: int, t: TaskView, id: usize, from: int)
    requires
        0 <= at < q.tasks.len(),
        t.id == q.tasks[at].id,
        0 <= from,
    ensures
        first_from(q.put(at, t).tasks, Select::Id(id), from) == first_from(
            q.tasks,
            Select::Id(id),
            from,
        ),
    decreases q.tasks.len() - from,
{
    if from < q.tasks.len() {
        lemma_put_keeps_ids(q, at, t, id, from + 1);
    }
}

/// The output cap, for a task in the queue: after a burst of one line or
/// more for the task with this id, its output is the last `limit` lines of
/// what it was followed by the burst, and no longer than `limit`.
pub proof fn lemma_burst_in_queue(q: QueueView, id: usize, lines: Seq<Seq<char>>, limit: usize)
    requires
        first(q.tasks, Select::Id(id)) is Some,
        lines.len() > 0,
    ensures
        ({
            let at = first(q.tasks, Select::Id(id))->0;
            let after = append_lines(q, id, lines, limit);
            &&& after.tasks.len() == q.tasks.len()
            &&& first(after.tasks, Select::Id(id)) == Some(at)
            &&& after.tasks[at].output == keep_last(q.tasks[at].output + lines, limit)
            &&& after.tasks[at].output.len() <= limit
        }),
    decreases lines.len(),
{
    lemma_first_from(q.tasks, Select::Id(id), 0);
    let at = first(q.tasks, Select::Id(id))->0;
    let next = q.append(id, lines[0], limit);
    let rest = lines.drop_first();
    lemma_put_keeps_ids(q, at, with_line(q.tasks[at], lines[0], limit), id, 0);
    assert(q.tasks[at].output + lines =~= q.tasks[at].output.push(lines[0]) + rest);
    if rest.len() == 0 {
        assert(append_lines(next, id, rest, limit) == next);
        assert(q.tasks[at].output.push(lines[0]) + rest =~= q.tasks[at].output.push(lines[0]));
    } else {
        lemma_burst_in_queue(next, id, rest, limit);
        lemma_keep_last_absorbs(q.tasks[at].output.push(lines[0]), rest, limit);
    }
}

} // verus!
