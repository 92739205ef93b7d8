//! The task queue and its state machine.
//!
//! A task is queued, then claimed and running, then completed, canceled or
//! failed. The queue keeps the tasks in dispatch order, hands out ids that
//! are never reused, and records which running tasks were asked to stop.
//! Every operation is stated as a function on the queue's mathematical view.

use crate::platform::unix_seconds;
use crate::queue_laws::{lemma_append_progress, lemma_retried, lemma_step_invariants, QueueOp};
use crate::progress::{
    lowercase, opt_str, parse_phase, parse_progress, phase_label, progress_of, within_unit, Progress,
};
use crate::settings::AppSettings;
use crate::text::{clone_strings, strs};
use std::collections::HashSet;
use vstd::prelude::*;
use vstd::std_specs::cmp::PartialEqSpecImpl;

verus! {

/// What a task does.
#[derive(Debug, Clone, Copy, PartialEq, Eq, Structural)]
pub enum TaskType {
    Install,
    Remove,
    Update,
    UpdatePackage,
    CleanCache,
    RemoveOrphans,
}

/// Where a task stands in its life.
#[derive(Debug)]
pub enum TaskStatus {
    Queued,
    Running,
    Completed,
    Canceled,
    Failed(String),
}

/// A status as a mathematical value.
pub enum StatusView {
    Queued,
    Running,
    Completed,
    Canceled,
    Failed(Seq<char>),
}

impl StatusView {
    /// Whether the task has ended: completed, canceled or failed.
    pub open spec fn is_terminal(self) -> bool {
        self is Completed || self is Canceled || self is Failed
    }
}

impl View for TaskStatus {
    type V = StatusView;

    open spec fn view(&self) -> StatusView {
        match self {
            TaskStatus::Queued => StatusView::Queued,
            TaskStatus::Running => StatusView::Running,
            TaskStatus::Completed => StatusView::Completed,
            TaskStatus::Canceled => StatusView::Canceled,
            TaskStatus::Failed(reason) => StatusView::Failed(reason@),
        }
    }
}

impl Clone for TaskStatus {
    fn clone(&self) -> (r: Self)
        ensures
            r@ == self@,
    {
        match self {
            TaskStatus::Queued => TaskStatus::Queued,
            TaskStatus::Running => TaskStatus::Running,
            TaskStatus::Completed => TaskStatus::Completed,
            TaskStatus::Canceled => TaskStatus::Canceled,
            TaskStatus::Failed(reason) => TaskStatus::Failed(reason.clone()),
        }
    }
}

impl PartialEq for TaskStatus {
    fn eq(&self, other: &Self) -> (r: bool) {
        match (self, other) {
            (TaskStatus::Queued, TaskStatus::Queued) => true,
            (TaskStatus::Running, TaskStatus::Running) => true,
            (TaskStatus::Completed, TaskStatus::Completed) => true,
            (TaskStatus::Canceled, TaskStatus::Canceled) => true,
            (TaskStatus::Failed(a), TaskStatus::Failed(b)) => *a == *b,
            _ => false,
        }
    }
}

impl PartialEqSpecImpl for TaskStatus {
    open spec fn obeys_eq_spec() -> bool {
        true
    }

    open spec fn eq_spec(&self, other: &Self) -> bool {
        self@ == other@
    }
}

impl TaskStatus {
    /// Whether the task has ended: completed, canceled or failed.
    pub fn is_terminal(&self) -> (r: bool)
        ensures
            r == self@.is_terminal(),
    {
        match self {
            TaskStatus::Completed | TaskStatus::Canceled | TaskStatus::Failed(_) => true,
            _ => false,
        }
    }

    /// Whether the task waits to be claimed.
    pub fn is_queued(&self) -> (r: bool)
        ensures
            r == (self@ is Queued),
    {
        match self {
            TaskStatus::Queued => true,
            _ => false,
        }
    }

    /// Whether the task is running.
    pub fn is_running(&self) -> (r: bool)
        ensures
            r == (self@ is Running),
    {
        match self {
            TaskStatus::Running => true,
            _ => false,
        }
    }
}

/// One requested operation, tracked through its life.
#[derive(Debug)]
pub struct Task {
    pub id: usize,
    pub task_type: TaskType,
    pub package_name: String,
    pub status: TaskStatus,
    pub output: Vec<String>,
    pub progress: Option<Progress>,
    pub phase: Option<String>,
    pub started_at_unix: Option<u64>,
    pub finished_at_unix: Option<u64>,
}

/// A task as a mathematical value.
pub struct TaskView {
    pub id: usize,
    pub task_type: TaskType,
    pub package_name: Seq<char>,
    pub status: StatusView,
    pub output: Seq<Seq<char>>,
    pub progress: Option<Progress>,
    pub phase: Option<Seq<char>>,
    pub started_at_unix: Option<u64>,
    pub finished_at_unix: Option<u64>,
}

impl View for Task {
    type V = TaskView;

    open spec fn view(&self) -> TaskView {
        TaskView {
            id: self.id,
            task_type: self.task_type,
            package_name: self.package_name@,
            status: self.status@,
            output: strs(self.output@),
            progress: self.progress,
            phase: opt_str(self.phase),
            started_at_unix: self.started_at_unix,
            finished_at_unix: self.finished_at_unix,
        }
    }
}

/// The task that enqueueing creates: queued, with nothing run yet.
pub open spec fn fresh_task(id: usize, task_type: TaskType, package_name: Seq<char>) -> TaskView {
    TaskView {
        id,
        task_type,
        package_name,
        status: StatusView::Queued,
        output: Seq::empty(),
        progress: None,
        phase: None,
        started_at_unix: None,
        finished_at_unix: None,
    }
}

impl Clone for Task {
    fn clone(&self) -> (r: Self)
        ensures
            r@ == self@,
    {
        Task {
            id: self.id,
            task_type: self.task_type,
            package_name: self.package_name.clone(),
            status: self.status.clone(),
            output: clone_strings(&self.output),
            progress: self.progress,
            phase: match &self.phase {
                Some(p) => Some(p.clone()),
                None => None,
            },
            started_at_unix: self.started_at_unix,
            finished_at_unix: self.finished_at_unix,
        }
    }
}

impl Task {
    /// A queued task with no output, progress, phase or timestamps.
    pub fn new(id: usize, task_type: TaskType, package_name: String) -> (task: Self)
        ensures
            task@ == fresh_task(id, task_type, package_name@),
    {
        let task = Task {
            id,
            task_type,
            package_name,
            status: TaskStatus::Queued,
            output: Vec::new(),
            progress: None,
            phase: None,
            started_at_unix: None,
            finished_at_unix: None,
        };
        assert(strs(task.output@) =~= Seq::empty());
        task
    }
}

/// A choice among tasks, by id, by status or by age.
#[derive(Debug, Clone, Copy)]
pub enum Select {
    /// The task with this id.
    Id(usize),
    /// Tasks that wait to be claimed.
    Queued,
    /// The task with this id, while it waits.
    QueuedId(usize),
    /// The task with this id, while it runs.
    RunningId(usize),
    /// Tasks that have not ended.
    Live,
    /// All but the task with this id while it waits.
    NotQueuedId(usize),
    /// Tasks that have not ended, and ended ones with no finishing time or
    /// one at or after this second.
    Since(u64),
}

impl Select {
    /// Whether the choice takes `t`.
    pub open spec fn takes(self, t: TaskView) -> bool {
        match self {
            Select::Id(id) => t.id == id,
            Select::Queued => t.status is Queued,
            Select::QueuedId(id) => t.id == id && t.status is Queued,
            Select::RunningId(id) => t.id == id && t.status is Running,
            Select::Live => !t.status.is_terminal(),
            Select::NotQueuedId(id) => !(t.id == id && t.status is Queued),
            Select::Since(cutoff) => !t.status.is_terminal() || match t.finished_at_unix {
                Some(done) => done >= cutoff,
                None => true,
            },
        }
    }

    /// Whether the choice takes `t`.
    pub fn holds(&self, t: &Task) -> (r: bool)
        ensures
            r == self.takes(t@),
    {
        match self {
            Select::Id(id) => t.id == *id,
            Select::Queued => t.status.is_queued(),
            Select::QueuedId(id) => t.id == *id && t.status.is_queued(),
            Select::RunningId(id) => t.id == *id && t.status.is_running(),
            Select::Live => !t.status.is_terminal(),
            Select::NotQueuedId(id) => !(t.id == *id && t.status.is_queued()),
            Select::Since(cutoff) => !t.status.is_terminal() || match t.finished_at_unix {
                Some(done) => done >= *cutoff,
                None => true,
            },
        }
    }
}

/// The views of a sequence of tasks.
pub open spec fn task_views(v: Seq<Task>) -> Seq<TaskView> {
    v.map_values(|t: Task| t@)
}

/// The first position at or after `from` whose task `sel` takes.
pub open spec fn first_from(tasks: Seq<TaskView>, sel: Select, from: int) -> Option<int>
    decreases tasks.len() - from,
{
    if from < 0 || from >= tasks.len() {
        None
    } else if sel.takes(tasks[from]) {
        Some(from)
    } else {
        first_from(tasks, sel, from + 1)
    }
}

/// The first position whose task `sel` takes.
pub open spec fn first(tasks: Seq<TaskView>, sel: Select) -> Option<int> {
    first_from(tasks, sel, 0)
}

/// The last position before `before` whose task `sel` takes.
pub open spec fn last_before(tasks: Seq<TaskView>, sel: Select, before: int) -> Option<int>
    decreases before,
{
    if before <= 0 || before > tasks.len() {
        None
    } else if sel.takes(tasks[before - 1]) {
        Some(before - 1)
    } else {
        last_before(tasks, sel, before - 1)
    }
}

/// The choice `sel` as a predicate.
pub open spec fn taker(sel: Select) -> spec_fn(TaskView) -> bool {
    |t: TaskView| sel.takes(t)
}

/// The tasks that `sel` takes, in their order.
pub open spec fn keep(tasks: Seq<TaskView>, sel: Select) -> Seq<TaskView> {
    tasks.filter(taker(sel))
}

/// How many of the tasks are running.
pub open spec fn running_count(tasks: Seq<TaskView>) -> nat
    decreases tasks.len(),
{
    if tasks.len() == 0 {
        0
    } else {
        running_count(tasks.drop_last()) + if tasks.last().status is Running {
            1nat
        } else {
            0nat
        }
    }
}

/// The last `limit` lines of `lines`, or all of them where they are fewer.
pub open spec fn keep_last(lines: Seq<Seq<char>>, limit: usize) -> Seq<Seq<char>> {
    if lines.len() > limit {
        lines.skip(lines.len() - limit)
    } else {
        lines
    }
}

/// The task after its status is set at second `now`. Running stamps the
/// start, names the phase "Preparing" and clears the finishing time; an end
/// stamps the finishing time; waiting clears it. So a finishing time is
/// recorded exactly where the new status is an end.
pub open spec fn with_status(t: TaskView, status: StatusView, now: u64) -> TaskView {
    if status is Running {
        TaskView {
            status,
            started_at_unix: Some(now),
            phase: Some("Preparing"@),
            finished_at_unix: None,
            ..t
        }
    } else if status.is_terminal() {
        TaskView { status, finished_at_unix: Some(now), ..t }
    } else {
        TaskView { status, finished_at_unix: None, ..t }
    }
}

/// The progress of a task after a line: the fraction that the line reports,
/// where it reports one between 0 and 1; else the progress as it was.
pub open spec fn progress_after(progress: Option<Progress>, line: Seq<char>) -> Option<Progress> {
    match progress_of(line) {
        Some(p) => if within_unit(p) {
            Some(p)
        } else {
            progress
        },
        None => progress,
    }
}

/// The task after one more line of output, with at most `limit` lines kept.
/// Progress and phase change only where the line reports them, and a
/// fraction beyond 1 is no report.
pub open spec fn with_line(t: TaskView, line: Seq<char>, limit: usize) -> TaskView {
    TaskView {
        progress: progress_after(t.progress, line),
        phase: match phase_label(lowercase(line)) {
            Some(p) => Some(p),
            None => t.phase,
        },
        output: keep_last(t.output.push(line), limit),
        ..t
    }
}

/// Whether `after` keeps what held of `before`: ids apart and below the
/// next id, a finishing time exactly for the tasks that have ended, and
/// every progress between 0 and 1.
pub open spec fn keeps_invariants(before: QueueView, after: QueueView) -> bool {
    &&& before.wf() ==> after.wf()
    &&& before.finish_times_agree() ==> after.finish_times_agree()
    &&& before.progress_in_range() ==> after.progress_in_range()
}

/// Whether `after` is `before` with the failed task `id` retried under
/// `new_id`: a fresh task of the same kind and target stands at the tail
/// under the next id, every task of before stays where and as it was, and
/// the next id is one higher; or, where no failed task has the id, nothing
/// is returned and nothing changes.
pub open spec fn retried(before: QueueView, after: QueueView, id: usize, new_id: Option<usize>) -> bool {
    match new_id {
        Some(n) => {
            &&& before.failed_at(id) is Some
            &&& n == before.next_id
            &&& after.next_id == n + 1
            &&& after.cancel_requested == before.cancel_requested
            &&& after.tasks.len() == before.tasks.len() + 1
            &&& forall|i: int|
                0 <= i < before.tasks.len() ==> #[trigger] after.tasks[i] == before.tasks[i]
            &&& after.tasks[before.tasks.len() as int] == fresh_task(
                n,
                before.tasks[before.failed_at(id)->0].task_type,
                before.tasks[before.failed_at(id)->0].package_name,
            )
            &&& before.tasks[before.failed_at(id)->0].id == id
            &&& before.tasks[before.failed_at(id)->0].status is Failed
        },
        None => before.failed_at(id) is None && after == before,
    }
}

/// The line that a request to cancel adds to a task's output.
pub open spec fn cancel_notice() -> Seq<char> {
    "Cancellation requested..."@
}

/// The queue as a mathematical value: the tasks in dispatch order, the next
/// id to hand out, and the ids with a pending request to cancel.
pub struct QueueView {
    pub tasks: Seq<TaskView>,
    pub next_id: usize,
    pub cancel_requested: Set<usize>,
}

impl QueueView {
    /// Ids are below the next id and no two tasks share one.
    pub open spec fn wf(self) -> bool {
        &&& forall|i: int| 0 <= i < self.tasks.len() ==> (#[trigger] self.tasks[i]).id < self.next_id
        &&& forall|i: int, j: int|
            0 <= i < j < self.tasks.len() ==> (#[trigger] self.tasks[i]).id != (
            #[trigger] self.tasks[j]).id
    }

    /// A finishing time is recorded exactly for the tasks that have ended.
    pub open spec fn finish_times_agree(self) -> bool {
        forall|i: int|
            0 <= i < self.tasks.len() ==> ((#[trigger] self.tasks[i]).finished_at_unix is Some
                <==> self.tasks[i].status.is_terminal())
    }

    /// Every progress recorded is a fraction between 0 and 1.
    pub open spec fn progress_in_range(self) -> bool {
        forall|i: int|
            0 <= i < self.tasks.len() ==> match (#[trigger] self.tasks[i]).progress {
                Some(p) => within_unit(p),
                None => true,
            }
    }

    /// How many tasks are running.
    pub open spec fn running(self) -> nat {
        running_count(self.tasks)
    }

    /// The empty queue.
    pub open spec fn empty() -> QueueView {
        QueueView { tasks: Seq::empty(), next_id: 0, cancel_requested: Set::empty() }
    }

    /// A new queued task at the tail, under the next id.
    pub open spec fn enqueue(self, task_type: TaskType, package_name: Seq<char>) -> QueueView {
        QueueView {
            tasks: self.tasks.push(fresh_task(self.next_id, task_type, package_name)),
            next_id: (self.next_id + 1) as usize,
            ..self
        }
    }

    /// The task at position `at` replaced by `t`.
    pub open spec fn put(self, at: int, t: TaskView) -> QueueView {
        QueueView { tasks: self.tasks.update(at, t), ..self }
    }

    /// The status of the task with this id set at second `now`; no change
    /// where no task has the id.
    pub open spec fn set_status(self, id: usize, status: StatusView, now: u64) -> QueueView {
        match first(self.tasks, Select::Id(id)) {
            Some(at) => self.put(at, with_status(self.tasks[at], status, now)),
            None => self,
        }
    }

    /// One more line of output for the task with this id; no change where no
    /// task has the id.
    pub open spec fn append(self, id: usize, line: Seq<char>, limit: usize) -> QueueView {
        match first(self.tasks, Select::Id(id)) {
            Some(at) => self.put(at, with_line(self.tasks[at], line, limit)),
            None => self,
        }
    }

    /// Only the tasks that `sel` takes.
    pub open spec fn retain(self, sel: Select) -> QueueView {
        QueueView { tasks: keep(self.tasks, sel), ..self }
    }

    /// The first queued task made running at second `now`; no change where
    /// none waits.
    pub open spec fn claim(self, now: u64) -> QueueView {
        match first(self.tasks, Select::Queued) {
            Some(at) => self.put(at, with_status(self.tasks[at], StatusView::Running, now)),
            None => self,
        }
    }

    /// The task that `claim` makes running, as it is afterwards.
    pub open spec fn claimed(self, now: u64) -> Option<TaskView> {
        match first(self.tasks, Select::Queued) {
            Some(at) => Some(with_status(self.tasks[at], StatusView::Running, now)),
            None => None,
        }
    }

    /// The tasks at positions `a` and `b` exchanged.
    pub open spec fn swap(self, a: int, b: int) -> QueueView {
        QueueView { tasks: self.tasks.update(a, self.tasks[b]).update(b, self.tasks[a]), ..self }
    }

    /// The position of the queued task with this id and that of the nearest
    /// queued task before it, where both exist.
    pub open spec fn up_pair(self, id: usize) -> Option<(int, int)> {
        match first(self.tasks, Select::QueuedId(id)) {
            Some(at) => match last_before(self.tasks, Select::Queued, at) {
                Some(prev) => Some((at, prev)),
                None => None,
            },
            None => None,
        }
    }

    /// The position of the queued task with this id and that of the nearest
    /// queued task after it, where both exist.
    pub open spec fn down_pair(self, id: usize) -> Option<(int, int)> {
        match first(self.tasks, Select::QueuedId(id)) {
            Some(at) => match first_from(self.tasks, Select::Queued, at + 1) {
                Some(next) => Some((at, next)),
                None => None,
            },
            None => None,
        }
    }

    /// The queued task with this id exchanged with the nearest queued task
    /// before it; no change where there is no such pair.
    pub open spec fn move_up(self, id: usize) -> QueueView {
        match self.up_pair(id) {
            Some((at, prev)) => self.swap(at, prev),
            None => self,
        }
    }

    /// The queued task with this id exchanged with the nearest queued task
    /// after it; no change where there is no such pair.
    pub open spec fn move_down(self, id: usize) -> QueueView {
        match self.down_pair(id) {
            Some((at, next)) => self.swap(at, next),
            None => self,
        }
    }

    /// The position of the queued task with this id and that of the first
    /// queued task, where the two differ.
    pub open spec fn front_pair(self, id: usize) -> Option<(int, int)> {
        match (first(self.tasks, Select::QueuedId(id)), first(self.tasks, Select::Queued)) {
            (Some(at), Some(head)) => if at != head {
                Some((at, head))
            } else {
                None
            },
            _ => None,
        }
    }

    /// The queued task with this id moved to the place of the first queued
    /// task, the tasks between shifting back by one; no change where it is
    /// the first already or does not wait.
    pub open spec fn run_now(self, id: usize) -> QueueView {
        match self.front_pair(id) {
            Some((at, head)) => QueueView {
                tasks: self.tasks.remove(at).insert(head, self.tasks[at]),
                ..self
            },
            None => self,
        }
    }

    /// Whether a running task has this id.
    pub open spec fn is_running(self, id: usize) -> bool {
        first(self.tasks, Select::RunningId(id)) is Some
    }

    /// The id recorded as asked to stop and the notice added to the task's
    /// output, where a running task has the id; no change otherwise.
    pub open spec fn request_cancel(self, id: usize, limit: usize) -> QueueView {
        if self.is_running(id) {
            QueueView { cancel_requested: self.cancel_requested.insert(id), ..self }.append(
                id,
                cancel_notice(),
                limit,
            )
        } else {
            self
        }
    }

    /// The pending request to cancel this id, if any, consumed.
    pub open spec fn take_cancel(self, id: usize) -> QueueView {
        QueueView { cancel_requested: self.cancel_requested.remove(id), ..self }
    }

    /// The second before which ended tasks are cleared, for a retention of
    /// `minutes` at second `now`.
    pub open spec fn cutoff(minutes: u64, now: u64) -> u64 {
        let window = if minutes * 60 > u64::MAX {
            u64::MAX as int
        } else {
            minutes * 60
        };
        if now >= window {
            (now - window) as u64
        } else {
            0
        }
    }

    /// Ended tasks older than the retention removed; no change where the
    /// retention is 0 minutes.
    pub open spec fn auto_clear(self, minutes: u64, now: u64) -> QueueView {
        if minutes == 0 {
            self
        } else {
            self.retain(Select::Since(Self::cutoff(minutes, now)))
        }
    }

    /// The position of the failed task with this id, if there is one.
    pub open spec fn failed_at(self, id: usize) -> Option<int> {
        match first(self.tasks, Select::Id(id)) {
            Some(at) => if self.tasks[at].status is Failed {
                Some(at)
            } else {
                None
            },
            None => None,
        }
    }

    /// A new task of the same kind and target as the failed task with this
    /// id; no change where no failed task has the id.
    pub open spec fn retry(self, id: usize) -> QueueView {
        match self.failed_at(id) {
            Some(at) => self.enqueue(self.tasks[at].task_type, self.tasks[at].package_name),
            None => self,
        }
    }

    /// The status that ends a task: canceled where a request to cancel is
    /// pending, whatever the outcome; else completed or failed by the outcome.
    pub open spec fn final_status(self, id: usize, outcome: Result<(), Seq<char>>) -> StatusView {
        if self.cancel_requested.contains(id) {
            StatusView::Canceled
        } else {
            match outcome {
                Ok(_) => StatusView::Completed,
                Err(reason) => StatusView::Failed(reason),
            }
        }
    }

    /// The task with this id ended at second `now`, and its pending request
    /// to cancel consumed.
    pub open spec fn finalize(self, id: usize, outcome: Result<(), Seq<char>>, now: u64) -> QueueView {
        self.take_cancel(id).set_status(id, self.final_status(id, outcome), now)
    }
}

/// A task added at the tail adds one to the count of running tasks if it
/// runs, and nothing if it does not.
pub proof fn lemma_running_count_push(tasks: Seq<TaskView>, t: TaskView)
    ensures
        running_count(tasks.push(t)) == running_count(tasks) + if t.status is Running {
            1nat
        } else {
            0nat
        },
{
    assert(tasks.push(t).drop_last() =~= tasks);
}

/// The view of an outcome: success, or failure with its reason.
pub open spec fn outcome_view(outcome: Result<(), String>) -> Result<(), Seq<char>> {
    match outcome {
        Ok(_) => Ok(()),
        Err(reason) => Err(reason@),
    }
}

/// The ordered collection of tasks, the allocator of their ids, and the set
/// of ids with a pending request to cancel.
pub struct TaskQueue {
    tasks: Vec<Task>,
    next_id: usize,
    cancel_requested: HashSet<usize>,
}

impl View for TaskQueue {
    type V = QueueView;

    closed spec fn view(&self) -> QueueView {
        QueueView {
            tasks: task_views(self.tasks@),
            next_id: self.next_id,
            cancel_requested: self.cancel_requested@,
        }
    }
}

impl TaskQueue {
    /// An empty queue whose first id is 0.
    pub fn new() -> (queue: Self)
        ensures
            queue@ == QueueView::empty(),
            queue@.wf(),
            queue@.finish_times_agree(),
            queue@.progress_in_range(),
    {
        let queue = TaskQueue { tasks: Vec::new(), next_id: 0, cancel_requested: HashSet::new() };
        assert(queue@.tasks =~= Seq::empty());
        queue
    }

    /// The id that the next enqueued task gets.
    pub fn next_id(&self) -> (id: usize)
        ensures
            id == self@.next_id,
    {
        self.next_id
    }

    /// Appends a queued task at the tail and returns its id, the next one in
    /// line.
    pub fn add_task(&mut self, task_type: TaskType, package_name: String) -> (id: usize)
        requires
            old(self)@.next_id < usize::MAX,
        ensures
            final(self)@ == old(self)@.enqueue(task_type, package_name@),
            id == old(self)@.next_id,
            keeps_invariants(old(self)@, final(self)@),
    {
        proof {
            lemma_step_invariants(old(self)@, QueueOp::Enqueue { task_type, package_name: package_name@ });
        }
        let id = self.next_id;
        self.next_id = id + 1;
        let task = Task::new(id, task_type, package_name);
        self.tasks.push(task);
        assert(self@.tasks =~= old(self)@.tasks.push(task@));
        id
    }

    /// A copy of every task, in dispatch order.
    pub fn get_tasks(&self) -> (tasks: Vec<Task>)
        ensures
            task_views(tasks@) == self@.tasks,
    {
        let mut out: Vec<Task> = Vec::new();
        let mut i: usize = 0;
        while i < self.tasks.len()
            invariant
                i <= self.tasks.len(),
                out.len() == i,
                forall|j: int| 0 <= j < i ==> out@[j]@ == self.tasks@[j]@,
            decreases self.tasks.len() - i,
        {
            out.push(self.tasks[i].clone());
            i += 1;
        }
        assert(task_views(out@) =~= self@.tasks);
        out
    }

    /// The first position at or after `from` whose task `sel` takes.
    fn position(&self, sel: &Select, from: usize) -> (r: Option<usize>)
        ensures
            match r {
                Some(at) => first_from(self@.tasks, *sel, from as int) == Some(at as int) && from
                    <= at < self.tasks.len() && sel.takes(self@.tasks[at as int]),
                None => first_from(self@.tasks, *sel, from as int) is None,
            },
    {
        let mut i: usize = from;
        while i < self.tasks.len()
            invariant
                from <= i,
                first_from(self@.tasks, *sel, from as int) == first_from(
                    self@.tasks,
                    *sel,
                    i as int,
                ),
            decreases self.tasks.len() - i,
        {
            if sel.holds(&self.tasks[i]) {
                return Some(i);
            }
            i += 1;
        }
        None
    }

    /// The last position before `before` whose task `sel` takes.
    fn position_before(&self, sel: &Select, before: usize) -> (r: Option<usize>)
        requires
            before <= self.tasks.len(),
        ensures
            match r {
                Some(at) => last_before(self@.tasks, *sel, before as int) == Some(at as int) && at
                    < before && sel.takes(self@.tasks[at as int]),
                None => last_before(self@.tasks, *sel, before as int) is None,
            },
    {
        let mut i: usize = before;
        while i > 0
            invariant
                i <= before <= self.tasks.len(),
                last_before(self@.tasks, *sel, before as int) == last_before(
                    self@.tasks,
                    *sel,
                    i as int,
                ),
            decreases i,
        {
            if sel.holds(&self.tasks[i - 1]) {
                return Some(i - 1);
            }
            i -= 1;
        }
        None
    }

    /// How many tasks are running.
    pub fn running_count(&self) -> (count: usize)
        ensures
            count == self@.running(),
    {
        let mut count: usize = 0;
        let mut i: usize = 0;
        while i < self.tasks.len()
            invariant
                i <= self.tasks.len(),
                count <= i,
                count == running_count(self@.tasks.take(i as int)),
            decreases self.tasks.len() - i,
        {
            proof {
                assert(self@.tasks.take(i + 1) =~= self@.tasks.take(i as int).push(
                    self@.tasks[i as int],
                ));
                lemma_running_count_push(self@.tasks.take(i as int), self@.tasks[i as int]);
            }
            if self.tasks[i].status.is_running() {
                count += 1;
            }
            i += 1;
        }
        assert(self@.tasks.take(self.tasks.len() as int) =~= self@.tasks);
        count
    }

    /// Whether any task is running.
    pub fn has_running_task(&self) -> (r: bool)
        ensures
            r == (self@.running() > 0),
    {
        self.running_count() > 0
    }

    /// Sets the status of the task with this id at second `now`. Running
    /// stamps the start, names the phase "Preparing" and clears the finishing
    /// time; an end stamps the finishing time; waiting clears it. No task
    /// with the id: no change.
    pub fn update_task_status_at(&mut self, task_id: usize, status: TaskStatus, now: u64)
        ensures
            final(self)@ == old(self)@.set_status(task_id, status@, now),
            keeps_invariants(old(self)@, final(self)@),
    {
        proof {
            lemma_step_invariants(old(self)@, QueueOp::SetStatus { id: task_id, status: status@, now });
        }
        match self.position(&Select::Id(task_id), 0) {
            Some(at) => {
                let ghost before = self.tasks@[at as int]@;
                if status.is_running() {
                    self.tasks[at].started_at_unix = Some(now);
                    self.tasks[at].phase = Some("Preparing".to_owned());
                    self.tasks[at].finished_at_unix = None;
                } else if status.is_terminal() {
                    self.tasks[at].finished_at_unix = Some(now);
                } else {
                    self.tasks[at].finished_at_unix = None;
                }
                self.tasks[at].status = status;
                assert(self.tasks@[at as int]@ == with_status(before, status@, now));
                assert(self@.tasks =~= old(self)@.tasks.update(
                    at as int,
                    with_status(before, status@, now),
                ));
            },
            None => {},
        }
    }

    /// Sets the status of the task with this id, stamped with the system
    /// clock's second.
    pub fn update_task_status(&mut self, task_id: usize, status: TaskStatus)
        ensures
            exists|now: u64| final(self)@ == old(self)@.set_status(task_id, status@, now),
            keeps_invariants(old(self)@, final(self)@),
    {
        let now = unix_seconds();
        self.update_task_status_at(task_id, status, now);
    }

    /// Appends a line to the output of the task with this id, dropping the
    /// oldest lines beyond the settings' output cap, and takes over the
    /// phase that the line reports, if any, and the progress that it reports
    /// where that is a fraction between 0 and 1. No task with the id: no
    /// change.
    pub fn append_output(&mut self, task_id: usize, line: String, settings: &AppSettings)
        ensures
            final(self)@ == old(self)@.append(task_id, line@, settings.output_cap()),
            keeps_invariants(old(self)@, final(self)@),
            final(self)@.tasks.len() == old(self)@.tasks.len(),
            forall|i: int|
                0 <= i < final(self)@.tasks.len() ==> (#[trigger] final(self)@.tasks[i]).progress
                    == old(self)@.tasks[i].progress || (final(self)@.tasks[i].progress
                    == progress_of(line@) && progress_of(line@) is Some && within_unit(
                    progress_of(line@)->0,
                )),
    {
        proof {
            lemma_append_progress(old(self)@, task_id, line@, settings.output_cap());
            lemma_step_invariants(old(self)@, QueueOp::Append { id: task_id, line: line@, limit: settings.output_cap() });
        }
        match self.position(&Select::Id(task_id), 0) {
            Some(at) => {
                let ghost before = self.tasks@[at as int]@;
                match parse_progress(line.as_str()) {
                    Some(p) => {
                        if p.is_within_unit() {
                            self.tasks[at].progress = Some(p);
                        }
                    },
                    None => {},
                }
                match parse_phase(line.as_str()) {
                    Some(phase) => {
                        self.tasks[at].phase = Some(phase);
                    },
                    None => {},
                }
                self.tasks[at].output.push(line);
                assert(strs(self.tasks@[at as int].output@) =~= before.output.push(line@));
                let limit = settings.output_cap();
                let len = self.tasks[at].output.len();
                if len > limit {
                    let kept = self.tasks[at].output.split_off(len - limit);
                    self.tasks[at].output = kept;
                    assert(strs(self.tasks@[at as int].output@) =~= before.output.push(line@).skip(
                        len - limit,
                    ));
                }
                assert(self.tasks@[at as int]@ == with_line(before, line@, limit));
                assert(self@.tasks =~= old(self)@.tasks.update(
                    at as int,
                    with_line(before, line@, limit),
                ));
            },
            None => {},
        }
    }

    /// Keeps only the tasks that `sel` takes and says whether any left.
    fn retain(&mut self, sel: &Select) -> (changed: bool)
        ensures
            final(self)@ == old(self)@.retain(*sel),
            changed == (final(self)@.tasks.len() != old(self)@.tasks.len()),
    {
        let mut all: Vec<Task> = Vec::new();
        core::mem::swap(&mut self.tasks, &mut all);
        let ghost orig = all@;
        let before = all.len();
        assert(task_views(orig.take(0)) =~= Seq::empty());
        assert(keep(Seq::empty(), *sel) =~= Seq::empty()) by {
            reveal(Seq::filter);
        }
        for t in it: all
            invariant
                it.seq() == orig,
                self.next_id == old(self).next_id,
                self.cancel_requested == old(self).cancel_requested,
                task_views(self.tasks@) == keep(task_views(orig.take(it.index() as int)), *sel),
        {
            proof {
                let i = it.index() as int;
                assert(task_views(orig.take(i + 1)) =~= task_views(orig.take(i)).push(t@));
                task_views(orig.take(i)).lemma_filter_push(t@, taker(*sel));
            }
            if sel.holds(&t) {
                self.tasks.push(t);
                assert(task_views(self.tasks@) =~= keep(
                    task_views(orig.take(it.index() as int)),
                    *sel,
                ).push(t@));
            }
        }
        assert(orig.take(orig.len() as int) =~= orig);
        self.tasks.len() != before
    }

    /// Removes every task that has ended: completed, canceled or failed.
    pub fn clear_completed(&mut self)
        ensures
            final(self)@ == old(self)@.retain(Select::Live),
            keeps_invariants(old(self)@, final(self)@),
    {
        proof {
            lemma_step_invariants(old(self)@, QueueOp::ClearCompleted);
        }
        self.retain(&Select::Live);
    }

    /// Makes the first queued task running at second `now` and returns a copy
    /// of it as it then is; returns nothing, and changes nothing, where no
    /// task waits.
    pub fn claim_next_queued_task_at(&mut self, now: u64) -> (claimed: Option<Task>)
        ensures
            final(self)@ == old(self)@.claim(now),
            match claimed {
                Some(t) => old(self)@.claimed(now) == Some(t@),
                None => old(self)@.claimed(now) is None,
            },
            keeps_invariants(old(self)@, final(self)@),
    {
        proof {
            lemma_step_invariants(old(self)@, QueueOp::Claim { now });
        }
        match self.position(&Select::Queued, 0) {
            Some(at) => {
                let ghost before = self.tasks@[at as int]@;
                self.tasks[at].started_at_unix = Some(now);
                self.tasks[at].phase = Some("Preparing".to_owned());
                self.tasks[at].finished_at_unix = None;
                self.tasks[at].status = TaskStatus::Running;
                assert(self.tasks@[at as int]@ == with_status(before, StatusView::Running, now));
                assert(self@.tasks =~= old(self)@.tasks.update(
                    at as int,
                    with_status(before, StatusView::Running, now),
                ));
                Some(self.tasks[at].clone())
            },
            None => None,
        }
    }

    /// Makes the first queued task running, stamped with the system clock's
    /// second, and returns a copy of it.
    pub fn claim_next_queued_task(&mut self) -> (claimed: Option<Task>)
        ensures
            exists|now: u64|
                final(self)@ == old(self)@.claim(now) && match claimed {
                    Some(t) => old(self)@.claimed(now) == Some(t@),
                    None => old(self)@.claimed(now) is None,
                },
            keeps_invariants(old(self)@, final(self)@),
    {
        let now = unix_seconds();
        self.claim_next_queued_task_at(now)
    }

    /// Removes the task with this id if it still waits, and says whether it
    /// did. A task that runs or has ended stays.
    pub fn cancel_queued_task(&mut self, task_id: usize) -> (removed: bool)
        ensures
            final(self)@ == old(self)@.retain(Select::NotQueuedId(task_id)),
            removed == (final(self)@.tasks.len() != old(self)@.tasks.len()),
            keeps_invariants(old(self)@, final(self)@),
    {
        proof {
            lemma_step_invariants(old(self)@, QueueOp::CancelQueued { id: task_id });
        }
        self.retain(&Select::NotQueuedId(task_id))
    }

    /// Exchanges the tasks at two positions.
    fn swap_tasks(&mut self, a: usize, b: usize)
        requires
            a < b < old(self).tasks.len(),
        ensures
            final(self)@ == old(self)@.swap(a as int, b as int),
    {
        let hi = self.tasks.remove(b);
        let lo = self.tasks.remove(a);
        self.tasks.insert(a, hi);
        self.tasks.insert(b, lo);
        assert(self@.tasks =~= old(self)@.swap(a as int, b as int).tasks);
    }

    /// Moves the queued task with this id one place up among the queued
    /// tasks, by exchanging it with the nearest queued task before it. Returns
    /// false, and changes nothing, where the task does not wait or no queued
    /// task stands before it.
    pub fn move_queued_task_up(&mut self, task_id: usize) -> (moved: bool)
        ensures
            final(self)@ == old(self)@.move_up(task_id),
            moved == old(self)@.up_pair(task_id) is Some,
            keeps_invariants(old(self)@, final(self)@),
    {
        proof {
            lemma_step_invariants(old(self)@, QueueOp::MoveUp { id: task_id });
        }
        let at = match self.position(&Select::QueuedId(task_id), 0) {
            Some(at) => at,
            None => {
                return false;
            },
        };
        let prev = match self.position_before(&Select::Queued, at) {
            Some(prev) => prev,
            None => {
                return false;
            },
        };
        self.swap_tasks(prev, at);
        assert(old(self)@.swap(prev as int, at as int).tasks =~= old(self)@.swap(
            at as int,
            prev as int,
        ).tasks);
        true
    }

    /// Moves the queued task with this id one place down among the queued
    /// tasks, by exchanging it with the nearest queued task after it. Returns
    /// false, and changes nothing, where the task does not wait or no queued
    /// task stands after it.
    pub fn move_queued_task_down(&mut self, task_id: usize) -> (moved: bool)
        ensures
            final(self)@ == old(self)@.move_down(task_id),
            moved == old(self)@.down_pair(task_id) is Some,
            keeps_invariants(old(self)@, final(self)@),
    {
        proof {
            lemma_step_invariants(old(self)@, QueueOp::MoveDown { id: task_id });
        }
        let at = match self.position(&Select::QueuedId(task_id), 0) {
            Some(at) => at,
            None => {
                return false;
            },
        };
        let next = match self.position(&Select::Queued, at + 1) {
            Some(next) => next,
            None => {
                return false;
            },
        };
        self.swap_tasks(at, next);
        true
    }

    /// Moves the queued task with this id to the head of the queued tasks, so
    /// that it is claimed next. Returns false, and changes nothing, where the
    /// task does not wait or is the head already.
    pub fn run_queued_task_now(&mut self, task_id: usize) -> (moved: bool)
        ensures
            final(self)@ == old(self)@.run_now(task_id),
            moved == old(self)@.front_pair(task_id) is Some,
            keeps_invariants(old(self)@, final(self)@),
    {
        proof {
            lemma_step_invariants(old(self)@, QueueOp::RunNow { id: task_id });
        }
        let at = match self.position(&Select::QueuedId(task_id), 0) {
            Some(at) => at,
            None => {
                return false;
            },
        };
        let head = match self.position(&Select::Queued, 0) {
            Some(head) => head,
            None => {
                return false;
            },
        };
        if at == head {
            return false;
        }
        let ghost moved_task = self@.tasks[at as int];
        let task = self.tasks.remove(at);
        self.tasks.insert(head, task);
        assert(self@.tasks =~= old(self)@.tasks.remove(at as int).insert(head as int, moved_task));
        true
    }

    /// Records that the running task with this id is asked to stop and adds
    /// a notice to its output; the status does not change. Returns false, and
    /// changes nothing, where no running task has the id.
    pub fn request_cancel(&mut self, task_id: usize, settings: &AppSettings) -> (accepted: bool)
        ensures
            final(self)@ == old(self)@.request_cancel(task_id, settings.output_cap()),
            accepted == old(self)@.is_running(task_id),
            keeps_invariants(old(self)@, final(self)@),
    {
        proof {
            lemma_step_invariants(old(self)@, QueueOp::RequestCancel { id: task_id, limit: settings.output_cap() });
        }
        if self.position(&Select::RunningId(task_id), 0).is_none() {
            return false;
        }
        broadcast use vstd::std_specs::hash::group_hash_axioms;

        self.cancel_requested.insert(task_id);
        self.append_output(task_id, "Cancellation requested...".to_owned(), settings);
        true
    }

    /// Whether a request to cancel this id is pending.
    pub fn is_cancel_requested(&self, task_id: usize) -> (pending: bool)
        ensures
            pending == self@.cancel_requested.contains(task_id),
    {
        broadcast use vstd::std_specs::hash::group_hash_axioms;

        self.cancel_requested.contains(&task_id)
    }

    /// Consumes the pending request to cancel this id and says whether there
    /// was one.
    pub fn take_cancel_request(&mut self, task_id: usize) -> (pending: bool)
        ensures
            final(self)@ == old(self)@.take_cancel(task_id),
            pending == old(self)@.cancel_requested.contains(task_id),
            keeps_invariants(old(self)@, final(self)@),
    {
        proof {
            lemma_step_invariants(old(self)@, QueueOp::TakeCancel { id: task_id });
        }
        broadcast use vstd::std_specs::hash::group_hash_axioms;

        self.cancel_requested.remove(&task_id)
    }

    /// Removes the ended tasks that finished more than `minutes` minutes
    /// before second `now`, and says whether any left. With 0 minutes nothing
    /// is removed; an ended task without a finishing time stays.
    pub fn auto_clear_at(&mut self, minutes: u64, now: u64) -> (changed: bool)
        ensures
            final(self)@ == old(self)@.auto_clear(minutes, now),
            changed == (final(self)@.tasks.len() != old(self)@.tasks.len()),
            keeps_invariants(old(self)@, final(self)@),
    {
        proof {
            lemma_step_invariants(old(self)@, QueueOp::AutoClear { minutes, now });
        }
        if minutes == 0 {
            return false;
        }
        let window: u64 = if minutes > u64::MAX / 60 {
            u64::MAX
        } else {
            minutes * 60
        };
        let cutoff: u64 = if now >= window {
            now - window
        } else {
            0
        };
        self.retain(&Select::Since(cutoff))
    }

    /// Removes the ended tasks that are older than the settings' retention,
    /// by the system clock, and says whether any left.
    pub fn auto_clear_by_settings(&mut self, settings: &AppSettings) -> (changed: bool)
        ensures
            exists|now: u64|
                final(self)@ == old(self)@.auto_clear(
                    settings.auto_clear_completed_tasks_minutes,
                    now,
                ),
            changed == (final(self)@.tasks.len() != old(self)@.tasks.len()),
            keeps_invariants(old(self)@, final(self)@),
    {
        let now = unix_seconds();
        self.auto_clear_at(settings.auto_clear_completed_tasks_minutes, now)
    }

    /// Enqueues a new task of the same kind and target as the failed task
    /// with this id and returns the new id. The failed task stays as it is.
    /// Returns nothing, and changes nothing, where no failed task has the id.
    pub fn retry_failed_task(&mut self, task_id: usize) -> (new_id: Option<usize>)
        requires
            old(self)@.failed_at(task_id) is Some ==> old(self)@.next_id < usize::MAX,
        ensures
            final(self)@ == old(self)@.retry(task_id),
            new_id == if old(self)@.failed_at(task_id) is Some {
                Some(old(self)@.next_id)
            } else {
                None
            },
            retried(old(self)@, final(self)@, task_id, new_id),
            old(self)@.wf() && new_id is Some ==> new_id->0 != task_id && forall|i: int|
                0 <= i < old(self)@.tasks.len() ==> (#[trigger] old(self)@.tasks[i]).id
                    < new_id->0,
            keeps_invariants(old(self)@, final(self)@),
    {
        proof {
            lemma_step_invariants(old(self)@, QueueOp::Retry { id: task_id });
            lemma_retried(old(self)@, task_id);
        }
        let at = match self.position(&Select::Id(task_id), 0) {
            Some(at) => at,
            None => {
                return None;
            },
        };
        match &self.tasks[at].status {
            TaskStatus::Failed(_) => {},
            _ => {
                return None;
            },
        }
        let task_type = self.tasks[at].task_type;
        let package_name = self.tasks[at].package_name.clone();
        Some(self.add_task(task_type, package_name))
    }

    /// Ends the task with this id at second `now` and consumes its pending
    /// request to cancel. With a request pending the task is canceled,
    /// whatever the outcome; else it is completed on success and failed, with
    /// the reason, on failure.
    pub fn finalize_task_at(&mut self, task_id: usize, outcome: Result<(), String>, now: u64)
        ensures
            final(self)@ == old(self)@.finalize(task_id, outcome_view(outcome), now),
            keeps_invariants(old(self)@, final(self)@),
    {
        proof {
            lemma_step_invariants(old(self)@, QueueOp::Finalize { id: task_id, outcome: outcome_view(outcome), now });
        }
        let pending = self.take_cancel_request(task_id);
        let status = if pending {
            TaskStatus::Canceled
        } else {
            match outcome {
                Ok(_) => TaskStatus::Completed,
                Err(reason) => TaskStatus::Failed(reason),
            }
        };
        self.update_task_status_at(task_id, status, now);
    }

    /// Ends the task with this id, stamped with the system clock's second.
    pub fn finalize_task(&mut self, task_id: usize, outcome: Result<(), String>)
        ensures
            exists|now: u64|
                final(self)@ == old(self)@.finalize(task_id, outcome_view(outcome), now),
            keeps_invariants(old(self)@, final(self)@),
    {
        let now = unix_seconds();
        self.finalize_task_at(task_id, outcome, now);
    }
}

} // verus!
