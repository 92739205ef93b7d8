//! The scheduler's decisions: when to claim the next task, what to run for
//! it, how its output reaches the queue, and how it ends.

use crate::platform::unix_seconds;
use crate::paru::{update_system_arguments, ParuBackend};
use crate::queue_laws::{lemma_tick_within_cap, tick};
use crate::settings::AppSettings;
use crate::task_queue::{
    keeps_invariants, outcome_view, QueueView, Task, TaskQueue, TaskType, TaskView,
};
use crate::terminal::{candidates_for, Event, EventView, RunView, TerminalRun};
use crate::text::strs;
use vstd::prelude::*;

verus! {

/// What one turn of the scheduler came to.
#[derive(Debug)]
pub enum Tick {
    /// As many tasks run as may: wait, then look again.
    Busy,
    /// No task waits: wait longer, then look again.
    Idle,
    /// A task was claimed and is to be run; look again at once.
    Dispatch(Task),
}

/// The outcome of a turn as a mathematical value.
pub enum TickView {
    Busy,
    Idle,
    Dispatch(TaskView),
}

impl View for Tick {
    type V = TickView;

    open spec fn view(&self) -> TickView {
        match self {
            Tick::Busy => TickView::Busy,
            Tick::Idle => TickView::Idle,
            Tick::Dispatch(task) => TickView::Dispatch(task@),
        }
    }
}

/// The milliseconds to wait while the cap is reached.
pub const BUSY_WAIT_MS: u64 = 500;

/// The milliseconds to wait while no task is queued.
pub const IDLE_WAIT_MS: u64 = 1000;

impl Tick {
    /// The milliseconds to wait before the next turn.
    pub fn wait_millis(&self) -> (ms: u64)
        ensures
            ms == match self@ {
                TickView::Busy => BUSY_WAIT_MS,
                TickView::Idle => IDLE_WAIT_MS,
                TickView::Dispatch(_) => 0,
            },
    {
        match self {
            Tick::Busy => BUSY_WAIT_MS,
            Tick::Idle => IDLE_WAIT_MS,
            Tick::Dispatch(_) => 0,
        }
    }
}

/// What a turn comes to: busy where `cap` tasks run once the old ended
/// tasks are cleared; else the first queued task, claimed; else idle.
pub open spec fn tick_outcome(q: QueueView, cap: usize, minutes: u64, now: u64) -> TickView {
    let cleared = q.auto_clear(minutes, now);
    if cleared.running() >= cap {
        TickView::Busy
    } else {
        match cleared.claimed(now) {
            Some(task) => TickView::Dispatch(task),
            None => TickView::Idle,
        }
    }
}

/// The name of a kind of task.
pub open spec fn kind_name(task_type: TaskType) -> Seq<char> {
    match task_type {
        TaskType::Install => "Install"@,
        TaskType::Remove => "Remove"@,
        TaskType::Update => "Update"@,
        TaskType::UpdatePackage => "UpdatePackage"@,
        TaskType::CleanCache => "CleanCache"@,
        TaskType::RemoveOrphans => "RemoveOrphans"@,
    }
}

/// The package manager's arguments for a task of this kind and target
/// under the settings.
pub open spec fn task_arguments(
    task_type: TaskType,
    target: Seq<char>,
    scope: Seq<char>,
    ignored: Seq<Seq<char>>,
) -> Seq<Seq<char>> {
    match task_type {
        TaskType::Install => seq!["-S"@, "--noconfirm"@, target],
        TaskType::Remove => seq!["-Rns"@, "--noconfirm"@, target],
        TaskType::Update => update_system_arguments(scope, ignored),
        TaskType::UpdatePackage => seq!["-S"@, "--noconfirm"@, target],
        TaskType::CleanCache => seq!["-Sc"@, "--noconfirm"@],
        TaskType::RemoveOrphans => seq!["-c"@, "--noconfirm"@],
    }
}

/// A notification for the desktop.
#[derive(Debug)]
pub struct Notice {
    pub title: String,
    pub body: String,
}

/// A notification as mathematical values.
pub struct NoticeView {
    pub title: Seq<char>,
    pub body: Seq<char>,
}

impl View for Notice {
    type V = NoticeView;

    open spec fn view(&self) -> NoticeView {
        NoticeView { title: self.title@, body: self.body@ }
    }
}

/// The view of an optional notification.
pub open spec fn opt_notice(n: Option<Notice>) -> Option<NoticeView> {
    match n {
        Some(notice) => Some(notice@),
        None => None,
    }
}

/// The notification that the end of a run calls for: on success one that
/// names the task, if the settings ask for it; on failure one that names
/// the task and the reason, if the settings ask for that.
pub open spec fn notice_for(
    task_type: TaskType,
    target: Seq<char>,
    outcome: Result<(), Seq<char>>,
    on_complete: bool,
    on_failed: bool,
) -> Option<NoticeView> {
    match outcome {
        Ok(_) => if on_complete {
            Some(
                NoticeView {
                    title: "Parut Task Completed"@,
                    body: kind_name(task_type) + " "@ + target,
                },
            )
        } else {
            None
        },
        Err(reason) => if on_failed {
            Some(
                NoticeView {
                    title: "Parut Task Failed"@,
                    body: kind_name(task_type) + " "@ + target + ": "@ + reason,
                },
            )
        } else {
            None
        },
    }
}

/// The queue after the lines are appended in turn to the output of the task
/// with this id.
pub open spec fn append_lines(q: QueueView, id: usize, lines: Seq<Seq<char>>, limit: usize) -> QueueView
    decreases lines.len(),
{
    if lines.len() == 0 {
        q
    } else {
        append_lines(q.append(id, lines[0], limit), id, lines.drop_first(), limit)
    }
}

/// The scheduler.
pub struct TaskWorker;

impl TaskWorker {
    /// The name of a kind of task.
    pub fn kind_label(task_type: TaskType) -> (name: &'static str)
        ensures
            name@ == kind_name(task_type),
    {
        match task_type {
            TaskType::Install => "Install",
            TaskType::Remove => "Remove",
            TaskType::Update => "Update",
            TaskType::UpdatePackage => "UpdatePackage",
            TaskType::CleanCache => "CleanCache",
            TaskType::RemoveOrphans => "RemoveOrphans",
        }
    }

    /// One turn of the scheduler at second `now`: clears the ended tasks
    /// that are older than the settings keep them, then claims the first
    /// queued task unless as many tasks run as the settings allow. The count
    /// of running tasks rises by at most one, and not beyond the cap.
    pub fn tick_at(queue: &mut TaskQueue, settings: &AppSettings, now: u64) -> (outcome: Tick)
        ensures
            final(queue)@ == tick(
                old(queue)@,
                settings.parallel_cap(),
                settings.auto_clear_completed_tasks_minutes,
                now,
            ),
            outcome@ == tick_outcome(
                old(queue)@,
                settings.parallel_cap(),
                settings.auto_clear_completed_tasks_minutes,
                now,
            ),
            old(queue)@.running() <= settings.parallel_cap() ==> final(queue)@.running()
                <= settings.parallel_cap(),
            keeps_invariants(old(queue)@, final(queue)@),
    {
        proof {
            lemma_tick_within_cap(
                old(queue)@,
                settings.parallel_cap(),
                settings.auto_clear_completed_tasks_minutes,
                now,
            );
        }
        queue.auto_clear_at(settings.auto_clear_completed_tasks_minutes, now);
        if queue.running_count() >= settings.parallel_cap() {
            return Tick::Busy;
        }
        match queue.claim_next_queued_task_at(now) {
            Some(task) => Tick::Dispatch(task),
            None => Tick::Idle,
        }
    }

    /// One turn of the scheduler, by the system clock.
    pub fn tick(queue: &mut TaskQueue, settings: &AppSettings) -> (outcome: Tick)
        ensures
            exists|now: u64|
                final(queue)@ == tick(
                    old(queue)@,
                    settings.parallel_cap(),
                    settings.auto_clear_completed_tasks_minutes,
                    now,
                ) && outcome@ == tick_outcome(
                    old(queue)@,
                    settings.parallel_cap(),
                    settings.auto_clear_completed_tasks_minutes,
                    now,
                ),
            old(queue)@.running() <= settings.parallel_cap() ==> final(queue)@.running()
                <= settings.parallel_cap(),
            keeps_invariants(old(queue)@, final(queue)@),
    {
        let now = unix_seconds();
        Self::tick_at(queue, settings, now)
    }

    /// The run that carries out a task: the package manager with the
    /// arguments of the task's kind and target, in the terminal that the
    /// settings prefer.
    pub fn execute_task(task: &Task, settings: &AppSettings) -> (run: TerminalRun)
        ensures
            run@ == RunView::start(
                candidates_for(settings.terminal_preference@),
                task_arguments(
                    task@.task_type,
                    task@.package_name,
                    settings.default_update_scope@,
                    strs(settings.ignored_updates@),
                ),
            ),
            run@.wf(),
    {
        match task.task_type {
            TaskType::Install => ParuBackend::install_package(task.package_name.as_str(), settings),
            TaskType::Remove => ParuBackend::remove_package(task.package_name.as_str(), settings),
            TaskType::Update => ParuBackend::update_system(settings),
            TaskType::UpdatePackage => ParuBackend::update_package(
                task.package_name.as_str(),
                settings,
            ),
            TaskType::CleanCache => ParuBackend::clean_cache(settings),
            TaskType::RemoveOrphans => ParuBackend::remove_orphans(settings),
        }
    }

    /// The event that answers the run's question whether the user asked to
    /// cancel the task: what the queue has recorded for its id.
    pub fn cancel_check(queue: &TaskQueue, task_id: usize) -> (event: Event)
        ensures
            event@ == EventView::CancelChecked(queue@.cancel_requested.contains(task_id)),
    {
        Event::CancelChecked(queue.is_cancel_requested(task_id))
    }

    /// Hands `event` to the run of a task and appends the lines that the run
    /// emits to the task's output.
    pub fn advance(
        queue: &mut TaskQueue,
        task_id: usize,
        run: &mut TerminalRun,
        event: Event,
        settings: &AppSettings,
    )
        ensures
            final(run)@ == old(run)@.step(event@),
            old(run)@.wf() ==> final(run)@.wf(),
            final(queue)@ == append_lines(
                old(queue)@,
                task_id,
                old(run)@.emitted(event@),
                settings.output_cap(),
            ),
            keeps_invariants(old(queue)@, final(queue)@),
    {
        let lines = run.step(event);
        let ghost all = strs(lines@);
        let mut i: usize = 0;
        assert(all.skip(0) =~= all);
        while i < lines.len()
            invariant
                i <= lines.len(),
                all == strs(lines@),
                append_lines(old(queue)@, task_id, all, settings.output_cap()) == append_lines(
                    queue@,
                    task_id,
                    all.skip(i as int),
                    settings.output_cap(),
                ),
                keeps_invariants(old(queue)@, queue@),
            decreases lines.len() - i,
        {
            proof {
                assert(all.skip(i as int)[0] == lines@[i as int]@);
                assert(all.skip(i as int).drop_first() =~= all.skip(i + 1));
            }
            queue.append_output(task_id, lines[i].clone(), settings);
            i += 1;
        }
    }

    /// The notification that the end of a task's run calls for under the
    /// settings.
    pub fn notice(task: &Task, outcome: &Result<(), String>, settings: &AppSettings) -> (notice:
        Option<Notice>)
        ensures
            opt_notice(notice) == notice_for(
                task@.task_type,
                task@.package_name,
                outcome_view(*outcome),
                settings.notify_on_task_complete,
                settings.notify_on_task_failed,
            ),
    {
        match outcome {
            Ok(_) => {
                if settings.notify_on_task_complete {
                    let mut body = Self::kind_label(task.task_type).to_owned();
                    body.append(" ");
                    body.append(task.package_name.as_str());
                    Some(Notice { title: "Parut Task Completed".to_owned(), body })
                } else {
                    None
                }
            },
            Err(reason) => {
                if settings.notify_on_task_failed {
                    let mut body = Self::kind_label(task.task_type).to_owned();
                    body.append(" ");
                    body.append(task.package_name.as_str());
                    body.append(": ");
                    body.append(reason.as_str());
                    Some(Notice { title: "Parut Task Failed".to_owned(), body })
                } else {
                    None
                }
            },
        }
    }

    /// Ends a task at second `now` with the outcome of its run: the task
    /// becomes canceled where a request to cancel is pending, else completed
    /// or failed by the outcome. Returns the notification to send, if any.
    pub fn finish_at(
        queue: &mut TaskQueue,
        task: &Task,
        outcome: Result<(), String>,
        settings: &AppSettings,
        now: u64,
    ) -> (notice: Option<Notice>)
        ensures
            final(queue)@ == old(queue)@.finalize(task@.id, outcome_view(outcome), now),
            opt_notice(notice) == notice_for(
                task@.task_type,
                task@.package_name,
                outcome_view(outcome),
                settings.notify_on_task_complete,
                settings.notify_on_task_failed,
            ),
            keeps_invariants(old(queue)@, final(queue)@),
    {
        let notice = Self::notice(task, &outcome, settings);
        queue.finalize_task_at(task.id, outcome, now);
        notice
    }

    /// Ends a task with the outcome of its run, stamped with the system
    /// clock's second.
    pub fn finish(
        queue: &mut TaskQueue,
        task: &Task,
        outcome: Result<(), String>,
        settings: &AppSettings,
    ) -> (notice: Option<Notice>)
        ensures
            exists|now: u64|
                final(queue)@ == old(queue)@.finalize(task@.id, outcome_view(outcome), now),
            opt_notice(notice) == notice_for(
                task@.task_type,
                task@.package_name,
                outcome_view(outcome),
                settings.notify_on_task_complete,
                settings.notify_on_task_failed,
            ),
            keeps_invariants(old(queue)@, final(queue)@),
    {
        let now = unix_seconds();
        Self::finish_at(queue, task, outcome, settings, now)
    }
}

} // verus!
