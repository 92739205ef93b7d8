use parut::platform::{seconds_or_epoch, unix_seconds};
use parut::progress::Progress;
use parut::settings::AppSettings;
use parut::task_queue::{Task, TaskQueue, TaskStatus, TaskType};
use parut::terminal::{Action, ChildStatus, Event};
use parut::worker::{TaskWorker, Tick};

fn ids(queue: &TaskQueue) -> Vec<usize> {
    queue.get_tasks().iter().map(|t| t.id).collect()
}

fn status_of(queue: &TaskQueue, id: usize) -> TaskStatus {
    queue
        .get_tasks()
        .into_iter()
        .find(|t| t.id == id)
        .map(|t| t.status)
        .unwrap()
}

fn settings_with_cap(cap: usize) -> AppSettings {
    let mut s = AppSettings::default();
    s.max_parallel_tasks = cap;
    s
}

#[test]
fn new_task_is_queued_and_bare() {
    let t = Task::new(7, TaskType::Remove, "foo".to_string());
    assert_eq!(t.id, 7);
    assert_eq!(t.task_type, TaskType::Remove);
    assert_eq!(t.package_name, "foo");
    assert_eq!(t.status, TaskStatus::Queued);
    assert!(t.output.is_empty());
    assert_eq!(t.progress, None);
    assert_eq!(t.phase, None);
    assert_eq!(t.started_at_unix, None);
    assert_eq!(t.finished_at_unix, None);
}

#[test]
fn ids_are_distinct_and_increase() {
    let mut q = TaskQueue::new();
    let a = q.add_task(TaskType::Install, "a".to_string());
    let b = q.add_task(TaskType::Install, "b".to_string());
    q.cancel_queued_task(a);
    q.clear_completed();
    let c = q.add_task(TaskType::Remove, "c".to_string());
    assert_eq!((a, b, c), (0, 1, 2));
    assert_eq!(q.next_id(), 3);
    assert_eq!(ids(&q), vec![1, 2]);
}

#[test]
fn tasks_are_claimed_in_enqueue_order() {
    let mut q = TaskQueue::new();
    for name in ["a", "b", "c"] {
        q.add_task(TaskType::Install, name.to_string());
    }
    let first = q.claim_next_queued_task_at(10).unwrap();
    let second = q.claim_next_queued_task_at(11).unwrap();
    q.add_task(TaskType::Install, "d".to_string());
    let third = q.claim_next_queued_task_at(12).unwrap();
    let fourth = q.claim_next_queued_task_at(13).unwrap();
    assert_eq!((first.id, second.id, third.id, fourth.id), (0, 1, 2, 3));
    assert!(q.claim_next_queued_task_at(14).is_none());
}

#[test]
fn claim_stamps_the_task() {
    let mut q = TaskQueue::new();
    q.add_task(TaskType::Install, "a".to_string());
    let t = q.claim_next_queued_task_at(42).unwrap();
    assert_eq!(t.status, TaskStatus::Running);
    assert_eq!(t.started_at_unix, Some(42));
    assert_eq!(t.finished_at_unix, None);
    assert_eq!(t.phase.as_deref(), Some("Preparing"));
    let stored = &q.get_tasks()[0];
    assert_eq!(stored.status, TaskStatus::Running);
    assert_eq!(stored.started_at_unix, Some(42));
    assert_eq!(q.running_count(), 1);
    assert!(q.has_running_task());
}

#[test]
fn claim_with_the_clock_makes_the_task_running() {
    let mut q = TaskQueue::new();
    q.add_task(TaskType::Install, "a".to_string());
    let t = q.claim_next_queued_task().unwrap();
    assert_eq!(t.status, TaskStatus::Running);
    assert!(t.started_at_unix.is_some());
    assert!(q.claim_next_queued_task().is_none());
}

#[test]
fn running_count_never_exceeds_the_cap() {
    let settings = settings_with_cap(2);
    let mut q = TaskQueue::new();
    for i in 0..5 {
        q.add_task(TaskType::Install, format!("p{}", i));
    }
    let mut dispatched = Vec::new();
    for now in 0..10u64 {
        match TaskWorker::tick_at(&mut q, &settings, now) {
            Tick::Dispatch(t) => dispatched.push(t.id),
            Tick::Busy => {}
            Tick::Idle => unreachable!(),
        }
        assert!(q.running_count() <= 2);
    }
    assert_eq!(dispatched, vec![0, 1]);
    q.finalize_task_at(0, Ok(()), 20);
    assert!(matches!(TaskWorker::tick_at(&mut q, &settings, 21), Tick::Dispatch(t) if t.id == 2));
    assert!(matches!(TaskWorker::tick_at(&mut q, &settings, 22), Tick::Busy));
    assert_eq!(q.running_count(), 2);
}

#[test]
fn cap_below_one_counts_as_one() {
    let settings = settings_with_cap(0);
    assert_eq!(settings.parallel_cap(), 1);
    let mut q = TaskQueue::new();
    q.add_task(TaskType::Install, "a".to_string());
    q.add_task(TaskType::Install, "b".to_string());
    assert!(matches!(TaskWorker::tick_at(&mut q, &settings, 1), Tick::Dispatch(_)));
    assert!(matches!(TaskWorker::tick_at(&mut q, &settings, 2), Tick::Busy));
}

#[test]
fn tick_waits_by_what_it_found() {
    let settings = settings_with_cap(1);
    let mut q = TaskQueue::new();
    let idle = TaskWorker::tick_at(&mut q, &settings, 1);
    assert!(matches!(idle, Tick::Idle));
    assert_eq!(idle.wait_millis(), 1000);
    q.add_task(TaskType::Install, "a".to_string());
    q.add_task(TaskType::Install, "b".to_string());
    let dispatch = TaskWorker::tick_at(&mut q, &settings, 2);
    assert_eq!(dispatch.wait_millis(), 0);
    let busy = TaskWorker::tick_at(&mut q, &settings, 3);
    assert!(matches!(busy, Tick::Busy));
    assert_eq!(busy.wait_millis(), 500);
}

#[test]
fn tick_with_the_clock_claims_a_task() {
    let settings = settings_with_cap(1);
    let mut q = TaskQueue::new();
    q.add_task(TaskType::Install, "a".to_string());
    assert!(matches!(TaskWorker::tick(&mut q, &settings), Tick::Dispatch(t) if t.id == 0));
    assert!(matches!(TaskWorker::tick(&mut q, &settings), Tick::Busy));
    q.finalize_task(0, Ok(()));
    assert!(matches!(TaskWorker::tick(&mut q, &settings), Tick::Idle));
}

#[test]
fn a_task_is_claimed_at_most_once() {
    let mut q = TaskQueue::new();
    q.add_task(TaskType::Install, "a".to_string());
    q.add_task(TaskType::Install, "b".to_string());
    let mut seen = Vec::new();
    while let Some(t) = q.claim_next_queued_task_at(5) {
        assert!(!seen.contains(&t.id));
        seen.push(t.id);
        q.move_queued_task_up(1);
        q.run_queued_task_now(0);
    }
    assert_eq!(seen, vec![0, 1]);
}

#[test]
fn output_keeps_the_most_recent_lines() {
    let mut settings = AppSettings::default();
    settings.task_output_lines_limit = 60;
    let mut q = TaskQueue::new();
    let id = q.add_task(TaskType::Install, "a".to_string());
    for i in 0..100 {
        q.append_output(id, format!("line {}", i), &settings);
        assert!(q.get_tasks()[0].output.len() <= 60);
    }
    let out = &q.get_tasks()[0].output;
    assert_eq!(out.len(), 60);
    assert_eq!(out[0], "line 40");
    assert_eq!(out[59], "line 99");
}

#[test]
fn output_cap_below_fifty_counts_as_fifty() {
    let mut settings = AppSettings::default();
    settings.task_output_lines_limit = 3;
    assert_eq!(settings.output_cap(), 50);
    let mut q = TaskQueue::new();
    let id = q.add_task(TaskType::Install, "a".to_string());
    for i in 0..55 {
        q.append_output(id, format!("{}", i), &settings);
    }
    let out = &q.get_tasks()[0].output;
    assert_eq!(out.len(), 50);
    assert_eq!(out[0], "5");
}

#[test]
fn a_lowered_cap_cuts_at_the_next_line() {
    let mut settings = AppSettings::default();
    settings.task_output_lines_limit = 80;
    let mut q = TaskQueue::new();
    let id = q.add_task(TaskType::Install, "a".to_string());
    for i in 0..80 {
        q.append_output(id, format!("{}", i), &settings);
    }
    settings.task_output_lines_limit = 50;
    q.append_output(id, "last".to_string(), &settings);
    let out = &q.get_tasks()[0].output;
    assert_eq!(out.len(), 50);
    assert_eq!(out[0], "31");
    assert_eq!(out[49], "last");
}

#[test]
fn output_sets_progress_and_phase_and_keeps_them() {
    let settings = AppSettings::default();
    let mut q = TaskQueue::new();
    let id = q.add_task(TaskType::Install, "a".to_string());
    q.append_output(id, "downloading... 45%".to_string(), &settings);
    let t = &q.get_tasks()[0];
    assert_eq!(t.progress, Some(Progress { numerator: 45, denominator: 100 }));
    assert_eq!(t.phase.as_deref(), Some("Downloading"));
    q.append_output(id, "nothing to see".to_string(), &settings);
    let t = &q.get_tasks()[0];
    assert_eq!(t.progress, Some(Progress { numerator: 45, denominator: 100 }));
    assert_eq!(t.phase.as_deref(), Some("Downloading"));
    q.append_output(id, "(2/5) checking keys".to_string(), &settings);
    let t = &q.get_tasks()[0];
    assert_eq!(t.progress, Some(Progress { numerator: 2, denominator: 5 }));
    assert_eq!(t.phase.as_deref(), Some("Checking keys"));
    assert_eq!(t.output.len(), 3);
    q.append_output(99, "lost".to_string(), &settings);
    assert_eq!(q.get_tasks()[0].output.len(), 3);
}

#[test]
fn cancel_lands_before_exit_means_canceled() {
    let settings = AppSettings::default();
    for outcome in [Ok(()), Err("Operation failed - check terminal output".to_string())] {
        let mut q = TaskQueue::new();
        let id = q.add_task(TaskType::Install, "a".to_string());
        q.claim_next_queued_task_at(1);
        assert!(q.request_cancel(id, &settings));
        assert!(q.is_cancel_requested(id));
        assert_eq!(status_of(&q, id), TaskStatus::Running);
        q.finalize_task_at(id, outcome, 9);
        assert_eq!(status_of(&q, id), TaskStatus::Canceled);
        assert_eq!(q.get_tasks()[0].finished_at_unix, Some(9));
        assert!(!q.is_cancel_requested(id));
    }
}

#[test]
fn without_cancel_the_outcome_decides() {
    let mut q = TaskQueue::new();
    let a = q.add_task(TaskType::Install, "a".to_string());
    let b = q.add_task(TaskType::Install, "b".to_string());
    q.claim_next_queued_task_at(1);
    q.claim_next_queued_task_at(1);
    q.finalize_task_at(a, Ok(()), 5);
    q.finalize_task_at(b, Err("boom".to_string()), 6);
    assert_eq!(status_of(&q, a), TaskStatus::Completed);
    assert_eq!(status_of(&q, b), TaskStatus::Failed("boom".to_string()));
    assert_eq!(q.running_count(), 0);
    assert!(!q.has_running_task());
}

#[test]
fn finalize_with_the_clock_ends_the_task() {
    let mut q = TaskQueue::new();
    let a = q.add_task(TaskType::Install, "a".to_string());
    q.claim_next_queued_task_at(1);
    q.finalize_task(a, Ok(()));
    assert_eq!(status_of(&q, a), TaskStatus::Completed);
    assert!(q.get_tasks()[0].finished_at_unix.is_some());
}

#[test]
fn request_cancel_is_for_running_tasks_only() {
    let settings = AppSettings::default();
    let mut q = TaskQueue::new();
    let id = q.add_task(TaskType::Install, "a".to_string());
    assert!(!q.request_cancel(id, &settings));
    assert!(!q.request_cancel(17, &settings));
    assert!(!q.is_cancel_requested(id));
    q.claim_next_queued_task_at(1);
    assert!(q.request_cancel(id, &settings));
    assert_eq!(q.get_tasks()[0].output, vec!["Cancellation requested...".to_string()]);
    assert!(q.take_cancel_request(id));
    assert!(!q.take_cancel_request(id));
}

#[test]
fn retry_creates_a_new_task_and_keeps_the_failed_one() {
    let mut q = TaskQueue::new();
    let id = q.add_task(TaskType::Remove, "foo".to_string());
    assert_eq!(q.retry_failed_task(id), None);
    q.claim_next_queued_task_at(1);
    assert_eq!(q.retry_failed_task(id), None);
    q.finalize_task_at(id, Err("boom".to_string()), 2);
    let new_id = q.retry_failed_task(id).unwrap();
    assert_ne!(new_id, id);
    assert_eq!(new_id, 1);
    let tasks = q.get_tasks();
    assert_eq!(tasks.len(), 2);
    assert_eq!(tasks[0].id, id);
    assert_eq!(tasks[0].status, TaskStatus::Failed("boom".to_string()));
    assert_eq!(tasks[0].finished_at_unix, Some(2));
    assert_eq!(tasks[1].id, new_id);
    assert_eq!(tasks[1].task_type, TaskType::Remove);
    assert_eq!(tasks[1].package_name, "foo");
    assert_eq!(tasks[1].status, TaskStatus::Queued);
    assert_eq!(tasks[1].started_at_unix, None);
    assert_eq!(q.retry_failed_task(99), None);
}

#[test]
fn cancel_queued_removes_only_waiting_tasks() {
    let mut q = TaskQueue::new();
    let a = q.add_task(TaskType::Install, "a".to_string());
    let b = q.add_task(TaskType::Install, "b".to_string());
    q.claim_next_queued_task_at(1);
    assert!(!q.cancel_queued_task(a));
    assert!(q.cancel_queued_task(b));
    assert!(!q.cancel_queued_task(b));
    assert_eq!(ids(&q), vec![a]);
}

#[test]
fn moving_swaps_with_the_nearest_queued_neighbour() {
    let mut q = TaskQueue::new();
    for name in ["a", "b", "c", "d"] {
        q.add_task(TaskType::Install, name.to_string());
    }
    q.claim_next_queued_task_at(1);
    q.update_task_status_at(2, TaskStatus::Completed, 2);
    assert!(q.move_queued_task_up(3));
    assert_eq!(ids(&q), vec![0, 3, 2, 1]);
    assert!(!q.move_queued_task_up(3));
    assert!(!q.move_queued_task_up(0));
    assert!(!q.move_queued_task_up(2));
    assert!(!q.move_queued_task_up(42));
    assert!(q.move_queued_task_down(3));
    assert_eq!(ids(&q), vec![0, 1, 2, 3]);
    assert!(!q.move_queued_task_down(3));
    assert!(!q.move_queued_task_down(0));
}

#[test]
fn run_now_moves_to_the_head_of_the_queued() {
    let mut q = TaskQueue::new();
    for name in ["a", "b", "c", "d"] {
        q.add_task(TaskType::Install, name.to_string());
    }
    q.claim_next_queued_task_at(1);
    assert!(q.run_queued_task_now(3));
    assert_eq!(ids(&q), vec![0, 3, 1, 2]);
    assert!(!q.run_queued_task_now(3));
    assert!(!q.run_queued_task_now(0));
    assert!(!q.run_queued_task_now(9));
    assert_eq!(q.claim_next_queued_task_at(2).unwrap().id, 3);
}

#[test]
fn clear_completed_removes_ended_tasks() {
    let mut q = TaskQueue::new();
    for name in ["a", "b", "c", "d", "e"] {
        q.add_task(TaskType::Install, name.to_string());
    }
    q.update_task_status_at(0, TaskStatus::Completed, 1);
    q.update_task_status_at(1, TaskStatus::Canceled, 1);
    q.update_task_status_at(2, TaskStatus::Failed("x".to_string()), 1);
    q.update_task_status_at(3, TaskStatus::Running, 1);
    q.clear_completed();
    assert_eq!(ids(&q), vec![3, 4]);
}

#[test]
fn auto_clear_removes_by_age() {
    let mut q = TaskQueue::new();
    for name in ["a", "b", "c"] {
        q.add_task(TaskType::Install, name.to_string());
    }
    q.update_task_status_at(0, TaskStatus::Completed, 1000);
    q.update_task_status_at(1, TaskStatus::Completed, 1300);
    assert!(!q.auto_clear_at(0, 5000));
    assert!(!q.auto_clear_at(5, 1299));
    assert!(!q.auto_clear_at(5, 1300));
    assert!(q.auto_clear_at(5, 1301));
    assert_eq!(ids(&q), vec![1, 2]);
    assert!(!q.auto_clear_at(u64::MAX, 5000));
    assert!(q.auto_clear_at(5, 1601));
    assert_eq!(ids(&q), vec![2]);
    assert!(!q.auto_clear_at(5, 100));
}

#[test]
fn auto_clear_by_settings_follows_the_retention() {
    let mut settings = AppSettings::default();
    let mut q = TaskQueue::new();
    q.add_task(TaskType::Install, "a".to_string());
    q.update_task_status_at(0, TaskStatus::Completed, 1);
    assert!(!q.auto_clear_by_settings(&settings));
    settings.auto_clear_completed_tasks_minutes = 5;
    assert!(q.auto_clear_by_settings(&settings));
    assert!(q.get_tasks().is_empty());
}

#[test]
fn status_update_stamps_by_kind() {
    let mut q = TaskQueue::new();
    q.add_task(TaskType::Install, "a".to_string());
    q.update_task_status_at(0, TaskStatus::Running, 5);
    let t = &q.get_tasks()[0];
    assert_eq!((t.started_at_unix, t.finished_at_unix), (Some(5), None));
    assert_eq!(t.phase.as_deref(), Some("Preparing"));
    q.update_task_status_at(0, TaskStatus::Failed("e".to_string()), 8);
    let t = &q.get_tasks()[0];
    assert_eq!((t.started_at_unix, t.finished_at_unix), (Some(5), Some(8)));
    q.update_task_status_at(0, TaskStatus::Running, 9);
    let t = &q.get_tasks()[0];
    assert_eq!((t.started_at_unix, t.finished_at_unix), (Some(9), None));
    q.update_task_status_at(3, TaskStatus::Running, 9);
    assert_eq!(q.get_tasks().len(), 1);
    q.update_task_status(0, TaskStatus::Completed);
    assert_eq!(q.get_tasks()[0].status, TaskStatus::Completed);
}

fn drive(
    queue: &mut TaskQueue,
    task: &Task,
    settings: &AppSettings,
    installed: &[&str],
    cancel_after_polls: Option<usize>,
    exit: ChildStatus,
) -> (Result<(), String>, Vec<Action>) {
    let mut run = TaskWorker::execute_task(task, settings);
    let mut exit = Some(exit);
    let mut polls = 0;
    let mut actions = Vec::new();
    loop {
        let action = run.pending();
        let event = match &action {
            Action::Probe(name) => Event::Probed(installed.contains(&name.as_str())),
            Action::Spawn { .. } => Event::Spawned,
            Action::CheckCancel => {
                if cancel_after_polls == Some(polls) {
                    assert!(queue.request_cancel(task.id, settings));
                }
                TaskWorker::cancel_check(queue, task.id)
            }
            Action::Poll => {
                polls += 1;
                if polls < 3 {
                    Event::Polled(ChildStatus::Running)
                } else {
                    Event::Polled(exit.take().unwrap())
                }
            }
            Action::Sleep(ms) => {
                assert_eq!(*ms, 200);
                Event::Slept
            }
            Action::Kill => Event::Killed,
            Action::Finish(result) => {
                let result = result.clone();
                actions.push(action);
                return (result, actions);
            }
        };
        actions.push(action);
        TaskWorker::advance(queue, task.id, &mut run, event, settings);
    }
}

#[test]
fn scenario_happy_path() {
    let settings = settings_with_cap(1);
    let mut q = TaskQueue::new();
    let id = q.add_task(TaskType::Install, "foo".to_string());
    assert_eq!(id, 0);
    let task = match TaskWorker::tick_at(&mut q, &settings, 100) {
        Tick::Dispatch(t) => t,
        _ => unreachable!(),
    };
    let (result, actions) = drive(
        &mut q,
        &task,
        &settings,
        &["konsole"],
        None,
        ChildStatus::Exited { success: true },
    );
    assert_eq!(result, Ok(()));
    assert!(actions.iter().any(|a| matches!(a, Action::Spawn { program, arguments }
        if program == "konsole" && *arguments == vec!["-e", "paru", "-S", "--noconfirm", "foo"])));
    assert!(TaskWorker::finish_at(&mut q, &task, result, &settings, 200).is_none());
    let tasks = q.get_tasks();
    assert_eq!(tasks.len(), 1);
    assert_eq!(tasks[0].id, 0);
    assert_eq!(tasks[0].status, TaskStatus::Completed);
    assert_eq!(tasks[0].started_at_unix, Some(100));
    assert_eq!(tasks[0].finished_at_unix, Some(200));
    assert_eq!(
        tasks[0].output,
        vec![
            "Running in terminal: konsole paru -S --noconfirm foo".to_string(),
            "Terminal opened - waiting for completion...".to_string(),
        ]
    );
}

#[test]
fn scenario_no_terminal() {
    let mut settings = settings_with_cap(1);
    settings.notify_on_task_failed = true;
    let mut q = TaskQueue::new();
    q.add_task(TaskType::Install, "foo".to_string());
    let task = match TaskWorker::tick_at(&mut q, &settings, 100) {
        Tick::Dispatch(t) => t,
        _ => unreachable!(),
    };
    let (result, actions) =
        drive(&mut q, &task, &settings, &[], None, ChildStatus::Exited { success: true });
    let message = result.clone().unwrap_err();
    assert!(message.starts_with("No terminal emulator found"));
    assert_eq!(message, "No terminal emulator found. Last error: ");
    assert_eq!(actions.len(), 6);
    let notice = TaskWorker::finish_at(&mut q, &task, result, &settings, 200).unwrap();
    assert_eq!(notice.title, "Parut Task Failed");
    assert_eq!(notice.body, "Install foo: No terminal emulator found. Last error: ");
    assert_eq!(status_of(&q, 0), TaskStatus::Failed(message));
}

#[test]
fn scenario_cancel_mid_run() {
    let settings = settings_with_cap(1);
    let mut q = TaskQueue::new();
    let id = q.add_task(TaskType::Update, "system".to_string());
    let task = match TaskWorker::tick_at(&mut q, &settings, 100) {
        Tick::Dispatch(t) => t,
        _ => unreachable!(),
    };
    assert_eq!(status_of(&q, id), TaskStatus::Running);
    let (result, actions) = drive(
        &mut q,
        &task,
        &settings,
        &["gnome-terminal", "xterm"],
        Some(1),
        ChildStatus::Exited { success: false },
    );
    assert_eq!(result, Err("Task canceled by user".to_string()));
    assert!(actions.iter().any(|a| matches!(a, Action::Kill)));
    assert!(actions.iter().any(|a| matches!(a, Action::Spawn { program, arguments }
        if program == "gnome-terminal" && *arguments == vec!["--", "paru", "-Syu", "--noconfirm"])));
    TaskWorker::finish(&mut q, &task, result, &settings);
    assert_eq!(status_of(&q, id), TaskStatus::Canceled);
    assert_eq!(
        q.get_tasks()[0].output,
        vec![
            "Running in terminal: gnome-terminal paru -Syu --noconfirm".to_string(),
            "Terminal opened - waiting for completion...".to_string(),
            "Cancellation requested...".to_string(),
            "Task canceled by user.".to_string(),
        ]
    );
}

#[test]
fn notices_follow_the_settings() {
    let mut settings = AppSettings::default();
    let task = Task::new(3, TaskType::RemoveOrphans, "system".to_string());
    assert!(TaskWorker::notice(&task, &Ok(()), &settings).is_none());
    settings.notify_on_task_complete = true;
    let n = TaskWorker::notice(&task, &Ok(()), &settings).unwrap();
    assert_eq!(n.title, "Parut Task Completed");
    assert_eq!(n.body, "RemoveOrphans system");
    let n = TaskWorker::notice(&task, &Err("bad".to_string()), &settings).unwrap();
    assert_eq!(n.title, "Parut Task Failed");
    assert_eq!(n.body, "RemoveOrphans system: bad");
    settings.notify_on_task_failed = false;
    assert!(TaskWorker::notice(&task, &Err("bad".to_string()), &settings).is_none());
    assert_eq!(TaskWorker::kind_label(TaskType::UpdatePackage), "UpdatePackage");
    assert_eq!(TaskWorker::kind_label(TaskType::CleanCache), "CleanCache");
    assert_eq!(TaskWorker::kind_label(TaskType::Update), "Update");
}

#[test]
fn clock_before_the_epoch_counts_as_the_epoch() {
    assert_eq!(seconds_or_epoch(Some(1_700_000_000)), 1_700_000_000);
    assert_eq!(seconds_or_epoch(Some(0)), 0);
    assert_eq!(seconds_or_epoch(Some(u64::MAX)), u64::MAX);
    assert_eq!(seconds_or_epoch(None), 0);
    assert!(unix_seconds() > 1_000_000_000);
}

#[test]
fn a_task_set_back_to_waiting_loses_its_finishing_time() {
    let mut q = TaskQueue::new();
    q.add_task(TaskType::Install, "a".to_string());
    q.add_task(TaskType::Install, "b".to_string());
    q.update_task_status_at(0, TaskStatus::Running, 3);
    q.update_task_status_at(0, TaskStatus::Completed, 5);
    assert_eq!(q.get_tasks()[0].finished_at_unix, Some(5));
    q.update_task_status_at(0, TaskStatus::Queued, 8);
    let tasks = q.get_tasks();
    assert_eq!(tasks[0].status, TaskStatus::Queued);
    assert_eq!(tasks[0].finished_at_unix, None);
    assert_eq!(tasks[0].started_at_unix, Some(3));
    assert_eq!(tasks[1].status, TaskStatus::Queued);
    assert_eq!(tasks[1].finished_at_unix, None);
    for status in [
        TaskStatus::Queued,
        TaskStatus::Running,
        TaskStatus::Completed,
        TaskStatus::Canceled,
        TaskStatus::Failed("x".to_string()),
    ] {
        let ends = status.is_terminal();
        q.update_task_status_at(1, status.clone(), 11);
        let t = &q.get_tasks()[1];
        assert_eq!(t.status, status);
        assert_eq!(t.finished_at_unix.is_some(), ends);
        q.update_task_status(1, status);
        assert_eq!(q.get_tasks()[1].finished_at_unix.is_some(), ends);
    }
}

#[test]
fn progress_beyond_one_is_not_taken_over() {
    let settings = AppSettings::default();
    let mut q = TaskQueue::new();
    let id = q.add_task(TaskType::Install, "a".to_string());
    q.append_output(id, "200%".to_string(), &settings);
    assert_eq!(q.get_tasks()[0].progress, None);
    q.append_output(id, "(5/2) checking keys".to_string(), &settings);
    assert_eq!(q.get_tasks()[0].progress, None);
    assert_eq!(q.get_tasks()[0].phase.as_deref(), Some("Checking keys"));
    q.append_output(id, "got 100%".to_string(), &settings);
    assert_eq!(
        q.get_tasks()[0].progress,
        Some(Progress { numerator: 100, denominator: 100 })
    );
    q.append_output(id, "got 100.1%".to_string(), &settings);
    q.append_output(id, "(3/2)".to_string(), &settings);
    assert_eq!(
        q.get_tasks()[0].progress,
        Some(Progress { numerator: 100, denominator: 100 })
    );
    q.append_output(id, "(0/7)".to_string(), &settings);
    assert_eq!(
        q.get_tasks()[0].progress,
        Some(Progress { numerator: 0, denominator: 7 })
    );
    assert_eq!(q.get_tasks()[0].output.len(), 6);
    for t in q.get_tasks() {
        if let Some(p) = t.progress {
            assert!(p.is_within_unit());
            let f = p.numerator as f64 / p.denominator as f64;
            assert!((0.0..=1.0).contains(&f));
        }
    }
    assert!(!Progress { numerator: 1, denominator: 0 }.is_within_unit());
    assert!(!Progress { numerator: 3, denominator: 2 }.is_within_unit());
    assert!(Progress { numerator: 2, denominator: 2 }.is_within_unit());
}
