use parut::paru::ParuBackend;
use parut::settings::AppSettings;
use parut::terminal::{
    known_terminal_names, launch_arguments_for, terminal_candidates, Action, ChildStatus, Event,
    TerminalRun,
};

fn strings(items: &[&str]) -> Vec<String> {
    items.iter().map(|s| s.to_string()).collect()
}

fn probes(run: &mut TerminalRun, installed: &[&str]) -> Vec<String> {
    let mut probed = Vec::new();
    loop {
        match run.pending() {
            Action::Probe(name) => {
                let found = installed.contains(&name.as_str());
                probed.push(name);
                run.step(Event::Probed(found));
                if found {
                    return probed;
                }
            }
            _ => return probed,
        }
    }
}

#[test]
fn known_terminals_come_in_order_of_preference() {
    assert_eq!(
        known_terminal_names(),
        strings(&["gnome-terminal", "konsole", "xterm", "xfce4-terminal", "alacritty"])
    );
    assert_eq!(terminal_candidates("auto"), known_terminal_names());
}

#[test]
fn preferred_terminal_moves_to_the_front() {
    assert_eq!(
        terminal_candidates("xterm"),
        strings(&["xterm", "gnome-terminal", "konsole", "xfce4-terminal", "alacritty"])
    );
    assert_eq!(
        terminal_candidates("gnome-terminal"),
        strings(&["gnome-terminal", "konsole", "xterm", "xfce4-terminal", "alacritty"])
    );
    assert_eq!(
        terminal_candidates("kitty"),
        strings(&["kitty", "gnome-terminal", "konsole", "xterm", "xfce4-terminal", "alacritty"])
    );
}

#[test]
fn each_terminal_has_its_own_way_to_run_a_command() {
    let args = strings(&["-S", "--noconfirm", "foo"]);
    assert_eq!(
        launch_arguments_for("gnome-terminal", &args),
        strings(&["--", "paru", "-S", "--noconfirm", "foo"])
    );
    for t in ["konsole", "xterm", "xfce4-terminal", "alacritty"] {
        assert_eq!(
            launch_arguments_for(t, &args),
            strings(&["-e", "paru", "-S", "--noconfirm", "foo"])
        );
    }
    assert!(launch_arguments_for("kitty", &args).is_empty());
}

#[test]
fn first_installed_candidate_is_launched() {
    let mut run = TerminalRun::new(terminal_candidates("auto"), strings(&["-Sc", "--noconfirm"]));
    assert!(run.outcome().is_none());
    let probed = probes(&mut run, &["xterm", "alacritty"]);
    assert_eq!(probed, strings(&["gnome-terminal", "konsole", "xterm"]));
    match run.pending() {
        Action::Spawn { program, arguments } => {
            assert_eq!(program, "xterm");
            assert_eq!(arguments, strings(&["-e", "paru", "-Sc", "--noconfirm"]));
        }
        other => panic!("unexpected {:?}", other),
    }
}

#[test]
fn launch_is_announced_and_polled_until_exit() {
    let mut run = TerminalRun::new(strings(&["xterm"]), strings(&["-c", "--noconfirm"]));
    assert_eq!(
        run.step(Event::Probed(true)),
        strings(&["Running in terminal: xterm paru -c --noconfirm"])
    );
    assert_eq!(
        run.step(Event::Spawned),
        strings(&["Terminal opened - waiting for completion..."])
    );
    for _ in 0..3 {
        assert!(matches!(run.pending(), Action::CheckCancel));
        assert!(run.step(Event::CancelChecked(false)).is_empty());
        assert!(matches!(run.pending(), Action::Poll));
        assert!(run.step(Event::Polled(ChildStatus::Running)).is_empty());
        assert!(matches!(run.pending(), Action::Sleep(200)));
        assert!(run.step(Event::Slept).is_empty());
    }
    run.step(Event::CancelChecked(false));
    assert!(run.step(Event::Polled(ChildStatus::Exited { success: true })).is_empty());
    assert!(matches!(run.pending(), Action::Finish(Ok(()))));
    assert_eq!(run.outcome(), Some(Ok(())));
}

#[test]
fn failed_exit_is_a_generic_failure() {
    let mut run = TerminalRun::new(strings(&["xterm"]), strings(&["-c"]));
    run.step(Event::Probed(true));
    run.step(Event::Spawned);
    run.step(Event::CancelChecked(false));
    run.step(Event::Polled(ChildStatus::Exited { success: false }));
    assert_eq!(
        run.outcome(),
        Some(Err("Operation failed - check terminal output".to_string()))
    );
}

#[test]
fn failure_to_wait_is_reported() {
    let mut run = TerminalRun::new(strings(&["xterm"]), strings(&["-c"]));
    run.step(Event::Probed(true));
    run.step(Event::Spawned);
    run.step(Event::CancelChecked(false));
    run.step(Event::Polled(ChildStatus::WaitFailed("gone".to_string())));
    assert_eq!(
        run.outcome(),
        Some(Err("Failed to wait for terminal: gone".to_string()))
    );
}

#[test]
fn cancellation_kills_and_wins_over_the_exit() {
    let mut run = TerminalRun::new(strings(&["xterm"]), strings(&["-c"]));
    run.step(Event::Probed(true));
    run.step(Event::Spawned);
    assert!(run.step(Event::CancelChecked(true)).is_empty());
    assert!(matches!(run.pending(), Action::Kill));
    assert!(run.step(Event::Polled(ChildStatus::Exited { success: true })).is_empty());
    assert!(matches!(run.pending(), Action::Kill));
    assert_eq!(run.step(Event::Killed), strings(&["Task canceled by user."]));
    assert_eq!(run.outcome(), Some(Err("Task canceled by user".to_string())));
}

#[test]
fn no_terminal_is_a_descriptive_failure() {
    let mut run = TerminalRun::new(terminal_candidates("auto"), strings(&["-c"]));
    let probed = probes(&mut run, &[]);
    assert_eq!(probed.len(), 5);
    assert_eq!(
        run.outcome(),
        Some(Err("No terminal emulator found. Last error: ".to_string()))
    );
    let mut none = TerminalRun::new(Vec::new(), strings(&["-c"]));
    assert_eq!(
        none.outcome(),
        Some(Err("No terminal emulator found. Last error: ".to_string()))
    );
    assert!(none.step(Event::Probed(true)).is_empty());
    assert!(matches!(none.pending(), Action::Finish(Err(_))));
}

#[test]
fn a_terminal_that_fails_to_launch_gives_way_to_the_next() {
    let mut run = TerminalRun::new(strings(&["konsole", "xterm"]), strings(&["-c"]));
    run.step(Event::Probed(true));
    assert!(run.step(Event::SpawnFailed("denied".to_string())).is_empty());
    assert!(matches!(run.pending(), Action::Probe(name) if name == "xterm"));
    run.step(Event::Probed(true));
    assert!(matches!(run.pending(), Action::Spawn { program, .. } if program == "xterm"));
    run.step(Event::SpawnFailed("no display".to_string()));
    assert_eq!(
        run.outcome(),
        Some(Err("Failed to spawn xterm: no display".to_string()))
    );
}

#[test]
fn last_launch_error_is_kept_when_later_candidates_are_missing() {
    let mut run = TerminalRun::new(strings(&["konsole", "xterm"]), strings(&["-c"]));
    run.step(Event::Probed(true));
    run.step(Event::SpawnFailed("denied".to_string()));
    run.step(Event::Probed(false));
    assert_eq!(
        run.outcome(),
        Some(Err("Failed to spawn konsole: denied".to_string()))
    );
}

#[test]
fn events_out_of_turn_change_nothing() {
    let mut run = TerminalRun::new(strings(&["xterm"]), strings(&["-c"]));
    for event in [
        Event::Spawned,
        Event::SpawnFailed("x".to_string()),
        Event::CancelChecked(true),
        Event::Polled(ChildStatus::Exited { success: true }),
        Event::Slept,
        Event::Killed,
    ] {
        assert!(run.step(event).is_empty());
        assert!(matches!(run.pending(), Action::Probe(name) if name == "xterm"));
    }
    run.step(Event::Probed(true));
    assert!(run.step(Event::Probed(true)).is_empty());
    assert!(matches!(run.pending(), Action::Spawn { .. }));
}

fn arguments_of(mut run: TerminalRun) -> Vec<String> {
    run.step(Event::Probed(true));
    match run.pending() {
        Action::Spawn { arguments, .. } => arguments,
        other => panic!("unexpected {:?}", other),
    }
}

#[test]
fn each_operation_has_its_arguments() {
    let s = AppSettings::default();
    assert_eq!(
        arguments_of(ParuBackend::install_package("foo", &s)),
        strings(&["--", "paru", "-S", "--noconfirm", "foo"])
    );
    assert_eq!(
        arguments_of(ParuBackend::remove_package("foo", &s)),
        strings(&["--", "paru", "-Rns", "--noconfirm", "foo"])
    );
    assert_eq!(
        arguments_of(ParuBackend::update_package("foo", &s)),
        strings(&["--", "paru", "-S", "--noconfirm", "foo"])
    );
    assert_eq!(
        arguments_of(ParuBackend::update_system(&s)),
        strings(&["--", "paru", "-Syu", "--noconfirm"])
    );
    assert_eq!(
        arguments_of(ParuBackend::clean_cache(&s)),
        strings(&["--", "paru", "-Sc", "--noconfirm"])
    );
    assert_eq!(
        arguments_of(ParuBackend::remove_orphans(&s)),
        strings(&["--", "paru", "-c", "--noconfirm"])
    );
    assert_eq!(
        arguments_of(ParuBackend::run_paru_in_terminal(strings(&["-Qu"]), &s)),
        strings(&["--", "paru", "-Qu"])
    );
}

#[test]
fn system_update_follows_scope_and_ignore_list() {
    let mut s = AppSettings::default();
    s.default_update_scope = "repo-only".to_string();
    assert_eq!(ParuBackend::update_arguments(&s), strings(&["-Syu", "--noconfirm", "--repo"]));
    s.default_update_scope = "aur-only".to_string();
    s.ignored_updates = strings(&[" linux ", "", "  ", "mesa"]);
    assert_eq!(
        ParuBackend::update_arguments(&s),
        strings(&["-Syu", "--noconfirm", "--aur", "--ignore", "linux,mesa"])
    );
    assert_eq!(ParuBackend::ignored_names(&s.ignored_updates), strings(&["linux", "mesa"]));
    s.default_update_scope = "all".to_string();
    s.ignored_updates = strings(&["  "]);
    assert_eq!(ParuBackend::update_arguments(&s), strings(&["-Syu", "--noconfirm"]));
}

#[test]
fn preferred_terminal_of_the_settings_is_probed_first() {
    let mut s = AppSettings::default();
    s.terminal_preference = "alacritty".to_string();
    let run = ParuBackend::clean_cache(&s);
    assert!(matches!(run.pending(), Action::Probe(name) if name == "alacritty"));
}
