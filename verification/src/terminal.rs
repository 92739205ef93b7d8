//! Running one package-manager command inside a terminal emulator.
//!
//! The run is a state machine. It asks for one action at a time: to test
//! whether a terminal is installed, to launch it, to see whether the user
//! asked to cancel, to poll the child, to sleep, to kill the child. The
//! caller performs the action and hands back what happened; the machine
//! decides what comes next and which lines go to the task's log.

use crate::text::{join, joined, same_text, strs};
use vstd::prelude::*;

verus! {

/// What polling the child process found.
#[derive(Debug)]
pub enum ChildStatus {
    Running,
    Exited { success: bool },
    WaitFailed(String),
}

/// What happened when the action asked for was performed.
#[derive(Debug)]
pub enum Event {
    /// Whether the terminal probed is installed.
    Probed(bool),
    /// The terminal was launched.
    Spawned,
    /// The terminal could not be launched, and why.
    SpawnFailed(String),
    /// Whether the user asked to cancel.
    CancelChecked(bool),
    /// What polling the child found.
    Polled(ChildStatus),
    /// The pause is over.
    Slept,
    /// The child was killed and has exited.
    Killed,
}

/// What the run asks its caller to do next.
#[derive(Debug)]
pub enum Action {
    /// Test whether this terminal can be found on the search path.
    Probe(String),
    /// Launch this program with these arguments.
    Spawn { program: String, arguments: Vec<String> },
    /// See whether the user asked to cancel.
    CheckCancel,
    /// Poll the child without blocking.
    Poll,
    /// Pause for this many milliseconds.
    Sleep(u64),
    /// Kill the child and wait for it to exit.
    Kill,
    /// Nothing more: the run has ended with this result.
    Finish(Result<(), String>),
}

/// Where a run stands.
#[derive(Debug)]
pub enum Stage {
    Probing,
    Launching,
    Checking,
    Polling,
    Sleeping,
    Killing,
    Finished(Result<(), String>),
}

/// What polling found, as a mathematical value.
pub enum ChildStatusView {
    Running,
    Exited { success: bool },
    WaitFailed(Seq<char>),
}

/// An event as a mathematical value.
pub enum EventView {
    Probed(bool),
    Spawned,
    SpawnFailed(Seq<char>),
    CancelChecked(bool),
    Polled(ChildStatusView),
    Slept,
    Killed,
}

/// An action as a mathematical value.
pub enum ActionView {
    Probe(Seq<char>),
    Spawn { program: Seq<char>, arguments: Seq<Seq<char>> },
    CheckCancel,
    Poll,
    Sleep(u64),
    Kill,
    Finish(Result<(), Seq<char>>),
}

/// A stage as a mathematical value.
pub enum StageView {
    Probing,
    Launching,
    Checking,
    Polling,
    Sleeping,
    Killing,
    Finished(Result<(), Seq<char>>),
}

/// The view of a result: success, or failure with its message.
pub open spec fn result_view(r: Result<(), String>) -> Result<(), Seq<char>> {
    match r {
        Ok(_) => Ok(()),
        Err(e) => Err(e@),
    }
}

impl View for ChildStatus {
    type V = ChildStatusView;

    open spec fn view(&self) -> ChildStatusView {
        match self {
            ChildStatus::Running => ChildStatusView::Running,
            ChildStatus::Exited { success } => ChildStatusView::Exited { success: *success },
            ChildStatus::WaitFailed(e) => ChildStatusView::WaitFailed(e@),
        }
    }
}

impl View for Event {
    type V = EventView;

    open spec fn view(&self) -> EventView {
        match self {
            Event::Probed(found) => EventView::Probed(*found),
            Event::Spawned => EventView::Spawned,
            Event::SpawnFailed(e) => EventView::SpawnFailed(e@),
            Event::CancelChecked(asked) => EventView::CancelChecked(*asked),
            Event::Polled(status) => EventView::Polled(status@),
            Event::Slept => EventView::Slept,
            Event::Killed => EventView::Killed,
        }
    }
}

impl View for Action {
    type V = ActionView;

    open spec fn view(&self) -> ActionView {
        match self {
            Action::Probe(name) => ActionView::Probe(name@),
            Action::Spawn { program, arguments } => ActionView::Spawn {
                program: program@,
                arguments: strs(arguments@),
            },
            Action::CheckCancel => ActionView::CheckCancel,
            Action::Poll => ActionView::Poll,
            Action::Sleep(ms) => ActionView::Sleep(*ms),
            Action::Kill => ActionView::Kill,
            Action::Finish(r) => ActionView::Finish(result_view(*r)),
        }
    }
}

impl View for Stage {
    type V = StageView;

    open spec fn view(&self) -> StageView {
        match self {
            Stage::Probing => StageView::Probing,
            Stage::Launching => StageView::Launching,
            Stage::Checking => StageView::Checking,
            Stage::Polling => StageView::Polling,
            Stage::Sleeping => StageView::Sleeping,
            Stage::Killing => StageView::Killing,
            Stage::Finished(r) => StageView::Finished(result_view(*r)),
        }
    }
}

/// The terminal emulators that are known, in order of preference.
pub open spec fn known_terminals() -> Seq<Seq<char>> {
    seq!["gnome-terminal"@, "konsole"@, "xterm"@, "xfce4-terminal"@, "alacritty"@]
}

/// The known terminals other than `preferred`, in their order, from index
/// `from` on.
pub open spec fn others_from(preferred: Seq<char>, from: int) -> Seq<Seq<char>>
    decreases known_terminals().len() - from,
{
    if from < 0 || from >= known_terminals().len() {
        Seq::empty()
    } else if known_terminals()[from] == preferred {
        others_from(preferred, from + 1)
    } else {
        seq![known_terminals()[from]] + others_from(preferred, from + 1)
    }
}

/// The terminals to try, in order: the known ones, with the preferred one
/// moved to the front unless the preference is "auto".
pub open spec fn candidates_for(preferred: Seq<char>) -> Seq<Seq<char>> {
    if preferred == "auto"@ {
        known_terminals()
    } else {
        seq![preferred] + others_from(preferred, 0)
    }
}

/// The arguments that make `terminal` run the package manager with
/// `arguments`. Each terminal has its own form; a terminal that is not known
/// gets none.
pub open spec fn launch_arguments(terminal: Seq<char>, arguments: Seq<Seq<char>>) -> Seq<
    Seq<char>,
> {
    if terminal == "gnome-terminal"@ {
        seq!["--"@, "paru"@] + arguments
    } else if terminal == "konsole"@ || terminal == "xterm"@ || terminal == "xfce4-terminal"@
        || terminal == "alacritty"@ {
        seq!["-e"@, "paru"@] + arguments
    } else {
        Seq::empty()
    }
}

/// The milliseconds between two polls of the child.
pub const POLL_INTERVAL_MS: u64 = 200;

/// A run as a mathematical value.
pub struct RunView {
    /// The terminals to try, in order.
    pub candidates: Seq<Seq<char>>,
    /// The package manager's arguments.
    pub arguments: Seq<Seq<char>>,
    /// The index of the candidate in hand.
    pub next: int,
    /// Whether any candidate so far was found installed.
    pub found: bool,
    /// The last failure to launch, empty where there was none.
    pub last_error: Seq<char>,
    pub stage: StageView,
}

impl RunView {
    /// While a candidate is probed or launched there is one in hand.
    pub open spec fn wf(self) -> bool {
        &&& 0 <= self.next <= self.candidates.len()
        &&& (self.stage is Probing || self.stage is Launching) ==> self.next
            < self.candidates.len()
    }

    /// The candidate in hand; the empty name where none is left.
    pub open spec fn current(self) -> Seq<char> {
        if 0 <= self.next < self.candidates.len() {
            self.candidates[self.next]
        } else {
            Seq::empty()
        }
    }

    /// The index of the candidate after the one in hand.
    pub open spec fn following(self) -> int {
        if self.next < self.candidates.len() {
            self.next + 1
        } else {
            self.next
        }
    }

    /// The error of a run that has no candidate left.
    pub open spec fn exhausted(self) -> Seq<char> {
        if self.found {
            self.last_error
        } else {
            "No terminal emulator found. Last error: "@ + self.last_error
        }
    }

    /// The run about to probe the candidate in hand, or ended where none is
    /// left.
    pub open spec fn settle(self) -> RunView {
        if self.next < self.candidates.len() {
            RunView { stage: StageView::Probing, ..self }
        } else {
            RunView { stage: StageView::Finished(Err(self.exhausted())), ..self }
        }
    }

    /// A run before anything was tried.
    pub open spec fn start(candidates: Seq<Seq<char>>, arguments: Seq<Seq<char>>) -> RunView {
        RunView {
            candidates,
            arguments,
            next: 0,
            found: false,
            last_error: Seq::empty(),
            stage: StageView::Probing,
        }.settle()
    }

    /// The line that announces a launch.
    pub open spec fn announcement(self) -> Seq<char> {
        "Running in terminal: "@ + self.current() + " paru "@ + join(
            self.arguments,
            " "@,
        )
    }

    /// The action that the run waits on.
    pub open spec fn pending(self) -> ActionView {
        match self.stage {
            StageView::Probing => ActionView::Probe(self.current()),
            StageView::Launching => ActionView::Spawn {
                program: self.current(),
                arguments: launch_arguments(self.current(), self.arguments),
            },
            StageView::Checking => ActionView::CheckCancel,
            StageView::Polling => ActionView::Poll,
            StageView::Sleeping => ActionView::Sleep(POLL_INTERVAL_MS),
            StageView::Killing => ActionView::Kill,
            StageView::Finished(r) => ActionView::Finish(r),
        }
    }

    /// The run after `event`. An event that does not answer the pending
    /// action changes nothing.
    pub open spec fn step(self, event: EventView) -> RunView {
        match (self.stage, event) {
            (StageView::Probing, EventView::Probed(true)) => RunView {
                found: true,
                stage: StageView::Launching,
                ..self
            },
            (StageView::Probing, EventView::Probed(false)) => RunView {
                next: self.following(),
                ..self
            }.settle(),
            (StageView::Launching, EventView::Spawned) => RunView {
                stage: StageView::Checking,
                ..self
            },
            (StageView::Launching, EventView::SpawnFailed(e)) => RunView {
                last_error: "Failed to spawn "@ + self.current() + ": "@ + e,
                next: self.following(),
                ..self
            }.settle(),
            (StageView::Checking, EventView::CancelChecked(true)) => RunView {
                stage: StageView::Killing,
                ..self
            },
            (StageView::Checking, EventView::CancelChecked(false)) => RunView {
                stage: StageView::Polling,
                ..self
            },
            (StageView::Polling, EventView::Polled(ChildStatusView::Running)) => RunView {
                stage: StageView::Sleeping,
                ..self
            },
            (StageView::Polling, EventView::Polled(ChildStatusView::Exited { success })) => RunView {
                stage: StageView::Finished(
                    if success {
                        Ok(())
                    } else {
                        Err("Operation failed - check terminal output"@)
                    },
                ),
                ..self
            },
            (StageView::Polling, EventView::Polled(ChildStatusView::WaitFailed(e))) => RunView {
                stage: StageView::Finished(Err("Failed to wait for terminal: "@ + e)),
                ..self
            },
            (StageView::Sleeping, EventView::Slept) => RunView {
                stage: StageView::Checking,
                ..self
            },
            (StageView::Killing, EventView::Killed) => RunView {
                stage: StageView::Finished(Err("Task canceled by user"@)),
                ..self
            },
            _ => self,
        }
    }

    /// The lines that `event` adds to the task's log.
    pub open spec fn emitted(self, event: EventView) -> Seq<Seq<char>> {
        match (self.stage, event) {
            (StageView::Probing, EventView::Probed(true)) => seq![self.announcement()],
            (StageView::Launching, EventView::Spawned) => seq![
                "Terminal opened - waiting for completion..."@,
            ],
            (StageView::Killing, EventView::Killed) => seq!["Task canceled by user."@],
            _ => Seq::empty(),
        }
    }
}

/// The terminal emulators that are known, in order of preference.
pub fn known_terminal_names() -> (names: Vec<String>)
    ensures
        strs(names@) == known_terminals(),
{
    let mut names: Vec<String> = Vec::new();
    names.push("gnome-terminal".to_owned());
    names.push("konsole".to_owned());
    names.push("xterm".to_owned());
    names.push("xfce4-terminal".to_owned());
    names.push("alacritty".to_owned());
    assert(strs(names@) =~= known_terminals());
    names
}

/// The terminals to try, in order: the known ones, with the preferred one
/// moved to the front unless the preference is "auto".
pub fn terminal_candidates(preferred: &str) -> (names: Vec<String>)
    ensures
        strs(names@) == candidates_for(preferred@),
{
    let known = known_terminal_names();
    if same_text(preferred, "auto") {
        return known;
    }
    let mut names: Vec<String> = Vec::new();
    names.push(preferred.to_owned());
    assert(strs(names@) =~= seq![preferred@]);
    let mut i: usize = 0;
    while i < known.len()
        invariant
            i <= known.len(),
            strs(known@) == known_terminals(),
            candidates_for(preferred@) == strs(names@) + others_from(preferred@, i as int),
        decreases known.len() - i,
    {
        assert(strs(known@)[i as int] == known@[i as int]@);
        if !same_text(known[i].as_str(), preferred) {
            let name = known[i].clone();
            proof {
                assert(strs(names@.push(name)) =~= strs(names@) + seq![name@]);
                assert(strs(names@) + (seq![name@] + others_from(preferred@, i + 1)) =~= strs(
                    names@.push(name),
                ) + others_from(preferred@, i + 1));
            }
            names.push(name);
        }
        i += 1;
    }
    assert(strs(names@) + Seq::<Seq<char>>::empty() =~= strs(names@));
    names
}

/// The arguments that make `terminal` run the package manager with
/// `arguments`.
pub fn launch_arguments_for(terminal: &str, arguments: &Vec<String>) -> (out: Vec<String>)
    ensures
        strs(out@) == launch_arguments(terminal@, strs(arguments@)),
{
    let flag = if same_text(terminal, "gnome-terminal") {
        "--"
    } else if same_text(terminal, "konsole") || same_text(terminal, "xterm") || same_text(
        terminal,
        "xfce4-terminal",
    ) || same_text(terminal, "alacritty") {
        "-e"
    } else {
        assert(strs(Seq::<String>::empty()) =~= Seq::empty());
        return Vec::new();
    };
    let mut out: Vec<String> = Vec::new();
    out.push(flag.to_owned());
    out.push("paru".to_owned());
    let ghost head = strs(out@);
    assert(head =~= seq![flag@, "paru"@]);
    let mut i: usize = 0;
    while i < arguments.len()
        invariant
            i <= arguments.len(),
            strs(out@) == head + strs(arguments@).take(i as int),
        decreases arguments.len() - i,
    {
        let a = arguments[i].clone();
        assert(strs(out@.push(a)) =~= strs(out@).push(a@));
        assert(strs(arguments@).take(i + 1) =~= strs(arguments@).take(i as int).push(a@));
        assert(strs(out@.push(a)) =~= head + strs(arguments@).take(i + 1));
        out.push(a);
        i += 1;
    }
    assert(strs(arguments@).take(arguments.len() as int) =~= strs(arguments@));
    out
}

/// One run of the package manager inside a terminal emulator.
#[derive(Debug)]
pub struct TerminalRun {
    candidates: Vec<String>,
    arguments: Vec<String>,
    next: usize,
    found: bool,
    last_error: String,
    stage: Stage,
}

impl View for TerminalRun {
    type V = RunView;

    closed spec fn view(&self) -> RunView {
        RunView {
            candidates: strs(self.candidates@),
            arguments: strs(self.arguments@),
            next: self.next as int,
            found: self.found,
            last_error: self.last_error@,
            stage: self.stage@,
        }
    }
}

impl TerminalRun {
    /// The candidate in hand; the empty name where none is left.
    fn current(&self) -> (name: &str)
        ensures
            name@ == self@.current(),
    {
        if self.next < self.candidates.len() {
            self.candidates[self.next].as_str()
        } else {
            proof {
                reveal_strlit("");
                assert(""@ =~= Seq::<char>::empty());
            }
            ""
        }
    }

    /// Turns to the candidate after the one in hand, or ends the run where
    /// none is left.
    fn turn_to_next(&mut self)
        ensures
            final(self)@ == (RunView { next: old(self)@.following(), ..old(self)@ }).settle(),
    {
        if self.next < self.candidates.len() {
            self.next = self.next + 1;
        }
        self.settle();
    }

    /// Turns to the candidate in hand, or ends the run where none is left.
    fn settle(&mut self)
        ensures
            final(self)@ == old(self)@.settle(),
    {
        if self.next < self.candidates.len() {
            self.stage = Stage::Probing;
        } else {
            let error = if self.found {
                self.last_error.clone()
            } else {
                let mut e = "No terminal emulator found. Last error: ".to_owned();
                e.append(self.last_error.as_str());
                e
            };
            self.stage = Stage::Finished(Err(error));
        }
    }

    /// A run that will try `candidates` in order, to run the package manager
    /// with `arguments`.
    pub fn new(candidates: Vec<String>, arguments: Vec<String>) -> (run: Self)
        ensures
            run@ == RunView::start(strs(candidates@), strs(arguments@)),
            run@.wf(),
    {
        let mut run = TerminalRun {
            candidates,
            arguments,
            next: 0,
            found: false,
            last_error: String::new(),
            stage: Stage::Probing,
        };
        run.settle();
        run
    }

    /// The action that the run waits on. A run that has ended waits on
    /// nothing and says how it ended.
    pub fn pending(&self) -> (action: Action)
        ensures
            action@ == self@.pending(),
    {
        match &self.stage {
            Stage::Probing => Action::Probe(self.current().to_owned()),
            Stage::Launching => Action::Spawn {
                program: self.current().to_owned(),
                arguments: launch_arguments_for(self.current(), &self.arguments),
            },
            Stage::Checking => Action::CheckCancel,
            Stage::Polling => Action::Poll,
            Stage::Sleeping => Action::Sleep(POLL_INTERVAL_MS),
            Stage::Killing => Action::Kill,
            Stage::Finished(r) => Action::Finish(
                match r {
                    Ok(_) => Ok(()),
                    Err(e) => Err(e.clone()),
                },
            ),
        }
    }

    /// How the run ended, if it has.
    pub fn outcome(&self) -> (r: Option<Result<(), String>>)
        ensures
            match r {
                Some(res) => self@.stage == StageView::Finished(result_view(res)),
                None => !(self@.stage is Finished),
            },
    {
        match &self.stage {
            Stage::Finished(r) => Some(
                match r {
                    Ok(_) => Ok(()),
                    Err(e) => Err(e.clone()),
                },
            ),
            _ => None,
        }
    }

    /// Takes in what happened when the pending action was performed, and
    /// returns the lines to add to the task's log. An event that does not
    /// answer the pending action changes nothing and adds no line.
    pub fn step(&mut self, event: Event) -> (lines: Vec<String>)
        ensures
            final(self)@ == old(self)@.step(event@),
            strs(lines@) == old(self)@.emitted(event@),
            old(self)@.wf() ==> final(self)@.wf(),
    {
        let mut lines: Vec<String> = Vec::new();
        assert(strs(lines@) =~= Seq::empty());
        assert(self@.candidates.len() == self.candidates.len());
        assert(self@.stage == self.stage@);
        match event {
            Event::Probed(found) => match self.stage {
                Stage::Probing => {
                    if found {
                        let mut line = "Running in terminal: ".to_owned();
                        line.append(self.current());
                        line.append(" paru ");
                        line.append(joined(&self.arguments, " ").as_str());
                        lines.push(line);
                        assert(strs(lines@) =~= seq![old(self)@.announcement()]);
                        self.found = true;
                        self.stage = Stage::Launching;
                    } else {
                        self.turn_to_next();
                    }
                },
                _ => {},
            },
            Event::Spawned => match self.stage {
                Stage::Launching => {
                    lines.push("Terminal opened - waiting for completion...".to_owned());
                    assert(strs(lines@) =~= seq![
                        "Terminal opened - waiting for completion..."@,
                    ]);
                    self.stage = Stage::Checking;
                },
                _ => {},
            },
            Event::SpawnFailed(e) => match self.stage {
                Stage::Launching => {
                    let mut error = "Failed to spawn ".to_owned();
                    error.append(self.current());
                    error.append(": ");
                    error.append(e.as_str());
                    self.last_error = error;
                    self.turn_to_next();
                },
                _ => {},
            },
            Event::CancelChecked(asked) => match self.stage {
                Stage::Checking => {
                    if asked {
                        self.stage = Stage::Killing;
                    } else {
                        self.stage = Stage::Polling;
                    }
                },
                _ => {},
            },
            Event::Polled(status) => match self.stage {
                Stage::Polling => match status {
                    ChildStatus::Running => {
                        self.stage = Stage::Sleeping;
                    },
                    ChildStatus::Exited { success } => {
                        if success {
                            self.stage = Stage::Finished(Ok(()));
                        } else {
                            self.stage = Stage::Finished(
                                Err("Operation failed - check terminal output".to_owned()),
                            );
                        }
                    },
                    ChildStatus::WaitFailed(e) => {
                        let mut error = "Failed to wait for terminal: ".to_owned();
                        error.append(e.as_str());
                        self.stage = Stage::Finished(Err(error));
                    },
                },
                _ => {},
            },
            Event::Slept => match self.stage {
                Stage::Sleeping => {
                    self.stage = Stage::Checking;
                },
                _ => {},
            },
            Event::Killed => match self.stage {
                Stage::Killing => {
                    lines.push("Task canceled by user.".to_owned());
                    assert(strs(lines@) =~= seq!["Task canceled by user."@]);
                    self.stage = Stage::Finished(Err("Task canceled by user".to_owned()));
                },
                _ => {},
            },
        }
        lines
    }
}

/// The run after each probe in turn finds nothing, for `count` probes.
pub open spec fn after_failed_probes(run: RunView, count: nat) -> RunView
    decreases count,
{
    if count == 0 {
        run
    } else {
        after_failed_probes(run.step(EventView::Probed(false)), (count - 1) as nat)
    }
}

/// No terminal: where no candidate is found installed, the run ends once
/// the last one is probed, with the error that says so.
pub proof fn lemma_no_terminal_found(run: RunView)
    requires
        run.wf(),
        run.stage is Probing,
        !run.found,
    ensures
        after_failed_probes(run, (run.candidates.len() - run.next) as nat).stage
            == StageView::Finished(
            Err::<(), Seq<char>>("No terminal emulator found. Last error: "@ + run.last_error),
        ),
    decreases run.candidates.len() - run.next,
{
    let next = run.step(EventView::Probed(false));
    if next.stage is Probing {
        lemma_no_terminal_found(next);
    } else {
        assert(after_failed_probes(next, 0) == next);
    }
}

/// Cancellation wins: once the check finds that the user asked to cancel,
/// the child is killed and the run ends as canceled, with a line that says
/// so, whatever the child's exit status was.
pub proof fn lemma_cancel_ends_run(run: RunView)
    requires
        run.stage is Checking,
    ensures
        run.step(EventView::CancelChecked(true)).pending() == ActionView::Kill,
        run.step(EventView::CancelChecked(true)).step(EventView::Killed).stage
            == StageView::Finished(Err::<(), Seq<char>>("Task canceled by user"@)),
        run.step(EventView::CancelChecked(true)).emitted(EventView::Killed) == seq![
            "Task canceled by user."@,
        ],
{
}

/// A run that has ended stays as it is.
pub proof fn lemma_finished_is_final(run: RunView, event: EventView)
    requires
        run.stage is Finished,
    ensures
        run.step(event) == run,
        run.emitted(event) == Seq::<Seq<char>>::empty(),
{
}

} // verus!
