//! The commands behind mounting, unmounting and opening a share, and the
//! rule that decides, from what each command did, which one runs next and
//! how the operation ends.  The program around the library starts the
//! commands and reports back; the decisions are made here.
use vstd::prelude::*;
use crate::nfs::{outcome_view, ErrorView, NfsError};
use crate::text::views;

verus! {

/// A program and its arguments.
pub struct CommandLine {
    pub program: String,
    pub args: Vec<String>,
}

/// A command line as character sequences.
pub struct CommandView {
    pub program: Seq<char>,
    pub args: Seq<Seq<char>>,
}

impl View for CommandLine {
    type V = CommandView;

    open spec fn view(&self) -> CommandView {
        CommandView { program: self.program@, args: views(self.args@) }
    }
}

/// Which error a command that ran and failed gives.
#[derive(Clone, Copy, Debug, PartialEq, Eq, Structural)]
pub enum FailureKind {
    Mount,
    Umount,
}

/// How an operation ends when none of its commands can be started.
#[derive(Debug)]
pub enum GiveUp {
    /// With the reason the last command could not be started, as an I/O error.
    Io,
    /// With a configuration error: this text followed by the reason.
    ConfigWithCause(String),
    /// With a configuration error that carries this text alone.
    Config(String),
}

pub enum GiveUpView {
    Io,
    ConfigWithCause(Seq<char>),
    Config(Seq<char>),
}

impl View for GiveUp {
    type V = GiveUpView;

    open spec fn view(&self) -> GiveUpView {
        match self {
            GiveUp::Io => GiveUpView::Io,
            GiveUp::ConfigWithCause(s) => GiveUpView::ConfigWithCause(s@),
            GiveUp::Config(s) => GiveUpView::Config(s@),
        }
    }
}

/// The commands of one operation.  The attempts are alternatives: the next
/// one is started only when the one before could not be started at all.  An
/// attempt that ran and failed ends the operation, unless there is a retry
/// command, which then runs once.  When `waits` holds, a command is run to
/// completion and judged by its exit status; otherwise starting it is
/// enough.  `failure` names the error of an unsuccessful exit, which only
/// plans that wait can see; `give_up` says how the operation ends when no
/// attempt could be started.
pub struct CommandPlan {
    pub attempts: Vec<CommandLine>,
    pub waits: bool,
    pub retry: Option<CommandLine>,
    pub failure: FailureKind,
    pub give_up: GiveUp,
}

pub struct PlanView {
    pub attempts: Seq<CommandView>,
    pub waits: bool,
    pub retry: Option<CommandView>,
    pub failure: FailureKind,
    pub give_up: GiveUpView,
}

/// A command line option as an option of views.
pub open spec fn command_opt_view(c: Option<CommandLine>) -> Option<CommandView> {
    match c {
        Some(c) => Some(c@),
        None => None,
    }
}

impl View for CommandPlan {
    type V = PlanView;

    open spec fn view(&self) -> PlanView {
        PlanView {
            attempts: self.attempts@.map_values(|c: CommandLine| c@),
            waits: self.waits,
            retry: command_opt_view(self.retry),
            failure: self.failure,
            give_up: self.give_up@,
        }
    }
}

/// What became of a command the program was asked to run.
pub enum CommandEvent {
    /// It could not be started; the text says why.
    NotStarted(String),
    /// It was started and left running (plans that do not wait).
    Started,
    /// It ran to completion; `stderr` is what it wrote to its error output.
    Exited { success: bool, stderr: String },
}

pub enum EventView {
    NotStarted(Seq<char>),
    Started,
    Exited { success: bool, stderr: Seq<char> },
}

impl View for CommandEvent {
    type V = EventView;

    open spec fn view(&self) -> EventView {
        match self {
            CommandEvent::NotStarted(s) => EventView::NotStarted(s@),
            CommandEvent::Started => EventView::Started,
            CommandEvent::Exited { success, stderr } => EventView::Exited {
                success: *success,
                stderr: stderr@,
            },
        }
    }
}

/// Where an operation stands.
pub enum Phase {
    /// The attempt with this index is to be started.
    Attempt(usize),
    /// The retry command is to be run.
    Retry,
    /// The operation has ended with this result.
    Over(Result<(), NfsError>),
}

pub enum PhaseView {
    Attempt(int),
    Retry,
    Over(Result<(), ErrorView>),
}

impl View for Phase {
    type V = PhaseView;

    open spec fn view(&self) -> PhaseView {
        match self {
            Phase::Attempt(i) => PhaseView::Attempt(*i as int),
            Phase::Retry => PhaseView::Retry,
            Phase::Over(r) => PhaseView::Over(outcome_view(*r)),
        }
    }
}

/// The error of a command that ran and failed with error output `stderr`.
pub open spec fn failed_with(kind: FailureKind, stderr: Seq<char>) -> ErrorView {
    match kind {
        FailureKind::Mount => ErrorView::MountFailed(stderr),
        FailureKind::Umount => ErrorView::UmountFailed(stderr),
    }
}

/// The error when no command could be started, the last for reason `cause`.
pub open spec fn gave_up(g: GiveUpView, cause: Seq<char>) -> ErrorView {
    match g {
        GiveUpView::Io => ErrorView::Io(cause),
        GiveUpView::ConfigWithCause(prefix) => ErrorView::ConfigError(prefix + cause),
        GiveUpView::Config(m) => ErrorView::ConfigError(m),
    }
}

/// Where an operation stands after `ev` happened to the command of `phase`.
pub open spec fn next_phase(plan: PlanView, phase: PhaseView, ev: EventView) -> PhaseView {
    match phase {
        PhaseView::Over(r) => PhaseView::Over(r),
        PhaseView::Attempt(i) => match ev {
            EventView::NotStarted(cause) => if i + 1 < plan.attempts.len() {
                PhaseView::Attempt(i + 1)
            } else {
                PhaseView::Over(Err(gave_up(plan.give_up, cause)))
            },
            EventView::Started => PhaseView::Over(Ok(())),
            EventView::Exited { success, stderr } => if success {
                PhaseView::Over(Ok(()))
            } else if plan.retry is Some {
                PhaseView::Retry
            } else {
                PhaseView::Over(Err(failed_with(plan.failure, stderr)))
            },
        },
        PhaseView::Retry => match ev {
            EventView::NotStarted(cause) => PhaseView::Over(Err(ErrorView::Io(cause))),
            EventView::Started => PhaseView::Over(Ok(())),
            EventView::Exited { success, stderr } => if success {
                PhaseView::Over(Ok(()))
            } else {
                PhaseView::Over(Err(failed_with(plan.failure, stderr)))
            },
        },
    }
}

/// The command to run in `phase`, if any.
pub open spec fn command_at(plan: PlanView, phase: PhaseView) -> Option<CommandView> {
    match phase {
        PhaseView::Attempt(i) => if 0 <= i < plan.attempts.len() {
            Some(plan.attempts[i])
        } else {
            None
        },
        PhaseView::Retry => plan.retry,
        PhaseView::Over(_) => None,
    }
}

/// A plan that can be carried out: it has at least one attempt.
pub open spec fn plan_ok(plan: PlanView) -> bool {
    plan.attempts.len() >= 1
}

/// The phases an operation can be in when it follows its plan.
pub open spec fn phase_reachable(plan: PlanView, phase: PhaseView) -> bool {
    match phase {
        PhaseView::Attempt(i) => 0 <= i < plan.attempts.len(),
        PhaseView::Retry => plan.retry is Some,
        PhaseView::Over(_) => true,
    }
}

/// How many more commands an operation can run at most from `phase`.
pub open spec fn commands_left(plan: PlanView, phase: PhaseView) -> int {
    match phase {
        PhaseView::Attempt(i) => plan.attempts.len() - i + 1,
        PhaseView::Retry => 1,
        PhaseView::Over(_) => 0,
    }
}

impl CommandPlan {
    /// The phase an operation starts in.
    pub fn first_phase(&self) -> (p: Phase)
        ensures
            p@ == PhaseView::Attempt(0),
    {
        Phase::Attempt(0)
    }

    /// The command to run next, or `None` once the operation is over.
    pub fn command_for(&self, phase: &Phase) -> (c: Option<&CommandLine>)
        ensures
            match c {
                Some(c) => command_at(self@, phase@) == Some(c@),
                None => command_at(self@, phase@) is None,
            },
    {
        match phase {
            Phase::Attempt(i) => {
                if *i < self.attempts.len() {
                    Some(&self.attempts[*i])
                } else {
                    None
                }
            },
            Phase::Retry => match &self.retry {
                Some(c) => Some(c),
                None => None,
            },
            Phase::Over(_) => None,
        }
    }

    /// Where the operation stands once `event` happened to the command of `phase`.
    pub fn advance(&self, phase: Phase, event: CommandEvent) -> (p: Phase)
        ensures
            p@ == next_phase(self@, phase@, event@),
    {
        match phase {
            Phase::Over(r) => Phase::Over(r),
            Phase::Attempt(i) => match event {
                CommandEvent::NotStarted(cause) => {
                    if i < self.attempts.len() && i + 1 < self.attempts.len() {
                        Phase::Attempt(i + 1)
                    } else {
                        Phase::Over(Err(self.give_up_error(cause)))
                    }
                },
                CommandEvent::Started => Phase::Over(Ok(())),
                CommandEvent::Exited { success, stderr } => {
                    if success {
                        Phase::Over(Ok(()))
                    } else if self.retry.is_some() {
                        Phase::Retry
                    } else {
                        Phase::Over(Err(self.failure_error(stderr)))
                    }
                },
            },
            Phase::Retry => match event {
                CommandEvent::NotStarted(cause) => Phase::Over(Err(NfsError::Io(cause))),
                CommandEvent::Started => Phase::Over(Ok(())),
                CommandEvent::Exited { success, stderr } => {
                    if success {
                        Phase::Over(Ok(()))
                    } else {
                        Phase::Over(Err(self.failure_error(stderr)))
                    }
                },
            },
        }
    }

    fn failure_error(&self, stderr: String) -> (e: NfsError)
        ensures
            e@ == failed_with(self.failure, stderr@),
    {
        match self.failure {
            FailureKind::Mount => NfsError::MountFailed(stderr),
            FailureKind::Umount => NfsError::UmountFailed(stderr),
        }
    }

    fn give_up_error(&self, cause: String) -> (e: NfsError)
        ensures
            e@ == gave_up(self.give_up@, cause@),
    {
        match &self.give_up {
            GiveUp::Io => NfsError::Io(cause),
            GiveUp::ConfigWithCause(prefix) => NfsError::ConfigError(
                prefix.clone().concat(cause.as_str()),
            ),
            GiveUp::Config(m) => NfsError::ConfigError(m.clone()),
        }
    }
}

/// Following a plan that has an attempt, an operation only reaches phases
/// that name a command to run until it is over, and each command that runs
/// brings it closer to its end: it runs at most one command more than the
/// plan has attempts.
pub proof fn law_plan_runs_to_an_end(plan: PlanView, phase: PhaseView, ev: EventView)
    requires
        plan_ok(plan),
        phase_reachable(plan, phase),
    ensures
        phase_reachable(plan, PhaseView::Attempt(0)),
        !(phase is Over) ==> command_at(plan, phase) is Some,
        phase_reachable(plan, next_phase(plan, phase, ev)),
        !(phase is Over) ==> 0 <= commands_left(plan, next_phase(plan, phase, ev)) < commands_left(
            plan,
            phase,
        ),
        commands_left(plan, PhaseView::Attempt(0)) == plan.attempts.len() + 1,
{
}

/// How an operation ends: a command that succeeds, or that starts when the
/// plan does not wait, ends it with success; one that cannot be started
/// hands over to the next attempt, and after the last attempt ends it with
/// the reason as an I/O error (for plans that give up that way); an attempt
/// that fails, with no retry, ends it with a mount or unmount error carrying
/// the command's error output; a failed retry does the same; and an ended
/// operation stays ended.
pub proof fn law_command_outcomes(
    plan: PlanView,
    i: int,
    stderr: Seq<char>,
    cause: Seq<char>,
    ev: EventView,
    r: Result<(), ErrorView>,
)
    requires
        0 <= i < plan.attempts.len(),
    ensures
        next_phase(plan, PhaseView::Attempt(i), EventView::Exited { success: true, stderr })
            == PhaseView::Over(Ok(())),
        next_phase(plan, PhaseView::Retry, EventView::Exited { success: true, stderr })
            == PhaseView::Over(Ok(())),
        next_phase(plan, PhaseView::Attempt(i), EventView::Started) == PhaseView::Over(Ok(())),
        i + 1 < plan.attempts.len() ==> next_phase(plan, PhaseView::Attempt(i), EventView::NotStarted(cause))
            == PhaseView::Attempt(i + 1),
        i + 1 == plan.attempts.len() && plan.give_up == GiveUpView::Io ==> next_phase(
            plan,
            PhaseView::Attempt(i),
            EventView::NotStarted(cause),
        ) == PhaseView::Over(Err(ErrorView::Io(cause))),
        plan.retry is None && plan.failure == FailureKind::Mount ==> next_phase(
            plan,
            PhaseView::Attempt(i),
            EventView::Exited { success: false, stderr },
        ) == PhaseView::Over(Err(ErrorView::MountFailed(stderr))),
        plan.retry is None && plan.failure == FailureKind::Umount ==> next_phase(
            plan,
            PhaseView::Attempt(i),
            EventView::Exited { success: false, stderr },
        ) == PhaseView::Over(Err(ErrorView::UmountFailed(stderr))),
        plan.retry is Some ==> next_phase(
            plan,
            PhaseView::Attempt(i),
            EventView::Exited { success: false, stderr },
        ) == PhaseView::Retry,
        plan.failure == FailureKind::Umount ==> next_phase(
            plan,
            PhaseView::Retry,
            EventView::Exited { success: false, stderr },
        ) == PhaseView::Over(Err(ErrorView::UmountFailed(stderr))),
        next_phase(plan, PhaseView::Retry, EventView::NotStarted(cause)) == PhaseView::Over(
            Err(ErrorView::Io(cause)),
        ),
        next_phase(plan, PhaseView::Over(r), ev) == PhaseView::Over(r),
{
}

} // verus!
