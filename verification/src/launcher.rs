//! The order in which the commands of a trailer are run. The launcher
//! decides; whoever drives it starts the programs and reports what came of
//! each.

use crate::cmds::{Command, CommandView, Commands, CommandsView};
use crate::wire::Halt;
use vstd::prelude::*;

verus! {

/// What came of running a command.
#[derive(Clone, Copy, Debug, PartialEq, Eq, Structural)]
pub enum Outcome {
    /// The program ran and ended with this exit code.
    Exited(i32),
    /// The program could not be started.
    Failed,
}

/// What the shim is to do next.
#[derive(Debug)]
pub enum Action {
    /// Run this command, with exactly the arguments it holds, and report
    /// the outcome.
    Run(Command),
    /// End with this exit code.
    Exit(i32),
    /// End abnormally.
    Abort,
}

/// An action as contracts see it.
pub ghost enum ActionView {
    /// Run this command.
    Run(CommandView),
    /// End with this exit code.
    Exit(i32),
    /// End abnormally.
    Abort,
}

impl View for Action {
    type V = ActionView;

    open spec fn view(&self) -> ActionView {
        match self {
            Action::Run(command) => ActionView::Run(command@),
            Action::Exit(code) => ActionView::Exit(*code),
            Action::Abort => ActionView::Abort,
        }
    }
}

/// A launcher as contracts see it.
pub ghost struct LauncherView {
    /// The decoder from which the commands still to run are pulled.
    pub commands: CommandsView,
    /// The action with which the run has ended, once it has.
    pub ended: Option<ActionView>,
}

impl LauncherView {
    /// The launcher that has ended with `action`.
    pub open spec fn ended_with(self, action: ActionView) -> LauncherView {
        LauncherView { commands: self.commands, ended: Some(action) }
    }

    /// The beginning of a run. The first command is run with the shim's own
    /// arguments behind its own; without a first command the shim aborts.
    pub open spec fn start(commands: CommandsView, own_args: Seq<Seq<char>>) -> (
        ActionView,
        LauncherView,
    ) {
        let launcher = LauncherView { commands: commands.pull().1, ended: None };
        match commands.pull().0 {
            Some(first) => (
                ActionView::Run(CommandView { exe: first.exe, args: first.args + own_args }),
                launcher,
            ),
            None => (ActionView::Abort, launcher.ended_with(ActionView::Abort)),
        }
    }

    /// One step of a run, taken when `outcome` is reported for the command
    /// that was run last. A program that could not be started aborts the
    /// shim; an exit code other than zero ends it with that code; after
    /// exit code zero the next command is run as it stands, and where there
    /// is none the shim ends with zero. A run that has ended stays ended.
    pub open spec fn step(self, outcome: Outcome) -> (ActionView, LauncherView) {
        match self.ended {
            Some(action) => (action, self),
            None => match outcome {
                Outcome::Failed => (ActionView::Abort, self.ended_with(ActionView::Abort)),
                Outcome::Exited(code) => if code != 0 {
                    (ActionView::Exit(code), self.ended_with(ActionView::Exit(code)))
                } else {
                    let launcher = LauncherView { commands: self.commands.pull().1, ended: None };
                    match self.commands.pull().0 {
                        Some(next) => (ActionView::Run(next), launcher),
                        None => (ActionView::Exit(0), launcher.ended_with(ActionView::Exit(0))),
                    }
                },
            },
        }
    }
}

/// How a run has ended.
#[derive(Clone, Copy)]
enum End {
    Exit(i32),
    Abort,
}

impl End {
    /// The action that ends a run in this way.
    spec fn action(self) -> ActionView {
        match self {
            End::Exit(code) => ActionView::Exit(code),
            End::Abort => ActionView::Abort,
        }
    }
}

/// Runs the commands of a decoder one after another, and stops at the first
/// that fails.
pub struct Launcher {
    commands: Commands,
    ended: Option<End>,
}

impl View for Launcher {
    type V = LauncherView;

    closed spec fn view(&self) -> LauncherView {
        LauncherView {
            commands: self.commands@,
            ended: match self.ended {
                Some(end) => Some(end.action()),
                None => None,
            },
        }
    }
}

impl Launcher {
    /// Begins a run over `commands`, with the arguments that the shim was
    /// itself called with. Returns the launcher and the first action.
    pub fn start(commands: Commands, own_args: &Vec<String>) -> (begun: (Launcher, Action))
        ensures
            begun.1@ == LauncherView::start(commands@, own_args.deep_view()).0,
            begun.0@ == LauncherView::start(commands@, own_args.deep_view()).1,
            begun.1 matches Action::Run(first) ==> first@.exe is Some,
    {
        let mut commands = commands;
        match commands.next() {
            Some(first) => {
                let mut first = first;
                let ghost decoded = first@;
                let mut i: usize = 0;
                while i < own_args.len()
                    invariant
                        i <= own_args@.len(),
                        decoded.exe is Some,
                        first@ == (CommandView {
                            exe: decoded.exe,
                            args: decoded.args + own_args.deep_view().take(i as int),
                        }),
                    decreases own_args@.len() - i,
                {
                    let arg = own_args[i].clone();
                    first.arg(arg);
                    proof {
                        let own = own_args.deep_view();
                        assert(own[i as int] == own_args@[i as int]@);
                        assert((decoded.args + own.take(i as int)).push(own[i as int])
                            =~= decoded.args + own.take(i + 1));
                    }
                    i = i + 1;
                }
                proof {
                    let own = own_args.deep_view();
                    assert(own.take(i as int) =~= own);
                }
                (Launcher { commands, ended: None }, Action::Run(first))
            },
            None => (Launcher { commands, ended: Some(End::Abort) }, Action::Abort),
        }
    }

    /// Why the decoder behind this run has halted; `None` while it may
    /// still yield a command.
    pub fn halt(&self) -> (halt: Option<Halt>)
        ensures
            halt == self@.commands.halted,
    {
        self.commands.halt()
    }

    /// Takes the outcome of the command that was run last and says what to
    /// do next. Once it has answered with [`Action::Exit`] or
    /// [`Action::Abort`] it gives that answer ever after and pulls no
    /// further command.
    pub fn step(&mut self, outcome: Outcome) -> (action: Action)
        ensures
            action@ == old(self)@.step(outcome).0,
            final(self)@ == old(self)@.step(outcome).1,
            action matches Action::Run(next) ==> next@.exe is Some,
            !(action is Run) ==> final(self)@.ended == Some(action@),
            old(self)@.ended is Some ==> final(self)@ == old(self)@,
    {
        match self.ended {
            Some(End::Exit(code)) => Action::Exit(code),
            Some(End::Abort) => Action::Abort,
            None => match outcome {
                Outcome::Failed => {
                    self.ended = Some(End::Abort);
                    Action::Abort
                },
                Outcome::Exited(code) => {
                    if code != 0 {
                        self.ended = Some(End::Exit(code));
                        Action::Exit(code)
                    } else {
                        match self.commands.next() {
                            Some(next) => Action::Run(next),
                            None => {
                                self.ended = Some(End::Exit(0));
                                Action::Exit(0)
                            },
                        }
                    }
                },
            },
        }
    }
}

} // verus!
