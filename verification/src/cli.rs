//! The command line: options, subcommands, and which command runs.
use vstd::prelude::*;
use crate::ask::AskCommand;
use crate::assist::AssistCommand;
use crate::init::InitCommand;

verus! {

/// What the program was asked to do.
pub enum SubCommand {
    /// Open the settings screen.
    Ai,
    /// Ask a free question.
    Ask(AskCommand),
    /// Analyse a failed command.
    Assist(AssistCommand),
    /// Open the settings file in an editor.
    Config,
    /// Check the environment.
    Doctor,
    /// Put the integration into the PowerShell profile.
    Init(InitCommand),
    /// Take the integration out again.
    Reset,
}

/// The parsed command line.
pub struct Opt {
    pub cmd: Option<SubCommand>,
}

/// How the program starts.
pub enum Launch {
    /// Run this command.
    Run(SubCommand),
    /// Let the user pick from the main menu.
    Menu,
}

impl Opt {
    /// The command given; without one, the menu where both standard input
    /// and output are terminals, the environment check otherwise.
    pub fn launch(self, interactive: bool) -> (r: Launch)
        ensures
            match self.cmd {
                Some(c) => r == Launch::Run(c),
                None => if interactive {
                    r == Launch::Menu
                } else {
                    r == Launch::Run(SubCommand::Doctor)
                },
            },
    {
        match self.cmd {
            Some(c) => Launch::Run(c),
            None => if interactive {
                Launch::Menu
            } else {
                Launch::Run(SubCommand::Doctor)
            },
        }
    }
}

} // verus!
