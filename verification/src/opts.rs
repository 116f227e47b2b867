//! The command surface and the plan each invocation runs.  Argument
//! parsing itself is terminal plumbing; the mapping from a command to
//! what the run does is decided here.

use vstd::prelude::*;

verus! {

/// The launcher's invocation: an optional subcommand.
#[derive(Debug)]
pub struct Opts {
    pub command: Option<AppCommand>,
}

/// The subcommands.
#[derive(Debug)]
pub enum AppCommand {
    /// Removes the cache folder.
    Clean,
    /// Launches the managed learning app.
    Learn,
    /// Updates the launcher and apps.
    Update(UpdateCommand),
}

impl Default for AppCommand {
    /// Without a subcommand the launch is the default.
    fn default() -> (r: Self)
        ensures
            r is Learn,
    {
        AppCommand::Learn
    }
}

/// Options of the update subcommand.
#[derive(Debug, Clone)]
pub struct UpdateCommand {
    /// Overrides the operating system assets are matched against.
    pub system: Option<String>,
    /// Reloads assets even when the throttle would skip the check.
    pub force: bool,
}

/// What one invocation does.
#[derive(Debug, PartialEq, Eq)]
pub enum RunPlan {
    /// No subcommand: a non-forced update pass, then the launch.
    UpdateThenLearn,
    /// An explicit update pass with its options, forced.
    UpdateOnly { system: Option<String>, force: bool },
    /// The launch alone.
    LearnOnly,
    /// The cache clean alone.
    CleanOnly,
}

impl Opts {
    /// Maps the invocation to its plan.
    pub fn dispatch(self) -> (r: RunPlan)
        ensures
            match self.command {
                None => r is UpdateThenLearn,
                Some(AppCommand::Learn) => r is LearnOnly,
                Some(AppCommand::Clean) => r is CleanOnly,
                Some(AppCommand::Update(u)) => (r matches RunPlan::UpdateOnly { system, force }
                    && system == u.system && force == u.force),
            },
    {
        match self.command {
            None => RunPlan::UpdateThenLearn,
            Some(AppCommand::Learn) => RunPlan::LearnOnly,
            Some(AppCommand::Clean) => RunPlan::CleanOnly,
            Some(AppCommand::Update(u)) => RunPlan::UpdateOnly { system: u.system, force: u.force },
        }
    }
}

} // verus!
