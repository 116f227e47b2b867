//! The process supervisor's state machine: at most one managed child,
//! `Idle` or `Running`, with operations defined only in the matching
//! state.  Spawning, waiting and killing are the caller's plumbing; the
//! machine decides what is valid and what each outcome means.

use vstd::prelude::*;
use crate::errors::Error;

verus! {

/// Whether a child is currently owned.
#[derive(Clone, Copy, Debug, PartialEq, Eq, Structural)]
pub enum SupervisorState {
    Idle,
    Running,
}

/// What the caller must execute to start the child: spawn this path
/// with these arguments, all standard streams detached from the
/// terminal, and the child configured to die if its handle is ever
/// dropped without an explicit stop.
#[derive(Debug)]
pub struct SpawnCommand {
    pub path: String,
    pub args: Vec<String>,
}

/// How a supervised run ended.
#[derive(Clone, Copy, Debug, PartialEq, Eq, Structural)]
pub enum ShutdownReport {
    /// The external interrupt won the race; the child was killed and
    /// fully reaped.
    Terminated,
    /// The child exited on its own; there was nothing to terminate.
    Closed,
}

/// The two events racing while the child runs; exactly one fires, and
/// the other is abandoned without side effects.
#[derive(Clone, Copy, Debug, PartialEq, Eq, Structural)]
pub enum RaceOutcome {
    /// The external interrupt signal arrived first.
    Interrupted,
    /// The child's natural exit came first.
    Exited,
}

/// Owns at most one child process.
#[derive(Debug)]
pub struct ProcessSupervisor {
    pub state: SupervisorState,
}

impl ProcessSupervisor {
    /// No child is owned.
    pub open spec fn is_idle(&self) -> bool {
        self.state is Idle
    }

    /// A child is owned.
    pub open spec fn is_running(&self) -> bool {
        self.state is Running
    }

    /// A supervisor that owns nothing.
    pub fn new() -> (r: ProcessSupervisor)
        ensures
            r.is_idle(),
    {
        ProcessSupervisor { state: SupervisorState::Idle }
    }

    /// Starts the child: valid only from `Idle`; hands back the spawn
    /// command for the binary under the binary directory.
    pub fn start(&mut self, bin_dir: &str, binary_name: &str, args: Vec<String>) -> (r:
        SpawnCommand)
        requires
            old(self).is_idle(),
        ensures
            final(self).is_running(),
            r.path@ == bin_dir@ + ("/")@ + binary_name@,
            r.args@ == args@,
    {
        let mut path = String::new();
        path.append(bin_dir);
        path.append("/");
        path.append(binary_name);
        self.state = SupervisorState::Running;
        proof {
            assert(path@ =~= bin_dir@ + ("/")@ + binary_name@);
        }
        SpawnCommand { path, args }
    }

    /// Observes the child's natural exit: valid only from `Running`;
    /// afterwards nothing is tracked, so a later terminate is invalid.
    pub fn wait_finished(&mut self)
        requires
            old(self).is_running(),
        ensures
            final(self).is_idle(),
    {
        self.state = SupervisorState::Idle;
    }

    /// Stops the child: from `Running`, the caller kills and fully
    /// reaps it and the machine returns to `Idle`; from `Idle` this is
    /// `NotRunningError` and the state stays `Idle`, no crash.
    pub fn terminate(&mut self) -> (r: Result<(), Error>)
        ensures
            old(self).is_idle() ==> r == Err::<(), Error>(Error::NotRunningError) && final(self)
                .is_idle(),
            old(self).is_running() ==> r is Ok && final(self).is_idle(),
    {
        match self.state {
            SupervisorState::Idle => Err(Error::NotRunningError),
            SupervisorState::Running => {
                self.state = SupervisorState::Idle;
                Ok(())
            },
        }
    }

    /// Resolves the race between the interrupt signal and the child's
    /// own exit: the winning branch decides the shutdown path and the
    /// machine ends `Idle` either way.
    pub fn resolve_race(&mut self, outcome: RaceOutcome) -> (r: Result<ShutdownReport, Error>)
        requires
            old(self).is_running(),
        ensures
            final(self).is_idle(),
            outcome is Interrupted ==> r == Ok::<ShutdownReport, Error>(
                ShutdownReport::Terminated,
            ),
            outcome is Exited ==> r == Ok::<ShutdownReport, Error>(ShutdownReport::Closed),
    {
        match outcome {
            RaceOutcome::Interrupted => {
                match self.terminate() {
                    Ok(_) => Ok(ShutdownReport::Terminated),
                    Err(e) => Err(e),
                }
            },
            RaceOutcome::Exited => {
                self.wait_finished();
                Ok(ShutdownReport::Closed)
            },
        }
    }
}

} // verus!
