//! What can go wrong in a run and what the run does about it.

use vstd::prelude::*;
use crate::config::ConfigError;

verus! {

/// What can go wrong in a run.
#[derive(Clone, Copy, Debug, PartialEq, Eq, Structural)]
pub enum Failure {
    /// The configuration was refused.
    Configuration(ConfigError),
    /// The record of the progress is there, but it cannot be understood.
    CorruptCheckpoint,
    /// The record could not be written when it was due during the scan.
    Autosave,
    /// The record could not be written at the end of the run.
    FinalSave,
    /// A productive number could not be written down.
    ResultWrite,
}

/// What a run does about a failure.
#[derive(Clone, Copy, Debug, PartialEq, Eq, Structural)]
pub enum Recovery {
    /// The run does not begin; the process ends with the exit code 1.
    Refuse,
    /// The run begins at the start that was asked for, as if nothing had
    /// been recorded.
    StartFresh,
    /// The failure is reported and the run goes on.
    GoOn,
    /// The run ends at once and hands the failure to its caller.
    Abort,
}

/// The rule for each failure: a refused configuration ends the process
/// before any scanning; a record that cannot be understood counts as none; a
/// failed autosave is only reported, since the next one may succeed; a
/// failed final save and a failed write of a result end the run with the
/// error, since without them the run could not be resumed or a result would
/// be lost.
pub open spec fn recovery_of(failure: Failure) -> Recovery {
    match failure {
        Failure::Configuration(_) => Recovery::Refuse,
        Failure::CorruptCheckpoint => Recovery::StartFresh,
        Failure::Autosave => Recovery::GoOn,
        Failure::FinalSave => Recovery::Abort,
        Failure::ResultWrite => Recovery::Abort,
    }
}

/// What the run does about `failure`.
pub fn recovery_for(failure: Failure) -> (recovery: Recovery)
    ensures
        recovery == recovery_of(failure),
{
    match failure {
        Failure::Configuration(_) => Recovery::Refuse,
        Failure::CorruptCheckpoint => Recovery::StartFresh,
        Failure::Autosave => Recovery::GoOn,
        Failure::FinalSave => Recovery::Abort,
        Failure::ResultWrite => Recovery::Abort,
    }
}

} // verus!
