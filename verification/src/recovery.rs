//! How execution resumes after a recovery handler has run.
use vstd::prelude::*;

verus! {

/// What the executor does after a recovery handler fires.
#[derive(Debug, Clone, Copy, PartialEq, Eq, Structural)]
pub enum ResumeStrategy {
    /// Re-execute the failing step from scratch.
    RetryStep,
    /// Treat the step as done and advance to the next one.
    SkipStep,
    /// Treat the step as failed and propagate the error.
    Fail,
    /// Restart the whole phase from its first step, for recoveries that may
    /// undo what earlier steps set up.
    RetryPhase,
}

} // verus!
