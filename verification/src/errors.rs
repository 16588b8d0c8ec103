use vstd::prelude::*;

verus! {

/// Everything that can go wrong between configuration and relay.
#[derive(Clone, Copy, Debug, PartialEq, Eq, Structural)]
pub enum ProcessError {
    /// A spawn-a-command configuration was given an empty command line.
    EmptyCommand,
    /// The requested depth has no resolved target processes.
    NoChildPids,
    /// The target process did not appear within the existence-wait budget.
    ProcessNotFound,
    /// Attaching the tracer to the target failed; carries the OS errno.
    AttachFailed(i32),
    /// A tracer or wait operation failed after attaching; carries the OS errno.
    OsError(i32),
    /// A signal number outside the range of the standard signals was configured.
    InvalidSignalId(i32),
}

/// The failures that only say a target is not there yet — the conditions a
/// keep-alive loop absorbs and retries, as opposed to permanent OS-level
/// failures, which it surfaces.
pub open spec fn spec_is_transient(e: ProcessError) -> bool {
    e == ProcessError::NoChildPids || e == ProcessError::ProcessNotFound
}

impl ProcessError {
    /// Whether a keep-alive loop may absorb this error and retry the cycle.
    pub fn is_transient(&self) -> (r: bool)
        ensures
            r == spec_is_transient(*self),
    {
        match self {
            ProcessError::NoChildPids => true,
            ProcessError::ProcessNotFound => true,
            _ => false,
        }
    }
}

} // verus!
