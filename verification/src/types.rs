use vstd::prelude::*;

use crate::errors::ProcessError;

verus! {

/// A sequence of process ids, as the tree resolver hands them out.
pub type ChildPids = Vec<u32>;

/// Process ids as this engine accepts them: positive, and small enough to
/// round-trip through the OS interfaces that take them as `i32`.
pub open spec fn valid_pid(pid: u32) -> bool {
    1 <= pid <= 0x7fff_ffff
}

/// Signal numbers of the standard signals, 1 (SIGHUP) through 31 (SIGSYS).
pub open spec fn valid_signal(sig: i32) -> bool {
    1 <= sig <= 31
}

/// Runtime check for `valid_pid`, for callers outside verified code.
pub fn pid_in_range(pid: u32) -> (r: bool)
    ensures
        r == valid_pid(pid),
{
    pid >= 1 && pid <= 0x7fff_ffff
}

/// Configuration-time check of a signal number: out-of-range values are
/// rejected before the engine starts.
pub fn validate_signal(sig: i32) -> (r: Result<i32, ProcessError>)
    ensures
        valid_signal(sig) ==> r == Ok::<i32, ProcessError>(sig),
        !valid_signal(sig) ==> r == Err::<i32, ProcessError>(ProcessError::InvalidSignalId(sig)),
{
    if sig >= 1 && sig <= 31 {
        Ok(sig)
    } else {
        Err(ProcessError::InvalidSignalId(sig))
    }
}

/// Configuration-time check of a command line to spawn, as bytes: an
/// empty command cannot be executed.
pub fn validate_command(cmd: &Vec<u8>) -> (r: Result<(), ProcessError>)
    ensures
        cmd@.len() > 0 ==> r == Ok::<(), ProcessError>(()),
        cmd@.len() == 0 ==> r == Err::<(), ProcessError>(ProcessError::EmptyCommand),
{
    if cmd.len() == 0 {
        Err(ProcessError::EmptyCommand)
    } else {
        Ok(())
    }
}

/// The terminal state of a wait: the listened-for signal was observed, or
/// it was not.
#[derive(Clone, Copy, Debug, PartialEq, Eq, Structural)]
pub enum ListenStatus {
    Found,
    NotFound,
}

/// The immutable signal configuration of a run: the signal to listen for
/// and, optionally, a distinct signal to relay.
#[derive(Clone, Copy, Debug)]
pub struct SignalMap {
    pub listen_signal: i32,
    pub send_signal: Option<i32>,
}

impl SignalMap {
    /// Both configured signals are standard signal numbers.
    pub open spec fn wf(self) -> bool {
        &&& valid_signal(self.listen_signal)
        &&& self.send_signal matches Some(s) ==> valid_signal(s)
    }

    /// The signal a relay sends: the distinct send signal when one was
    /// configured, the listen signal otherwise.
    pub open spec fn spec_send_signal(self) -> i32 {
        match self.send_signal {
            Some(s) => s,
            None => self.listen_signal,
        }
    }

    pub fn new(listen_signal: i32, send_signal: Option<i32>) -> (r: Self)
        ensures
            r.listen_signal == listen_signal,
            r.send_signal == send_signal,
    {
        SignalMap { listen_signal, send_signal }
    }

    /// The signal to relay to descendants.
    pub fn send_signal(&self) -> (r: i32)
        ensures
            r == self.spec_send_signal(),
    {
        if let Some(signal) = self.send_signal {
            signal
        } else {
            self.listen_signal
        }
    }
}

} // verus!
