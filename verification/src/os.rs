//! The OS capabilities the engine consumes, as narrow bindings: probing and
//! tracing a process and sending it a signal. Each function converts plain
//! values to what the binding takes and hands the outcome back as plain
//! values; nothing here decides anything.

use vstd::prelude::*;

use crate::listener::WaitEvent;
use crate::types::{valid_pid, valid_signal};

verus! {

/// Relies on nix::sys::signal::kill with a null signal: reports whether a
/// process with this pid can be signalled right now. Nothing is sent.
#[verifier::external_body]
pub(crate) fn probe_process(pid: u32) -> bool
    requires
        valid_pid(pid),
{
    nix::sys::signal::kill(nix::unistd::Pid::from_raw(pid as i32), None).is_ok()
}

/// Relies on nix::poll::poll with no file descriptors: blocks for about
/// `ms` milliseconds (less when interrupted by a signal).
#[verifier::external_body]
pub(crate) fn sleep_ms(ms: u16) {
    let mut fds: [nix::poll::PollFd; 0] = [];
    let _ = nix::poll::poll(&mut fds, nix::poll::PollTimeout::from(ms));
}

/// Relies on nix::sys::ptrace::attach: makes this process a tracer of
/// `pid`. On failure hands back the OS errno.
#[verifier::external_body]
pub(crate) fn tracer_attach(pid: u32) -> Result<(), i32>
    requires
        valid_pid(pid),
{
    nix::sys::ptrace::attach(nix::unistd::Pid::from_raw(pid as i32)).map_err(|e| e as i32)
}

/// Relies on nix::sys::ptrace::setoptions: asks the tracer of `pid` to
/// flag syscall stops and report exec events. On failure hands back the
/// OS errno.
#[verifier::external_body]
pub(crate) fn tracer_set_options(pid: u32) -> Result<(), i32>
    requires
        valid_pid(pid),
{
    nix::sys::ptrace::setoptions(
        nix::unistd::Pid::from_raw(pid as i32),
        nix::sys::ptrace::Options::PTRACE_O_TRACESYSGOOD
            | nix::sys::ptrace::Options::PTRACE_O_TRACEEXEC,
    ).map_err(|e| e as i32)
}

/// Relies on nix::sys::ptrace::syscall: resumes the traced `pid` until its
/// next syscall boundary or signal delivery, injecting no signal. On
/// failure hands back the OS errno.
#[verifier::external_body]
pub(crate) fn tracer_resume(pid: u32) -> Result<(), i32>
    requires
        valid_pid(pid),
{
    nix::sys::ptrace::syscall(nix::unistd::Pid::from_raw(pid as i32), None).map_err(|e| e as i32)
}

/// Relies on nix::sys::wait::waitpid: blocks until the next status change
/// of `pid` and hands the reported event over, each WaitStatus variant
/// mapped to the signal it carries. On failure hands back the OS errno.
#[verifier::external_body]
pub(crate) fn wait_next_event(pid: u32) -> Result<WaitEvent, i32>
    requires
        valid_pid(pid),
{
    match nix::sys::wait::waitpid(nix::unistd::Pid::from_raw(pid as i32), None) {
        Ok(nix::sys::wait::WaitStatus::Signaled(_, s, _)) => Ok(WaitEvent::Signaled(s as i32)),
        Ok(nix::sys::wait::WaitStatus::Stopped(_, s)) => Ok(WaitEvent::Stopped(s as i32)),
        Ok(nix::sys::wait::WaitStatus::PtraceEvent(_, s, _)) => Ok(WaitEvent::TraceEvent(s as i32)),
        Ok(_) => Ok(WaitEvent::Other),
        Err(e) => Err(e as i32),
    }
}

/// Relies on nix::sys::signal::kill: sends signal number `sig` to `pid`.
/// The range bound on `sig` is exactly what Signal::try_from accepts here,
/// so the conversion cannot fail. On failure hands back the OS errno.
#[verifier::external_body]
pub(crate) fn send_signal_to(pid: u32, sig: i32) -> Result<(), i32>
    requires
        valid_pid(pid),
        valid_signal(sig),
{
    let signal = nix::sys::signal::Signal::try_from(sig).unwrap();
    nix::sys::signal::kill(nix::unistd::Pid::from_raw(pid as i32), signal).map_err(|e| e as i32)
}

} // verus!
