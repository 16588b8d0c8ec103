use vstd::prelude::*;

use crate::errors::ProcessError;
use crate::os;
use crate::types::valid_pid;

verus! {

/// One observed tracer event on a target process, reduced to the plain
/// signal number it carries, where it carries one.
#[derive(Clone, Copy, Debug, PartialEq, Eq, Structural)]
pub enum WaitEvent {
    /// The process was terminated by the given signal.
    Signaled(i32),
    /// The process was stopped by delivery of the given signal.
    Stopped(i32),
    /// A tracer-reported event carrying the given signal.
    TraceEvent(i32),
    /// Any other status change: exit, syscall stop, resumption.
    Other,
}

/// The signal an event reports as delivered to (or terminating, or
/// stopping) the target, if it reports one.
pub open spec fn spec_parse_status(status: WaitEvent) -> Option<i32> {
    match status {
        WaitEvent::Signaled(s) => Some(s),
        WaitEvent::Stopped(s) => Some(s),
        WaitEvent::TraceEvent(s) => Some(s),
        WaitEvent::Other => None,
    }
}

/// The signal carried by an observed event, if any.
pub fn parse_status(status: WaitEvent) -> (r: Option<i32>)
    ensures
        r == spec_parse_status(status),
{
    match status {
        WaitEvent::Signaled(s) => Some(s),
        WaitEvent::Stopped(s) => Some(s),
        WaitEvent::TraceEvent(s) => Some(s),
        WaitEvent::Other => None,
    }
}

/// An event reports the awaited signal exactly when it parses to that
/// signal; events that carry no signal, or a different one, do not.
pub open spec fn reports_signal(event: WaitEvent, sig: i32) -> bool {
    spec_parse_status(event) == Some(sig)
}

/// The position of the first event in `events` that reports `sig`, if any:
/// an observation loop passes over every earlier event and concludes there.
pub open spec fn stops_at(events: Seq<WaitEvent>, sig: i32) -> Option<int>
    decreases events.len(),
{
    if events.len() == 0 {
        None
    } else if reports_signal(events[0], sig) {
        Some(0)
    } else {
        match stops_at(events.drop_first(), sig) {
            Some(i) => Some(i + 1),
            None => None,
        }
    }
}

/// The wait is selective: over any run of observed events it concludes on
/// exactly the first event that reports the awaited signal. An event that
/// reports a different signal (or none) never causes an early conclusion,
/// and if no event reports the awaited signal the wait never concludes.
pub proof fn lemma_wait_selective(events: Seq<WaitEvent>, sig: i32)
    ensures
        match stops_at(events, sig) {
            Some(i) => 0 <= i < events.len() && reports_signal(events[i], sig) && (forall|j: int|
                0 <= j < i ==> !reports_signal(#[trigger] events[j], sig)),
            None => forall|j: int|
                0 <= j < events.len() ==> !reports_signal(#[trigger] events[j], sig),
        },
    decreases events.len(),
{
    if events.len() == 0 {
    } else if reports_signal(events[0], sig) {
    } else {
        let rest = events.drop_first();
        lemma_wait_selective(rest, sig);
        match stops_at(rest, sig) {
            Some(i) => {
                assert forall|j: int| 0 <= j < i + 1 implies !reports_signal(
                    #[trigger] events[j],
                    sig,
                ) by {
                    if j >= 1 {
                        assert(events[j] == rest[j - 1]);
                    }
                }
            },
            None => {
                assert forall|j: int| 0 <= j < events.len() implies !reports_signal(
                    #[trigger] events[j],
                    sig,
                ) by {
                    if j >= 1 {
                        assert(events[j] == rest[j - 1]);
                    }
                }
            },
        }
    }
}

/// Milliseconds between liveness probes of the existence phase.
pub const WAIT_INTERVAL_MS: u64 = 100;

/// How many liveness probes a bounded existence wait makes before giving
/// up: one per poll interval, rounded up to cover the whole budget, and at
/// least one.
pub open spec fn spec_poll_budget(max_wait_time: u64) -> int {
    if max_wait_time == 0 {
        1
    } else {
        (max_wait_time + WAIT_INTERVAL_MS - 1) / (WAIT_INTERVAL_MS as int)
    }
}

/// A bounded existence wait neither fails at once nor polls forever: it
/// probes at least once, and the interval its probes cover reaches the
/// budget without overshooting it by more than one poll interval.
pub proof fn lemma_existence_wait_budget(max_wait_time: u64)
    requires
        max_wait_time > 0,
    ensures
        spec_poll_budget(max_wait_time) >= 1,
        spec_poll_budget(max_wait_time) * (WAIT_INTERVAL_MS as int) >= max_wait_time,
        (spec_poll_budget(max_wait_time) - 1) * (WAIT_INTERVAL_MS as int) < max_wait_time,
{
    let m = max_wait_time as int;
    let w = WAIT_INTERVAL_MS as int;
    let q = (m + w - 1) / w;
    let r = (m + w - 1) % w;
    vstd::arithmetic::div_mod::lemma_fundamental_div_mod(m + w - 1, w);
    assert(m + w - 1 == w * q + r);
    vstd::arithmetic::div_mod::lemma_mod_bound(m + w - 1, w);
    assert(0 <= r < w);
    assert(q * w == m + w - 1 - r) by (nonlinear_arith)
        requires m + w - 1 == w * q + r;
    assert((q - 1) * w == m - 1 - r) by (nonlinear_arith)
        requires m + w - 1 == w * q + r;
}

/// Wait, polling at a fixed short interval, for a process with this pid to
/// exist. Gives up with `ProcessNotFound` once the probes have covered
/// `max_wait_time` milliseconds; a budget of zero still probes once.
pub fn wait_until_process_starts(pid: u32, max_wait_time: u64) -> (r: Result<(), ProcessError>)
    requires
        valid_pid(pid),
    ensures
        r matches Err(e) ==> e == ProcessError::ProcessNotFound,
{
    let budget: u64 = if max_wait_time == 0 {
        1
    } else {
        max_wait_time / WAIT_INTERVAL_MS + (
        if max_wait_time % WAIT_INTERVAL_MS == 0 {
            0
        } else {
            1
        })
    };
    let mut polls: u64 = 0;
    while polls < budget
        invariant
            valid_pid(pid),
            budget == spec_poll_budget(max_wait_time),
            polls <= budget,
        decreases budget - polls,
    {
        if os::probe_process(pid) {
            return Ok(());
        }
        polls = polls + 1;
        if polls < budget {
            os::sleep_ms(WAIT_INTERVAL_MS as u16);
        }
    }
    Err(ProcessError::ProcessNotFound)
}

/// A configured wait for one signal on one target process: the listener's
/// bounded phases (existence polling, tracer attachment, one observation
/// step, the conclusion test) are here; a driver owns the unbounded loop
/// over observation steps.
pub struct SignalListener {
    pid: u32,
    signal: i32,
    max_wait_time: u64,
}

impl SignalListener {
    /// The pid being listened on.
    pub closed spec fn spec_pid(self) -> u32 {
        self.pid
    }

    /// The signal number being listened for.
    pub closed spec fn spec_signal(self) -> i32 {
        self.signal
    }

    /// The existence-wait budget in milliseconds; zero disables the
    /// existence phase.
    pub closed spec fn spec_max_wait_time(self) -> u64 {
        self.max_wait_time
    }

    pub open spec fn wf(self) -> bool {
        valid_pid(self.spec_pid())
    }

    pub fn new(pid: u32, signal: i32, max_wait_time: u64) -> (r: Self)
        requires
            valid_pid(pid),
        ensures
            r.spec_pid() == pid,
            r.spec_signal() == signal,
            r.spec_max_wait_time() == max_wait_time,
            r.wf(),
    {
        SignalListener { pid, signal, max_wait_time }
    }

    /// Attach phase: attach this process as a tracer of the target, wait
    /// for the attach stop, then ask for syscall and exec events.
    pub fn attach_to_process(&self) -> (r: Result<(), ProcessError>)
        requires
            self.wf(),
        ensures
            r matches Err(e) ==> (e matches ProcessError::AttachFailed(_) || e
                matches ProcessError::OsError(_)),
    {
        match os::tracer_attach(self.pid) {
            Ok(_) => (),
            Err(errno) => {
                return Err(ProcessError::AttachFailed(errno));
            },
        }
        match os::wait_next_event(self.pid) {
            Ok(_) => (),
            Err(errno) => {
                return Err(ProcessError::OsError(errno));
            },
        }
        match os::tracer_set_options(self.pid) {
            Ok(_) => Ok(()),
            Err(errno) => Err(ProcessError::OsError(errno)),
        }
    }

    /// Everything a wait does before observing events: the existence phase
    /// (only when a nonzero budget is configured), then the attach phase.
    pub fn prepare(&self) -> (r: Result<(), ProcessError>)
        requires
            self.wf(),
        ensures
            r matches Err(e) ==> (e == ProcessError::ProcessNotFound || e
                matches ProcessError::AttachFailed(_) || e matches ProcessError::OsError(_)),
    {
        if self.max_wait_time > 0 {
            match wait_until_process_starts(self.pid, self.max_wait_time) {
                Ok(_) => (),
                Err(e) => {
                    return Err(e);
                },
            }
        }
        self.attach_to_process()
    }

    /// One observation step: resume the traced target and block until its
    /// next stop, signal delivery or syscall boundary is reported.
    pub fn observe_next(&self) -> (r: Result<WaitEvent, ProcessError>)
        requires
            self.wf(),
        ensures
            r matches Err(e) ==> e matches ProcessError::OsError(_),
    {
        match os::tracer_resume(self.pid) {
            Ok(_) => (),
            Err(errno) => {
                return Err(ProcessError::OsError(errno));
            },
        }
        match os::wait_next_event(self.pid) {
            Ok(event) => Ok(event),
            Err(errno) => Err(ProcessError::OsError(errno)),
        }
    }

    /// Whether an observed event is the one this listener waits for — the
    /// conclusion test of the observation loop.
    pub fn is_awaited(&self, event: WaitEvent) -> (r: bool)
        ensures
            r == reports_signal(event, self.spec_signal()),
    {
        match parse_status(event) {
            Some(s) => s == self.signal,
            None => false,
        }
    }
}

} // verus!
