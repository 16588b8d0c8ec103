use std::time::Instant;

use nix::sys::signal::Signal;
use signal_relay::errors::ProcessError;
use signal_relay::listener::{wait_until_process_starts, SignalListener, WaitEvent};
use signal_relay::types::{pid_in_range, validate_command, validate_signal, SignalMap};

#[test]
fn test_signalmap_only_listen() {
    let signal_map = SignalMap::new(Signal::SIGTERM as i32, None);
    assert_eq!(signal_map.send_signal(), Signal::SIGTERM as i32);
}

#[test]
fn test_signalmap() {
    let signal_map = SignalMap::new(Signal::SIGTERM as i32, Some(Signal::SIGKILL as i32));
    assert_eq!(signal_map.send_signal(), Signal::SIGKILL as i32);
}

#[test]
fn test_validate_signal() {
    assert_eq!(validate_signal(Signal::SIGHUP as i32), Ok(1));
    assert_eq!(validate_signal(31), Ok(31));
    assert_eq!(validate_signal(0), Err(ProcessError::InvalidSignalId(0)));
    assert_eq!(validate_signal(32), Err(ProcessError::InvalidSignalId(32)));
    assert_eq!(validate_signal(-1), Err(ProcessError::InvalidSignalId(-1)));
}

#[test]
fn test_validate_command() {
    assert_eq!(validate_command(&Vec::new()), Err(ProcessError::EmptyCommand));
    assert_eq!(validate_command(&b"true".to_vec()), Ok(()));
}

#[test]
fn test_pid_range() {
    assert!(pid_in_range(1));
    assert!(pid_in_range(0x7fff_ffff));
    assert!(!pid_in_range(0));
    assert!(!pid_in_range(0x8000_0000));
}

#[test]
fn test_transient_errors() {
    assert!(ProcessError::NoChildPids.is_transient());
    assert!(ProcessError::ProcessNotFound.is_transient());
    assert!(!ProcessError::EmptyCommand.is_transient());
    assert!(!ProcessError::AttachFailed(1).is_transient());
    assert!(!ProcessError::OsError(10).is_transient());
    assert!(!ProcessError::InvalidSignalId(0).is_transient());
}

#[test]
fn test_listener_awaits_exact_signal() {
    let listener = SignalListener::new(1234, Signal::SIGTERM as i32, 0);
    assert!(listener.is_awaited(WaitEvent::Stopped(Signal::SIGTERM as i32)));
    assert!(listener.is_awaited(WaitEvent::Signaled(Signal::SIGTERM as i32)));
    assert!(!listener.is_awaited(WaitEvent::Stopped(Signal::SIGHUP as i32)));
    assert!(!listener.is_awaited(WaitEvent::Other));
}

#[test]
fn test_existence_wait_stays_within_budget() {
    // A nonexistent pid with a bounded budget fails with the not-found
    // condition after roughly the budget: not at once, not forever.
    let started = Instant::now();
    let r = wait_until_process_starts(99999999, 500);
    let elapsed = started.elapsed().as_millis();
    assert_eq!(r, Err(ProcessError::ProcessNotFound));
    assert!(elapsed >= 350, "gave up too early: {} ms", elapsed);
    assert!(elapsed < 5000, "kept polling too long: {} ms", elapsed);
}

#[test]
fn test_existence_wait_finds_running_process() {
    let own = nix::unistd::Pid::this().as_raw() as u32;
    assert_eq!(wait_until_process_starts(own, 1000), Ok(()));
}

#[test]
fn test_attach_to_missing_process_fails() {
    // Attaching to a pid that cannot exist fails in the attach phase.
    let listener = SignalListener::new(99999999, Signal::SIGHUP as i32, 0);
    match listener.prepare() {
        Err(ProcessError::AttachFailed(errno)) => assert!(errno != 0),
        other => panic!("expected an attach failure, got {:?}", other),
    }
}
