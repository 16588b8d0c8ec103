use nix::sys::signal::Signal;
use nix::unistd::Pid;
use signal_relay::listener::{parse_status, WaitEvent};
use signal_relay::process::parse_pid_lines;

#[test]
fn test_parse_status_some() {
    let mut signals: Vec<i32> = vec![];

    let status_1 = WaitEvent::Signaled(Signal::SIGTERM as i32);
    let status_2 = WaitEvent::Stopped(Signal::SIGTERM as i32);
    let status_3 = WaitEvent::TraceEvent(Signal::SIGTERM as i32);

    signals.push(parse_status(status_1).unwrap());
    signals.push(parse_status(status_2).unwrap());
    signals.push(parse_status(status_3).unwrap());

    for signal in signals.iter() {
        assert_eq!(*signal, Signal::SIGTERM as i32);
    }
}

#[test]
fn test_parse_status_none() {
    let status = WaitEvent::Other;
    let signal = parse_status(status);
    assert_eq!(signal, None);
}

#[test]
fn test_observation_waits_for_exact_signal() {
    // The observation loop concludes on the first event reporting the
    // awaited signal, passing over different signals and signal-less stops.
    let events = vec![
        WaitEvent::Other,
        WaitEvent::Stopped(Signal::SIGHUP as i32),
        WaitEvent::Stopped(Signal::SIGTERM as i32),
        WaitEvent::Stopped(Signal::SIGTERM as i32),
    ];
    let awaited = Signal::SIGTERM as i32;
    let mut concluded_at = None;
    for (i, ev) in events.iter().enumerate() {
        if parse_status(*ev) == Some(awaited) {
            concluded_at = Some(i);
            break;
        }
    }
    assert_eq!(concluded_at, Some(2));

    let never = Signal::SIGKILL as i32;
    assert!(events.iter().all(|ev| parse_status(*ev) != Some(never)));
}

#[test]
fn test_parse_pid_lines_two_pids() {
    let out = b"123\n456\n".to_vec();
    let pids = parse_pid_lines(&out).unwrap();
    assert_eq!(pids, vec![123, 456]);
}

#[test]
fn test_parse_pid_lines_no_trailing_newline() {
    let out = b"7\n42".to_vec();
    let pids = parse_pid_lines(&out).unwrap();
    assert_eq!(pids, vec![7, 42]);
}

#[test]
fn test_parse_pid_lines_empty_output() {
    let out = Vec::new();
    let pids = parse_pid_lines(&out).unwrap();
    assert_eq!(pids, Vec::<u32>::new());
}

#[test]
fn test_parse_pid_lines_rejects_garbage() {
    assert_eq!(parse_pid_lines(&b"12a\n".to_vec()), None);
    assert_eq!(parse_pid_lines(&b"\n".to_vec()), None);
    assert_eq!(parse_pid_lines(&b"12\n\n34\n".to_vec()), None);
}

#[test]
fn test_parse_pid_lines_range_edge() {
    assert_eq!(parse_pid_lines(&b"4294967295\n".to_vec()), Some(vec![u32::MAX]));
    assert_eq!(parse_pid_lines(&b"4294967296\n".to_vec()), None);
}

#[test]
fn test_parse_pid_lines_of_live_listing() {
    // A listing shaped exactly like the child-listing tool prints it.
    let own = Pid::this().as_raw();
    let out = format!("{}\n", own).into_bytes();
    assert_eq!(parse_pid_lines(&out), Some(vec![own as u32]));
}
