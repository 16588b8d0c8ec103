use nix::sys::signal::Signal;
use signal_relay::errors::ProcessError;
use signal_relay::process::ChildTable;
use signal_relay::propagate::{
    after_cycle, get_target_pids, keep_waiting_for_targets, relay_targets,
    send_signal_to_descendants, NextStep,
};
use signal_relay::types::SignalMap;

fn table_of(rows: &[(u32, &[u32])]) -> ChildTable {
    let mut t = ChildTable::new();
    for (pid, children) in rows {
        t.record(*pid, children.to_vec());
    }
    t
}

#[test]
fn test_targets_depth_zero_is_root() {
    // Depth 0 targets exactly the root; no tree resolution is involved.
    let t = ChildTable::new();
    assert_eq!(get_target_pids(77, 0, &t), Ok(vec![77]));
}

#[test]
fn test_targets_at_depth() {
    let t = table_of(&[(1, &[2, 3]), (2, &[4]), (4, &[]), (3, &[])]);
    assert_eq!(get_target_pids(1, 1, &t), Ok(vec![2, 3]));
    assert_eq!(get_target_pids(1, 2, &t), Ok(vec![4]));
}

#[test]
fn test_targets_missing_depth_is_no_child_pids() {
    let t = table_of(&[(1, &[2]), (2, &[])]);
    assert_eq!(get_target_pids(1, 2, &t), Err(ProcessError::NoChildPids));
    let bare = ChildTable::new();
    assert_eq!(get_target_pids(1, 1, &bare), Err(ProcessError::NoChildPids));
}

#[test]
fn test_relay_targets_ascending_depth() {
    let t = table_of(&[(1, &[2, 3]), (2, &[4]), (4, &[6]), (6, &[]), (3, &[5]), (5, &[])]);
    assert_eq!(relay_targets(1, &t), Some(vec![2, 3, 4, 5, 6]));
}

#[test]
fn test_relay_scenario_depth_one_separate_subtrees() {
    // Root R with children C1, C2, each with one grandchild. With depth 1,
    // the waits target C1 and C2; a relay for C1 reaches exactly C1's
    // descendant, never C2 or C2's grandchild; and the configured distinct
    // send signal is the one relayed.
    let (r, c1, c2, g1, g2) = (100, 200, 300, 400, 500);
    let t = table_of(&[(r, &[c1, c2]), (c1, &[g1]), (g1, &[]), (c2, &[g2]), (g2, &[])]);
    assert_eq!(get_target_pids(r, 1, &t), Ok(vec![c1, c2]));

    let relayed = relay_targets(c1, &t).unwrap();
    assert_eq!(relayed, vec![g1]);
    assert!(!relayed.contains(&c2));
    assert!(!relayed.contains(&g2));

    let signal_map = SignalMap::new(Signal::SIGHUP as i32, Some(Signal::SIGKILL as i32));
    assert_eq!(signal_map.send_signal(), Signal::SIGKILL as i32);
}

#[test]
fn test_relay_scenario_depth_zero_reuses_listen_signal() {
    // Depth 0 on pid P with no distinct send signal: the wait targets P
    // itself and the relay sends the listen signal to every descendant.
    let (p, c, g) = (100, 200, 300);
    let t = table_of(&[(p, &[c]), (c, &[g]), (g, &[])]);
    assert_eq!(get_target_pids(p, 0, &t), Ok(vec![p]));
    assert_eq!(relay_targets(p, &t), Some(vec![c, g]));

    let signal_map = SignalMap::new(Signal::SIGTERM as i32, None);
    assert_eq!(signal_map.send_signal(), Signal::SIGTERM as i32);
    assert_ne!(signal_map.send_signal(), Signal::SIGKILL as i32);
}

#[test]
fn test_send_to_descendants_best_effort() {
    // Descendants that are already gone do not stop the fan-out: both
    // sends are attempted, in ascending depth order, and both report
    // undelivered (the pids cannot exist on this machine).
    let t = table_of(&[(99999999, &[99999998]), (99999998, &[99999997]), (99999997, &[])]);
    let signal_map = SignalMap::new(Signal::SIGTERM as i32, None);
    let log = send_signal_to_descendants(99999999, &t, &signal_map).unwrap();
    assert_eq!(log.len(), 2);
    assert_eq!(log[0].pid, 99999998);
    assert_eq!(log[1].pid, 99999997);
    assert!(!log[0].delivered);
    assert!(!log[1].delivered);
}

#[test]
fn test_keep_alive_absorbs_transient_conditions() {
    assert_eq!(after_cycle(true, &Err(ProcessError::NoChildPids)), NextStep::Retry);
    assert_eq!(after_cycle(true, &Err(ProcessError::ProcessNotFound)), NextStep::Retry);
    assert_eq!(after_cycle(true, &Ok(())), NextStep::Retry);
    // Permanent OS-level failures stop the engine even under keep-alive.
    assert_eq!(after_cycle(true, &Err(ProcessError::AttachFailed(3))), NextStep::Stop);
    // Without keep-alive one cycle is all there is.
    assert_eq!(after_cycle(false, &Ok(())), NextStep::Stop);
    assert_eq!(after_cycle(false, &Err(ProcessError::NoChildPids)), NextStep::Stop);
}

#[test]
fn test_keep_alive_detects_children_spawned_later() {
    // Keep-alive at depth 2 on a process that has no grandchildren yet:
    // the selection is retried, not surfaced; once a grandchild appears in
    // a later snapshot, selection finds it.
    let before = table_of(&[(1, &[2]), (2, &[])]);
    let attempt = get_target_pids(1, 2, &before);
    assert_eq!(attempt, Err(ProcessError::NoChildPids));
    assert!(keep_waiting_for_targets(true, &attempt));
    assert!(!keep_waiting_for_targets(false, &attempt));

    let after = table_of(&[(1, &[2]), (2, &[3]), (3, &[])]);
    let attempt = get_target_pids(1, 2, &after);
    assert_eq!(attempt, Ok(vec![3]));
    assert!(!keep_waiting_for_targets(true, &attempt));
}
