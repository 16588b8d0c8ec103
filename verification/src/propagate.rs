//! The relay cycle's decisions: which pids a cycle targets, which
//! descendants a successful wait relays to and in what order, and whether
//! the engine runs another cycle.

use vstd::prelude::*;

use crate::errors::ProcessError;
use crate::errors::spec_is_transient;
use crate::os;
use crate::process::ChildTable;
use crate::process::get_child_pids_at_depth;
use crate::process::get_child_pids_full_tree;
use crate::process::resolvable;
use crate::process::the_resolution;
use crate::types::ChildPids;
use crate::types::SignalMap;
use crate::types::pid_in_range;

verus! {

/// All pids of a depth map from `levels[i..]` on, in ascending depth
/// order, order within a depth kept.
pub open spec fn flatten_levels_from(levels: Seq<Seq<u32>>, i: int) -> Seq<u32>
    decreases levels.len() - i,
{
    if i < 0 || i >= levels.len() {
        Seq::empty()
    } else {
        levels[i] + flatten_levels_from(levels, i + 1)
    }
}

/// All pids of a depth map, in ascending depth order, order within a
/// depth kept — the order a relay sends in.
pub open spec fn flatten_levels(levels: Seq<Seq<u32>>) -> Seq<u32> {
    flatten_levels_from(levels, 0)
}

/// One target-selection attempt for a cycle: at depth 0 the target set is
/// exactly the root itself, and at a positive depth it is the resolved
/// depth map's entry there. An entry that is missing — the tree is not
/// that deep, or the snapshot does not ground out — is the
/// no-child-processes condition; a resolved entry is never empty.
pub fn get_target_pids(pid: u32, depth: u8, table: &ChildTable) -> (r: Result<
    ChildPids,
    ProcessError,
>)
    ensures
        depth == 0 ==> (r matches Ok(v) && v@ == seq![pid]),
        (depth > 0 && resolvable(table.rows@, pid) && 1 <= depth <= the_resolution(
            table.rows@,
            pid,
        ).len()) ==> (r matches Ok(v) && v@ == the_resolution(table.rows@, pid)[depth - 1]
            && v@.len() > 0),
        (depth > 0 && !(resolvable(table.rows@, pid) && 1 <= depth <= the_resolution(
            table.rows@,
            pid,
        ).len())) ==> r == Err::<ChildPids, ProcessError>(ProcessError::NoChildPids),
{
    if depth == 0 {
        let mut v: ChildPids = Vec::new();
        v.push(pid);
        proof {
            assert(v@ =~= seq![pid]);
        }
        return Ok(v);
    }
    match get_child_pids_at_depth(pid, depth, table) {
        Some(v) => {
            proof {
                let rows = table.rows@;
                let ls = the_resolution(rows, pid);
                assert(ls[depth - 1].len() > 0);
            }
            Ok(v)
        },
        None => Err(ProcessError::NoChildPids),
    }
}

/// Every descendant of `root` in the snapshot, in ascending depth order —
/// exactly the pids a relay from `root` sends to. `None` when the
/// snapshot does not ground out.
pub fn relay_targets(root: u32, table: &ChildTable) -> (r: Option<ChildPids>)
    ensures
        resolvable(table.rows@, root) ==> (r matches Some(v) && v@ == flatten_levels(
            the_resolution(table.rows@, root),
        )),
        !resolvable(table.rows@, root) ==> r is None,
{
    let m = match get_child_pids_full_tree(root, table) {
        Some(m) => m,
        None => {
            return None;
        },
    };
    let mut acc: ChildPids = Vec::new();
    let n = m.levels.len();
    let mut i: usize = 0;
    proof {
        assert(m@.len() == n);
        assert(acc@ + flatten_levels_from(m@, 0) =~= flatten_levels_from(m@, 0));
    }
    while i < n
        invariant
            n == m.levels@.len(),
            n == m@.len(),
            0 <= i <= n,
            flatten_levels(m@) == acc@ + flatten_levels_from(m@, i as int),
        decreases n - i,
    {
        let mut level = m.levels[i].clone();
        proof {
            assert(m@[i as int] == m.levels@[i as int]@);
            assert((acc@ + level@) + flatten_levels_from(m@, i + 1) =~= acc@ + (level@
                + flatten_levels_from(m@, i + 1)));
        }
        acc.append(&mut level);
        i = i + 1;
    }
    proof {
        assert(acc@ + flatten_levels_from(m@, n as int) =~= acc@);
    }
    Some(acc)
}

/// What became of one best-effort send: the descendant it went to, and
/// whether the OS accepted it.
pub struct SendOutcome {
    pub pid: u32,
    pub delivered: bool,
}

/// The relay action for a target whose wait succeeded: send the configured
/// send signal to every descendant of `target` in the snapshot, in
/// ascending depth order. Sending is best effort — a descendant that
/// already exited, or a pid outside the sendable range, does not stop the
/// fan-out; the outcome of each send is reported in order instead. `None`
/// when the snapshot does not ground out.
pub fn send_signal_to_descendants(target: u32, table: &ChildTable, signal_map: &SignalMap) -> (r:
    Option<Vec<SendOutcome>>)
    requires
        signal_map.wf(),
    ensures
        resolvable(table.rows@, target) ==> (r matches Some(log) && log@.len() == flatten_levels(
            the_resolution(table.rows@, target),
        ).len() && (forall|i: int|
            0 <= i < log@.len() ==> #[trigger] log@[i].pid == flatten_levels(
                the_resolution(table.rows@, target),
            )[i])),
        !resolvable(table.rows@, target) ==> r is None,
{
    let targets = match relay_targets(target, table) {
        Some(v) => v,
        None => {
            return None;
        },
    };
    let send_signal = signal_map.send_signal();
    let mut log: Vec<SendOutcome> = Vec::new();
    let n = targets.len();
    let mut i: usize = 0;
    while i < n
        invariant
            n == targets@.len(),
            0 <= i <= n,
            log@.len() == i,
            forall|j: int| 0 <= j < i ==> #[trigger] log@[j].pid == targets@[j],
            signal_map.wf(),
            send_signal == signal_map.spec_send_signal(),
        decreases n - i,
    {
        let pid = targets[i];
        let delivered = if pid_in_range(pid) {
            match os::send_signal_to(pid, send_signal) {
                Ok(_) => true,
                Err(_) => false,
            }
        } else {
            false
        };
        log.push(SendOutcome { pid, delivered });
        i = i + 1;
    }
    Some(log)
}

/// What the engine does once a cycle has finished.
#[derive(Clone, Copy, Debug, PartialEq, Eq, Structural)]
pub enum NextStep {
    /// Surface the cycle's outcome and stop.
    Stop,
    /// Sleep the fixed inter-cycle interval and run another cycle.
    Retry,
}

/// The decision after one cycle: keep-alive repeats — absorbing a clean
/// cycle as well as the transient no-targets conditions — while a
/// permanent OS-level failure stops the engine even under keep-alive, and
/// without keep-alive one cycle is all there is.
pub open spec fn spec_after_cycle(keep_alive: bool, outcome: Result<(), ProcessError>) -> NextStep {
    match outcome {
        Ok(_) => if keep_alive {
            NextStep::Retry
        } else {
            NextStep::Stop
        },
        Err(e) => if keep_alive && spec_is_transient(e) {
            NextStep::Retry
        } else {
            NextStep::Stop
        },
    }
}

/// Decide what follows a finished cycle; see `spec_after_cycle`.
pub fn after_cycle(keep_alive: bool, outcome: &Result<(), ProcessError>) -> (r: NextStep)
    ensures
        r == spec_after_cycle(keep_alive, *outcome),
{
    match outcome {
        Ok(_) => if keep_alive {
            NextStep::Retry
        } else {
            NextStep::Stop
        },
        Err(e) => if keep_alive && e.is_transient() {
            NextStep::Retry
        } else {
            NextStep::Stop
        },
    }
}

/// Whether a failed target-selection attempt should be retried rather
/// than surfaced: only under keep-alive, and only for the transient
/// conditions — children that are not there yet.
pub fn keep_waiting_for_targets(keep_alive: bool, attempt: &Result<ChildPids, ProcessError>) -> (r:
    bool)
    ensures
        r == (keep_alive && (attempt matches Err(e) && spec_is_transient(*e))),
{
    match attempt {
        Ok(_) => false,
        Err(e) => keep_alive && e.is_transient(),
    }
}

/// Keep-alive never gives up while targets are merely missing: a cycle
/// that found no child processes at the requested depth, or whose wait
/// timed out on a process that is not there yet, leads to another cycle —
/// never to a stop.
pub proof fn lemma_keep_alive_persistent(outcome: Result<(), ProcessError>)
    requires
        outcome matches Err(e) ==> spec_is_transient(e),
    ensures
        spec_after_cycle(true, outcome) == NextStep::Retry,
{
}

} // verus!
