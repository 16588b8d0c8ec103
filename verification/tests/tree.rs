use signal_relay::process::{
    get_child_pids_at_depth, get_child_pids_full_tree, ChildTable, TreeQuery,
};

fn table_of(rows: &[(u32, &[u32])]) -> ChildTable {
    let mut t = ChildTable::new();
    for (pid, children) in rows {
        t.record(*pid, children.to_vec());
    }
    t
}

#[test]
fn test_resolve_no_children_empty_map() {
    // A process with zero live children resolves to an empty map.
    let t = table_of(&[(100, &[])]);
    let m = get_child_pids_full_tree(100, &t).unwrap();
    assert_eq!(m.depth_count(), 0);
    // Also when the root has no row at all.
    let bare = ChildTable::new();
    let m = get_child_pids_full_tree(100, &bare).unwrap();
    assert_eq!(m.depth_count(), 0);
}

#[test]
fn test_resolve_nested_chain() {
    // A chain of three nested children: exactly three depth entries,
    // numbering starting at 1.
    let t = table_of(&[(1, &[2]), (2, &[3]), (3, &[4]), (4, &[])]);
    let m = get_child_pids_full_tree(1, &t).unwrap();
    assert_eq!(m.depth_count(), 3);
    assert_eq!(m.get(1), Some(&vec![2]));
    assert_eq!(m.get(2), Some(&vec![3]));
    assert_eq!(m.get(3), Some(&vec![4]));
    assert_eq!(m.get(0), None);
    assert_eq!(m.get(4), None);
}

#[test]
fn test_resolve_wide_tree() {
    let t = table_of(&[(1, &[2, 3]), (2, &[4]), (4, &[]), (3, &[5]), (5, &[])]);
    let m = get_child_pids_full_tree(1, &t).unwrap();
    assert_eq!(m.depth_count(), 2);
    assert_eq!(m.get(1), Some(&vec![2, 3]));
    assert_eq!(m.get(2), Some(&vec![4, 5]));
}

#[test]
fn test_resolve_twice_identical() {
    // Resolving the same static tree twice yields identical depth maps.
    let t = table_of(&[(1, &[2, 3]), (2, &[4]), (4, &[]), (3, &[])]);
    let a = get_child_pids_full_tree(1, &t).unwrap();
    let b = get_child_pids_full_tree(1, &t).unwrap();
    assert_eq!(a.depth_count(), b.depth_count());
    for d in 1..=a.depth_count() {
        assert_eq!(a.get(d), b.get(d));
    }
}

#[test]
fn test_resolve_cyclic_snapshot_is_refused() {
    // A snapshot whose recorded child relation leads back into itself
    // cannot ground out; a live process tree never produces one.
    let t = table_of(&[(1, &[2]), (2, &[1])]);
    assert!(get_child_pids_full_tree(1, &t).is_none());
}

#[test]
fn test_first_row_wins() {
    // A pid recorded twice keeps its first answer.
    let t = table_of(&[(1, &[2]), (2, &[]), (2, &[3])]);
    let m = get_child_pids_full_tree(1, &t).unwrap();
    assert_eq!(m.depth_count(), 1);
    assert_eq!(m.get(1), Some(&vec![2]));
}

#[test]
fn test_get_child_pids_at_depth() {
    let t = table_of(&[(1, &[2, 3]), (2, &[4]), (4, &[]), (3, &[])]);
    assert_eq!(get_child_pids_at_depth(1, 1, &t), Some(vec![2, 3]));
    assert_eq!(get_child_pids_at_depth(1, 2, &t), Some(vec![4]));
    assert_eq!(get_child_pids_at_depth(1, 0, &t), None);
    assert_eq!(get_child_pids_at_depth(1, 3, &t), None);
}

#[test]
fn test_tree_query_collects_snapshot() {
    // Drive a snapshot collection the way a live driver would, answering
    // from a fixed tree, and check the snapshot resolves to that tree.
    let lister = |pid: u32| -> Vec<u32> {
        match pid {
            10 => vec![20, 30],
            20 => vec![40],
            _ => vec![],
        }
    };
    let mut q = TreeQuery::new(10);
    let mut asked = Vec::new();
    while let Some(pid) = q.next_pid() {
        asked.push(pid);
        q.record_children(lister(pid));
    }
    let table = q.into_table();
    // Every reachable process was asked about exactly once here.
    let mut sorted = asked.clone();
    sorted.sort();
    assert_eq!(sorted, vec![10, 20, 30, 40]);
    let m = get_child_pids_full_tree(10, &table).unwrap();
    assert_eq!(m.depth_count(), 2);
    assert_eq!(m.get(1), Some(&vec![20, 30]));
    assert_eq!(m.get(2), Some(&vec![40]));
}
