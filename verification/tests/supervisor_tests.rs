use socket::supervisor::Supervisor;

#[test]
fn tracks_and_untracks_workers() {
    let mut sup = Supervisor::new();
    assert!(sup.track(10));
    assert!(sup.track(11));
    assert!(!sup.track(10));
    assert_eq!(sup.len(), 2);
    assert!(sup.contains(10));
    assert!(sup.untrack(10));
    assert!(!sup.contains(10));
    assert_eq!(sup.len(), 1);
}

#[test]
fn untracking_is_idempotent() {
    let mut sup = Supervisor::new();
    assert!(sup.track(5));
    assert!(sup.untrack(5));
    assert!(!sup.untrack(5));
    assert!(sup.is_empty());
}

#[test]
fn reaping_every_exited_child_leaves_no_zombies() {
    // Serve and close several connections in the process strategy: once
    // every child has been reaped, nothing may remain tracked.
    let mut sup = Supervisor::new();
    let pids: Vec<u64> = vec![101, 102, 103, 104, 105];
    for p in &pids {
        assert!(sup.track(*p));
    }
    assert_eq!(sup.len(), 5);
    sup.reap_exited(&pids);
    assert!(sup.is_empty());
}

#[test]
fn reaping_a_partial_batch_keeps_the_rest() {
    let mut sup = Supervisor::new();
    assert!(sup.track(1));
    assert!(sup.track(2));
    assert!(sup.track(3));
    sup.reap_exited(&vec![2]);
    assert!(sup.contains(1));
    assert!(!sup.contains(2));
    assert!(sup.contains(3));
    assert_eq!(sup.len(), 2);
}

#[test]
fn reaping_unknown_children_changes_nothing() {
    let mut sup = Supervisor::new();
    assert!(sup.track(1));
    sup.reap_exited(&vec![9, 8, 7]);
    assert!(sup.contains(1));
    assert_eq!(sup.len(), 1);
}

#[test]
fn draining_hands_out_all_and_empties() {
    let mut sup = Supervisor::new();
    assert!(sup.track(1));
    assert!(sup.track(2));
    let ws = sup.take_all();
    assert_eq!(ws, vec![1, 2]);
    assert!(sup.is_empty());
}
