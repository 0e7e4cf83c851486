use socket::coordinator::Coordinator;
use socket::coordinator::Phase;

#[test]
fn starts_running_and_quiet() {
    let c = Coordinator::new();
    assert_eq!(c.phase(), Phase::Running);
    assert!(!c.shutdown_requested());
    assert_eq!(c.live_connections(), 0);
    assert_eq!(c.outstanding_workers(), 0);
}

#[test]
fn accepting_allocates_monotonic_identifiers() {
    let mut c = Coordinator::new();
    let a = c.accept_connection(100);
    let b = c.accept_connection(200);
    assert_eq!(a, 1);
    assert_eq!(b, 2);
    assert_eq!(c.live_connections(), 2);
    assert_eq!(c.outstanding_workers(), 2);
}

#[test]
fn shutdown_broadcasts_every_live_connection() {
    let mut c = Coordinator::new();
    c.accept_connection(100);
    c.accept_connection(200);
    let acts = c.on_shutdown_signal();
    assert_eq!(acts.close_tokens, vec![100, 200]);
    assert!(acts.wake_listener);
    assert!(c.shutdown_requested());
    assert_eq!(c.live_connections(), 0);
}

#[test]
fn second_shutdown_signal_is_a_no_op() {
    let mut c = Coordinator::new();
    c.accept_connection(100);
    let first = c.on_shutdown_signal();
    assert_eq!(first.close_tokens, vec![100]);
    assert!(first.wake_listener);
    let second = c.on_shutdown_signal();
    assert!(second.close_tokens.is_empty());
    assert!(!second.wake_listener);
    assert_eq!(c.live_connections(), 0);
    assert!(c.shutdown_requested());
}

#[test]
fn observe_turns_running_into_draining() {
    let mut c = Coordinator::new();
    assert!(c.observe_shutdown().is_none());
    assert_eq!(c.phase(), Phase::Running);
    let _ = c.on_shutdown_signal();
    let swept = c.observe_shutdown().expect("flag was set");
    assert!(swept.is_empty());
    assert_eq!(c.phase(), Phase::Draining);
}

#[test]
fn connection_accepted_in_the_race_window_is_swept() {
    // Accepted after the broadcast, before the loop checks the flag: the
    // flag check must close it so that nothing stays registered.
    let mut c = Coordinator::new();
    let _ = c.on_shutdown_signal();
    c.accept_connection(300);
    assert_eq!(c.live_connections(), 1);
    let swept = c.observe_shutdown().expect("flag was set");
    assert_eq!(swept, vec![300]);
    assert_eq!(c.live_connections(), 0);
    assert_eq!(c.phase(), Phase::Draining);
}

#[test]
fn worker_finished_deregisters_exactly_once() {
    let mut c = Coordinator::new();
    let id = c.accept_connection(100);
    assert_eq!(c.worker_finished(id), Some(100));
    assert_eq!(c.worker_finished(id), None);
    assert_eq!(c.live_connections(), 0);
    assert_eq!(c.outstanding_workers(), 0);
}

#[test]
fn draining_ends_once_workers_are_gone() {
    let mut c = Coordinator::new();
    c.accept_connection(100);
    c.accept_connection(200);
    let _ = c.on_shutdown_signal();
    let _ = c.observe_shutdown();
    assert!(!c.finish_drain());
    let ws = c.drain_workers();
    assert_eq!(ws, vec![1, 2]);
    assert!(c.finish_drain());
    assert_eq!(c.phase(), Phase::Stopped);
}

#[test]
fn reaped_children_stop_being_outstanding() {
    let mut c = Coordinator::new();
    let a = c.accept_connection(100);
    let b = c.accept_connection(200);
    c.reap_exited(&vec![a, b]);
    assert_eq!(c.outstanding_workers(), 0);
    assert_eq!(c.live_connections(), 2);
}

#[test]
fn full_shutdown_leaves_nothing_live() {
    let mut c = Coordinator::new();
    for t in 0..5u64 {
        c.accept_connection(1000 + t);
    }
    let acts = c.on_shutdown_signal();
    assert_eq!(acts.close_tokens.len(), 5);
    let _ = c.observe_shutdown();
    let ws = c.drain_workers();
    assert_eq!(ws.len(), 5);
    assert!(c.finish_drain());
    assert_eq!(c.live_connections(), 0);
    assert_eq!(c.outstanding_workers(), 0);
    assert_eq!(c.phase(), Phase::Stopped);
}
