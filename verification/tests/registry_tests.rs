use socket::registry::Registry;
use socket::registry::RegistryError;

#[test]
fn register_then_deregister_returns_token() {
    let mut reg = Registry::new();
    assert!(reg.register(1, 100).is_ok());
    assert!(reg.register(2, 200).is_ok());
    assert_eq!(reg.len(), 2);
    assert_eq!(reg.deregister(1), Some(100));
    assert_eq!(reg.len(), 1);
}

#[test]
fn duplicate_registration_is_refused() {
    let mut reg = Registry::new();
    assert!(reg.register(1, 100).is_ok());
    assert_eq!(reg.register(1, 999), Err(RegistryError::DuplicateId));
    assert_eq!(reg.len(), 1);
    assert_eq!(reg.deregister(1), Some(100));
}

#[test]
fn deregistration_is_idempotent() {
    let mut reg = Registry::new();
    assert!(reg.register(7, 700).is_ok());
    assert_eq!(reg.deregister(7), Some(700));
    assert_eq!(reg.deregister(7), None);
    assert_eq!(reg.deregister(7), None);
    assert!(reg.is_empty());
}

#[test]
fn deregistering_unknown_id_is_a_no_op() {
    let mut reg = Registry::new();
    assert!(reg.register(1, 100).is_ok());
    assert_eq!(reg.deregister(42), None);
    assert_eq!(reg.len(), 1);
}

#[test]
fn broadcast_captures_every_live_token_and_clears() {
    let mut reg = Registry::new();
    assert!(reg.register(1, 100).is_ok());
    assert!(reg.register(2, 200).is_ok());
    assert!(reg.register(3, 300).is_ok());
    let tokens = reg.broadcast_close();
    assert_eq!(tokens, vec![100, 200, 300]);
    assert!(reg.is_empty());
}

#[test]
fn natural_completion_racing_broadcast_removes_once() {
    // The worker's completion path runs first; the broadcast that follows
    // must not see the connection again.
    let mut reg = Registry::new();
    assert!(reg.register(1, 100).is_ok());
    assert!(reg.register(2, 200).is_ok());
    assert_eq!(reg.deregister(1), Some(100));
    let tokens = reg.broadcast_close();
    assert_eq!(tokens, vec![200]);
    // The broadcast runs first; the completion path that follows finds
    // the entry already gone.
    let mut reg2 = Registry::new();
    assert!(reg2.register(1, 100).is_ok());
    let tokens2 = reg2.broadcast_close();
    assert_eq!(tokens2, vec![100]);
    assert_eq!(reg2.deregister(1), None);
}

#[test]
fn registry_usable_again_after_broadcast() {
    let mut reg = Registry::new();
    assert!(reg.register(1, 100).is_ok());
    let _ = reg.broadcast_close();
    assert!(reg.register(2, 200).is_ok());
    assert_eq!(reg.len(), 1);
}
