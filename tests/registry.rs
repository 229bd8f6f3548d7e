use async_chat::registry::{Registry, RegistryError};

#[test]
fn register_and_lookup() {
    let mut r: Registry<u32> = Registry::new();
    assert_eq!(r.register(1, "alice", 10).ok(), Some("alice".to_string()));
    assert_eq!(r.register(2, "bob", 20).ok(), Some("bob".to_string()));
    assert_eq!(r.len(), 2);
    assert_eq!(r.lookup_by_name("alice"), Some(&10));
    assert_eq!(r.lookup_by_name("bob"), Some(&20));
    assert_eq!(r.lookup_by_name("Alice"), None);
    assert_eq!(r.identity_of("bob"), Some(2));
    assert_eq!(r.outbound(1), Some(&10));
    assert_eq!(r.name_of(2), Some("bob".to_string()));
    assert!(r.contains(1));
    assert!(!r.contains(3));
    assert!(r.name_taken("alice"));
    assert!(!r.name_taken("carol"));
}

#[test]
fn register_refusals_hand_back_handle() {
    let mut r: Registry<u32> = Registry::new();
    r.register(1, "alice", 10).unwrap();
    let e = r.register(2, "alice", 20).unwrap_err();
    assert_eq!(e.error, RegistryError::NameTaken);
    assert_eq!(e.outbound, 20);
    let e = r.register(2, "", 21).unwrap_err();
    assert_eq!(e.error, RegistryError::EmptyName);
    assert_eq!(e.outbound, 21);
    let e = r.register(1, "other", 11).unwrap_err();
    assert_eq!(e.error, RegistryError::AlreadyRegistered);
    assert_eq!(r.len(), 1);
    assert_eq!(r.name_of(1), Some("alice".to_string()));
}

#[test]
fn fallback_picks_first_free_variant() {
    let mut r: Registry<u32> = Registry::new();
    assert_eq!(r.register_fallback(1, "10.0.0.1:5000", 1).ok(), Some("10.0.0.1:5000".to_string()));
    r.register(2, "10.0.0.2:6000", 2).unwrap();
    r.register(3, "10.0.0.2:6000_", 3).unwrap();
    assert_eq!(r.register_fallback(4, "10.0.0.2:6000", 4).ok(), Some("10.0.0.2:6000__".to_string()));
    let e = r.register_fallback(4, "x", 5).unwrap_err();
    assert_eq!(e.error, RegistryError::AlreadyRegistered);
    assert_eq!(e.outbound, 5);
}

#[test]
fn rename_moves_name() {
    let mut r: Registry<u32> = Registry::new();
    r.register(1, "alice", 10).unwrap();
    r.register(2, "bob", 20).unwrap();
    assert_eq!(r.rename(1, "ally"), Ok("ally".to_string()));
    assert_eq!(r.identity_of("ally"), Some(1));
    assert_eq!(r.identity_of("alice"), None);
    assert_eq!(r.lookup_by_name("ally"), Some(&10));
    assert!(r.register(3, "alice", 30).is_ok());
}

#[test]
fn rename_refusals_leave_registry() {
    let mut r: Registry<u32> = Registry::new();
    r.register(1, "alice", 10).unwrap();
    r.register(2, "bob", 20).unwrap();
    assert_eq!(r.rename(1, "bob"), Err(RegistryError::NameTaken));
    assert_eq!(r.rename(1, "alice"), Err(RegistryError::NameTaken));
    assert_eq!(r.rename(9, "zed"), Err(RegistryError::NotRegistered));
    assert_eq!(r.rename(9, "bob"), Err(RegistryError::NameTaken));
    assert_eq!(r.identity_of("alice"), Some(1));
    assert_eq!(r.identity_of("bob"), Some(2));
    assert_eq!(r.identity_of("zed"), None);
}

#[test]
fn deregister_frees_name() {
    let mut r: Registry<u32> = Registry::new();
    r.register(1, "alice", 10).unwrap();
    r.register(2, "bob", 20).unwrap();
    r.register(3, "carol", 30).unwrap();
    assert_eq!(r.deregister(2), Some("bob".to_string()));
    assert_eq!(r.deregister(2), None);
    assert_eq!(r.len(), 2);
    assert_eq!(r.identity_of("bob"), None);
    assert_eq!(r.identity_of("carol"), Some(3));
    assert_eq!(r.lookup_by_name("carol"), Some(&30));
    assert!(r.register(4, "bob", 40).is_ok());
}

#[test]
fn directions_stay_consistent() {
    let mut r: Registry<u32> = Registry::new();
    r.register(1, "a", 1).unwrap();
    r.register(2, "b", 2).unwrap();
    let _ = r.rename(1, "c");
    let _ = r.rename(2, "a");
    r.deregister(1);
    r.register_fallback(3, "c", 3).unwrap();
    for (name, id) in [("a", 2u64), ("c", 3u64)] {
        assert_eq!(r.identity_of(name), Some(id));
        assert_eq!(r.name_of(id), Some(name.to_string()));
    }
    assert_eq!(r.identity_of("b"), None);
    assert_eq!(r.len(), 2);
}
