use scheme_ipc::registry::{same_bytes, Registry};

#[test]
fn unregister_removes_only_that_name() {
    let mut r = Registry::new();
    r.register(b"pipe");
    r.register(b"file");
    r.register(b"pipe");
    assert!(r.contains(b"pipe"));
    r.unregister(b"pipe");
    assert!(!r.contains(b"pipe"));
    assert!(r.contains(b"file"));
    r.unregister(b"tcp");
    assert!(r.contains(b"file"));
}

#[test]
fn empty_registry() {
    let mut r = Registry::new();
    assert!(!r.contains(b""));
    r.unregister(b"pipe");
    assert!(!r.contains(b"pipe"));
}

#[test]
fn byte_equality() {
    assert!(same_bytes(b"pipe", b"pipe"));
    assert!(!same_bytes(b"pipe", b"pip"));
    assert!(!same_bytes(b"pipe", b"pipa"));
    assert!(same_bytes(b"", b""));
}
