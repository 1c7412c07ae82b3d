use ssht::shutdown::Shutdown;

#[test]
fn new_request_is_not_made() {
    assert!(!Shutdown::new().is_triggered());
}

#[test]
fn trigger_is_seen_by_clones() {
    let a = Shutdown::new();
    let b = a.clone();
    a.trigger();
    assert!(a.is_triggered());
    assert!(b.is_triggered());
    b.trigger();
    assert!(a.is_triggered());
}
