use rmc::policy::{MemOrdering, LOAD_ORDER, RMW_ORDER, STORE_ORDER};
use rmc::registry::{EdgeKind, EventKind, Handle, RegError, Registry};

fn s(x: &str) -> String {
    String::from(x)
}

#[test]
fn open_returns_handles_in_order() {
    let mut r = Registry::new(3);
    assert_eq!(r.open(1, s("a")), Ok(Handle { instance: 3, index: 0 }));
    assert_eq!(r.open(1, s("b")), Ok(Handle { instance: 3, index: 1 }));
    assert_eq!(r.action_count(), 2);
    assert_eq!(r.event_count(), 2);
    assert!(r.action(0).open && r.action(1).open);
    assert_eq!(r.event(1).kind, EventKind::Open);
}

#[test]
fn double_open_fails_and_changes_nothing() {
    let mut r = Registry::new(1);
    r.open(1, s("x")).unwrap();
    let actions = r.action_count();
    let events = r.event_count();
    assert_eq!(r.open(1, s("x")), Err(RegError::DuplicateOpen));
    assert_eq!(r.action_count(), actions);
    assert_eq!(r.event_count(), events);
    assert!(r.action(0).open);
}

#[test]
fn same_label_on_other_thread_opens() {
    let mut r = Registry::new(1);
    r.open(1, s("x")).unwrap();
    assert_eq!(r.open(2, s("x")), Ok(Handle { instance: 1, index: 1 }));
}

#[test]
fn reopen_after_close_succeeds() {
    let mut r = Registry::new(1);
    let h = r.open(1, s("x")).unwrap();
    r.close(h).unwrap();
    assert_eq!(r.open(1, s("x")), Ok(Handle { instance: 1, index: 1 }));
}

#[test]
fn close_never_issued_handle_fails_and_changes_nothing() {
    let mut r = Registry::new(1);
    r.open(1, s("a")).unwrap();
    let events = r.event_count();
    assert_eq!(r.close(Handle { instance: 1, index: 9 }), Err(RegError::InvalidHandle));
    assert_eq!(r.action_count(), 1);
    assert_eq!(r.event_count(), events);
    assert!(r.action(0).open);
}

#[test]
fn close_handle_of_other_registry_fails() {
    let mut r = Registry::new(1);
    let h = r.open(1, s("a")).unwrap();
    let other = Handle { instance: 2, index: h.index };
    assert_eq!(r.close(other), Err(RegError::InvalidHandle));
    assert!(r.action(0).open);
}

#[test]
fn double_close_fails() {
    let mut r = Registry::new(1);
    let h = r.open(1, s("a")).unwrap();
    assert_eq!(r.close(h), Ok(()));
    assert_eq!(r.close(h), Err(RegError::InvalidHandle));
    assert_eq!(r.event_count(), 2);
    assert_eq!(r.event(1).kind, EventKind::Close);
    assert_eq!(r.event(1).label, s("a"));
}

#[test]
fn edges_get_increasing_ids_and_kinds() {
    let mut r = Registry::new(1);
    assert_eq!(r.visibility_edge(s("a"), s("b")), 0);
    assert_eq!(r.execution_edge(s("b"), s("c")), 1);
    assert_eq!(r.register_edge(EdgeKind::Visibility, s("c"), s("d")), 2);
    assert_eq!(r.edge_count(), 3);
    assert_eq!(r.edge(0).kind, EdgeKind::Visibility);
    assert_eq!(r.edge(1).kind, EdgeKind::Execution);
    assert_eq!(r.edge(1).source, s("b"));
    assert_eq!(r.edge(1).destination, s("c"));
}

#[test]
fn find_open_sees_only_open_actions_of_the_thread() {
    let mut r = Registry::new(1);
    let h = r.open(1, s("a")).unwrap();
    r.open(2, s("a")).unwrap();
    assert_eq!(r.find_open(1, &s("a")), Some(0));
    assert_eq!(r.find_open(2, &s("a")), Some(1));
    assert_eq!(r.find_open(3, &s("a")), None);
    r.close(h).unwrap();
    assert_eq!(r.find_open(1, &s("a")), None);
}

#[test]
fn push_is_a_no_op_on_registries() {
    let mut r = Registry::new(1);
    r.open(1, s("a")).unwrap();
    rmc::push();
    assert_eq!(r.action_count(), 1);
    assert_eq!(r.event_count(), 1);
}

#[test]
fn forced_orderings_are_relaxed() {
    assert_eq!(STORE_ORDER, MemOrdering::Relaxed);
    assert_eq!(LOAD_ORDER, MemOrdering::Relaxed);
    assert_eq!(RMW_ORDER, MemOrdering::Relaxed);
}

#[test]
fn double_open_fails_after_unrelated_steps() {
    let mut r = Registry::new(1);
    r.open(1, s("x")).unwrap();
    let y = r.open(1, s("y")).unwrap();
    r.visibility_edge(s("x"), s("y"));
    r.close(y).unwrap();
    r.open(2, s("x")).unwrap();
    let events = r.event_count();
    assert_eq!(r.open(1, s("x")), Err(RegError::DuplicateOpen));
    assert_eq!(r.action_count(), 3);
    assert_eq!(r.event_count(), events);
}
