use std::rc::Rc;
use rxsci::flextuple::FlexTuple;
use rxsci::state::{MemoryState, MemoryStateRc, MemoryStateStore, State, StateStore};

#[test]
fn set_then_get_gives_the_value_back() {
    let mut s: MemoryState<i64> = MemoryState::new();
    s.create_key(0);
    assert_eq!(s.get(0), None);
    s.set(0, 7);
    assert_eq!(s.get(0), Some(7));
    s.set(0, -3);
    assert_eq!(s.get(0), Some(-3));
}

#[test]
fn create_key_grows_with_cleared_slots() {
    let mut s: MemoryState<i32> = MemoryState::new();
    s.create_key(3);
    assert_eq!(s.len(), 4);
    assert!(s.has_key(3));
    assert!(!s.has_key(0));
    assert!(!s.has_key(2));
    assert_eq!(s.get(3), None);
    s.create_key(3);
    assert_eq!(s.len(), 4);
}

#[test]
fn delete_key_clears_only_that_key() {
    let mut s: MemoryState<i64> = MemoryState::new();
    s.create_key(0);
    s.create_key(1);
    s.set(0, 10);
    s.set(1, 11);
    s.delete_key(0);
    assert!(!s.has_key(0));
    assert!(s.has_key(1));
    assert_eq!(s.get(1), Some(11));
    s.create_key(1);
    assert_eq!(s.get(1), None);
}

#[test]
fn shared_state_keeps_tuples() {
    let mut s: MemoryStateRc<FlexTuple> = MemoryStateRc::new();
    s.create_key(1);
    assert!(s.get_rc(1).is_none());
    let mut t = FlexTuple::default();
    t.add_int64(5);
    let t = Rc::new(t);
    s.set_rc(1, &t);
    let back = s.get_rc(1).unwrap();
    assert_eq!(back.get_int64_at(0), 5);
    s.delete_key(1);
    assert!(!s.has_key(1));
}

#[test]
fn memory_store_gives_empty_states() {
    let store = MemoryStateStore::new();
    let a = store.create_state_i64("a");
    let b = store.create_state_i32("b");
    let c = store.create_state_ft("c");
    assert_eq!(a.len(), 0);
    assert_eq!(b.len(), 0);
    assert_eq!(c.len(), 0);
}
