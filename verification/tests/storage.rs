use anthill_ecs::archetype::raw_alloc::RawAlloc;
use anthill_ecs::types::signal::{SignalWaitersCollection, SingalWaiterId, WaitError};

#[test]
fn raw_alloc_layout_follows_capacity() {
    let mut raw = RawAlloc::<u64>::new(10);
    let layout = raw.layout();
    assert_eq!(layout.size(), 80);
    assert_eq!(layout.align(), std::mem::align_of::<u64>());
    raw.grow(25);
    assert_eq!(raw.layout().size(), 200);
}

#[test]
fn raw_alloc_of_nothing_reserves_nothing() {
    let mut raw = RawAlloc::<u32>::new(0);
    assert_eq!(raw.layout().size(), 0);
    assert_eq!(raw.layout().align(), 4);
    raw.grow(3);
    assert_eq!(raw.layout().size(), 12);
}

#[test]
fn raw_alloc_of_zero_sized_values() {
    let raw = RawAlloc::<()>::new(7);
    assert_eq!(raw.layout().size(), 0);
    assert_eq!(raw.layout().align(), 1);
}

#[test]
fn waiters_subscribe_and_unsubscribe() {
    let mut waiters: SignalWaitersCollection<&str> = SignalWaitersCollection::new();
    let a = waiters.subscribe("a");
    let many = waiters.subscribe_many(vec!["b", "c"]);
    assert_eq!(many.len(), 2);
    assert_eq!(waiters.waiter_ids().len(), 3);
    assert_eq!(waiters.remove(&many[1]), Some("c"));
    waiters.insert(many[1], "c");
    waiters.unsubscribe(&a);
    assert_eq!(waiters.remove(&a), None);
    let mut left: Vec<SingalWaiterId> = waiters.waiter_ids();
    left.sort();
    let mut expected = many.clone();
    expected.sort();
    assert_eq!(left, expected);
    assert_eq!(waiters.remove(&many[0]), Some("b"));
}

#[test]
fn waiter_ids_keep_their_value() {
    let id = SingalWaiterId::new(42);
    assert_eq!(id.value(), 42);
    assert_ne!(WaitError::Closed, WaitError::Caston("lagged".to_string()));
}
