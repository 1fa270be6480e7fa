use qdb::queue::BoundedQueue;

#[test]
fn starts_empty_with_fixed_capacity() {
    let q = BoundedQueue::new(4);
    assert_eq!(q.capacity(), 4);
    assert_eq!(q.len(), 0);
}

#[test]
fn push_then_pop_returns_the_item() {
    let mut q = BoundedQueue::new(4);
    assert!(q.try_push(String::from("a"), 7).is_ok());
    assert_eq!(q.len(), 1);
    let (payload, ticket) = q.try_pop().unwrap();
    assert_eq!(payload, "a");
    assert_eq!(ticket, 7);
    assert_eq!(q.len(), 0);
}

#[test]
fn pop_on_empty_fails_without_blocking() {
    let mut q = BoundedQueue::new(2);
    assert!(q.try_pop().is_none());
}

#[test]
fn backpressure_full_push_fails_then_succeeds_after_pop() {
    let mut q = BoundedQueue::new(2);
    assert!(q.try_push(String::from("a"), 0).is_ok());
    assert!(q.try_push(String::from("b"), 1).is_ok());
    // The queue is at capacity: the next push must report failure and
    // hand the rejected item back unchanged.
    let rejected = q.try_push(String::from("c"), 2).unwrap_err();
    assert_eq!(rejected.0, "c");
    assert_eq!(rejected.1, 2);
    assert_eq!(q.len(), 2);
    // One pop frees a slot; the retried push succeeds.
    let front = q.try_pop().unwrap();
    assert_eq!(front.0, "a");
    assert!(q.try_push(rejected.0, rejected.1).is_ok());
    assert_eq!(q.len(), 2);
}

#[test]
fn no_loss_every_pushed_item_popped_exactly_once_in_order() {
    let mut q = BoundedQueue::new(8);
    for i in 0..5u64 {
        assert!(q.try_push(format!("item-{}", i), i).is_ok());
    }
    for i in 0..5u64 {
        let (payload, ticket) = q.try_pop().unwrap();
        assert_eq!(ticket, i);
        assert_eq!(payload, format!("item-{}", i));
    }
    assert!(q.try_pop().is_none());
}
