use async_pool::AsyncPool;

#[test]
fn new_pool_is_empty() {
    let mut pool: AsyncPool<u64> = AsyncPool::new();
    assert_eq!(pool.available_len(), 0);
    assert!(pool.rsvp().is_none());
}

#[test]
fn new_with_queues_in_order() {
    let mut pool = AsyncPool::new_with(vec![10u64, 20, 30]);
    assert_eq!(pool.available_len(), 3);
    let guard = pool.rsvp().unwrap();
    assert_eq!(*guard.resource(), 10);
}

#[test]
fn conservation_across_operations() {
    // count(available) + count(outstanding) == total added, at every step.
    let mut pool = AsyncPool::new_with(vec![1u64, 2]);
    let mut outstanding = 0usize;
    let total = 3usize;

    pool.add(3);
    assert_eq!(pool.available_len() + outstanding, total);

    let mut g1 = pool.rsvp().unwrap();
    outstanding += 1;
    assert_eq!(pool.available_len() + outstanding, total);

    let mut g2 = pool.rsvp().unwrap();
    outstanding += 1;
    assert_eq!(pool.available_len() + outstanding, total);

    g1.release(&mut pool);
    outstanding -= 1;
    assert_eq!(pool.available_len() + outstanding, total);

    g2.release(&mut pool);
    outstanding -= 1;
    assert_eq!(pool.available_len() + outstanding, total);
    assert_eq!(pool.available_len(), total);
}

#[test]
fn exclusivity_of_concurrent_guards() {
    // Two guards active at once never hold the same resource instance.
    let mut pool = AsyncPool::new_with(vec![100u64, 200]);
    let g1 = pool.rsvp().unwrap();
    let g2 = pool.rsvp().unwrap();
    assert!(g1.holds_resource() && g2.holds_resource());
    assert_ne!(*g1.resource(), *g2.resource());
}

#[test]
fn released_resource_serves_next_reservation() {
    // A resource handed back by a guard is available for a later rsvp.
    let mut pool = AsyncPool::new();
    pool.add(String::from("conn"));
    let mut guard = pool.rsvp().unwrap();
    assert_eq!(pool.available_len(), 0);
    guard.release(&mut pool);
    assert_eq!(pool.available_len(), 1);
    let again = pool.rsvp().unwrap();
    assert_eq!(again.resource(), "conn");
}

#[test]
fn no_double_release() {
    // However often release is attempted, the resource enters the queue once.
    let mut pool = AsyncPool::new_with(vec![7u64]);
    let mut guard = pool.rsvp().unwrap();
    guard.release(&mut pool);
    assert_eq!(pool.available_len(), 1);
    guard.release(&mut pool);
    guard.release(&mut pool);
    assert_eq!(pool.available_len(), 1);
    assert!(!guard.holds_resource());
}

#[test]
fn fifo_two_sequential_reservations() {
    // Seeded [A, B], two sequential rsvp calls yield A then B.
    let mut pool = AsyncPool::new_with(vec![String::from("A"), String::from("B")]);
    let first = pool.rsvp().unwrap();
    assert_eq!(first.resource(), "A");
    let second = pool.rsvp().unwrap();
    assert_eq!(second.resource(), "B");
}

#[test]
fn reservation_waits_until_added() {
    // Seeded empty: a reservation finds nothing (an async front end
    // suspends here); after add(X) the retried reservation yields X.
    let mut pool: AsyncPool<u64> = AsyncPool::new();
    assert!(pool.rsvp().is_none());
    pool.add(42);
    let guard = pool.rsvp().unwrap();
    assert_eq!(*guard.resource(), 42);
}

#[test]
fn capacity_bounds_concurrent_reservations() {
    // Seeded with N resources: N reservations succeed at once, the
    // (N+1)th finds nothing until some guard releases.
    let mut pool = AsyncPool::new_with(vec![1u64, 2, 3]);
    let g1 = pool.rsvp().unwrap();
    let mut g2 = pool.rsvp().unwrap();
    let g3 = pool.rsvp().unwrap();
    assert!(pool.rsvp().is_none());
    g2.release(&mut pool);
    let g4 = pool.rsvp().unwrap();
    assert_eq!(*g4.resource(), 2);
    assert!(g1.holds_resource() && g3.holds_resource());
}

#[test]
fn round_trip_restores_pool() {
    // Reserve-then-release cycles keep the same resources; after cycling
    // through the whole queue once, the original order stands again.
    let mut pool = AsyncPool::new_with(vec![5u64, 6]);

    let mut guard = pool.rsvp().unwrap();
    guard.release(&mut pool);
    // One cycle: same two resources, front rotated to the rear.
    let mut guard = pool.rsvp().unwrap();
    assert_eq!(*guard.resource(), 6);
    guard.release(&mut pool);
    // Two cycles = the queue's length: original order restored.
    let mut guard = pool.rsvp().unwrap();
    assert_eq!(*guard.resource(), 5);
    guard.release(&mut pool);
    let guard = pool.rsvp().unwrap();
    assert_eq!(*guard.resource(), 6);
    assert_eq!(pool.available_len(), 1);
}

#[test]
fn guard_gives_mutable_access() {
    let mut pool = AsyncPool::new_with(vec![String::from("abc")]);
    let mut guard = pool.rsvp().unwrap();
    guard.resource_mut().push('d');
    assert_eq!(guard.resource(), "abcd");
    guard.release(&mut pool);
    let guard = pool.rsvp().unwrap();
    assert_eq!(guard.resource(), "abcd");
}
