use write_after::Duplicable;
use write_after::MessagePool;
use write_after::MessagePoolEmptied;

/// Payloads of different concrete types share one pool behind a single
/// adapter type with a variant per payload type.
#[derive(Debug, PartialEq)]
enum Payload {
    Text(String),
    Number(i64),
}

#[test]
fn test_message_after() {
    // Two payloads enqueued at time zero with delays of 10 and 20 units,
    // then passes of 5, 10 and 10 units.
    let mut pool: MessagePool<&'static str, u64> = MessagePool::new();
    pool.write_after("hello", 10);
    pool.write_after("hello2", 20);

    let first = pool.process(5);
    assert!(first.delivered.is_empty(), "should be empty");

    let second = pool.process(10);
    assert!(!second.delivered.is_empty(), "should not be empty");
    assert_eq!(second.delivered, vec!["hello"]);
    assert!(!pool.is_empty(), "should not be empty");

    let third = pool.process(10);
    assert!(!third.delivered.is_empty(), "should not be empty");
    assert_eq!(third.delivered, vec!["hello2"]);
    assert!(pool.is_empty(), "should be empty");
}

#[test]
fn test_no_early_delivery() {
    let mut pool: MessagePool<u32, u64> = MessagePool::new();
    pool.write_after(1, 10);
    let mut total: u64 = 0;
    for elapsed in [3u64, 3, 2, 1] {
        total += elapsed;
        assert!(total < 10);
        let pass = pool.process(elapsed);
        assert!(pass.delivered.is_empty());
        assert!(!pool.is_empty());
    }
}

#[test]
fn test_eventual_delivery_exactly_once() {
    let mut pool: MessagePool<u32, u64> = MessagePool::new();
    pool.write_after(1, 10);
    assert!(pool.process(4).delivered.is_empty());
    assert!(pool.process(3).delivered.is_empty());
    // Cumulative elapsed time reaches the delay on this pass.
    assert_eq!(pool.process(3).delivered, vec![1]);
    assert!(pool.is_empty());
    // Never delivered again.
    assert!(pool.process(100).delivered.is_empty());
    assert!(pool.process(0).delivered.is_empty());
}

#[test]
fn test_enqueue_order_tie_break() {
    // The later-enqueued payload has the shorter delay, but both come due in
    // the same pass: delivery order is enqueue order, not expiry order.
    let mut pool: MessagePool<&'static str, u64> = MessagePool::new();
    pool.write_after("first-enqueued", 20);
    pool.write_after("second-enqueued", 10);
    let pass = pool.process(20);
    assert_eq!(pass.delivered, vec!["first-enqueued", "second-enqueued"]);
}

#[test]
fn test_drain_fires_once_per_emptying_batch() {
    let mut pool: MessagePool<&'static str, u64> = MessagePool::new();
    pool.write_after("one", 10);
    pool.write_after("two", 20);
    pool.write_when_empty(99);

    let first = pool.process(10);
    assert_eq!(first.delivered, vec!["one"]);
    assert!(!pool.is_empty());
    assert_eq!(first.drained, None);

    let second = pool.process(10);
    assert_eq!(second.delivered, vec!["two"]);
    assert!(pool.is_empty());
    assert_eq!(second.drained, Some(99));
}

#[test]
fn test_drain_fires_at_most_once_per_pass() {
    // A single pass that delivers several payloads and empties the pool
    // hands the drain payload back once, not once per payload.
    let mut pool: MessagePool<u32, u64> = MessagePool::new();
    pool.write_after(1, 5);
    pool.write_after(2, 10);
    pool.write_after(3, 15);
    pool.write_when_empty(7);
    let pass = pool.process(15);
    assert_eq!(pass.delivered, vec![1, 2, 3]);
    assert_eq!(pass.drained, Some(7));
}

#[test]
fn test_process_on_empty_pool() {
    let mut pool: MessagePool<u32, u64> = MessagePool::new();
    pool.write_when_empty(7);
    for elapsed in [0u64, 1, 1000, u64::MAX] {
        let pass = pool.process(elapsed);
        assert!(pass.delivered.is_empty());
        assert_eq!(pass.drained, None);
        assert!(pool.is_empty());
    }
}

#[test]
fn test_drain_not_fired_when_entries_remain() {
    let mut pool: MessagePool<u32, u64> = MessagePool::new();
    pool.write_after(1, 10);
    pool.write_after(2, 20);
    pool.write_when_empty(7);
    let pass = pool.process(10);
    assert_eq!(pass.delivered, vec![1]);
    assert_eq!(pass.drained, None);
}

#[test]
fn test_drain_not_fired_without_registration() {
    let mut pool: MessagePool<u32, u64> = MessagePool::new();
    pool.write_after(1, 10);
    let pass = pool.process(10);
    assert_eq!(pass.delivered, vec![1]);
    assert!(pool.is_empty());
    assert_eq!(pass.drained, None);
}

#[test]
fn test_drain_replaces_previous() {
    // Registering a drain payload again replaces the earlier one outright.
    let mut pool: MessagePool<u32, u64> = MessagePool::new();
    pool.write_when_empty(1);
    pool.write_when_empty(2);
    pool.write_after(5, 10);
    let pass = pool.process(10);
    assert_eq!(pass.drained, Some(2));
}

#[test]
fn test_drain_recurs_after_refill() {
    // One registration serves every drain across the pool's lifetime.
    let mut pool: MessagePool<u32, u64> = MessagePool::new();
    pool.write_when_empty(7);

    pool.write_after(1, 10);
    assert_eq!(pool.process(10).drained, Some(7));

    pool.write_after(2, 5);
    assert_eq!(pool.process(5).drained, Some(7));
}

#[test]
fn test_zero_delay_waits_for_process() {
    // A zero delay never delivers inside the enqueue call; the payload waits
    // for the next processing pass, even one with zero elapsed time.
    let mut pool: MessagePool<u32, u64> = MessagePool::new();
    pool.write_after(1, 0);
    assert!(!pool.is_empty());
    let pass = pool.process(0);
    assert_eq!(pass.delivered, vec![1]);
    assert!(pool.is_empty());
}

#[test]
fn test_pool_isolation() {
    // Operations on one pool instance never affect another.
    let mut a: MessagePool<u32, u64> = MessagePool::new();
    let mut b: MessagePool<u32, u64> = MessagePool::new();
    a.write_after(1, 10);
    a.write_when_empty(7);
    assert!(b.is_empty());

    let b_pass = b.process(100);
    assert!(b_pass.delivered.is_empty());
    assert_eq!(b_pass.drained, None);
    assert!(!a.is_empty());

    let a_pass = a.process(10);
    assert_eq!(a_pass.delivered, vec![1]);
    assert_eq!(a_pass.drained, Some(7));
    assert!(b.is_empty());
}

#[test]
fn test_heterogeneous_payloads_in_one_pool() {
    let mut pool: MessagePool<Payload, u64> = MessagePool::new();
    pool.write_after(Payload::Text(String::from("late")), 20);
    pool.write_after(Payload::Number(42), 10);
    let pass = pool.process(20);
    assert_eq!(
        pass.delivered,
        vec![Payload::Text(String::from("late")), Payload::Number(42)]
    );
}

#[test]
fn test_message_pool_emptied_as_drain_payload() {
    let mut pool: MessagePool<u32, MessagePoolEmptied> = MessagePool::new();
    pool.write_when_empty(MessagePoolEmptied(3));
    pool.write_after(1, 10);
    let pass = pool.process(10);
    assert_eq!(pass.drained, Some(MessagePoolEmptied(3)));
}

#[test]
fn test_default_pool_is_empty() {
    let pool: MessagePool<u32, u64> = MessagePool::default();
    assert!(pool.is_empty());
}

#[test]
fn test_duplicable_hands_back_equal_values() {
    assert_eq!(7u64.duplicate(), 7u64);
    assert_eq!((-3i32).duplicate(), -3i32);
    assert_eq!(true.duplicate(), true);
    assert_eq!(MessagePoolEmptied(9).duplicate(), MessagePoolEmptied(9));
}
