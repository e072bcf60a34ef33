use write_after::Countdown;
use write_after::TimedEntry;

#[test]
fn test_countdown_counts_down() {
    let mut c = Countdown::new(10);
    assert_eq!(c.remaining, 10);
    assert!(!c.finished);
    assert!(!c.tick(4));
    assert_eq!(c.remaining, 6);
    assert!(!c.is_finished());
}

#[test]
fn test_countdown_clamps_at_zero_and_finishes() {
    let mut c = Countdown::new(10);
    assert!(c.tick(25));
    assert_eq!(c.remaining, 0);
    assert!(c.is_finished());
}

#[test]
fn test_countdown_finishes_exactly_on_time() {
    let mut c = Countdown::new(10);
    assert!(!c.tick(9));
    assert!(c.tick(1));
}

#[test]
fn test_countdown_is_single_shot() {
    let mut c = Countdown::new(5);
    assert!(c.tick(5));
    // Advancing a finished countdown is a no-op that still reports it
    // finished.
    assert!(c.tick(100));
    assert_eq!(c.remaining, 0);
    assert!(c.is_finished());
}

#[test]
fn test_zero_delay_countdown_needs_one_tick() {
    let mut c = Countdown::new(0);
    assert!(!c.is_finished());
    assert!(c.tick(0));
    assert!(c.is_finished());
}

#[test]
fn test_timed_entry_lifecycle() {
    let mut entry = TimedEntry::create("payload", 10);
    assert!(!entry.tick(6));
    assert!(entry.tick(6));
    assert_eq!(entry.fire(), "payload");
}
