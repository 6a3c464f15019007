use nezuko::time::sleep::sleep;
use nezuko::time::timers::Timers;

#[test]
fn sleep_waits_at_least_its_duration() {
    let mut timers: Timers<&str> = Timers::new();
    let s = sleep(1_000, 50_000_000);
    assert_eq!(s.wake_time(), 50_001_000);
    assert!(!s.poll(1_000, &mut timers, "a"));
    assert!(!s.poll(50_000_999, &mut timers, "b"));
    assert!(s.poll(50_001_000, &mut timers, "c"));
    assert!(s.poll(90_000_000, &mut timers, "d"));
    // the two early polls left their wakers at the deadline
    assert_eq!(timers.pop_due(50_000_999), None);
    assert_eq!(timers.pop_due(50_001_000), Some(vec!["a", "b"]));
    assert_eq!(timers.pop_due(u64::MAX), None);
}

#[test]
fn due_timers_come_out_soonest_first() {
    let mut t: Timers<u32> = Timers::new();
    t.register(300, 3);
    t.register(100, 1);
    t.register(200, 2);
    t.register(100, 11);
    assert_eq!(t.pop_due(50), None);
    assert_eq!(t.pop_due(250), Some(vec![1, 11]));
    assert_eq!(t.pop_due(250), Some(vec![2]));
    assert_eq!(t.pop_due(250), None);
    assert_eq!(t.pop_due(300), Some(vec![3]));
    assert_eq!(t.pop_due(300), None);
}

#[test]
fn timeout_without_timers_is_unlimited() {
    let t: Timers<u32> = Timers::new();
    assert_eq!(t.timeout_ms(0), -1);
}

#[test]
fn timeout_rounds_up_to_whole_milliseconds() {
    let mut t: Timers<u32> = Timers::new();
    t.register(10_000_000, 1);
    assert_eq!(t.timeout_ms(0), 10);
    // 9.5 ms left -> 10 ms
    assert_eq!(t.timeout_ms(500_000), 10);
    // 1 microsecond left -> 1 ms, never 0
    assert_eq!(t.timeout_ms(9_999_000), 1);
    // under a microsecond left is dropped
    assert_eq!(t.timeout_ms(9_999_500), 0);
    // already due
    assert_eq!(t.timeout_ms(20_000_000), 0);
}

#[test]
fn timeout_is_capped() {
    let mut t: Timers<u32> = Timers::new();
    t.register(u64::MAX, 1);
    assert_eq!(t.timeout_ms(0), i32::MAX);
}
