use simple_bot::rate::RateLimiter;

#[test]
fn limit_allows_n_per_window_then_drops() {
    let mut r = RateLimiter::new(1000, 2);
    assert!(r.allow(0));
    r.record(0);
    assert!(r.allow(300));
    r.record(300);
    assert!(!r.allow(900));
    assert!(!r.allow(1000));
    assert!(r.allow(1001));
    assert_eq!(r.timestamps, vec![300]);
    assert!(r.allow(1301));
    assert!(r.timestamps.is_empty());
}

#[test]
fn dropped_messages_are_not_counted() {
    let mut r = RateLimiter::new(1000, 1);
    assert!(r.allow(10));
    r.record(10);
    for t in 11..20 {
        assert!(!r.allow(t));
    }
    assert_eq!(r.timestamps, vec![10]);
    assert!(r.allow(1011));
}

#[test]
fn zero_limit_never_allows() {
    let mut r = RateLimiter::new(1000, 0);
    assert!(!r.allow(5));
}

#[test]
fn events_in_the_future_still_count() {
    let mut r = RateLimiter::new(10, 1);
    r.record(50);
    assert!(!r.allow(20));
    assert_eq!(r.timestamps, vec![50]);
}
