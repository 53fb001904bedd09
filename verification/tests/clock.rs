use aeron_rs::clock::{millis_of, truncated_nanos, CachedNanoClock, NanoClock};

#[test]
fn nano_clock_monotonic() {
    let clock = NanoClock::new();
    let t1 = clock.nano_time();
    let t2 = clock.nano_time();
    assert!(t2 >= t1, "nano_time must be monotonically non-decreasing");
}

#[test]
fn nano_clock_default_trait() {
    let clock = NanoClock::default();
    let t = clock.nano_time();
    assert!(t >= 0);
}

#[test]
fn cached_clock_returns_same_between_updates() {
    let mut clock = CachedNanoClock::new();
    let t1 = clock.update();
    let c1 = clock.cached();
    let c2 = clock.cached();
    assert_eq!(c1, c2, "cached() must return the same value between update() calls");
    assert_eq!(c1, t1, "cached() must equal the last update() return");
}

#[test]
fn cached_clock_update_advances() {
    let mut clock = CachedNanoClock::new();
    let t1 = clock.update();
    // Spin briefly so time actually advances.
    std::hint::spin_loop();
    let t2 = clock.update();
    assert!(t2 >= t1, "update() must be monotonically non-decreasing");
}

#[test]
fn cached_clock_default_trait() {
    let mut clock = CachedNanoClock::default();
    let t = clock.update();
    assert!(t >= 0);
}

#[test]
fn nanoseconds_are_truncated() {
    assert_eq!(truncated_nanos(5), 5);
    assert_eq!(truncated_nanos(i64::MAX as u128), i64::MAX);
    assert_eq!(truncated_nanos(1u128 << 63), i64::MIN);
    assert_eq!(truncated_nanos(1u128 << 64), 0);
}

#[test]
fn milliseconds_of_a_time_of_day() {
    assert_eq!(millis_of(12, 345_678_901), 12_345);
    assert_eq!(millis_of(0, 999_999), 0);
}

#[test]
fn new_cached_clock_has_a_reading() {
    let mut clock = CachedNanoClock::new();
    let first = clock.cached();
    assert!(first >= 0);
    assert!(clock.update() >= first);
}

#[test]
fn cached_time_never_falls() {
    let mut clock = CachedNanoClock::new();
    let mut last = clock.cached();
    for _ in 0..100 {
        let reading = clock.update();
        assert!(reading >= last);
        assert_eq!(clock.cached(), reading);
        last = reading;
    }
}
