use pixpull::throttle::{rate_of, Pace, Throttle};

/// Charges a bucket, and lets the time pass that it asks for.
fn acquire(t: &mut Throttle, now: &mut u64, bytes: u64) {
    let mut left = bytes;
    while left > 0 {
        match t.acquire(*now, left) {
            Pace::Granted(rest) => left = rest,
            Pace::Wait(nanos) => *now += nanos,
        }
    }
}

#[test]
fn respects_rate_approximately() {
    // 100 bytes/sec -> 1000 bytes should take ~9s (first 100 burst, then 9s).
    let mut now: u64 = 0;
    let mut t = Throttle::new(100, now);
    for _ in 0..10 {
        acquire(&mut t, &mut now, 100);
    }
    assert_eq!(now, 9_000_000_000);
}

#[test]
fn burst_is_allowed() {
    // First second's worth of bytes should not sleep at all.
    let mut now: u64 = 77;
    let mut t = Throttle::new(1_000_000, now);
    acquire(&mut t, &mut now, 1_000_000);
    assert_eq!(now, 77);
    assert!(matches!(t.acquire(now, 1), Pace::Wait(1_000)));
}

#[test]
fn large_single_charge_does_not_deadlock() {
    // A charge larger than one second's budget must still complete at
    // roughly the configured rate.
    let mut now: u64 = 0;
    let mut t = Throttle::new(2000, now); // 2 KiB/s
    acquire(&mut t, &mut now, 6000); // > burst; sliced internally
    assert_eq!(now, 2_000_000_000);
}

#[test]
fn waits_are_short_and_the_bucket_never_overflows() {
    let mut t = Throttle::new(3, 0);
    assert!(matches!(t.acquire(0, 3), Pace::Granted(0)));
    assert!(matches!(t.acquire(0, 3), Pace::Wait(250_000_000)));
    // A long pause fills the bucket once, not more.
    assert!(matches!(t.acquire(u64::MAX, 7), Pace::Granted(4)));
    assert!(matches!(t.acquire(u64::MAX, 1), Pace::Wait(_)));
    // A clock that runs backwards adds nothing.
    assert!(matches!(t.acquire(0, 1), Pace::Wait(_)));
    assert!(matches!(t.acquire(0, 0), Pace::Granted(0)));
}

#[test]
fn rates_are_in_kib() {
    assert_eq!(rate_of(0), None);
    assert_eq!(rate_of(2), Some(2048));
    assert_eq!(rate_of(u64::MAX), Some(u64::MAX as u128 * 1024));
}
