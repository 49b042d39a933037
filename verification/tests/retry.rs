use pixpull::retry::{backoff, backoff_with};

#[test]
fn backoff_grows_and_jitters() {
    // attempt N => base 2^N seconds + up to 500ms jitter.
    let b1 = backoff(1, None).as_millis();
    let b2 = backoff(2, None).as_millis();
    assert!((2000..=2500).contains(&b1));
    assert!((4000..=4500).contains(&b2));
    let capped = backoff(9, None).as_millis();
    assert!(capped <= 64000 + 500);
    // Retry-After wins when it is longer than the computed backoff.
    assert_eq!(backoff(1, Some(30)).as_secs(), 30);
}

#[test]
fn backoff_is_exact() {
    assert_eq!(backoff_with(0, None, 499).as_millis(), 1499);
    assert_eq!(backoff_with(3, None, 1234).as_millis(), 8234);
    assert_eq!(backoff_with(6, Some(0), 500).as_millis(), 64000);
    assert_eq!(backoff_with(u32::MAX, None, 1).as_millis(), 64001);
    assert_eq!(backoff_with(2, Some(4), 17).as_millis(), 4017);
    assert_eq!(backoff_with(2, Some(5), 17).as_millis(), 5000);
    assert_eq!(backoff_with(2, Some(u64::MAX), 17).as_secs(), u64::MAX);
}

#[test]
fn jitter_varies() {
    let first = backoff(1, None).as_millis();
    assert!((0..200).any(|_| backoff(1, None).as_millis() != first));
}
