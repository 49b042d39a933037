use pixpull::clock::{chrono_like_timestamp, civil_from_days, format_timestamp};
use std::time::{SystemTime, UNIX_EPOCH};

#[test]
fn dates_of_days() {
    assert_eq!(civil_from_days(0), (1970, 1, 1));
    assert_eq!(civil_from_days(-1), (1969, 12, 31));
    assert_eq!(civil_from_days(11_016), (2000, 2, 29));
    assert_eq!(civil_from_days(11_017), (2000, 3, 1));
    assert_eq!(civil_from_days(-719_468), (0, 3, 1));
    assert_eq!(civil_from_days(-25_509), (1900, 2, 28));
    assert_eq!(civil_from_days(-25_508), (1900, 3, 1));
}

#[test]
fn days_follow_on_one_another() {
    let mut last = civil_from_days(-800_000);
    for z in -799_999..800_000 {
        let next = civil_from_days(z);
        assert!(next > last, "{:?} {:?}", last, next);
        assert!(next.2 == last.2 + 1 || next.2 == 1);
        last = next;
    }
}

#[test]
fn timestamps_are_written_out() {
    assert_eq!(format_timestamp(0), "1970-01-01T00:00:00");
    assert_eq!(format_timestamp(1_000_000_000), "2001-09-09T01:46:40");
    assert_eq!(format_timestamp(1_787_180_400), "2026-08-19T23:00:00");
    assert_eq!(format_timestamp(253_402_300_799), "9999-12-31T23:59:59");
}

#[test]
fn timestamp_is_of_now() {
    let secs = || SystemTime::now().duration_since(UNIX_EPOCH).unwrap().as_secs();
    let before = secs();
    let now = chrono_like_timestamp();
    let after = secs();
    assert!((before..=after).any(|s| format_timestamp(s) == now), "{}", now);
}
