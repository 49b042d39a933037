use pixpull::headers::{
    content_length, content_range_total, parse_retry_after, parse_retry_after_at, wait_for,
};
use reqwest::header::{HeaderMap, HeaderValue, CONTENT_LENGTH, CONTENT_RANGE, RETRY_AFTER};

fn with(name: reqwest::header::HeaderName, value: &[u8]) -> HeaderMap {
    let mut headers = HeaderMap::new();
    headers.insert(name, HeaderValue::from_bytes(value).unwrap());
    headers
}

const SEC: u128 = 1_000_000_000;

#[test]
fn lengths_are_read() {
    assert_eq!(content_length(&with(CONTENT_LENGTH, b"123")), Some(123));
    assert_eq!(content_length(&with(CONTENT_LENGTH, b"-1")), None);
    assert_eq!(content_length(&with(CONTENT_LENGTH, b"1\xff")), None);
    assert_eq!(content_length(&HeaderMap::new()), None);
}

#[test]
fn total_size_stands_behind_the_slash() {
    assert_eq!(content_range_total(&with(CONTENT_RANGE, b"bytes 0-0/1048576")), 1048576);
    assert_eq!(content_range_total(&with(CONTENT_RANGE, b"bytes 0-0/*")), 0);
    assert_eq!(content_range_total(&with(CONTENT_RANGE, b"77")), 77);
    assert_eq!(content_range_total(&HeaderMap::new()), 0);
}

#[test]
fn retry_after_in_seconds() {
    assert_eq!(parse_retry_after(&with(RETRY_AFTER, b" 120 ")), Some(120));
    assert_eq!(parse_retry_after(&with(RETRY_AFTER, b"soon")), None);
    assert_eq!(parse_retry_after(&HeaderMap::new()), None);
    let mut twice = with(RETRY_AFTER, b"1");
    twice.append(RETRY_AFTER, HeaderValue::from_static("2"));
    assert_eq!(parse_retry_after(&twice), Some(1));
}

#[test]
fn retry_after_as_a_date() {
    let headers = with(RETRY_AFTER, b"Wed, 21 Oct 2015 07:28:00 GMT");
    let when: u128 = 1_445_412_480;
    assert_eq!(parse_retry_after_at(&headers, Ok((when - 30) * SEC)), Some(30));
    assert_eq!(parse_retry_after_at(&headers, Ok((when - 30) * SEC + 1)), Some(29));
    assert_eq!(parse_retry_after_at(&headers, Ok(when * SEC)), Some(0));
    assert_eq!(parse_retry_after_at(&headers, Ok(when * SEC + 1)), None);
    assert_eq!(parse_retry_after_at(&headers, Err(2 * SEC)), Some(when as u64 + 2));
    assert_eq!(parse_retry_after(&headers), None);
    let far = with(RETRY_AFTER, b"Fri, 31 Dec 9999 23:59:59 GMT");
    assert!(parse_retry_after(&far).unwrap() > 100_000_000);
}

#[test]
fn number_goes_before_date() {
    assert_eq!(wait_for(Some(5), Some(100), Ok(0)), Some(5));
    assert_eq!(wait_for(None, Some(100), Ok(40 * SEC)), Some(60));
    assert_eq!(wait_for(None, None, Ok(0)), None);
    assert_eq!(wait_for(None, Some(u64::MAX), Err(u128::MAX)), Some(u64::MAX));
}
