use pixpull::failure::SegmentFailure;
use pixpull::segments::{
    range_header, retryable, segment_ranges, Reply, Segment, SegmentAction, SegmentEvent,
    SegmentOutcome, MIN_SEGMENT_SIZE,
};

fn reply(status: u16, retry_after: Option<u64>) -> SegmentEvent {
    SegmentEvent::Replied(Ok(Reply { status, retry_after, length: None }))
}

#[test]
fn ranges_cover_the_file() {
    assert_eq!(MIN_SEGMENT_SIZE, 1_048_576);
    assert_eq!(segment_ranges(1, 10), vec![(0, 9)]);
    assert_eq!(segment_ranges(0, 10), vec![(0, 9)]);
    assert_eq!(segment_ranges(16, 1_048_576), vec![(0, 524_287), (524_288, 1_048_575)]);
    assert_eq!(
        segment_ranges(3, 10_000_000),
        vec![(0, 3_333_333), (3_333_334, 6_666_667), (6_666_668, 9_999_999)]
    );
    let total: u64 = 123_456_789;
    let ranges = segment_ranges(16, total);
    assert_eq!(ranges.len(), 16);
    let mut next = 0;
    for (start, end) in ranges {
        assert_eq!(start, next);
        assert!(end >= start);
        next = end + 1;
    }
    assert_eq!(next, total);
    // As many segments as there are bytes for.
    let total: u64 = 1 << 40;
    let ranges = segment_ranges(usize::MAX, total);
    assert_eq!(ranges.last().unwrap().1, total - 1);
    assert!(ranges.len() as u64 <= total / MIN_SEGMENT_SIZE + 1);
}

#[test]
fn range_headers() {
    assert_eq!(range_header(0, 0), "bytes=0-0");
    assert_eq!(range_header(524_288, 1_048_575), "bytes=524288-1048575");
}

#[test]
fn statuses_worth_a_retry() {
    for status in 100..=999 {
        let plain = status == 408 || status == 429 || (500..600).contains(&status);
        assert_eq!(retryable(status, false), plain, "{}", status);
        let eager = plain || status == 403 || status == 404;
        assert_eq!(retryable(status, true), eager, "{}", status);
    }
}

#[test]
fn segment_is_downloaded() {
    let (mut s, action) = Segment::begin(100, 199, 2, false, true);
    assert!(matches!(action, SegmentAction::Measure));
    assert!(matches!(s.step(SegmentEvent::Measured(Some(99))), SegmentAction::Request));
    assert!(matches!(s.step(reply(206, None)), SegmentAction::Open));
    assert!(matches!(s.step(SegmentEvent::Opened(Ok(()))), SegmentAction::Read));
    for n in [60, 0, 40] {
        assert!(matches!(s.step(SegmentEvent::Chunk(n)), SegmentAction::Write));
        assert!(matches!(s.step(SegmentEvent::Written(Ok(()))), SegmentAction::Read));
    }
    assert!(matches!(s.step(SegmentEvent::End), SegmentAction::Flush));
    assert!(matches!(
        s.step(SegmentEvent::Flushed(Ok(()))),
        SegmentAction::Finish(SegmentOutcome::Complete)
    ));
}

#[test]
fn completed_segment_is_kept() {
    let (mut s, _) = Segment::begin(100, 199, 2, false, true);
    assert!(matches!(
        s.step(SegmentEvent::Measured(Some(100))),
        SegmentAction::Finish(SegmentOutcome::Complete)
    ));
    let (_, action) = Segment::begin(100, 199, 2, false, false);
    assert!(matches!(action, SegmentAction::Request));
}

#[test]
fn segment_gives_up_after_its_retries() {
    let (mut s, _) = Segment::begin(0, 9, 2, false, false);
    assert!(matches!(
        s.step(reply(503, Some(7))),
        SegmentAction::Retry { remove: false, attempt: 1, retry_after: Some(7) }
    ));
    assert!(matches!(
        s.step(SegmentEvent::Replied(Err("reset".to_string()))),
        SegmentAction::Retry { remove: false, attempt: 2, retry_after: None }
    ));
    match s.step(reply(408, None)) {
        SegmentAction::Finish(SegmentOutcome::Failed { failure, not_found }) => {
            assert!(matches!(failure, SegmentFailure::Http(408)));
            assert!(!not_found);
        }
        other => panic!("{:?}", other),
    }
}

#[test]
fn short_segment_is_downloaded_anew() {
    for interrupted in [false, true] {
        let (mut s, _) = Segment::begin(0, 9, 1, false, false);
        for attempt in 0..2 {
            s.step(reply(206, None));
            s.step(SegmentEvent::Opened(Ok(())));
            s.step(SegmentEvent::Chunk(4));
            s.step(SegmentEvent::Written(Ok(())));
            s.step(if interrupted { SegmentEvent::Interrupted } else { SegmentEvent::End });
            match s.step(SegmentEvent::Flushed(Ok(()))) {
                SegmentAction::Retry { remove: true, attempt: 1, retry_after: None } => {
                    assert_eq!(attempt, 0)
                }
                SegmentAction::Finish(SegmentOutcome::Failed { failure, .. }) => {
                    assert_eq!(attempt, 1);
                    assert_eq!(failure.text(), "segment 0-9 incomplete (4/10 bytes)");
                }
                other => panic!("{:?}", other),
            }
        }
    }
}

#[test]
fn ignored_range_is_reported() {
    let (mut s, _) = Segment::begin(0, 9, 1, false, false);
    assert!(matches!(
        s.step(reply(200, None)),
        SegmentAction::Finish(SegmentOutcome::Ignored)
    ));
}

#[test]
fn missing_segment_is_marked() {
    let (mut s, _) = Segment::begin(0, 9, 5, false, false);
    assert!(matches!(
        s.step(reply(404, None)),
        SegmentAction::Finish(SegmentOutcome::Failed {
            failure: SegmentFailure::Http(404),
            not_found: true
        })
    ));
    let (mut s, _) = Segment::begin(0, 9, 5, true, false);
    assert!(matches!(s.step(reply(404, None)), SegmentAction::Retry { .. }));
}

#[test]
fn segment_file_errors_end_the_segment() {
    let open = || {
        let (mut s, _) = Segment::begin(0, 9, 5, false, false);
        s.step(reply(206, None));
        s
    };
    let failed = |action: SegmentAction| match action {
        SegmentAction::Finish(SegmentOutcome::Failed { failure, not_found }) => {
            assert!(!not_found);
            failure.text()
        }
        other => panic!("{:?}", other),
    };
    let mut s = open();
    let e = failed(s.step(SegmentEvent::Opened(Err("\"p\": no".to_string()))));
    assert_eq!(e, "cannot open segment \"p\": no");
    let mut s = open();
    s.step(SegmentEvent::Opened(Ok(())));
    s.step(SegmentEvent::Chunk(1));
    let e = failed(s.step(SegmentEvent::Written(Err("full".to_string()))));
    assert_eq!(e, "segment write failed: full");
    let mut s = open();
    s.step(SegmentEvent::Opened(Ok(())));
    s.step(SegmentEvent::End);
    let e = failed(s.step(SegmentEvent::Flushed(Err("full".to_string()))));
    assert_eq!(e, "flush failed: full");
    let mut s = open();
    let e = failed(s.step(SegmentEvent::Chunk(1)));
    assert_eq!(e, "event out of order");
}
