use pixpull::failure::{Failure, InternalFailure, SegmentFailure};
use pixpull::fetch::{resume_header, Attempt, Fetch, FetchAction, FetchEvent, JoinError, Probe};
use pixpull::segments::{Reply, SegmentOutcome, MIN_SEGMENT_SIZE};

fn reply(status: u16, length: Option<u64>) -> FetchEvent {
    FetchEvent::Replied(Ok(Reply { status, retry_after: Some(9), length }))
}

/// An attempt in one stream, with a part file of so many bytes, whose request has
/// been sent.
fn requested(existing: Option<u64>, max_size: u64, eager: bool) -> Fetch {
    let (mut f, action) = Fetch::begin(1, false, max_size, eager);
    assert!(matches!(action, FetchAction::Prepare));
    assert!(matches!(f.step(FetchEvent::Prepared(Ok(()))), FetchAction::Measure));
    match f.step(FetchEvent::Measured(existing)) {
        FetchAction::Request { from } => assert_eq!(from, existing.unwrap_or(0)),
        other => panic!("{:?}", other),
    }
    f
}

fn finished(action: FetchAction) -> Attempt {
    match action {
        FetchAction::Finish { attempt, discard } => {
            assert!(!discard);
            attempt
        }
        other => panic!("{:?}", other),
    }
}

fn given_up(action: FetchAction) -> String {
    match finished(action) {
        Attempt::GiveUp { failure, not_found } => {
            assert!(!not_found);
            failure.text()
        }
        other => panic!("{:?}", other),
    }
}

/// Hands over chunks, and the end of the body.
fn receive(f: &mut Fetch, chunks: &[u64]) -> FetchAction {
    assert!(matches!(f.step(FetchEvent::Opened(Ok(()))), FetchAction::Read));
    for n in chunks {
        assert!(matches!(f.step(FetchEvent::Chunk(*n)), FetchAction::Write));
        assert!(matches!(f.step(FetchEvent::Written(Ok(()))), FetchAction::Read));
    }
    assert!(matches!(f.step(FetchEvent::End), FetchAction::Flush));
    f.step(FetchEvent::Flushed(Ok(())))
}

#[test]
fn fresh_download() {
    let mut f = requested(None, 0, false);
    assert!(matches!(f.step(reply(200, None)), FetchAction::Open { fresh: true }));
    assert!(matches!(finished(receive(&mut f, &[10, 20, 5])), Attempt::Done(35)));
}

#[test]
fn interrupted_download_is_resumed() {
    let mut f = requested(Some(100), 0, false);
    assert!(matches!(f.step(reply(206, Some(50))), FetchAction::Open { fresh: false }));
    assert!(matches!(finished(receive(&mut f, &[50])), Attempt::Done(150)));
}

#[test]
fn server_without_ranges_restarts() {
    let mut f = requested(Some(100), 0, false);
    assert!(matches!(f.step(reply(200, Some(150))), FetchAction::Open { fresh: true }));
    assert!(matches!(finished(receive(&mut f, &[150])), Attempt::Done(150)));
}

#[test]
fn resume_can_be_switched_off() {
    let (mut f, _) = Fetch::begin(1, true, 0, false);
    assert!(matches!(
        f.step(FetchEvent::Prepared(Ok(()))),
        FetchAction::Request { from: 0 }
    ));
    assert!(matches!(f.step(reply(200, None)), FetchAction::Open { fresh: true }));
}

#[test]
fn refused_range_means_the_part_is_complete() {
    let ask = |size: Option<u64>, max: u64| {
        let mut f = requested(Some(100), max, false);
        assert!(matches!(f.step(reply(416, None)), FetchAction::Measure));
        f.step(FetchEvent::Measured(size))
    };
    assert!(matches!(finished(ask(Some(100), 0)), Attempt::Done(100)));
    assert_eq!(given_up(ask(None, 0)), "server rejected range but no partial file exists");
    assert_eq!(given_up(ask(Some(0), 0)), "server rejected range on empty file");
    assert_eq!(given_up(ask(Some(100), 99)), "download exceeds --max-size 99");
}

#[test]
fn responses_are_classified() {
    for status in [408, 429, 500, 502, 503, 599] {
        match finished(requested(None, 0, false).step(reply(status, None))) {
            Attempt::Retry { failure, keep_part, retry_after, not_found } => {
                assert!(matches!(failure, Failure::Http(s) if s == status));
                assert!(keep_part && !not_found);
                assert_eq!(retry_after, Some(9));
            }
            other => panic!("{:?}", other),
        }
    }
    for status in [400, 401, 403, 404, 410] {
        match finished(requested(None, 0, false).step(reply(status, None))) {
            Attempt::GiveUp { failure, not_found } => {
                assert!(matches!(failure, Failure::Http(s) if s == status));
                assert_eq!(not_found, status == 404);
            }
            other => panic!("{:?}", other),
        }
    }
    for status in [403, 404] {
        match finished(requested(None, 0, true).step(reply(status, None))) {
            Attempt::Retry { not_found, .. } => assert_eq!(not_found, status == 404),
            other => panic!("{:?}", other),
        }
    }
    assert_eq!(
        given_up(requested(None, 0, false).step(reply(302, None))),
        "too many redirects (302 Found)"
    );
    assert_eq!(
        given_up(requested(None, 0, false).step(reply(304, None))),
        "too many redirects (304 Not Modified)"
    );
    assert_eq!(
        given_up(requested(None, 0, false).step(reply(206, None))),
        "unexpected HTTP 206 Partial Content"
    );
    assert_eq!(
        given_up(requested(None, 0, false).step(reply(204, None))),
        "unexpected HTTP 204 No Content"
    );
}

#[test]
fn size_limit_is_kept() {
    assert_eq!(
        given_up(requested(None, 100, false).step(reply(200, Some(101)))),
        "size 101 exceeds --max-size 100"
    );
    let mut f = requested(None, 100, false);
    f.step(reply(200, Some(100)));
    assert!(matches!(finished(receive(&mut f, &[60, 40])), Attempt::Done(100)));
    let mut f = requested(Some(50), 100, false);
    f.step(reply(206, None));
    f.step(FetchEvent::Opened(Ok(())));
    assert_eq!(given_up(f.step(FetchEvent::Chunk(51))), "download exceeds --max-size 100");
    let mut f = requested(Some(150), 100, false);
    f.step(reply(206, None));
    assert_eq!(given_up(receive(&mut f, &[])), "download exceeds --max-size 100");
}

#[test]
fn empty_body_is_no_file() {
    let mut f = requested(None, 0, false);
    f.step(reply(200, None));
    assert_eq!(given_up(receive(&mut f, &[])), "server returned an empty body");
}

#[test]
fn broken_streams_are_retried() {
    let retry = |action: FetchAction| match finished(action) {
        Attempt::Retry { failure, keep_part, retry_after, not_found } => {
            assert!(!not_found);
            assert_eq!(retry_after, None);
            (failure.text(), keep_part)
        }
        other => panic!("{:?}", other),
    };
    let mut f = requested(None, 0, false);
    assert_eq!(
        retry(f.step(FetchEvent::Replied(Err("timeout".to_string())))),
        ("request failed: timeout".to_string(), true)
    );
    let mut f = requested(None, 0, false);
    f.step(reply(200, None));
    f.step(FetchEvent::Opened(Ok(())));
    assert_eq!(
        retry(f.step(FetchEvent::Interrupted("reset".to_string()))),
        ("connection interrupted: reset".to_string(), true)
    );
    let mut f = requested(None, 0, false);
    f.step(reply(200, None));
    f.step(FetchEvent::Opened(Ok(())));
    f.step(FetchEvent::Chunk(5));
    assert_eq!(
        retry(f.step(FetchEvent::Written(Err("full".to_string())))),
        ("disk write failed: full".to_string(), false)
    );
}

#[test]
fn trouble_on_this_side_breaks_the_attempt() {
    let broken = |action: FetchAction| match finished(action) {
        Attempt::Broken(failure) => failure.text(),
        other => panic!("{:?}", other),
    };
    let (mut f, _) = Fetch::begin(1, false, 0, false);
    assert_eq!(broken(f.step(FetchEvent::Prepared(Err("bad header".to_string())))), "bad header");
    let mut f = requested(None, 0, false);
    f.step(reply(200, None));
    assert_eq!(
        broken(f.step(FetchEvent::Opened(Err("\"p\": no".to_string())))),
        "cannot open \"p\": no"
    );
    let mut f = requested(None, 0, false);
    f.step(reply(200, None));
    f.step(FetchEvent::Opened(Ok(())));
    f.step(FetchEvent::End);
    assert_eq!(
        broken(f.step(FetchEvent::Flushed(Err("full".to_string())))),
        "flush failed: full"
    );
    let mut f = requested(None, 0, false);
    assert_eq!(broken(f.step(FetchEvent::End)), "event out of order");
    assert_eq!(broken(f.step(reply(200, None))), "event out of order");
}

/// An attempt whose segments are being downloaded.
fn segmenting(total: u64) -> Fetch {
    let (mut f, _) = Fetch::begin(4, false, 0, false);
    assert!(matches!(f.step(FetchEvent::Prepared(Ok(()))), FetchAction::Probe));
    match f.step(FetchEvent::Probed(Some(Probe { status: 206, total }))) {
        FetchAction::Segments { total: t } => assert_eq!(t, total),
        other => panic!("{:?}", other),
    }
    f
}

#[test]
fn large_file_comes_in_segments() {
    let mut f = segmenting(5_000_000);
    let outcomes = vec![SegmentOutcome::Complete, SegmentOutcome::Complete, SegmentOutcome::Complete];
    assert!(matches!(f.step(FetchEvent::Segmented(outcomes)), FetchAction::Create));
    assert!(matches!(f.step(FetchEvent::Created(Ok(()))), FetchAction::Append(0)));
    assert!(matches!(f.step(FetchEvent::Appended(Ok(()))), FetchAction::Append(1)));
    assert!(matches!(f.step(FetchEvent::Appended(Ok(()))), FetchAction::Append(2)));
    assert!(matches!(f.step(FetchEvent::Appended(Ok(()))), FetchAction::Flush));
    assert!(matches!(
        finished(f.step(FetchEvent::Flushed(Ok(())))),
        Attempt::Done(5_000_000)
    ));
}

#[test]
fn small_or_unranged_files_stay_whole() {
    let probes = [
        None,
        Some(Probe { status: 200, total: 0 }),
        Some(Probe { status: 206, total: 0 }),
        Some(Probe { status: 206, total: MIN_SEGMENT_SIZE - 1 }),
    ];
    for probe in probes {
        let (mut f, _) = Fetch::begin(4, false, 0, false);
        f.step(FetchEvent::Prepared(Ok(())));
        assert!(matches!(f.step(FetchEvent::Probed(probe)), FetchAction::Measure));
    }
    let _ = segmenting(MIN_SEGMENT_SIZE);
}

#[test]
fn segmented_file_keeps_the_size_limit() {
    let (mut f, _) = Fetch::begin(4, false, 2_000_000, false);
    f.step(FetchEvent::Prepared(Ok(())));
    assert_eq!(
        given_up(f.step(FetchEvent::Probed(Some(Probe { status: 206, total: 2_000_001 })))),
        "size 2000001 exceeds --max-size 2000000"
    );
}

#[test]
fn ignored_range_falls_back_to_one_stream() {
    let mut f = segmenting(5_000_000);
    let outcomes = vec![
        SegmentOutcome::Complete,
        SegmentOutcome::Ignored,
        SegmentOutcome::Failed { failure: SegmentFailure::Http(500), not_found: false },
    ];
    assert!(matches!(f.step(FetchEvent::Segmented(outcomes)), FetchAction::FallBack));
    assert!(matches!(f.step(FetchEvent::FellBack), FetchAction::Measure));
}

#[test]
fn failed_segment_fails_the_file() {
    let mut f = segmenting(5_000_000);
    let outcomes = vec![
        SegmentOutcome::Complete,
        SegmentOutcome::Failed { failure: SegmentFailure::Http(404), not_found: true },
        SegmentOutcome::Ignored,
    ];
    match f.step(FetchEvent::Segmented(outcomes)) {
        FetchAction::Finish { attempt: Attempt::GiveUp { failure, not_found }, discard } => {
            assert!(discard && not_found);
            assert_eq!(failure.text(), "segment 1 failed: segment HTTP 404 Not Found");
        }
        other => panic!("{:?}", other),
    }
}

#[test]
fn joining_can_fail() {
    let joining = || {
        let mut f = segmenting(5_000_000);
        f.step(FetchEvent::Segmented(vec![SegmentOutcome::Complete]));
        f
    };
    let mut f = joining();
    assert!(matches!(
        finished(f.step(FetchEvent::Created(Err("e".to_string())))),
        Attempt::Broken(InternalFailure::Create(_))
    ));
    let mut f = joining();
    f.step(FetchEvent::Created(Ok(())));
    assert!(matches!(
        finished(f.step(FetchEvent::Appended(Err(JoinError::Open("e".to_string()))))),
        Attempt::Broken(InternalFailure::OpenSegment(_))
    ));
    let mut f = joining();
    f.step(FetchEvent::Created(Ok(())));
    assert!(matches!(
        finished(f.step(FetchEvent::Appended(Err(JoinError::Copy("e".to_string()))))),
        Attempt::Broken(InternalFailure::Copy(_))
    ));
}

#[test]
fn resume_headers() {
    assert_eq!(resume_header(0), None);
    assert_eq!(resume_header(1500).as_deref(), Some("bytes=1500-"));
}
