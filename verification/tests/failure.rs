use pixpull::failure::{Failure, InternalFailure, SegmentFailure};

fn text(s: &str) -> String {
    s.to_string()
}

#[test]
fn failures_are_told_in_words() {
    let all = [
        (Failure::Stopped, "run stopped (--max-file-not-found)"),
        (Failure::Address(text("URL has no host")), "URL has no host"),
        (Failure::OutputDir(text("e")), "cannot create output dir: e"),
        (Failure::Request(text("e")), "request failed: e"),
        (Failure::Redirects(302), "too many redirects (302 Found)"),
        (Failure::Http(404), "HTTP 404 Not Found"),
        (Failure::Http(503), "HTTP 503 Service Unavailable"),
        (Failure::Http(599), "HTTP 599 <unknown status code>"),
        (Failure::Http(7), "HTTP 7"),
        (Failure::Unexpected(206), "unexpected HTTP 206 Partial Content"),
        (Failure::NoPart, "server rejected range but no partial file exists"),
        (Failure::EmptyPart, "server rejected range on empty file"),
        (Failure::Declared { len: 12, max: 5 }, "size 12 exceeds --max-size 5"),
        (Failure::TooLong { max: 5 }, "download exceeds --max-size 5"),
        (Failure::Interrupted(text("e")), "connection interrupted: e"),
        (Failure::Write(text("e")), "disk write failed: e"),
        (Failure::EmptyBody, "server returned an empty body"),
        (Failure::Validation(text("e")), "validation failed: e"),
        (Failure::Rename(text("e")), "rename to final name failed: e"),
    ];
    for (failure, message) in all {
        assert_eq!(failure.text(), message);
    }
}

#[test]
fn segment_failures_are_told_in_words() {
    let all = [
        (SegmentFailure::Request(text("e")), "segment 3 failed: segment request failed: e"),
        (SegmentFailure::Http(500), "segment 3 failed: segment HTTP 500 Internal Server Error"),
        (SegmentFailure::Open(text("\"p\": e")), "segment 3 failed: cannot open segment \"p\": e"),
        (SegmentFailure::Write(text("e")), "segment 3 failed: segment write failed: e"),
        (SegmentFailure::Flush(text("e")), "segment 3 failed: flush failed: e"),
        (
            SegmentFailure::Incomplete { start: 10, end: 19, got: 4, expected: 10 },
            "segment 3 failed: segment 10-19 incomplete (4/10 bytes)",
        ),
        (SegmentFailure::OutOfOrder, "segment 3 failed: event out of order"),
    ];
    for (failure, message) in all {
        assert_eq!(Failure::Segment { index: 3, failure }.text(), message);
    }
}

#[test]
fn internal_failures_are_told_in_words() {
    let all = [
        (InternalFailure::Prepare(text("invalid user agent")), "internal error: invalid user agent"),
        (InternalFailure::Open(text("\"p\": e")), "internal error: cannot open \"p\": e"),
        (InternalFailure::Create(text("\"p\": e")), "internal error: cannot create \"p\": e"),
        (
            InternalFailure::OpenSegment(text("\"p\": e")),
            "internal error: cannot open segment \"p\": e",
        ),
        (InternalFailure::Copy(text("e")), "internal error: concat failed: e"),
        (InternalFailure::Flush(text("e")), "internal error: flush failed: e"),
        (InternalFailure::OutOfOrder, "internal error: event out of order"),
    ];
    for (failure, message) in all {
        assert_eq!(Failure::Internal(failure).text(), message);
    }
}
