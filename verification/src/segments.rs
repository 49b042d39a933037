//! Segmented downloads: how a file is cut into byte ranges, and how one range is
//! downloaded, with its own retries.

use vstd::prelude::*;

use crate::failure::SegmentFailure;
use crate::numbers::{decimal, push_decimal};

verus! {

/// Files at least this large benefit from segmented download.
pub const MIN_SEGMENT_SIZE: u64 = 1_048_576;  // 1 MiB

// ---------------------------------------------------------------------------
// Ranges
// ---------------------------------------------------------------------------

/// Into how many segments a file is to be cut: as many as are asked for, but no
/// more than one for each MiB that is begun.
pub open spec fn segment_count(split: usize, total: u64) -> int {
    let most = total as int / MIN_SEGMENT_SIZE as int + 1;
    if split == 0 {
        1
    } else if split < most {
        split as int
    } else {
        most
    }
}

/// How long a segment is: all are as long, but the last may be shorter.
pub open spec fn segment_size(split: usize, total: u64) -> int {
    (total + segment_count(split, total) - 1) / segment_count(split, total)
}

/// The ranges of a size that follow on one another from `start` up to the end of a
/// file, each given by its first and its last byte.
pub open spec fn cut(start: int, total: int, size: int) -> Seq<(int, int)>
    decreases total - start,
{
    if size <= 0 || start >= total {
        Seq::empty()
    } else if total - start <= size {
        seq![(start, total - 1)]
    } else {
        seq![(start, start + size - 1)] + cut(start + size, total, size)
    }
}

/// Ranges as numbers.
pub open spec fn range_views(v: Seq<(u64, u64)>) -> Seq<(int, int)> {
    v.map_values(|r: (u64, u64)| (r.0 as int, r.1 as int))
}

/// The ranges that a file is downloaded in.
pub fn segment_ranges(split: usize, total: u64) -> (r: Vec<(u64, u64)>)
    requires
        total > 0,
    ensures
        range_views(r@) == cut(0, total as int, segment_size(split, total)),
        forall|i: int| 0 <= i < r@.len() ==> (#[trigger] r@[i]).0 <= r@[i].1 < total,
{
    let most: u64 = total / MIN_SEGMENT_SIZE + 1;
    let n: u64 = if split == 0 {
        1
    } else if (split as u64) < most {
        split as u64
    } else {
        most
    };
    assert(n == segment_count(split, total));
    let size: u64 = (total - 1) / n + 1;
    proof {
        lemma_ceil(total as int, n as int);
    }
    let mut out: Vec<(u64, u64)> = Vec::new();
    let mut start: u64 = 0;
    let ghost all = cut(0, total as int, size as int);
    assert(range_views(out@) + all =~= all);
    while total - start > size
        invariant
            start < total,
            1 <= size,
            all == cut(0, total as int, size as int),
            range_views(out@) + cut(start as int, total as int, size as int) == all,
            forall|i: int| 0 <= i < out@.len() ==> (#[trigger] out@[i]).0 <= out@[i].1 < total,
        decreases total - start,
    {
        let ghost before = out@;
        let end: u64 = start + (size - 1);
        out.push((start, end));
        assert(range_views(out@) =~= range_views(before).push((start as int, end as int)));
        proof {
            let rest = cut(start + size, total as int, size as int);
            assert(range_views(before).push((start as int, end as int)) + rest =~= range_views(
                before,
            ) + (seq![(start as int, end as int)] + rest));
        }
        start = end + 1;
    }
    let ghost before = out@;
    out.push((start, total - 1));
    assert(range_views(out@) =~= range_views(before) + seq![(start as int, total - 1)]);
    out
}

/// Division rounded up.
proof fn lemma_ceil(total: int, n: int)
    by (nonlinear_arith)
    requires
        total > 0,
        n > 0,
    ensures
        (total - 1) / n + 1 == (total + n - 1) / n,
        (total + n - 1) / n >= 1,
        ((total + n - 1) / n) * n >= total,
{
}

/// What the ranges hold of a file, one after the other.
pub open spec fn pieced(body: Seq<u8>, ranges: Seq<(int, int)>) -> Seq<u8>
    decreases ranges.len(),
{
    if ranges.len() == 0 {
        Seq::empty()
    } else {
        body.subrange(ranges[0].0, ranges[0].1 + 1) + pieced(body, ranges.drop_first())
    }
}

/// The segments of a file, one after the other, are the file.
pub proof fn law_segments_make_file(body: Seq<u8>, split: usize)
    requires
        0 < body.len() <= u64::MAX,
    ensures
        pieced(
            body,
            cut(0, body.len() as int, segment_size(split, body.len() as u64)),
        ) == body,
{
    lemma_ceil(body.len() as int, segment_count(split, body.len() as u64));
    lemma_pieced(body, 0, segment_size(split, body.len() as u64));
    assert(body.skip(0) =~= body);
}

/// Ranges from a place on are the file from there on.
proof fn lemma_pieced(body: Seq<u8>, start: int, size: int)
    requires
        0 <= start <= body.len(),
        size > 0,
    ensures
        pieced(body, cut(start, body.len() as int, size)) == body.skip(start),
    decreases body.len() - start,
{
    let total = body.len() as int;
    let ranges = cut(start, total, size);
    if start >= total {
        assert(body.skip(start) =~= Seq::empty());
    } else if total - start <= size {
        assert(ranges.drop_first() =~= Seq::empty());
        assert(pieced(body, ranges.drop_first()) =~= Seq::empty());
        assert(body.subrange(start, total) + Seq::empty() =~= body.skip(start));
    } else {
        let rest = cut(start + size, total, size);
        assert(ranges.drop_first() =~= rest);
        lemma_pieced(body, start + size, size);
        assert(body.subrange(start, start + size) + body.skip(start + size) =~= body.skip(start));
    }
}

/// A file is never cut into more segments than are asked for, so that it opens no
/// more connections at once.
pub proof fn law_segments_within_split(split: usize, total: u64)
    requires
        total > 0,
    ensures
        1 <= cut(0, total as int, segment_size(split, total)).len() <= segment_count(split, total),
        split > 0 ==> segment_count(split, total) <= split,
{
    let n = segment_count(split, total);
    lemma_ceil(total as int, n);
    lemma_cut_len(0, total as int, segment_size(split, total), n);
}

/// As many ranges as cover the rest are enough.
proof fn lemma_cut_len(start: int, total: int, size: int, n: int)
    requires
        size > 0,
        n >= 0,
        start < total ==> size * n >= total - start,
    ensures
        cut(start, total, size).len() <= n,
        start < total ==> cut(start, total, size).len() >= 1,
    decreases total - start,
{
    if start < total {
        if n == 0 {
            assert(size * 0 == 0);
        }
        if total - start > size {
            assert(size * (n - 1) == size * n - size) by (nonlinear_arith);
            lemma_cut_len(start + size, total, size, n - 1);
        }
    }
}

/// The `Range` header of a segment.
pub fn range_header(start: u64, end: u64) -> (r: String)
    ensures
        r@ == "bytes="@ + decimal(start as nat) + "-"@ + decimal(end as nat),
{
    let mut r = "bytes=".to_string();
    push_decimal(&mut r, start);
    r.append("-");
    push_decimal(&mut r, end);
    r
}

// ---------------------------------------------------------------------------
// One segment
// ---------------------------------------------------------------------------

/// Whether a status is worth another attempt: timeouts, too many requests and
/// server errors, and on request also the rejections that come and go.
pub open spec fn is_retryable(status: u16, retry_on_http_errors: bool) -> bool {
    ||| status == 408
    ||| status == 429
    ||| 500 <= status <= 599
    ||| retry_on_http_errors && (status == 403 || status == 404)
}

/// Whether a status is worth another attempt.
pub fn retryable(status: u16, retry_on_http_errors: bool) -> (r: bool)
    ensures
        r == is_retryable(status, retry_on_http_errors),
{
    status == 408 || status == 429 || (500 <= status && status <= 599) || (retry_on_http_errors
        && (status == 403 || status == 404))
}

/// The head of a response.
#[derive(Debug, Clone, Copy)]
pub struct Reply {
    pub status: u16,
    /// The seconds that the server asks to wait.
    pub retry_after: Option<u64>,
    /// The length that the body is said to have.
    pub length: Option<u64>,
}

/// What became of a segment.
#[derive(Debug)]
pub enum SegmentOutcome {
    /// The segment file is complete.
    Complete,
    /// The server ignored the range: the file cannot be had in segments.
    Ignored,
    /// The segment could not be downloaded. `not_found` marks HTTP 404.
    Failed { failure: SegmentFailure, not_found: bool },
}

/// What the driver is to do next for a segment.
#[derive(Debug)]
pub enum SegmentAction {
    /// Tell the size of the segment file.
    Measure,
    /// Request the range.
    Request,
    /// Wait before the given attempt, no less than the server asked for, and
    /// request the range again. Where `remove` is set, remove the segment
    /// file first.
    Retry { remove: bool, attempt: u32, retry_after: Option<u64> },
    /// Open the segment file, empty.
    Open,
    /// Read the next chunk of the body.
    Read,
    /// Write the chunk, once the speed caps allow it.
    Write,
    /// Flush the segment file.
    Flush,
    /// The segment is over.
    Finish(SegmentOutcome),
}

/// What the driver reports of a segment.
#[derive(Debug)]
pub enum SegmentEvent {
    /// The size of the segment file, where there is one.
    Measured(Option<u64>),
    /// The response to the request, or why there is none.
    Replied(Result<Reply, String>),
    /// The segment file is open, or why it is not; the text names it.
    Opened(Result<(), String>),
    /// A chunk of so many bytes has come.
    Chunk(u64),
    /// The body is over.
    End,
    /// The connection broke off.
    Interrupted,
    /// The chunk is written, or why it is not.
    Written(Result<(), String>),
    /// The segment file is flushed, or why it is not.
    Flushed(Result<(), String>),
}

/// What a segment is waiting for.
#[derive(Debug, Clone, Copy)]
pub enum SegmentState {
    Measuring,
    Requesting,
    Opening,
    Reading { got: u64 },
    Writing { got: u64 },
    Flushing { got: u64, interrupted: bool },
    Finished,
}

/// The download of one byte range `[start, end]`.
#[derive(Debug, Clone, Copy)]
pub struct Segment {
    pub start: u64,
    pub end: u64,
    pub retries: u32,
    pub retry_on_http_errors: bool,
    /// How many attempts have failed.
    pub attempt: u32,
    pub state: SegmentState,
}

/// A count of bytes with more bytes added. It stops at what 64 bits hold.
pub open spec fn more(count: u64, bytes: u64) -> u64 {
    if count + bytes <= u64::MAX {
        (count + bytes) as u64
    } else {
        u64::MAX
    }
}

impl Segment {
    /// Whether the range holds a byte at least, and no more than can be counted, and
    /// no more attempts were made than allowed.
    pub open spec fn wf(self) -> bool {
        &&& self.start <= self.end < u64::MAX
        &&& self.attempt <= self.retries
    }

    /// How many bytes the segment has.
    pub open spec fn expected(self) -> u64 {
        (self.end - self.start + 1) as u64
    }

    /// The segment in another state.
    pub open spec fn to(self, state: SegmentState) -> Segment {
        Segment { state, ..self }
    }

    /// The segment after the last event.
    pub open spec fn finish(self, outcome: SegmentOutcome) -> (Segment, SegmentAction) {
        (self.to(SegmentState::Finished), SegmentAction::Finish(outcome))
    }

    /// The segment after an attempt that failed: another one where there are
    /// attempts left.
    pub open spec fn again(
        self,
        remove: bool,
        retry_after: Option<u64>,
        failure: SegmentFailure,
        not_found: bool,
    ) -> (Segment, SegmentAction) {
        if self.attempt < self.retries {
            let attempt = (self.attempt + 1) as u32;
            (
                Segment { attempt, state: SegmentState::Requesting, ..self },
                SegmentAction::Retry { remove, attempt, retry_after },
            )
        } else {
            self.finish(SegmentOutcome::Failed { failure, not_found })
        }
    }

    /// The segment after a response.
    pub open spec fn replied(self, reply: Reply) -> (Segment, SegmentAction) {
        let failure = SegmentFailure::Http(reply.status);
        let not_found = reply.status == 404;
        if reply.status == 206 {
            (self.to(SegmentState::Opening), SegmentAction::Open)
        } else if reply.status == 200 {
            self.finish(SegmentOutcome::Ignored)
        } else if is_retryable(reply.status, self.retry_on_http_errors) {
            self.again(false, reply.retry_after, failure, not_found)
        } else {
            self.finish(SegmentOutcome::Failed { failure, not_found })
        }
    }

    /// The segment after the body is over or has broken off, and the file is
    /// flushed.
    pub open spec fn received(self, got: u64, interrupted: bool) -> (Segment, SegmentAction) {
        if !interrupted && got == self.expected() {
            self.finish(SegmentOutcome::Complete)
        } else {
            self.again(
                true,
                None,
                SegmentFailure::Incomplete {
                    start: self.start,
                    end: self.end,
                    got,
                    expected: self.expected(),
                },
                false,
            )
        }
    }

    /// The segment after an event, and what is to be done. A driver that reports
    /// something else than it was asked for ends the segment.
    pub open spec fn next(self, event: SegmentEvent) -> (Segment, SegmentAction) {
        match (self.state, event) {
            (SegmentState::Measuring, SegmentEvent::Measured(size)) => if size == Some(
                self.expected(),
            ) {
                self.finish(SegmentOutcome::Complete)
            } else {
                (self.to(SegmentState::Requesting), SegmentAction::Request)
            },
            (SegmentState::Requesting, SegmentEvent::Replied(Ok(reply))) => self.replied(reply),
            (SegmentState::Requesting, SegmentEvent::Replied(Err(e))) => self.again(
                false,
                None,
                SegmentFailure::Request(e),
                false,
            ),
            (SegmentState::Opening, SegmentEvent::Opened(Ok(_))) => (
                self.to(SegmentState::Reading { got: 0 }),
                SegmentAction::Read,
            ),
            (SegmentState::Opening, SegmentEvent::Opened(Err(e))) => self.finish(
                SegmentOutcome::Failed { failure: SegmentFailure::Open(e), not_found: false },
            ),
            (SegmentState::Reading { got }, SegmentEvent::Chunk(bytes)) => (
                self.to(SegmentState::Writing { got: more(got, bytes) }),
                SegmentAction::Write,
            ),
            (SegmentState::Reading { got }, SegmentEvent::End) => (
                self.to(SegmentState::Flushing { got, interrupted: false }),
                SegmentAction::Flush,
            ),
            (SegmentState::Reading { got }, SegmentEvent::Interrupted) => (
                self.to(SegmentState::Flushing { got, interrupted: true }),
                SegmentAction::Flush,
            ),
            (SegmentState::Writing { got }, SegmentEvent::Written(Ok(_))) => (
                self.to(SegmentState::Reading { got }),
                SegmentAction::Read,
            ),
            (SegmentState::Writing { got }, SegmentEvent::Written(Err(e))) => self.finish(
                SegmentOutcome::Failed { failure: SegmentFailure::Write(e), not_found: false },
            ),
            (
                SegmentState::Flushing { got, interrupted },
                SegmentEvent::Flushed(Ok(_)),
            ) => self.received(got, interrupted),
            (SegmentState::Flushing { .. }, SegmentEvent::Flushed(Err(e))) => self.finish(
                SegmentOutcome::Failed { failure: SegmentFailure::Flush(e), not_found: false },
            ),
            _ => self.finish(
                SegmentOutcome::Failed { failure: SegmentFailure::OutOfOrder, not_found: false },
            ),
        }
    }

    /// Begin the download of a range. With `resume`, a segment file that an earlier
    /// run has completed is kept.
    pub fn begin(
        start: u64,
        end: u64,
        retries: u32,
        retry_on_http_errors: bool,
        resume: bool,
    ) -> (r: (Segment, SegmentAction))
        requires
            start <= end < u64::MAX,
        ensures
            r.0.wf(),
            r.0 == (Segment {
                start,
                end,
                retries,
                retry_on_http_errors,
                attempt: 0,
                state: if resume {
                    SegmentState::Measuring
                } else {
                    SegmentState::Requesting
                },
            }),
            r.1 == if resume {
                SegmentAction::Measure
            } else {
                SegmentAction::Request
            },
    {
        if resume {
            (
                Segment {
                    start,
                    end,
                    retries,
                    retry_on_http_errors,
                    attempt: 0,
                    state: SegmentState::Measuring,
                },
                SegmentAction::Measure,
            )
        } else {
            (
                Segment {
                    start,
                    end,
                    retries,
                    retry_on_http_errors,
                    attempt: 0,
                    state: SegmentState::Requesting,
                },
                SegmentAction::Request,
            )
        }
    }

    /// End the segment.
    fn end_with(&mut self, outcome: SegmentOutcome) -> (r: SegmentAction)
        ensures
            (*final(self), r) == old(self).finish(outcome),
    {
        self.state = SegmentState::Finished;
        SegmentAction::Finish(outcome)
    }

    /// Try again where there are attempts left.
    fn try_again(
        &mut self,
        remove: bool,
        retry_after: Option<u64>,
        failure: SegmentFailure,
        not_found: bool,
    ) -> (r: SegmentAction)
        ensures
            (*final(self), r) == old(self).again(remove, retry_after, failure, not_found),
    {
        if self.attempt < self.retries {
            self.attempt = self.attempt + 1;
            self.state = SegmentState::Requesting;
            SegmentAction::Retry { remove, attempt: self.attempt, retry_after }
        } else {
            self.end_with(SegmentOutcome::Failed { failure, not_found })
        }
    }

    /// Take in what the driver reports, and say what it is to do next.
    pub fn step(&mut self, event: SegmentEvent) -> (r: SegmentAction)
        requires
            old(self).wf(),
        ensures
            (*final(self), r) == old(self).next(event),
            final(self).wf(),
    {
        let expected: u64 = self.end - self.start + 1;
        match (self.state, event) {
            (SegmentState::Measuring, SegmentEvent::Measured(size)) => {
                let complete = match size {
                    Some(n) => n == expected,
                    None => false,
                };
                if complete {
                    self.end_with(SegmentOutcome::Complete)
                } else {
                    self.state = SegmentState::Requesting;
                    SegmentAction::Request
                }
            },
            (SegmentState::Requesting, SegmentEvent::Replied(Ok(reply))) => {
                let failure = SegmentFailure::Http(reply.status);
                let not_found = reply.status == 404;
                if reply.status == 206 {
                    self.state = SegmentState::Opening;
                    SegmentAction::Open
                } else if reply.status == 200 {
                    // Server ignored the range and sent the whole body.
                    self.end_with(SegmentOutcome::Ignored)
                } else if retryable(reply.status, self.retry_on_http_errors) {
                    self.try_again(false, reply.retry_after, failure, not_found)
                } else {
                    self.end_with(SegmentOutcome::Failed { failure, not_found })
                }
            },
            (SegmentState::Requesting, SegmentEvent::Replied(Err(e))) => {
                self.try_again(false, None, SegmentFailure::Request(e), false)
            },
            (SegmentState::Opening, SegmentEvent::Opened(Ok(_))) => {
                self.state = SegmentState::Reading { got: 0 };
                SegmentAction::Read
            },
            (SegmentState::Opening, SegmentEvent::Opened(Err(e))) => {
                self.end_with(
                    SegmentOutcome::Failed { failure: SegmentFailure::Open(e), not_found: false },
                )
            },
            (SegmentState::Reading { got }, SegmentEvent::Chunk(bytes)) => {
                self.state = SegmentState::Writing { got: got.saturating_add(bytes) };
                SegmentAction::Write
            },
            (SegmentState::Reading { got }, SegmentEvent::End) => {
                self.state = SegmentState::Flushing { got, interrupted: false };
                SegmentAction::Flush
            },
            (SegmentState::Reading { got }, SegmentEvent::Interrupted) => {
                self.state = SegmentState::Flushing { got, interrupted: true };
                SegmentAction::Flush
            },
            (SegmentState::Writing { got }, SegmentEvent::Written(Ok(_))) => {
                self.state = SegmentState::Reading { got };
                SegmentAction::Read
            },
            (SegmentState::Writing { .. }, SegmentEvent::Written(Err(e))) => {
                self.end_with(
                    SegmentOutcome::Failed { failure: SegmentFailure::Write(e), not_found: false },
                )
            },
            (SegmentState::Flushing { got, interrupted }, SegmentEvent::Flushed(Ok(_))) => {
                if !interrupted && got == expected {
                    self.end_with(SegmentOutcome::Complete)
                } else {
                    // Incomplete: retry this segment from scratch.
                    let failure = SegmentFailure::Incomplete {
                        start: self.start,
                        end: self.end,
                        got,
                        expected,
                    };
                    self.try_again(true, None, failure, false)
                }
            },
            (SegmentState::Flushing { .. }, SegmentEvent::Flushed(Err(e))) => {
                self.end_with(
                    SegmentOutcome::Failed { failure: SegmentFailure::Flush(e), not_found: false },
                )
            },
            _ => {
                self.end_with(
                    SegmentOutcome::Failed {
                        failure: SegmentFailure::OutOfOrder,
                        not_found: false,
                    },
                )
            },
        }
    }
}

// ---------------------------------------------------------------------------
// Laws of a segment
// ---------------------------------------------------------------------------

/// The segment after events, and all that was to be done.
pub open spec fn segment_run(s: Segment, events: Seq<SegmentEvent>) -> (
    Segment,
    Seq<SegmentAction>,
)
    decreases events.len(),
{
    if events.len() == 0 {
        (s, Seq::empty())
    } else {
        let (before, actions) = segment_run(s, events.drop_last());
        let (after, action) = before.next(events.last());
        (after, actions.push(action))
    }
}

/// How many of the actions are new attempts.
pub open spec fn segment_retries(actions: Seq<SegmentAction>) -> nat
    decreases actions.len(),
{
    if actions.len() == 0 {
        0
    } else {
        segment_retries(actions.drop_last()) + if actions.last() is Retry {
            1nat
        } else {
            0nat
        }
    }
}

/// Whatever happens, a segment is requested again no more often than retries are
/// allowed.
pub proof fn law_segment_attempts(s: Segment, events: Seq<SegmentEvent>)
    requires
        s.wf(),
    ensures
        ({
            let (after, actions) = segment_run(s, events);
            &&& after.wf()
            &&& after.retries == s.retries
            &&& s.attempt + segment_retries(actions) == after.attempt
            &&& s.attempt + segment_retries(actions) <= s.retries
        }),
    decreases events.len(),
{
    if events.len() > 0 {
        law_segment_attempts(s, events.drop_last());
        let (before, actions) = segment_run(s, events.drop_last());
        let (after, action) = before.next(events.last());
        assert(actions.push(action).drop_last() =~= actions);
    }
}

/// A segment counts as complete only where its file has all its bytes: as many as
/// were found, or as many as came in without an interruption.
pub proof fn law_complete_segment_has_all_bytes(s: Segment, event: SegmentEvent)
    requires
        s.next(event).1 == SegmentAction::Finish(SegmentOutcome::Complete),
    ensures
        (s.state is Measuring && event == SegmentEvent::Measured(Some(s.expected())))
            || s.state == (SegmentState::Flushing { got: s.expected(), interrupted: false }),
        s.start <= s.end < u64::MAX ==> match s.state {
            SegmentState::Measuring => event matches SegmentEvent::Measured(Some(size)) && size
                == s.end - s.start + 1,
            SegmentState::Flushing { got, interrupted } => got == s.end - s.start + 1
                && !interrupted,
            _ => false,
        },
{
}

/// The sum of numbers.
pub open spec fn sum_of(numbers: Seq<u64>) -> int
    decreases numbers.len(),
{
    if numbers.len() == 0 {
        0
    } else {
        sum_of(numbers.drop_last()) + numbers.last()
    }
}

/// The segment after chunks have come and were written.
pub open spec fn after_chunks(s: Segment, chunks: Seq<u64>) -> Segment
    decreases chunks.len(),
{
    if chunks.len() == 0 {
        s
    } else {
        after_chunks(s, chunks.drop_last()).next(SegmentEvent::Chunk(chunks.last())).0.next(
            SegmentEvent::Written(Ok(())),
        ).0
    }
}

/// However a body is cut into chunks, a segment is complete once it is over if and
/// only if the chunks have as many bytes together as the range.
pub proof fn law_segment_counts_bytes(s: Segment, chunks: Seq<u64>)
    requires
        s.wf(),
        s.state == (SegmentState::Reading { got: 0 }),
        sum_of(chunks) <= u64::MAX,
    ensures
        after_chunks(s, chunks).next(SegmentEvent::End).0.next(SegmentEvent::Flushed(Ok(()))).1
            == SegmentAction::Finish(SegmentOutcome::Complete) <==> sum_of(chunks)
            == s.expected(),
        after_chunks(s, chunks).next(SegmentEvent::End).0.next(SegmentEvent::Flushed(Ok(()))).1
            == SegmentAction::Finish(SegmentOutcome::Complete) <==> sum_of(chunks) == s.end
            - s.start + 1,
{
    lemma_chunks(s, chunks);
}

/// The chunks are counted.
proof fn lemma_chunks(s: Segment, chunks: Seq<u64>)
    requires
        s.state == (SegmentState::Reading { got: 0 }),
        sum_of(chunks) <= u64::MAX,
    ensures
        0 <= sum_of(chunks),
        after_chunks(s, chunks) == s.to(SegmentState::Reading { got: sum_of(chunks) as u64 }),
    decreases chunks.len(),
{
    if chunks.len() > 0 {
        lemma_sum_grows(chunks.drop_last());
        lemma_chunks(s, chunks.drop_last());
    }
}

/// A sum is not negative.
proof fn lemma_sum_grows(numbers: Seq<u64>)
    ensures
        0 <= sum_of(numbers),
    decreases numbers.len(),
{
    if numbers.len() > 0 {
        lemma_sum_grows(numbers.drop_last());
    }
}

/// A segment file that an earlier run has completed is kept; any other is downloaded.
pub proof fn law_found_segment_is_kept(s: Segment, size: Option<u64>)
    requires
        s.wf(),
        s.state is Measuring,
    ensures
        size matches Some(n) && n == s.end - s.start + 1 ==> s.next(SegmentEvent::Measured(size))
            == (
            Segment { state: SegmentState::Finished, ..s },
            SegmentAction::Finish(SegmentOutcome::Complete),
        ),
        !(size matches Some(n) && n == s.end - s.start + 1) ==> s.next(
            SegmentEvent::Measured(size),
        ) == (Segment { state: SegmentState::Requesting, ..s }, SegmentAction::Request),
{
}

/// What the server answers decides: partial content is taken, full content means that it
/// ignores ranges, and every other answer has the segment failed, unless it is worth
/// another attempt and there is one left.
pub proof fn law_answer_to_segment(s: Segment, reply: Reply)
    requires
        s.wf(),
        s.state is Requesting,
    ensures
        ({
            let (after, action) = s.next(SegmentEvent::Replied(Ok(reply)));
            let again = reply.status == 408 || reply.status == 429 || 500 <= reply.status <= 599
                || (s.retry_on_http_errors && (reply.status == 403 || reply.status == 404));
            &&& action is Open <==> reply.status == 206
            &&& reply.status == 206 ==> after == (Segment { state: SegmentState::Opening, ..s })
            &&& reply.status == 200 ==> action == SegmentAction::Finish(SegmentOutcome::Ignored)
            &&& action is Retry <==> again && s.attempt < s.retries
            &&& action is Retry ==> action == (SegmentAction::Retry {
                remove: false,
                attempt: (s.attempt + 1) as u32,
                retry_after: reply.retry_after,
            }) && after == (Segment {
                attempt: (s.attempt + 1) as u32,
                state: SegmentState::Requesting,
                ..s
            })
            &&& reply.status != 200 && reply.status != 206 && !(again && s.attempt < s.retries)
                ==> action == SegmentAction::Finish(
                SegmentOutcome::Failed {
                    failure: SegmentFailure::Http(reply.status),
                    not_found: reply.status == 404,
                },
            )
        }),
{
}

/// A request without an answer is made again while there are attempts left.
pub proof fn law_failed_segment_request_is_retried(s: Segment, why: String)
    requires
        s.wf(),
        s.state is Requesting,
    ensures
        s.attempt < s.retries ==> s.next(SegmentEvent::Replied(Err(why))) == (
            Segment {
                attempt: (s.attempt + 1) as u32,
                state: SegmentState::Requesting,
                ..s
            },
            SegmentAction::Retry {
                remove: false,
                attempt: (s.attempt + 1) as u32,
                retry_after: None,
            },
        ),
        s.attempt == s.retries ==> s.next(SegmentEvent::Replied(Err(why))) == (
            Segment { state: SegmentState::Finished, ..s },
            SegmentAction::Finish(
                SegmentOutcome::Failed { failure: SegmentFailure::Request(why), not_found: false },
            ),
        ),
{
}

/// A segment that came short, ran over or broke off is removed and downloaded from its
/// first byte while there are attempts left; after the last it has failed.
pub proof fn law_incomplete_segment_starts_over(s: Segment, got: u64, interrupted: bool)
    requires
        s.wf(),
        s.state == (SegmentState::Flushing { got, interrupted }),
        interrupted || got != s.end - s.start + 1,
    ensures
        s.attempt < s.retries ==> s.next(SegmentEvent::Flushed(Ok(()))) == (
            Segment {
                attempt: (s.attempt + 1) as u32,
                state: SegmentState::Requesting,
                ..s
            },
            SegmentAction::Retry {
                remove: true,
                attempt: (s.attempt + 1) as u32,
                retry_after: None,
            },
        ),
        s.attempt == s.retries ==> s.next(SegmentEvent::Flushed(Ok(()))).1
            == SegmentAction::Finish(
            SegmentOutcome::Failed {
                failure: SegmentFailure::Incomplete {
                    start: s.start,
                    end: s.end,
                    got,
                    expected: (s.end - s.start + 1) as u64,
                },
                not_found: false,
            },
        ),
{
}

/// A segment file is filled from empty, chunk by chunk, and flushed when the body is over
/// or has broken off.
pub proof fn law_segment_is_filled(s: Segment, got: u64, bytes: u64)
    requires
        s.wf(),
        got + bytes <= u64::MAX,
    ensures
        s.state is Opening ==> s.next(SegmentEvent::Opened(Ok(()))) == (
            Segment { state: SegmentState::Reading { got: 0 }, ..s },
            SegmentAction::Read,
        ),
        s.state == (SegmentState::Reading { got }) ==> s.next(SegmentEvent::Chunk(bytes)) == (
            Segment { state: SegmentState::Writing { got: (got + bytes) as u64 }, ..s },
            SegmentAction::Write,
        ),
        s.state == (SegmentState::Writing { got }) ==> s.next(SegmentEvent::Written(Ok(()))) == (
            Segment { state: SegmentState::Reading { got }, ..s },
            SegmentAction::Read,
        ),
        s.state == (SegmentState::Reading { got }) ==> s.next(SegmentEvent::End) == (
            Segment { state: SegmentState::Flushing { got, interrupted: false }, ..s },
            SegmentAction::Flush,
        ),
        s.state == (SegmentState::Reading { got }) ==> s.next(SegmentEvent::Interrupted) == (
            Segment { state: SegmentState::Flushing { got, interrupted: true }, ..s },
            SegmentAction::Flush,
        ),
{
}

/// Trouble with the segment file has the segment failed at once.
pub proof fn law_local_trouble_fails_segment(s: Segment, why: String)
    requires
        s.wf(),
    ensures
        s.state is Opening ==> s.next(SegmentEvent::Opened(Err(why))).1 == SegmentAction::Finish(
            SegmentOutcome::Failed { failure: SegmentFailure::Open(why), not_found: false },
        ),
        s.state is Writing ==> s.next(SegmentEvent::Written(Err(why))).1 == SegmentAction::Finish(
            SegmentOutcome::Failed { failure: SegmentFailure::Write(why), not_found: false },
        ),
        s.state is Flushing ==> s.next(SegmentEvent::Flushed(Err(why))).1 == SegmentAction::Finish(
            SegmentOutcome::Failed { failure: SegmentFailure::Flush(why), not_found: false },
        ),
{
}

/// Whatever happens, a segment keeps its range and its settings, a segment that is over
/// stays over, and no segment that is over is taken for complete.
pub proof fn law_segment_ends_once(s: Segment, event: SegmentEvent)
    ensures
        s.next(event).0.start == s.start && s.next(event).0.end == s.end,
        s.next(event).0.retries == s.retries,
        s.next(event).0.retry_on_http_errors == s.retry_on_http_errors,
        s.next(event).0.state is Finished <==> s.next(event).1 is Finish,
        s.state is Finished ==> s.next(event).1 == SegmentAction::Finish(
            SegmentOutcome::Failed { failure: SegmentFailure::OutOfOrder, not_found: false },
        ),
{
}

/// The ranges of a file stand side by side: the first begins at the first byte, each
/// other one where the one before it ends, and the last ends at the last byte. All are
/// as long as the first, but the last may be shorter.
pub proof fn law_ranges_are_even(split: usize, total: u64, i: int)
    requires
        total > 0,
        0 <= i < cut(0, total as int, segment_size(split, total)).len(),
    ensures
        ({
            let ranges = cut(0, total as int, segment_size(split, total));
            let size = ranges[0].1 + 1;
            &&& ranges[i].0 == i * size
            &&& i + 1 < ranges.len() ==> ranges[i].1 == (i + 1) * size - 1
            &&& i + 1 == ranges.len() ==> ranges[i].1 == total - 1
            &&& ranges[i].0 <= ranges[i].1
        }),
{
    let n = segment_count(split, total);
    let size = segment_size(split, total);
    lemma_ceil(total as int, n);
    lemma_cut_at(0, total as int, size, 0);
    lemma_cut_at(0, total as int, size, i);
    let ranges = cut(0, total as int, size);
    assert(0 * size == 0);
    assert((0 + 1) * size == size);
    if ranges.len() == 1 {
        assert(i == 0);
        assert(0 * (ranges[0].1 + 1) == 0) by (nonlinear_arith);
    }
}

/// A range of a size, by its place.
proof fn lemma_cut_at(start: int, total: int, size: int, i: int)
    requires
        size > 0,
        start < total,
        0 <= i < cut(start, total, size).len(),
    ensures
        ({
            let ranges = cut(start, total, size);
            &&& ranges[i].0 == start + i * size
            &&& i + 1 < ranges.len() ==> ranges[i].1 == start + (i + 1) * size - 1
            &&& i + 1 == ranges.len() ==> ranges[i].1 == total - 1
            &&& ranges[i].0 <= ranges[i].1
        }),
    decreases total - start,
{
    assert(0 * size == 0 && 1 * size == size);
    if total - start > size {
        let rest = cut(start + size, total, size);
        assert(cut(start, total, size) == seq![(start, start + size - 1)] + rest);
        if i > 0 {
            lemma_cut_at(start + size, total, size, i - 1);
            assert(rest[i - 1] == cut(start, total, size)[i]);
            assert((i - 1) * size + size == i * size) by (nonlinear_arith);
            assert((i - 1 + 1) * size + size == (i + 1) * size) by (nonlinear_arith);
        } else {
            assert(size * (total - start) >= total - start) by (nonlinear_arith)
                requires
                    size >= 1,
                    total - start >= 0,
            ;
            lemma_cut_len(start + size, total, size, total - start);
        }
    }
}

/// A file is cut into as many segments as are asked for, as long as there is one for each
/// MiB that is begun, and they are as even as can be: none is longer than the file
/// divided by their number, rounded up.
pub proof fn law_file_is_split_as_asked(split: usize, total: u64)
    requires
        1 <= split <= total / 1_048_576 + 1,
        total > 0,
        split * split <= total,
    ensures
        ({
            let ranges = cut(0, total as int, segment_size(split, total));
            let size = ranges[0].1 + 1;
            &&& ranges.len() == split
            &&& size * split >= total
            &&& (size - 1) * split < total
        }),
{
    let n = split as int;
    let size = segment_size(split, total);
    assert(segment_count(split, total) == n);
    lemma_ceil(total as int, n);
    assert((size - 1) * n < total) by (nonlinear_arith)
        requires
            size == (total + n - 1) / n,
            n > 0,
            total > 0,
    ;
    law_segments_within_split(split, total);
    let ranges = cut(0, total as int, size);
    let len = ranges.len() as int;
    lemma_cut_at(0, total as int, size, len - 1);
    lemma_cut_at(0, total as int, size, 0);
    lemma_last_is_short(0, total as int, size);
    if len < n {
        assert(len * size <= (n - 1) * size) by (nonlinear_arith)
            requires
                len <= n - 1,
                size >= 1,
        ;
        assert((n - 1) * size < total) by (nonlinear_arith)
            requires
                (size - 1) * n < total,
                n * n <= total,
                n >= 1,
                size >= 1,
        ;
        assert(false);
    }
    if len == 1 {
        assert(size * 1 == size);
        assert(size == total);
    }
    assert(1 * size == size);
}

/// The ranges reach the end of a file.
proof fn lemma_last_is_short(start: int, total: int, size: int)
    requires
        size > 0,
        start < total,
    ensures
        cut(start, total, size).len() * size >= total - start,
    decreases total - start,
{
    assert(1 * size == size);
    if total - start > size {
        let rest = cut(start + size, total, size);
        lemma_last_is_short(start + size, total, size);
        assert(cut(start, total, size).len() == rest.len() + 1);
        assert((rest.len() + 1) * size == rest.len() * size + size) by (nonlinear_arith);
    }
}

/// A file is never cut into more segments than it has MiB begun, nor into more than are
/// asked for, and never into none.
pub proof fn law_segments_are_not_too_many(split: usize, total: u64)
    requires
        total > 0,
    ensures
        1 <= cut(0, total as int, segment_size(split, total)).len(),
        cut(0, total as int, segment_size(split, total)).len() <= total / 1_048_576 + 1,
        split > 0 ==> cut(0, total as int, segment_size(split, total)).len() <= split,
        split == 0 ==> cut(0, total as int, segment_size(split, total)).len() == 1,
{
    law_segments_within_split(split, total);
}

/// Ranges as numbers are the ranges, one for one.
pub proof fn law_range_views(v: Seq<(u64, u64)>)
    ensures
        range_views(v).len() == v.len(),
        forall|i: int|
            0 <= i < v.len() ==> #[trigger] range_views(v)[i] == (v[i].0 as int, v[i].1 as int),
{
}

/// The ranges of a file, as they come out, leave no byte out and hold none twice: the
/// first begins at the first byte, each other one right behind the one before it, and the
/// last ends at the last byte.
pub proof fn law_segment_ranges_cover_file(split: usize, total: u64, r: Vec<(u64, u64)>)
    requires
        total > 0,
        call_ensures(segment_ranges, (split, total), r),
    ensures
        r@.len() >= 1,
        r@[0].0 == 0,
        r@[r@.len() - 1].1 == total - 1,
        forall|i: int| #![trigger r@[i]]
            0 < i < r@.len() ==> r@[i].0 == r@[i - 1].1 + 1,
        forall|i: int| #![trigger r@[i]] 0 <= i < r@.len() ==> r@[i].0 <= r@[i].1,
        split > 0 ==> r@.len() <= split,
        1 <= split <= total / 1_048_576 + 1 && split * split <= total ==> r@.len() == split,
{
    let ranges = cut(0, total as int, segment_size(split, total));
    law_range_views(r@);
    law_segments_are_not_too_many(split, total);
    assert forall|i: int| #![trigger r@[i]] 0 <= i < r@.len() implies r@[i].0 == ranges[i].0
        && r@[i].1 == ranges[i].1 by {
        assert(range_views(r@)[i] == (r@[i].0 as int, r@[i].1 as int));
    }
    law_ranges_are_even(split, total, 0);
    law_ranges_are_even(split, total, ranges.len() - 1);
    let size = ranges[0].1 + 1;
    assert(0 * size == 0);
    assert forall|i: int| #![trigger r@[i]] 0 < i < r@.len() implies r@[i].0 == r@[i - 1].1
        + 1 by {
        law_ranges_are_even(split, total, i);
        law_ranges_are_even(split, total, i - 1);
    }
    if 1 <= split <= total / 1_048_576 + 1 && split * split <= total {
        law_file_is_split_as_asked(split, total);
    }
}

/// A range is requested by its first and its last byte.
pub proof fn law_range_header_names_bytes(start: u64, end: u64, r: String)
    requires
        call_ensures(range_header, (start, end), r),
    ensures
        r@ == "bytes="@ + decimal(start as nat) + "-"@ + decimal(end as nat),
{
}

/// A status is worth another attempt if and only if it is a timeout, a demand to slow
/// down, a server error or, on request, one of the rejections that come and go.
pub proof fn law_retryable_statuses(status: u16, retry_on_http_errors: bool, r: bool)
    requires
        call_ensures(retryable, (status, retry_on_http_errors), r),
    ensures
        r <==> status == 408 || status == 429 || 500 <= status <= 599 || (retry_on_http_errors && (
        status == 403 || status == 404)),
{
}

/// A segment begins with no attempt made. With resuming on, the segment file is looked at
/// first.
pub proof fn law_segment_begins(
    start: u64,
    end: u64,
    retries: u32,
    retry_on_http_errors: bool,
    resume: bool,
    r: (Segment, SegmentAction),
)
    requires
        start <= end < u64::MAX,
        call_ensures(Segment::begin, (start, end, retries, retry_on_http_errors, resume), r),
    ensures
        r.0.start == start && r.0.end == end && r.0.retries == retries && r.0.attempt == 0,
        r.0.retry_on_http_errors == retry_on_http_errors,
        resume ==> r.0.state is Measuring && r.1 is Measure,
        !resume ==> r.0.state is Requesting && r.1 is Request,
{
}

/// Each step of a segment goes by its state and what is reported, and by nothing else.
pub proof fn law_step_goes_by_event(event: SegmentEvent, r: SegmentAction)
    ensures
        forall|s: &mut Segment| #[trigger]
            call_ensures(Segment::step, (s, event), r) ==> (*final(s), r) == (*s).next(event),
{
}

} // verus!
