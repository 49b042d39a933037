//! One full-file attempt. Handles resume, segmented and single-stream downloads,
//! size limits and response codes.

use vstd::prelude::*;

use crate::failure::{Failure, InternalFailure};
use crate::numbers::{decimal, push_decimal};
use crate::segments::{
    is_retryable, more, retryable, Reply, SegmentOutcome, MIN_SEGMENT_SIZE,
};

verus! {

/// A file-level outcome that we may retry.
#[derive(Debug)]
pub enum Attempt {
    /// The part file is complete and has so many bytes.
    Done(u64),
    /// Retry. `keep_part` = keep the partial file so the next attempt can
    /// resume it (stream interruptions); when false the part is deleted.
    /// `retry_after` = seconds the server asked us to wait (Retry-After).
    /// `not_found` marks HTTP 404.
    Retry { failure: Failure, keep_part: bool, retry_after: Option<u64>, not_found: bool },
    /// Give up: permanent error. `not_found` marks HTTP 404 for
    /// --max-file-not-found.
    GiveUp { failure: Failure, not_found: bool },
    /// The attempt broke off on this side of the connection.
    Broken(InternalFailure),
}

/// The answer to a request for the first byte.
#[derive(Debug, Clone, Copy)]
pub struct Probe {
    pub status: u16,
    /// The size of the whole file, 0 where the answer does not tell it.
    pub total: u64,
}

/// Why a segment could not be added to the part file.
#[derive(Debug)]
pub enum JoinError {
    /// The segment file could not be opened; the text names it.
    Open(String),
    /// The segment could not be copied.
    Copy(String),
}

/// What the driver is to do next for an attempt.
#[derive(Debug)]
pub enum FetchAction {
    /// Put the headers of the requests together.
    Prepare,
    /// Request the first byte.
    Probe,
    /// Remove the part file, and download the segments of a file of so many
    /// bytes.
    Segments { total: u64 },
    /// Remove the segment files.
    FallBack,
    /// Open the part file, empty.
    Create,
    /// Add this segment to the part file, and remove the segment file.
    Append(usize),
    /// Tell the size of the part file.
    Measure,
    /// Request the file, from this byte on.
    Request { from: u64 },
    /// Open the part file: empty, or to append to it.
    Open { fresh: bool },
    /// Read the next chunk of the body.
    Read,
    /// Write the chunk, once the speed caps allow it.
    Write,
    /// Flush the part file.
    Flush,
    /// The attempt is over. With `discard`, remove the segment files.
    Finish { attempt: Attempt, discard: bool },
}

/// What the driver reports of an attempt.
#[derive(Debug)]
pub enum FetchEvent {
    /// The headers are there, or why they are not.
    Prepared(Result<(), String>),
    /// The answer to the probe, where there is one.
    Probed(Option<Probe>),
    /// What became of the segments, in order.
    Segmented(Vec<SegmentOutcome>),
    /// The segment files are gone.
    FellBack,
    /// The part file is there, or why it is not; the text names it.
    Created(Result<(), String>),
    /// The segment is added, or why it is not.
    Appended(Result<(), JoinError>),
    /// The size of the part file, where there is one.
    Measured(Option<u64>),
    /// The response to the request, or why there is none.
    Replied(Result<Reply, String>),
    /// The part file is open, or why it is not; the text names it.
    Opened(Result<(), String>),
    /// A chunk of so many bytes has come.
    Chunk(u64),
    /// The body is over.
    End,
    /// The connection broke off.
    Interrupted(String),
    /// The chunk is written, or why it is not.
    Written(Result<(), String>),
    /// The part file is flushed, or why it is not.
    Flushed(Result<(), String>),
}

/// What an attempt is waiting for.
#[derive(Debug, Clone, Copy)]
pub enum FetchState {
    Preparing,
    Probing,
    Segmenting { total: u64 },
    FallingBack,
    Creating { total: u64, count: usize },
    Joining { total: u64, next: usize, count: usize },
    Measuring,
    Requesting { existing: u64 },
    CheckingPart,
    Opening { total: u64 },
    Reading { total: u64 },
    Writing { total: u64 },
    Flushing { total: u64 },
    Finished,
}

/// The first segment that is not complete.
pub open spec fn first_problem(outcomes: Seq<SegmentOutcome>) -> Option<int>
    decreases outcomes.len(),
{
    if outcomes.len() == 0 {
        None
    } else {
        match first_problem(outcomes.drop_last()) {
            Some(i) => Some(i),
            None => if outcomes.last() is Complete {
                None
            } else {
                Some(outcomes.len() - 1)
            },
        }
    }
}

/// The first problem of a beginning is the first of all.
proof fn lemma_first_problem(outcomes: Seq<SegmentOutcome>, k: int)
    requires
        0 <= k <= outcomes.len(),
        first_problem(outcomes.take(k)) is Some,
    ensures
        first_problem(outcomes) == first_problem(outcomes.take(k)),
    decreases outcomes.len() - k,
{
    if k < outcomes.len() {
        assert(outcomes.take(k + 1).drop_last() =~= outcomes.take(k));
        lemma_first_problem(outcomes, k + 1);
    } else {
        assert(outcomes.take(k) =~= outcomes);
    }
}

/// One attempt at a file.
#[derive(Debug, Clone, Copy)]
pub struct Fetch {
    /// Into how many segments a large file is cut.
    pub split: usize,
    /// Whether a part file is resumed.
    pub resume: bool,
    /// How many bytes a file may have, 0 for any number.
    pub max_size: u64,
    pub retry_on_http_errors: bool,
    pub state: FetchState,
}

impl Fetch {
    /// Whether a file of so many bytes is too large.
    pub open spec fn too_large(self, bytes: u64) -> bool {
        self.max_size > 0 && bytes > self.max_size
    }

    /// The attempt in another state.
    pub open spec fn to(self, state: FetchState) -> Fetch {
        Fetch { state, ..self }
    }

    /// The attempt when it is over.
    pub open spec fn finish(self, attempt: Attempt) -> (Fetch, FetchAction) {
        (self.to(FetchState::Finished), FetchAction::Finish { attempt, discard: false })
    }

    /// The attempt when there is no point in another one.
    pub open spec fn give_up(self, failure: Failure) -> (Fetch, FetchAction) {
        self.finish(Attempt::GiveUp { failure, not_found: false })
    }

    /// The attempt when the part file has all its bytes.
    pub open spec fn done(self, bytes: u64) -> (Fetch, FetchAction) {
        if self.too_large(bytes) {
            self.give_up(Failure::TooLong { max: self.max_size })
        } else {
            self.finish(Attempt::Done(bytes))
        }
    }

    /// The attempt when the file is to come in one stream.
    pub open spec fn stream(self) -> (Fetch, FetchAction) {
        if self.resume {
            (self.to(FetchState::Measuring), FetchAction::Measure)
        } else {
            (self.to(FetchState::Requesting { existing: 0 }), FetchAction::Request { from: 0 })
        }
    }

    /// The attempt after the probe: segments where the server honours ranges and the
    /// file is large enough, else one stream.
    pub open spec fn probed(self, probe: Option<Probe>) -> (Fetch, FetchAction) {
        match probe {
            Some(p) if p.status == 206 && p.total >= MIN_SEGMENT_SIZE => if self.too_large(
                p.total,
            ) {
                self.give_up(Failure::Declared { len: p.total, max: self.max_size })
            } else {
                (
                    self.to(FetchState::Segmenting { total: p.total }),
                    FetchAction::Segments { total: p.total },
                )
            },
            _ => self.stream(),
        }
    }

    /// The attempt after the segments: they are put together where all are complete;
    /// else the first that is not decides.
    pub open spec fn segmented(self, total: u64, outcomes: Seq<SegmentOutcome>) -> (
        Fetch,
        FetchAction,
    ) {
        match first_problem(outcomes) {
            None => (
                self.to(FetchState::Creating { total, count: outcomes.len() as usize }),
                FetchAction::Create,
            ),
            Some(i) => match outcomes[i] {
                SegmentOutcome::Failed { failure, not_found } => (
                    self.to(FetchState::Finished),
                    FetchAction::Finish {
                        attempt: Attempt::GiveUp {
                            failure: Failure::Segment { index: i as usize, failure },
                            not_found,
                        },
                        discard: true,
                    },
                ),
                _ => (self.to(FetchState::FallingBack), FetchAction::FallBack),
            },
        }
    }

    /// The attempt after so many segments are put together.
    pub open spec fn joined(self, total: u64, next: usize, count: usize) -> (Fetch, FetchAction) {
        if next < count {
            (self.to(FetchState::Joining { total, next, count }), FetchAction::Append(next))
        } else {
            (self.to(FetchState::Flushing { total }), FetchAction::Flush)
        }
    }

    /// The attempt after a response.
    pub open spec fn replied(self, existing: u64, reply: Reply) -> (Fetch, FetchAction) {
        let status = reply.status;
        if 300 <= status <= 399 {
            self.give_up(Failure::Redirects(status))
        } else if status == 416 {
            (self.to(FetchState::CheckingPart), FetchAction::Measure)
        } else if status == 200 || (status == 206 && existing > 0) {
            match reply.length {
                Some(len) if self.too_large(len) => self.give_up(
                    Failure::Declared { len, max: self.max_size },
                ),
                _ => (
                    self.to(
                        FetchState::Opening {
                            total: if status == 200 {
                                0
                            } else {
                                existing
                            },
                        },
                    ),
                    FetchAction::Open { fresh: status == 200 },
                ),
            }
        } else if is_retryable(status, self.retry_on_http_errors) {
            self.finish(
                Attempt::Retry {
                    failure: Failure::Http(status),
                    keep_part: true,
                    retry_after: reply.retry_after,
                    not_found: status == 404,
                },
            )
        } else if 400 <= status <= 499 {
            self.finish(
                Attempt::GiveUp { failure: Failure::Http(status), not_found: status == 404 },
            )
        } else {
            self.give_up(Failure::Unexpected(status))
        }
    }

    /// The attempt after the server refused the range: the part file is complete,
    /// where there is one.
    pub open spec fn checked(self, size: Option<u64>) -> (Fetch, FetchAction) {
        match size {
            None => self.give_up(Failure::NoPart),
            Some(bytes) => if bytes == 0 {
                self.give_up(Failure::EmptyPart)
            } else {
                self.done(bytes)
            },
        }
    }

    /// The attempt after an event, and what is to be done. A driver that reports
    /// something else than it was asked for ends the attempt.
    pub open spec fn next(self, event: FetchEvent) -> (Fetch, FetchAction) {
        match (self.state, event) {
            (FetchState::Preparing, FetchEvent::Prepared(Ok(_))) => if self.split > 1 {
                (self.to(FetchState::Probing), FetchAction::Probe)
            } else {
                self.stream()
            },
            (FetchState::Preparing, FetchEvent::Prepared(Err(e))) => self.finish(
                Attempt::Broken(InternalFailure::Prepare(e)),
            ),
            (FetchState::Probing, FetchEvent::Probed(probe)) => self.probed(probe),
            (FetchState::Segmenting { total }, FetchEvent::Segmented(outcomes)) => self.segmented(
                total,
                outcomes@,
            ),
            (FetchState::FallingBack, FetchEvent::FellBack) => self.stream(),
            (FetchState::Creating { total, count }, FetchEvent::Created(Ok(_))) => self.joined(
                total,
                0,
                count,
            ),
            (FetchState::Creating { .. }, FetchEvent::Created(Err(e))) => self.finish(
                Attempt::Broken(InternalFailure::Create(e)),
            ),
            (
                FetchState::Joining { total, next, count },
                FetchEvent::Appended(Ok(_)),
            ) => self.joined(total, next.wrapping_add(1), count),
            (
                FetchState::Joining { .. },
                FetchEvent::Appended(Err(JoinError::Open(e))),
            ) => self.finish(Attempt::Broken(InternalFailure::OpenSegment(e))),
            (
                FetchState::Joining { .. },
                FetchEvent::Appended(Err(JoinError::Copy(e))),
            ) => self.finish(Attempt::Broken(InternalFailure::Copy(e))),
            (FetchState::Measuring, FetchEvent::Measured(size)) => {
                let existing = match size {
                    Some(bytes) => bytes,
                    None => 0,
                };
                (
                    self.to(FetchState::Requesting { existing }),
                    FetchAction::Request { from: existing },
                )
            },
            (FetchState::Requesting { existing }, FetchEvent::Replied(Ok(reply))) => self.replied(
                existing,
                reply,
            ),
            (FetchState::Requesting { .. }, FetchEvent::Replied(Err(e))) => self.finish(
                Attempt::Retry {
                    failure: Failure::Request(e),
                    keep_part: true,
                    retry_after: None,
                    not_found: false,
                },
            ),
            (FetchState::CheckingPart, FetchEvent::Measured(size)) => self.checked(size),
            (FetchState::Opening { total }, FetchEvent::Opened(Ok(_))) => (
                self.to(FetchState::Reading { total }),
                FetchAction::Read,
            ),
            (FetchState::Opening { .. }, FetchEvent::Opened(Err(e))) => self.finish(
                Attempt::Broken(InternalFailure::Open(e)),
            ),
            (FetchState::Reading { total }, FetchEvent::Chunk(bytes)) => if self.too_large(
                more(total, bytes),
            ) {
                self.give_up(Failure::TooLong { max: self.max_size })
            } else {
                (self.to(FetchState::Writing { total: more(total, bytes) }), FetchAction::Write)
            },
            (FetchState::Reading { total }, FetchEvent::End) => (
                self.to(FetchState::Flushing { total }),
                FetchAction::Flush,
            ),
            (FetchState::Reading { .. }, FetchEvent::Interrupted(e)) => self.finish(
                Attempt::Retry {
                    failure: Failure::Interrupted(e),
                    keep_part: true,
                    retry_after: None,
                    not_found: false,
                },
            ),
            (FetchState::Writing { total }, FetchEvent::Written(Ok(_))) => (
                self.to(FetchState::Reading { total }),
                FetchAction::Read,
            ),
            (FetchState::Writing { .. }, FetchEvent::Written(Err(e))) => self.finish(
                Attempt::Retry {
                    failure: Failure::Write(e),
                    keep_part: false,
                    retry_after: None,
                    not_found: false,
                },
            ),
            (FetchState::Flushing { total }, FetchEvent::Flushed(Ok(_))) => if total == 0 {
                self.give_up(Failure::EmptyBody)
            } else {
                self.done(total)
            },
            (FetchState::Flushing { .. }, FetchEvent::Flushed(Err(e))) => self.finish(
                Attempt::Broken(InternalFailure::Flush(e)),
            ),
            _ => self.finish(Attempt::Broken(InternalFailure::OutOfOrder)),
        }
    }

    /// Begin an attempt.
    pub fn begin(split: usize, no_resume: bool, max_size: u64, retry_on_http_errors: bool) -> (r: (
        Fetch,
        FetchAction,
    ))
        ensures
            r.0 == (Fetch {
                split,
                resume: !no_resume,
                max_size,
                retry_on_http_errors,
                state: FetchState::Preparing,
            }),
            r.1 == FetchAction::Prepare,
    {
        (
            Fetch {
                split,
                resume: !no_resume,
                max_size,
                retry_on_http_errors,
                state: FetchState::Preparing,
            },
            FetchAction::Prepare,
        )
    }

    /// Whether a file of so many bytes is too large.
    fn exceeds(&self, bytes: u64) -> (r: bool)
        ensures
            r == self.too_large(bytes),
    {
        self.max_size > 0 && bytes > self.max_size
    }

    /// End the attempt.
    fn end_with(&mut self, attempt: Attempt) -> (r: FetchAction)
        ensures
            (*final(self), r) == old(self).finish(attempt),
    {
        self.state = FetchState::Finished;
        FetchAction::Finish { attempt, discard: false }
    }

    /// End the attempt, with no point in another one.
    fn abandon(&mut self, failure: Failure) -> (r: FetchAction)
        ensures
            (*final(self), r) == old(self).give_up(failure),
    {
        self.end_with(Attempt::GiveUp { failure, not_found: false })
    }

    /// End the attempt with a complete part file.
    fn complete(&mut self, bytes: u64) -> (r: FetchAction)
        ensures
            (*final(self), r) == old(self).done(bytes),
    {
        if self.exceeds(bytes) {
            self.abandon(Failure::TooLong { max: self.max_size })
        } else {
            self.end_with(Attempt::Done(bytes))
        }
    }

    /// Go on with one stream.
    fn start_stream(&mut self) -> (r: FetchAction)
        ensures
            (*final(self), r) == old(self).stream(),
    {
        if self.resume {
            self.state = FetchState::Measuring;
            FetchAction::Measure
        } else {
            self.state = FetchState::Requesting { existing: 0 };
            FetchAction::Request { from: 0 }
        }
    }

    /// Take in the answer to the probe.
    fn take_probe(&mut self, probe: Option<Probe>) -> (r: FetchAction)
        ensures
            (*final(self), r) == old(self).probed(probe),
    {
        match probe {
            Some(p) if p.status == 206 && p.total >= MIN_SEGMENT_SIZE => {
                if self.exceeds(p.total) {
                    self.abandon(Failure::Declared { len: p.total, max: self.max_size })
                } else {
                    self.state = FetchState::Segmenting { total: p.total };
                    FetchAction::Segments { total: p.total }
                }
            },
            _ => self.start_stream(),
        }
    }

    /// Take in what became of the segments.
    fn take_segments(&mut self, total: u64, outcomes: Vec<SegmentOutcome>) -> (r: FetchAction)
        ensures
            (*final(self), r) == old(self).segmented(total, outcomes@),
    {
        let mut rest = outcomes;
        let ghost all = outcomes@;
        let mut i: usize = 0;
        assert(all.take(0) =~= Seq::empty());
        while i < rest.len()
            invariant
                i <= rest@.len(),
                rest@ == all,
                all == outcomes@,
                first_problem(all.take(i as int)) is None,
                *self == *old(self),
            decreases rest@.len() - i,
        {
            assert(all.take(i + 1).drop_last() =~= all.take(i as int));
            match rest[i] {
                SegmentOutcome::Complete => {},
                _ => {
                    proof {
                        lemma_first_problem(all, i + 1);
                    }
                    return match rest.remove(i) {
                        SegmentOutcome::Failed { failure, not_found } => {
                            self.state = FetchState::Finished;
                            FetchAction::Finish {
                                attempt: Attempt::GiveUp {
                                    failure: Failure::Segment { index: i, failure },
                                    not_found,
                                },
                                discard: true,
                            }
                        },
                        _ => {
                            // Range ignored mid-flight: clean up and fall back.
                            self.state = FetchState::FallingBack;
                            FetchAction::FallBack
                        },
                    };
                },
            }
            i = i + 1;
        }
        assert(all.take(i as int) =~= all);
        self.state = FetchState::Creating { total, count: rest.len() };
        FetchAction::Create
    }

    /// Go on with the next segment that is to be added.
    fn join_next(&mut self, total: u64, next: usize, count: usize) -> (r: FetchAction)
        ensures
            (*final(self), r) == old(self).joined(total, next, count),
    {
        if next < count {
            self.state = FetchState::Joining { total, next, count };
            FetchAction::Append(next)
        } else {
            self.state = FetchState::Flushing { total };
            FetchAction::Flush
        }
    }

    /// Take in a response.
    fn take_reply(&mut self, existing: u64, reply: Reply) -> (r: FetchAction)
        ensures
            (*final(self), r) == old(self).replied(existing, reply),
    {
        let status: u16 = reply.status;
        if 300 <= status && status <= 399 {
            // Redirects are followed; reaching here means the policy gave up
            // (too many hops).
            self.abandon(Failure::Redirects(status))
        } else if status == 416 {
            // Our resume offset is at/after the end of the file: treat the
            // existing .part as complete.
            self.state = FetchState::CheckingPart;
            FetchAction::Measure
        } else if status == 200 || (status == 206 && existing > 0) {
            match reply.length {
                Some(len) if self.exceeds(len) => self.abandon(
                    Failure::Declared { len, max: self.max_size },
                ),
                _ => {
                    // Full content starts over; partial content goes on.
                    self.state = FetchState::Opening {
                        total: if status == 200 {
                            0
                        } else {
                            existing
                        },
                    };
                    FetchAction::Open { fresh: status == 200 }
                },
            }
        } else if retryable(status, self.retry_on_http_errors) {
            self.end_with(
                Attempt::Retry {
                    failure: Failure::Http(status),
                    keep_part: true,
                    retry_after: reply.retry_after,
                    not_found: status == 404,
                },
            )
        } else if 400 <= status && status <= 499 {
            self.end_with(
                Attempt::GiveUp { failure: Failure::Http(status), not_found: status == 404 },
            )
        } else {
            self.abandon(Failure::Unexpected(status))
        }
    }

    /// For the 416 case: the .part file is already complete.
    fn validate_existing_part(&mut self, size: Option<u64>) -> (r: FetchAction)
        ensures
            (*final(self), r) == old(self).checked(size),
    {
        match size {
            None => self.abandon(Failure::NoPart),
            Some(bytes) => {
                if bytes == 0 {
                    self.abandon(Failure::EmptyPart)
                } else {
                    self.complete(bytes)
                }
            },
        }
    }

    /// Take in what the driver reports, and say what it is to do next.
    pub fn step(&mut self, event: FetchEvent) -> (r: FetchAction)
        ensures
            (*final(self), r) == old(self).next(event),
    {
        match (self.state, event) {
            (FetchState::Preparing, FetchEvent::Prepared(Ok(_))) => {
                if self.split > 1 {
                    self.state = FetchState::Probing;
                    FetchAction::Probe
                } else {
                    self.start_stream()
                }
            },
            (FetchState::Preparing, FetchEvent::Prepared(Err(e))) => {
                self.end_with(Attempt::Broken(InternalFailure::Prepare(e)))
            },
            (FetchState::Probing, FetchEvent::Probed(probe)) => self.take_probe(probe),
            (FetchState::Segmenting { total }, FetchEvent::Segmented(outcomes)) => {
                self.take_segments(total, outcomes)
            },
            (FetchState::FallingBack, FetchEvent::FellBack) => self.start_stream(),
            (FetchState::Creating { total, count }, FetchEvent::Created(Ok(_))) => {
                self.join_next(total, 0, count)
            },
            (FetchState::Creating { .. }, FetchEvent::Created(Err(e))) => {
                self.end_with(Attempt::Broken(InternalFailure::Create(e)))
            },
            (FetchState::Joining { total, next, count }, FetchEvent::Appended(Ok(_))) => {
                let following: usize = next.wrapping_add(1);
                self.join_next(total, following, count)
            },
            (FetchState::Joining { .. }, FetchEvent::Appended(Err(JoinError::Open(e)))) => {
                self.end_with(Attempt::Broken(InternalFailure::OpenSegment(e)))
            },
            (FetchState::Joining { .. }, FetchEvent::Appended(Err(JoinError::Copy(e)))) => {
                self.end_with(Attempt::Broken(InternalFailure::Copy(e)))
            },
            (FetchState::Measuring, FetchEvent::Measured(size)) => {
                let existing: u64 = match size {
                    Some(bytes) => bytes,
                    None => 0,
                };
                self.state = FetchState::Requesting { existing };
                FetchAction::Request { from: existing }
            },
            (FetchState::Requesting { existing }, FetchEvent::Replied(Ok(reply))) => {
                self.take_reply(existing, reply)
            },
            (FetchState::Requesting { .. }, FetchEvent::Replied(Err(e))) => {
                self.end_with(
                    Attempt::Retry {
                        failure: Failure::Request(e),
                        keep_part: true,
                        retry_after: None,
                        not_found: false,
                    },
                )
            },
            (FetchState::CheckingPart, FetchEvent::Measured(size)) => {
                self.validate_existing_part(size)
            },
            (FetchState::Opening { total }, FetchEvent::Opened(Ok(_))) => {
                self.state = FetchState::Reading { total };
                FetchAction::Read
            },
            (FetchState::Opening { .. }, FetchEvent::Opened(Err(e))) => {
                self.end_with(Attempt::Broken(InternalFailure::Open(e)))
            },
            (FetchState::Reading { total }, FetchEvent::Chunk(bytes)) => {
                let grown: u64 = total.saturating_add(bytes);
                if self.exceeds(grown) {
                    self.abandon(Failure::TooLong { max: self.max_size })
                } else {
                    self.state = FetchState::Writing { total: grown };
                    FetchAction::Write
                }
            },
            (FetchState::Reading { total }, FetchEvent::End) => {
                self.state = FetchState::Flushing { total };
                FetchAction::Flush
            },
            (FetchState::Reading { .. }, FetchEvent::Interrupted(e)) => {
                self.end_with(
                    Attempt::Retry {
                        failure: Failure::Interrupted(e),
                        keep_part: true,
                        retry_after: None,
                        not_found: false,
                    },
                )
            },
            (FetchState::Writing { total }, FetchEvent::Written(Ok(_))) => {
                self.state = FetchState::Reading { total };
                FetchAction::Read
            },
            (FetchState::Writing { .. }, FetchEvent::Written(Err(e))) => {
                self.end_with(
                    Attempt::Retry {
                        failure: Failure::Write(e),
                        keep_part: false,
                        retry_after: None,
                        not_found: false,
                    },
                )
            },
            (FetchState::Flushing { total }, FetchEvent::Flushed(Ok(_))) => {
                if total == 0 {
                    self.abandon(Failure::EmptyBody)
                } else {
                    self.complete(total)
                }
            },
            (FetchState::Flushing { .. }, FetchEvent::Flushed(Err(e))) => {
                self.end_with(Attempt::Broken(InternalFailure::Flush(e)))
            },
            _ => self.end_with(Attempt::Broken(InternalFailure::OutOfOrder)),
        }
    }
}

/// The `Range` header of a request that goes on from a byte, where it is not the
/// first.
pub fn resume_header(from: u64) -> (r: Option<String>)
    ensures
        from == 0 <==> r is None,
        r matches Some(text) ==> text@ == "bytes="@ + decimal(from as nat) + "-"@,
{
    if from == 0 {
        None
    } else {
        let mut r = "bytes=".to_string();
        push_decimal(&mut r, from);
        r.append("-");
        Some(r)
    }
}

// ---------------------------------------------------------------------------
// Laws
// ---------------------------------------------------------------------------

/// No file is accepted that is empty or larger than it may be, however it came.
pub proof fn law_accepted_size(f: Fetch, event: FetchEvent)
    ensures
        f.next(event).1 matches FetchAction::Finish { attempt: Attempt::Done(bytes), discard }
            ==> bytes > 0 && (f.max_size == 0 || bytes <= f.max_size),
{
}

/// Nothing is written beyond the size that a file may have.
pub proof fn law_written_size(f: Fetch, event: FetchEvent)
    requires
        f.next(event).1 is Write,
    ensures
        f.next(event).0.state matches FetchState::Writing { total } && (f.max_size == 0 || total
            <= f.max_size),
{
}

/// The bytes of chunks, one after the other.
pub open spec fn flat(chunks: Seq<Seq<u8>>) -> Seq<u8>
    decreases chunks.len(),
{
    if chunks.len() == 0 {
        Seq::empty()
    } else {
        flat(chunks.drop_last()) + chunks.last()
    }
}

/// The attempt after chunks have come and were written.
pub open spec fn after_chunks(f: Fetch, chunks: Seq<Seq<u8>>) -> Fetch
    decreases chunks.len(),
{
    if chunks.len() == 0 {
        f
    } else {
        after_chunks(f, chunks.drop_last()).next(
            FetchEvent::Chunk(chunks.last().len() as u64),
        ).0.next(FetchEvent::Written(Ok(()))).0
    }
}

/// What is to be done once the head of a response, then its body in chunks, have
/// come and every write has succeeded.
pub open spec fn after_body(f: Fetch, reply: Reply, chunks: Seq<Seq<u8>>) -> FetchAction {
    let opened = f.next(FetchEvent::Replied(Ok(reply))).0.next(FetchEvent::Opened(Ok(()))).0;
    after_chunks(opened, chunks).next(FetchEvent::End).0.next(FetchEvent::Flushed(Ok(()))).1
}

/// The chunks are counted.
proof fn lemma_chunks(f: Fetch, total: u64, chunks: Seq<Seq<u8>>)
    requires
        f.state == (FetchState::Reading { total }),
        total + flat(chunks).len() <= u64::MAX,
        f.max_size == 0 || total + flat(chunks).len() <= f.max_size,
    ensures
        after_chunks(f, chunks) == f.to(
            FetchState::Reading { total: (total + flat(chunks).len()) as u64 },
        ),
    decreases chunks.len(),
{
    if chunks.len() > 0 {
        lemma_chunks(f, total, chunks.drop_last());
    }
}

/// An interrupted download is made good by the rest of the file. Where the part file
/// holds the beginning of a file, the server is asked for what follows, and answers
/// with partial content, the body is appended; the part file is then the file,
/// and accepted with all its bytes.
pub proof fn law_resume_makes_file(
    f: Fetch,
    part: Seq<u8>,
    body: Seq<u8>,
    reply: Reply,
    chunks: Seq<Seq<u8>>,
)
    requires
        0 < part.len() <= body.len() <= u64::MAX,
        part == body.take(part.len() as int),
        flat(chunks) == body.skip(part.len() as int),
        f.state == (FetchState::Requesting { existing: part.len() as u64 }),
        f.max_size == 0 || body.len() <= f.max_size,
        reply.status == 206,
        reply.length matches Some(len) ==> len == flat(chunks).len(),
    ensures
        f.next(FetchEvent::Replied(Ok(reply))).1 == (FetchAction::Open { fresh: false }),
        part + flat(chunks) == body,
        after_body(f, reply, chunks) == (FetchAction::Finish {
            attempt: Attempt::Done(body.len() as u64),
            discard: false,
        }),
{
    let opened = f.next(FetchEvent::Replied(Ok(reply))).0.next(FetchEvent::Opened(Ok(()))).0;
    lemma_chunks(opened, part.len() as u64, chunks);
    assert(part + flat(chunks) =~= body);
}

/// A server without range support just restarts the download: where it answers with
/// the full content, the part file is emptied first, whatever it held, so that it
/// is the file in the end.
pub proof fn law_restart_makes_file(
    f: Fetch,
    existing: u64,
    body: Seq<u8>,
    reply: Reply,
    chunks: Seq<Seq<u8>>,
)
    requires
        0 < body.len() <= u64::MAX,
        flat(chunks) == body,
        f.state == (FetchState::Requesting { existing }),
        f.max_size == 0 || body.len() <= f.max_size,
        reply.status == 200,
        reply.length matches Some(len) ==> len == body.len(),
    ensures
        f.next(FetchEvent::Replied(Ok(reply))).1 == (FetchAction::Open { fresh: true }),
        after_body(f, reply, chunks) == (FetchAction::Finish {
            attempt: Attempt::Done(body.len() as u64),
            discard: false,
        }),
{
    let opened = f.next(FetchEvent::Replied(Ok(reply))).0.next(FetchEvent::Opened(Ok(()))).0;
    lemma_chunks(opened, 0, chunks);
}

/// The attempt after so many segments were added to the part file.
pub open spec fn after_appends(f: Fetch, k: nat) -> (Fetch, FetchAction)
    decreases k,
{
    if k == 0 {
        f.next(FetchEvent::Created(Ok(())))
    } else {
        after_appends(f, (k - 1) as nat).0.next(FetchEvent::Appended(Ok(())))
    }
}

/// The segments are added to the part file in order, each once, and then it is
/// flushed.
pub proof fn law_segments_join_in_order(f: Fetch, total: u64, count: usize, k: nat)
    requires
        f.state == (FetchState::Creating { total, count }),
        k <= count,
    ensures
        after_appends(f, k) == f.joined(total, k as usize, count),
        k < count ==> after_appends(f, k) == (
            Fetch { state: FetchState::Joining { total, next: k as usize, count }, ..f },
            FetchAction::Append(k as usize),
        ),
        k == count ==> after_appends(f, k) == (
            Fetch { state: FetchState::Flushing { total }, ..f },
            FetchAction::Flush,
        ),
    decreases k,
{
    if k > 0 {
        law_segments_join_in_order(f, total, count, (k - 1) as nat);
    }
}

/// Files that are small, or whose size the server does not tell in answer to a range,
/// are downloaded in one stream.
pub proof fn law_small_file_stays_whole(f: Fetch, probe: Option<Probe>)
    requires
        f.state is Probing,
        probe matches Some(p) ==> p.status != 206 || p.total < 1_048_576,
    ensures
        f.next(FetchEvent::Probed(probe)) == f.stream(),
        f.stream().1 is Measure || f.stream().1 is Request,
        f.resume ==> f.next(FetchEvent::Probed(probe)) == (
            Fetch { state: FetchState::Measuring, ..f },
            FetchAction::Measure,
        ),
        !f.resume ==> f.next(FetchEvent::Probed(probe)) == (
            Fetch { state: FetchState::Requesting { existing: 0 }, ..f },
            FetchAction::Request { from: 0 },
        ),
{
}

/// Where the server refuses a range because it begins at the end of the file, the
/// part file is taken as complete.
pub proof fn law_refused_range_means_complete(f: Fetch, existing: u64, reply: Reply)
    requires
        f.state == (FetchState::Requesting { existing }),
        reply.status == 416,
        existing > 0,
        f.max_size == 0 || existing <= f.max_size,
    ensures
        f.next(FetchEvent::Replied(Ok(reply))).1 is Measure,
        f.next(FetchEvent::Replied(Ok(reply))).0.next(FetchEvent::Measured(Some(existing))).1 == (
        FetchAction::Finish { attempt: Attempt::Done(existing), discard: false }),
{
}

/// A request goes on where the part file ends, unless resuming is off.
pub proof fn law_request_goes_on_after_part(f: Fetch, size: Option<u64>)
    requires
        f.state is Measuring,
    ensures
        f.next(FetchEvent::Measured(size)).1 == (FetchAction::Request {
            from: match size {
                Some(bytes) => bytes,
                None => 0,
            },
        }),
        !f.resume ==> f.stream().1 == (FetchAction::Request { from: 0 }),
{
}

/// By its status alone, a response is worth another attempt if and only if it is a
/// timeout, a demand to slow down or a server error, or, on request, one of the
/// rejections that come and go.
pub proof fn law_status_decides_retry(f: Fetch, existing: u64, reply: Reply)
    requires
        f.state == (FetchState::Requesting { existing }),
    ensures
        (f.next(FetchEvent::Replied(Ok(reply))).1 matches FetchAction::Finish {
            attempt: Attempt::Retry { failure, keep_part, retry_after, not_found },
            discard,
        }) <==> is_retryable(reply.status, f.retry_on_http_errors),
        (f.next(FetchEvent::Replied(Ok(reply))).1 == (FetchAction::Finish {
            attempt: Attempt::Retry {
                failure: Failure::Http(reply.status),
                keep_part: true,
                retry_after: reply.retry_after,
                not_found: reply.status == 404,
            },
            discard: false,
        })) <==> reply.status == 408 || reply.status == 429 || 500 <= reply.status <= 599 || (
        f.retry_on_http_errors && (reply.status == 403 || reply.status == 404)),
{
}

/// A request that fails and a connection that drops are worth another attempt, and
/// what has come so far is kept for it.
pub proof fn law_dropped_connection_is_retried(f: Fetch, why: String)
    ensures
        f.state is Requesting ==> f.next(FetchEvent::Replied(Err(why))).1 == (FetchAction::Finish {
            attempt: Attempt::Retry {
                failure: Failure::Request(why),
                keep_part: true,
                retry_after: None,
                not_found: false,
            },
            discard: false,
        }),
        f.state is Reading ==> f.next(FetchEvent::Interrupted(why)).1 == (FetchAction::Finish {
            attempt: Attempt::Retry {
                failure: Failure::Interrupted(why),
                keep_part: true,
                retry_after: None,
                not_found: false,
            },
            discard: false,
        }),
{
}

/// Segments are put together if and only if every one of them is complete.
pub proof fn law_only_complete_segments_are_joined(
    f: Fetch,
    total: u64,
    outcomes: Vec<SegmentOutcome>,
)
    requires
        f.state == (FetchState::Segmenting { total }),
    ensures
        f.next(FetchEvent::Segmented(outcomes)).1 is Create <==> forall|i: int|
            0 <= i < outcomes@.len() ==> (#[trigger] outcomes@[i]) is Complete,
        f.next(FetchEvent::Segmented(outcomes)).1 is Create ==> f.next(
            FetchEvent::Segmented(outcomes),
        ).0 == (Fetch {
            state: FetchState::Creating { total, count: outcomes@.len() as usize },
            ..f
        }),
{
    lemma_first_problem_is_first(outcomes@);
}

/// The first segment that is not complete decides what becomes of a file: where it
/// failed, the attempt is given up for its failure; where the server ignored its
/// range, the file is downloaded in one stream. Either way no segment is kept.
pub proof fn law_first_bad_segment_decides(
    f: Fetch,
    total: u64,
    outcomes: Vec<SegmentOutcome>,
    i: int,
)
    requires
        f.state == (FetchState::Segmenting { total }),
        0 <= i < outcomes@.len(),
        !(outcomes@[i] is Complete),
        forall|j: int| 0 <= j < i ==> (#[trigger] outcomes@[j]) is Complete,
    ensures
        outcomes@[i] matches SegmentOutcome::Failed { failure, not_found } ==> f.next(
            FetchEvent::Segmented(outcomes),
        ) == (
            Fetch { state: FetchState::Finished, ..f },
            FetchAction::Finish {
                attempt: Attempt::GiveUp {
                    failure: Failure::Segment { index: i as usize, failure },
                    not_found,
                },
                discard: true,
            },
        ),
        outcomes@[i] is Ignored ==> f.next(FetchEvent::Segmented(outcomes)) == (
            Fetch { state: FetchState::FallingBack, ..f },
            FetchAction::FallBack,
        ),
{
    lemma_first_problem_is_first(outcomes@);
    let first = first_problem(outcomes@);
    if first is None {
        assert(outcomes@[i] is Complete);
    } else if first->0 < i {
        assert(outcomes@[first->0] is Complete);
    }
}

/// The first problem is where the first segment stands that is not complete.
proof fn lemma_first_problem_is_first(outcomes: Seq<SegmentOutcome>)
    ensures
        match first_problem(outcomes) {
            Some(i) => 0 <= i < outcomes.len() && !(outcomes[i] is Complete) && forall|j: int|
                0 <= j < i ==> (#[trigger] outcomes[j]) is Complete,
            None => forall|j: int| 0 <= j < outcomes.len() ==> (#[trigger] outcomes[j]) is Complete,
        },
    decreases outcomes.len(),
{
    if outcomes.len() > 0 {
        let before = outcomes.drop_last();
        lemma_first_problem_is_first(before);
        assert(forall|j: int| 0 <= j < before.len() ==> before[j] == #[trigger] outcomes[j]);
    }
}

/// A file that came in segments is accepted with all its bytes, once they are put
/// together.
pub proof fn law_joined_segments_make_file(f: Fetch, total: u64, outcomes: Vec<SegmentOutcome>)
    requires
        f.state == (FetchState::Segmenting { total }),
        total > 0,
        f.max_size == 0 || total <= f.max_size,
        forall|i: int| 0 <= i < outcomes@.len() ==> (#[trigger] outcomes@[i]) is Complete,
        outcomes@.len() <= usize::MAX,
    ensures
        after_appends(
            f.next(FetchEvent::Segmented(outcomes)).0,
            outcomes@.len(),
        ).0.next(FetchEvent::Flushed(Ok(()))).1 == (FetchAction::Finish {
            attempt: Attempt::Done(total),
            discard: false,
        }),
{
    law_only_complete_segments_are_joined(f, total, outcomes);
    law_segments_join_in_order(
        f.next(FetchEvent::Segmented(outcomes)).0,
        total,
        outcomes@.len() as usize,
        outcomes@.len(),
    );
}

/// An attempt begins with the headers of its requests. With more than one segment asked
/// for, the server is asked for the first byte; otherwise the file comes in one stream,
/// from where the part file ends or, with resuming off, from the first byte.
pub proof fn law_split_asks_for_first_byte(f: Fetch, why: String)
    requires
        f.state is Preparing,
    ensures
        f.split > 1 ==> f.next(FetchEvent::Prepared(Ok(()))) == (
            Fetch { state: FetchState::Probing, ..f },
            FetchAction::Probe,
        ),
        f.split <= 1 && f.resume ==> f.next(FetchEvent::Prepared(Ok(()))) == (
            Fetch { state: FetchState::Measuring, ..f },
            FetchAction::Measure,
        ),
        f.split <= 1 && !f.resume ==> f.next(FetchEvent::Prepared(Ok(()))) == (
            Fetch { state: FetchState::Requesting { existing: 0 }, ..f },
            FetchAction::Request { from: 0 },
        ),
        f.next(FetchEvent::Prepared(Err(why))).1 == (FetchAction::Finish {
            attempt: Attempt::Broken(InternalFailure::Prepare(why)),
            discard: false,
        }),
{
}

/// A file of one MiB or more, from a server that honours ranges, is downloaded in
/// segments, unless it is larger than it may be.
pub proof fn law_large_file_is_split(f: Fetch, p: Probe)
    requires
        f.state is Probing,
        p.status == 206,
        p.total >= 1_048_576,
    ensures
        f.max_size == 0 || p.total <= f.max_size ==> f.next(FetchEvent::Probed(Some(p))) == (
            Fetch { state: FetchState::Segmenting { total: p.total }, ..f },
            FetchAction::Segments { total: p.total },
        ),
        f.max_size > 0 && p.total > f.max_size ==> f.next(FetchEvent::Probed(Some(p))).1 == (
        FetchAction::Finish {
            attempt: Attempt::GiveUp {
                failure: Failure::Declared { len: p.total, max: f.max_size },
                not_found: false,
            },
            discard: false,
        }),
{
}

/// A file whose ranges were ignored comes in one stream after all.
pub proof fn law_fall_back_goes_on(f: Fetch)
    requires
        f.state is FallingBack,
    ensures
        f.resume ==> f.next(FetchEvent::FellBack) == (
            Fetch { state: FetchState::Measuring, ..f },
            FetchAction::Measure,
        ),
        !f.resume ==> f.next(FetchEvent::FellBack) == (
            Fetch { state: FetchState::Requesting { existing: 0 }, ..f },
            FetchAction::Request { from: 0 },
        ),
{
}

/// The body of a response is taken if and only if it is the full content, or partial
/// content that goes on a part file, and is not said to be larger than it may be. Full
/// content starts the part file over; partial content is counted from its end.
pub proof fn law_body_is_taken(f: Fetch, existing: u64, reply: Reply)
    requires
        f.state == (FetchState::Requesting { existing }),
    ensures
        ({
            let small = reply.length matches Some(len) ==> f.max_size == 0 || len <= f.max_size;
            let (after, action) = f.next(FetchEvent::Replied(Ok(reply)));
            &&& action is Open <==> (reply.status == 200 || (reply.status == 206 && existing > 0))
                && small
            &&& reply.status == 200 && small ==> action == (FetchAction::Open { fresh: true })
                && after == (Fetch { state: FetchState::Opening { total: 0 }, ..f })
            &&& reply.status == 206 && existing > 0 && small ==> action == (FetchAction::Open {
                fresh: false,
            }) && after == (Fetch { state: FetchState::Opening { total: existing }, ..f })
            &&& (reply.status == 200 || (reply.status == 206 && existing > 0)) && !small ==> action
                == (FetchAction::Finish {
                attempt: Attempt::GiveUp {
                    failure: Failure::Declared { len: reply.length->0, max: f.max_size },
                    not_found: false,
                },
                discard: false,
            })
        }),
{
}

/// A response that brings no body and is not worth another attempt is final: a redirect
/// too many, an error that stays, or something that was not asked for. Only a range that
/// the server refuses has the part file looked at.
pub proof fn law_rejection_is_final(f: Fetch, existing: u64, reply: Reply)
    requires
        f.state == (FetchState::Requesting { existing }),
        reply.status != 200,
        reply.status == 206 ==> existing == 0,
        reply.status != 408 && reply.status != 429,
        !(500 <= reply.status <= 599),
        f.retry_on_http_errors ==> reply.status != 403 && reply.status != 404,
    ensures
        reply.status == 416 ==> f.next(FetchEvent::Replied(Ok(reply))) == (
            Fetch { state: FetchState::CheckingPart, ..f },
            FetchAction::Measure,
        ),
        reply.status != 416 ==> f.next(FetchEvent::Replied(Ok(reply))) == (
            Fetch { state: FetchState::Finished, ..f },
            FetchAction::Finish {
                attempt: Attempt::GiveUp {
                    failure: if 300 <= reply.status <= 399 {
                        Failure::Redirects(reply.status)
                    } else if 400 <= reply.status <= 499 {
                        Failure::Http(reply.status)
                    } else {
                        Failure::Unexpected(reply.status)
                    },
                    not_found: reply.status == 404,
                },
                discard: false,
            },
        ),
{
}

/// Where the server refuses a range, the part file is the file if it holds anything and
/// no more than it may.
pub proof fn law_part_after_refused_range(f: Fetch, size: Option<u64>)
    requires
        f.state is CheckingPart,
    ensures
        f.next(FetchEvent::Measured(size)).1 == (FetchAction::Finish {
            attempt: match size {
                None => Attempt::GiveUp { failure: Failure::NoPart, not_found: false },
                Some(bytes) => if bytes == 0 {
                    Attempt::GiveUp { failure: Failure::EmptyPart, not_found: false }
                } else if f.max_size > 0 && bytes > f.max_size {
                    Attempt::GiveUp {
                        failure: Failure::TooLong { max: f.max_size },
                        not_found: false,
                    }
                } else {
                    Attempt::Done(bytes)
                },
            },
            discard: false,
        }),
{
}

/// A chunk is written if and only if the file with it is no larger than it may be, and
/// all its bytes are counted; otherwise the attempt is given up.
pub proof fn law_chunk_is_counted(f: Fetch, total: u64, bytes: u64)
    requires
        f.state == (FetchState::Reading { total }),
        total + bytes <= u64::MAX,
    ensures
        f.max_size == 0 || total + bytes <= f.max_size ==> f.next(FetchEvent::Chunk(bytes)) == (
            Fetch { state: FetchState::Writing { total: (total + bytes) as u64 }, ..f },
            FetchAction::Write,
        ),
        f.max_size > 0 && total + bytes > f.max_size ==> f.next(FetchEvent::Chunk(bytes)).1 == (
        FetchAction::Finish {
            attempt: Attempt::GiveUp {
                failure: Failure::TooLong { max: f.max_size },
                not_found: false,
            },
            discard: false,
        }),
{
}

/// Trouble with a file on this side ends the attempt. Where a chunk could not be
/// written, the part file is of no use any more.
pub proof fn law_local_trouble_ends_attempt(f: Fetch, why: String, join: JoinError)
    ensures
        f.state is Writing ==> f.next(FetchEvent::Written(Err(why))).1 == (FetchAction::Finish {
            attempt: Attempt::Retry {
                failure: Failure::Write(why),
                keep_part: false,
                retry_after: None,
                not_found: false,
            },
            discard: false,
        }),
        f.state is Creating ==> f.next(FetchEvent::Created(Err(why))).1 == (FetchAction::Finish {
            attempt: Attempt::Broken(InternalFailure::Create(why)),
            discard: false,
        }),
        f.state is Joining ==> f.next(FetchEvent::Appended(Err(join))).1 == (FetchAction::Finish {
            attempt: Attempt::Broken(
                match join {
                    JoinError::Open(e) => InternalFailure::OpenSegment(e),
                    JoinError::Copy(e) => InternalFailure::Copy(e),
                },
            ),
            discard: false,
        }),
        f.state is Opening ==> f.next(FetchEvent::Opened(Err(why))).1 == (FetchAction::Finish {
            attempt: Attempt::Broken(InternalFailure::Open(why)),
            discard: false,
        }),
        f.state is Flushing ==> f.next(FetchEvent::Flushed(Err(why))).1 == (FetchAction::Finish {
            attempt: Attempt::Broken(InternalFailure::Flush(why)),
            discard: false,
        }),
{
}

/// An empty file is given up, whatever was asked for.
pub proof fn law_empty_body_is_given_up(f: Fetch)
    requires
        f.state == (FetchState::Flushing { total: 0 }),
    ensures
        f.next(FetchEvent::Flushed(Ok(()))).1 == (FetchAction::Finish {
            attempt: Attempt::GiveUp { failure: Failure::EmptyBody, not_found: false },
            discard: false,
        }),
{
}

/// Whatever happens, the settings of an attempt stay, an attempt that is over stays
/// over, and it is over if and only if that is said.
pub proof fn law_attempt_ends_once(f: Fetch, event: FetchEvent)
    ensures
        f.next(event).0.split == f.split,
        f.next(event).0.resume == f.resume,
        f.next(event).0.max_size == f.max_size,
        f.next(event).0.retry_on_http_errors == f.retry_on_http_errors,
        f.next(event).0.state is Finished <==> f.next(event).1 is Finish,
        f.state is Finished ==> f.next(event).1 == (FetchAction::Finish {
            attempt: Attempt::Broken(InternalFailure::OutOfOrder),
            discard: false,
        }),
{
}

/// An attempt begins with the headers, and with the settings that it was given.
pub proof fn law_attempt_begins(
    split: usize,
    no_resume: bool,
    max_size: u64,
    retry_on_http_errors: bool,
    r: (Fetch, FetchAction),
)
    requires
        call_ensures(Fetch::begin, (split, no_resume, max_size, retry_on_http_errors), r),
    ensures
        r.0.split == split && r.0.resume == !no_resume && r.0.max_size == max_size,
        r.0.retry_on_http_errors == retry_on_http_errors,
        r.0.state is Preparing && r.1 is Prepare,
{
}

/// A request that goes on names the byte from which on; one from the first byte names
/// none.
pub proof fn law_resume_header_names_byte(from: u64, r: Option<String>)
    requires
        call_ensures(resume_header, (from,), r),
    ensures
        from == 0 ==> r is None,
        from > 0 ==> r is Some && r->0@ == "bytes="@ + decimal(from as nat) + "-"@,
{
}

/// An attempt that takes in what became of the segments goes on to put them together if and
/// only if every one of them is complete, whatever it was asked for and however many there
/// are.
pub proof fn law_step_joins_only_complete_segments(
    total: u64,
    outcomes: Vec<SegmentOutcome>,
    r: FetchAction,
)
    ensures
        forall|f: &mut Fetch|
            (*f).state == (FetchState::Segmenting { total }) && #[trigger] call_ensures(
                Fetch::step,
                (f, FetchEvent::Segmented(outcomes)),
                r,
            ) ==> (r is Create <==> forall|i: int|
                0 <= i < outcomes@.len() ==> (#[trigger] outcomes@[i]) is Complete),
{
    assert forall|f: &mut Fetch|
        (*f).state == (FetchState::Segmenting { total }) && #[trigger] call_ensures(
            Fetch::step,
            (f, FetchEvent::Segmented(outcomes)),
            r,
        ) implies (r is Create <==> forall|i: int|
        0 <= i < outcomes@.len() ==> (#[trigger] outcomes@[i]) is Complete) by {
        law_only_complete_segments_are_joined(*f, total, outcomes);
    }
}

/// Each step of an attempt goes by its state and what is reported, and by nothing else.
pub proof fn law_step_goes_by_event(event: FetchEvent, r: FetchAction)
    ensures
        forall|f: &mut Fetch| #[trigger]
            call_ensures(Fetch::step, (f, event), r) ==> (*final(f), r) == (*f).next(event),
{
}

} // verus!
