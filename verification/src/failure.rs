//! What can go wrong, and how it is told to the user.

use vstd::prelude::*;

use crate::numbers::{decimal, push_decimal};

verus! {

/// The text of a status, such as "404 Not Found".
pub uninterp spec fn status_text(code: u16) -> Seq<char>;

/// `StatusCode::from_u16`, and the `Display` text of the status that it gives. There
/// is a status for each code of three digits, and the text depends on the
/// code alone: it is the code, a space and the reason that belongs to it.
#[verifier::external_body]
fn display_status(code: u16) -> (r: Option<String>)
    ensures
        r is Some <==> 100 <= code <= 999,
        r is Some ==> r->0@ == status_text(code),
        r is Some ==> (decimal(code as nat) + seq![' ']).is_prefix_of(r->0@),
{
    match reqwest::StatusCode::from_u16(code) {
        Ok(status) => Some(status.to_string()),
        Err(_) => None,
    }
}

/// How a status is shown. A code that no server can send shows as its number.
pub open spec fn shown_status(code: u16) -> Seq<char> {
    if 100 <= code <= 999 {
        status_text(code)
    } else {
        decimal(code as nat)
    }
}

/// Append a status.
fn push_status(out: &mut String, code: u16)
    ensures
        final(out)@ == old(out)@ + shown_status(code),
{
    match display_status(code) {
        Some(text) => {
            out.append(text.as_str());
        },
        None => {
            push_decimal(out, code as u64);
        },
    }
}

/// A text in quotes, with escapes for what cannot be shown.
pub uninterp spec fn quoted_text(s: Seq<char>) -> Seq<char>;

/// The `Debug` text of a `str`. Which characters are escaped, and how, is not spelt
/// out; it depends on the text alone.
#[verifier::external_body]
pub(crate) fn quote(s: &str) -> (r: String)
    ensures
        r@ == quoted_text(s@),
{
    format!("{:?}", s)
}

/// Why a segment of a file could not be downloaded.
#[derive(Debug)]
pub enum SegmentFailure {
    /// The request failed.
    Request(String),
    /// The server answered with this status.
    Http(u16),
    /// The segment file could not be opened; the text names it.
    Open(String),
    /// The segment file could not be written.
    Write(String),
    /// The segment file could not be flushed.
    Flush(String),
    /// The server sent too little or too much.
    Incomplete { start: u64, end: u64, got: u64, expected: u64 },
    /// The driver reported something that was not asked for.
    OutOfOrder,
}

impl SegmentFailure {
    /// What the user reads.
    pub open spec fn message(self) -> Seq<char> {
        match self {
            SegmentFailure::Request(e) => "segment request failed: "@ + e@,
            SegmentFailure::Http(code) => "segment HTTP "@ + shown_status(code),
            SegmentFailure::Open(e) => "cannot open segment "@ + e@,
            SegmentFailure::Write(e) => "segment write failed: "@ + e@,
            SegmentFailure::Flush(e) => "flush failed: "@ + e@,
            SegmentFailure::Incomplete { start, end, got, expected } => "segment "@ + decimal(
                start as nat,
            ) + "-"@ + decimal(end as nat) + " incomplete ("@ + decimal(got as nat) + "/"@
                + decimal(expected as nat) + " bytes)"@,
            SegmentFailure::OutOfOrder => "event out of order"@,
        }
    }

    /// What the user reads.
    pub fn text(&self) -> (r: String)
        ensures
            r@ == self.message(),
    {
        match self {
            SegmentFailure::Request(e) => titled("segment request failed: ", e),
            SegmentFailure::Http(code) => {
                let mut r = "segment HTTP ".to_string();
                push_status(&mut r, *code);
                r
            },
            SegmentFailure::Open(e) => titled("cannot open segment ", e),
            SegmentFailure::Write(e) => titled("segment write failed: ", e),
            SegmentFailure::Flush(e) => titled("flush failed: ", e),
            SegmentFailure::Incomplete { start, end, got, expected } => {
                let mut r = "segment ".to_string();
                push_decimal(&mut r, *start);
                r.append("-");
                push_decimal(&mut r, *end);
                r.append(" incomplete (");
                push_decimal(&mut r, *got);
                r.append("/");
                push_decimal(&mut r, *expected);
                r.append(" bytes)");
                r
            },
            SegmentFailure::OutOfOrder => "event out of order".to_string(),
        }
    }
}

/// A message with a title before it.
fn titled(title: &str, message: &String) -> (r: String)
    ensures
        r@ == title@ + message@,
{
    let mut r = title.to_string();
    r.append(message.as_str());
    r
}

/// Why an attempt broke off before the server could have its say.
#[derive(Debug)]
pub enum InternalFailure {
    /// The request could not be put together; the text says why.
    Prepare(String),
    /// The part file could not be opened; the text names it.
    Open(String),
    /// The part file could not be created; the text names it.
    Create(String),
    /// A segment file could not be opened; the text names it.
    OpenSegment(String),
    /// A segment could not be copied.
    Copy(String),
    /// The part file could not be flushed.
    Flush(String),
    /// The driver reported something that was not asked for.
    OutOfOrder,
}

impl InternalFailure {
    /// What the user reads.
    pub open spec fn message(self) -> Seq<char> {
        match self {
            InternalFailure::Prepare(e) => e@,
            InternalFailure::Open(e) => "cannot open "@ + e@,
            InternalFailure::Create(e) => "cannot create "@ + e@,
            InternalFailure::OpenSegment(e) => "cannot open segment "@ + e@,
            InternalFailure::Copy(e) => "concat failed: "@ + e@,
            InternalFailure::Flush(e) => "flush failed: "@ + e@,
            InternalFailure::OutOfOrder => "event out of order"@,
        }
    }

    /// What the user reads.
    pub fn text(&self) -> (r: String)
        ensures
            r@ == self.message(),
    {
        match self {
            InternalFailure::Prepare(e) => e.clone(),
            InternalFailure::Open(e) => titled("cannot open ", e),
            InternalFailure::Create(e) => titled("cannot create ", e),
            InternalFailure::OpenSegment(e) => titled("cannot open segment ", e),
            InternalFailure::Copy(e) => titled("concat failed: ", e),
            InternalFailure::Flush(e) => titled("flush failed: ", e),
            InternalFailure::OutOfOrder => "event out of order".to_string(),
        }
    }
}

/// Why a file could not be downloaded.
#[derive(Debug)]
pub enum Failure {
    /// The run was stopped before the job began.
    Stopped,
    /// The URL is of no use; the text says why.
    Address(String),
    /// The output directory could not be made.
    OutputDir(String),
    /// The request failed.
    Request(String),
    /// The server kept redirecting.
    Redirects(u16),
    /// The server answered with an error.
    Http(u16),
    /// The server answered with something else than it was asked for.
    Unexpected(u16),
    /// The server refused the range, and there is no part file.
    NoPart,
    /// The server refused the range, and the part file is empty.
    EmptyPart,
    /// The file is larger than it may be, by what the server says.
    Declared { len: u64, max: u64 },
    /// The file is larger than it may be, by what came in.
    TooLong { max: u64 },
    /// The connection broke off.
    Interrupted(String),
    /// The part file could not be written.
    Write(String),
    /// The server sent nothing.
    EmptyBody,
    /// A segment could not be downloaded.
    Segment { index: usize, failure: SegmentFailure },
    /// The attempt broke off.
    Internal(InternalFailure),
    /// The file is no image; the text says why.
    Validation(String),
    /// The part file could not be given its final name.
    Rename(String),
}

impl Failure {
    /// What the user reads.
    pub open spec fn message(self) -> Seq<char> {
        match self {
            Failure::Stopped => "run stopped (--max-file-not-found)"@,
            Failure::Address(e) => e@,
            Failure::OutputDir(e) => "cannot create output dir: "@ + e@,
            Failure::Request(e) => "request failed: "@ + e@,
            Failure::Redirects(code) => "too many redirects ("@ + shown_status(code) + ")"@,
            Failure::Http(code) => "HTTP "@ + shown_status(code),
            Failure::Unexpected(code) => "unexpected HTTP "@ + shown_status(code),
            Failure::NoPart => "server rejected range but no partial file exists"@,
            Failure::EmptyPart => "server rejected range on empty file"@,
            Failure::Declared { len, max } => "size "@ + decimal(len as nat)
                + " exceeds --max-size "@ + decimal(max as nat),
            Failure::TooLong { max } => "download exceeds --max-size "@ + decimal(max as nat),
            Failure::Interrupted(e) => "connection interrupted: "@ + e@,
            Failure::Write(e) => "disk write failed: "@ + e@,
            Failure::EmptyBody => "server returned an empty body"@,
            Failure::Segment { index, failure } => "segment "@ + decimal(index as nat)
                + " failed: "@ + failure.message(),
            Failure::Internal(failure) => "internal error: "@ + failure.message(),
            Failure::Validation(e) => "validation failed: "@ + e@,
            Failure::Rename(e) => "rename to final name failed: "@ + e@,
        }
    }

    /// What the user reads.
    pub fn text(&self) -> (r: String)
        ensures
            r@ == self.message(),
    {
        match self {
            Failure::Stopped => "run stopped (--max-file-not-found)".to_string(),
            Failure::Address(e) => e.clone(),
            Failure::OutputDir(e) => titled("cannot create output dir: ", e),
            Failure::Request(e) => titled("request failed: ", e),
            Failure::Redirects(code) => {
                let mut r = "too many redirects (".to_string();
                push_status(&mut r, *code);
                r.append(")");
                r
            },
            Failure::Http(code) => {
                let mut r = "HTTP ".to_string();
                push_status(&mut r, *code);
                r
            },
            Failure::Unexpected(code) => {
                let mut r = "unexpected HTTP ".to_string();
                push_status(&mut r, *code);
                r
            },
            Failure::NoPart => "server rejected range but no partial file exists".to_string(),
            Failure::EmptyPart => "server rejected range on empty file".to_string(),
            Failure::Declared { len, max } => {
                let mut r = "size ".to_string();
                push_decimal(&mut r, *len);
                r.append(" exceeds --max-size ");
                push_decimal(&mut r, *max);
                r
            },
            Failure::TooLong { max } => {
                let mut r = "download exceeds --max-size ".to_string();
                push_decimal(&mut r, *max);
                r
            },
            Failure::Interrupted(e) => titled("connection interrupted: ", e),
            Failure::Write(e) => titled("disk write failed: ", e),
            Failure::EmptyBody => "server returned an empty body".to_string(),
            Failure::Segment { index, failure } => {
                let mut r = "segment ".to_string();
                push_decimal(&mut r, *index as u64);
                r.append(" failed: ");
                let reason = failure.text();
                r.append(reason.as_str());
                r
            },
            Failure::Internal(failure) => {
                let reason = failure.text();
                titled("internal error: ", &reason)
            },
            Failure::Validation(e) => titled("validation failed: ", e),
            Failure::Rename(e) => titled("rename to final name failed: ", e),
        }
    }
}

// ---------------------------------------------------------------------------
// Laws
// ---------------------------------------------------------------------------

/// What a user reads of a job tells what went wrong, with the cause where one is known.
pub proof fn law_failure_tells_cause(e: String, code: u16, len: u64, max: u64)
    ensures
        Failure::Stopped.message() == "run stopped (--max-file-not-found)"@,
        Failure::Address(e).message() == e@,
        Failure::OutputDir(e).message() == "cannot create output dir: "@ + e@,
        Failure::Request(e).message() == "request failed: "@ + e@,
        Failure::Interrupted(e).message() == "connection interrupted: "@ + e@,
        Failure::Write(e).message() == "disk write failed: "@ + e@,
        Failure::Validation(e).message() == "validation failed: "@ + e@,
        Failure::Rename(e).message() == "rename to final name failed: "@ + e@,
        Failure::EmptyBody.message() == "server returned an empty body"@,
        Failure::NoPart.message() == "server rejected range but no partial file exists"@,
        Failure::EmptyPart.message() == "server rejected range on empty file"@,
        100 <= code <= 999 ==> Failure::Http(code).message() == "HTTP "@ + status_text(code),
        !(100 <= code <= 999) ==> Failure::Http(code).message() == "HTTP "@ + decimal(code as nat),
        100 <= code <= 999 ==> Failure::Unexpected(code).message() == "unexpected HTTP "@
            + status_text(code),
        100 <= code <= 999 ==> Failure::Redirects(code).message() == "too many redirects ("@
            + status_text(code) + ")"@,
        (Failure::Declared { len, max }).message() == "size "@ + decimal(len as nat)
            + " exceeds --max-size "@ + decimal(max as nat),
        (Failure::TooLong { max }).message() == "download exceeds --max-size "@ + decimal(
            max as nat,
        ),
{
}

/// A segment that failed is named by its number, and by its range and the bytes that came
/// where these are too few or too many.
pub proof fn law_segment_failure_tells_cause(
    index: usize,
    failure: SegmentFailure,
    e: String,
    code: u16,
    start: u64,
    end: u64,
    got: u64,
    expected: u64,
)
    ensures
        (Failure::Segment { index, failure }).message() == "segment "@ + decimal(index as nat)
            + " failed: "@ + failure.message(),
        SegmentFailure::Request(e).message() == "segment request failed: "@ + e@,
        100 <= code <= 999 ==> SegmentFailure::Http(code).message() == "segment HTTP "@
            + status_text(code),
        SegmentFailure::Open(e).message() == "cannot open segment "@ + e@,
        SegmentFailure::Write(e).message() == "segment write failed: "@ + e@,
        SegmentFailure::Flush(e).message() == "flush failed: "@ + e@,
        (SegmentFailure::Incomplete { start, end, got, expected }).message() == "segment "@
            + decimal(start as nat) + "-"@ + decimal(end as nat) + " incomplete ("@ + decimal(
            got as nat,
        ) + "/"@ + decimal(expected as nat) + " bytes)"@,
{
}

/// Trouble on this side is told as such, with its cause.
pub proof fn law_internal_failure_tells_cause(failure: InternalFailure, e: String)
    ensures
        Failure::Internal(failure).message() == "internal error: "@ + failure.message(),
        InternalFailure::Prepare(e).message() == e@,
        InternalFailure::Open(e).message() == "cannot open "@ + e@,
        InternalFailure::Create(e).message() == "cannot create "@ + e@,
        InternalFailure::OpenSegment(e).message() == "cannot open segment "@ + e@,
        InternalFailure::Copy(e).message() == "concat failed: "@ + e@,
        InternalFailure::Flush(e).message() == "flush failed: "@ + e@,
{
}

} // verus!
