//! Core download engine: one URL from the plan of its filename, over its attempts,
//! to the validated file under its final name.

use vstd::prelude::*;

use crate::address::{
    locate, location_spec, parsed_url, part_file_for, text_hash, Location,
};
use crate::args::Args;
use crate::failure::{Failure, InternalFailure};
use crate::fetch::{Attempt, Fetch, FetchAction, FetchEvent, FetchState};
use crate::names::{
    join, joined, law_target_has_matching_extension, part_name, plan_name, sanitized, target,
    target_path, NamePlan,
};
use crate::segments::Reply;
use crate::text::lemma_first_index;
use crate::validate::{detected, has_extension_of, unknown_format, validate, Format};

verus! {

// ---------------------------------------------------------------------------
// Results
// ---------------------------------------------------------------------------

/// How a job ended.
#[derive(Debug, Clone, Copy, PartialEq, Eq, Structural)]
pub enum JobStatus {
    Downloaded,
    Skipped,
    Failed,
}

/// What became of a job.
#[derive(Debug)]
pub struct JobResult {
    pub url: String,
    pub file: Option<String>,
    pub bytes: u64,
    pub status: JobStatus,
    pub detail: String,
    /// True when this job failed with HTTP 404 (used by --max-file-not-found).
    pub not_found: bool,
}

/// What became of a job, as text.
pub struct JobResultView {
    pub url: Seq<char>,
    pub file: Option<Seq<char>>,
    pub bytes: u64,
    pub status: JobStatus,
    pub detail: Seq<char>,
    pub not_found: bool,
}

impl View for JobResult {
    type V = JobResultView;

    open spec fn view(&self) -> JobResultView {
        JobResultView {
            url: self.url@,
            file: match self.file {
                Some(path) => Some(path@),
                None => None,
            },
            bytes: self.bytes,
            status: self.status,
            detail: self.detail@,
            not_found: self.not_found,
        }
    }
}

/// The result of a job that failed.
pub open spec fn failed(
    url: Seq<char>,
    bytes: u64,
    failure: Failure,
    not_found: bool,
) -> JobResultView {
    JobResultView {
        url,
        file: None,
        bytes,
        status: JobStatus::Failed,
        detail: failure.message(),
        not_found,
    }
}

/// The result of a job that failed.
fn fail(url: &str, bytes: u64, failure: Failure, not_found: bool) -> (r: JobResult)
    ensures
        r@ == failed(url@, bytes, failure, not_found),
{
    JobResult {
        url: url.to_string(),
        file: None,
        bytes,
        status: JobStatus::Failed,
        detail: failure.text(),
        not_found,
    }
}

// ---------------------------------------------------------------------------
// Validation
// ---------------------------------------------------------------------------

/// The format that the head of a file shows, or why the file is not accepted.
/// Without validation every file is accepted, and one that shows no format has
/// none.
pub open spec fn inspected(head: Result<Vec<u8>, String>, no_validate: bool) -> Result<
    Option<Format>,
    Seq<char>,
> {
    match head {
        Ok(bytes) => match detected(bytes@) {
            Some(format) => Ok(Some(format)),
            None => if no_validate {
                Ok(None)
            } else {
                Err(unknown_format(bytes@))
            },
        },
        Err(e) => if no_validate {
            Ok(None)
        } else {
            Err(e@)
        },
    }
}

/// The format that the head of a file shows, or why the file is not accepted.
pub fn inspect(head: Result<Vec<u8>, String>, no_validate: bool) -> (r: Result<
    Option<Format>,
    String,
>)
    ensures
        match inspected(head, no_validate) {
            Ok(format) => r == Ok::<Option<Format>, String>(format),
            Err(why) => r matches Err(e) && e@ == why,
        },
{
    match head {
        Ok(bytes) => match validate(bytes.as_slice()) {
            Ok(format) => Ok(Some(format)),
            Err(e) => {
                if no_validate {
                    Ok(None)
                } else {
                    Err(e)
                }
            },
        },
        Err(e) => {
            if no_validate {
                Ok(None)
            } else {
                Err(e)
            }
        },
    }
}

// ---------------------------------------------------------------------------
// Jobs
// ---------------------------------------------------------------------------

/// What the driver is to do next for a job.
#[derive(Debug)]
pub enum JobAction {
    /// Make the output directory.
    CreateDir,
    /// Tell whether there is a file of this path.
    CheckExists(String),
    /// Make the first attempt.
    Attempt,
    /// Wait before the given attempt, no less than the server asked for, and make
    /// it. Where `remove_part` is set, remove the part file first.
    Retry { remove_part: bool, attempt: u32, retry_after: Option<u64> },
    /// Read the first few KB of the part file.
    ReadHead,
    /// Rename the part file to this path.
    Rename(String),
    /// The job is over. Where `remove_part` is set, remove the part file.
    Finish { remove_part: bool, result: JobResult },
}

/// What the driver is to do next for a job, as text.
pub enum JobActionView {
    CreateDir,
    CheckExists(Seq<char>),
    Attempt,
    Retry { remove_part: bool, attempt: u32, retry_after: Option<u64> },
    ReadHead,
    Rename(Seq<char>),
    Finish { remove_part: bool, result: JobResultView },
}

impl View for JobAction {
    type V = JobActionView;

    open spec fn view(&self) -> JobActionView {
        match *self {
            JobAction::CreateDir => JobActionView::CreateDir,
            JobAction::CheckExists(path) => JobActionView::CheckExists(path@),
            JobAction::Attempt => JobActionView::Attempt,
            JobAction::Retry { remove_part, attempt, retry_after } => JobActionView::Retry {
                remove_part,
                attempt,
                retry_after,
            },
            JobAction::ReadHead => JobActionView::ReadHead,
            JobAction::Rename(path) => JobActionView::Rename(path@),
            JobAction::Finish { remove_part, result } => JobActionView::Finish {
                remove_part,
                result: result@,
            },
        }
    }
}

/// What the driver reports of a job.
#[derive(Debug)]
pub enum JobEvent {
    /// The output directory is there, or why it is not.
    DirCreated(Result<(), String>),
    /// Whether there is a file of the path.
    Exists(bool),
    /// What became of the attempt.
    Attempted(Attempt),
    /// The first few KB of the part file, or why they cannot be read.
    Head(Result<Vec<u8>, String>),
    /// The part file has its new name, or why it has not.
    Renamed(Result<(), String>),
}

/// What a job is waiting for.
#[derive(Debug, Clone, Copy)]
pub enum JobState {
    CreatingDir,
    CheckingExisting,
    Attempting,
    ReadingHead { bytes: u64 },
    CheckingTarget { bytes: u64, format: Option<Format> },
    Renaming { bytes: u64, format: Option<Format> },
    Finished,
}

/// The download of one URL.
#[derive(Debug)]
pub struct Job {
    pub url: String,
    pub host: String,
    /// The path of the part file.
    pub part: String,
    /// The output directory.
    pub output: String,
    pub plan: NamePlan,
    pub index: u32,
    pub overwrite: bool,
    pub no_validate: bool,
    pub retries: u32,
    /// How many attempts have failed.
    pub attempt: u32,
    pub state: JobState,
}

impl Job {
    /// Whether no more attempts were made than allowed, and a file of no known
    /// format has come this far only without validation.
    pub open spec fn wf(self) -> bool {
        &&& self.attempt <= self.retries
        &&& match self.state {
            JobState::CheckingTarget { bytes, format } => format is Some || self.no_validate,
            JobState::Renaming { bytes, format } => format is Some || self.no_validate,
            _ => true,
        }
    }

    /// The job in another state.
    pub open spec fn to(self, state: JobState) -> Job {
        Job { state, ..self }
    }

    /// The path of the downloaded file.
    pub open spec fn target(self, format: Option<Format>) -> Seq<char> {
        target_path(self.output@, self.plan, format, self.index as nat)
    }

    /// The path that the downloaded file will have, where it is known beforehand.
    pub open spec fn known_path(self) -> Option<Seq<char>> {
        match self.plan.known() {
            Some(name) => Some(joined(self.output@, name)),
            None => None,
        }
    }

    /// The job when it is over.
    pub open spec fn finish(self, remove_part: bool, result: JobResultView) -> (
        Job,
        JobActionView,
    ) {
        (self.to(JobState::Finished), JobActionView::Finish { remove_part, result })
    }

    /// The job when the file is there already.
    pub open spec fn skip(self, path: Seq<char>, bytes: u64, detail: Seq<char>) -> (
        Job,
        JobActionView,
    ) {
        self.finish(
            true,
            JobResultView {
                url: self.url@,
                file: Some(path),
                bytes,
                status: JobStatus::Skipped,
                detail,
                not_found: false,
            },
        )
    }

    /// The job after an attempt that failed: another one where there are attempts
    /// left.
    pub open spec fn again(
        self,
        remove_part: bool,
        retry_after: Option<u64>,
        result: JobResultView,
        remove_last: bool,
    ) -> (Job, JobActionView) {
        if self.attempt < self.retries {
            let attempt = (self.attempt + 1) as u32;
            (
                Job { attempt, state: JobState::Attempting, ..self },
                JobActionView::Retry { remove_part, attempt, retry_after },
            )
        } else {
            self.finish(remove_last, result)
        }
    }

    /// The job once the output directory is there: a file whose name is known
    /// beforehand is looked for, unless it is to be downloaded anyway.
    pub open spec fn started(self) -> (Job, JobActionView) {
        match self.known_path() {
            Some(path) if !self.overwrite => (
                self.to(JobState::CheckingExisting),
                JobActionView::CheckExists(path),
            ),
            _ => (self.to(JobState::Attempting), JobActionView::Attempt),
        }
    }

    /// The job after an attempt.
    pub open spec fn attempted(self, attempt: Attempt) -> (Job, JobActionView) {
        match attempt {
            Attempt::Done(bytes) => (
                self.to(JobState::ReadingHead { bytes }),
                JobActionView::ReadHead,
            ),
            Attempt::Retry { failure, keep_part, retry_after, not_found } => self.again(
                !keep_part,
                retry_after,
                failed(self.url@, 0, failure, not_found),
                !keep_part,
            ),
            Attempt::GiveUp { failure, not_found } => self.finish(
                true,
                failed(self.url@, 0, failure, not_found),
            ),
            Attempt::Broken(failure) => self.again(
                false,
                None,
                failed(self.url@, 0, Failure::Internal(failure), false),
                false,
            ),
        }
    }

    /// The job once the format is known: the target is looked for, unless it may
    /// be overwritten.
    pub open spec fn accepted(self, bytes: u64, format: Option<Format>) -> (Job, JobActionView) {
        if self.overwrite {
            (
                self.to(JobState::Renaming { bytes, format }),
                JobActionView::Rename(self.target(format)),
            )
        } else {
            (
                self.to(JobState::CheckingTarget { bytes, format }),
                JobActionView::CheckExists(self.target(format)),
            )
        }
    }

    /// The job after the head of the part file was read. Corrupt data is deleted,
    /// and downloaded anew where there are attempts left.
    pub open spec fn headed(self, bytes: u64, head: Result<Vec<u8>, String>) -> (
        Job,
        JobActionView,
    ) {
        match inspected(head, self.no_validate) {
            Ok(format) => self.accepted(bytes, format),
            Err(why) => self.again(
                true,
                None,
                JobResultView {
                    url: self.url@,
                    file: None,
                    bytes,
                    status: JobStatus::Failed,
                    detail: "validation failed: "@ + why,
                    not_found: false,
                },
                true,
            ),
        }
    }

    /// The job after an event, and what is to be done. A driver that reports
    /// something else than it was asked for ends the job.
    pub open spec fn next(self, event: JobEvent) -> (Job, JobActionView) {
        match (self.state, event) {
            (JobState::CreatingDir, JobEvent::DirCreated(Ok(_))) => self.started(),
            (JobState::CreatingDir, JobEvent::DirCreated(Err(e))) => self.finish(
                false,
                failed(self.url@, 0, Failure::OutputDir(e), false),
            ),
            (JobState::CheckingExisting, JobEvent::Exists(found)) => match self.known_path() {
                Some(path) if found => self.skip(path, 0, "already exists"@),
                _ => (self.to(JobState::Attempting), JobActionView::Attempt),
            },
            (JobState::Attempting, JobEvent::Attempted(attempt)) => self.attempted(attempt),
            (JobState::ReadingHead { bytes }, JobEvent::Head(head)) => self.headed(bytes, head),
            (JobState::CheckingTarget { bytes, format }, JobEvent::Exists(found)) => if found {
                self.skip(self.target(format), bytes, "target already exists"@)
            } else {
                (
                    self.to(JobState::Renaming { bytes, format }),
                    JobActionView::Rename(self.target(format)),
                )
            },
            (JobState::Renaming { bytes, format }, JobEvent::Renamed(Ok(_))) => self.finish(
                false,
                JobResultView {
                    url: self.url@,
                    file: Some(self.target(format)),
                    bytes,
                    status: JobStatus::Downloaded,
                    detail: Seq::empty(),
                    not_found: false,
                },
            ),
            (JobState::Renaming { bytes, .. }, JobEvent::Renamed(Err(e))) => self.finish(
                false,
                failed(self.url@, bytes, Failure::Rename(e), false),
            ),
            _ => self.finish(
                false,
                failed(self.url@, 0, Failure::Internal(InternalFailure::OutOfOrder), false),
            ),
        }
    }

    /// Begin the download of a URL whose location is known, or why it is not. The
    /// first thing to do is to make the output directory. A run that was stopped
    /// begins nothing.
    pub fn begin_at(
        args: &Args,
        stopped: bool,
        url: &str,
        index: u32,
        out: Option<String>,
        location: Result<Location, String>,
    ) -> (r: Result<Job, JobResult>)
        ensures
            match (stopped, location) {
                (true, _) => r matches Err(result) && result@ == failed(
                    url@,
                    0,
                    Failure::Stopped,
                    false,
                ),
                (false, Err(e)) => r matches Err(result) && result@ == failed(
                    url@,
                    0,
                    Failure::Address(e),
                    false,
                ),
                (false, Ok(place)) => r matches Ok(job) && {
                    &&& job.url@ == url@
                    &&& job.host == place.host
                    &&& job.part@ == joined(args.output@, part_name(text_hash(url@)))
                    &&& job.output == args.output
                    &&& job.plan == match (out, args.filename, place.basename) {
                        (Some(name), _, _) => NamePlan::Template(name),
                        (None, Some(t), _) => NamePlan::Template(t),
                        (None, None, Some(base)) => NamePlan::Fixed(base),
                        (None, None, None) => NamePlan::Probe,
                    }
                    &&& job.index == index
                    &&& job.overwrite == args.overwrite
                    &&& job.no_validate == args.no_validate
                    &&& job.retries == args.retries
                    &&& job.attempt == 0
                    &&& job.state is CreatingDir
                    &&& job.wf()
                },
            },
    {
        if stopped {
            return Err(fail(url, 0, Failure::Stopped, false));
        }
        let place = match location {
            Ok(place) => place,
            Err(e) => return Err(fail(url, 0, Failure::Address(e), false)),
        };
        let part = part_file_for(url);
        Ok(
            Job {
                url: url.to_string(),
                host: place.host,
                part: join(args.output.as_str(), part.as_str()),
                output: args.output.clone(),
                plan: plan_name(out, &args.filename, place.basename),
                index,
                overwrite: args.overwrite,
                no_validate: args.no_validate,
                retries: args.retries,
                attempt: 0,
                state: JobState::CreatingDir,
            },
        )
    }

    /// Begin the download of a URL. The first thing to do is to make the output
    /// directory.
    pub fn begin(args: &Args, stopped: bool, url: &str, index: u32, out: Option<String>) -> (r:
        Result<Job, JobResult>)
        ensures
            match (stopped, location_spec(parsed_url(url@))) {
                (true, _) => r matches Err(result) && result@ == failed(
                    url@,
                    0,
                    Failure::Stopped,
                    false,
                ),
                (false, Err(detail)) => r matches Err(result) && result@ == (JobResultView {
                    url: url@,
                    file: None,
                    bytes: 0,
                    status: JobStatus::Failed,
                    detail,
                    not_found: false,
                }),
                (false, Ok((host, basename))) => r matches Ok(job) && {
                    &&& job.url@ == url@
                    &&& job.host@ == host
                    &&& job.part@ == joined(args.output@, part_name(text_hash(url@)))
                    &&& job.output == args.output
                    &&& match (out, args.filename, basename) {
                        (Some(name), _, _) => job.plan == NamePlan::Template(name),
                        (None, Some(t), _) => job.plan == NamePlan::Template(t),
                        (None, None, Some(base)) => job.plan matches NamePlan::Fixed(name)
                            && name@ == base,
                        (None, None, None) => job.plan == NamePlan::Probe,
                    }
                    &&& job.index == index
                    &&& job.overwrite == args.overwrite
                    &&& job.no_validate == args.no_validate
                    &&& job.retries == args.retries
                    &&& job.attempt == 0
                    &&& job.state is CreatingDir
                    &&& job.wf()
                },
            },
    {
        Job::begin_at(args, stopped, url, index, out, locate(url))
    }

    /// End the job.
    fn end_with(&mut self, remove_part: bool, result: JobResult) -> (r: JobAction)
        ensures
            (*final(self), r@) == old(self).finish(remove_part, result@),
    {
        self.state = JobState::Finished;
        JobAction::Finish { remove_part, result }
    }

    /// End the job with a file that is there already.
    fn end_skipped(&mut self, path: String, bytes: u64, detail: &str) -> (r: JobAction)
        ensures
            (*final(self), r@) == old(self).skip(path@, bytes, detail@),
    {
        let result = JobResult {
            url: self.url.clone(),
            file: Some(path),
            bytes,
            status: JobStatus::Skipped,
            detail: detail.to_string(),
            not_found: false,
        };
        self.end_with(true, result)
    }

    /// Try again where there are attempts left.
    fn try_again(
        &mut self,
        remove_part: bool,
        retry_after: Option<u64>,
        result: JobResult,
        remove_last: bool,
    ) -> (r: JobAction)
        ensures
            (*final(self), r@) == old(self).again(remove_part, retry_after, result@, remove_last),
    {
        if self.attempt < self.retries {
            self.attempt = self.attempt + 1;
            self.state = JobState::Attempting;
            JobAction::Retry { remove_part, attempt: self.attempt, retry_after }
        } else {
            self.end_with(remove_last, result)
        }
    }

    /// The path that the downloaded file will have, where it is known beforehand.
    fn expected_path(&self) -> (r: Option<String>)
        ensures
            match self.known_path() {
                Some(path) => r matches Some(p) && p@ == path,
                None => r is None,
            },
    {
        match self.plan.known_name() {
            Some(name) => Some(join(self.output.as_str(), name.as_str())),
            None => None,
        }
    }

    /// The path of the downloaded file.
    fn final_path(&self, format: Option<Format>) -> (r: String)
        ensures
            r@ == self.target(format),
    {
        target(self.output.as_str(), &self.plan, format, self.index)
    }

    /// Take in the outcome of an attempt.
    fn take_attempt(&mut self, attempt: Attempt) -> (r: JobAction)
        ensures
            (*final(self), r@) == old(self).attempted(attempt),
    {
        match attempt {
            Attempt::Done(bytes) => {
                self.state = JobState::ReadingHead { bytes };
                JobAction::ReadHead
            },
            Attempt::Retry { failure, keep_part, retry_after, not_found } => {
                let result = fail(self.url.as_str(), 0, failure, not_found);
                self.try_again(!keep_part, retry_after, result, !keep_part)
            },
            Attempt::GiveUp { failure, not_found } => {
                let result = fail(self.url.as_str(), 0, failure, not_found);
                self.end_with(true, result)
            },
            Attempt::Broken(failure) => {
                let result = fail(self.url.as_str(), 0, Failure::Internal(failure), false);
                self.try_again(false, None, result, false)
            },
        }
    }

    /// Take in the head of the part file.
    fn take_head(&mut self, bytes: u64, head: Result<Vec<u8>, String>) -> (r: JobAction)
        ensures
            (*final(self), r@) == old(self).headed(bytes, head),
    {
        match inspect(head, self.no_validate) {
            Ok(format) => {
                let path = self.final_path(format);
                if self.overwrite {
                    self.state = JobState::Renaming { bytes, format };
                    JobAction::Rename(path)
                } else {
                    self.state = JobState::CheckingTarget { bytes, format };
                    JobAction::CheckExists(path)
                }
            },
            Err(why) => {
                // Corrupt data: delete the part, redownload fresh while there are
                // attempts left.
                let result = fail(self.url.as_str(), bytes, Failure::Validation(why), false);
                self.try_again(true, None, result, true)
            },
        }
    }

    /// Take in what the driver reports, and say what it is to do next.
    pub fn step(&mut self, event: JobEvent) -> (r: JobAction)
        requires
            old(self).wf(),
        ensures
            (*final(self), r@) == old(self).next(event),
            final(self).wf(),
    {
        match (self.state, event) {
            (JobState::CreatingDir, JobEvent::DirCreated(Ok(_))) => {
                if !self.overwrite {
                    if let Some(path) = self.expected_path() {
                        self.state = JobState::CheckingExisting;
                        return JobAction::CheckExists(path);
                    }
                }
                self.state = JobState::Attempting;
                JobAction::Attempt
            },
            (JobState::CreatingDir, JobEvent::DirCreated(Err(e))) => {
                let result = fail(self.url.as_str(), 0, Failure::OutputDir(e), false);
                self.end_with(false, result)
            },
            (JobState::CheckingExisting, JobEvent::Exists(found)) => {
                if found {
                    if let Some(path) = self.expected_path() {
                        return self.end_skipped(path, 0, "already exists");
                    }
                }
                self.state = JobState::Attempting;
                JobAction::Attempt
            },
            (JobState::Attempting, JobEvent::Attempted(attempt)) => self.take_attempt(attempt),
            (JobState::ReadingHead { bytes }, JobEvent::Head(head)) => self.take_head(bytes, head),
            (JobState::CheckingTarget { bytes, format }, JobEvent::Exists(found)) => {
                let path = self.final_path(format);
                if found {
                    // We already spent the bandwidth, but keeping data is safer
                    // than clobbering.
                    self.end_skipped(path, bytes, "target already exists")
                } else {
                    self.state = JobState::Renaming { bytes, format };
                    JobAction::Rename(path)
                }
            },
            (JobState::Renaming { bytes, format }, JobEvent::Renamed(Ok(_))) => {
                let path = self.final_path(format);
                let result = JobResult {
                    url: self.url.clone(),
                    file: Some(path),
                    bytes,
                    status: JobStatus::Downloaded,
                    detail: String::new(),
                    not_found: false,
                };
                self.end_with(false, result)
            },
            (JobState::Renaming { bytes, .. }, JobEvent::Renamed(Err(e))) => {
                let result = fail(self.url.as_str(), bytes, Failure::Rename(e), false);
                self.end_with(false, result)
            },
            _ => {
                let failure = Failure::Internal(InternalFailure::OutOfOrder);
                let result = fail(self.url.as_str(), 0, failure, false);
                self.end_with(false, result)
            },
        }
    }
}

// ---------------------------------------------------------------------------
// Laws
// ---------------------------------------------------------------------------

/// The job after events, and all that was to be done.
pub open spec fn job_run(job: Job, events: Seq<JobEvent>) -> (Job, Seq<JobActionView>)
    decreases events.len(),
{
    if events.len() == 0 {
        (job, Seq::empty())
    } else {
        let (before, actions) = job_run(job, events.drop_last());
        let (after, action) = before.next(events.last());
        (after, actions.push(action))
    }
}

/// How many attempts the actions ask for.
pub open spec fn attempts_in(actions: Seq<JobActionView>) -> nat
    decreases actions.len(),
{
    if actions.len() == 0 {
        0
    } else {
        attempts_in(actions.drop_last()) + if actions.last() is Attempt || actions.last() is Retry {
            1nat
        } else {
            0nat
        }
    }
}

/// Whatever happens, a file is attempted once, and then again no more often than
/// retries are allowed.
pub proof fn law_attempts_are_limited(job: Job, events: Seq<JobEvent>)
    requires
        job.wf(),
        job.state is CreatingDir,
        job.attempt == 0,
    ensures
        attempts_in(job_run(job, events).1) <= job.retries + 1,
        job_run(job, events).0.wf(),
{
    lemma_attempts(job, events);
}

/// How many attempts a job has begun.
spec fn begun(job: Job) -> int {
    if job.state is CreatingDir || job.state is CheckingExisting {
        0
    } else {
        job.attempt + 1
    }
}

/// The attempts are counted.
proof fn lemma_attempts(job: Job, events: Seq<JobEvent>)
    requires
        job.wf(),
        job.state is CreatingDir,
        job.attempt == 0,
    ensures
        ({
            let (after, actions) = job_run(job, events);
            &&& after.wf()
            &&& after.retries == job.retries
            &&& begun(after) == 0 ==> after.attempt == 0
            &&& attempts_in(actions) <= begun(after)
        }),
    decreases events.len(),
{
    if events.len() > 0 {
        lemma_attempts(job, events.drop_last());
        let (before, actions) = job_run(job, events.drop_last());
        let (after, action) = before.next(events.last());
        assert(actions.push(action).drop_last() =~= actions);
    }
}

/// No file is overwritten unless that is allowed: the part file gets its final name
/// only after the driver was asked whether there is a file of that path, and has
/// said that there is none.
pub proof fn law_nothing_is_clobbered(job: Job, event: JobEvent)
    ensures
        job.next(event).1 matches JobActionView::Rename(path) ==> job.overwrite || (event
            == JobEvent::Exists(false) && (job.state matches JobState::CheckingTarget {
            bytes,
            format,
        } && path == job.target(format))),
        job.next(event).0.state matches JobState::CheckingTarget { bytes, format }
            ==> job.next(event).1 == JobActionView::CheckExists(
            job.next(event).0.target(format),
        ),
{
}

/// A downloaded file has been validated, unless validation is off, and its
/// extension is one of the format that was found.
pub proof fn law_downloaded_file_is_an_image(job: Job, event: JobEvent)
    requires
        job.wf(),
        !job.no_validate,
    ensures
        match job.next(event).1 {
            JobActionView::Finish { remove_part, result } => result.status == JobStatus::Downloaded
                ==> match job.state {
                JobState::Renaming { bytes, format: Some(f) } => {
                    &&& result.file == Some(job.target(Some(f)))
                    &&& has_extension_of(job.target(Some(f)), f)
                },
                _ => false,
            },
            _ => true,
        },
{
    if let JobState::Renaming { bytes, format } = job.state {
        law_target_has_matching_extension(
            job.output@,
            job.plan,
            format->0,
            job.index as nat,
        );
    }
}

/// Corrupt data is always deleted. It is downloaded anew as long as there are attempts
/// left; after the last one the job has failed, without a file.
pub proof fn law_corrupt_data_is_redownloaded(job: Job, bytes: u64, head: Vec<u8>)
    requires
        job.wf(),
        job.state == (JobState::ReadingHead { bytes }),
        detected(head@) is None,
        !job.no_validate,
    ensures
        job.attempt < job.retries ==> job.next(JobEvent::Head(Ok(head))).0.state is Attempting
            && job.next(JobEvent::Head(Ok(head))).1 == (JobActionView::Retry {
            remove_part: true,
            attempt: (job.attempt + 1) as u32,
            retry_after: None,
        }),
        job.attempt == job.retries ==> job.next(JobEvent::Head(Ok(head))).1 == (
        JobActionView::Finish {
            remove_part: true,
            result: JobResultView {
                url: job.url@,
                file: None,
                bytes,
                status: JobStatus::Failed,
                detail: "validation failed: "@ + unknown_format(head@),
                not_found: false,
            },
        }),
{
}

/// A file whose name is known beforehand, and that is there, is skipped without a
/// single attempt.
pub proof fn law_known_file_needs_no_request(job: Job)
    requires
        job.state is CreatingDir,
        job.plan.known() is Some,
        !job.overwrite,
    ensures
        ({
            let path = joined(job.output@, job.plan.known()->0);
            let (waiting, question) = job.next(JobEvent::DirCreated(Ok(())));
            let (after, action) = waiting.next(JobEvent::Exists(true));
            &&& question == JobActionView::CheckExists(path)
            &&& after.state is Finished
            &&& action matches JobActionView::Finish { remove_part, result } && result.status
                == JobStatus::Skipped && result.file == Some(path) && result.bytes == 0
        }),
{
}

/// A job that the response to a single stream ends has failed, and is marked as not
/// found if and only if the server said so.
pub proof fn law_missing_file_is_marked(f: Fetch, existing: u64, reply: Reply, job: Job)
    requires
        f.state == (FetchState::Requesting { existing }),
        job.state is Attempting,
    ensures
        f.next(FetchEvent::Replied(Ok(reply))).1 matches FetchAction::Finish { attempt, discard }
            ==> (job.next(JobEvent::Attempted(attempt)).1 matches JobActionView::Finish {
            remove_part,
            result,
        } ==> result.status == JobStatus::Failed && result.not_found == (reply.status == 404)),
        reply.status == 404 ==> f.next(FetchEvent::Replied(Ok(reply))).1 is Finish,
{
}

/// What a server asks to wait is handed on to the wait before the next attempt.
pub proof fn law_retry_after_is_honoured(f: Fetch, existing: u64, reply: Reply, job: Job)
    requires
        f.state == (FetchState::Requesting { existing }),
        reply.status == 429 || 500 <= reply.status <= 599,
        job.state is Attempting,
        job.attempt < job.retries,
    ensures
        f.next(FetchEvent::Replied(Ok(reply))).1 matches FetchAction::Finish { attempt, discard }
            && job.next(JobEvent::Attempted(attempt)).1 == (JobActionView::Retry {
            remove_part: false,
            attempt: (job.attempt + 1) as u32,
            retry_after: reply.retry_after,
        }),
{
}

/// An interrupted download is resumed: the part file is kept for the next attempt, and
/// that attempt asks for what follows it.
pub proof fn law_interrupted_download_is_resumed(
    f: Fetch,
    why: String,
    job: Job,
    next: Fetch,
    kept: u64,
)
    requires
        f.state is Reading,
        job.state is Attempting,
        job.attempt < job.retries,
        next.state is Preparing,
        next.split <= 1,
        next.resume,
    ensures
        f.next(FetchEvent::Interrupted(why)).1 matches FetchAction::Finish { attempt, discard }
            && job.next(JobEvent::Attempted(attempt)).1 == (JobActionView::Retry {
            remove_part: false,
            attempt: (job.attempt + 1) as u32,
            retry_after: None,
        }),
        next.next(FetchEvent::Prepared(Ok(()))).0.next(FetchEvent::Measured(Some(kept))).1 == (
        FetchAction::Request { from: kept }),
{
}

/// A complete part file that is an image becomes the file: under the name that the plan
/// gives for its format, unless a file of that name is there and must stay. Then the
/// part file is removed, and the job counts as skipped.
pub proof fn law_image_becomes_file(job: Job, bytes: u64, head: Vec<u8>, format: Format)
    requires
        job.wf(),
        job.state is Attempting,
        detected(head@) == Some(format),
    ensures
        ({
            let path = target_path(job.output@, job.plan, Some(format), job.index as nat);
            let (reading, ask) = job.next(JobEvent::Attempted(Attempt::Done(bytes)));
            let (waiting, question) = reading.next(JobEvent::Head(Ok(head)));
            let renaming = if job.overwrite {
                waiting
            } else {
                waiting.next(JobEvent::Exists(false)).0
            };
            &&& ask is ReadHead
            &&& job.overwrite ==> question == JobActionView::Rename(path)
            &&& !job.overwrite ==> question == JobActionView::CheckExists(path)
            &&& !job.overwrite ==> waiting.next(JobEvent::Exists(false)).1 == JobActionView::Rename(
                path,
            )
            &&& !job.overwrite ==> waiting.next(JobEvent::Exists(true)).1 == (
            JobActionView::Finish {
                remove_part: true,
                result: JobResultView {
                    url: job.url@,
                    file: Some(path),
                    bytes,
                    status: JobStatus::Skipped,
                    detail: "target already exists"@,
                    not_found: false,
                },
            })
            &&& renaming.next(JobEvent::Renamed(Ok(()))).1 == (JobActionView::Finish {
                remove_part: false,
                result: JobResultView {
                    url: job.url@,
                    file: Some(path),
                    bytes,
                    status: JobStatus::Downloaded,
                    detail: Seq::empty(),
                    not_found: false,
                },
            })
        }),
{
}

/// A file that cannot get its name has not been downloaded.
pub proof fn law_failed_rename_fails_job(
    job: Job,
    bytes: u64,
    format: Option<Format>,
    why: String,
)
    requires
        job.state == (JobState::Renaming { bytes, format }),
    ensures
        job.next(JobEvent::Renamed(Err(why))).1 == (JobActionView::Finish {
            remove_part: false,
            result: JobResultView {
                url: job.url@,
                file: None,
                bytes,
                status: JobStatus::Failed,
                detail: "rename to final name failed: "@ + why@,
                not_found: false,
            },
        }),
{
}

/// An attempt that is worth another one is followed by it while there are attempts left.
/// After the last the job has failed, for the reason of that attempt. The part file goes
/// if and only if the attempt says that it is of no use.
pub proof fn law_failed_attempt_is_retried(
    job: Job,
    failure: Failure,
    keep_part: bool,
    retry_after: Option<u64>,
    not_found: bool,
)
    requires
        job.wf(),
        job.state is Attempting,
    ensures
        ({
            let (after, action) = job.next(
                JobEvent::Attempted(Attempt::Retry { failure, keep_part, retry_after, not_found }),
            );
            &&& job.attempt < job.retries ==> after == (Job {
                attempt: (job.attempt + 1) as u32,
                ..job
            }) && action == (JobActionView::Retry {
                remove_part: !keep_part,
                attempt: (job.attempt + 1) as u32,
                retry_after,
            })
            &&& job.attempt == job.retries ==> after.state is Finished && action == (
            JobActionView::Finish {
                remove_part: !keep_part,
                result: JobResultView {
                    url: job.url@,
                    file: None,
                    bytes: 0,
                    status: JobStatus::Failed,
                    detail: failure.message(),
                    not_found,
                },
            })
        }),
{
    assert(job.state == JobState::Attempting);
}

/// An attempt that broke off on this side is followed by another one too, and the part
/// file is kept.
pub proof fn law_broken_attempt_is_retried(job: Job, failure: InternalFailure)
    requires
        job.wf(),
        job.state is Attempting,
    ensures
        ({
            let (after, action) = job.next(JobEvent::Attempted(Attempt::Broken(failure)));
            &&& job.attempt < job.retries ==> after == (Job {
                attempt: (job.attempt + 1) as u32,
                ..job
            }) && action == (JobActionView::Retry {
                remove_part: false,
                attempt: (job.attempt + 1) as u32,
                retry_after: None,
            })
            &&& job.attempt == job.retries ==> after.state is Finished && action == (
            JobActionView::Finish {
                remove_part: false,
                result: JobResultView {
                    url: job.url@,
                    file: None,
                    bytes: 0,
                    status: JobStatus::Failed,
                    detail: "internal error: "@ + failure.message(),
                    not_found: false,
                },
            })
        }),
{
    assert(job.state == JobState::Attempting);
}

/// A permanent error is final: no further attempt is made, however many are left, and
/// nothing is kept.
pub proof fn law_permanent_error_is_final(job: Job, failure: Failure, not_found: bool)
    requires
        job.state is Attempting,
    ensures
        job.next(JobEvent::Attempted(Attempt::GiveUp { failure, not_found })) == (
            Job { state: JobState::Finished, ..job },
            JobActionView::Finish {
                remove_part: true,
                result: JobResultView {
                    url: job.url@,
                    file: None,
                    bytes: 0,
                    status: JobStatus::Failed,
                    detail: failure.message(),
                    not_found,
                },
            },
        ),
{
}

/// A part file that cannot be read is no better than a corrupt one.
pub proof fn law_unreadable_part_is_corrupt(job: Job, bytes: u64, why: String)
    requires
        job.wf(),
        job.state == (JobState::ReadingHead { bytes }),
        !job.no_validate,
    ensures
        job.attempt < job.retries ==> job.next(JobEvent::Head(Err(why))).1 == (
        JobActionView::Retry {
            remove_part: true,
            attempt: (job.attempt + 1) as u32,
            retry_after: None,
        }),
        job.attempt == job.retries ==> job.next(JobEvent::Head(Err(why))).1 == (
        JobActionView::Finish {
            remove_part: true,
            result: JobResultView {
                url: job.url@,
                file: None,
                bytes,
                status: JobStatus::Failed,
                detail: "validation failed: "@ + why@,
                not_found: false,
            },
        }),
{
}

/// With validation off every file is accepted. One that shows a format gets its
/// extension all the same; one that shows none keeps its name.
pub proof fn law_validation_can_be_off(job: Job, bytes: u64, head: Result<Vec<u8>, String>)
    requires
        job.state == (JobState::ReadingHead { bytes }),
        job.no_validate,
    ensures
        ({
            let format = match head {
                Ok(data) => detected(data@),
                Err(_) => None,
            };
            let path = target_path(job.output@, job.plan, format, job.index as nat);
            let action = job.next(JobEvent::Head(head)).1;
            &&& job.overwrite ==> action == JobActionView::Rename(path)
            &&& !job.overwrite ==> action == JobActionView::CheckExists(path)
        }),
{
}

/// A job begins with the output directory, and fails without it. Then a file whose name is
/// known beforehand, be it from the URL or from a template without placeholders, is
/// looked for, unless it is to be overwritten. The first attempt is made where it is not
/// there.
pub proof fn law_job_looks_before_it_loads(job: Job, why: String)
    requires
        job.state is CreatingDir,
    ensures
        ({
            let (after, action) = job.next(JobEvent::DirCreated(Ok(())));
            &&& job.next(JobEvent::DirCreated(Err(why))).1 == (JobActionView::Finish {
                remove_part: false,
                result: JobResultView {
                    url: job.url@,
                    file: None,
                    bytes: 0,
                    status: JobStatus::Failed,
                    detail: "cannot create output dir: "@ + why@,
                    not_found: false,
                },
            })
            &&& job.overwrite || job.plan is Probe ==> action is Attempt
                && after.state is Attempting
            &&& job.plan matches NamePlan::Fixed(name) ==> (!job.overwrite ==> action
                == JobActionView::CheckExists(joined(job.output@, name@)) && after.next(
                JobEvent::Exists(true),
            ).1 == (JobActionView::Finish {
                remove_part: true,
                result: JobResultView {
                    url: job.url@,
                    file: Some(joined(job.output@, name@)),
                    bytes: 0,
                    status: JobStatus::Skipped,
                    detail: "already exists"@,
                    not_found: false,
                },
            }))
            &&& job.plan matches NamePlan::Template(t) ==> (!job.overwrite && (forall|i: int|
                0 <= i < t@.len() ==> #[trigger] t@[i] != '{') ==> action
                == JobActionView::CheckExists(joined(job.output@, sanitized(t@))))
            &&& job.plan matches NamePlan::Template(t) ==> ((exists|i: int|
                0 <= i < t@.len() && #[trigger] t@[i] == '{') ==> action is Attempt)
            &&& after.state is CheckingExisting ==> after.next(JobEvent::Exists(false)).1 is Attempt
        }),
{
    if let NamePlan::Template(t) = job.plan {
        lemma_first_index(t@, '{');
    }
}

/// Whatever happens, a job keeps what it began with, a job that is over stays over, and it
/// is over if and only if that is said.
pub proof fn law_job_ends_once(job: Job, event: JobEvent)
    ensures
        ({
            let (after, action) = job.next(event);
            &&& after.url == job.url && after.host == job.host && after.part == job.part
            &&& after.output == job.output && after.plan == job.plan && after.index == job.index
            &&& after.overwrite == job.overwrite && after.no_validate == job.no_validate
            &&& after.retries == job.retries
            &&& after.state is Finished <==> action is Finish
            &&& job.state is Finished ==> action is Finish
            &&& action matches JobActionView::Finish { remove_part, result } ==> result.url
                == job.url@ && (result.status == JobStatus::Failed <==> result.file is None)
            &&& action matches JobActionView::Finish { remove_part, result } ==> (result.status
                == JobStatus::Downloaded ==> job.state is Renaming && !remove_part)
        }),
{
}

/// What a job begins with. A run that was stopped begins none. The file is named by the
/// name of its own, else by the template, else by the URL; and its part file lies in the
/// output directory, under a name that depends on the URL alone.
pub proof fn law_job_begins(
    args: Args,
    stopped: bool,
    url: &str,
    index: u32,
    out: Option<String>,
    location: Result<Location, String>,
    r: Result<Job, JobResult>,
)
    requires
        call_ensures(Job::begin_at, (&args, stopped, url, index, out, location), r),
    ensures
        r is Ok <==> !stopped && location is Ok,
        r matches Err(result) ==> {
            &&& result.url@ == url@
            &&& result.status == JobStatus::Failed
            &&& result.file is None
            &&& result.bytes == 0
            &&& !result.not_found
            &&& stopped ==> result.detail@ == "run stopped (--max-file-not-found)"@
            &&& !stopped ==> result.detail@ == location->Err_0@
        },
        r matches Ok(job) ==> {
            &&& job.url@ == url@ && job.index == index && job.retries == args.retries
            &&& job.overwrite == args.overwrite && job.no_validate == args.no_validate
            &&& job.attempt == 0 && job.state is CreatingDir
            &&& job.output@ == args.output@ && job.host == location->Ok_0.host
            &&& job.part@ == joined(args.output@, part_name(text_hash(url@)))
            &&& out matches Some(name) ==> job.plan == NamePlan::Template(name)
            &&& out is None ==> (args.filename matches Some(t) ==> job.plan == NamePlan::Template(
                t,
            ))
            &&& out is None && args.filename is None ==> (location->Ok_0.basename matches Some(
                base,
            ) ==> job.plan == NamePlan::Fixed(base))
            &&& out is None && args.filename is None && location->Ok_0.basename is None
                ==> job.plan == NamePlan::Probe
        },
{
    if let Err(result) = r {
        assert(result@.status == JobStatus::Failed);
        assert(result@.file is None);
    }
}

/// A file is accepted with the format that is detected in its head. With validation on, a
/// file without a format is refused, and so is one that cannot be read; with validation
/// off, both are accepted without a format.
pub proof fn law_inspection_goes_by_detection(
    bytes: Vec<u8>,
    why: String,
    no_validate: bool,
    seen: Result<Option<Format>, String>,
    unseen: Result<Option<Format>, String>,
)
    requires
        call_ensures(inspect, (Ok::<Vec<u8>, String>(bytes), no_validate), seen),
        call_ensures(inspect, (Err::<Vec<u8>, String>(why), no_validate), unseen),
    ensures
        detected(bytes@) is Some ==> seen == Ok::<Option<Format>, String>(detected(bytes@)),
        detected(bytes@) is None && no_validate ==> seen == Ok::<Option<Format>, String>(None),
        detected(bytes@) is None && !no_validate ==> seen is Err,
        no_validate ==> unseen == Ok::<Option<Format>, String>(None),
        !no_validate ==> unseen is Err && unseen->Err_0@ == why@,
{
}

/// What the driver is to do is told as it is.
pub proof fn law_job_action_view(action: JobAction)
    ensures
        match action {
            JobAction::CreateDir => action@ is CreateDir,
            JobAction::CheckExists(path) => action@ == JobActionView::CheckExists(path@),
            JobAction::Attempt => action@ is Attempt,
            JobAction::Retry { remove_part, attempt, retry_after } => action@ == (
            JobActionView::Retry { remove_part, attempt, retry_after }),
            JobAction::ReadHead => action@ is ReadHead,
            JobAction::Rename(path) => action@ == JobActionView::Rename(path@),
            JobAction::Finish { remove_part, result } => action@ == (JobActionView::Finish {
                remove_part,
                result: result@,
            }),
        },
{
}

/// Each step of a job goes by its state and what is reported, and by nothing else.
pub proof fn law_step_goes_by_event(event: JobEvent, r: JobAction)
    ensures
        forall|job: &mut Job| #[trigger]
            call_ensures(Job::step, (job, event), r) ==> (*final(job), r@) == (*job).next(event),
{
}

/// Corrupt data never becomes a file: a job that takes in the head of a part file in which
/// no format is detected, with validation on, neither renames it nor looks for a place for
/// it, and has it removed.
pub proof fn law_step_refuses_corrupt_data(bytes: u64, head: Vec<u8>, r: JobAction)
    requires
        detected(head@) is None,
    ensures
        forall|job: &mut Job|
            (*job).state == (JobState::ReadingHead { bytes }) && !(*job).no_validate
                && #[trigger] call_ensures(Job::step, (job, JobEvent::Head(Ok(head))), r) ==> match r {
                JobAction::Retry { remove_part, attempt, retry_after } => remove_part && attempt
                    == (*job).attempt + 1,
                JobAction::Finish { remove_part, result } => remove_part && result.file is None
                    && result.status == JobStatus::Failed,
                _ => false,
            },
{
    assert forall|job: &mut Job|
        (*job).state == (JobState::ReadingHead { bytes }) && !(*job).no_validate
            && #[trigger] call_ensures(Job::step, (job, JobEvent::Head(Ok(head))), r) implies match r {
        JobAction::Retry { remove_part, attempt, retry_after } => remove_part && attempt
            == (*job).attempt + 1,
        JobAction::Finish { remove_part, result } => remove_part && result.file is None
            && result.status == JobStatus::Failed,
        _ => false,
    } by {
        law_job_action_view(r);
        if let JobAction::Finish { remove_part, result } = r {
            assert(result@.status == JobStatus::Failed && result@.file is None);
        }
    }
}

} // verus!
