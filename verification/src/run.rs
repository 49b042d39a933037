//! The run as a whole: how its jobs are numbered and limited, what is counted and
//! logged of their results, and when it stops.

use vstd::prelude::*;

use crate::download::{JobResult, JobResultView, JobStatus};
use crate::numbers::{decimal, push_decimal};
use crate::segments::more;

verus! {

// ---------------------------------------------------------------------------
// Connections
// ---------------------------------------------------------------------------

/// A number, but at least one.
pub open spec fn at_least_one(n: usize) -> int {
    if n == 0 {
        1
    } else {
        n as int
    }
}

/// Into how many segments a file may be cut so that all files together keep within
/// a cap on connections. A cap of 0 is none.
pub open spec fn capped(concurrency: usize, split: usize, cap: usize) -> int {
    let fair = cap as int / at_least_one(concurrency);
    let reduced = if fair == 0 {
        1
    } else {
        fair
    };
    if cap > 0 && at_least_one(concurrency) * at_least_one(split) > cap && reduced < split {
        reduced
    } else {
        split as int
    }
}

/// Guard: cap concurrency x split at --max-total-connections.
pub fn cap_split(concurrency: usize, split: usize, cap: usize) -> (r: usize)
    ensures
        r == capped(concurrency, split, cap),
{
    if cap == 0 {
        return split;
    }
    let files: usize = if concurrency == 0 {
        1
    } else {
        concurrency
    };
    let each: usize = if split == 0 {
        1
    } else {
        split
    };
    let within = match files.checked_mul(each) {
        Some(product) => product <= cap,
        None => false,
    };
    if within {
        return split;
    }
    let fair: usize = cap / files;
    let reduced: usize = if fair == 0 {
        1
    } else {
        fair
    };
    if reduced < split {
        reduced
    } else {
        split
    }
}

/// How many files may be downloaded at once so that one connection for each keeps
/// within a cap. A cap of 0 is none.
pub open spec fn capped_files(concurrency: usize, cap: usize) -> usize {
    if cap > 0 && concurrency > cap {
        cap
    } else {
        concurrency
    }
}

/// Guard: cap concurrency at --max-total-connections.
pub fn cap_concurrency(concurrency: usize, cap: usize) -> (r: usize)
    ensures
        r == capped_files(concurrency, cap),
{
    if cap > 0 && concurrency > cap {
        cap
    } else {
        concurrency
    }
}

/// The connections of all files together keep within the cap, and neither number is
/// raised.
pub proof fn law_connections_are_capped(concurrency: usize, split: usize, cap: usize)
    requires
        cap > 0,
    ensures
        ({
            let files = capped_files(concurrency, cap);
            &&& files <= concurrency
            &&& 0 <= capped(files, split, cap) <= split
            &&& at_least_one(files) * at_least_one(capped(files, split, cap) as usize) <= cap
        }),
{
    let files = at_least_one(capped_files(concurrency, cap));
    let fair = cap as int / files;
    assert(fair >= 1 && files * fair <= cap) by (nonlinear_arith)
        requires
            1 <= files <= cap,
            fair == cap as int / files,
    ;
    let each = at_least_one(split);
    if files * each > cap && fair >= split {
        assert(files * each <= files * fair) by (nonlinear_arith)
            requires
                1 <= files,
                each <= fair,
        ;
    }
}

// ---------------------------------------------------------------------------
// Numbering
// ---------------------------------------------------------------------------

/// The index of a job: its place among the inputs, counted from the starting
/// index. `None` where there are more inputs than indices.
pub fn job_index(place: usize, start_index: u32) -> (r: Option<u32>)
    ensures
        place + start_index <= u32::MAX ==> r == Some((place + start_index) as u32),
        place + start_index > u32::MAX ==> r is None,
{
    if place > u32::MAX as usize {
        return None;
    }
    (place as u32).checked_add(start_index)
}

// ---------------------------------------------------------------------------
// Spacing
// ---------------------------------------------------------------------------

/// Keeps a minimum delay between the starts of requests. Moments are nanoseconds
/// from a fixed one.
#[derive(Debug, Clone, Copy)]
pub struct Pacer {
    delay: u128,
    last: Option<u128>,
}

impl Pacer {
    /// The delay, in nanoseconds.
    pub closed spec fn delay(self) -> int {
        self.delay as int
    }

    /// When the last request started.
    pub closed spec fn last(self) -> Option<u128> {
        self.last
    }

    /// How long a request has to wait that wants to start now.
    pub open spec fn wait_at(self, now: u128) -> int {
        match self.last() {
            Some(last) if last + self.delay() > now => last + self.delay() - now,
            _ => 0,
        }
    }

    /// Before the first request.
    pub fn new(delay_ms: u64) -> (r: Pacer)
        ensures
            r.delay() == delay_ms * 1_000_000,
            r.last() is None,
    {
        Pacer { delay: delay_ms as u128 * 1_000_000, last: None }
    }

    /// How many nanoseconds a request has to wait that wants to start now, as far as
    /// they can be counted.
    pub fn wait(&self, now: u128) -> (r: u128)
        ensures
            r == if self.wait_at(now) <= u128::MAX {
                self.wait_at(now)
            } else {
                u128::MAX as int
            },
    {
        match self.last {
            Some(last) => {
                if last >= now {
                    (last - now).saturating_add(self.delay)
                } else if self.delay > now - last {
                    self.delay - (now - last)
                } else {
                    0
                }
            },
            None => 0,
        }
    }

    /// A request has started.
    pub fn started(&mut self, at: u128)
        ensures
            final(self).delay() == old(self).delay(),
            final(self).last() == Some(at),
    {
        self.last = Some(at);
    }
}

/// A request that waits as long as it has to starts no sooner after the last one
/// than the delay.
pub proof fn law_starts_are_spaced(pacer: Pacer, now: u128, start: u128)
    requires
        start >= now + pacer.wait_at(now),
    ensures
        pacer.last() matches Some(last) ==> start >= last + pacer.delay(),
{
}

// ---------------------------------------------------------------------------
// Counting
// ---------------------------------------------------------------------------

/// What is counted of a run. The counts stop at what their types hold.
#[derive(Debug, Clone, Copy)]
pub struct Tally {
    /// After how many consecutive 404s the run stops, 0 for never.
    pub max_file_not_found: u32,
    pub done: u64,
    pub skipped: u64,
    pub failed: u64,
    pub total_bytes: u64,
    pub consecutive_404: u32,
    /// Whether the run is to stop.
    pub stopped: bool,
}

/// A number and one more, as far as 32 bits go.
pub open spec fn one_more(n: u32) -> u32 {
    if n < u32::MAX {
        (n + 1) as u32
    } else {
        n
    }
}

impl Tally {
    /// What is counted after a result.
    pub open spec fn with(self, result: JobResultView) -> Tally {
        let missing = if result.not_found {
            one_more(self.consecutive_404)
        } else {
            0
        };
        Tally {
            max_file_not_found: self.max_file_not_found,
            done: if result.status == JobStatus::Downloaded {
                more(self.done, 1)
            } else {
                self.done
            },
            skipped: if result.status == JobStatus::Skipped {
                more(self.skipped, 1)
            } else {
                self.skipped
            },
            failed: if result.status == JobStatus::Failed {
                more(self.failed, 1)
            } else {
                self.failed
            },
            total_bytes: if result.status == JobStatus::Downloaded {
                more(self.total_bytes, result.bytes)
            } else {
                self.total_bytes
            },
            consecutive_404: missing,
            stopped: self.stopped || (result.not_found && self.max_file_not_found > 0 && missing
                >= self.max_file_not_found),
        }
    }

    /// What is counted before the first result.
    pub open spec fn fresh(max_file_not_found: u32) -> Tally {
        Tally {
            max_file_not_found,
            done: 0,
            skipped: 0,
            failed: 0,
            total_bytes: 0,
            consecutive_404: 0,
            stopped: false,
        }
    }

    /// Begin to count.
    pub fn new(max_file_not_found: u32) -> (r: Tally)
        ensures
            r == Tally::fresh(max_file_not_found),
    {
        Tally {
            max_file_not_found,
            done: 0,
            skipped: 0,
            failed: 0,
            total_bytes: 0,
            consecutive_404: 0,
            stopped: false,
        }
    }

    /// Count a result.
    pub fn record(&mut self, result: &JobResult)
        ensures
            *final(self) == old(self).with(result@),
    {
        // --max-file-not-found: stop after N consecutive 404s.
        if result.not_found {
            self.consecutive_404 = self.consecutive_404.saturating_add(1);
            if self.max_file_not_found > 0 && self.consecutive_404 >= self.max_file_not_found {
                self.stopped = true;
            }
        } else {
            self.consecutive_404 = 0;
        }
        match result.status {
            JobStatus::Downloaded => {
                self.done = self.done.saturating_add(1);
                self.total_bytes = self.total_bytes.saturating_add(result.bytes);
            },
            JobStatus::Skipped => {
                self.skipped = self.skipped.saturating_add(1);
            },
            JobStatus::Failed => {
                self.failed = self.failed.saturating_add(1);
            },
        }
    }

    /// Whether the run is to stop early.
    pub fn should_stop(&self) -> (r: bool)
        ensures
            r == self.stopped,
    {
        self.stopped
    }

    /// `0` = everything downloaded or skipped; `1` = at least one URL failed.
    pub fn exit_code(&self) -> (r: i32)
        ensures
            r == if self.failed > 0 {
                1i32
            } else {
                0i32
            },
    {
        if self.failed > 0 {
            1
        } else {
            0
        }
    }
}

/// What is counted after results.
pub open spec fn tallied(start: Tally, results: Seq<JobResultView>) -> Tally
    decreases results.len(),
{
    if results.len() == 0 {
        start
    } else {
        tallied(start, results.drop_last()).with(results.last())
    }
}

/// How many results are of a kind.
pub open spec fn count_of(results: Seq<JobResultView>, status: JobStatus) -> nat
    decreases results.len(),
{
    if results.len() == 0 {
        0
    } else {
        count_of(results.drop_last(), status) + if results.last().status == status {
            1nat
        } else {
            0nat
        }
    }
}

/// How many bytes were downloaded.
pub open spec fn bytes_of(results: Seq<JobResultView>) -> nat
    decreases results.len(),
{
    if results.len() == 0 {
        0
    } else {
        bytes_of(results.drop_last()) + if results.last().status == JobStatus::Downloaded {
            results.last().bytes as nat
        } else {
            0nat
        }
    }
}

/// How many results at the end are of files that were not found.
pub open spec fn trailing_404(results: Seq<JobResultView>) -> nat
    decreases results.len(),
{
    if results.len() == 0 || !results.last().not_found {
        0
    } else {
        1 + trailing_404(results.drop_last())
    }
}

/// Every result is counted, once, by its status, and so are its bytes.
pub proof fn law_results_are_counted(max_file_not_found: u32, results: Seq<JobResultView>)
    requires
        results.len() <= u64::MAX,
        bytes_of(results) <= u64::MAX,
    ensures
        ({
            let t = tallied(Tally::fresh(max_file_not_found), results);
            &&& t.done == count_of(results, JobStatus::Downloaded)
            &&& t.skipped == count_of(results, JobStatus::Skipped)
            &&& t.failed == count_of(results, JobStatus::Failed)
            &&& t.done + t.skipped + t.failed == results.len()
            &&& t.total_bytes == bytes_of(results)
        }),
    decreases results.len(),
{
    if results.len() > 0 {
        law_results_are_counted(max_file_not_found, results.drop_last());
    }
}

/// The run has failed if and only if one of its URLs has.
pub proof fn law_one_failure_fails_run(max_file_not_found: u32, results: Seq<JobResultView>)
    ensures
        tallied(Tally::fresh(max_file_not_found), results).failed > 0 <==> exists|i: int|
            0 <= i < results.len() && (#[trigger] results[i]).status == JobStatus::Failed,
    decreases results.len(),
{
    if results.len() > 0 {
        let before = results.drop_last();
        law_one_failure_fails_run(max_file_not_found, before);
        let t = tallied(Tally::fresh(max_file_not_found), before);
        if t.failed > 0 {
            let i = choose|i: int|
                0 <= i < before.len() && (#[trigger] before[i]).status == JobStatus::Failed;
            assert(results[i].status == JobStatus::Failed);
        }
        if results.last().status == JobStatus::Failed {
            assert(results[results.len() - 1].status == JobStatus::Failed);
        }
        if exists|i: int|
            0 <= i < results.len() && (#[trigger] results[i]).status == JobStatus::Failed {
            let i = choose|i: int|
                0 <= i < results.len() && (#[trigger] results[i]).status == JobStatus::Failed;
            if i < before.len() {
                assert(before[i].status == JobStatus::Failed);
            }
        }
    }
}

/// A run stops if and only if, at some point, as many consecutive results were not
/// found as it is to put up with.
pub proof fn law_stops_after_consecutive_404s(max: u32, results: Seq<JobResultView>)
    ensures
        tallied(Tally::fresh(max), results).stopped <==> max > 0 && exists|k: int|
            0 <= k <= results.len() && trailing_404(#[trigger] results.take(k)) >= max,
{
    lemma_404s(max, results);
}

/// The 404s at the end are counted, and a run that has stopped remains so.
proof fn lemma_404s(max: u32, results: Seq<JobResultView>)
    ensures
        ({
            let t = tallied(Tally::fresh(max), results);
            &&& t.max_file_not_found == max
            &&& t.consecutive_404 == if trailing_404(results) < u32::MAX {
                trailing_404(results)
            } else {
                u32::MAX as nat
            }
            &&& t.stopped <==> max > 0 && exists|k: int|
                0 <= k <= results.len() && trailing_404(#[trigger] results.take(k)) >= max
        }),
    decreases results.len(),
{
    let len = results.len() as int;
    assert(results.take(len) =~= results);
    if len == 0 {
        assert forall|k: int| 0 <= k <= len implies trailing_404(#[trigger] results.take(k)) == 0 by {
            assert(results.take(k) =~= results);
        }
    } else {
        let before = results.drop_last();
        lemma_404s(max, before);
        assert forall|k: int| 0 <= k < len implies #[trigger] before.take(k) == results.take(
            k,
        ) by {
            assert(before.take(k) =~= results.take(k));
        }
        if tallied(Tally::fresh(max), before).stopped {
            let k = choose|k: int|
                0 <= k <= before.len() && trailing_404(#[trigger] before.take(k)) >= max;
            assert(trailing_404(results.take(k)) >= max);
        }
        if max > 0 && exists|k: int|
            0 <= k <= len && trailing_404(#[trigger] results.take(k)) >= max {
            let k = choose|k: int|
                0 <= k <= len && trailing_404(#[trigger] results.take(k)) >= max;
            if k < len {
                assert(trailing_404(before.take(k)) >= max);
            }
        }
    }
}

// ---------------------------------------------------------------------------
// The log
// ---------------------------------------------------------------------------

/// The word for a status in the log.
pub open spec fn status_word(status: JobStatus) -> Seq<char> {
    match status {
        JobStatus::Downloaded => "OK"@,
        JobStatus::Skipped => "SKIP"@,
        JobStatus::Failed => "FAIL"@,
    }
}

/// The line of the log for a result: when, how, which file, how large, and which
/// URL.
pub open spec fn logged(timestamp: Seq<char>, result: JobResultView) -> Seq<char> {
    timestamp + " "@ + status_word(result.status) + " "@ + match result.file {
        Some(path) => path,
        None => Seq::empty(),
    } + " "@ + decimal(result.bytes as nat) + " "@ + result.url
}

/// The line of the run log for a result (machine-readable).
pub fn log_line(timestamp: &str, result: &JobResult) -> (r: String)
    ensures
        r@ == logged(timestamp@, result@),
{
    let mut r = timestamp.to_string();
    r.append(" ");
    match result.status {
        JobStatus::Downloaded => r.append("OK"),
        JobStatus::Skipped => r.append("SKIP"),
        JobStatus::Failed => r.append("FAIL"),
    }
    r.append(" ");
    if let Some(path) = &result.file {
        r.append(path.as_str());
    }
    r.append(" ");
    push_decimal(&mut r, result.bytes);
    r.append(" ");
    r.append(result.url.as_str());
    assert(r@ =~= logged(timestamp@, result@));
    r
}

// ---------------------------------------------------------------------------
// Laws of a run
// ---------------------------------------------------------------------------

/// Splitting is reduced only where files and segments together would exceed the cap, and
/// no more than needed: with one segment more for each file they would.
pub proof fn law_split_is_reduced_only_as_needed(concurrency: usize, split: usize, cap: usize)
    requires
        concurrency >= 1,
        split >= 1,
    ensures
        cap == 0 || concurrency * split <= cap ==> capped(concurrency, split, cap) == split,
        cap > 0 && concurrency * split > cap ==> {
            &&& 1 <= capped(concurrency, split, cap) <= split
            &&& concurrency * (capped(concurrency, split, cap) + 1) > cap
            &&& concurrency <= cap ==> concurrency * capped(concurrency, split, cap) <= cap
            &&& concurrency > cap ==> capped(concurrency, split, cap) == 1
        },
{
    let files = concurrency as int;
    let each = split as int;
    if cap > 0 {
        let fair = cap as int / files;
        assert(files * fair <= cap < files * (fair + 1) && fair >= 0) by (nonlinear_arith)
            requires
                files >= 1,
                cap >= 0,
                fair == cap as int / files,
        ;
        if files > cap {
            assert(fair == 0) by (nonlinear_arith)
                requires
                    files * fair <= cap,
                    files > cap,
                    fair >= 0,
                    files >= 1,
            ;
            assert(files * 2 > cap);
        } else {
            assert(fair >= 1) by (nonlinear_arith)
                requires
                    cap < files * (fair + 1),
                    files <= cap,
                    files >= 1,
                    fair >= 0,
            ;
            if files * each > cap && fair >= each {
                assert(files * each <= files * fair) by (nonlinear_arith)
                    requires
                        each <= fair,
                        files >= 1,
                ;
            }
        }
        assert(files * (1 + 1) == files * 2);
    }
}

/// No more files are downloaded at once than were asked for and the cap allows, and no
/// fewer.
pub proof fn law_files_are_capped(concurrency: usize, cap: usize)
    ensures
        cap == 0 ==> capped_files(concurrency, cap) == concurrency,
        cap > 0 && concurrency <= cap ==> capped_files(concurrency, cap) == concurrency,
        cap > 0 && concurrency > cap ==> capped_files(concurrency, cap) == cap,
{
}

/// A request waits no longer than it has to: not at all where there was none before it, or
/// where the delay has passed; otherwise exactly until then.
pub proof fn law_wait_is_no_longer_than_needed(pacer: Pacer, now: u128)
    ensures
        pacer.last() is None ==> pacer.wait_at(now) == 0,
        pacer.last() matches Some(last) ==> (now >= last + pacer.delay() ==> pacer.wait_at(now)
            == 0),
        pacer.last() matches Some(last) ==> (now < last + pacer.delay() ==> now + pacer.wait_at(now)
            == last + pacer.delay()),
{
}

/// What one result does to the counts. It is counted once, by its status. Only a download
/// counts with its bytes. A file that was not found adds to those in a row, and any other
/// result ends the row. The run stops once the row is as long as it may be, and goes on
/// where no limit is set.
pub proof fn law_result_is_counted(tally: Tally, result: JobResultView)
    requires
        tally.done < u64::MAX && tally.skipped < u64::MAX && tally.failed < u64::MAX,
        tally.total_bytes + result.bytes <= u64::MAX,
        tally.consecutive_404 < u32::MAX,
    ensures
        ({
            let after = tally.with(result);
            &&& after.max_file_not_found == tally.max_file_not_found
            &&& result.status == JobStatus::Downloaded ==> after.done == tally.done + 1
                && after.skipped == tally.skipped && after.failed == tally.failed
                && after.total_bytes == tally.total_bytes + result.bytes
            &&& result.status == JobStatus::Skipped ==> after.done == tally.done && after.skipped
                == tally.skipped + 1 && after.failed == tally.failed && after.total_bytes
                == tally.total_bytes
            &&& result.status == JobStatus::Failed ==> after.done == tally.done && after.skipped
                == tally.skipped && after.failed == tally.failed + 1 && after.total_bytes
                == tally.total_bytes
            &&& result.not_found ==> after.consecutive_404 == tally.consecutive_404 + 1
            &&& !result.not_found ==> after.consecutive_404 == 0
            &&& after.stopped <==> tally.stopped || (result.not_found && tally.max_file_not_found
                > 0 && tally.consecutive_404 + 1 >= tally.max_file_not_found)
        }),
{
}

/// A line of the log holds the moment, a word for the status, the path of the file where
/// there is one, the bytes and the URL, with a blank between any two.
pub proof fn law_log_line_tells_result(timestamp: Seq<char>, result: JobResultView)
    ensures
        ({
            let line = logged(timestamp, result);
            let bytes = decimal(result.bytes as nat);
            let path = match result.file {
                Some(path) => path,
                None => Seq::empty(),
            };
            let tail = path + " "@ + bytes + " "@ + result.url;
            &&& result.status == JobStatus::Downloaded ==> line == timestamp + " OK "@ + tail
            &&& result.status == JobStatus::Skipped ==> line == timestamp + " SKIP "@ + tail
            &&& result.status == JobStatus::Failed ==> line == timestamp + " FAIL "@ + tail
        }),
{
    reveal_strlit(" ");
    reveal_strlit("OK");
    reveal_strlit("SKIP");
    reveal_strlit("FAIL");
    reveal_strlit(" OK ");
    reveal_strlit(" SKIP ");
    reveal_strlit(" FAIL ");
    assert(" "@ + "OK"@ + " "@ =~= " OK "@);
    assert(" "@ + "SKIP"@ + " "@ =~= " SKIP "@);
    assert(" "@ + "FAIL"@ + " "@ =~= " FAIL "@);
    let path = match result.file {
        Some(path) => path,
        None => Seq::empty(),
    };
    let tail = path + " "@ + decimal(result.bytes as nat) + " "@ + result.url;
    assert(logged(timestamp, result) =~= timestamp + (" "@ + status_word(result.status) + " "@)
        + tail);
}

/// What became of a job is told as it is.
pub proof fn law_job_result_view(result: JobResult)
    ensures
        result@.url == result.url@,
        result@.bytes == result.bytes,
        result@.status == result.status,
        result@.detail == result.detail@,
        result@.not_found == result.not_found,
        result.file is None <==> result@.file is None,
        result.file matches Some(path) ==> result@.file == Some(path@),
{
}

/// No file at once counts as one, and no splitting stays none.
pub proof fn law_zero_counts_as_one(concurrency: usize, split: usize, cap: usize)
    ensures
        capped(0, split, cap) == capped(1, split, cap),
        capped(concurrency, 0, cap) == 0,
{
    let files = at_least_one(concurrency);
    let fair = cap as int / files;
    assert(fair >= 0) by (nonlinear_arith)
        requires
            files >= 1,
            cap >= 0,
            fair == cap as int / files,
    ;
}

/// With both caps applied, the connections of all files together keep within the cap. What
/// keeps within it by itself stays as it is, files give way only where they alone are too
/// many, and segments only as far as needed.
pub proof fn law_caps_hold_together(
    concurrency: usize,
    split: usize,
    cap: usize,
    files: usize,
    each: usize,
)
    requires
        concurrency >= 1,
        split >= 1,
        cap >= 1,
        call_ensures(cap_concurrency, (concurrency, cap), files),
        call_ensures(cap_split, (files, split, cap), each),
    ensures
        1 <= files <= concurrency,
        1 <= each <= split,
        files * each <= cap,
        concurrency * split <= cap ==> files == concurrency && each == split,
        concurrency <= cap ==> files == concurrency,
        each < split ==> files * (each + 1) > cap,
{
    law_files_are_capped(concurrency, cap);
    law_split_is_reduced_only_as_needed(files, split, cap);
    if concurrency * split <= cap {
        assert(concurrency <= cap) by (nonlinear_arith)
            requires
                concurrency * split <= cap,
                split >= 1,
                concurrency >= 0,
        ;
    }
}

/// Jobs are numbered one after the other, from the starting index on.
pub proof fn law_jobs_are_numbered(
    place: usize,
    start_index: u32,
    first: Option<u32>,
    here: Option<u32>,
)
    requires
        call_ensures(job_index, (0usize, start_index), first),
        call_ensures(job_index, (place, start_index), here),
    ensures
        first == Some(start_index),
        here matches Some(n) ==> n == start_index + place,
        here is None <==> start_index + place > u32::MAX,
{
}

/// A run begins with nothing counted, and ends with 0 if and only if nothing has failed,
/// else with 1.
pub proof fn law_exit_code_tells_failure(
    tally: Tally,
    code: i32,
    stop: bool,
    max: u32,
    fresh: Tally,
)
    requires
        call_ensures(Tally::exit_code, (&tally,), code),
        call_ensures(Tally::should_stop, (&tally,), stop),
        call_ensures(Tally::new, (max,), fresh),
    ensures
        code == 0 <==> tally.failed == 0,
        code == 1 <==> tally.failed > 0,
        stop == tally.stopped,
        fresh.done == 0 && fresh.skipped == 0 && fresh.failed == 0 && fresh.total_bytes == 0,
        fresh.consecutive_404 == 0 && !fresh.stopped && fresh.max_file_not_found == max,
{
}

/// The first request need not wait, and one that follows waits for what is left of the
/// delay.
pub proof fn law_pacer_keeps_delay(
    delay_ms: u64,
    fresh: Pacer,
    pacer: Pacer,
    now: u128,
    first: u128,
    wait: u128,
)
    requires
        call_ensures(Pacer::new, (delay_ms,), fresh),
        call_ensures(Pacer::wait, (&fresh, now), first),
        call_ensures(Pacer::wait, (&pacer, now), wait),
        pacer.delay() == fresh.delay(),
    ensures
        first == 0,
        pacer.last() matches Some(last) ==> (last <= now ==> wait == if now - last < delay_ms
            * 1_000_000 {
            delay_ms * 1_000_000 - (now - last)
        } else {
            0
        }),
{
}

/// A result is recorded as it is counted.
pub proof fn law_record_counts_result(result: JobResult)
    ensures
        forall|tally: &mut Tally| #[trigger]
            call_ensures(Tally::record, (tally, &result), ()) ==> *final(tally) == (*tally).with(
                result@,
            ),
        forall|tally: &mut Tally|
            #[trigger] call_ensures(Tally::record, (tally, &result), ()) && (*tally).failed
                < u64::MAX ==> ((*final(tally)).failed > (*tally).failed <==> result.status
                == JobStatus::Failed),
{
}

} // verus!
