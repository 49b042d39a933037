use pixpull::download::{JobResult, JobStatus};
use pixpull::run::{cap_concurrency, cap_split, job_index, log_line, Pacer, Tally};

fn result(status: JobStatus, bytes: u64, not_found: bool) -> JobResult {
    JobResult {
        url: "https://a.example/1.jpg".to_string(),
        file: if status == JobStatus::Failed { None } else { Some("pics/1.jpg".to_string()) },
        bytes,
        status,
        detail: String::new(),
        not_found,
    }
}

#[test]
fn connections_are_capped() {
    assert_eq!(cap_split(4, 16, 0), 16);
    assert_eq!(cap_split(4, 16, 64), 16);
    assert_eq!(cap_split(4, 16, 63), 15);
    assert_eq!(cap_split(8, 16, 32), 4);
    assert_eq!(cap_split(0, 16, 8), 8);
    assert_eq!(cap_split(100, 16, 10), 1);
    assert_eq!(cap_split(100, 0, 10), 0);
    assert_eq!(cap_split(usize::MAX, usize::MAX, 10), 1);
    assert_eq!(cap_concurrency(100, 10), 10);
    assert_eq!(cap_concurrency(100, 0), 100);
    for concurrency in 1..70 {
        for split in 1..40 {
            for cap in 1..60 {
                let files = cap_concurrency(concurrency, cap);
                let each = cap_split(files, split, cap);
                assert!(files * each <= cap && files <= concurrency && each <= split);
            }
        }
    }
}

#[test]
fn jobs_are_numbered() {
    assert_eq!(job_index(0, 1), Some(1));
    assert_eq!(job_index(9, 100), Some(109));
    assert_eq!(job_index(1, u32::MAX), None);
    assert_eq!(job_index(usize::MAX, 0), None);
}

#[test]
fn starts_are_spaced() {
    let mut pacer = Pacer::new(250);
    assert_eq!(pacer.wait(5), 0);
    pacer.started(1_000);
    assert_eq!(pacer.wait(1_000), 250_000_000);
    assert_eq!(pacer.wait(500), 250_000_500);
    assert_eq!(pacer.wait(250_000_999), 1);
    assert_eq!(pacer.wait(250_001_000), 0);
}

#[test]
fn results_are_counted() {
    let mut t = Tally::new(0);
    t.record(&result(JobStatus::Downloaded, 10, false));
    t.record(&result(JobStatus::Skipped, 99, false));
    t.record(&result(JobStatus::Downloaded, 5, false));
    assert_eq!(t.exit_code(), 0);
    t.record(&result(JobStatus::Failed, 7, true));
    assert_eq!((t.done, t.skipped, t.failed, t.total_bytes), (2, 1, 1, 15));
    assert_eq!(t.exit_code(), 1);
    assert!(!t.should_stop());
}

#[test]
fn run_stops_after_consecutive_404s() {
    let mut t = Tally::new(2);
    t.record(&result(JobStatus::Failed, 0, true));
    t.record(&result(JobStatus::Failed, 0, false));
    t.record(&result(JobStatus::Failed, 0, true));
    assert!(!t.should_stop());
    t.record(&result(JobStatus::Failed, 0, true));
    assert!(t.should_stop());
    assert_eq!(t.consecutive_404, 2);
    t.record(&result(JobStatus::Downloaded, 1, false));
    assert!(t.should_stop());
}

#[test]
fn results_are_logged() {
    assert_eq!(
        log_line("2026-08-19T23:00:00", &result(JobStatus::Downloaded, 12, false)),
        "2026-08-19T23:00:00 OK pics/1.jpg 12 https://a.example/1.jpg"
    );
    assert_eq!(
        log_line("t", &result(JobStatus::Skipped, 0, false)),
        "t SKIP pics/1.jpg 0 https://a.example/1.jpg"
    );
    assert_eq!(
        log_line("t", &result(JobStatus::Failed, 0, false)),
        "t FAIL  0 https://a.example/1.jpg"
    );
}
