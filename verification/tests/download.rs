use pixpull::address::{part_file_for, Location};
use pixpull::args::Args;
use pixpull::download::{inspect, Job, JobAction, JobEvent, JobResult, JobStatus};
use pixpull::failure::{Failure, InternalFailure};
use pixpull::fetch::Attempt;
use pixpull::validate::Format;

const URL: &str = "https://cdn.example/img/photo.gif";
const PNG: &[u8] = b"\x89PNG\r\n\x1a\n\x00\x00\x00";

fn args() -> Args {
    let mut args = Args::default();
    args.output = "pics".to_string();
    args.retries = 2;
    args
}

fn begun(args: &Args) -> Job {
    Job::begin(args, false, URL, 7, None).unwrap()
}

/// A job that has been asked for its first attempt.
fn attempting(args: &Args) -> Job {
    let mut job = begun(args);
    let mut action = job.step(JobEvent::DirCreated(Ok(())));
    if let JobAction::CheckExists(_) = action {
        action = job.step(JobEvent::Exists(false));
    }
    assert!(matches!(action, JobAction::Attempt));
    job
}

fn finished(action: JobAction) -> (bool, JobResult) {
    match action {
        JobAction::Finish { remove_part, result } => (remove_part, result),
        other => panic!("{:?}", other),
    }
}

#[test]
fn job_knows_where_its_files_go() {
    let job = begun(&args());
    assert_eq!(job.host, "cdn.example");
    assert_eq!(job.part, format!("pics/{}", part_file_for(URL)));
    assert_eq!(job.plan.known_name().as_deref(), Some("photo.gif"));
}

#[test]
fn jobs_that_cannot_begin_fail() {
    let r = Job::begin(&args(), true, URL, 1, None).unwrap_err();
    assert_eq!(r.detail, "run stopped (--max-file-not-found)");
    assert_eq!(r.status, JobStatus::Failed);
    assert_eq!(r.url, URL);
    assert!(!r.not_found && r.file.is_none() && r.bytes == 0);
    let r = Job::begin(&args(), false, "mailto:a@b.example", 1, None).unwrap_err();
    assert_eq!(r.detail, "URL has no host");
    let r = Job::begin(&args(), false, "nope", 1, None).unwrap_err();
    assert_eq!(r.detail, "invalid URL: relative URL without a base");
    let r = Job::begin_at(&args(), false, URL, 1, None, Err("odd".to_string())).unwrap_err();
    assert_eq!(r.detail, "odd");
    let mut job = begun(&args());
    let (_, r) = finished(job.step(JobEvent::DirCreated(Err("denied".to_string()))));
    assert_eq!(r.detail, "cannot create output dir: denied");
}

#[test]
fn downloaded_file_gets_its_extension() {
    let mut job = attempting(&args());
    assert!(matches!(job.step(JobEvent::Attempted(Attempt::Done(11))), JobAction::ReadHead));
    match job.step(JobEvent::Head(Ok(PNG.to_vec()))) {
        JobAction::CheckExists(path) => assert_eq!(path, "pics/photo.png"),
        other => panic!("{:?}", other),
    }
    match job.step(JobEvent::Exists(false)) {
        JobAction::Rename(path) => assert_eq!(path, "pics/photo.png"),
        other => panic!("{:?}", other),
    }
    let (remove, r) = finished(job.step(JobEvent::Renamed(Ok(()))));
    assert!(!remove);
    assert_eq!(r.status, JobStatus::Downloaded);
    assert_eq!(r.file.as_deref(), Some("pics/photo.png"));
    assert_eq!(r.bytes, 11);
    assert_eq!(r.detail, "");
}

#[test]
fn known_file_is_skipped_without_a_request() {
    let mut job = begun(&args());
    match job.step(JobEvent::DirCreated(Ok(()))) {
        JobAction::CheckExists(path) => assert_eq!(path, "pics/photo.gif"),
        other => panic!("{:?}", other),
    }
    let (remove, r) = finished(job.step(JobEvent::Exists(true)));
    assert!(remove);
    assert_eq!(r.status, JobStatus::Skipped);
    assert_eq!(r.detail, "already exists");
    assert_eq!(r.file.as_deref(), Some("pics/photo.gif"));
    let mut job = Job::begin(&args(), false, URL, 7, Some("img_0001.jpg".to_string())).unwrap();
    match job.step(JobEvent::DirCreated(Ok(()))) {
        JobAction::CheckExists(path) => assert_eq!(path, "pics/img_0001.jpg"),
        other => panic!("{:?}", other),
    }
}

#[test]
fn existing_target_is_not_clobbered() {
    let mut job = attempting(&args());
    job.step(JobEvent::Attempted(Attempt::Done(11)));
    job.step(JobEvent::Head(Ok(PNG.to_vec())));
    let (remove, r) = finished(job.step(JobEvent::Exists(true)));
    assert!(remove);
    assert_eq!(r.status, JobStatus::Skipped);
    assert_eq!(r.detail, "target already exists");
    assert_eq!(r.bytes, 11);
}

#[test]
fn overwriting_asks_nothing() {
    let mut a = args();
    a.overwrite = true;
    let mut job = begun(&a);
    assert!(matches!(job.step(JobEvent::DirCreated(Ok(()))), JobAction::Attempt));
    job.step(JobEvent::Attempted(Attempt::Done(11)));
    match job.step(JobEvent::Head(Ok(PNG.to_vec()))) {
        JobAction::Rename(path) => assert_eq!(path, "pics/photo.png"),
        other => panic!("{:?}", other),
    }
    let (remove, r) = finished(job.step(JobEvent::Renamed(Err("denied".to_string()))));
    assert!(!remove);
    assert_eq!(r.detail, "rename to final name failed: denied");
    assert_eq!(r.bytes, 11);
}

#[test]
fn corrupt_file_is_redownloaded() {
    let mut job = attempting(&args());
    for attempt in 1..=2 {
        job.step(JobEvent::Attempted(Attempt::Done(4)));
        match job.step(JobEvent::Head(Ok(b"junk".to_vec()))) {
            JobAction::Retry { remove_part: true, attempt: n, retry_after: None } => {
                assert_eq!(n, attempt)
            }
            other => panic!("{:?}", other),
        }
    }
    job.step(JobEvent::Attempted(Attempt::Done(4)));
    let (remove, r) = finished(job.step(JobEvent::Head(Ok(b"junk".to_vec()))));
    assert!(remove && r.file.is_none());
    assert_eq!(r.status, JobStatus::Failed);
    assert!(r.detail.starts_with("validation failed: "), "{}", r.detail);
    assert_eq!(r.bytes, 4);
    let mut job = attempting(&args());
    job.retries = 0;
    job.step(JobEvent::Attempted(Attempt::Done(4)));
    let (_, r) = finished(job.step(JobEvent::Head(Err("read failed: e".to_string()))));
    assert_eq!(r.detail, "validation failed: read failed: e");
}

#[test]
fn validation_can_be_switched_off() {
    let mut a = args();
    a.no_validate = true;
    let mut job = attempting(&a);
    job.step(JobEvent::Attempted(Attempt::Done(4)));
    match job.step(JobEvent::Head(Ok(b"junk".to_vec()))) {
        JobAction::CheckExists(path) => assert_eq!(path, "pics/photo.gif"),
        other => panic!("{:?}", other),
    }
    assert_eq!(inspect(Ok(PNG.to_vec()), true).unwrap(), Some(Format::Png));
    assert_eq!(inspect(Err("e".to_string()), true).unwrap(), None);
    assert_eq!(inspect(Err("e".to_string()), false).unwrap_err(), "e");
}

fn retry(keep_part: bool, not_found: bool) -> JobEvent {
    JobEvent::Attempted(Attempt::Retry {
        failure: Failure::Http(if not_found { 404 } else { 503 }),
        keep_part,
        retry_after: Some(30),
        not_found,
    })
}

#[test]
fn attempts_are_limited() {
    let mut job = attempting(&args());
    for attempt in 1..=2 {
        match job.step(retry(true, false)) {
            JobAction::Retry { remove_part: false, attempt: n, retry_after: Some(30) } => {
                assert_eq!(n, attempt)
            }
            other => panic!("{:?}", other),
        }
    }
    let (remove, r) = finished(job.step(retry(true, false)));
    assert!(!remove);
    assert_eq!(r.detail, "HTTP 503 Service Unavailable");
    assert!(!r.not_found);
    let mut job = attempting(&args());
    assert!(matches!(
        job.step(retry(false, false)),
        JobAction::Retry { remove_part: true, attempt: 1, .. }
    ));
}

#[test]
fn missing_file_is_marked() {
    let mut job = attempting(&args());
    let (remove, r) = finished(job.step(JobEvent::Attempted(Attempt::GiveUp {
        failure: Failure::Http(404),
        not_found: true,
    })));
    assert!(remove && r.not_found);
    assert_eq!(r.detail, "HTTP 404 Not Found");
    let mut job = attempting(&args());
    job.step(retry(true, true));
    job.step(retry(true, true));
    let (_, r) = finished(job.step(retry(true, true)));
    assert!(r.not_found);
}

#[test]
fn broken_attempts_are_retried() {
    let mut a = args();
    a.retries = 1;
    let mut job = attempting(&a);
    let broken =
        || JobEvent::Attempted(Attempt::Broken(InternalFailure::Flush("full".to_string())));
    assert!(matches!(
        job.step(broken()),
        JobAction::Retry { remove_part: false, attempt: 1, retry_after: None }
    ));
    let (remove, r) = finished(job.step(broken()));
    assert!(!remove);
    assert_eq!(r.detail, "internal error: flush failed: full");
    let (_, r) = finished(job.step(JobEvent::Exists(true)));
    assert_eq!(r.detail, "internal error: event out of order");
}

#[test]
fn url_without_a_basename_gets_a_number() {
    let place = Location { host: "a.example".to_string(), basename: None };
    let mut job = Job::begin_at(&args(), false, "https://a.example/", 12, None, Ok(place)).unwrap();
    assert!(matches!(job.step(JobEvent::DirCreated(Ok(()))), JobAction::Attempt));
    job.step(JobEvent::Attempted(Attempt::Done(11)));
    match job.step(JobEvent::Head(Ok(PNG.to_vec()))) {
        JobAction::CheckExists(path) => assert_eq!(path, "pics/image_12.png"),
        other => panic!("{:?}", other),
    }
}
