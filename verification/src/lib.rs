//! pixpull — super-robust HTTP/HTTPS picture downloader.
//!
//! The library holds every decision of a bulk image download: retries with backoff,
//! resume, segmented downloads, anti-bot headers, speed caps, file naming and
//! magic-byte integrity validation. It performs no I/O of its own. Where a download
//! alternates between outside work and decisions, the library is a state machine
//! that takes in what happened and says what to do next:
//!
//! - [`Job`] takes one URL from the plan of its filename to the final file,
//! - [`Fetch`] is one attempt at the file,
//! - [`Segment`] is one byte range of it.
//!
//! [`Args`] holds the settings, [`ClientFactory`] puts requests together, and
//! [`Tally`] counts the results of a run.

pub mod address;
pub mod args;
pub mod client;
pub mod clock;
pub mod config;
pub mod cookies;
pub mod download;
pub mod failure;
pub mod fetch;
pub mod headers;
pub mod names;
pub mod numbers;
pub mod retry;
pub mod run;
pub mod segments;
pub mod text;
pub mod throttle;
pub mod validate;

pub use args::{browser_ua, parse_input_file, Args, InputUrl};
pub use client::ClientFactory;
pub use config::{Config, DownloadSection, HttpSection};
pub use cookies::Cookie;
pub use download::{Job, JobResult, JobStatus};
pub use fetch::Fetch;
pub use names::PART_SUFFIX;
pub use run::Tally;
pub use segments::{Segment, MIN_SEGMENT_SIZE};
pub use throttle::Throttle;
pub use validate::Format;
