//! Scheduling core of a crawling and scraping daemon.
//!
//! The crate holds the three pieces that decide what is fetched and when:
//! the priority frontier of pending tasks, the admission-controlled
//! scheduler that moves tasks from the frontier to a bounded set of workers,
//! and the robots-exclusion validator that gates which URLs may be fetched.
//! Nothing in here performs I/O; network fetches, timers and threads belong
//! to the embedding program, which is driven by the values returned here.

pub mod frontier;
pub mod gateway;
pub mod pattern;
pub mod robots;
pub mod scheduler;
pub mod service_order;
pub mod task;
pub mod text;
pub mod url_validator;

pub use task::{FetcherType, LinkExtractorType, Operation, PolzatTask, UrlType};
