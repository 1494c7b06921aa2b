//! The unit of work that moves through the daemon.

use vstd::prelude::*;

verus! {

/// How the target of a task is addressed.
#[derive(Clone, Copy, Debug, PartialEq, Eq, Structural)]
pub enum UrlType {
    /// An ordinary web address; robots exclusion applies.
    Web,
    /// A Tor hidden service; robots exclusion is not meaningful there.
    TorHiddenService,
}

/// What is to be done with the target.
#[derive(Clone, Copy, Debug, PartialEq, Eq, Structural)]
pub enum Operation {
    /// Fetch the page, discover its links and submit them again.
    Crawl,
    /// Extract a single page; nothing is submitted again.
    Scrape,
}

/// Fetch strategy handed on to the executor of a task.
#[derive(Clone, Copy, Debug, PartialEq, Eq, Structural)]
pub enum FetcherType {
    LibCurl,
}

/// Link extraction strategy handed on to the executor of a task.
#[derive(Clone, Copy, Debug, PartialEq, Eq, Structural)]
pub enum LinkExtractorType {
    Web,
}

/// One crawl or scrape request.
///
/// A task is a plain value: the scheduling core moves it between containers
/// and never changes a field.
#[derive(Clone, Debug, PartialEq, Eq)]
pub struct PolzatTask {
    /// Correlation identifier chosen by the submitter.
    pub execution_id: u64,
    /// Rank of the task; a higher value is served first.
    pub priority: u8,
    pub url: String,
    pub url_type: UrlType,
    pub operation: Operation,
    pub fetcher_type: FetcherType,
    pub link_extractor_type: LinkExtractorType,
}

impl PolzatTask {
    pub fn new(
        execution_id: u64,
        priority: u8,
        url: String,
        url_type: UrlType,
        operation: Operation,
        fetcher_type: FetcherType,
        link_extractor_type: LinkExtractorType,
    ) -> (task: PolzatTask)
        ensures
            task == (PolzatTask {
                execution_id,
                priority,
                url,
                url_type,
                operation,
                fetcher_type,
                link_extractor_type,
            }),
    {
        PolzatTask {
            execution_id,
            priority,
            url,
            url_type,
            operation,
            fetcher_type,
            link_extractor_type,
        }
    }
}

} // verus!
