//! The requests that reach the daemon from outside, as plain values.
//!
//! The transport decodes a wire request into one of the request values of
//! this module and encodes the reply; what a request does to the frontier is
//! decided here.

use vstd::prelude::*;
use crate::frontier::{enqueue, PriorityFrontier};
use crate::task::{FetcherType, LinkExtractorType, Operation, PolzatTask, UrlType};

verus! {

/// A request to schedule one task.
#[derive(Clone, Debug, PartialEq, Eq)]
pub struct ScheduleTaskRequest {
    pub execution_id: u64,
    /// The priority as it travels on the wire; its lowest eight bits are the
    /// priority of the task.
    pub priority: u32,
    pub url: String,
    pub url_type: UrlType,
    pub operation: Operation,
}

/// The acknowledgement of a scheduled task.
#[derive(Clone, Copy, Debug, PartialEq, Eq, Structural)]
pub struct ScheduleTaskReply {}

/// The answer to a request for statistics.
#[derive(Clone, Copy, Debug, PartialEq, Eq, Structural)]
pub struct StatsReply {
    /// The number of pending tasks at the time of the call.
    pub pending_count: u64,
}

/// Why a request failed.
#[derive(Clone, Copy, Debug, PartialEq, Eq, Structural)]
pub enum GatewayError {
    /// The frontier refused the task.
    PushRefused,
}

impl GatewayError {
    /// The text reported to the caller.
    pub fn message(&self) -> (text: String)
        ensures
            text@ == "unable to push task to frontier"@,
    {
        "unable to push task to frontier".to_owned()
    }
}

/// The task that a request asks for. The fetch and link extraction
/// strategies are not the caller's choice.
pub open spec fn task_for(request: ScheduleTaskRequest) -> PolzatTask {
    PolzatTask {
        execution_id: request.execution_id,
        priority: (request.priority % 256) as u8,
        url: request.url,
        url_type: request.url_type,
        operation: request.operation,
        fetcher_type: FetcherType::LibCurl,
        link_extractor_type: LinkExtractorType::Web,
    }
}

/// Builds the task of a request and pushes it to the frontier. The request
/// fails if and only if the frontier refuses the task.
pub fn schedule_task(frontier: &mut PriorityFrontier, request: ScheduleTaskRequest) -> (reply:
    Result<ScheduleTaskReply, GatewayError>)
    requires
        old(frontier).wf(),
    ensures
        final(frontier).wf(),
        final(frontier).capacity() == old(frontier).capacity(),
        reply is Ok <==> !old(frontier).is_full(),
        reply is Ok ==> final(frontier)@ == enqueue(old(frontier)@, task_for(request)),
        reply is Err ==> reply == Err::<ScheduleTaskReply, GatewayError>(GatewayError::PushRefused)
            && final(frontier)@ == old(frontier)@,
{
    let task = PolzatTask::new(
        request.execution_id,
        (request.priority % 256) as u8,
        request.url,
        request.url_type,
        request.operation,
        FetcherType::LibCurl,
        LinkExtractorType::Web,
    );
    match frontier.push(task) {
        Ok(_) => Ok(ScheduleTaskReply {  }),
        Err(_) => Err(GatewayError::PushRefused),
    }
}

/// Reports the number of pending tasks.
pub fn stats(frontier: &PriorityFrontier) -> (reply: StatsReply)
    requires
        frontier.wf(),
    ensures
        reply.pending_count == frontier@.len(),
{
    StatsReply { pending_count: frontier.len() as u64 }
}

} // verus!
