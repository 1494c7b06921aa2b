//! Admission control: when the next task leaves the frontier.
//!
//! The scheduler counts the tasks that are in flight, that is handed to a
//! worker and not yet completed, and lets a task leave the frontier only
//! while that count is below the ceiling. It performs no waiting and starts
//! no work itself: `poll` answers what the caller's loop has to do next, and
//! `complete` is called when a worker has finished a task.
//!
//! The admission check and the count of the admitted task are one step of
//! `poll`. A program that shares a scheduler between threads keeps it behind
//! a lock, and the count then never exceeds the ceiling, not even for a
//! moment.

use vstd::prelude::*;
use crate::frontier::PriorityFrontier;
use crate::task::PolzatTask;

verus! {

/// How long the loop waits, in milliseconds, when every worker is busy.
pub const SATURATED_BACKOFF_MS: u64 = 500;

/// How long the loop waits, in milliseconds, when no task is pending.
pub const IDLE_BACKOFF_MS: u64 = 250;

/// What the scheduling loop has to do next.
#[derive(Debug)]
pub enum Action {
    /// Sleep for this many milliseconds, then poll again.
    Wait(u64),
    /// Give the task to a worker without waiting for it, then poll again.
    Dispatch(PolzatTask),
}

/// The number of tasks in flight after a poll that found `in_flight` tasks
/// in flight under `ceiling`, with or without a task pending.
pub open spec fn after_poll(in_flight: nat, ceiling: nat, pending: bool) -> nat {
    if in_flight < ceiling && pending {
        in_flight + 1
    } else {
        in_flight
    }
}

/// The number of tasks in flight after one completion.
pub open spec fn after_completion(in_flight: nat) -> nat {
    if in_flight > 0 {
        (in_flight - 1) as nat
    } else {
        0
    }
}

/// The admission state: the ceiling and the number of tasks in flight.
pub struct Scheduler {
    ceiling: usize,
    in_flight: usize,
}

impl Scheduler {
    /// The invariant of the scheduler: the tasks in flight never outnumber
    /// the ceiling.
    pub closed spec fn wf(&self) -> bool {
        self.in_flight <= self.ceiling
    }

    /// The configured ceiling.
    pub closed spec fn spec_ceiling(&self) -> usize {
        self.ceiling
    }

    /// The number of tasks in flight.
    pub closed spec fn spec_in_flight(&self) -> usize {
        self.in_flight
    }

    /// A scheduler with nothing in flight that admits at most `ceiling`
    /// tasks at a time.
    pub fn new(ceiling: usize) -> (s: Scheduler)
        ensures
            s.wf(),
            s.ceiling() == ceiling,
            s.in_flight() == 0,
    {
        Scheduler { ceiling, in_flight: 0 }
    }

    /// The configured ceiling.
    #[verifier::when_used_as_spec(spec_ceiling)]
    pub fn ceiling(&self) -> (c: usize)
        ensures
            c == self.spec_ceiling(),
    {
        self.ceiling
    }

    /// The number of tasks in flight.
    #[verifier::when_used_as_spec(spec_in_flight)]
    pub fn in_flight(&self) -> (n: usize)
        ensures
            n == self.spec_in_flight(),
    {
        self.in_flight
    }

    /// The tasks in flight never outnumber the ceiling, in any state that the
    /// operations of this type can reach.
    pub proof fn lemma_ceiling_holds(&self)
        requires
            self.wf(),
        ensures
            self.in_flight() <= self.ceiling(),
    {
    }

    /// Decides the next step of the scheduling loop.
    ///
    /// While the ceiling is reached nothing leaves the frontier and the loop
    /// is told to back off. Below the ceiling the task that is served first
    /// leaves the frontier and is counted as in flight before it is handed
    /// out; if nothing is pending the loop is told to wait the shorter idle
    /// interval.
    pub fn poll(&mut self, frontier: &mut PriorityFrontier) -> (action: Action)
        requires
            old(self).wf(),
            old(frontier).wf(),
        ensures
            final(self).wf(),
            final(frontier).wf(),
            final(self).ceiling() == old(self).ceiling(),
            final(frontier).capacity() == old(frontier).capacity(),
            final(self).in_flight() == after_poll(
                old(self).in_flight() as nat,
                old(self).ceiling() as nat,
                old(frontier)@.len() > 0,
            ),
            action == if old(self).in_flight() >= old(self).ceiling() {
                Action::Wait(SATURATED_BACKOFF_MS)
            } else if old(frontier)@.len() == 0 {
                Action::Wait(IDLE_BACKOFF_MS)
            } else {
                Action::Dispatch(old(frontier)@[0])
            },
            final(frontier)@ == if action is Dispatch {
                old(frontier)@.drop_first()
            } else {
                old(frontier)@
            },
    {
        if self.in_flight >= self.ceiling {
            return Action::Wait(SATURATED_BACKOFF_MS);
        }
        match frontier.pop() {
            None => Action::Wait(IDLE_BACKOFF_MS),
            Some(task) => {
                self.in_flight = self.in_flight + 1;
                Action::Dispatch(task)
            },
        }
    }

    /// Records that a worker has finished a task, whatever the outcome of
    /// the task was. A completion with nothing in flight leaves the count
    /// at zero.
    pub fn complete(&mut self)
        requires
            old(self).wf(),
        ensures
            final(self).wf(),
            final(self).ceiling() == old(self).ceiling(),
            final(self).in_flight() == after_completion(old(self).in_flight() as nat),
    {
        if self.in_flight > 0 {
            self.in_flight = self.in_flight - 1;
        }
    }
}

/// What can happen to a scheduler.
pub enum SchedulerEvent {
    /// The loop polled; `pending` says whether the frontier held a task.
    Poll { pending: bool },
    /// A worker finished a task.
    Completion,
}

/// The number of tasks in flight after one event.
pub open spec fn step(in_flight: nat, ceiling: nat, event: SchedulerEvent) -> nat {
    match event {
        SchedulerEvent::Poll { pending } => after_poll(in_flight, ceiling, pending),
        SchedulerEvent::Completion => after_completion(in_flight),
    }
}

/// The number of tasks in flight after a run of events, first to last, on a
/// scheduler that started with nothing in flight.
pub open spec fn run(ceiling: nat, events: Seq<SchedulerEvent>) -> nat
    decreases events.len(),
{
    if events.len() == 0 {
        0
    } else {
        step(run(ceiling, events.drop_last()), ceiling, events.last())
    }
}

/// The number of tasks that the polls of a run dispatched.
pub open spec fn dispatches(ceiling: nat, events: Seq<SchedulerEvent>) -> nat
    decreases events.len(),
{
    if events.len() == 0 {
        0
    } else {
        let before = run(ceiling, events.drop_last());
        dispatches(ceiling, events.drop_last()) + if events.last() matches SchedulerEvent::Poll {
            pending,
        } && before < ceiling && pending {
            1nat
        } else {
            0nat
        }
    }
}

/// The number of completions in a run.
pub open spec fn completions(events: Seq<SchedulerEvent>) -> nat
    decreases events.len(),
{
    if events.len() == 0 {
        0
    } else {
        completions(events.drop_last()) + if events.last() is Completion {
            1nat
        } else {
            0nat
        }
    }
}

/// Every completion of the run is that of a task in flight.
pub open spec fn completions_are_due(ceiling: nat, events: Seq<SchedulerEvent>) -> bool
    decreases events.len(),
{
    if events.len() == 0 {
        true
    } else {
        &&& completions_are_due(ceiling, events.drop_last())
        &&& events.last() is Completion ==> run(ceiling, events.drop_last()) > 0
    }
}

/// Whatever happens, and however many tasks are pending, the number of
/// tasks in flight never exceeds the ceiling.
pub proof fn lemma_run_respects_ceiling(ceiling: nat, events: Seq<SchedulerEvent>)
    ensures
        run(ceiling, events) <= ceiling,
    decreases events.len(),
{
    if events.len() > 0 {
        lemma_run_respects_ceiling(ceiling, events.drop_last());
    }
}

/// The tasks in flight are the tasks dispatched and not yet completed; once
/// every dispatched task has completed, nothing is in flight.
pub proof fn lemma_in_flight_is_conserved(ceiling: nat, events: Seq<SchedulerEvent>)
    requires
        completions_are_due(ceiling, events),
    ensures
        run(ceiling, events) == dispatches(ceiling, events) - completions(events),
        dispatches(ceiling, events) == completions(events) ==> run(ceiling, events) == 0,
    decreases events.len(),
{
    if events.len() > 0 {
        lemma_in_flight_is_conserved(ceiling, events.drop_last());
    }
}

} // verus!
