use vstd::prelude::*;

use crate::engine::{finish_outcome, Engine, FetchOutcome, Finished};
use crate::limits::Limits;
use crate::queue::{dequeue_outcome, CrawlStatus, CrawlTask};
use crate::scope::Boundary;

verus! {

/// The scheduler loop runs until shutdown.
#[derive(Clone, Copy, Debug, PartialEq, Eq, Structural)]
pub enum ManagerState {
    Running,
    Stopped,
}

/// What woke the scheduler: its polling interval ran out, the shutdown
/// signal came, or the task channel to the workers closed.
#[derive(Clone, Copy, Debug, PartialEq, Eq, Structural)]
pub enum ManagerEvent {
    Tick,
    Shutdown,
    ChannelClosed,
}

/// What the scheduler loop does next.
#[derive(Clone, Debug)]
pub enum ManagerAction {
    /// Send the claimed task to the workers, then wait out the polling interval.
    Dispatch(CrawlTask),
    /// Wait out the polling interval, racing it against shutdown.
    Wait,
    /// Leave the loop.
    Exit,
}

/// A worker is ready for a task, busy with one fetch, or stopped. A busy
/// worker that saw shutdown finishes its fetch first.
#[derive(Clone, Copy, Debug, PartialEq, Eq, Structural)]
pub enum WorkerState {
    Ready,
    Busy { task_id: u64, stopping: bool },
    Stopped,
}

/// What a worker observed: the start of a turn, the shutdown signal, a task
/// (or the channel's end) from the scheduler, or the result of its fetch.
#[derive(Clone, Debug)]
pub enum WorkerEvent {
    Turn,
    Shutdown,
    Received(Option<CrawlTask>),
    Fetched(FetchOutcome),
}

/// What a worker does next.
#[derive(Clone, Debug)]
pub enum WorkerAction {
    /// Paused: sleep a short while, racing shutdown, without taking a task.
    Pause,
    /// Wait for a task on the channel, racing shutdown.
    Receive,
    /// Fetch the URL of the task just received.
    Fetch { task_id: u64, url: String },
    /// Keep waiting for the fetch in flight (its result is the next event).
    AwaitFetch,
    /// A task was finished; go on to the next turn.
    Finished(Finished),
    /// Leave the loop.
    Exit,
}

impl Engine {
    /// One decision of the scheduler loop.
    pub fn manager_step(
        &mut self,
        state: ManagerState,
        event: ManagerEvent,
        limits: &Limits,
        now: i64,
    ) -> (r: (ManagerState, ManagerAction))
        requires
            old(self).wf(),
        ensures
            final(self).wf(),
            final(self).index_state() == old(self).index_state(),
            final(self).paused_flag() == old(self).paused_flag(),
            state == ManagerState::Stopped || event != ManagerEvent::Tick ==> {
                &&& r.0 == ManagerState::Stopped
                &&& r.1 is Exit
                &&& final(self).tasks() == old(self).tasks()
            },
            state == ManagerState::Running && event == ManagerEvent::Tick ==> {
                &&& r.0 == ManagerState::Running
                &&& r.1 is Wait ==> dequeue_outcome(old(self).tasks(), final(self).tasks(), *limits, now, None)
                &&& r.1 matches ManagerAction::Dispatch(t) ==> dequeue_outcome(
                    old(self).tasks(),
                    final(self).tasks(),
                    *limits,
                    now,
                    Some(t),
                )
                &&& !(r.1 is Exit)
            },
    {
        match (state, event) {
            (ManagerState::Running, ManagerEvent::Tick) => {
                match self.dequeue(limits, now) {
                    Some(t) => (ManagerState::Running, ManagerAction::Dispatch(t)),
                    None => (ManagerState::Running, ManagerAction::Wait),
                }
            },
            _ => (ManagerState::Stopped, ManagerAction::Exit),
        }
    }

    /// One decision of a worker loop.
    pub fn worker_step(
        &mut self,
        state: WorkerState,
        event: WorkerEvent,
        boundary: &Boundary,
        now: i64,
    ) -> (r: (WorkerState, WorkerAction))
        requires
            old(self).wf(),
        ensures
            final(self).wf(),
            !(state is Busy && event is Fetched) ==> *final(self) == *old(self),
            state == WorkerState::Stopped ==> r.0 == WorkerState::Stopped && r.1 is Exit,
            state == WorkerState::Ready ==> match event {
                WorkerEvent::Turn | WorkerEvent::Fetched(_) => r.0 == WorkerState::Ready && (
                if old(self).paused_flag() {
                    r.1 is Pause
                } else {
                    r.1 is Receive
                }),
                WorkerEvent::Shutdown => r.0 == WorkerState::Stopped && r.1 is Exit,
                WorkerEvent::Received(None) => r.0 == WorkerState::Stopped && r.1 is Exit,
                WorkerEvent::Received(Some(t)) => {
                    &&& r.0 == (WorkerState::Busy { task_id: t.id, stopping: false })
                    &&& r.1 matches WorkerAction::Fetch { task_id, url } && task_id == t.id && url
                        == t.url
                },
            },
            state matches WorkerState::Busy { task_id, stopping } ==> match event {
                WorkerEvent::Fetched(outcome) => {
                    &&& r.0 == if stopping {
                        WorkerState::Stopped
                    } else {
                        WorkerState::Ready
                    }
                    &&& r.1 matches WorkerAction::Finished(f) && finish_outcome(
                        *old(self),
                        *final(self),
                        task_id,
                        outcome,
                        *boundary,
                        now,
                        f,
                    )
                    &&& task_id < final(self).tasks().len() ==> final(self).tasks()[task_id as int].status
                        != CrawlStatus::Processing
                },
                WorkerEvent::Shutdown => r.0 == (WorkerState::Busy { task_id, stopping: true })
                    && r.1 is AwaitFetch,
                _ => r.0 == state && r.1 is AwaitFetch,
            },
    {
        match state {
            WorkerState::Stopped => (WorkerState::Stopped, WorkerAction::Exit),
            WorkerState::Ready => match event {
                WorkerEvent::Turn | WorkerEvent::Fetched(_) => {
                    if self.is_paused() {
                        (WorkerState::Ready, WorkerAction::Pause)
                    } else {
                        (WorkerState::Ready, WorkerAction::Receive)
                    }
                },
                WorkerEvent::Shutdown => (WorkerState::Stopped, WorkerAction::Exit),
                WorkerEvent::Received(None) => (WorkerState::Stopped, WorkerAction::Exit),
                WorkerEvent::Received(Some(t)) => (
                    WorkerState::Busy { task_id: t.id, stopping: false },
                    WorkerAction::Fetch { task_id: t.id, url: t.url },
                ),
            },
            WorkerState::Busy { task_id, stopping } => match event {
                WorkerEvent::Fetched(outcome) => {
                    let f = self.finish_task(task_id, outcome, boundary, now);
                    let next = if stopping {
                        WorkerState::Stopped
                    } else {
                        WorkerState::Ready
                    };
                    (next, WorkerAction::Finished(f))
                },
                WorkerEvent::Shutdown => (
                    WorkerState::Busy { task_id, stopping: true },
                    WorkerAction::AwaitFetch,
                ),
                _ => (state, WorkerAction::AwaitFetch),
            },
        }
    }
}

} // verus!
