//! A cancellable unit of background work: an explicit start/stop lifecycle
//! with cooperative cancellation. Stopping only raises a signal; the worker
//! observes it between units of work and exits on its own.

use vstd::prelude::*;

verus! {

/// The lifecycle of one worker. `Completed`, `Cancelled` and `Failed` are
/// terminal: no method moves a worker out of them.
#[derive(Clone, Copy, PartialEq, Eq, Structural, Debug)]
pub enum WorkerPhase {
    Idle,
    Running,
    Completed,
    Cancelled,
    Failed,
}

/// Outcome of asking a worker to start.
#[derive(Clone, Copy, PartialEq, Eq, Structural, Debug)]
pub enum StartResult {
    Started,
    AlreadyRunning,
}

/// Outcome of asking a worker to stop.
#[derive(Clone, Copy, PartialEq, Eq, Structural, Debug)]
pub enum StopResult {
    Stopped,
    NotRunning,
}

/// A terminal phase is final.
pub open spec fn is_terminal(phase: WorkerPhase) -> bool {
    phase is Completed || phase is Cancelled || phase is Failed
}

/// One unit of background work that can be asked to stop. Cancellation is
/// cooperative and asynchronous: `request_stop` raises the signal and
/// returns at once; the worker checks it between units of work through
/// `observe_cancel` and exits promptly once it sees it.
pub struct CancellableWorker {
    phase: WorkerPhase,
    cancel_requested: bool,
}

impl CancellableWorker {
    pub closed spec fn phase(&self) -> WorkerPhase {
        self.phase
    }

    pub closed spec fn cancel_requested(&self) -> bool {
        self.cancel_requested
    }

    pub fn new() -> (r: Self)
        ensures
            r.phase() is Idle,
            !r.cancel_requested(),
    {
        CancellableWorker { phase: WorkerPhase::Idle, cancel_requested: false }
    }

    pub fn current_phase(&self) -> (p: WorkerPhase)
        ensures
            p == self.phase(),
    {
        self.phase
    }

    /// Starts the work. It succeeds exactly from `Idle`; a worker that is
    /// already running, or already done, is left as it is.
    pub fn start(&mut self) -> (r: StartResult)
        ensures
            r is Started <==> old(self).phase() is Idle,
            old(self).phase() is Idle ==> final(self).phase() is Running,
            !(old(self).phase() is Idle) ==> *final(self) == *old(self),
            final(self).cancel_requested() == old(self).cancel_requested(),
            is_terminal(old(self).phase()) ==> *final(self) == *old(self),
    {
        match self.phase {
            WorkerPhase::Idle => {
                self.phase = WorkerPhase::Running;
                StartResult::Started
            },
            _ => StartResult::AlreadyRunning,
        }
    }

    /// Raises the cancellation signal. It reports `NotRunning`, and changes
    /// nothing, when no instance is active; it never blocks waiting for the
    /// worker to finish.
    pub fn request_stop(&mut self) -> (r: StopResult)
        ensures
            r is Stopped <==> old(self).phase() is Running,
            final(self).phase() == old(self).phase(),
            old(self).phase() is Running ==> final(self).cancel_requested(),
            !(old(self).phase() is Running) ==> *final(self) == *old(self),
            is_terminal(old(self).phase()) ==> *final(self) == *old(self),
    {
        match self.phase {
            WorkerPhase::Running => {
                self.cancel_requested = true;
                StopResult::Stopped
            },
            _ => StopResult::NotRunning,
        }
    }

    /// The worker's own periodic check between units of work: once the
    /// signal has been raised, the worker moves to `Cancelled` and must
    /// exit; otherwise nothing changes.
    pub fn observe_cancel(&mut self) -> (r: bool)
        ensures
            r == (old(self).phase() is Running && old(self).cancel_requested()),
            r ==> final(self).phase() is Cancelled,
            !r ==> *final(self) == *old(self),
            final(self).cancel_requested() == old(self).cancel_requested(),
            is_terminal(old(self).phase()) ==> *final(self) == *old(self),
    {
        match self.phase {
            WorkerPhase::Running => {
                if self.cancel_requested {
                    self.phase = WorkerPhase::Cancelled;
                    true
                } else {
                    false
                }
            },
            _ => false,
        }
    }

    /// Records that the work finished naturally.
    pub fn complete(&mut self)
        ensures
            old(self).phase() is Running ==> final(self).phase() is Completed,
            !(old(self).phase() is Running) ==> *final(self) == *old(self),
            final(self).cancel_requested() == old(self).cancel_requested(),
            is_terminal(old(self).phase()) ==> *final(self) == *old(self),
    {
        match self.phase {
            WorkerPhase::Running => {
                self.phase = WorkerPhase::Completed;
            },
            _ => {},
        }
    }

    /// Records that the work failed.
    pub fn fail(&mut self)
        ensures
            old(self).phase() is Running ==> final(self).phase() is Failed,
            !(old(self).phase() is Running) ==> *final(self) == *old(self),
            final(self).cancel_requested() == old(self).cancel_requested(),
            is_terminal(old(self).phase()) ==> *final(self) == *old(self),
    {
        match self.phase {
            WorkerPhase::Running => {
                self.phase = WorkerPhase::Failed;
            },
            _ => {},
        }
    }
}

} // verus!
