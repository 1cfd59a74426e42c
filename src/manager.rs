//! The single-flight slot of an orchestrator: it holds the run-loop of the
//! operation in flight, if any, and a new one can only be placed once the
//! previous one has been cancelled and joined.
use vstd::prelude::*;

verus! {

/// A background run-loop that can be stopped. `cancel` asks the body to
/// stop and returns only once it has fully exited, with a token that shows
/// that this run-loop was joined.
pub trait RunLoopHandle: Sized {
    /// Proof that a run-loop has been cancelled and its body has exited.
    type Joined;

    /// Whether `j` is the token of this run-loop's join.
    spec fn joined_by(&self, j: Self::Joined) -> bool;

    fn cancel(self) -> (j: Self::Joined)
        ensures
            self.joined_by(j),
    ;
}

/// Owns at most one in-flight run-loop.
pub struct PlatformManager<T> {
    /// Handle to the run-loop of the operation in flight.
    thread: Option<T>,
}

impl<T: RunLoopHandle> PlatformManager<T> {
    pub closed spec fn active(&self) -> Option<T> {
        self.thread
    }

    /// A manager with no operation in flight.
    pub fn new() -> (r: Self)
        ensures
            r.active() is None,
    {
        PlatformManager { thread: None }
    }

    /// Whether an operation is in flight.
    pub fn is_active(&self) -> (r: bool)
        ensures
            r == self.active() is Some,
    {
        self.thread.is_some()
    }

    /// Cancels the operation in flight, if any, and waits for its run-loop
    /// to exit; the join token of that run-loop comes back. Afterwards no
    /// operation is in flight.
    pub fn cancel(&mut self) -> (r: Option<T::Joined>)
        ensures
            final(self).active() is None,
            match old(self).active() {
                Some(t) => r matches Some(j) && t.joined_by(j),
                None => r is None,
            },
    {
        match self.thread.take() {
            Some(thread) => Some(thread.cancel()),
            None => None,
        }
    }

    /// Makes `thread` the operation in flight. Only allowed while none is:
    /// a caller starting a new operation cancels the previous one first, so
    /// two run-loops never run for one manager.
    pub fn install(&mut self, thread: T)
        requires
            old(self).active() is None,
        ensures
            final(self).active() == Some(thread),
    {
        self.thread = Some(thread);
    }
}

} // verus!
