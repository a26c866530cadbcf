//! The lifecycle of a session and the bookkeeping of threads seen.

use std::collections::HashSet;

use vstd::prelude::*;
use vstd::std_specs::hash::group_hash_axioms;

verus! {

broadcast use group_hash_axioms;

/// Where a profiling session is in its life: created, sampling, or done.
#[derive(Clone, Copy, Debug, PartialEq, Eq, Structural)]
pub enum SessionPhase {
    Created,
    Running,
    Stopped,
}

impl SessionPhase {
    /// Whether `start` may be called: only once, on a session not yet started.
    pub fn can_start(&self) -> (r: bool)
        ensures
            r == (*self == SessionPhase::Created),
    {
        *self == SessionPhase::Created
    }

    /// Whether `stop` may be called: only once, on a running session.
    pub fn can_stop(&self) -> (r: bool)
        ensures
            r == (*self == SessionPhase::Running),
    {
        *self == SessionPhase::Running
    }

    /// Moves a created session to running. Starting twice is a broken
    /// lifecycle, which callers rule out with `can_start`.
    pub fn start(&mut self)
        requires
            *old(self) == SessionPhase::Created,
        ensures
            *final(self) == SessionPhase::Running,
    {
        *self = SessionPhase::Running;
    }

    /// Moves a running session to stopped. Stopping before starting, or
    /// twice, is a broken lifecycle, which callers rule out with `can_stop`.
    pub fn stop(&mut self)
        requires
            *old(self) == SessionPhase::Running,
        ensures
            *final(self) == SessionPhase::Stopped,
    {
        *self = SessionPhase::Stopped;
    }
}

/// The threads seen so far by a watcher of new threads. A thread counts as
/// new the first time it is observed only.
#[derive(Debug)]
pub struct KnownThreads {
    pub known: HashSet<u64>,
}

impl KnownThreads {
    pub fn new() -> (r: KnownThreads)
        ensures
            r.known@ == Set::<u64>::empty(),
    {
        KnownThreads { known: HashSet::new() }
    }

    /// Records `thread` and tells whether it was not seen before.
    pub fn observe(&mut self, thread: u64) -> (is_new: bool)
        ensures
            is_new == !old(self).known@.contains(thread),
            final(self).known@ == old(self).known@.insert(thread),
    {
        if self.known.contains(&thread) {
            proof {
                assert(self.known@.insert(thread) =~= self.known@);
            }
            false
        } else {
            self.known.insert(thread);
            true
        }
    }
}

} // verus!
