//! Tags attached to a profile by the profiled program.

use vstd::prelude::*;

verus! {

/// A tag a thread attached to the profile at a moment, on the same monotonic
/// clock (nanoseconds) as the samples.
#[derive(Debug)]
pub struct Marker {
    pub ruby_thread: u64,
    pub timestamp: u64,
    pub tag: String,
}

impl Marker {
    pub fn new(ruby_thread: u64, tag: String, timestamp: u64) -> (r: Marker)
        ensures
            r.ruby_thread == ruby_thread,
            r.tag == tag,
            r.timestamp == timestamp,
    {
        Marker { ruby_thread, timestamp, tag }
    }

    /// The runtime handles the marker refers to: its thread.
    pub fn references(&self) -> (r: Vec<u64>)
        ensures
            r@ == seq![self.ruby_thread],
    {
        let mut r: Vec<u64> = Vec::new();
        r.push(self.ruby_thread);
        r
    }
}

} // verus!
