//! One stack capture and the bounded arrays it is made of.

use vstd::prelude::*;

verus! {

/// Deepest interpreted stack that one sample records.
pub const MAX_STACK_DEPTH: usize = 500;

/// Deepest native stack that one sample records.
pub const MAX_C_STACK_DEPTH: usize = 1000;

/// Length of the native program-counter array: one slot for the depth, then the counters.
pub const NATIVE_PCS_LEN: usize = MAX_C_STACK_DEPTH + 1;

/// One stack capture of one thread.
///
/// `timestamp` is a reading of the monotonic clock, in nanoseconds.
/// `frames[..line_count]` and `linenos[..line_count]` hold the interpreted
/// frames, leaf first. `c_backtrace_pcs[0]` holds the native depth `d` and
/// `c_backtrace_pcs[1..=d]` the native program counters, leaf first.
#[derive(Debug, PartialEq)]
pub struct Sample {
    pub ruby_thread: u64,
    pub timestamp: u64,
    pub line_count: i32,
    pub frames: [u64; MAX_STACK_DEPTH],
    pub linenos: [i32; MAX_STACK_DEPTH],
    pub c_backtrace_pcs: [usize; NATIVE_PCS_LEN],
}

/// Index of the first zero frame at or after `i`, or the length when none is.
pub open spec fn frame_end(frames: Seq<u64>, i: int) -> int
    decreases frames.len() - i,
{
    if i >= frames.len() || i < 0 || frames[i] == 0 {
        i
    } else {
        frame_end(frames, i + 1)
    }
}

/// The runtime handles a sample holds on to: its thread, then each frame
/// before the first empty (zero) one.
pub open spec fn sample_refs(s: Sample) -> Seq<u64> {
    seq![s.ruby_thread] + s.frames@.take(frame_end(s.frames@, 0))
}

/// The handles of several samples, one after the other.
pub open spec fn refs_of_all(samples: Seq<Sample>) -> Seq<u64>
    decreases samples.len(),
{
    if samples.len() == 0 {
        Seq::empty()
    } else {
        refs_of_all(samples.drop_last()) + sample_refs(samples.last())
    }
}

proof fn lemma_frame_end_bounds(frames: Seq<u64>, i: int)
    requires
        0 <= i <= frames.len(),
    ensures
        i <= frame_end(frames, i) <= frames.len(),
        forall|j: int| i <= j < frame_end(frames, i) ==> frames[j] != 0,
    decreases frames.len() - i,
{
    if i < frames.len() && frames[i] != 0 {
        lemma_frame_end_bounds(frames, i + 1);
    }
}

impl Sample {
    /// The runtime handles this sample refers to, which must stay reachable
    /// while the sample is held.
    pub fn references(&self) -> (r: Vec<u64>)
        ensures
            r@ == sample_refs(*self),
    {
        let mut r: Vec<u64> = Vec::new();
        r.push(self.ruby_thread);
        let mut i: usize = 0;
        proof {
            lemma_frame_end_bounds(self.frames@, 0);
        }
        while i < MAX_STACK_DEPTH && self.frames[i] != 0
            invariant
                i <= MAX_STACK_DEPTH,
                frame_end(self.frames@, i as int) == frame_end(self.frames@, 0),
                r@ == seq![self.ruby_thread] + self.frames@.take(i as int),
            decreases MAX_STACK_DEPTH - i,
        {
            r.push(self.frames[i]);
            proof {
                assert(self.frames@.take(i as int).push(self.frames@[i as int])
                    =~= self.frames@.take(i + 1));
            }
            i = i + 1;
        }
        r
    }
}

/// The native program counters recorded in a counter array: slot 0 is the depth.
pub open spec fn recorded_pcs(pcs: Seq<usize>) -> Seq<usize> {
    pcs.subrange(1, pcs[0] + 1)
}

/// A counter array is well formed when its depth fits the array.
pub open spec fn pcs_wf(pcs: Seq<usize>) -> bool {
    pcs.len() == NATIVE_PCS_LEN && pcs[0] <= MAX_C_STACK_DEPTH
}

/// Records one native program counter during a stack walk.
///
/// Returns 0 to go on walking, or 1, leaving the array as it was, once
/// `MAX_C_STACK_DEPTH` counters are held.
pub fn record_native_pc(pcs: &mut [usize; NATIVE_PCS_LEN], pc: usize) -> (r: i32)
    requires
        pcs_wf(old(pcs)@),
    ensures
        pcs_wf(final(pcs)@),
        old(pcs)@[0] >= MAX_C_STACK_DEPTH ==> r == 1 && final(pcs)@ == old(pcs)@,
        old(pcs)@[0] < MAX_C_STACK_DEPTH ==> r == 0 && recorded_pcs(final(pcs)@) == recorded_pcs(
            old(pcs)@,
        ).push(pc),
{
    let depth = pcs[0];
    if depth >= MAX_C_STACK_DEPTH {
        return 1;
    }
    let ghost before = pcs@;
    pcs[0] = depth + 1;
    pcs[depth + 1] = pc;
    assert(recorded_pcs(pcs@) =~= recorded_pcs(before).push(pc));
    0
}

} // verus!
