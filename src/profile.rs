//! The profile a session gathers samples into.

use std::collections::HashSet;

use vstd::prelude::*;
use vstd::std_specs::hash::group_hash_axioms;
use vstd::std_specs::iter::IteratorSpec;

use crate::ringbuffer::Ringbuffer;
use crate::sample::{Sample, refs_of_all};

verus! {

broadcast use group_hash_axioms;

/// Room for one second of samples from sixteen threads at twenty samples a second.
pub const DEFAULT_RINGBUFFER_CAPACITY: usize = 320;

/// The samples of one profiling session, as they are gathered.
///
/// Producers push into `temporary_sample_buffer`; a flush moves what waits
/// there into `samples`, in order, and records the runtime handles those
/// samples refer to in `known_values`. `start_timestamp_ns` is wall-clock time since the Unix
/// epoch; `start_instant` and `end_instant` are monotonic-clock readings in
/// nanoseconds, on the same clock as each sample's `timestamp`.
#[derive(Debug)]
pub struct Profile {
    pub start_timestamp_ns: u128,
    pub start_instant: u64,
    pub end_instant: Option<u64>,
    pub samples: Vec<Sample>,
    pub temporary_sample_buffer: Ringbuffer,
    pub known_values: HashSet<u64>,
}

proof fn lemma_to_set_add(a: Seq<u64>, b: Seq<u64>)
    ensures
        (a + b).to_set() == a.to_set() + b.to_set(),
{
    assert forall|x: u64| (a + b).to_set().contains(x) implies (a.to_set() + b.to_set()).contains(
        x,
    ) by {
        let i = choose|i: int| 0 <= i < (a + b).len() && (a + b)[i] == x;
        if i < a.len() {
            assert(a[i] == x);
        } else {
            assert(b[i - a.len()] == x);
        }
    }
    assert forall|x: u64| (a.to_set() + b.to_set()).contains(x) implies (a + b).to_set().contains(
        x,
    ) by {
        if a.to_set().contains(x) {
            let i = choose|i: int| 0 <= i < a.len() && a[i] == x;
            assert((a + b)[i] == x);
        } else {
            let i = choose|i: int| 0 <= i < b.len() && b[i] == x;
            assert((a + b)[a.len() + i] == x);
        }
    }
    assert((a + b).to_set() =~= a.to_set() + b.to_set());
}

fn insert_all(set: &mut HashSet<u64>, values: &Vec<u64>)
    ensures
        final(set)@ == old(set)@ + values@.to_set(),
{
    let mut j: usize = 0;
    while j < values.len()
        invariant
            j <= values.len(),
            set@ == old(set)@ + values@.take(j as int).to_set(),
        decreases values.len() - j,
    {
        set.insert(values[j]);
        proof {
            assert(values@.take(j + 1) =~= values@.take(j as int).push(values@[j as int]));
            values@.take(j as int).lemma_push_to_set_commute(values@[j as int]);
            assert(set@ =~= old(set)@ + values@.take(j + 1).to_set());
        }
        j = j + 1;
    }
    proof {
        assert(values@.take(values.len() as int) =~= values@);
    }
}

impl Profile {
    pub open spec fn wf(&self) -> bool {
        self.temporary_sample_buffer.wf()
    }

    /// A fresh profile started at the given clock readings, with an empty
    /// buffer of `DEFAULT_RINGBUFFER_CAPACITY` slots.
    pub fn new(start_timestamp_ns: u128, start_instant: u64) -> (r: Profile)
        ensures
            r.wf(),
            r.start_timestamp_ns == start_timestamp_ns,
            r.start_instant == start_instant,
            r.end_instant is None,
            r.samples@ == Seq::<Sample>::empty(),
            r.temporary_sample_buffer@ == Seq::<Sample>::empty(),
            r.temporary_sample_buffer.capacity_spec() == DEFAULT_RINGBUFFER_CAPACITY,
            r.known_values@ == Set::<u64>::empty(),
    {
        Profile {
            start_timestamp_ns,
            start_instant,
            end_instant: None,
            samples: Vec::new(),
            temporary_sample_buffer: Ringbuffer::new(DEFAULT_RINGBUFFER_CAPACITY),
            known_values: HashSet::new(),
        }
    }

    /// Moves every waiting sample, oldest first, to the end of `samples`, and
    /// records the handles they refer to.
    pub fn flush_temporary_sample_buffer(&mut self)
        requires
            old(self).wf(),
        ensures
            final(self).wf(),
            final(self).samples@ == old(self).samples@ + old(self).temporary_sample_buffer@,
            final(self).temporary_sample_buffer@ == Seq::<Sample>::empty(),
            final(self).temporary_sample_buffer.capacity_spec()
                == old(self).temporary_sample_buffer.capacity_spec(),
            final(self).known_values@ == old(self).known_values@ + refs_of_all(
                old(self).temporary_sample_buffer@,
            ).to_set(),
            final(self).start_timestamp_ns == old(self).start_timestamp_ns,
            final(self).start_instant == old(self).start_instant,
            final(self).end_instant == old(self).end_instant,
    {
        let ghost pending = self.temporary_sample_buffer@;
        let ghost k: int = 0;
        loop
            invariant
                self.wf(),
                0 <= k <= pending.len(),
                self.temporary_sample_buffer@ == pending.subrange(k, pending.len() as int),
                self.temporary_sample_buffer.capacity_spec()
                    == old(self).temporary_sample_buffer.capacity_spec(),
                self.samples@ == old(self).samples@ + pending.take(k),
                self.known_values@ == old(self).known_values@ + refs_of_all(pending.take(k)).to_set(),
                self.start_timestamp_ns == old(self).start_timestamp_ns,
                self.start_instant == old(self).start_instant,
                self.end_instant == old(self).end_instant,
            ensures
                k == pending.len(),
                self.temporary_sample_buffer@.len() == 0,
            decreases self.temporary_sample_buffer@.len(),
        {
            let ghost before = self.temporary_sample_buffer@;
            let popped = self.temporary_sample_buffer.pop();
            match popped {
                Some(sample) => {
                    proof {
                        assert(before.len() > 0);
                        assert(sample == before[0]);
                        assert(before[0] == pending[k]);
                        assert(self.temporary_sample_buffer@ == before.drop_first());
                    }
                    let refs = sample.references();
                    insert_all(&mut self.known_values, &refs);
                    proof {
                        assert(pending.take(k + 1).drop_last() =~= pending.take(k));
                        assert(pending[k] == sample);
                        lemma_to_set_add(refs_of_all(pending.take(k)), refs@);
                        assert(self.known_values@ =~= old(self).known_values@ + refs_of_all(
                            pending.take(k + 1),
                        ).to_set());
                    }
                    self.samples.push(sample);
                    proof {
                        assert(pending.take(k + 1) =~= pending.take(k).push(pending[k]));
                        assert(old(self).samples@ + pending.take(k + 1) =~= (old(self).samples@
                            + pending.take(k)).push(pending[k]));
                        assert(self.samples@ =~= old(self).samples@ + pending.take(k + 1));
                        assert(before.drop_first() =~= pending.subrange(k + 1, pending.len() as int));
                        k = k + 1;
                        assert(self.temporary_sample_buffer@ =~= pending.subrange(
                            k,
                            pending.len() as int,
                        ));
                    }
                },
                None => {
                    proof {
                        assert(before.len() == 0);
                        assert(k == pending.len());
                    }
                    break;
                },
            }
        }
        proof {
            assert(pending.take(k) =~= pending);
            assert(self.temporary_sample_buffer@ =~= Seq::<Sample>::empty());
        }
    }

    /// Every runtime handle the profile refers to: those of flushed samples and
    /// those of samples still waiting. A collector must keep these reachable.
    pub fn external_references(&self) -> (r: Vec<u64>)
        requires
            self.wf(),
        ensures
            r@.to_set() == self.known_values@ + refs_of_all(
                self.temporary_sample_buffer@,
            ).to_set(),
    {
        let mut r: Vec<u64> = Vec::new();
        for v in it: self.known_values.iter()
            invariant
                r@.len() == it.index(),
                forall|i: int| 0 <= i < it.index() ==> r@[i] == *it.seq()[i],
        {
            r.push(*v);
        }
        proof {
            let keys = self.known_values.iter().remaining();
            assert(keys.unref().to_set() == self.known_values@);
            assert(r@ =~= keys.unref());
        }
        let ghost known = r@;
        let mut buffered = self.temporary_sample_buffer.references();
        r.append(&mut buffered);
        proof {
            lemma_to_set_add(known, refs_of_all(self.temporary_sample_buffer@));
        }
        r
    }

    /// Marks the end of the session at the given monotonic reading, after a
    /// final flush.
    pub fn finalize(&mut self, end_instant: u64)
        requires
            old(self).wf(),
        ensures
            final(self).wf(),
            final(self).samples@ == old(self).samples@ + old(self).temporary_sample_buffer@,
            final(self).temporary_sample_buffer@ == Seq::<Sample>::empty(),
            final(self).known_values@ == old(self).known_values@ + refs_of_all(
                old(self).temporary_sample_buffer@,
            ).to_set(),
            final(self).end_instant == Some(end_instant),
            final(self).start_timestamp_ns == old(self).start_timestamp_ns,
            final(self).start_instant == old(self).start_instant,
    {
        self.flush_temporary_sample_buffer();
        self.end_instant = Some(end_instant);
    }
}

} // verus!
