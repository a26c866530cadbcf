//! The bounded buffer between sample producers and the flusher.

use vstd::arithmetic::div_mod::{lemma_mod_self_0, lemma_small_mod};
use vstd::prelude::*;

use crate::sample::{Sample, refs_of_all};

verus! {

/// A fixed-capacity single-producer, single-consumer FIFO of samples.
///
/// It holds `capacity + 1` slots; the samples waiting to be read are those from
/// `read_index` up to (not including) `write_index`, going round modulo
/// `capacity + 1`. One slot always stays free, so the buffer is full when the
/// slot after `write_index` is `read_index`.
#[derive(Debug)]
pub struct Ringbuffer {
    capacity: usize,
    buffer: Vec<Option<Sample>>,
    read_index: usize,
    write_index: usize,
}

/// Why a push was refused.
#[derive(Debug, PartialEq, Eq, Structural)]
pub enum RingbufferError {
    Full,
}

/// The slot that follows slot `i` in a buffer of `n` slots.
pub open spec fn next_slot(i: int, n: int) -> int {
    if i + 1 == n {
        0
    } else {
        i + 1
    }
}

/// The contents after a push onto `contents`, in a buffer of the given capacity,
/// and whether the push succeeded.
pub open spec fn push_model(contents: Seq<Sample>, capacity: nat, s: Sample) -> (Seq<Sample>, bool) {
    if contents.len() < capacity {
        (contents.push(s), true)
    } else {
        (contents, false)
    }
}

/// The contents after a pop from `contents`, and the sample that came out.
pub open spec fn pop_model(contents: Seq<Sample>) -> (Seq<Sample>, Option<Sample>) {
    if contents.len() == 0 {
        (contents, None)
    } else {
        (contents.drop_first(), Some(contents[0]))
    }
}

/// Contents after pushing `samples` in order onto `contents`.
pub open spec fn push_all(contents: Seq<Sample>, capacity: nat, samples: Seq<Sample>) -> Seq<Sample>
    decreases samples.len(),
{
    if samples.len() == 0 {
        contents
    } else {
        push_model(push_all(contents, capacity, samples.drop_last()), capacity, samples.last()).0
    }
}

/// Whether the `i`-th of a run of pushes onto an empty buffer succeeds.
pub open spec fn push_succeeds(capacity: nat, samples: Seq<Sample>, i: int) -> bool {
    push_model(push_all(Seq::empty(), capacity, samples.take(i)), capacity, samples[i]).1
}

/// A run of operations on a buffer: `Some(s)` pushes `s`, `None` pops.
/// Gives the final contents, the samples popped in order, and whether every push succeeded.
pub open spec fn run_ops(contents: Seq<Sample>, capacity: nat, ops: Seq<Option<Sample>>) -> (
    Seq<Sample>,
    Seq<Sample>,
    bool,
)
    decreases ops.len(),
{
    if ops.len() == 0 {
        (contents, Seq::empty(), true)
    } else {
        let (c, popped, ok) = run_ops(contents, capacity, ops.drop_last());
        match ops.last() {
            Some(s) => {
                let (c2, pushed) = push_model(c, capacity, s);
                (c2, popped, ok && pushed)
            },
            None => {
                let (c2, out) = pop_model(c);
                match out {
                    Some(x) => (c2, popped.push(x), ok),
                    None => (c2, popped, ok),
                }
            },
        }
    }
}

/// The samples that a run of operations pushes, in order.
pub open spec fn pushed_of(ops: Seq<Option<Sample>>) -> Seq<Sample>
    decreases ops.len(),
{
    if ops.len() == 0 {
        Seq::empty()
    } else {
        match ops.last() {
            Some(s) => pushed_of(ops.drop_last()).push(s),
            None => pushed_of(ops.drop_last()),
        }
    }
}

proof fn lemma_push_all_prefix(capacity: nat, samples: Seq<Sample>)
    ensures
        push_all(Seq::empty(), capacity, samples) == samples.take(
            if samples.len() <= capacity {
                samples.len() as int
            } else {
                capacity as int
            },
        ),
    decreases samples.len(),
{
    if samples.len() > 0 {
        lemma_push_all_prefix(capacity, samples.drop_last());
        assert(samples.drop_last().take(samples.len() - 1) =~= samples.take(samples.len() - 1));
        if capacity < samples.len() {
            assert(samples.drop_last().take(capacity as int) =~= samples.take(capacity as int));
        }
        if samples.len() <= capacity {
            assert(samples.take(samples.len() - 1).push(samples.last()) =~= samples.take(
                samples.len() as int,
            ));
        }
    } else {
        assert(samples.take(0) =~= Seq::<Sample>::empty());
    }
}

/// Starting from an empty buffer of capacity `C`, the first `C` pushes succeed
/// and every later push fails, whatever the samples.
pub proof fn lemma_exactly_capacity_pushes_succeed(capacity: nat, samples: Seq<Sample>)
    ensures
        forall|i: int| 0 <= i < samples.len() ==> #[trigger] push_succeeds(capacity, samples, i) == (
        i < capacity),
{
    assert forall|i: int| 0 <= i < samples.len() implies #[trigger] push_succeeds(
        capacity,
        samples,
        i,
    ) == (i < capacity) by {
        lemma_push_all_prefix(capacity, samples.take(i));
    }
}

/// After a pop that returned a sample, the next push succeeds.
pub proof fn lemma_push_after_pop_succeeds(contents: Seq<Sample>, capacity: nat, s: Sample)
    requires
        contents.len() <= capacity,
        pop_model(contents).1 is Some,
    ensures
        push_model(pop_model(contents).0, capacity, s).1,
{
}

/// Under any run of pushes and pops in which no push fails, samples come out
/// in the order they went in: what was popped, then what still waits, is what
/// was there at first followed by everything pushed.
pub proof fn lemma_fifo_order(contents: Seq<Sample>, capacity: nat, ops: Seq<Option<Sample>>)
    requires
        run_ops(contents, capacity, ops).2,
    ensures
        run_ops(contents, capacity, ops).1 + run_ops(contents, capacity, ops).0 == contents
            + pushed_of(ops),
    decreases ops.len(),
{
    if ops.len() > 0 {
        let (c, popped, ok) = run_ops(contents, capacity, ops.drop_last());
        lemma_fifo_order(contents, capacity, ops.drop_last());
        match ops.last() {
            Some(s) => {
                assert(popped + c.push(s) =~= (popped + c).push(s));
                assert(contents + pushed_of(ops.drop_last()).push(s) =~= (contents + pushed_of(
                    ops.drop_last(),
                )).push(s));
            },
            None => {
                if c.len() > 0 {
                    assert(popped.push(c[0]) + c.drop_first() =~= popped + c);
                }
            },
        }
    } else {
        assert(Seq::<Sample>::empty() + contents =~= contents + Seq::<Sample>::empty());
    }
}

impl Ringbuffer {
    /// Number of slots.
    pub closed spec fn slots(&self) -> int {
        self.capacity + 1
    }

    /// Number of samples waiting.
    pub closed spec fn len_spec(&self) -> int {
        if self.read_index <= self.write_index {
            self.write_index - self.read_index
        } else {
            self.write_index + self.slots() - self.read_index
        }
    }

    /// The slot that holds the `i`-th waiting sample.
    pub closed spec fn slot_of(&self, i: int) -> int {
        if self.read_index + i < self.slots() {
            self.read_index + i
        } else {
            self.read_index + i - self.slots()
        }
    }

    /// Whether slot `j` lies among the waiting samples.
    pub closed spec fn is_live(&self, j: int) -> bool {
        if self.read_index <= self.write_index {
            self.read_index <= j < self.write_index
        } else {
            self.read_index <= j || j < self.write_index
        }
    }

    pub closed spec fn wf(&self) -> bool {
        &&& self.capacity < usize::MAX
        &&& self.buffer@.len() == self.slots()
        &&& self.read_index < self.slots()
        &&& self.write_index < self.slots()
        &&& forall|j: int|
            0 <= j < self.slots() ==> (#[trigger] self.buffer@[j] is Some <==> self.is_live(j))
    }

    /// The fixed capacity.
    pub closed spec fn capacity_spec(&self) -> nat {
        self.capacity as nat
    }
}

impl View for Ringbuffer {
    type V = Seq<Sample>;

    /// The waiting samples, oldest first.
    closed spec fn view(&self) -> Seq<Sample> {
        Seq::new(self.len_spec() as nat, |i: int| self.buffer@[self.slot_of(i)]->Some_0)
    }
}

impl Ringbuffer {
    proof fn lemma_slot_facts(&self)
        requires
            self.wf(),
        ensures
            0 <= self.len_spec() <= self.capacity,
            forall|i: int|
                0 <= i < self.len_spec() ==> 0 <= #[trigger] self.slot_of(i) < self.slots()
                    && self.is_live(self.slot_of(i)),
    {
    }

    /// An empty buffer with room for `capacity` samples.
    pub fn new(capacity: usize) -> (r: Ringbuffer)
        requires
            capacity < usize::MAX,
        ensures
            r.wf(),
            r@ == Seq::<Sample>::empty(),
            r.capacity_spec() == capacity,
    {
        let mut buffer: Vec<Option<Sample>> = Vec::new();
        let mut k: usize = 0;
        while k < capacity + 1
            invariant
                capacity < usize::MAX,
                k <= capacity + 1,
                buffer@.len() == k,
                forall|j: int| 0 <= j < k ==> #[trigger] buffer@[j] is None,
            decreases capacity + 1 - k,
        {
            buffer.push(None);
            k = k + 1;
        }
        let r = Ringbuffer { capacity, buffer, read_index: 0, write_index: 0 };
        assert(r@ =~= Seq::<Sample>::empty());
        r
    }

    /// The fixed capacity.
    pub fn capacity(&self) -> (r: usize)
        ensures
            r == self.capacity_spec(),
    {
        self.capacity
    }

    /// Number of samples waiting to be read.
    pub fn len(&self) -> (r: usize)
        requires
            self.wf(),
        ensures
            r == self@.len(),
    {
        if self.read_index <= self.write_index {
            self.write_index - self.read_index
        } else {
            self.write_index + (self.capacity + 1 - self.read_index)
        }
    }

    fn next_index(&self, i: usize) -> (r: usize)
        requires
            self.capacity < usize::MAX,
            i < self.slots(),
        ensures
            r == next_slot(i as int, self.slots()),
    {
        let n = self.capacity + 1;
        proof {
            if i + 1 == n {
                lemma_mod_self_0(n as int);
            } else {
                lemma_small_mod((i + 1) as nat, n as nat);
            }
        }
        (i + 1) % n
    }

    /// Appends a sample; fails with `Full`, dropping the sample and leaving the
    /// buffer as it was, when `capacity` samples are already waiting. Never
    /// allocates or blocks.
    pub fn push(&mut self, sample: Sample) -> (r: Result<(), RingbufferError>)
        requires
            old(self).wf(),
        ensures
            final(self).wf(),
            final(self).capacity_spec() == old(self).capacity_spec(),
            (final(self)@, r is Ok) == push_model(old(self)@, old(self).capacity_spec(), sample),
            r is Err ==> r == Err::<(), RingbufferError>(RingbufferError::Full),
    {
        proof {
            self.lemma_slot_facts();
        }
        let next = self.next_index(self.write_index);
        if next == self.read_index {
            return Err(RingbufferError::Full);
        }
        let ghost before = *self;
        let w = self.write_index;
        self.buffer.set(w, Some(sample));
        self.write_index = next;
        proof {
            assert(self.len_spec() == before.len_spec() + 1);
            assert forall|j: int| 0 <= j < self.slots() implies (#[trigger] self.buffer@[j] is Some
                <==> self.is_live(j)) by {
                if j != w {
                    assert(before.buffer@[j] == self.buffer@[j]);
                }
            }
            assert forall|i: int| 0 <= i < before.len_spec() implies #[trigger] self.slot_of(i)
                == before.slot_of(i) && self.slot_of(i) != w by {
                before.lemma_slot_facts();
            }
            assert(self.slot_of(before.len_spec()) == w);
            assert(self@ =~= before@.push(sample));
        }
        Ok(())
    }

    /// Removes and returns the oldest waiting sample, or `None` when none waits.
    pub fn pop(&mut self) -> (r: Option<Sample>)
        requires
            old(self).wf(),
        ensures
            final(self).wf(),
            final(self).capacity_spec() == old(self).capacity_spec(),
            (final(self)@, r) == pop_model(old(self)@),
    {
        if self.read_index == self.write_index {
            return None;
        }
        proof {
            self.lemma_slot_facts();
        }
        let ghost before = *self;
        let ri = self.read_index;
        let mut taken: Option<Sample> = None;
        proof {
            assert(self.is_live(ri as int));
        }
        std::mem::swap(&mut self.buffer[ri], &mut taken);
        self.read_index = self.next_index(ri);
        proof {
            assert(self.len_spec() == before.len_spec() - 1);
            assert forall|j: int| 0 <= j < self.slots() implies (#[trigger] self.buffer@[j] is Some
                <==> self.is_live(j)) by {
                if j != ri {
                    assert(before.buffer@[j] == self.buffer@[j]);
                }
            }
            assert forall|i: int| 0 <= i < self.len_spec() implies #[trigger] self.slot_of(i)
                == before.slot_of(i + 1) by {}
            assert(before.slot_of(0) == ri);
            assert(self@ =~= before@.drop_first());
        }
        taken
    }

    /// The runtime handles that the waiting samples refer to, oldest sample first.
    pub fn references(&self) -> (r: Vec<u64>)
        requires
            self.wf(),
        ensures
            r@ == refs_of_all(self@),
    {
        proof {
            self.lemma_slot_facts();
        }
        let n = self.len();
        let mut r: Vec<u64> = Vec::new();
        let mut i: usize = 0;
        while i < n
            invariant
                self.wf(),
                n == self@.len(),
                i <= n,
                r@ == refs_of_all(self@.take(i as int)),
                forall|k: int|
                    0 <= k < self.len_spec() ==> 0 <= #[trigger] self.slot_of(k) < self.slots()
                        && self.is_live(self.slot_of(k)),
            decreases n - i,
        {
            let slot = if i < self.capacity + 1 - self.read_index {
                self.read_index + i
            } else {
                i - (self.capacity + 1 - self.read_index)
            };
            assert(slot == self.slot_of(i as int));
            match &self.buffer[slot] {
                Some(s) => {
                    let refs = s.references();
                    let mut t: Vec<u64> = refs;
                    r.append(&mut t);
                },
                None => {},
            }
            proof {
                assert(self@.take(i + 1).drop_last() =~= self@.take(i as int));
            }
            i = i + 1;
        }
        proof {
            assert(self@.take(n as int) =~= self@);
        }
        r
    }
}

} // verus!
