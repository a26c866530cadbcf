//! Building the flat output layout from a profile.

use std::collections::HashMap;

use vstd::prelude::*;
use vstd::std_specs::hash::group_hash_axioms;

use super::profile::{
    Function, FunctionImplementation, FunctionIndex, Location, LocationIndex, Profile, Sample,
    same_function,
};
use crate::sample::{MAX_C_STACK_DEPTH, MAX_STACK_DEPTH};

verus! {

broadcast use group_hash_axioms;

/// What the runtime told about the frames of a profile, gathered before it is
/// serialized: the function of each interpreted frame handle, and the symbol
/// of each native program counter. Frames missing here are serialized with a
/// placeholder function that carries no information.
pub struct FrameSymbols {
    pub ruby_frames: HashMap<u64, Function>,
    pub native_pcs: HashMap<usize, Function>,
}

impl FrameSymbols {
    /// The function of an interpreted frame handle, or the placeholder.
    pub fn ruby_function(&self, frame: u64) -> (r: Function)
        ensures
            r == ruby_function_of(self.ruby_frames@, frame),
    {
        match self.ruby_frames.get(&frame) {
            Some(f) => f.clone(),
            None => Function {
                implementation: FunctionImplementation::Ruby,
                name: None,
                filename: None,
                start_lineno: None,
                start_address: None,
            },
        }
    }

    /// The function of a native program counter, or the placeholder.
    pub fn native_function(&self, pc: usize) -> (r: Function)
        ensures
            r == native_function_of(self.native_pcs@, pc),
    {
        match self.native_pcs.get(&pc) {
            Some(f) => f.clone(),
            None => Function {
                implementation: FunctionImplementation::Native,
                name: None,
                filename: None,
                start_lineno: None,
                start_address: None,
            },
        }
    }
}

/// A function that carries no information beyond its kind.
pub open spec fn placeholder_function(implementation: FunctionImplementation) -> Function {
    Function {
        implementation,
        name: None,
        filename: None,
        start_lineno: None,
        start_address: None,
    }
}

/// The function of an interpreted frame handle.
pub open spec fn ruby_function_of(m: Map<u64, Function>, frame: u64) -> Function {
    if m.contains_key(frame) {
        m[frame]
    } else {
        placeholder_function(FunctionImplementation::Ruby)
    }
}

/// The function of a native program counter.
pub open spec fn native_function_of(m: Map<usize, Function>, pc: usize) -> Function {
    if m.contains_key(pc) {
        m[pc]
    } else {
        placeholder_function(FunctionImplementation::Native)
    }
}

/// No two entries of the table are the same function.
pub open spec fn functions_distinct(fs: Seq<Function>) -> bool {
    forall|i: int, j: int|
        0 <= i < fs.len() && 0 <= j < fs.len() && i != j ==> !same_function(
            #[trigger] fs[i],
            #[trigger] fs[j],
        )
}

/// No two entries of the table are the same location.
pub open spec fn locations_distinct(ls: Seq<Location>) -> bool {
    forall|i: int, j: int|
        0 <= i < ls.len() && 0 <= j < ls.len() && i != j ==> !(#[trigger] ls[i].function_index
            == #[trigger] ls[j].function_index && ls[i].lineno == ls[j].lineno)
}

/// The table and index after looking `f` up in `fs`, adding it at the end when
/// no entry is the same function.
pub open spec fn intern_function(fs: Seq<Function>, f: Function) -> (Seq<Function>, int) {
    if exists|i: int| 0 <= i < fs.len() && same_function(fs[i], f) {
        (fs, choose|i: int| 0 <= i < fs.len() && same_function(fs[i], f))
    } else {
        (fs.push(f), fs.len() as int)
    }
}

/// The table and index after looking up the location of line `lineno` in
/// function `fi`, adding it at the end, without an address, when it is new.
pub open spec fn intern_location(ls: Seq<Location>, fi: int, lineno: i32) -> (Seq<Location>, int) {
    if exists|i: int| 0 <= i < ls.len() && ls[i].function_index == fi && ls[i].lineno == lineno {
        (ls, choose|i: int| 0 <= i < ls.len() && ls[i].function_index == fi && ls[i].lineno == lineno)
    } else {
        (ls.push(Location { function_index: fi as usize, lineno, address: None }), ls.len() as int)
    }
}

/// Tables and stack after interning the first `n` interpreted frames of a sample.
pub open spec fn intern_ruby_frames(
    fs: Seq<Function>,
    ls: Seq<Location>,
    m: Map<u64, Function>,
    frames: Seq<u64>,
    linenos: Seq<i32>,
    n: int,
) -> (Seq<Function>, Seq<Location>, Seq<usize>)
    decreases n,
{
    if n <= 0 {
        (fs, ls, Seq::empty())
    } else {
        let (fs1, ls1, stack) = intern_ruby_frames(fs, ls, m, frames, linenos, n - 1);
        let (fs2, fi) = intern_function(fs1, ruby_function_of(m, frames[n - 1]));
        let (ls2, li) = intern_location(ls1, fi, linenos[n - 1]);
        (fs2, ls2, stack.push(li as usize))
    }
}

/// Tables and stack after interning the first `n` native program counters of a
/// sample (`pcs[1..=n]`), each at line 0.
pub open spec fn intern_native_frames(
    fs: Seq<Function>,
    ls: Seq<Location>,
    m: Map<usize, Function>,
    pcs: Seq<usize>,
    n: int,
) -> (Seq<Function>, Seq<Location>, Seq<usize>)
    decreases n,
{
    if n <= 0 {
        (fs, ls, Seq::empty())
    } else {
        let (fs1, ls1, stack) = intern_native_frames(fs, ls, m, pcs, n - 1);
        let (fs2, fi) = intern_function(fs1, native_function_of(m, pcs[n]));
        let (ls2, li) = intern_location(ls1, fi, 0);
        (fs2, ls2, stack.push(li as usize))
    }
}

/// A wire sample as plain values: stack, native stack, thread, elapsed time.
pub open spec fn sample_view(s: Sample) -> (Seq<usize>, Seq<usize>, Option<u64>, u64) {
    (s.stack@, s.native_stack@, s.ruby_thread_id, s.elapsed_ns)
}

/// Nanoseconds from `start` to `t`, or 0 when `t` is earlier.
pub open spec fn elapsed_between(start: u64, t: u64) -> u64 {
    if t >= start {
        (t - start) as u64
    } else {
        0
    }
}

/// Whether a captured sample's counts fit its arrays.
pub open spec fn captured_wf(s: crate::sample::Sample) -> bool {
    0 <= s.line_count <= MAX_STACK_DEPTH && s.c_backtrace_pcs@[0] <= MAX_C_STACK_DEPTH
}

/// Tables and wire sample after serializing one captured sample.
pub open spec fn serialize_sample_model(
    fs: Seq<Function>,
    ls: Seq<Location>,
    symbols_ruby: Map<u64, Function>,
    symbols_native: Map<usize, Function>,
    s: crate::sample::Sample,
    start: u64,
) -> (Seq<Function>, Seq<Location>, (Seq<usize>, Seq<usize>, Option<u64>, u64)) {
    let (fs1, ls1, stack) = intern_ruby_frames(
        fs,
        ls,
        symbols_ruby,
        s.frames@,
        s.linenos@,
        s.line_count as int,
    );
    let (fs2, ls2, native) = intern_native_frames(
        fs1,
        ls1,
        symbols_native,
        s.c_backtrace_pcs@,
        s.c_backtrace_pcs@[0] as int,
    );
    (fs2, ls2, (stack, native, Some(s.ruby_thread), elapsed_between(start, s.timestamp)))
}

/// Tables and wire samples after serializing the first `n` captured samples.
pub open spec fn serialize_model(
    fs: Seq<Function>,
    ls: Seq<Location>,
    symbols_ruby: Map<u64, Function>,
    symbols_native: Map<usize, Function>,
    samples: Seq<crate::sample::Sample>,
    start: u64,
    n: int,
) -> (Seq<Function>, Seq<Location>, Seq<(Seq<usize>, Seq<usize>, Option<u64>, u64)>)
    decreases n,
{
    if n <= 0 {
        (fs, ls, Seq::empty())
    } else {
        let (fs1, ls1, out) = serialize_model(
            fs,
            ls,
            symbols_ruby,
            symbols_native,
            samples,
            start,
            n - 1,
        );
        let (fs2, ls2, sv) = serialize_sample_model(
            fs1,
            ls1,
            symbols_ruby,
            symbols_native,
            samples[n - 1],
            start,
        );
        (fs2, ls2, out.push(sv))
    }
}

/// Every index in the profile points into its table: each stack entry into
/// `locations`, each location's function into `functions`.
pub open spec fn indices_valid(p: Profile) -> bool {
    &&& forall|i: int|
        0 <= i < p.locations@.len() ==> (#[trigger] p.locations@[i]).function_index
            < p.functions@.len()
    &&& forall|i: int, k: int|
        0 <= i < p.samples@.len() && 0 <= k < p.samples@[i].stack@.len()
            ==> #[trigger] p.samples@[i].stack@[k] < p.locations@.len()
    &&& forall|i: int, k: int|
        0 <= i < p.samples@.len() && 0 <= k < p.samples@[i].native_stack@.len()
            ==> #[trigger] p.samples@[i].native_stack@[k] < p.locations@.len()
}

/// Interning two functions that are the same, one after the other, gives one
/// table entry and the same index both times.
pub proof fn lemma_same_function_same_index(fs: Seq<Function>, f: Function, g: Function)
    requires
        functions_distinct(fs),
        same_function(f, g),
    ensures
        intern_function(intern_function(fs, f).0, g) == intern_function(fs, f),
        functions_distinct(intern_function(fs, f).0),
{
    let (fs1, i1) = intern_function(fs, f);
    if exists|i: int| 0 <= i < fs.len() && same_function(fs[i], f) {
        let c = choose|i: int| 0 <= i < fs1.len() && same_function(fs1[i], g);
        assert(same_function(fs1[i1], g));
        if c != i1 {
            assert(!same_function(fs[c], fs[i1]));
        }
    } else {
        assert(same_function(fs1[fs.len() as int], g));
        let c = choose|i: int| 0 <= i < fs1.len() && same_function(fs1[i], g);
        if c < fs.len() {
            assert(same_function(fs[c], f));
        }
        assert forall|i: int, j: int|
            0 <= i < fs1.len() && 0 <= j < fs1.len() && i != j implies !same_function(
            #[trigger] fs1[i],
            #[trigger] fs1[j],
        ) by {
            if i < fs.len() && j < fs.len() {
                assert(fs1[i] == fs[i] && fs1[j] == fs[j]);
            } else if i < fs.len() {
                assert(fs1[i] == fs[i]);
            } else {
                assert(fs1[j] == fs[j]);
            }
        }
    }
}

/// Interning the same function and line twice gives one table entry and the
/// same index both times.
pub proof fn lemma_same_location_same_index(ls: Seq<Location>, fi: int, lineno: i32)
    requires
        locations_distinct(ls),
        0 <= fi <= usize::MAX,
    ensures
        intern_location(intern_location(ls, fi, lineno).0, fi, lineno) == intern_location(
            ls,
            fi,
            lineno,
        ),
{
    let (ls1, i1) = intern_location(ls, fi, lineno);
    assert(ls1[i1].function_index == fi && ls1[i1].lineno == lineno);
    let c = choose|i: int| 0 <= i < ls1.len() && ls1[i].function_index == fi && ls1[i].lineno == lineno;
    if c != i1 {
        if c < ls.len() && i1 < ls.len() {
            assert(ls1[c] == ls[c] && ls1[i1] == ls[i1]);
        } else if c < ls.len() {
            assert(ls1[c] == ls[c]);
        }
    }
}

/// Builds a wire profile from accumulated samples, interning every function
/// and location once.
pub struct ProfileSerializer2 {
    profile: Profile,
}

impl ProfileSerializer2 {
    /// The profile built so far.
    pub closed spec fn profile_spec(&self) -> Profile {
        self.profile
    }

    pub open spec fn wf(&self) -> bool {
        &&& functions_distinct(self.profile_spec().functions@)
        &&& locations_distinct(self.profile_spec().locations@)
        &&& indices_valid(self.profile_spec())
    }

    /// An empty profile.
    pub fn new() -> (r: ProfileSerializer2)
        ensures
            r.wf(),
            r.profile_spec().samples@.len() == 0,
            r.profile_spec().locations@.len() == 0,
            r.profile_spec().functions@.len() == 0,
            r.profile_spec().start_timestamp_ns == 0,
            r.profile_spec().duration_ns == 0,
    {
        ProfileSerializer2 {
            profile: Profile {
                start_timestamp_ns: 0,
                duration_ns: 0,
                samples: Vec::new(),
                locations: Vec::new(),
                functions: Vec::new(),
            },
        }
    }

    /// The profile built so far.
    pub fn profile(&self) -> (r: &Profile)
        ensures
            *r == self.profile_spec(),
    {
        &self.profile
    }

    /// The index of `function` in the function table, added at the end when
    /// no entry is the same function.
    pub fn function_index_for(&mut self, function: Function) -> (r: FunctionIndex)
        requires
            old(self).wf(),
        ensures
            final(self).wf(),
            (final(self).profile_spec().functions@, r as int) == intern_function(
                old(self).profile_spec().functions@,
                function,
            ),
            final(self).profile_spec().locations@ == old(self).profile_spec().locations@,
            final(self).profile_spec().samples@ == old(self).profile_spec().samples@,
            final(self).profile_spec().start_timestamp_ns
                == old(self).profile_spec().start_timestamp_ns,
            final(self).profile_spec().duration_ns == old(self).profile_spec().duration_ns,
    {
        let n = self.profile.functions.len();
        let mut i: usize = 0;
        while i < n
            invariant
                n == self.profile.functions@.len(),
                i <= n,
                self.wf(),
                self.profile == old(self).profile,
                forall|j: int| 0 <= j < i ==> !same_function(self.profile.functions@[j], function),
            decreases n - i,
        {
            if self.profile.functions[i] == function {
                proof {
                    let fs = self.profile.functions@;
                    let c = choose|j: int| 0 <= j < fs.len() && same_function(fs[j], function);
                    if c != i {
                        assert(!same_function(fs[c], fs[i as int]));
                    }
                }
                return i;
            }
            i = i + 1;
        }
        self.profile.functions.push(function);
        n
    }

    /// The index of the location of line `lineno` in function `function_index`,
    /// added at the end, without an address, when it is new.
    pub fn location_index_for(&mut self, function_index: FunctionIndex, lineno: i32) -> (r:
        LocationIndex)
        requires
            old(self).wf(),
            function_index < old(self).profile_spec().functions@.len(),
        ensures
            final(self).wf(),
            (final(self).profile_spec().locations@, r as int) == intern_location(
                old(self).profile_spec().locations@,
                function_index as int,
                lineno,
            ),
            final(self).profile_spec().functions@ == old(self).profile_spec().functions@,
            final(self).profile_spec().samples@ == old(self).profile_spec().samples@,
            final(self).profile_spec().start_timestamp_ns
                == old(self).profile_spec().start_timestamp_ns,
            final(self).profile_spec().duration_ns == old(self).profile_spec().duration_ns,
    {
        let location = Location { function_index, lineno, address: None };
        let n = self.profile.locations.len();
        let mut i: usize = 0;
        while i < n
            invariant
                n == self.profile.locations@.len(),
                i <= n,
                self.wf(),
                self.profile == old(self).profile,
                location == (Location { function_index, lineno, address: None }),
                forall|j: int|
                    0 <= j < i ==> !(self.profile.locations@[j].function_index == function_index
                        && self.profile.locations@[j].lineno == lineno),
            decreases n - i,
        {
            if self.profile.locations[i] == location {
                proof {
                    let ls = self.profile.locations@;
                    let c = choose|j: int|
                        0 <= j < ls.len() && ls[j].function_index == function_index && ls[j].lineno
                            == lineno;
                    if c != i {
                        assert(ls[c].function_index == ls[i as int].function_index);
                    }
                }
                return i;
            }
            i = i + 1;
        }
        self.profile.locations.push(location);
        proof {
            let p = self.profile;
        }
        n
    }

    fn intern_frame(&mut self, function: Function, lineno: i32) -> (r: LocationIndex)
        requires
            old(self).wf(),
        ensures
            final(self).wf(),
            ({
                let (fs, fi) = intern_function(old(self).profile_spec().functions@, function);
                let (ls, li) = intern_location(old(self).profile_spec().locations@, fi, lineno);
                final(self).profile_spec().functions@ == fs && final(self).profile_spec().locations@
                    == ls && r as int == li
            }),
            final(self).profile_spec().locations@.len() >= old(self).profile_spec().locations@.len(),
            r < final(self).profile_spec().locations@.len(),
            final(self).profile_spec().samples@ == old(self).profile_spec().samples@,
            final(self).profile_spec().start_timestamp_ns
                == old(self).profile_spec().start_timestamp_ns,
            final(self).profile_spec().duration_ns == old(self).profile_spec().duration_ns,
    {
        let fi = self.function_index_for(function);
        self.location_index_for(fi, lineno)
    }

    fn serialize_sample(
        &mut self,
        sample: &crate::sample::Sample,
        symbols: &FrameSymbols,
        start_instant: u64,
    ) -> (r: Sample)
        requires
            old(self).wf(),
            captured_wf(*sample),
        ensures
            final(self).wf(),
            ({
                let (fs, ls, sv) = serialize_sample_model(
                    old(self).profile_spec().functions@,
                    old(self).profile_spec().locations@,
                    symbols.ruby_frames@,
                    symbols.native_pcs@,
                    *sample,
                    start_instant,
                );
                final(self).profile_spec().functions@ == fs && final(self).profile_spec().locations@
                    == ls && sample_view(r) == sv
            }),
            forall|k: int|
                0 <= k < r.stack@.len() ==> #[trigger] r.stack@[k]
                    < final(self).profile_spec().locations@.len(),
            forall|k: int|
                0 <= k < r.native_stack@.len() ==> #[trigger] r.native_stack@[k]
                    < final(self).profile_spec().locations@.len(),
            final(self).profile_spec().samples@ == old(self).profile_spec().samples@,
            final(self).profile_spec().start_timestamp_ns
                == old(self).profile_spec().start_timestamp_ns,
            final(self).profile_spec().duration_ns == old(self).profile_spec().duration_ns,
    {
        let ghost fs0 = self.profile.functions@;
        let ghost ls0 = self.profile.locations@;
        let ghost rm = symbols.ruby_frames@;
        let ghost nm = symbols.native_pcs@;
        let depth = sample.line_count as usize;
        let mut stack: Vec<LocationIndex> = Vec::new();
        let mut i: usize = 0;
        while i < depth
            invariant
                depth == sample.line_count,
                depth <= MAX_STACK_DEPTH,
                rm == symbols.ruby_frames@,
                i <= depth,
                self.wf(),
                (self.profile.functions@, self.profile.locations@, stack@) == intern_ruby_frames(
                    fs0,
                    ls0,
                    rm,
                    sample.frames@,
                    sample.linenos@,
                    i as int,
                ),
                forall|k: int|
                    0 <= k < stack@.len() ==> #[trigger] stack@[k] < self.profile.locations@.len(),
                self.profile.samples@ == old(self).profile.samples@,
                self.profile.start_timestamp_ns == old(self).profile.start_timestamp_ns,
                self.profile.duration_ns == old(self).profile.duration_ns,
            decreases depth - i,
        {
            let function = symbols.ruby_function(sample.frames[i]);
            let li = self.intern_frame(function, sample.linenos[i]);
            stack.push(li);
            i = i + 1;
        }
        let ghost fs1 = self.profile.functions@;
        let ghost ls1 = self.profile.locations@;
        let native_depth = sample.c_backtrace_pcs[0];
        let mut native_stack: Vec<LocationIndex> = Vec::new();
        let mut j: usize = 0;
        while j < native_depth
            invariant
                native_depth == sample.c_backtrace_pcs@[0],
                nm == symbols.native_pcs@,
                native_depth <= MAX_C_STACK_DEPTH,
                j <= native_depth,
                self.wf(),
                (self.profile.functions@, self.profile.locations@, native_stack@)
                    == intern_native_frames(fs1, ls1, nm, sample.c_backtrace_pcs@, j as int),
                forall|k: int|
                    0 <= k < stack@.len() ==> #[trigger] stack@[k] < self.profile.locations@.len(),
                forall|k: int|
                    0 <= k < native_stack@.len() ==> #[trigger] native_stack@[k]
                        < self.profile.locations@.len(),
                self.profile.samples@ == old(self).profile.samples@,
                self.profile.start_timestamp_ns == old(self).profile.start_timestamp_ns,
                self.profile.duration_ns == old(self).profile.duration_ns,
            decreases native_depth - j,
        {
            let pc = sample.c_backtrace_pcs[j + 1];
            let function = symbols.native_function(pc);
            let li = self.intern_frame(function, 0);
            native_stack.push(li);
            j = j + 1;
        }
        let elapsed_ns: u64 = if sample.timestamp >= start_instant {
            sample.timestamp - start_instant
        } else {
            0
        };
        Sample { stack, native_stack, ruby_thread_id: Some(sample.ruby_thread), elapsed_ns }
    }

    /// Fills the profile from accumulated samples, in order.
    ///
    /// The start timestamp is copied; the duration is the time from the start
    /// to the end instant (0 if the end came first). Each sample's interpreted
    /// frames, then its native program counters, are interned in turn, so the
    /// tables list functions and locations in order of first appearance; each
    /// wire sample records its thread and the time since the start.
    pub fn serialize(&mut self, source: &crate::profile::Profile, symbols: &FrameSymbols)
        requires
            old(self).wf(),
            source.end_instant is Some,
            forall|i: int| 0 <= i < source.samples@.len() ==> captured_wf(#[trigger] source.samples@[i]),
        ensures
            final(self).wf(),
            indices_valid(final(self).profile_spec()),
            final(self).profile_spec().start_timestamp_ns == source.start_timestamp_ns,
            final(self).profile_spec().duration_ns == elapsed_between(
                source.start_instant,
                source.end_instant->Some_0,
            ) as u128,
            ({
                let (fs, ls, out) = serialize_model(
                    old(self).profile_spec().functions@,
                    old(self).profile_spec().locations@,
                    symbols.ruby_frames@,
                    symbols.native_pcs@,
                    source.samples@,
                    source.start_instant,
                    source.samples@.len() as int,
                );
                &&& final(self).profile_spec().functions@ == fs
                &&& final(self).profile_spec().locations@ == ls
                &&& final(self).profile_spec().samples@.map_values(|s: Sample| sample_view(s))
                    == old(self).profile_spec().samples@.map_values(|s: Sample| sample_view(s))
                    + out
            }),
    {
        self.profile.start_timestamp_ns = source.start_timestamp_ns;
        let end = match source.end_instant {
            Some(e) => e,
            None => 0,
        };
        self.profile.duration_ns = if end >= source.start_instant {
            (end - source.start_instant) as u128
        } else {
            0
        };
        let ghost fs0 = self.profile.functions@;
        let ghost ls0 = self.profile.locations@;
        let ghost samples0 = self.profile.samples@.map_values(|s: Sample| sample_view(s));
        let n = source.samples.len();
        let mut i: usize = 0;
        while i < n
            invariant
                n == source.samples@.len(),
                i <= n,
                self.wf(),
                forall|k: int| 0 <= k < source.samples@.len() ==> captured_wf(#[trigger] source.samples@[k]),
                ({
                    let (fs, ls, out) = serialize_model(
                        fs0,
                        ls0,
                        symbols.ruby_frames@,
                        symbols.native_pcs@,
                        source.samples@,
                        source.start_instant,
                        i as int,
                    );
                    &&& self.profile.functions@ == fs
                    &&& self.profile.locations@ == ls
                    &&& self.profile.samples@.map_values(|s: Sample| sample_view(s)) == samples0
                        + out
                }),
                self.profile.start_timestamp_ns == source.start_timestamp_ns,
                self.profile.duration_ns == elapsed_between(
                    source.start_instant,
                    source.end_instant->Some_0,
                ) as u128,
            decreases n - i,
        {
            let wire = self.serialize_sample(&source.samples[i], symbols, source.start_instant);
            let ghost before = self.profile.samples@;
            self.profile.samples.push(wire);
            proof {
                let p = self.profile;
                assert(p.samples@ == before.push(wire));
                assert(p.samples@.map_values(|s: Sample| sample_view(s)) =~= before.map_values(
                    |s: Sample| sample_view(s),
                ).push(sample_view(wire)));
                assert forall|a: int, k: int|
                    0 <= a < p.samples@.len() && 0 <= k < p.samples@[a].stack@.len()
                        implies #[trigger] p.samples@[a].stack@[k] < p.locations@.len() by {
                    if a < before.len() {
                        assert(p.samples@[a] == before[a]);
                    }
                }
                assert forall|a: int, k: int|
                    0 <= a < p.samples@.len() && 0 <= k < p.samples@[a].native_stack@.len()
                        implies #[trigger] p.samples@[a].native_stack@[k] < p.locations@.len() by {
                    if a < before.len() {
                        assert(p.samples@[a] == before[a]);
                    }
                }
            }
            i = i + 1;
        }
    }
}

} // verus!
