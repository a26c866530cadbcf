//! Per-thread stack trees with frame tables, built from a profile's samples.

use std::hash::{DefaultHasher, Hasher};

use vstd::prelude::*;
use vstd::std_specs::hash::DefaultHasherAdditionalSpecFns;
use vstd::utf8::encode_utf8;

use crate::sample::{MAX_C_STACK_DEPTH, MAX_STACK_DEPTH};
use crate::serialization::profile::{Function, opt_text};
use crate::serialization::serializer::{
    FrameSymbols, captured_wf, elapsed_between, native_function_of, ruby_function_of,
};

verus! {

/// Identity of a runtime thread.
pub type ThreadId = u64;

/// Identity of a frame: the runtime's frame handle for an interpreted frame,
/// a digest of the symbol name for a native one.
pub type FrameTableId = u64;

/// Identity of a stack-tree node, unique within one serialization.
pub type StackTreeNodeId = u64;

#[derive(Clone, Copy, Debug, PartialEq, Eq, Structural)]
pub enum FrameTableEntryType {
    Ruby,
    Native,
}

/// What the profile records about one frame.
#[derive(Debug)]
pub struct FrameTableEntry {
    pub id: FrameTableId,
    pub entry_type: FrameTableEntryType,
    pub full_label: String,
    pub file_name: Option<String>,
    pub function_first_lineno: Option<i32>,
    pub callsite_lineno: Option<i32>,
    pub address: Option<usize>,
}

/// A frame table entry as plain values.
pub type EntryView = (
    u64,
    FrameTableEntryType,
    Seq<char>,
    Option<Seq<char>>,
    Option<i32>,
    Option<i32>,
    Option<usize>,
);

pub open spec fn entry_view(e: FrameTableEntry) -> EntryView {
    (
        e.id,
        e.entry_type,
        e.full_label@,
        opt_text(e.file_name),
        e.function_first_lineno,
        e.callsite_lineno,
        e.address,
    )
}

/// Whether `pattern` occurs in `s`.
pub open spec fn contains_text(s: Seq<char>, pattern: Seq<char>) -> bool {
    exists|i: int|
        0 <= i <= s.len() - pattern.len() && #[trigger] s.subrange(i, i + pattern.len()) == pattern
}

/// Relies on `str::contains` with a `&str` pattern: true exactly when the
/// pattern occurs in the string.
#[verifier::external_body]
fn text_contains(s: &str, pattern: &str) -> (r: bool)
    ensures
        r == contains_text(s@, pattern@),
{
    s.contains(pattern)
}

/// The id of a native frame: the default hasher's digest of the symbol name's bytes.
pub open spec fn c_frame_id(name: Seq<char>) -> u64 {
    DefaultHasher::spec_finish(seq![encode_utf8(name)])
}

/// Computes the id of a native frame from its symbol name.
pub fn calculate_id_for_c_frame(name: &String) -> (r: FrameTableId)
    ensures
        r == c_frame_id(name@),
{
    let mut hasher = DefaultHasher::new();
    hasher.write(name.as_str().as_bytes());
    hasher.finish()
}

/// The label of an interpreted frame whose name is unknown.
pub open spec fn unknown_label() -> Seq<char> {
    "(unknown)"@
}

/// The label of a native frame without symbol information.
pub open spec fn no_symbol_label() -> Seq<char> {
    "(no symbol information)"@
}

/// The entry for an interpreted frame hit at `lineno`.
pub open spec fn ruby_entry_model(f: Function, frame: u64, lineno: i32) -> EntryView {
    (
        frame,
        FrameTableEntryType::Ruby,
        match opt_text(f.name) {
            Some(n) => n,
            None => unknown_label(),
        },
        Some(
            match opt_text(f.filename) {
                Some(n) => n,
                None => unknown_label(),
            },
        ),
        f.start_lineno,
        Some(lineno),
        f.start_address,
    )
}

/// The label of a native frame.
pub open spec fn native_label(f: Function) -> Seq<char> {
    match opt_text(f.name) {
        Some(n) => n,
        None => no_symbol_label(),
    }
}

/// The entry for a native frame.
pub open spec fn native_entry_model(f: Function) -> EntryView {
    (
        c_frame_id(native_label(f)),
        FrameTableEntryType::Native,
        native_label(f),
        None,
        None,
        None,
        if f.name is Some {
            f.start_address
        } else {
            None
        },
    )
}

/// Whether a native frame belongs to the profiler itself.
pub open spec fn is_profiler_frame(f: Function) -> bool {
    contains_text(native_label(f), "pf2"@)
}

/// The entries of the first `n` native frames of a counter array, leaf first,
/// leaving out the profiler's own frames.
pub open spec fn native_entries(m: Map<usize, Function>, pcs: Seq<usize>, n: int) -> Seq<EntryView>
    decreases n,
{
    if n <= 0 {
        Seq::empty()
    } else {
        let f = native_function_of(m, pcs[n]);
        if is_profiler_frame(f) {
            native_entries(m, pcs, n - 1)
        } else {
            native_entries(m, pcs, n - 1).push(native_entry_model(f))
        }
    }
}

/// The entries of a sample, leaf first: native frames, then interpreted frames.
pub open spec fn merged_stack_model(s: crate::sample::Sample, symbols: FrameSymbols) -> Seq<EntryView> {
    native_entries(symbols.native_pcs@, s.c_backtrace_pcs@, s.c_backtrace_pcs@[0] as int) + Seq::new(
        s.line_count as nat,
        |i: int|
            ruby_entry_model(ruby_function_of(symbols.ruby_frames@, s.frames@[i]), s.frames@[i], s.linenos@[i]),
    )
}

fn text_or(s: &Option<String>, fallback: &str) -> (r: String)
    ensures
        r@ == match opt_text(*s) {
            Some(n) => n,
            None => fallback@,
        },
{
    match s {
        Some(t) => t.clone(),
        None => fallback.to_owned(),
    }
}

/// The entry for one native frame.
fn native_entry(f: &Function) -> (r: FrameTableEntry)
    ensures
        entry_view(r) == native_entry_model(*f),
{
    let label = text_or(&f.name, "(no symbol information)");
    let address = match &f.name {
        Some(_) => f.start_address,
        None => None,
    };
    FrameTableEntry {
        id: calculate_id_for_c_frame(&label),
        entry_type: FrameTableEntryType::Native,
        full_label: label,
        file_name: None,
        function_first_lineno: None,
        callsite_lineno: None,
        address,
    }
}

/// The entry for one interpreted frame.
fn ruby_entry(f: &Function, frame: u64, lineno: i32) -> (r: FrameTableEntry)
    ensures
        entry_view(r) == ruby_entry_model(*f, frame, lineno),
{
    FrameTableEntry {
        id: frame,
        entry_type: FrameTableEntryType::Ruby,
        full_label: text_or(&f.name, "(unknown)"),
        file_name: Some(text_or(&f.filename, "(unknown)")),
        function_first_lineno: f.start_lineno,
        callsite_lineno: Some(lineno),
        address: f.start_address,
    }
}

/// The entries of a sample, leaf first: its native frames other than the
/// profiler's own, then its interpreted frames.
pub fn merged_stack(sample: &crate::sample::Sample, symbols: &FrameSymbols) -> (r: Vec<FrameTableEntry>)
    requires
        captured_wf(*sample),
    ensures
        r@.map_values(|e: FrameTableEntry| entry_view(e)) == merged_stack_model(*sample, *symbols),
        r@.len() <= MAX_C_STACK_DEPTH + MAX_STACK_DEPTH,
{
    let mut r: Vec<FrameTableEntry> = Vec::new();
    let native_depth = sample.c_backtrace_pcs[0];
    let mut j: usize = 0;
    while j < native_depth
        invariant
            native_depth == sample.c_backtrace_pcs@[0],
            native_depth <= MAX_C_STACK_DEPTH,
            j <= native_depth,
            r@.len() <= j,
            r@.map_values(|e: FrameTableEntry| entry_view(e)) == native_entries(
                symbols.native_pcs@,
                sample.c_backtrace_pcs@,
                j as int,
            ),
        decreases native_depth - j,
    {
        let f = symbols.native_function(sample.c_backtrace_pcs[j + 1]);
        let entry = native_entry(&f);
        if !text_contains(entry.full_label.as_str(), "pf2") {
            let ghost before = r@;
            r.push(entry);
            proof {
                assert(r@.map_values(|e: FrameTableEntry| entry_view(e)) =~= before.map_values(
                    |e: FrameTableEntry| entry_view(e),
                ).push(entry_view(entry)));
            }
        }
        j = j + 1;
    }
    let ghost natives = r@.map_values(|e: FrameTableEntry| entry_view(e));
    let depth = sample.line_count as usize;
    let mut i: usize = 0;
    while i < depth
        invariant
            depth == sample.line_count,
            depth <= MAX_STACK_DEPTH,
            i <= depth,
            natives.len() <= MAX_C_STACK_DEPTH,
            r@.len() == natives.len() + i,
            r@.map_values(|e: FrameTableEntry| entry_view(e)) == natives + Seq::new(
                i as nat,
                |k: int|
                    ruby_entry_model(
                        ruby_function_of(symbols.ruby_frames@, sample.frames@[k]),
                        sample.frames@[k],
                        sample.linenos@[k],
                    ),
            ),
        decreases depth - i,
    {
        let frame = sample.frames[i];
        let f = symbols.ruby_function(frame);
        let entry = ruby_entry(&f, frame, sample.linenos[i]);
        let ghost before = r@;
        r.push(entry);
        proof {
            assert(entry_view(entry) == ruby_entry_model(
                ruby_function_of(symbols.ruby_frames@, sample.frames@[i as int]),
                sample.frames@[i as int],
                sample.linenos@[i as int],
            ));
            assert(r@.map_values(|e: FrameTableEntry| entry_view(e)) =~= before.map_values(
                |e: FrameTableEntry| entry_view(e),
            ).push(entry_view(entry)));
            assert(r@.map_values(|e: FrameTableEntry| entry_view(e)) =~= natives + Seq::new(
                (i + 1) as nat,
                |k: int|
                    ruby_entry_model(
                        ruby_function_of(symbols.ruby_frames@, sample.frames@[k]),
                        sample.frames@[k],
                        sample.linenos@[k],
                    ),
            ));
        }
        i = i + 1;
    }
    r
}

/// One node of a thread's stack tree: a frame reached by one call path.
/// `children` are positions in the thread's `stack_tree`.
#[derive(Debug)]
pub struct StackTreeNode {
    pub children: Vec<usize>,
    pub node_id: StackTreeNodeId,
    pub frame_id: FrameTableId,
}

/// One sample: when it was taken and the tree node of its leaf frame.
#[derive(Clone, Copy, Debug, PartialEq, Eq, Structural)]
pub struct ProfileSample {
    pub elapsed_ns: u128,
    pub stack_tree_id: StackTreeNodeId,
}

/// The samples of one thread. `stack_tree[0]` is the root, which stands for no
/// frame; each path from it spells a call stack, root first, keyed by frame id.
#[derive(Debug)]
pub struct ThreadProfile {
    pub thread_id: ThreadId,
    pub stack_tree: Vec<StackTreeNode>,
    pub frame_table: Vec<FrameTableEntry>,
    pub samples: Vec<ProfileSample>,
}

/// A stack-tree node as plain values: id, frame id, children.
pub type NodeView = (u64, u64, Seq<usize>);

/// A thread profile as plain values: thread, tree, frame table, samples.
pub type ThreadView = (u64, Seq<NodeView>, Seq<EntryView>, Seq<ProfileSample>);

pub open spec fn node_view(n: StackTreeNode) -> NodeView {
    (n.node_id, n.frame_id, n.children@)
}

pub open spec fn thread_view(t: ThreadProfile) -> ThreadView {
    (
        t.thread_id,
        t.stack_tree@.map_values(|n: StackTreeNode| node_view(n)),
        t.frame_table@.map_values(|e: FrameTableEntry| entry_view(e)),
        t.samples@,
    )
}

/// The first of `children` whose node has frame id `fid`.
pub open spec fn find_child(nodes: Seq<NodeView>, children: Seq<usize>, fid: u64) -> Option<int>
    decreases children.len(),
{
    if children.len() == 0 {
        None
    } else if nodes[children[0] as int].1 == fid {
        Some(children[0] as int)
    } else {
        find_child(nodes, children.drop_first(), fid)
    }
}

/// Tree, next id and current node after stepping from node `cur` to its child
/// for frame `fid`, creating the child with the next id when there is none.
pub open spec fn descend(nodes: Seq<NodeView>, seq: u64, cur: int, fid: u64) -> (
    Seq<NodeView>,
    u64,
    int,
) {
    match find_child(nodes, nodes[cur].2, fid) {
        Some(c) => (nodes, seq, c),
        None => (
            nodes.update(cur, (nodes[cur].0, nodes[cur].1, nodes[cur].2.push(nodes.len() as usize))).push(
                (seq, fid, Seq::empty()),
            ),
            (seq + 1) as u64,
            nodes.len() as int,
        ),
    }
}

/// A stack given leaf first, turned root first.
pub open spec fn root_first(stack: Seq<EntryView>) -> Seq<EntryView> {
    Seq::new(stack.len(), |j: int| stack[stack.len() - 1 - j])
}

/// Tree, next id and current node after walking from the root along the
/// first `n` entries of a root-first path.
pub open spec fn descend_all(nodes: Seq<NodeView>, seq: u64, path: Seq<EntryView>, n: int) -> (
    Seq<NodeView>,
    u64,
    int,
)
    decreases n,
{
    if n <= 0 {
        (nodes, seq, 0)
    } else {
        let (nodes1, seq1, cur) = descend_all(nodes, seq, path, n - 1);
        descend(nodes1, seq1, cur, path[n - 1].0)
    }
}

/// A frame table after registering `e`, unless an entry with its id is there.
pub open spec fn table_insert(table: Seq<EntryView>, e: EntryView) -> Seq<EntryView> {
    if exists|i: int| 0 <= i < table.len() && #[trigger] table[i].0 == e.0 {
        table
    } else {
        table.push(e)
    }
}

/// A frame table after registering the first `n` entries of a path in turn.
pub open spec fn table_insert_all(table: Seq<EntryView>, path: Seq<EntryView>, n: int) -> Seq<EntryView>
    decreases n,
{
    if n <= 0 {
        table
    } else {
        table_insert(table_insert_all(table, path, n - 1), path[n - 1])
    }
}

/// A thread profile and next id after adding one stack (leaf first) taken at
/// `elapsed`. An empty stack records no sample.
pub open spec fn add_stack_model(t: ThreadView, seq: u64, stack: Seq<EntryView>, elapsed: u128) -> (
    ThreadView,
    u64,
) {
    let path = root_first(stack);
    let (nodes, seq1, cur) = descend_all(t.1, seq, path, path.len() as int);
    let table = table_insert_all(t.2, path, path.len() as int);
    let samples = if stack.len() > 0 {
        t.3.push(ProfileSample { elapsed_ns: elapsed, stack_tree_id: nodes[cur].0 })
    } else {
        t.3
    };
    ((t.0, nodes, table, samples), seq1)
}

/// The root is there, and every child index is a node of the tree placed
/// after its parent.
pub open spec fn tree_wf(nodes: Seq<NodeView>) -> bool {
    &&& nodes.len() >= 1
    &&& forall|i: int, k: int|
        0 <= i < nodes.len() && 0 <= k < nodes[i].2.len() ==> i < #[trigger] nodes[i].2[k]
            < nodes.len()
}

proof fn lemma_find_child_in_tree(nodes: Seq<NodeView>, children: Seq<usize>, fid: u64, lo: int)
    requires
        forall|k: int| 0 <= k < children.len() ==> lo < #[trigger] children[k] < nodes.len(),
    ensures
        find_child(nodes, children, fid) matches Some(c) ==> lo < c < nodes.len(),
    decreases children.len(),
{
    if children.len() > 0 {
        lemma_find_child_in_tree(nodes, children.drop_first(), fid, lo);
    }
}

proof fn lemma_find_child_push(nodes: Seq<NodeView>, children: Seq<usize>, x: usize, fid: u64)
    ensures
        find_child(nodes, children.push(x), fid) == match find_child(nodes, children, fid) {
            Some(c) => Some(c),
            None => if nodes[x as int].1 == fid {
                Some(x as int)
            } else {
                None
            },
        },
    decreases children.len(),
{
    if children.len() == 0 {
        assert(children.push(x).drop_first() =~= Seq::<usize>::empty());
    } else {
        assert(children.push(x).drop_first() =~= children.drop_first().push(x));
        lemma_find_child_push(nodes, children.drop_first(), x, fid);
    }
}

proof fn lemma_find_child_stable(
    n1: Seq<NodeView>,
    n2: Seq<NodeView>,
    children: Seq<usize>,
    fid: u64,
)
    requires
        forall|k: int|
            0 <= k < children.len() ==> #[trigger] children[k] < n1.len() && n2[children[k] as int].1
                == n1[children[k] as int].1,
    ensures
        find_child(n1, children, fid) == find_child(n2, children, fid),
    decreases children.len(),
{
    if children.len() > 0 {
        assert(children[0] < n1.len());
        lemma_find_child_stable(n1, n2, children.drop_first(), fid);
    }
}

proof fn lemma_descend_facts(nodes: Seq<NodeView>, seq: u64, cur: int, fid: u64)
    requires
        tree_wf(nodes),
        0 <= cur < nodes.len(),
        nodes.len() < usize::MAX,
    ensures
        ({
            let (n2, s2, c2) = descend(nodes, seq, cur, fid);
            &&& tree_wf(n2)
            &&& cur < c2 < n2.len()
            &&& nodes.len() <= n2.len() <= nodes.len() + 1
            &&& forall|i: int|
                0 <= i < nodes.len() ==> #[trigger] n2[i].1 == nodes[i].1 && n2[i].0 == nodes[i].0 && (
                i != cur ==> n2[i].2 == nodes[i].2)
            &&& find_child(n2, n2[cur].2, fid) == Some(c2)
        }),
{
    let ch = nodes[cur].2;
    lemma_find_child_in_tree(nodes, ch, fid, cur);
    match find_child(nodes, ch, fid) {
        Some(c) => {},
        None => {
            let n = nodes.len();
            let n2 = nodes.update(cur, (nodes[cur].0, nodes[cur].1, ch.push(n as usize))).push(
                (seq, fid, Seq::empty()),
            );
            assert(n2[cur].2 == ch.push(n as usize));
            assert forall|i: int, k: int|
                0 <= i < n2.len() && 0 <= k < n2[i].2.len() implies i < #[trigger] n2[i].2[k]
                < n2.len() by {
                if i < n && i != cur {
                    assert(n2[i] == nodes[i]);
                } else if i == cur && k < ch.len() {
                    assert(n2[i].2[k] == ch[k]);
                } else if i == cur {
                    assert(n2[i].2[k] == n);
                }
            }
            assert(tree_wf(n2));
            lemma_find_child_push(n2, ch, n as usize, fid);
            lemma_find_child_stable(nodes, n2, ch, fid);
        },
    }
}

proof fn lemma_walk_wf(n0: Seq<NodeView>, s0: u64, path: Seq<EntryView>, m: int)
    requires
        tree_wf(n0),
        0 <= m,
        n0.len() + m < usize::MAX,
    ensures
        tree_wf(descend_all(n0, s0, path, m).0),
        descend_all(n0, s0, path, m).0.len() <= n0.len() + m,
        0 <= descend_all(n0, s0, path, m).2 < descend_all(n0, s0, path, m).0.len(),
    decreases m,
{
    if m > 0 {
        lemma_walk_wf(n0, s0, path, m - 1);
        let (n, s, c) = descend_all(n0, s0, path, m - 1);
        lemma_descend_facts(n, s, c, path[m - 1].0);
    }
}

proof fn lemma_walk_between(n0: Seq<NodeView>, s0: u64, path: Seq<EntryView>, k: int, m: int)
    requires
        tree_wf(n0),
        0 <= k < m,
        n0.len() + m < usize::MAX,
    ensures
        ({
            let nk1 = descend_all(n0, s0, path, k + 1).0;
            let nm = descend_all(n0, s0, path, m).0;
            let ck = descend_all(n0, s0, path, k).2;
            &&& nm.len() >= nk1.len()
            &&& forall|i: int| 0 <= i < nk1.len() ==> #[trigger] nm[i].1 == nk1[i].1
            &&& nm[ck].2 == nk1[ck].2
            &&& descend_all(n0, s0, path, m).2 > ck
        }),
    decreases m,
{
    lemma_walk_wf(n0, s0, path, k);
    let (nk, sk, ck) = descend_all(n0, s0, path, k);
    lemma_descend_facts(nk, sk, ck, path[k].0);
    if m > k + 1 {
        lemma_walk_between(n0, s0, path, k, m - 1);
        lemma_walk_wf(n0, s0, path, m - 1);
        let (n, s, c) = descend_all(n0, s0, path, m - 1);
        lemma_descend_facts(n, s, c, path[m - 1].0);
        lemma_walk_wf(n0, s0, path, k + 1);
    }
}

proof fn lemma_rewalk(n0: Seq<NodeView>, s0: u64, path: Seq<EntryView>, l: int, k: int)
    requires
        tree_wf(n0),
        0 <= k <= l,
        n0.len() + l < usize::MAX,
    ensures
        descend_all(descend_all(n0, s0, path, l).0, descend_all(n0, s0, path, l).1, path, k) == (
            descend_all(n0, s0, path, l).0,
            descend_all(n0, s0, path, l).1,
            descend_all(n0, s0, path, k).2,
        ),
    decreases k,
{
    if k > 0 {
        let j = k - 1;
        lemma_rewalk(n0, s0, path, l, j);
        let nl = descend_all(n0, s0, path, l).0;
        lemma_walk_wf(n0, s0, path, j);
        let (nj, sj, cj) = descend_all(n0, s0, path, j);
        lemma_descend_facts(nj, sj, cj, path[j].0);
        let nk = descend_all(n0, s0, path, k).0;
        if k < l {
            lemma_walk_between(n0, s0, path, j, l);
            lemma_walk_wf(n0, s0, path, k);
            lemma_find_child_stable(nk, nl, nk[cj].2, path[j].0);
        }
    }
}

/// Whether some entry of the table has frame id `id`.
spec fn table_has(table: Seq<EntryView>, id: u64) -> bool {
    exists|i: int| 0 <= i < table.len() && #[trigger] table[i].0 == id
}

proof fn lemma_table_has_path(table: Seq<EntryView>, path: Seq<EntryView>, k: int)
    requires
        0 <= k <= path.len(),
    ensures
        forall|j: int| 0 <= j < k ==> table_has(table_insert_all(table, path, k), #[trigger] path[j].0),
    decreases k,
{
    if k > 0 {
        lemma_table_has_path(table, path, k - 1);
        let t = table_insert_all(table, path, k - 1);
        let t2 = table_insert(t, path[k - 1]);
        assert forall|j: int| 0 <= j < k implies table_has(t2, #[trigger] path[j].0) by {
            if j < k - 1 {
                assert(table_has(t, path[j].0));
                let i = choose|i: int| 0 <= i < t.len() && #[trigger] t[i].0 == path[j].0;
                if t2 != t {
                    assert(t2[i] == t[i]);
                }
                assert(t2[i].0 == path[j].0);
            } else if table_has(t, path[k - 1].0) {
                assert(t2 == t);
            } else {
                assert(t2[t.len() as int] == path[k - 1]);
            }
        }
    }
}

proof fn lemma_table_reinsert(table: Seq<EntryView>, path: Seq<EntryView>, k: int)
    requires
        0 <= k <= path.len(),
        forall|j: int| 0 <= j < k ==> table_has(table, #[trigger] path[j].0),
    ensures
        table_insert_all(table, path, k) == table,
    decreases k,
{
    if k > 0 {
        lemma_table_reinsert(table, path, k - 1);
        assert(table_has(table, path[k - 1].0));
    }
}

/// Adding the same stack to a thread a second time creates no node, uses no
/// id, registers no frame, and records the same leaf node as the first time:
/// the tree stores each distinct call path once.
pub proof fn lemma_same_stack_reuses_its_path(
    t: ThreadView,
    seq: u64,
    stack: Seq<EntryView>,
    first_elapsed: u128,
    second_elapsed: u128,
)
    requires
        tree_wf(t.1),
        stack.len() > 0,
        t.1.len() + stack.len() < usize::MAX,
    ensures
        ({
            let (t1, s1) = add_stack_model(t, seq, stack, first_elapsed);
            let (t2, s2) = add_stack_model(t1, s1, stack, second_elapsed);
            &&& t2.1 == t1.1
            &&& s2 == s1
            &&& t2.2 == t1.2
            &&& t2.3 == t1.3.push(
                ProfileSample { elapsed_ns: second_elapsed, stack_tree_id: t1.3.last().stack_tree_id },
            )
        }),
{
    let path = root_first(stack);
    let l = path.len() as int;
    lemma_rewalk(t.1, seq, path, l, l);
    lemma_table_has_path(t.2, path, l);
    lemma_table_reinsert(table_insert_all(t.2, path, l), path, l);
}

impl ThreadProfile {
    pub open spec fn wf(&self) -> bool {
        tree_wf(thread_view(*self).1)
    }

    /// A thread profile with only the root node.
    pub fn new(thread_id: ThreadId) -> (r: ThreadProfile)
        ensures
            r.wf(),
            thread_view(r) == new_thread_model(thread_id),
    {
        let mut stack_tree: Vec<StackTreeNode> = Vec::new();
        stack_tree.push(StackTreeNode { children: Vec::new(), node_id: 0, frame_id: 0 });
        let r = ThreadProfile { thread_id, stack_tree, frame_table: Vec::new(), samples: Vec::new() };
        proof {
            assert(thread_view(r).1 =~= seq![(0u64, 0u64, Seq::<usize>::empty())]);
            assert(thread_view(r).2 =~= Seq::<EntryView>::empty());
        }
        r
    }
}

/// `nodes` is `before` with new nodes appended whose ids run from `first`
/// upward, one per node, and `next` is the id after them; earlier nodes keep
/// their ids.
pub open spec fn ids_extend(before: Seq<NodeView>, nodes: Seq<NodeView>, first: u64, next: u64) -> bool {
    &&& nodes.len() >= before.len()
    &&& next == first + (nodes.len() - before.len())
    &&& forall|i: int| 0 <= i < before.len() ==> #[trigger] nodes[i].0 == before[i].0
    &&& forall|i: int| before.len() <= i < nodes.len() ==> #[trigger] nodes[i].0 == first + (i - before.len())
}

proof fn lemma_ids_extend_trans(
    a: Seq<NodeView>,
    b: Seq<NodeView>,
    c: Seq<NodeView>,
    s0: u64,
    s1: u64,
    s2: u64,
)
    requires
        ids_extend(a, b, s0, s1),
        ids_extend(b, c, s1, s2),
    ensures
        ids_extend(a, c, s0, s2),
{
    assert forall|i: int| a.len() <= i < c.len() implies #[trigger] c[i].0 == s0 + (i - a.len()) by {
        if i < b.len() {
            assert(c[i].0 == b[i].0);
        }
    }
}

/// A thread profile with only the root node.
pub open spec fn new_thread_model(thread_id: u64) -> ThreadView {
    (thread_id, seq![(0u64, 0u64, Seq::<usize>::empty())], Seq::empty(), Seq::empty())
}

impl ThreadProfile {
    fn descend_to(&mut self, cur: usize, fid: FrameTableId, sequence: &mut StackTreeNodeId) -> (r:
        usize)
        requires
            old(self).wf(),
            cur < old(self).stack_tree@.len(),
            *old(sequence) < u64::MAX,
        ensures
            final(self).wf(),
            (thread_view(*final(self)).1, *final(sequence), r as int) == descend(
                thread_view(*old(self)).1,
                *old(sequence),
                cur as int,
                fid,
            ),
            r < final(self).stack_tree@.len(),
            ids_extend(
                thread_view(*old(self)).1,
                thread_view(*final(self)).1,
                *old(sequence),
                *final(sequence),
            ),
            final(self).thread_id == old(self).thread_id,
            final(self).frame_table@ == old(self).frame_table@,
            final(self).samples@ == old(self).samples@,
    {
        let ghost nodes = thread_view(*self).1;
        let ghost ch = nodes[cur as int].2;
        let n_children = self.stack_tree[cur].children.len();
        let mut k: usize = 0;
        proof {
            assert(ch.subrange(0, ch.len() as int) =~= ch);
        }
        while k < n_children
            invariant
                self == old(self),
                nodes == thread_view(*self).1,
                self.wf(),
                cur < self.stack_tree@.len(),
                ch == nodes[cur as int].2,
                n_children == ch.len(),
                k <= n_children,
                find_child(nodes, ch, fid) == find_child(nodes, ch.subrange(k as int, ch.len() as int), fid),
            decreases n_children - k,
        {
            let c = self.stack_tree[cur].children[k];
            proof {
                assert(ch.subrange(k as int, ch.len() as int)[0] == c);
                assert(ch.subrange(k as int, ch.len() as int).drop_first() =~= ch.subrange(
                    k + 1,
                    ch.len() as int,
                ));
            }
            if self.stack_tree[c].frame_id == fid {
                return c;
            }
            k = k + 1;
        }
        proof {
            assert(ch.subrange(k as int, ch.len() as int) =~= Seq::<usize>::empty());
        }
        let n = self.stack_tree.len();
        self.stack_tree[cur].children.push(n);
        self.stack_tree.push(StackTreeNode { children: Vec::new(), node_id: *sequence, frame_id: fid });
        *sequence = *sequence + 1;
        proof {
            let expected = nodes.update(
                cur as int,
                (nodes[cur as int].0, nodes[cur as int].1, nodes[cur as int].2.push(n)),
            ).push((*old(sequence), fid, Seq::<usize>::empty()));
            assert(thread_view(*self).1 =~= expected);
            assert forall|i: int, j: int|
                0 <= i < expected.len() && 0 <= j < expected[i].2.len() implies i
                < #[trigger] expected[i].2[j] < expected.len() by {
                if i < nodes.len() && i != cur {
                    assert(expected[i] == nodes[i]);
                } else if i == cur && j < nodes[cur as int].2.len() {
                    assert(expected[i].2[j] == nodes[cur as int].2[j]);
                } else if i == cur {
                    assert(expected[i].2[j] == n);
                }
            }
            assert(tree_wf(expected));
        }
        n
    }

    fn register_frame(&mut self, entry: FrameTableEntry)
        ensures
            thread_view(*final(self)).2 == table_insert(thread_view(*old(self)).2, entry_view(entry)),
            final(self).thread_id == old(self).thread_id,
            final(self).stack_tree@ == old(self).stack_tree@,
            final(self).samples@ == old(self).samples@,
    {
        let ghost table = thread_view(*self).2;
        let n = self.frame_table.len();
        let mut k: usize = 0;
        while k < n
            invariant
                self == old(self),
                table == thread_view(*self).2,
                n == table.len(),
                k <= n,
                forall|i: int| 0 <= i < k ==> #[trigger] table[i].0 != entry.id,
            decreases n - k,
        {
            if self.frame_table[k].id == entry.id {
                proof {
                    assert(table[k as int].0 == entry.id);
                }
                return;
            }
            k = k + 1;
        }
        self.frame_table.push(entry);
        proof {
            assert(thread_view(*self).2 =~= table.push(entry_view(entry)));
        }
    }

    /// Adds one stack, given leaf first, taken `elapsed_ns` after the start.
    ///
    /// The stack is walked root first from the root node, reusing the child
    /// with the frame's id or creating it with the next id from `sequence`;
    /// each frame is registered in the frame table unless its id is there.
    /// The leaf node's id is recorded with the time. An empty stack records
    /// no sample.
    pub fn add_stack(
        &mut self,
        stack: Vec<FrameTableEntry>,
        elapsed_ns: u128,
        sequence: &mut StackTreeNodeId,
    )
        requires
            old(self).wf(),
            *old(sequence) + stack@.len() <= u64::MAX,
        ensures
            final(self).wf(),
            (thread_view(*final(self)), *final(sequence)) == add_stack_model(
                thread_view(*old(self)),
                *old(sequence),
                stack@.map_values(|e: FrameTableEntry| entry_view(e)),
                elapsed_ns,
            ),
            *final(sequence) <= *old(sequence) + stack@.len(),
            ids_extend(
                thread_view(*old(self)).1,
                thread_view(*final(self)).1,
                *old(sequence),
                *final(sequence),
            ),
    {
        let ghost sv = stack@.map_values(|e: FrameTableEntry| entry_view(e));
        let ghost path = root_first(sv);
        let ghost len = sv.len() as int;
        let ghost t0 = thread_view(*self);
        let ghost s0 = *sequence;
        let ghost p: int = 0;
        let mut stack = stack;
        let mut cur: usize = 0;
        loop
            invariant
                self.wf(),
                0 <= p <= len,
                len == sv.len(),
                path == root_first(sv),
                stack@.map_values(|e: FrameTableEntry| entry_view(e)) == sv.take(len - p),
                stack@.len() == len - p,
                (thread_view(*self).1, *sequence, cur as int) == descend_all(t0.1, s0, path, p),
                cur < self.stack_tree@.len(),
                *sequence <= s0 + p,
                s0 + len <= u64::MAX,
                ids_extend(t0.1, thread_view(*self).1, s0, *sequence),
                thread_view(*self).0 == t0.0,
                thread_view(*self).2 == table_insert_all(t0.2, path, p),
                thread_view(*self).3 == (if p == len && len > 0 {
                    t0.3.push(
                        ProfileSample {
                            elapsed_ns,
                            stack_tree_id: thread_view(*self).1[cur as int].0,
                        },
                    )
                } else {
                    t0.3
                }),
            ensures
                p == len,
            decreases len - p,
        {
            let ghost before = stack@;
            match stack.pop() {
                Some(entry) => {
                    proof {
                        assert(stack@ == before.drop_last());
                        assert(before[len - p - 1] == entry);
                        assert(before.map_values(|e: FrameTableEntry| entry_view(e))[len - p - 1]
                            == entry_view(entry));
                        assert(sv.take(len - p)[len - p - 1] == sv[len - p - 1]);
                        assert(entry_view(entry) == sv[len - p - 1]);
                        assert(path[p] == sv[len - p - 1]);
                        assert(stack@.map_values(|e: FrameTableEntry| entry_view(e)) =~= sv.take(
                            len - p - 1,
                        ));
                    }
                    let ghost mid_nodes = thread_view(*self).1;
                    let ghost mid_seq = *sequence;
                    cur = self.descend_to(cur, entry.id, sequence);
                    proof {
                        lemma_ids_extend_trans(
                            t0.1,
                            mid_nodes,
                            thread_view(*self).1,
                            s0,
                            mid_seq,
                            *sequence,
                        );
                    }
                    if stack.len() == 0 {
                        let leaf_id = self.stack_tree[cur].node_id;
                        self.samples.push(ProfileSample { elapsed_ns, stack_tree_id: leaf_id });
                    }
                    self.register_frame(entry);
                    proof {
                        p = p + 1;
                    }
                },
                None => {
                    proof {
                        assert(before.len() == 0);
                    }
                    break;
                },
            }
        }
    }
}

/// Most samples one serialization takes, so that node ids never overflow.
pub const MAX_SERIALIZED_SAMPLES: usize = 1_000_000_000;

/// Longest stack one sample can hold.
pub const MAX_MERGED_DEPTH: usize = MAX_C_STACK_DEPTH + MAX_STACK_DEPTH;

/// The position of the first profile of thread `t`.
pub open spec fn find_thread(ts: Seq<ThreadView>, t: u64) -> Option<int>
    decreases ts.len(),
{
    if ts.len() == 0 {
        None
    } else if ts.last().0 == t && find_thread(ts.drop_last(), t) is None {
        Some(ts.len() - 1)
    } else {
        find_thread(ts.drop_last(), t)
    }
}

/// Thread profiles and next id after adding one captured sample.
pub open spec fn add_sample_model(
    ts: Seq<ThreadView>,
    seq: u64,
    s: crate::sample::Sample,
    symbols: FrameSymbols,
    start: u64,
) -> (Seq<ThreadView>, u64) {
    let (ts1, i) = match find_thread(ts, s.ruby_thread) {
        Some(i) => (ts, i),
        None => (ts.push(new_thread_model(s.ruby_thread)), ts.len() as int),
    };
    let (tv, seq1) = add_stack_model(
        ts1[i],
        seq,
        merged_stack_model(s, symbols),
        elapsed_between(start, s.timestamp) as u128,
    );
    (ts1.update(i, tv), seq1)
}

/// Thread profiles and next id after adding the first `n` samples of a profile
/// to no threads, with ids starting at 1 (0 is every root).
pub open spec fn serializer_model(
    samples: Seq<crate::sample::Sample>,
    symbols: FrameSymbols,
    start: u64,
    n: int,
) -> (Seq<ThreadView>, u64)
    decreases n,
{
    if n <= 0 {
        (Seq::empty(), 1)
    } else {
        let (ts, seq) = serializer_model(samples, symbols, start, n - 1);
        add_sample_model(ts, seq, samples[n - 1], symbols, start)
    }
}

/// Every root has id 0; every other node, in any thread, has its own id,
/// at least 1 and below `next`.
pub open spec fn node_ids_unique(ts: Seq<ThreadView>, next: u64) -> bool {
    &&& forall|t: int| 0 <= t < ts.len() ==> (#[trigger] ts[t]).1.len() >= 1 && ts[t].1[0].0 == 0
    &&& forall|t: int, i: int|
        0 <= t < ts.len() && 1 <= i < ts[t].1.len() ==> 1 <= #[trigger] ts[t].1[i].0 < next
    &&& forall|t: int, i: int, u: int, j: int|
        0 <= t < ts.len() && 1 <= i < ts[t].1.len() && 0 <= u < ts.len() && 1 <= j < ts[u].1.len()
            && (t != u || i != j) ==> #[trigger] ts[t].1[i].0 != #[trigger] ts[u].1[j].0
}

proof fn lemma_ids_after_add(ts: Seq<ThreadView>, x: int, nodes: Seq<NodeView>, first: u64, next: u64)
    requires
        node_ids_unique(ts, first),
        first >= 1,
        0 <= x < ts.len(),
        ids_extend(ts[x].1, nodes, first, next),
    ensures
        node_ids_unique(ts.update(x, (ts[x].0, nodes, ts[x].2, ts[x].3)), next),
{
    let ts2 = ts.update(x, (ts[x].0, nodes, ts[x].2, ts[x].3));
    let n0 = ts[x].1.len();
    assert forall|t: int| 0 <= t < ts2.len() implies (#[trigger] ts2[t]).1.len() >= 1 && ts2[t].1[0].0
        == 0 by {
        if t == x {
            assert(ts[x].1.len() >= 1);
            assert(nodes[0].0 == ts[x].1[0].0);
        }
    }
    assert forall|t: int, i: int| 0 <= t < ts2.len() && 1 <= i < ts2[t].1.len() implies 1
        <= #[trigger] ts2[t].1[i].0 < next by {
        if t == x && i < n0 {
            assert(nodes[i].0 == ts[x].1[i].0);
        } else if t != x {
            assert(ts2[t] == ts[t]);
        }
    }
    assert forall|t: int, i: int, u: int, j: int|
        0 <= t < ts2.len() && 1 <= i < ts2[t].1.len() && 0 <= u < ts2.len() && 1 <= j
            < ts2[u].1.len() && (t != u || i != j) implies #[trigger] ts2[t].1[i].0
        != #[trigger] ts2[u].1[j].0 by {
        let a = ts2[t].1[i].0;
        let b = ts2[u].1[j].0;
        if t == x && i < n0 {
            assert(a == ts[x].1[i].0);
        }
        if u == x && j < n0 {
            assert(b == ts[x].1[j].0);
        }
        if t != x {
            assert(ts2[t] == ts[t]);
        }
        if u != x {
            assert(ts2[u] == ts[u]);
        }
        if t == x && i >= n0 {
            assert(a == first + (i - n0));
        }
        if u == x && j >= n0 {
            assert(b == first + (j - n0));
        }
    }
}

/// The samples of a profile, grouped by thread into stack trees.
pub struct ProfileSerializer {
    threads: Vec<ThreadProfile>,
}

impl ProfileSerializer {
    pub closed spec fn threads_view(&self) -> Seq<ThreadView> {
        self.threads@.map_values(|t: ThreadProfile| thread_view(t))
    }

    /// The thread profiles, in order of each thread's first sample.
    pub fn threads(&self) -> (r: &Vec<ThreadProfile>)
        ensures
            r@.map_values(|t: ThreadProfile| thread_view(t)) == self.threads_view(),
    {
        &self.threads
    }

    fn thread_index(&mut self, thread_id: ThreadId) -> (r: usize)
        requires
            forall|i: int| 0 <= i < old(self).threads@.len() ==> (#[trigger] old(self).threads@[i]).wf(),
        ensures
            forall|i: int| 0 <= i < final(self).threads@.len() ==> (#[trigger] final(self).threads@[i]).wf(),
            r < final(self).threads@.len(),
            match find_thread(old(self).threads_view(), thread_id) {
                Some(i) => final(self).threads_view() == old(self).threads_view() && r == i,
                None => final(self).threads_view() == old(self).threads_view().push(
                    new_thread_model(thread_id),
                ) && r == old(self).threads_view().len(),
            },
    {
        let ghost tv = self.threads_view();
        let n = self.threads.len();
        let mut k: usize = 0;
        while k < n
            invariant
                self == old(self),
                forall|i: int| 0 <= i < self.threads@.len() ==> (#[trigger] self.threads@[i]).wf(),
                tv == self.threads_view(),
                n == tv.len(),
                k <= n,
                forall|i: int| 0 <= i < k ==> #[trigger] tv[i].0 != thread_id,
            decreases n - k,
        {
            if self.threads[k].thread_id == thread_id {
                proof {
                    lemma_find_thread_first(tv, thread_id, k as int);
                }
                return k;
            }
            k = k + 1;
        }
        proof {
            lemma_find_thread_none(tv, thread_id);
        }
        self.threads.push(ThreadProfile::new(thread_id));
        proof {
            assert(self.threads_view() =~= tv.push(new_thread_model(thread_id)));
        }
        n
    }

    /// Groups the samples of a profile by thread and builds each thread's
    /// stack tree and frame table, numbering new nodes from 1 in the order
    /// they are first reached. Each sample records the time since the
    /// profile's start.
    pub fn serialize(profile: &crate::profile::Profile, symbols: &FrameSymbols) -> (r: ProfileSerializer)
        requires
            profile.samples@.len() <= MAX_SERIALIZED_SAMPLES,
            forall|i: int| 0 <= i < profile.samples@.len() ==> captured_wf(#[trigger] profile.samples@[i]),
        ensures
            r.threads_view() == serializer_model(
                profile.samples@,
                *symbols,
                profile.start_instant,
                profile.samples@.len() as int,
            ).0,
            node_ids_unique(
                r.threads_view(),
                serializer_model(
                    profile.samples@,
                    *symbols,
                    profile.start_instant,
                    profile.samples@.len() as int,
                ).1,
            ),
    {
        let mut serializer = ProfileSerializer { threads: Vec::new() };
        let mut sequence: StackTreeNodeId = 1;
        let n = profile.samples.len();
        let mut i: usize = 0;
        proof {
            assert(serializer.threads_view() =~= Seq::<ThreadView>::empty());
        }
        while i < n
            invariant
                n == profile.samples@.len(),
                n <= MAX_SERIALIZED_SAMPLES,
                i <= n,
                forall|k: int| 0 <= k < profile.samples@.len() ==> captured_wf(#[trigger] profile.samples@[k]),
                forall|k: int| 0 <= k < serializer.threads@.len() ==> (#[trigger] serializer.threads@[k]).wf(),
                (serializer.threads_view(), sequence) == serializer_model(
                    profile.samples@,
                    *symbols,
                    profile.start_instant,
                    i as int,
                ),
                sequence <= 1 + i * MAX_MERGED_DEPTH,
                node_ids_unique(serializer.threads_view(), sequence),
                sequence >= 1,
            decreases n - i,
        {
            let sample = &profile.samples[i];
            let stack = merged_stack(sample, symbols);
            let elapsed_ns: u128 = if sample.timestamp >= profile.start_instant {
                (sample.timestamp - profile.start_instant) as u128
            } else {
                0
            };
            let ghost before = serializer.threads_view();
            let idx = serializer.thread_index(sample.ruby_thread);
            let ghost mid = serializer.threads_view();
            let ghost seq_before = sequence;
            proof {
                if mid.len() > before.len() {
                    assert forall|t: int, i: int, u: int, j: int|
                        0 <= t < mid.len() && 1 <= i < mid[t].1.len() && 0 <= u < mid.len() && 1
                            <= j < mid[u].1.len() && (t != u || i != j) implies #[trigger] mid[t].1[i].0
                        != #[trigger] mid[u].1[j].0 by {
                        assert(t < before.len() && u < before.len());
                        assert(mid[t] == before[t] && mid[u] == before[u]);
                    }
                    assert(node_ids_unique(mid, sequence));
                }
            }
            assert(sequence + stack@.len() <= u64::MAX) by (nonlinear_arith)
                requires
                    sequence <= 1 + i * MAX_MERGED_DEPTH,
                    i < MAX_SERIALIZED_SAMPLES,
                    stack@.len() <= MAX_MERGED_DEPTH,
            ;
            serializer.threads[idx].add_stack(stack, elapsed_ns, &mut sequence);
            proof {
                assert(serializer.threads_view() =~= mid.update(
                    idx as int,
                    thread_view(serializer.threads@[idx as int]),
                ));
                let tv = thread_view(serializer.threads@[idx as int]);
                lemma_ids_after_add(mid, idx as int, tv.1, seq_before, sequence);
                assert(sequence <= 1 + (i + 1) * MAX_MERGED_DEPTH) by (nonlinear_arith)
                    requires
                        sequence <= node_id_bound(i as int) + MAX_MERGED_DEPTH,
                ;
            }
            i = i + 1;
        }
        serializer
    }
}

/// Serializing the same samples, in the same order, with the same symbols and
/// start, gives identical threads, stack-tree node ids, frame tables and samples.
pub proof fn lemma_serialize_deterministic(
    a: ProfileSerializer,
    b: ProfileSerializer,
    samples: Seq<crate::sample::Sample>,
    symbols: FrameSymbols,
    start: u64,
)
    requires
        a.threads_view() == serializer_model(samples, symbols, start, samples.len() as int).0,
        b.threads_view() == serializer_model(samples, symbols, start, samples.len() as int).0,
    ensures
        a.threads_view() == b.threads_view(),
        forall|i: int|
            0 <= i < a.threads_view().len() ==> (#[trigger] a.threads_view()[i]).1
                == b.threads_view()[i].1 && a.threads_view()[i].2 == b.threads_view()[i].2,
{
}

/// The next node id cannot pass this after `i` samples.
spec fn node_id_bound(i: int) -> int {
    1 + i * MAX_MERGED_DEPTH
}

proof fn lemma_find_thread_first(ts: Seq<ThreadView>, t: u64, k: int)
    requires
        0 <= k < ts.len(),
        ts[k].0 == t,
        forall|i: int| 0 <= i < k ==> #[trigger] ts[i].0 != t,
    ensures
        find_thread(ts, t) == Some(k),
    decreases ts.len(),
{
    if k < ts.len() - 1 {
        lemma_find_thread_first(ts.drop_last(), t, k);
    } else {
        lemma_find_thread_none(ts.drop_last(), t);
    }
}

proof fn lemma_find_thread_none(ts: Seq<ThreadView>, t: u64)
    requires
        forall|i: int| 0 <= i < ts.len() ==> #[trigger] ts[i].0 != t,
    ensures
        find_thread(ts, t) is None,
    decreases ts.len(),
{
    if ts.len() > 0 {
        lemma_find_thread_none(ts.drop_last(), t);
    }
}

} // verus!
