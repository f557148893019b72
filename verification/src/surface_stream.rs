//! Surface streaming: which chunks of a planet are built, shown and dropped.
//!
//! Each frame the quadtree is walked to the leaves that are wanted, finished
//! builds are shown under a budget, missing leaves are put to work under a
//! budget, and chunks that are no longer wanted are dropped, but only once all
//! that replaces them is shown, so that a change of detail never leaves a hole.
//! Chunks are built and drawn elsewhere; a build is known here by a number.

use crate::overlay::StreamStats;
use crate::quadtree::all_valid;
use crate::quadtree::covered;
use crate::quadtree::faces;
use crate::quadtree::lemma_children_share_the_node;
use crate::quadtree::lemma_faces_tile;
use crate::quadtree::lemma_overlap_is_sharing;
use crate::quadtree::on_cube;
use crate::quadtree::tiles;
use crate::quadtree::QuadNode;
use crate::quadtree::Spot;
use crate::quadtree::FINEST_LEVEL;
use crate::seq_facts::lemma_filter_contains;
use crate::seq_facts::lemma_filter_next;
use vstd::prelude::*;

verus! {

/// Chunks shown anew per frame at most.
pub const UPLOAD_BUDGET: usize = 6;

/// Builds started per frame at most.
pub const SPAWN_BUDGET: usize = 12;

/// A walk down the quadtree. Each node is either kept as a leaf or split into
/// its children, as the caller answers.
pub struct Traversal {
    stack: Vec<QuadNode>,
    leaves: Vec<QuadNode>,
}

impl Traversal {
    /// The nodes still to be decided; the last one is next.
    pub closed spec fn open_nodes(self) -> Seq<QuadNode> {
        self.stack@
    }

    /// The nodes decided to be leaves, in order.
    pub closed spec fn leaf_nodes(self) -> Seq<QuadNode> {
        self.leaves@
    }

    /// The undecided nodes and the leaves tile the sphere between them.
    pub open spec fn wf(self) -> bool {
        &&& all_valid(self.open_nodes() + self.leaf_nodes())
        &&& tiles(self.open_nodes() + self.leaf_nodes())
    }

    /// A walk that has all six faces before it.
    pub fn new() -> (t: Traversal)
        ensures
            t.wf(),
            t.open_nodes() == faces(),
            t.leaf_nodes() == Seq::<QuadNode>::empty(),
    {
        let t = Traversal { stack: QuadNode::roots(), leaves: Vec::new() };
        proof {
            lemma_faces_tile();
            assert(t.open_nodes() + t.leaf_nodes() =~= faces());
        }
        t
    }

    /// The node that is to be decided next; none when the walk is over.
    pub fn next_node(&self) -> (n: Option<QuadNode>)
        ensures
            n == (if self.open_nodes().len() == 0 {
                None
            } else {
                Some(self.open_nodes().last())
            }),
    {
        let k: usize = self.stack.len();
        if k == 0 {
            None
        } else {
            Some(self.stack[k - 1])
        }
    }

    /// Decides the next node: split it, or keep it as a leaf. A node of the
    /// finest level is always kept.
    pub fn decide(&mut self, split: bool)
        requires
            old(self).wf(),
            old(self).open_nodes().len() > 0,
        ensures
            final(self).wf(),
            ({
                let n = old(self).open_nodes().last();
                let rest = old(self).open_nodes().drop_last();
                if split && n.level < FINEST_LEVEL {
                    &&& final(self).open_nodes() == rest + n.quarters()
                    &&& final(self).leaf_nodes() == old(self).leaf_nodes()
                } else {
                    &&& final(self).open_nodes() == rest
                    &&& final(self).leaf_nodes() == old(self).leaf_nodes().push(n)
                }
            }),
    {
        let ghost rest = self.stack@.drop_last();
        let ghost leaves = self.leaves@;
        let ghost before = self.stack@ + self.leaves@;
        let k: usize = self.stack.len();
        let n: QuadNode = self.stack[k - 1];
        proof {
            assert(before[k - 1] == n);
            assert(n.valid());
        }
        self.stack.pop();
        if split && n.level < FINEST_LEVEL {
            let mut c: Vec<QuadNode> = n.children();
            self.stack.append(&mut c);
            proof {
                assert(self.stack@ =~= rest + n.quarters());
                assert(before =~= rest.push(n) + leaves);
                lemma_split_keeps_tiling(rest, n, leaves);
            }
        } else {
            self.leaves.push(n);
            proof {
                assert(before =~= rest.push(n) + leaves);
                lemma_keep_keeps_tiling(rest, n, leaves);
            }
        }
    }

    /// The leaves of a finished walk.
    pub fn finish(self) -> (leaves: Vec<QuadNode>)
        requires
            self.wf(),
            self.open_nodes().len() == 0,
        ensures
            leaves@ == self.leaf_nodes(),
            tiles(leaves@),
            all_valid(leaves@),
            leaves@.no_duplicates(),
    {
        assert(self.open_nodes() + self.leaf_nodes() =~= self.leaf_nodes());
        proof {
            lemma_tiling_has_no_duplicates(self.leaf_nodes());
        }
        self.leaves
    }
}

/// Splitting one node of a tiling into its children leaves a tiling.
proof fn lemma_split_keeps_tiling(rest: Seq<QuadNode>, n: QuadNode, leaves: Seq<QuadNode>)
    requires
        all_valid(rest.push(n) + leaves),
        tiles(rest.push(n) + leaves),
        n.level < FINEST_LEVEL,
        forall|i: int| 0 <= i < 4 ==> (#[trigger] n.quarters()[i]).valid(),
    ensures
        all_valid((rest + n.quarters()) + leaves),
        tiles((rest + n.quarters()) + leaves),
{
    let a = rest.push(n) + leaves;
    let q = n.quarters();
    let b = (rest + q) + leaves;
    let r = rest.len() as int;
    assert(a[r] == n);
    assert forall|i: int| 0 <= i < b.len() implies (#[trigger] b[i]).valid() by {
        if i < r {
            assert(b[i] == a[i]);
        } else if i < r + 4 {
            assert(b[i] == q[i - r]);
        } else {
            assert(b[i] == a[i - 3]);
        }
    }
    assert forall|p: Spot| on_cube(p) implies #[trigger] covered(b, p) by {
        assert(covered(a, p));
        let i = choose|i: int| 0 <= i < a.len() && (#[trigger] a[i]).covers(p);
        if i < r {
            assert(b[i] == a[i]);
        } else if i == r {
            lemma_children_share_the_node(n, p);
            let k = choose|k: int| 0 <= k < 4 && (#[trigger] q[k]).covers(p);
            assert(b[r + k] == q[k]);
        } else {
            assert(b[i + 3] == a[i]);
        }
    }
    assert forall|p: Spot, i: int, j: int| on_cube(p) && 0 <= i < j < b.len() implies !(
    #[trigger] b[i].covers(p) && #[trigger] b[j].covers(p)) by {
        if b[i].covers(p) && b[j].covers(p) {
            lemma_children_share_the_node(n, p);
            let ai = if i < r {
                i
            } else if i < r + 4 {
                r
            } else {
                i - 3
            };
            let aj = if j < r {
                j
            } else if j < r + 4 {
                r
            } else {
                j - 3
            };
            assert(r <= i < r + 4 ==> b[i] == q[i - r]);
            assert(r <= j < r + 4 ==> b[j] == q[j - r]);
            assert(a[ai].covers(p));
            assert(a[aj].covers(p));
            if ai == aj {
                assert(q[i - r].covers(p) && q[j - r].covers(p));
            }
        }
    }
}

/// Moving one node of a tiling elsewhere leaves a tiling.
proof fn lemma_keep_keeps_tiling(rest: Seq<QuadNode>, n: QuadNode, leaves: Seq<QuadNode>)
    requires
        all_valid(rest.push(n) + leaves),
        tiles(rest.push(n) + leaves),
    ensures
        all_valid(rest + leaves.push(n)),
        tiles(rest + leaves.push(n)),
{
    let a = rest.push(n) + leaves;
    let b = rest + leaves.push(n);
    let r = rest.len() as int;
    let m = b.len() - 1;
    assert forall|i: int| 0 <= i < b.len() implies (#[trigger] b[i]).valid() by {
        if i < r {
            assert(b[i] == a[i]);
        } else if i < m {
            assert(b[i] == a[i + 1]);
        } else {
            assert(b[i] == a[r]);
        }
    }
    assert forall|p: Spot| on_cube(p) implies #[trigger] covered(b, p) by {
        assert(covered(a, p));
        let i = choose|i: int| 0 <= i < a.len() && (#[trigger] a[i]).covers(p);
        if i < r {
            assert(b[i] == a[i]);
        } else if i == r {
            assert(b[m] == a[i]);
        } else {
            assert(b[i - 1] == a[i]);
        }
    }
    assert forall|p: Spot, i: int, j: int| on_cube(p) && 0 <= i < j < b.len() implies !(
    #[trigger] b[i].covers(p) && #[trigger] b[j].covers(p)) by {
        let ai = if i < r {
            i
        } else {
            i + 1
        };
        let aj = if j < r {
            j
        } else if j < m {
            j + 1
        } else {
            r
        };
        assert(b[i] == a[ai]);
        assert(b[j] == a[aj]);
        assert(ai != aj);
        assert(a[ai].covers(p) == b[i].covers(p));
        assert(a[aj].covers(p) == b[j].covers(p));
    }
}

/// A chunk: its node and the number its build is known by.
pub type Chunk = (QuadNode, u64);

/// What the streamer holds.
#[verifier::ext_equal]
pub struct Resident {
    /// The chunks that are shown.
    pub live: Seq<Chunk>,
    /// The nodes whose chunks are being built.
    pub meshing: Seq<QuadNode>,
    /// The chunks that are built and wait to be shown.
    pub ready: Seq<Chunk>,
}

/// What a frame asks of the caller.
#[verifier::ext_equal]
pub struct Orders {
    /// Chunks to show.
    pub upload: Seq<Chunk>,
    /// Nodes to start building.
    pub build: Seq<QuadNode>,
    /// Chunks to drop.
    pub despawn: Seq<Chunk>,
}

/// Whether a chunk of `n` is among `chunks`.
pub open spec fn has_chunk(chunks: Seq<Chunk>, n: QuadNode) -> bool {
    exists|i: int| 0 <= i < chunks.len() && (#[trigger] chunks[i]).0 == n
}

/// Whether no node occurs twice among `chunks`.
pub open spec fn nodes_once(chunks: Seq<Chunk>) -> bool {
    forall|i: int, j: int|
        0 <= i < j < chunks.len() ==> (#[trigger] chunks[i]).0 != (#[trigger] chunks[j]).0
}

impl Resident {
    /// Nothing resident.
    pub open spec fn empty() -> Resident {
        Resident { live: Seq::empty(), meshing: Seq::empty(), ready: Seq::empty() }
    }

    /// Every node is a square of the cube and is in one place at most.
    pub open spec fn wf(self) -> bool {
        &&& nodes_once(self.live)
        &&& nodes_once(self.ready)
        &&& self.meshing.no_duplicates()
        &&& forall|i: int| 0 <= i < self.live.len() ==> (#[trigger] self.live[i]).0.valid()
        &&& forall|i: int| 0 <= i < self.ready.len() ==> (#[trigger] self.ready[i]).0.valid()
        &&& all_valid(self.meshing)
        &&& forall|n: QuadNode| #[trigger]
            has_chunk(self.live, n) ==> !self.meshing.contains(n) && !has_chunk(self.ready, n)
        &&& forall|n: QuadNode| #[trigger]
            has_chunk(self.ready, n) ==> !self.meshing.contains(n)
    }

    /// Whether `n` is shown, being built, or built.
    pub open spec fn knows(self, n: QuadNode) -> bool {
        has_chunk(self.live, n) || self.meshing.contains(n) || has_chunk(self.ready, n)
    }
}

/// Finished builds leave the workshop and queue up to be shown. A build that
/// was never asked for is ignored.
pub open spec fn polled(s: Resident, done: Seq<Chunk>) -> Resident
    decreases done.len(),
{
    if done.len() == 0 {
        s
    } else {
        let t = polled(s, done.drop_last());
        let c = done.last();
        if t.meshing.contains(c.0) {
            Resident {
                meshing: t.meshing.filter(|n: QuadNode| n != c.0),
                ready: t.ready.push(c),
                ..t
            }
        } else {
            t
        }
    }
}

/// The built chunks that are still wanted.
pub open spec fn wanted(ready: Seq<Chunk>, desired: Seq<QuadNode>) -> Seq<Chunk> {
    ready.filter(|c: Chunk| desired.contains(c.0))
}

/// The first `n` of `s`, or all of it.
pub open spec fn at_most<T>(s: Seq<T>, n: int) -> Seq<T> {
    if s.len() <= n {
        s
    } else {
        s.take(n)
    }
}

/// What is left of `s` past its first `n`.
pub open spec fn beyond<T>(s: Seq<T>, n: int) -> Seq<T> {
    if s.len() <= n {
        Seq::empty()
    } else {
        s.skip(n)
    }
}

/// Wanted chunks are shown up to the budget; the rest wait, and chunks that are
/// no longer wanted are discarded.
pub open spec fn uploaded(s: Resident, desired: Seq<QuadNode>) -> Resident {
    let w = wanted(s.ready, desired);
    Resident {
        live: s.live + at_most(w, UPLOAD_BUDGET as int),
        ready: beyond(w, UPLOAD_BUDGET as int),
        ..s
    }
}

/// The wanted nodes of which there is nothing yet.
pub open spec fn missing(s: Resident, desired: Seq<QuadNode>) -> Seq<QuadNode> {
    desired.filter(|n: QuadNode| !s.knows(n))
}

/// Missing nodes are put to work up to the budget.
pub open spec fn enqueued(s: Resident, desired: Seq<QuadNode>) -> Resident {
    Resident {
        meshing: s.meshing + at_most(missing(s, desired), SPAWN_BUDGET as int),
        ..s
    }
}

/// Whether a shown chunk has to go: it is not wanted, and every wanted node that
/// overlaps it is shown.
pub open spec fn stale(live: Seq<Chunk>, desired: Seq<QuadNode>, n: QuadNode) -> bool {
    &&& !desired.contains(n)
    &&& forall|i: int|
        0 <= i < desired.len() && n.overlapping(#[trigger] desired[i]) ==> has_chunk(
            live,
            desired[i],
        )
}

/// Stale chunks are dropped.
pub open spec fn pruned(s: Resident, desired: Seq<QuadNode>) -> Resident {
    Resident { live: s.live.filter(|c: Chunk| !stale(s.live, desired, c.0)), ..s }
}

/// One frame.
pub open spec fn frame(s: Resident, desired: Seq<QuadNode>, done: Seq<Chunk>) -> Resident {
    pruned(enqueued(uploaded(polled(s, done), desired), desired), desired)
}

/// What one frame asks of the caller.
pub open spec fn orders(s: Resident, desired: Seq<QuadNode>, done: Seq<Chunk>) -> Orders {
    let a = polled(s, done);
    let b = uploaded(a, desired);
    let c = enqueued(b, desired);
    Orders {
        upload: at_most(wanted(a.ready, desired), UPLOAD_BUDGET as int),
        build: at_most(missing(b, desired), SPAWN_BUDGET as int),
        despawn: c.live.filter(|k: Chunk| stale(c.live, desired, k.0)),
    }
}

/// Resident, in-flight and built chunks, keyed by quadtree node.
pub struct ChunkStreamer {
    live: Vec<Chunk>,
    meshing: Vec<QuadNode>,
    ready: Vec<Chunk>,
}

/// What a frame asks of the caller.
pub struct StreamOrders {
    /// Chunks to show.
    pub upload: Vec<Chunk>,
    /// Nodes to start building.
    pub build: Vec<QuadNode>,
    /// Chunks to drop.
    pub despawn: Vec<Chunk>,
}

impl View for ChunkStreamer {
    type V = Resident;

    closed spec fn view(&self) -> Resident {
        Resident { live: self.live@, meshing: self.meshing@, ready: self.ready@ }
    }
}

impl View for StreamOrders {
    type V = Orders;

    open spec fn view(&self) -> Orders {
        Orders { upload: self.upload@, build: self.build@, despawn: self.despawn@ }
    }
}

/// Whether `n` is among `nodes`.
fn holds(nodes: &Vec<QuadNode>, n: QuadNode) -> (b: bool)
    ensures
        b == nodes@.contains(n),
{
    let mut i: usize = 0;
    while i < nodes.len()
        invariant
            i <= nodes.len(),
            forall|j: int| 0 <= j < i ==> nodes@[j] != n,
        decreases nodes.len() - i,
    {
        if nodes[i] == n {
            return true;
        }
        i += 1;
    }
    false
}

/// Whether a chunk of `n` is among `chunks`.
fn holds_chunk(chunks: &Vec<Chunk>, n: QuadNode) -> (b: bool)
    ensures
        b == has_chunk(chunks@, n),
{
    let mut i: usize = 0;
    while i < chunks.len()
        invariant
            i <= chunks.len(),
            forall|j: int| 0 <= j < i ==> (#[trigger] chunks@[j]).0 != n,
        decreases chunks.len() - i,
    {
        if chunks[i].0 == n {
            return true;
        }
        i += 1;
    }
    false
}

/// A filter never repeats a node that was there once.
proof fn lemma_filter_nodes_once(s: Seq<Chunk>, keep: spec_fn(Chunk) -> bool)
    requires
        nodes_once(s),
    ensures
        nodes_once(s.filter(keep)),
    decreases s.len(),
{
    reveal(Seq::filter);
    if s.len() > 0 {
        let t = s.drop_last();
        lemma_filter_nodes_once(t, keep);
        let f = t.filter(keep);
        assert forall|i: int| 0 <= i < f.len() implies (#[trigger] f[i]).0 != s.last().0 by {
            lemma_filter_contains(t, keep, f[i]);
            assert(f.contains(f[i]));
            let j = choose|j: int| 0 <= j < t.len() && t[j] == f[i];
            assert(s[j] == f[i]);
        }
    }
}

/// A filter never repeats an element that was there once.
proof fn lemma_filter_no_duplicates(s: Seq<QuadNode>, keep: spec_fn(QuadNode) -> bool)
    requires
        s.no_duplicates(),
    ensures
        s.filter(keep).no_duplicates(),
    decreases s.len(),
{
    reveal(Seq::filter);
    if s.len() > 0 {
        let t = s.drop_last();
        lemma_filter_no_duplicates(t, keep);
        let f = t.filter(keep);
        assert forall|i: int| 0 <= i < f.len() implies #[trigger] f[i] != s.last() by {
            lemma_filter_contains(t, keep, f[i]);
            assert(f.contains(f[i]));
            let j = choose|j: int| 0 <= j < t.len() && t[j] == f[i];
            assert(s[j] == f[i]);
        }
    }
}

/// Which nodes a filter lets through.
proof fn lemma_filter_has_chunk(s: Seq<Chunk>, keep: spec_fn(Chunk) -> bool, n: QuadNode)
    ensures
        has_chunk(s.filter(keep), n) <==> exists|i: int|
            0 <= i < s.len() && (#[trigger] s[i]).0 == n && keep(s[i]),
{
    let f = s.filter(keep);
    if has_chunk(f, n) {
        let i = choose|i: int| 0 <= i < f.len() && (#[trigger] f[i]).0 == n;
        assert(f.contains(f[i]));
        lemma_filter_contains(s, keep, f[i]);
        let j = choose|j: int| 0 <= j < s.len() && s[j] == f[i];
        assert(s[j].0 == n && keep(s[j]));
    }
    if exists|i: int| 0 <= i < s.len() && (#[trigger] s[i]).0 == n && keep(s[i]) {
        let i = choose|i: int| 0 <= i < s.len() && (#[trigger] s[i]).0 == n && keep(s[i]);
        assert(s.contains(s[i]));
        lemma_filter_contains(s, keep, s[i]);
        let j = choose|j: int| 0 <= j < f.len() && f[j] == s[i];
        assert(f[j].0 == n);
    }
}

/// Polling keeps every node in one place.
proof fn lemma_polled_wf(s: Resident, done: Seq<Chunk>)
    requires
        s.wf(),
    ensures
        polled(s, done).wf(),
        polled(s, done).live == s.live,
        forall|n: QuadNode| #[trigger] polled(s, done).knows(n) == s.knows(n),
    decreases done.len(),
{
    if done.len() > 0 {
        lemma_polled_wf(s, done.drop_last());
        let t = polled(s, done.drop_last());
        let c = done.last();
        if t.meshing.contains(c.0) {
            let keep = |n: QuadNode| n != c.0;
            let u = polled(s, done);
            assert(u.meshing == t.meshing.filter(keep));
            lemma_filter_no_duplicates(t.meshing, keep);
            assert forall|n: QuadNode| #[trigger]
                u.meshing.contains(n) == (t.meshing.contains(n) && n != c.0) by {
                lemma_filter_contains(t.meshing, keep, n);
            }
            assert forall|n: QuadNode| #[trigger]
                has_chunk(u.ready, n) == (has_chunk(t.ready, n) || n == c.0) by {
                if has_chunk(t.ready, n) {
                    let i = choose|i: int| 0 <= i < t.ready.len() && (#[trigger] t.ready[i]).0 == n;
                    assert(u.ready[i].0 == n);
                }
                if n == c.0 {
                    assert(u.ready[t.ready.len() as int].0 == n);
                }
                if has_chunk(u.ready, n) && n != c.0 {
                    let i = choose|i: int| 0 <= i < u.ready.len() && (#[trigger] u.ready[i]).0 == n;
                    assert(t.ready[i].0 == n);
                }
            }
            let k = choose|k: int| 0 <= k < t.meshing.len() && t.meshing[k] == c.0;
            assert(t.meshing[k].valid());
            assert(!has_chunk(t.ready, c.0));
            assert(!has_chunk(t.live, c.0));
            assert forall|i: int| 0 <= i < t.ready.len() implies (#[trigger] t.ready[i]).0
                != c.0 by {
                assert(has_chunk(t.ready, t.ready[i].0));
            }
            assert forall|i: int| 0 <= i < u.meshing.len() implies (
            #[trigger] u.meshing[i]).valid() by {
                assert(u.meshing.contains(u.meshing[i]));
                let j = choose|j: int| 0 <= j < t.meshing.len() && t.meshing[j] == u.meshing[i];
                assert(t.meshing[j].valid());
            }
            assert forall|n: QuadNode| #[trigger] u.knows(n) == s.knows(n) by {
                assert(t.knows(n) == s.knows(n));
                assert(u.meshing.contains(n) == (t.meshing.contains(n) && n != c.0));
                assert(has_chunk(u.ready, n) == (has_chunk(t.ready, n) || n == c.0));
            }
        }
    }
}

/// Which nodes a joined run of chunks holds.
proof fn lemma_joined_has_chunk(a: Seq<Chunk>, b: Seq<Chunk>, n: QuadNode)
    ensures
        has_chunk(a + b, n) == (has_chunk(a, n) || has_chunk(b, n)),
{
    if has_chunk(a, n) {
        let i = choose|i: int| 0 <= i < a.len() && (#[trigger] a[i]).0 == n;
        assert((a + b)[i].0 == n);
    }
    if has_chunk(b, n) {
        let i = choose|i: int| 0 <= i < b.len() && (#[trigger] b[i]).0 == n;
        assert((a + b)[a.len() + i].0 == n);
    }
    if has_chunk(a + b, n) {
        let i = choose|i: int| 0 <= i < (a + b).len() && (#[trigger] (a + b)[i]).0 == n;
        if i < a.len() {
            assert(a[i].0 == n);
        } else {
            assert(b[i - a.len()].0 == n);
        }
    }
}

/// Showing chunks keeps every node in one place.
proof fn lemma_uploaded_wf(s: Resident, desired: Seq<QuadNode>)
    requires
        s.wf(),
    ensures
        uploaded(s, desired).wf(),
        forall|n: QuadNode|
            has_chunk(s.live, n) ==> #[trigger] has_chunk(uploaded(s, desired).live, n),
{
    let keep = |c: Chunk| desired.contains(c.0);
    let w = wanted(s.ready, desired);
    let up = at_most(w, UPLOAD_BUDGET as int);
    let left = beyond(w, UPLOAD_BUDGET as int);
    let t = uploaded(s, desired);
    assert(w == s.ready.filter(keep));
    lemma_filter_nodes_once(s.ready, keep);
    assert(up + left =~= w);
    assert forall|n: QuadNode| #[trigger] has_chunk(w, n) implies has_chunk(s.ready, n) by {
        lemma_filter_has_chunk(s.ready, keep, n);
    }
    assert forall|n: QuadNode| has_chunk(up, n) || has_chunk(left, n) implies has_chunk(w, n) by {
        lemma_joined_has_chunk(up, left, n);
    }
    assert forall|n: QuadNode| #[trigger]
        has_chunk(t.live, n) == (has_chunk(s.live, n) || has_chunk(up, n)) by {
        lemma_joined_has_chunk(s.live, up, n);
    }
    assert forall|i: int| 0 <= i < w.len() implies (#[trigger] w[i]).0.valid() && has_chunk(
        s.ready,
        w[i].0,
    ) by {
        assert(w.contains(w[i]));
        lemma_filter_contains(s.ready, keep, w[i]);
        let j = choose|j: int| 0 <= j < s.ready.len() && s.ready[j] == w[i];
        assert(s.ready[j].0.valid());
    }
    assert forall|i: int, j: int| 0 <= i < j < t.live.len() implies (#[trigger] t.live[i]).0 != (
    #[trigger] t.live[j]).0 by {
        let m = s.live.len();
        if i < m && j >= m {
            assert(t.live[i] == s.live[i]);
            assert(t.live[j] == w[j - m]);
            assert(has_chunk(s.live, s.live[i].0));
            assert(has_chunk(s.ready, w[j - m].0));
        } else if i >= m {
            assert(t.live[i] == w[i - m]);
            assert(t.live[j] == w[j - m]);
        }
    }
    assert forall|n: QuadNode| has_chunk(up, n) implies !has_chunk(left, n) by {
        if has_chunk(up, n) && has_chunk(left, n) {
            let i = choose|i: int| 0 <= i < up.len() && (#[trigger] up[i]).0 == n;
            let j = choose|j: int| 0 <= j < left.len() && (#[trigger] left[j]).0 == n;
            assert(w[i].0 == n);
            assert(w[up.len() + j].0 == n);
        }
    }
    assert forall|n: QuadNode| #[trigger] has_chunk(t.live, n) implies !t.meshing.contains(n)
        && !has_chunk(t.ready, n) by {}
    assert forall|i: int| 0 <= i < t.live.len() implies (#[trigger] t.live[i]).0.valid() by {
        if i >= s.live.len() {
            assert(t.live[i] == w[i - s.live.len()]);
        }
    }
    assert forall|i: int| 0 <= i < t.ready.len() implies (#[trigger] t.ready[i]).0.valid() by {
        assert(t.ready[i] == w[i + up.len()]);
    }
    assert forall|i: int, j: int| 0 <= i < j < t.ready.len() implies (#[trigger] t.ready[i]).0 != (
    #[trigger] t.ready[j]).0 by {
        assert(t.ready[i] == w[i + up.len()]);
        assert(t.ready[j] == w[j + up.len()]);
    }
}

/// Starting builds keeps every node in one place.
proof fn lemma_enqueued_wf(s: Resident, desired: Seq<QuadNode>)
    requires
        s.wf(),
        desired.no_duplicates(),
        all_valid(desired),
    ensures
        enqueued(s, desired).wf(),
        enqueued(s, desired).live == s.live,
{
    let keep = |n: QuadNode| !s.knows(n);
    let m = missing(s, desired);
    let some = at_most(m, SPAWN_BUDGET as int);
    let t = enqueued(s, desired);
    assert(m == desired.filter(keep));
    lemma_filter_no_duplicates(desired, keep);
    assert forall|i: int| 0 <= i < some.len() implies !s.knows(#[trigger] some[i])
        && some[i].valid() by {
        assert(m[i] == some[i]);
        assert(m.contains(m[i]));
        lemma_filter_contains(desired, keep, m[i]);
        let j = choose|j: int| 0 <= j < desired.len() && desired[j] == m[i];
        assert(desired[j].valid());
    }
    let k = s.meshing.len();
    assert forall|i: int, j: int| 0 <= i < t.meshing.len() && 0 <= j < t.meshing.len() && i
        != j implies t.meshing[i] != t.meshing[j] by {
        if i < k && j >= k {
            assert(t.meshing[j] == some[j - k]);
            assert(s.meshing.contains(s.meshing[i]));
        } else if i >= k && j < k {
            assert(t.meshing[i] == some[i - k]);
            assert(s.meshing.contains(s.meshing[j]));
        } else if i >= k {
            assert(t.meshing[i] == m[i - k]);
            assert(t.meshing[j] == m[j - k]);
        }
    }
    assert forall|n: QuadNode| t.meshing.contains(n) implies s.meshing.contains(n) || !s.knows(
        n,
    ) by {
        let i = choose|i: int| 0 <= i < t.meshing.len() && t.meshing[i] == n;
        if i < k {
            assert(s.meshing[i] == n);
        } else {
            assert(some[i - k] == n);
        }
    }
    assert forall|i: int| 0 <= i < t.meshing.len() implies (#[trigger] t.meshing[i]).valid() by {
        if i >= k {
            assert(t.meshing[i] == some[i - k]);
        }
    }
}

/// Dropping chunks keeps every node in one place.
proof fn lemma_pruned_wf(s: Resident, desired: Seq<QuadNode>)
    requires
        s.wf(),
    ensures
        pruned(s, desired).wf(),
{
    let keep = |c: Chunk| !stale(s.live, desired, c.0);
    let t = pruned(s, desired);
    lemma_filter_nodes_once(s.live, keep);
    assert forall|n: QuadNode| #[trigger] has_chunk(t.live, n) implies has_chunk(s.live, n) by {
        lemma_filter_has_chunk(s.live, keep, n);
    }
    assert forall|i: int| 0 <= i < t.live.len() implies (#[trigger] t.live[i]).0.valid() by {
        assert(t.live.contains(t.live[i]));
        lemma_filter_contains(s.live, keep, t.live[i]);
        let j = choose|j: int| 0 <= j < s.live.len() && s.live[j] == t.live[i];
        assert(s.live[j].0.valid());
    }
}

/// Each frame keeps every node in one place.
pub proof fn lemma_frame_wf(s: Resident, desired: Seq<QuadNode>, done: Seq<Chunk>)
    requires
        s.wf(),
        desired.no_duplicates(),
        all_valid(desired),
    ensures
        frame(s, desired, done).wf(),
{
    lemma_polled_wf(s, done);
    let a = polled(s, done);
    lemma_uploaded_wf(a, desired);
    let b = uploaded(a, desired);
    lemma_enqueued_wf(b, desired);
    lemma_pruned_wf(enqueued(b, desired), desired);
}

impl ChunkStreamer {
    /// A streamer with nothing resident.
    pub fn new() -> (s: ChunkStreamer)
        ensures
            s@ == Resident::empty(),
            s@.wf(),
    {
        let s = ChunkStreamer { live: Vec::new(), meshing: Vec::new(), ready: Vec::new() };
        assert(s@ =~= Resident::empty());
        s
    }

    /// What the telemetry shows of a frame in which so many chunks were uploaded.
    pub fn stats(&self, uploaded: usize) -> (s: StreamStats)
        ensures
            s.live == self@.live.len(),
            s.meshing == self@.meshing.len(),
            s.ready == self@.ready.len(),
            s.uploaded == uploaded,
    {
        StreamStats {
            live: self.live.len(),
            meshing: self.meshing.len(),
            ready: self.ready.len(),
            uploaded,
        }
    }

    /// Number of chunks shown.
    pub fn live_count(&self) -> (n: usize)
        ensures
            n == self@.live.len(),
    {
        self.live.len()
    }

    /// Number of chunks being built.
    pub fn meshing_count(&self) -> (n: usize)
        ensures
            n == self@.meshing.len(),
    {
        self.meshing.len()
    }

    /// Number of chunks built and waiting.
    pub fn ready_count(&self) -> (n: usize)
        ensures
            n == self@.ready.len(),
    {
        self.ready.len()
    }

    /// Number of chunks being built or waiting.
    pub fn pending_count(&self) -> (n: usize)
        requires
            self@.meshing.len() + self@.ready.len() <= usize::MAX,
        ensures
            n == self@.meshing.len() + self@.ready.len(),
    {
        self.meshing.len() + self.ready.len()
    }

    /// Takes finished builds in.
    fn poll(&mut self, done: &Vec<Chunk>)
        ensures
            final(self)@ == polled(old(self)@, done@),
    {
        let ghost start = self@;
        let mut i: usize = 0;
        assert(done@.take(0) =~= Seq::<Chunk>::empty());
        while i < done.len()
            invariant
                i <= done.len(),
                self@ == polled(start, done@.take(i as int)),
            decreases done.len() - i,
        {
            let ghost t = self@;
            let ghost run = done@.take(i + 1);
            assert(run.drop_last() =~= done@.take(i as int));
            let c: Chunk = done[i];
            assert(run.last() == c);
            if holds(&self.meshing, c.0) {
                let ghost keep = |n: QuadNode| n != c.0;
                let mut rest: Vec<QuadNode> = Vec::new();
                let mut j: usize = 0;
                proof {
                    reveal(Seq::filter);
                    assert(t.meshing.take(0).filter(keep) =~= Seq::<QuadNode>::empty());
                }
                while j < self.meshing.len()
                    invariant
                        j <= self.meshing.len(),
                        self@ == t,
                        keep == (|n: QuadNode| n != c.0),
                        rest@ == t.meshing.take(j as int).filter(keep),
                    decreases self.meshing.len() - j,
                {
                    proof {
                        lemma_filter_next(t.meshing, j as int, keep);
                    }
                    if self.meshing[j] != c.0 {
                        rest.push(self.meshing[j]);
                    }
                    j += 1;
                }
                assert(t.meshing.take(j as int) =~= t.meshing);
                self.meshing = rest;
                self.ready.push(c);
                assert(self@ =~= polled(start, run));
            }
            i += 1;
        }
        assert(done@.take(done.len() as int) =~= done@);
    }

    /// Shows wanted chunks under the budget.
    fn upload(&mut self, desired: &Vec<QuadNode>) -> (up: Vec<Chunk>)
        ensures
            final(self)@ == uploaded(old(self)@, desired@),
            up@ == at_most(wanted(old(self)@.ready, desired@), UPLOAD_BUDGET as int),
    {
        let ghost s = self@;
        let ghost keep = |c: Chunk| desired@.contains(c.0);
        let mut up: Vec<Chunk> = Vec::new();
        let mut left: Vec<Chunk> = Vec::new();
        let mut i: usize = 0;
        proof {
            reveal(Seq::filter);
            assert(s.ready.take(0).filter(keep) =~= Seq::<Chunk>::empty());
            assert(s.live + up@ =~= s.live);
        }
        while i < self.ready.len()
            invariant
                i <= self.ready.len(),
                self.ready@ == s.ready,
                self.meshing@ == s.meshing,
                self.live@ == s.live + up@,
                keep == (|c: Chunk| desired@.contains(c.0)),
                up@ == at_most(s.ready.take(i as int).filter(keep), UPLOAD_BUDGET as int),
                left@ == beyond(s.ready.take(i as int).filter(keep), UPLOAD_BUDGET as int),
            decreases self.ready.len() - i,
        {
            let c: Chunk = self.ready[i];
            proof {
                lemma_filter_next(s.ready, i as int, keep);
            }
            let ghost f = s.ready.take(i as int).filter(keep);
            let ghost g = s.ready.take(i + 1).filter(keep);
            if holds(desired, c.0) {
                assert(g == f.push(c));
                if up.len() >= UPLOAD_BUDGET {
                    left.push(c);
                    assert(left@ =~= beyond(g, UPLOAD_BUDGET as int));
                    assert(up@ =~= at_most(g, UPLOAD_BUDGET as int));
                } else {
                    assert(up@ == f);
                    up.push(c);
                    self.live.push(c);
                    assert(up@ =~= at_most(g, UPLOAD_BUDGET as int));
                    assert(left@ =~= beyond(g, UPLOAD_BUDGET as int));
                    assert(self.live@ =~= s.live + up@);
                }
            }
            i += 1;
        }
        assert(s.ready.take(i as int) =~= s.ready);
        self.ready = left;
        assert(self@ =~= uploaded(s, desired@));
        up
    }

    /// Starts builds of missing nodes under the budget.
    fn enqueue(&mut self, desired: &Vec<QuadNode>) -> (build: Vec<QuadNode>)
        requires
            desired@.no_duplicates(),
        ensures
            final(self)@ == enqueued(old(self)@, desired@),
            build@ == at_most(missing(old(self)@, desired@), SPAWN_BUDGET as int),
    {
        let ghost s = self@;
        let ghost keep = |n: QuadNode| !s.knows(n);
        let mut build: Vec<QuadNode> = Vec::new();
        let mut i: usize = 0;
        proof {
            reveal(Seq::filter);
            assert(desired@.take(0).filter(keep) =~= Seq::<QuadNode>::empty());
        }
        while i < desired.len()
            invariant
                i <= desired.len(),
                self@ == s,
                keep == (|n: QuadNode| !s.knows(n)),
                build@ == at_most(desired@.take(i as int).filter(keep), SPAWN_BUDGET as int),
            decreases desired.len() - i,
        {
            let n: QuadNode = desired[i];
            proof {
                lemma_filter_next(desired@, i as int, keep);
            }
            let ghost f = desired@.take(i as int).filter(keep);
            let ghost g = desired@.take(i + 1).filter(keep);
            if !holds_chunk(&self.live, n) && !holds(&self.meshing, n) && !holds_chunk(
                &self.ready,
                n,
            ) {
                assert(g == f.push(n));
                if build.len() < SPAWN_BUDGET {
                    build.push(n);
                }
                assert(build@ =~= at_most(g, SPAWN_BUDGET as int));
            }
            i += 1;
        }
        assert(desired@.take(i as int) =~= desired@);
        let mut j: usize = 0;
        assert(s.meshing + build@.take(0) =~= s.meshing);
        while j < build.len()
            invariant
                j <= build.len(),
                self@.live == s.live,
                self@.ready == s.ready,
                self.meshing@ == s.meshing + build@.take(j as int),
            decreases build.len() - j,
        {
            self.meshing.push(build[j]);
            j += 1;
            assert(self.meshing@ =~= s.meshing + build@.take(j as int));
        }
        assert(build@.take(build.len() as int) =~= build@);
        assert(self@ =~= enqueued(s, desired@));
        build
    }

    /// Whether the shown chunk of `n` has to go.
    fn is_stale(&self, desired: &Vec<QuadNode>, n: QuadNode) -> (b: bool)
        requires
            n.valid(),
            all_valid(desired@),
        ensures
            b == stale(self@.live, desired@, n),
    {
        if holds(desired, n) {
            return false;
        }
        let mut i: usize = 0;
        while i < desired.len()
            invariant
                n.valid(),
                all_valid(desired@),
                i <= desired.len(),
                forall|j: int|
                    0 <= j < i && n.overlapping(#[trigger] desired@[j]) ==> has_chunk(
                        self@.live,
                        desired@[j],
                    ),
            decreases desired.len() - i,
        {
            if n.overlaps(&desired[i]) && !holds_chunk(&self.live, desired[i]) {
                return false;
            }
            i += 1;
        }
        true
    }

    /// Drops stale chunks.
    fn prune(&mut self, desired: &Vec<QuadNode>) -> (gone: Vec<Chunk>)
        requires
            old(self)@.wf(),
            all_valid(desired@),
        ensures
            final(self)@ == pruned(old(self)@, desired@),
            gone@ == old(self)@.live.filter(
                |k: Chunk| stale(old(self)@.live, desired@, k.0),
            ),
    {
        let ghost s = self@;
        let ghost keep = |c: Chunk| !stale(s.live, desired@, c.0);
        let ghost drop = |c: Chunk| stale(s.live, desired@, c.0);
        let mut kept: Vec<Chunk> = Vec::new();
        let mut gone: Vec<Chunk> = Vec::new();
        let mut i: usize = 0;
        proof {
            reveal(Seq::filter);
            assert(s.live.take(0).filter(keep) =~= Seq::<Chunk>::empty());
            assert(s.live.take(0).filter(drop) =~= Seq::<Chunk>::empty());
        }
        while i < self.live.len()
            invariant
                i <= self.live.len(),
                self@ == s,
                s.wf(),
                all_valid(desired@),
                keep == (|c: Chunk| !stale(s.live, desired@, c.0)),
                drop == (|c: Chunk| stale(s.live, desired@, c.0)),
                kept@ == s.live.take(i as int).filter(keep),
                gone@ == s.live.take(i as int).filter(drop),
            decreases self.live.len() - i,
        {
            let c: Chunk = self.live[i];
            proof {
                lemma_filter_next(s.live, i as int, keep);
                lemma_filter_next(s.live, i as int, drop);
                assert(s.live[i as int].0.valid());
            }
            if self.is_stale(desired, c.0) {
                gone.push(c);
            } else {
                kept.push(c);
            }
            i += 1;
        }
        assert(s.live.take(i as int) =~= s.live);
        self.live = kept;
        assert(self@ =~= pruned(s, desired@));
        gone
    }
}

/// Advances the streamer one frame: `desired` are the wanted leaves and `done`
/// the builds that have finished.
pub fn stream(
    streamer: &mut ChunkStreamer,
    desired: &Vec<QuadNode>,
    done: &Vec<Chunk>,
) -> (out: StreamOrders)
    requires
        old(streamer)@.wf(),
        desired@.no_duplicates(),
        all_valid(desired@),
    ensures
        final(streamer)@.wf(),
        final(streamer)@ == frame(old(streamer)@, desired@, done@),
        out@ == orders(old(streamer)@, desired@, done@),
{
    let ghost s = streamer@;
    proof {
        lemma_polled_wf(s, done@);
        lemma_uploaded_wf(polled(s, done@), desired@);
        lemma_enqueued_wf(uploaded(polled(s, done@), desired@), desired@);
        lemma_frame_wf(s, desired@, done@);
    }
    streamer.poll(done);
    let upload: Vec<Chunk> = streamer.upload(desired);
    let build: Vec<QuadNode> = streamer.enqueue(desired);
    let despawn: Vec<Chunk> = streamer.prune(desired);
    let out = StreamOrders { upload, build, despawn };
    assert(out@ =~= orders(s, desired@, done@));
    out
}

/// A change of detail never leaves a hole: with wanted leaves that tile the
/// sphere, every spot that was covered before a frame is covered after it.
pub proof fn lemma_no_holes(s: Resident, desired: Seq<QuadNode>, done: Seq<Chunk>, p: Spot)
    requires
        s.wf(),
        all_valid(desired),
        desired.no_duplicates(),
        tiles(desired),
        on_cube(p),
        exists|i: int| 0 <= i < s.live.len() && (#[trigger] s.live[i]).0.covers(p),
    ensures
        ({
            let live = frame(s, desired, done).live;
            exists|i: int| 0 <= i < live.len() && (#[trigger] live[i]).0.covers(p)
        }),
{
    lemma_polled_wf(s, done);
    let a = polled(s, done);
    lemma_uploaded_wf(a, desired);
    let b = uploaded(a, desired);
    lemma_enqueued_wf(b, desired);
    let c = enqueued(b, desired);
    let after = frame(s, desired, done);
    let keep = |k: Chunk| !stale(c.live, desired, k.0);
    let i = choose|i: int| 0 <= i < s.live.len() && (#[trigger] s.live[i]).0.covers(p);
    let n = s.live[i].0;
    assert(has_chunk(s.live, n));
    assert(has_chunk(c.live, n));
    let j = choose|j: int| 0 <= j < c.live.len() && (#[trigger] c.live[j]).0 == n;
    if keep(c.live[j]) {
        lemma_filter_has_chunk(c.live, keep, n);
        let k = choose|k: int| 0 <= k < after.live.len() && (#[trigger] after.live[k]).0 == n;
        assert(after.live[k].0.covers(p));
    } else {
        assert(covered(desired, p));
        let d = choose|d: int| 0 <= d < desired.len() && (#[trigger] desired[d]).covers(p);
        let m = desired[d];
        assert(n.valid() && m.valid());
        assert(n.overlapping(m)) by {
            assert(on_cube(p) && n.covers(p) && m.covers(p));
            lemma_overlap_is_sharing(n, m);
        }
        assert(has_chunk(c.live, m));
        let k = choose|k: int| 0 <= k < c.live.len() && (#[trigger] c.live[k]).0 == m;
        assert(desired.contains(m));
        assert(keep(c.live[k]));
        lemma_filter_has_chunk(c.live, keep, m);
        let q = choose|q: int| 0 <= q < after.live.len() && (#[trigger] after.live[q]).0 == m;
        assert(after.live[q].0.covers(p));
    }
}

/// Once everything wanted is shown, nothing else is.
pub proof fn lemma_settles_on_the_wanted(s: Resident, desired: Seq<QuadNode>, n: QuadNode)
    requires
        forall|i: int| 0 <= i < desired.len() ==> has_chunk(s.live, #[trigger] desired[i]),
    ensures
        has_chunk(pruned(s, desired).live, n) <==> desired.contains(n),
{
    let keep = |k: Chunk| !stale(s.live, desired, k.0);
    lemma_filter_has_chunk(s.live, keep, n);
    if desired.contains(n) {
        let i = choose|i: int| 0 <= i < desired.len() && desired[i] == n;
        assert(has_chunk(s.live, desired[i]));
        let k = choose|k: int| 0 <= k < s.live.len() && (#[trigger] s.live[k]).0 == n;
        assert(keep(s.live[k]));
    }
}

/// No frame shows or starts more than its budgets allow, and while the build
/// budget is not used up, every wanted node is shown, built or being built.
pub proof fn lemma_budgets_hold(s: Resident, desired: Seq<QuadNode>, done: Seq<Chunk>)
    requires
        s.wf(),
        desired.no_duplicates(),
        all_valid(desired),
    ensures
        orders(s, desired, done).upload.len() <= UPLOAD_BUDGET,
        orders(s, desired, done).build.len() <= SPAWN_BUDGET,
        orders(s, desired, done).build.len() < SPAWN_BUDGET ==> forall|i: int|
            0 <= i < desired.len() ==> frame(s, desired, done).knows(#[trigger] desired[i]),
{
    lemma_polled_wf(s, done);
    let a = polled(s, done);
    lemma_uploaded_wf(a, desired);
    let b = uploaded(a, desired);
    lemma_enqueued_wf(b, desired);
    let c = enqueued(b, desired);
    let t = frame(s, desired, done);
    let lacking = |n: QuadNode| !b.knows(n);
    let keep = |k: Chunk| !stale(c.live, desired, k.0);
    let m = missing(b, desired);
    if orders(s, desired, done).build.len() < SPAWN_BUDGET {
        assert forall|i: int| 0 <= i < desired.len() implies t.knows(#[trigger] desired[i]) by {
            let n = desired[i];
            assert(desired.contains(n));
            lemma_filter_contains(desired, lacking, n);
            if !b.knows(n) {
                assert(m.contains(n));
                let k = choose|k: int| 0 <= k < m.len() && m[k] == n;
                assert(c.meshing[b.meshing.len() + k] == n);
                assert(t.meshing.contains(n));
            } else if has_chunk(b.live, n) {
                let k = choose|k: int| 0 <= k < c.live.len() && (#[trigger] c.live[k]).0 == n;
                assert(keep(c.live[k]));
                lemma_filter_has_chunk(c.live, keep, n);
            } else if b.meshing.contains(n) {
                let k = choose|k: int| 0 <= k < b.meshing.len() && b.meshing[k] == n;
                assert(t.meshing[k] == n);
            }
        }
    }
}

/// Leaves that tile the sphere are all different.
pub proof fn lemma_tiling_has_no_duplicates(nodes: Seq<QuadNode>)
    requires
        tiles(nodes),
        all_valid(nodes),
    ensures
        nodes.no_duplicates(),
{
    assert forall|i: int, j: int| 0 <= i < nodes.len() && 0 <= j < nodes.len() && i
        != j implies nodes[i] != nodes[j] by {
        if nodes[i] == nodes[j] {
            let n = nodes[i];
            assert(n.valid());
            assert(n.overlapping(n)) by {
                assert(crate::quadtree::span(0) == 1);
                assert(n.x as int / 1int == n.x);
                assert(n.y as int / 1int == n.y);
            }
            lemma_overlap_is_sharing(n, n);
            let p = choose|p: Spot| on_cube(p) && n.covers(p) && n.covers(p);
            assert(nodes[i].covers(p) && nodes[j].covers(p));
            if i < j {
                assert(!(nodes[i].covers(p) && nodes[j].covers(p)));
            } else {
                assert(!(nodes[j].covers(p) && nodes[i].covers(p)));
            }
        }
    }
}

/// A build that finishes is no longer under way and waits to be shown, behind those that
/// waited before it; a build that was never asked for changes nothing.
pub proof fn lemma_a_finished_build_queues_up(s: Resident, c: Chunk)
    ensures
        ({
            let t = polled(s, seq![c]);
            &&& t.live == s.live
            &&& !t.meshing.contains(c.0)
            &&& s.meshing.contains(c.0) ==> t.ready == s.ready.push(c)
            &&& !s.meshing.contains(c.0) ==> t == s
            &&& forall|n: QuadNode| #[trigger]
                t.meshing.contains(n) <==> s.meshing.contains(n) && n != c.0
        }),
{
    let done = seq![c];
    assert(done.drop_last() =~= Seq::<Chunk>::empty());
    assert(polled(s, done.drop_last()) == s);
    let keep = |n: QuadNode| n != c.0;
    let t = polled(s, done);
    assert forall|n: QuadNode| #[trigger]
        t.meshing.contains(n) <==> s.meshing.contains(n) && n != c.0 by {
        lemma_filter_contains(s.meshing, keep, n);
    }
}

/// What waits to be shown after polling waited before or has just finished.
proof fn lemma_ready_comes_from_builds(s: Resident, done: Seq<Chunk>, c: Chunk)
    ensures
        polled(s, done).ready.contains(c) ==> s.ready.contains(c) || done.contains(c),
        s.ready.contains(c) ==> polled(s, done).ready.contains(c),
    decreases done.len(),
{
    if done.len() > 0 {
        let front = done.drop_last();
        lemma_ready_comes_from_builds(s, front, c);
        let t = polled(s, front);
        let u = polled(s, done);
        if front.contains(c) {
            let i = choose|i: int| 0 <= i < front.len() && front[i] == c;
            assert(done[i] == c);
        }
        assert(done[done.len() - 1] == done.last());
        if t.meshing.contains(done.last().0) {
            if u.ready.contains(c) {
                let i = choose|i: int| 0 <= i < u.ready.len() && u.ready[i] == c;
                if i < t.ready.len() {
                    assert(t.ready[i] == c);
                }
            }
            if t.ready.contains(c) {
                let i = choose|i: int| 0 <= i < t.ready.len() && t.ready[i] == c;
                assert(u.ready[i] == c);
            }
        }
    }
}

/// A node that is being built and whose build has finished waits to be shown after polling.
proof fn lemma_finished_builds_are_ready(s: Resident, done: Seq<Chunk>, n: QuadNode)
    ensures
        s.meshing.contains(n) && has_chunk(done, n) ==> has_chunk(polled(s, done).ready, n),
        s.meshing.contains(n) && !has_chunk(done, n) ==> polled(s, done).meshing.contains(n),
    decreases done.len(),
{
    if done.len() > 0 && s.meshing.contains(n) {
        let front = done.drop_last();
        lemma_finished_builds_are_ready(s, front, n);
        let t = polled(s, front);
        let u = polled(s, done);
        let c = done.last();
        let keep = |m: QuadNode| m != c.0;
        assert(done[done.len() - 1] == c);
        if has_chunk(front, n) {
            let i = choose|i: int| 0 <= i < front.len() && (#[trigger] front[i]).0 == n;
            assert(done[i].0 == n);
            let k = choose|k: int| 0 <= k < t.ready.len() && (#[trigger] t.ready[k]).0 == n;
            assert(u.ready[k].0 == n);
        } else if c.0 == n {
            assert(u.ready[t.ready.len() as int].0 == n);
        } else {
            if has_chunk(done, n) {
                let i = choose|i: int| 0 <= i < done.len() && (#[trigger] done[i]).0 == n;
                assert(front[i].0 == n);
            }
            lemma_filter_contains(t.meshing, keep, n);
        }
    }
}

/// No wanted chunk is lost: one that waits, or whose build has just finished, is shown by the
/// frame or goes on waiting, and waits only while the frame shows as many as it may.
pub proof fn lemma_wanted_builds_are_not_lost(
    s: Resident,
    desired: Seq<QuadNode>,
    done: Seq<Chunk>,
    n: QuadNode,
)
    requires
        s.wf(),
        desired.contains(n),
        has_chunk(s.ready, n) || (s.meshing.contains(n) && has_chunk(done, n)),
    ensures
        ({
            let t = frame(s, desired, done);
            &&& has_chunk(t.live, n) || has_chunk(t.ready, n)
            &&& orders(s, desired, done).upload.len() < 6 ==> has_chunk(t.live, n) && has_chunk(
                orders(s, desired, done).upload,
                n,
            )
        }),
{
    lemma_polled_wf(s, done);
    lemma_finished_builds_are_ready(s, done, n);
    let a = polled(s, done);
    if has_chunk(s.ready, n) {
        let i = choose|i: int| 0 <= i < s.ready.len() && (#[trigger] s.ready[i]).0 == n;
        lemma_ready_comes_from_builds(s, done, s.ready[i]);
        let k = choose|k: int| 0 <= k < a.ready.len() && a.ready[k] == s.ready[i];
        assert(a.ready[k].0 == n);
    }
    assert(has_chunk(a.ready, n));
    let asked = |c: Chunk| desired.contains(c.0);
    lemma_filter_has_chunk(a.ready, asked, n);
    let w = wanted(a.ready, desired);
    assert(has_chunk(w, n));
    let i = choose|i: int| 0 <= i < w.len() && (#[trigger] w[i]).0 == n;
    let b = uploaded(a, desired);
    let c = enqueued(b, desired);
    let t = frame(s, desired, done);
    let keep = |k: Chunk| !stale(c.live, desired, k.0);
    let up = at_most(w, UPLOAD_BUDGET as int);
    if w.len() <= 6 || i < 6 {
        assert(up[i].0 == n);
        assert(c.live[a.live.len() + i].0 == n);
        assert(keep(c.live[a.live.len() + i]));
        lemma_filter_has_chunk(c.live, keep, n);
    } else {
        assert(b.ready[i - 6].0 == n);
        assert(t.ready[i - 6].0 == n);
    }
}

/// What a frame shows anew is wanted and has been built: it waited, or its build has just
/// finished.
pub proof fn lemma_only_wanted_builds_are_shown(
    s: Resident,
    desired: Seq<QuadNode>,
    done: Seq<Chunk>,
    c: Chunk,
)
    requires
        orders(s, desired, done).upload.contains(c),
    ensures
        desired.contains(c.0),
        s.ready.contains(c) || done.contains(c),
{
    let a = polled(s, done);
    let w = wanted(a.ready, desired);
    let up = at_most(w, UPLOAD_BUDGET as int);
    let i = choose|i: int| 0 <= i < up.len() && up[i] == c;
    assert(w[i] == c);
    assert(w.contains(c));
    lemma_filter_contains(a.ready, |k: Chunk| desired.contains(k.0), c);
    lemma_ready_comes_from_builds(s, done, c);
}

/// Every chunk that is shown before a frame, or shown anew by it, is shown after it or dropped
/// by it, and every chunk that is shown after or dropped was shown or is new; what is dropped
/// was not wanted.
pub proof fn lemma_shown_chunks_are_accounted_for(
    s: Resident,
    desired: Seq<QuadNode>,
    done: Seq<Chunk>,
    c: Chunk,
)
    requires
        s.wf(),
    ensures
        ({
            let (t, o) = (frame(s, desired, done), orders(s, desired, done));
            &&& s.live.contains(c) || o.upload.contains(c) <==> t.live.contains(c)
                || o.despawn.contains(c)
            &&& !(t.live.contains(c) && o.despawn.contains(c))
            &&& o.despawn.contains(c) ==> !desired.contains(c.0)
        }),
{
    lemma_polled_wf(s, done);
    let a = polled(s, done);
    let b = uploaded(a, desired);
    let m = enqueued(b, desired);
    let up = orders(s, desired, done).upload;
    lemma_filter_contains(m.live, |k: Chunk| !stale(m.live, desired, k.0), c);
    lemma_filter_contains(m.live, |k: Chunk| stale(m.live, desired, k.0), c);
    assert(m.live == s.live + up);
    if s.live.contains(c) {
        let i = choose|i: int| 0 <= i < s.live.len() && s.live[i] == c;
        assert(m.live[i] == c);
    }
    if up.contains(c) {
        let i = choose|i: int| 0 <= i < up.len() && up[i] == c;
        assert(m.live[s.live.len() + i] == c);
    }
    if m.live.contains(c) {
        let i = choose|i: int| 0 <= i < m.live.len() && m.live[i] == c;
        if i < s.live.len() {
            assert(s.live[i] == c);
        } else {
            assert(up[i - s.live.len()] == c);
        }
    }
}

/// What a frame starts to build is wanted and was neither shown, nor built, nor under way, and
/// is under way after it; at most twelve builds are started and six chunks shown.
pub proof fn lemma_only_missing_nodes_are_built(
    s: Resident,
    desired: Seq<QuadNode>,
    done: Seq<Chunk>,
    n: QuadNode,
)
    requires
        s.wf(),
    ensures
        orders(s, desired, done).build.contains(n) ==> desired.contains(n) && !has_chunk(
            s.live,
            n,
        ) && frame(s, desired, done).meshing.contains(n),
        orders(s, desired, done).build.contains(n) ==> !s.meshing.contains(n) && !has_chunk(
            s.ready,
            n,
        ),
        orders(s, desired, done).build.len() <= 12,
        orders(s, desired, done).upload.len() <= 6,
{
    lemma_polled_wf(s, done);
    let a = polled(s, done);
    let b = uploaded(a, desired);
    let o = orders(s, desired, done);
    if o.build.contains(n) {
        let i = choose|i: int| 0 <= i < o.build.len() && o.build[i] == n;
        let m = missing(b, desired);
        assert(m[i] == n);
        assert(m.contains(n));
        lemma_filter_contains(desired, |k: QuadNode| !b.knows(k), n);
        let t = frame(s, desired, done);
        assert(t.meshing[b.meshing.len() + i] == n);
        assert(a.knows(n) == s.knows(n));
        let up = o.upload;
        lemma_joined_has_chunk(a.live, up, n);
        if has_chunk(a.ready, n) {
            let w = wanted(a.ready, desired);
            lemma_filter_has_chunk(a.ready, |c: Chunk| desired.contains(c.0), n);
            let k = choose|k: int| 0 <= k < w.len() && (#[trigger] w[k]).0 == n;
            if w.len() <= 6 || k < 6 {
                assert(up[k].0 == n);
            } else {
                assert(b.ready[k - 6].0 == n);
            }
        }
    }
}

} // verus!
