//! The spherified-cube quadtree: six square faces, each halved again and again.
//!
//! A node covers the spots of the finest grid that lie in its square. Nodes that
//! tile the sphere cover every spot exactly once.

use vstd::arithmetic::div_mod::lemma_div_denominator;
use vstd::prelude::*;

verus! {

/// The deepest level a node can have.
pub const FINEST_LEVEL: u32 = 30;

/// A square of one cube face: `2^level` squares a side, this one at `(x, y)`.
#[derive(Clone, Copy, Debug, PartialEq, Eq, Structural)]
pub struct QuadNode {
    pub face: u32,
    pub level: u32,
    pub x: u32,
    pub y: u32,
}

/// A spot of the finest grid.
pub struct Spot {
    pub face: int,
    pub x: int,
    pub y: int,
}

/// Two to the power `k`.
pub open spec fn span(k: nat) -> nat
    decreases k,
{
    if k == 0 {
        1
    } else {
        2 * span((k - 1) as nat)
    }
}

/// Whether a spot lies on the cube.
pub open spec fn on_cube(p: Spot) -> bool {
    0 <= p.face < 6 && 0 <= p.x < span(30) && 0 <= p.y < span(30)
}

impl QuadNode {
    /// Whether the node is a square of the cube.
    pub open spec fn valid(self) -> bool {
        &&& self.face < 6
        &&& self.level <= FINEST_LEVEL
        &&& self.x < span(self.level as nat)
        &&& self.y < span(self.level as nat)
    }

    /// How many spots a side of the node spans.
    pub open spec fn width(self) -> int {
        span((30 - self.level) as nat) as int
    }

    /// Whether a spot lies in the node's square.
    pub open spec fn covers(self, p: Spot) -> bool {
        &&& p.face == self.face
        &&& p.x / self.width() == self.x
        &&& p.y / self.width() == self.y
    }

    /// One of the four halves-by-halves of the node.
    pub open spec fn child(self, right: bool, upper: bool) -> QuadNode {
        QuadNode {
            face: self.face,
            level: (self.level + 1) as u32,
            x: (2 * self.x + if right {
                1int
            } else {
                0
            }) as u32,
            y: (2 * self.y + if upper {
                1int
            } else {
                0
            }) as u32,
        }
    }

    /// The node's four children.
    pub open spec fn quarters(self) -> Seq<QuadNode> {
        seq![
            self.child(false, false),
            self.child(true, false),
            self.child(false, true),
            self.child(true, true),
        ]
    }

    /// Whether one node's square holds the other's.
    pub open spec fn overlapping(self, other: QuadNode) -> bool {
        &&& self.face == other.face
        &&& if self.level <= other.level {
            &&& other.x as int / span((other.level - self.level) as nat) as int == self.x
            &&& other.y as int / span((other.level - self.level) as nat) as int == self.y
        } else {
            &&& self.x as int / span((self.level - other.level) as nat) as int == other.x
            &&& self.y as int / span((self.level - other.level) as nat) as int == other.y
        }
    }

    /// The six faces.
    pub fn roots() -> (r: Vec<QuadNode>)
        ensures
            r@ == faces(),
    {
        let mut r: Vec<QuadNode> = Vec::new();
        let mut face: u32 = 0;
        while face < 6
            invariant
                face <= 6,
                r@ == faces().take(face as int),
            decreases 6 - face,
        {
            r.push(QuadNode { face, level: 0, x: 0, y: 0 });
            face += 1;
            assert(r@ =~= faces().take(face as int));
        }
        assert(faces().take(6) =~= faces());
        r
    }

    /// The node's four children.
    pub fn children(&self) -> (c: Vec<QuadNode>)
        requires
            self.valid(),
            self.level < FINEST_LEVEL,
        ensures
            c@ == self.quarters(),
            forall|i: int| 0 <= i < 4 ==> (#[trigger] c@[i]).valid(),
    {
        proof {
            lemma_span_bound(self.level as nat);
            lemma_span_bound((self.level + 1) as nat);
            assert(span((self.level + 1) as nat) == 2 * span(self.level as nat));
        }
        let (l, x, y): (u32, u32, u32) = (self.level + 1, 2 * self.x, 2 * self.y);
        let face: u32 = self.face;
        let mut c: Vec<QuadNode> = Vec::new();
        c.push(QuadNode { face, level: l, x, y });
        c.push(QuadNode { face, level: l, x: x + 1, y });
        c.push(QuadNode { face, level: l, x, y: y + 1 });
        c.push(QuadNode { face, level: l, x: x + 1, y: y + 1 });
        assert(c@ =~= self.quarters());
        c
    }

    /// Whether one node's square holds the other's.
    pub fn overlaps(&self, other: &QuadNode) -> (b: bool)
        requires
            self.valid(),
            other.valid(),
        ensures
            b == self.overlapping(*other),
    {
        if self.face != other.face {
            false
        } else if self.level <= other.level {
            let k: u32 = other.level - self.level;
            lifted(other.x, k) == self.x && lifted(other.y, k) == self.y
        } else {
            let k: u32 = self.level - other.level;
            lifted(self.x, k) == other.x && lifted(self.y, k) == other.y
        }
    }
}

/// The six faces.
pub open spec fn faces() -> Seq<QuadNode> {
    Seq::new(6, |i: int| QuadNode { face: i as u32, level: 0, x: 0, y: 0 })
}

/// A coordinate seen from `k` levels up.
fn lifted(x: u32, k: u32) -> (r: u32)
    ensures
        r == x as int / span(k as nat) as int,
{
    let mut r: u32 = x;
    let mut i: u32 = 0;
    assert(span(0) == 1);
    assert(x as int / 1int == x);
    while i < k
        invariant
            i <= k,
            r == x as int / span(i as nat) as int,
        decreases k - i,
    {
        proof {
            lemma_span_positive(i as nat);
            lemma_div_denominator(x as int, span(i as nat) as int, 2);
            assert(span(i as nat) * 2 == span((i + 1) as nat));
        }
        r = r / 2;
        i += 1;
    }
    r
}

/// Powers of two are positive.
pub proof fn lemma_span_positive(k: nat)
    ensures
        span(k) >= 1,
    decreases k,
{
    if k > 0 {
        lemma_span_positive((k - 1) as nat);
    }
}

/// Powers of two multiply by adding exponents.
proof fn lemma_span_adds(a: nat, b: nat)
    ensures
        span(a + b) == span(a) * span(b),
    decreases b,
{
    if b > 0 {
        lemma_span_adds(a, (b - 1) as nat);
        assert(span(a) * (2 * span((b - 1) as nat)) == 2 * (span(a) * span((b - 1) as nat)))
            by (nonlinear_arith);
        assert(span(a + b) == 2 * span((a + b - 1) as nat));
    } else {
        assert(span(a) * 1 == span(a));
    }
}

/// Every level's coordinates fit a machine word.
proof fn lemma_span_bound(k: nat)
    requires
        k <= 30,
    ensures
        span(k) <= 0x4000_0000,
{
    lemma_span_positive((30 - k) as nat);
    lemma_span_adds(k, (30 - k) as nat);
    assert(span(k) <= span(k) * span((30 - k) as nat)) by (nonlinear_arith)
        requires
            span((30 - k) as nat) >= 1,
    ;
    assert(span(30) == 0x4000_0000) by {
        reveal_with_fuel(span, 31);
    }
}

/// A node covers what its children cover, each spot by exactly one of them.
pub proof fn lemma_children_share_the_node(n: QuadNode, p: Spot)
    requires
        n.valid(),
        n.level < FINEST_LEVEL,
        on_cube(p),
    ensures
        n.covers(p) <==> exists|i: int| 0 <= i < 4 && (#[trigger] n.quarters()[i]).covers(p),
        forall|i: int, j: int|
            0 <= i < j < 4 ==> !(#[trigger] n.quarters()[i].covers(p)
                && #[trigger] n.quarters()[j].covers(p)),
{
    let h = span((29 - n.level) as nat) as int;
    lemma_span_positive((29 - n.level) as nat);
    assert(n.width() == h * 2);
    lemma_div_denominator(p.x, h, 2);
    lemma_div_denominator(p.y, h, 2);
    lemma_span_bound(n.level as nat);
    let q = n.quarters();
    assert forall|i: int| 0 <= i < 4 implies (#[trigger] q[i]).width() == h by {}
    let qx = p.x / h;
    let qy = p.y / h;
    if n.covers(p) {
        assert(qx == 2 * n.x || qx == 2 * n.x + 1);
        assert(qy == 2 * n.y || qy == 2 * n.y + 1);
        let i = (qx - 2 * n.x) + 2 * (qy - 2 * n.y);
        assert(q[i].covers(p));
    }
}

/// Two nodes overlap exactly when some spot lies in both.
pub proof fn lemma_overlap_is_sharing(a: QuadNode, b: QuadNode)
    requires
        a.valid(),
        b.valid(),
    ensures
        a.overlapping(b) <==> exists|p: Spot| on_cube(p) && a.covers(p) && b.covers(p),
{
    if a.level <= b.level {
        lemma_overlap_ordered(a, b);
    } else {
        lemma_overlap_ordered(b, a);
        assert(a.overlapping(b) == b.overlapping(a));
        if exists|p: Spot| on_cube(p) && a.covers(p) && b.covers(p) {
            let p = choose|p: Spot| on_cube(p) && a.covers(p) && b.covers(p);
            assert(on_cube(p) && b.covers(p) && a.covers(p));
        }
        if exists|p: Spot| on_cube(p) && b.covers(p) && a.covers(p) {
            let p = choose|p: Spot| on_cube(p) && b.covers(p) && a.covers(p);
            assert(on_cube(p) && a.covers(p) && b.covers(p));
        }
    }
}

proof fn lemma_overlap_ordered(a: QuadNode, b: QuadNode)
    requires
        a.valid(),
        b.valid(),
        a.level <= b.level,
    ensures
        a.overlapping(b) <==> exists|p: Spot| on_cube(p) && a.covers(p) && b.covers(p),
{
    let k = (b.level - a.level) as nat;
    let w = b.width();
    lemma_span_positive((30 - b.level) as nat);
    lemma_span_positive(k);
    lemma_span_adds((30 - b.level) as nat, k);
    assert((30 - b.level) as nat + k == (30 - a.level) as nat);
    assert(a.width() == w * span(k));
    if exists|p: Spot| on_cube(p) && a.covers(p) && b.covers(p) {
        let p = choose|p: Spot| on_cube(p) && a.covers(p) && b.covers(p);
        lemma_div_denominator(p.x, w, span(k) as int);
        lemma_div_denominator(p.y, w, span(k) as int);
    }
    if a.overlapping(b) {
        let p = Spot { face: b.face as int, x: b.x * w, y: b.y * w };
        lemma_span_adds(b.level as nat, (30 - b.level) as nat);
        assert(b.x * w < span(30)) by (nonlinear_arith)
            requires
                b.x < span(b.level as nat),
                w >= 1,
                span(30) == span(b.level as nat) * w,
        ;
        assert(b.y * w < span(30)) by (nonlinear_arith)
            requires
                b.y < span(b.level as nat),
                w >= 1,
                span(30) == span(b.level as nat) * w,
        ;
        assert(b.x * w >= 0 && b.y * w >= 0) by (nonlinear_arith)
            requires
                w >= 1,
        ;
        vstd::arithmetic::div_mod::lemma_div_by_multiple(b.x as int, w);
        vstd::arithmetic::div_mod::lemma_div_by_multiple(b.y as int, w);
        lemma_div_denominator(p.x, w, span(k) as int);
        lemma_div_denominator(p.y, w, span(k) as int);
        assert(b.covers(p));
        assert(a.covers(p));
        assert(on_cube(p));
    }
}

/// Whether some node of `nodes` covers a spot.
pub open spec fn covered(nodes: Seq<QuadNode>, p: Spot) -> bool {
    exists|i: int| 0 <= i < nodes.len() && (#[trigger] nodes[i]).covers(p)
}

/// Whether `nodes` cover every spot of the cube exactly once.
pub open spec fn tiles(nodes: Seq<QuadNode>) -> bool {
    &&& forall|p: Spot| on_cube(p) ==> #[trigger] covered(nodes, p)
    &&& forall|p: Spot, i: int, j: int|
        on_cube(p) && 0 <= i < j < nodes.len() ==> !(#[trigger] nodes[i].covers(p)
            && #[trigger] nodes[j].covers(p))
}

/// Whether every node of `nodes` is a square of the cube.
pub open spec fn all_valid(nodes: Seq<QuadNode>) -> bool {
    forall|i: int| 0 <= i < nodes.len() ==> (#[trigger] nodes[i]).valid()
}

/// A face covers exactly its own spots.
proof fn lemma_face_covers(face: int, p: Spot)
    requires
        0 <= face < 6,
        on_cube(p),
    ensures
        faces()[face].covers(p) <==> p.face == face,
{
    let w = span(30) as int;
    assert(faces()[face].width() == w);
    vstd::arithmetic::div_mod::lemma_basic_div(p.x, w);
    vstd::arithmetic::div_mod::lemma_basic_div(p.y, w);
}

/// The six faces tile the cube.
pub proof fn lemma_faces_tile()
    ensures
        tiles(faces()),
        all_valid(faces()),
{
    assert forall|p: Spot| on_cube(p) implies #[trigger] covered(faces(), p) by {
        lemma_face_covers(p.face, p);
        assert(faces()[p.face].covers(p));
    }
    assert forall|p: Spot, i: int, j: int| on_cube(p) && 0 <= i < j < faces().len() implies !(
    #[trigger] faces()[i].covers(p) && #[trigger] faces()[j].covers(p)) by {
        lemma_face_covers(i, p);
        lemma_face_covers(j, p);
    }
    assert(span(0) == 1);
}

} // verus!
