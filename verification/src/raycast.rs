//! Where a ray meets a build.
//!
//! The ray starts at a point in micrometres and goes along a direction in
//! billionths. Times along it are exact fractions, so no comparison is rounded.

use crate::editor::Hovered;
use crate::voxel::Cell;
use crate::voxel::Voxel;
use crate::voxel::VoxelCraft;
use vstd::prelude::*;

verus! {

/// A ray.
#[derive(Clone, Copy, Debug, PartialEq, Eq, Structural)]
pub struct Ray {
    pub ox: i64,
    pub oy: i64,
    pub oz: i64,
    pub dx: i32,
    pub dy: i32,
    pub dz: i32,
}

/// The farthest start of a ray from the origin, along each axis.
pub const MAX_REACH: i64 = 0x1000_0000_0000_0000;

impl Ray {
    /// Whether the ray starts within reach.
    pub open spec fn wf(self) -> bool {
        &&& -MAX_REACH <= self.ox <= MAX_REACH
        &&& -MAX_REACH <= self.oy <= MAX_REACH
        &&& -MAX_REACH <= self.oz <= MAX_REACH
    }

    /// The start, along an axis.
    pub open spec fn start(self, k: int) -> int {
        if k == 0 {
            self.ox as int
        } else if k == 1 {
            self.oy as int
        } else {
            self.oz as int
        }
    }

    /// The direction, along an axis.
    pub open spec fn way(self, k: int) -> int {
        if k == 0 {
            self.dx as int
        } else if k == 1 {
            self.dy as int
        } else {
            self.dz as int
        }
    }
}

/// A coordinate of a cell.
pub open spec fn along_axis(c: Cell, k: int) -> int {
    if k == 0 {
        c.x as int
    } else if k == 1 {
        c.y as int
    } else {
        c.z as int
    }
}

/// A time along a ray: a fraction with a positive denominator.
#[derive(Clone, Copy, Debug, PartialEq, Eq, Structural)]
pub struct Time {
    pub num: i128,
    pub den: i128,
}

/// A fraction, in ghost code.
pub struct Frac {
    pub num: int,
    pub den: int,
}

impl Time {
    /// The fraction that a time is.
    pub open spec fn frac(self) -> Frac {
        Frac { num: self.num as int, den: self.den as int }
    }

    /// Whether a time is one that a ray within reach can have.
    pub open spec fn wf(self) -> bool {
        &&& -0x1_0000_0000_0000_0000 <= self.num <= 0x1_0000_0000_0000_0000
        &&& 0 < self.den <= 0x1_0000_0000
    }
}

/// Whether one fraction is larger than another.
pub open spec fn later(a: Frac, b: Frac) -> bool {
    a.num * b.den > b.num * a.den
}

/// When a coordinate enters the span from `lo` to `hi`, if it moves.
pub open spec fn enter_time(o: int, d: int, lo: int, hi: int) -> Option<Frac> {
    if d > 0 {
        Some(Frac { num: lo - o, den: d })
    } else if d < 0 {
        Some(Frac { num: o - hi, den: -d })
    } else {
        None
    }
}

/// When a coordinate leaves the span from `lo` to `hi`, if it moves.
pub open spec fn exit_time(o: int, d: int, lo: int, hi: int) -> Option<Frac> {
    if d > 0 {
        Some(Frac { num: hi - o, den: d })
    } else if d < 0 {
        Some(Frac { num: o - lo, den: -d })
    } else {
        None
    }
}

/// When a ray enters the slab of a cell along an axis.
pub open spec fn slab_enter(r: Ray, c: Cell, s: int, k: int) -> Option<Frac> {
    enter_time(r.start(k), r.way(k), along_axis(c, k) * s, (along_axis(c, k) + 1) * s)
}

/// When a ray leaves the slab of a cell along an axis.
pub open spec fn slab_exit(r: Ray, c: Cell, s: int, k: int) -> Option<Frac> {
    exit_time(r.start(k), r.way(k), along_axis(c, k) * s, (along_axis(c, k) + 1) * s)
}

/// Whether a ray runs beside the slab of a cell and never meets it.
pub open spec fn slab_missed(r: Ray, c: Cell, s: int, k: int) -> bool {
    r.way(k) == 0 && !(along_axis(c, k) * s <= r.start(k) <= (along_axis(c, k) + 1) * s)
}

/// The axis that is entered last; the first of those that are entered together.
pub open spec fn last_entered(r: Ray, c: Cell, s: int) -> Option<int> {
    let e = |k: int| slab_enter(r, c, s, k);
    let b0 = if e(0) is Some {
        Some(0int)
    } else {
        None
    };
    let b1 = if e(1) is Some && (b0 is None || later(e(1)->0, e(b0->0)->0)) {
        Some(1int)
    } else {
        b0
    };
    if e(2) is Some && (b1 is None || later(e(2)->0, e(b1->0)->0)) {
        Some(2int)
    } else {
        b1
    }
}

/// Whether an axis is left before a time.
pub open spec fn left_before(r: Ray, c: Cell, s: int, k: int, t: Frac) -> bool {
    slab_exit(r, c, s, k) is Some && later(t, slab_exit(r, c, s, k)->0)
}

/// The axis through which a ray enters a cell from outside, if it does.
pub open spec fn entry_axis(r: Ray, c: Cell, s: int) -> Option<int> {
    match last_entered(r, c, s) {
        None => None,
        Some(a) => {
            let t = slab_enter(r, c, s, a)->0;
            if slab_missed(r, c, s, 0) || slab_missed(r, c, s, 1) || slab_missed(r, c, s, 2)
                || t.num < 0 || left_before(r, c, s, 0, t) || left_before(r, c, s, 1, t)
                || left_before(r, c, s, 2, t) {
                None
            } else {
                Some(a)
            }
        },
    }
}

/// When a ray enters a cell from outside, if it does.
pub open spec fn entry_time(r: Ray, c: Cell, s: int) -> Option<Frac> {
    match entry_axis(r, c, s) {
        Some(a) => slab_enter(r, c, s, a),
        None => None,
    }
}

/// The outward normal of the face through which a ray enters along an axis.
pub open spec fn face_normal(r: Ray, axis: int) -> Cell {
    let n = if r.way(axis) > 0 {
        -1i32
    } else {
        1i32
    };
    Cell {
        x: if axis == 0 {
            n
        } else {
            0
        },
        y: if axis == 1 {
            n
        } else {
            0
        },
        z: if axis == 2 {
            n
        } else {
            0
        },
    }
}

/// The first of the voxels that a ray enters soonest, among the first `k`.
pub open spec fn soonest(r: Ray, voxels: Seq<Voxel>, s: int, k: int) -> Option<int>
    decreases k,
{
    if k <= 0 {
        None
    } else {
        let before = soonest(r, voxels, s, k - 1);
        match entry_time(r, voxels[k - 1].cell, s) {
            None => before,
            Some(t) => match before {
                None => Some(k - 1),
                Some(b) => if later(entry_time(r, voxels[b].cell, s)->0, t) {
                    Some(k - 1)
                } else {
                    Some(b)
                },
            },
        }
    }
}

/// The voxel that a ray hits, and the normal of the face.
pub open spec fn hit_of(r: Ray, voxels: Seq<Voxel>, s: int) -> Option<(Cell, Cell)> {
    match soonest(r, voxels, s, voxels.len() as int) {
        Some(b) => Some(
            (voxels[b].cell, face_normal(r, entry_axis(r, voxels[b].cell, s)->0)),
        ),
        None => None,
    }
}

/// Whether one time is later than another.
fn is_later(a: Time, b: Time) -> (l: bool)
    requires
        a.wf(),
        b.wf(),
    ensures
        l == later(a.frac(), b.frac()),
{
    assert(-0x1_0000_0000_0000_0000_0000_0000 <= a.num * b.den <= 0x1_0000_0000_0000_0000_0000_0000)
        by (nonlinear_arith)
        requires
            -0x1_0000_0000_0000_0000 <= a.num <= 0x1_0000_0000_0000_0000,
            0 < b.den <= 0x1_0000_0000,
    ;
    assert(-0x1_0000_0000_0000_0000_0000_0000 <= b.num * a.den <= 0x1_0000_0000_0000_0000_0000_0000)
        by (nonlinear_arith)
        requires
            -0x1_0000_0000_0000_0000 <= b.num <= 0x1_0000_0000_0000_0000,
            0 < a.den <= 0x1_0000_0000,
    ;
    a.num * b.den > b.num * a.den
}

/// What a ray does in one slab.
#[derive(Clone, Copy, Debug, PartialEq, Eq, Structural)]
struct Slab {
    enter: Time,
    exit: Time,
    moves: bool,
    missed: bool,
}

/// Whether a slab is what a ray does along an axis.
spec fn slab_is(b: Slab, r: Ray, c: Cell, s: int, k: int) -> bool {
    &&& b.enter.wf()
    &&& b.exit.wf()
    &&& b.moves == (r.way(k) != 0)
    &&& b.missed == slab_missed(r, c, s, k)
    &&& b.moves ==> slab_enter(r, c, s, k) == Some(b.enter.frac()) && slab_exit(r, c, s, k)
        == Some(b.exit.frac())
}

/// Follows a ray through one slab.
fn through_slab(o: i64, d: i32, c: i32, s: u32, Ghost(r): Ghost<Ray>, Ghost(cell): Ghost<Cell>, Ghost(k): Ghost<int>) -> (b: Slab)
    requires
        -MAX_REACH <= o <= MAX_REACH,
        r.start(k) == o,
        r.way(k) == d,
        along_axis(cell, k) == c,
    ensures
        slab_is(b, r, cell, s as int, k),
{
    let (c1, s1): (i128, i128) = (c as i128, s as i128);
    assert(-0x8000_0000 * 0xffff_ffff <= c1 * s1 <= 0x8000_0000 * 0xffff_ffff) by (nonlinear_arith)
        requires
            -0x8000_0000 <= c1 <= 0x8000_0000,
            0 <= s1 <= 0xffff_ffff,
    ;
    assert((c1 + 1) * s1 == c1 * s1 + s1) by (nonlinear_arith);
    let lo: i128 = c1 * s1;
    let hi: i128 = lo + s1;
    let at: i128 = o as i128;
    if d > 0 {
        Slab {
            enter: Time { num: lo - at, den: d as i128 },
            exit: Time { num: hi - at, den: d as i128 },
            moves: true,
            missed: false,
        }
    } else if d < 0 {
        Slab {
            enter: Time { num: at - hi, den: -(d as i128) },
            exit: Time { num: at - lo, den: -(d as i128) },
            moves: true,
            missed: false,
        }
    } else {
        let none: Time = Time { num: 0, den: 1 };
        Slab { enter: none, exit: none, moves: false, missed: at < lo || at > hi }
    }
}

/// Enters a cell: the axis and the time.
fn enter_cell(r: Ray, c: Cell, s: u32) -> (e: Option<(u8, Time)>)
    requires
        r.wf(),
    ensures
        match e {
            Some((a, t)) => entry_axis(r, c, s as int) == Some(a as int) && t.wf() && entry_time(
                r,
                c,
                s as int,
            ) == Some(t.frac()) && a <= 2,
            None => entry_axis(r, c, s as int) is None,
        },
{
    let x: Slab = through_slab(r.ox, r.dx, c.x, s, Ghost(r), Ghost(c), Ghost(0));
    let y: Slab = through_slab(r.oy, r.dy, c.y, s, Ghost(r), Ghost(c), Ghost(1));
    let z: Slab = through_slab(r.oz, r.dz, c.z, s, Ghost(r), Ghost(c), Ghost(2));
    let mut best: u8 = 3;
    let mut near: Time = x.enter;
    if x.moves {
        best = 0;
    }
    if y.moves && (best == 3 || is_later(y.enter, near)) {
        best = 1;
        near = y.enter;
    }
    if z.moves && (best == 3 || is_later(z.enter, near)) {
        best = 2;
        near = z.enter;
    }
    assert(best < 3 ==> last_entered(r, c, s as int) == Some(best as int));
    assert(best == 3 ==> last_entered(r, c, s as int) is None);
    if best == 3 || near.num < 0 || x.missed || y.missed || z.missed {
        return None;
    }
    if (x.moves && is_later(near, x.exit)) || (y.moves && is_later(near, y.exit)) || (z.moves
        && is_later(near, z.exit)) {
        return None;
    }
    Some((best, near))
}

/// The voxel that a ray hits, and the normal of the face.
pub fn raycast_voxels(r: Ray, craft: &VoxelCraft) -> (hit: Option<(Cell, Cell)>)
    requires
        r.wf(),
    ensures
        hit == hit_of(r, craft@.voxels, craft@.cell_size),
{
    let s: u32 = craft.cell_size_um;
    let ghost voxels = craft@.voxels;
    let mut best: Option<(usize, u8, Time)> = None;
    let mut i: usize = 0;
    while i < craft.voxels.len()
        invariant
            r.wf(),
            s == craft.cell_size_um,
            voxels == craft.voxels@,
            i <= voxels.len(),
            match best {
                Some((b, a, t)) => {
                    &&& soonest(r, voxels, s as int, i as int) == Some(b as int)
                    &&& b < i
                    &&& t.wf()
                    &&& a <= 2
                    &&& entry_axis(r, voxels[b as int].cell, s as int) == Some(a as int)
                    &&& entry_time(r, voxels[b as int].cell, s as int) == Some(t.frac())
                },
                None => soonest(r, voxels, s as int, i as int) is None,
            },
        decreases craft.voxels.len() - i,
    {
        if let Some((a, t)) = enter_cell(r, craft.voxels[i].cell, s) {
            let sooner: bool = match best {
                Some((_, _, u)) => is_later(u, t),
                None => true,
            };
            if sooner {
                best = Some((i, a, t));
            }
        }
        i += 1;
    }
    match best {
        None => None,
        Some((b, a, _)) => {
            let way: i32 = if a == 0 {
                r.dx
            } else if a == 1 {
                r.dy
            } else {
                r.dz
            };
            let n: i32 = if way > 0 {
                -1
            } else {
                1
            };
            let normal: Cell = Cell {
                x: if a == 0 {
                    n
                } else {
                    0
                },
                y: if a == 1 {
                    n
                } else {
                    0
                },
                z: if a == 2 {
                    n
                } else {
                    0
                },
            };
            Some((craft.voxels[b].cell, normal))
        },
    }
}

/// Whether a point of the ray is within the slab of a cell along an axis.
pub open spec fn inside(r: Ray, c: Cell, s: int, k: int, t: Frac) -> bool {
    let p = r.start(k) * t.den + r.way(k) * t.num;
    along_axis(c, k) * s * t.den <= p <= (along_axis(c, k) + 1) * s * t.den
}

/// At the time of entry the ray is within the cell: inside or on its faces.
pub proof fn lemma_entry_is_in_the_cell(r: Ray, c: Cell, s: int, k: int)
    requires
        entry_time(r, c, s) is Some,
        s >= 0,
        0 <= k <= 2,
    ensures
        (entry_time(r, c, s)->0).den > 0,
        inside(r, c, s, k, entry_time(r, c, s)->0),
{
    let a = entry_axis(r, c, s)->0;
    let t = entry_time(r, c, s)->0;
    lemma_last_is_last(r, c, s, k);
    let (o, d) = (r.start(k), r.way(k));
    let (lo, hi) = (along_axis(c, k) * s, (along_axis(c, k) + 1) * s);
    let (n, m) = (t.num, t.den);
    assert(!slab_missed(r, c, s, k));
    assert(!left_before(r, c, s, k, t));
    assert(along_axis(c, k) * s * m == lo * m);
    if d > 0 {
        assert((lo - o) * m <= n * d);
        assert(n * d <= (hi - o) * m);
        assert(lo * m <= o * m + d * n <= hi * m) by (nonlinear_arith)
            requires
                (lo - o) * m <= n * d,
                n * d <= (hi - o) * m,
        ;
    } else if d < 0 {
        assert((o - hi) * m <= n * (-d));
        assert(n * (-d) <= (o - lo) * m);
        assert(lo * m <= o * m + d * n <= hi * m) by (nonlinear_arith)
            requires
                (o - hi) * m <= n * (-d),
                n * (-d) <= (o - lo) * m,
        ;
    } else {
        assert(lo * m <= o * m + d * n <= hi * m) by (nonlinear_arith)
            requires
                lo <= o <= hi,
                d == 0,
                m > 0,
        ;
    }
}

/// No axis is entered after the last one.
proof fn lemma_last_is_last(r: Ray, c: Cell, s: int, k: int)
    requires
        entry_axis(r, c, s) is Some,
        0 <= k <= 2,
    ensures
        0 <= entry_axis(r, c, s)->0 <= 2,
        (entry_time(r, c, s)->0).den > 0,
        slab_enter(r, c, s, k) is Some ==> !later(
            slab_enter(r, c, s, k)->0,
            entry_time(r, c, s)->0,
        ),
{
    let e0 = slab_enter(r, c, s, 0);
    let e1 = slab_enter(r, c, s, 1);
    let e2 = slab_enter(r, c, s, 2);
    if e0 is Some && e1 is Some && e2 is Some {
        lemma_later_chains(e0->0, e1->0, e2->0);
        lemma_later_chains(e1->0, e0->0, e2->0);
    }
    if e0 is Some && e1 is Some {
        lemma_later_is_one_way(e0->0, e1->0);
    }
    if e0 is Some && e2 is Some {
        lemma_later_is_one_way(e0->0, e2->0);
    }
    if e1 is Some && e2 is Some {
        lemma_later_is_one_way(e1->0, e2->0);
    }
}

proof fn lemma_later_is_one_way(a: Frac, b: Frac)
    requires
        a.den > 0,
        b.den > 0,
    ensures
        later(a, b) ==> !later(b, a),
{
}

/// What is no later than a time is no later than what is later than that.
proof fn lemma_later_chains(a: Frac, b: Frac, c: Frac)
    requires
        a.den > 0,
        b.den > 0,
        c.den > 0,
    ensures
        !later(a, b) && later(c, b) ==> !later(a, c),
        !later(a, b) && !later(b, c) ==> !later(a, c),
{
    let (p, q, u) = (a.num, b.num, c.num);
    let (x, y, z) = (a.den, b.den, c.den);
    if p * y <= q * x && q * z <= u * y {
        assert(p * z <= u * x) by (nonlinear_arith)
            requires
                p * y <= q * x,
                q * z <= u * y,
                x > 0,
                y > 0,
                z > 0,
        {
            assert((p * y) * z <= (q * x) * z);
            assert((q * z) * x <= (u * y) * x);
            assert((p * z) * y == (p * y) * z);
            assert((q * x) * z == (q * z) * x);
            assert((u * y) * x == (u * x) * y);
            assert((p * z) * y <= (u * x) * y);
        }
    }
}

/// Before the time of entry the ray is outside the cell.
pub proof fn lemma_outside_before_entry(r: Ray, c: Cell, s: int, before: Frac)
    requires
        entry_time(r, c, s) is Some,
        before.den > 0,
        later(entry_time(r, c, s)->0, before),
    ensures
        !inside(r, c, s, entry_axis(r, c, s)->0, before),
{
    let a = entry_axis(r, c, s)->0;
    lemma_last_is_last(r, c, s, 0);
    let (o, d) = (r.start(a), r.way(a));
    let (lo, hi) = (along_axis(c, a) * s, (along_axis(c, a) + 1) * s);
    let (n, m) = (before.num, before.den);
    if d > 0 {
        assert(n * d < (lo - o) * m);
        assert(o * m + d * n < lo * m) by (nonlinear_arith)
            requires
                n * d < (lo - o) * m,
        ;
    } else {
        assert(d < 0);
        assert(n * (-d) < (o - hi) * m);
        assert(o * m + d * n > hi * m) by (nonlinear_arith)
            requires
                n * (-d) < (o - hi) * m,
        ;
    }
}

/// A hit is no farther than any other voxel that the ray enters.
pub proof fn lemma_hit_is_the_nearest(r: Ray, voxels: Seq<Voxel>, s: int, k: int, j: int)
    requires
        0 <= j < k <= voxels.len(),
        entry_time(r, voxels[j].cell, s) is Some,
    ensures
        soonest(r, voxels, s, k) matches Some(b) && 0 <= b < k && entry_time(
            r,
            voxels[b].cell,
            s,
        ) is Some && !later(
            entry_time(r, voxels[b].cell, s)->0,
            entry_time(r, voxels[j].cell, s)->0,
        ),
    decreases k,
{
    lemma_soonest_enters(r, voxels, s, k - 1);
    if j < k - 1 {
        lemma_hit_is_the_nearest(r, voxels, s, k - 1, j);
        let b = soonest(r, voxels, s, k - 1)->0;
        if let Some(t) = entry_time(r, voxels[k - 1].cell, s) {
            lemma_last_is_last(r, voxels[k - 1].cell, s, 0);
            lemma_last_is_last(r, voxels[b].cell, s, 0);
            lemma_last_is_last(r, voxels[j].cell, s, 0);
            let tb = entry_time(r, voxels[b].cell, s)->0;
            let tj = entry_time(r, voxels[j].cell, s)->0;
            lemma_later_is_one_way(tb, t);
            lemma_later_chains(t, tb, tj);
        }
    } else {
        lemma_last_is_last(r, voxels[j].cell, s, 0);
    }
}

proof fn lemma_soonest_enters(r: Ray, voxels: Seq<Voxel>, s: int, k: int)
    requires
        0 <= k <= voxels.len(),
    ensures
        soonest(r, voxels, s, k) matches Some(b) ==> 0 <= b < k && entry_time(
            r,
            voxels[b].cell,
            s,
        ) is Some,
    decreases k,
{
    if k > 0 {
        lemma_soonest_enters(r, voxels, s, k - 1);
    }
}

/// The steepness below which a ray does not reach the ground, in billionths.
pub const LEVEL: i32 = 1_000;

/// Where the ray is, along an axis, when it reaches the ground: a fraction over
/// the steepness.
pub open spec fn ground_at(r: Ray, k: int) -> int {
    let down = if r.dy < 0 {
        -r.dy
    } else {
        r.dy as int
    };
    let height = if r.dy < 0 {
        r.oy as int
    } else {
        -r.oy
    };
    r.start(k) * down + r.way(k) * height
}

/// A coordinate that is a cell's, or the nearest that is.
pub open spec fn as_cell(v: int) -> i32 {
    if v < i32::MIN {
        i32::MIN
    } else if v > i32::MAX {
        i32::MAX
    } else {
        v as i32
    }
}

/// The ground cell under a ray that goes down to it (or up to it from below).
pub open spec fn ground_cell(r: Ray, s: int) -> Option<Cell> {
    let down = if r.dy < 0 {
        -r.dy
    } else {
        r.dy as int
    };
    let height = if r.dy < 0 {
        r.oy as int
    } else {
        -r.oy
    };
    if down > LEVEL && height > 0 {
        Some(
            Cell {
                x: as_cell(ground_at(r, 0) / (down * s)),
                y: 0,
                z: as_cell(ground_at(r, 2) / (down * s)),
            },
        )
    } else {
        None
    }
}

/// The cell of a fraction: its floor, held within a cell's range.
fn floor_cell(n: i128, d: i128) -> (c: i32)
    requires
        d > 0,
        n > i128::MIN,
    ensures
        c == as_cell(n as int / d as int),
{
    if n >= 0 {
        let q: i128 = n / d;
        if q > 0x7fff_ffff {
            i32::MAX
        } else {
            q as i32
        }
    } else {
        let m: i128 = -n;
        let q: i128 = m / d;
        proof {
            vstd::arithmetic::div_mod::lemma_fundamental_div_mod(m as int, d as int);
            vstd::arithmetic::div_mod::lemma_mod_bound(m as int, d as int);
            if m % d == 0 {
                assert(n == -q * d + 0) by (nonlinear_arith)
                    requires
                        m == d * q + 0,
                        n == -m,
                ;
                vstd::arithmetic::div_mod::lemma_fundamental_div_mod_converse(
                    n as int,
                    d as int,
                    -q,
                    0,
                );
            } else {
                assert(n == (-q - 1) * d + (d - m % d)) by (nonlinear_arith)
                    requires
                        m == d * q + m % d,
                        n == -m,
                ;
                vstd::arithmetic::div_mod::lemma_fundamental_div_mod_converse(
                    n as int,
                    d as int,
                    -q - 1,
                    d - m % d,
                );
            }
        }
        let f: i128 = if m % d == 0 {
            -q
        } else {
            -q - 1
        };
        if f < -0x8000_0000 {
            i32::MIN
        } else {
            f as i32
        }
    }
}

/// The ground cell under a ray.
pub fn ground_under(r: Ray, s: u32) -> (c: Option<Cell>)
    requires
        r.wf(),
        s > 0,
    ensures
        c == ground_cell(r, s as int),
{
    let (down, height): (i128, i128) = if r.dy < 0 {
        (-(r.dy as i128), r.oy as i128)
    } else {
        (r.dy as i128, -(r.oy as i128))
    };
    if down <= LEVEL as i128 || height <= 0 {
        return None;
    }
    let (ox, oz): (i128, i128) = (r.ox as i128, r.oz as i128);
    let (dx, dz): (i128, i128) = (r.dx as i128, r.dz as i128);
    assert(-0x1000_0000_0000_0000 * 0x8000_0000 <= ox * down <= 0x1000_0000_0000_0000 * 0x8000_0000
        && -0x1000_0000_0000_0000 * 0x8000_0000 <= oz * down <= 0x1000_0000_0000_0000 * 0x8000_0000)
        by (nonlinear_arith)
        requires
            -0x1000_0000_0000_0000 <= ox <= 0x1000_0000_0000_0000,
            -0x1000_0000_0000_0000 <= oz <= 0x1000_0000_0000_0000,
            0 < down <= 0x8000_0000,
    ;
    assert(-0x1000_0000_0000_0000 * 0x8000_0000 <= dx * height <= 0x1000_0000_0000_0000
        * 0x8000_0000 && -0x1000_0000_0000_0000 * 0x8000_0000 <= dz * height
        <= 0x1000_0000_0000_0000 * 0x8000_0000) by (nonlinear_arith)
        requires
            -0x8000_0000 <= dx <= 0x8000_0000,
            -0x8000_0000 <= dz <= 0x8000_0000,
            0 < height <= 0x1000_0000_0000_0000,
    ;
    let s1: i128 = s as i128;
    assert(0 < down * s1 <= 0x8000_0000 * 0xffff_ffff) by (nonlinear_arith)
        requires
            0 < down <= 0x8000_0000,
            0 < s1 <= 0xffff_ffff,
    ;
    let d: i128 = down * s1;
    Some(
        Cell {
            x: floor_cell(ox * down + dx * height, d),
            y: 0,
            z: floor_cell(oz * down + dz * height, d),
        },
    )
}

/// A cell beside another.
pub open spec fn beside(c: Cell, n: Cell) -> Cell {
    Cell { x: (c.x + n.x) as i32, y: (c.y + n.y) as i32, z: (c.z + n.z) as i32 }
}

/// Whether there is such a cell.
pub open spec fn has_beside(c: Cell, n: Cell) -> bool {
    &&& i32::MIN <= c.x + n.x <= i32::MAX
    &&& i32::MIN <= c.y + n.y <= i32::MAX
    &&& i32::MIN <= c.z + n.z <= i32::MAX
}

/// What a ray hovers over: the face of the voxel that it hits, or else the ground
/// cell under it, so that a first voxel can be placed.
pub open spec fn hovered(ray: Option<Ray>, voxels: Seq<Voxel>, s: int) -> Option<Hovered> {
    match ray {
        None => None,
        Some(r) => match hit_of(r, voxels, s) {
            Some((cell, normal)) => Some(
                Hovered {
                    add_cell: beside(cell, normal),
                    remove_cell: Some(cell),
                    highlight: cell,
                },
            ),
            None => match ground_cell(r, s) {
                Some(cell) => Some(
                    Hovered { add_cell: cell, remove_cell: None, highlight: cell },
                ),
                None => None,
            },
        },
    }
}

/// What the pointer hovers over; without a ray it hovers over nothing.
pub fn update_hover(ray: Option<Ray>, craft: &VoxelCraft) -> (h: Option<Hovered>)
    requires
        ray matches Some(r) ==> {
            &&& r.wf()
            &&& craft.cell_size_um > 0
            &&& hit_of(r, craft@.voxels, craft@.cell_size) matches Some(hit) ==> has_beside(
                hit.0,
                hit.1,
            )
        },
    ensures
        h == hovered(ray, craft@.voxels, craft@.cell_size),
{
    match ray {
        None => None,
        Some(r) => match raycast_voxels(r, craft) {
            Some((cell, normal)) => Some(
                Hovered {
                    add_cell: Cell {
                        x: cell.x + normal.x,
                        y: cell.y + normal.y,
                        z: cell.z + normal.z,
                    },
                    remove_cell: Some(cell),
                    highlight: cell,
                },
            ),
            None => match ground_under(r, craft.cell_size_um) {
                Some(cell) => Some(Hovered { add_cell: cell, remove_cell: None, highlight: cell }),
                None => None,
            },
        },
    }
}

/// Whether a ray, at a time, is within the closed box of a cell.
pub open spec fn within(r: Ray, c: Cell, s: int, t: Frac) -> bool {
    &&& c.x * s * t.den <= r.ox * t.den + r.dx * t.num <= (c.x + 1) * s * t.den
    &&& c.y * s * t.den <= r.oy * t.den + r.dy * t.num <= (c.y + 1) * s * t.den
    &&& c.z * s * t.den <= r.oz * t.den + r.dz * t.num <= (c.z + 1) * s * t.den
}

/// Whether a ray starts outside the closed box of a cell.
pub open spec fn starts_outside(r: Ray, c: Cell, s: int) -> bool {
    ||| r.ox < c.x * s
    ||| r.ox > (c.x + 1) * s
    ||| r.oy < c.y * s
    ||| r.oy > (c.y + 1) * s
    ||| r.oz < c.z * s
    ||| r.oz > (c.z + 1) * s
}

/// Whether a coordinate, at a time, is on the plane that a cell and its neighbour
/// in the direction `n` share; without a direction nothing is asked.
pub open spec fn on_plane(o: int, d: int, c: int, n: int, s: int, t: Frac) -> bool {
    &&& n == 1 ==> o * t.den + d * t.num == (c + 1) * s * t.den
    &&& n == -1 ==> o * t.den + d * t.num == c * s * t.den
}

/// Whether a ray, at a time from its start on, is on the face that a cell shares with
/// its neighbour `n`.
pub open spec fn on_shared_face(r: Ray, c: Cell, n: Cell, s: int, t: Frac) -> bool {
    &&& t.num >= 0
    &&& t.den > 0
    &&& within(r, c, s, t)
    &&& on_plane(r.ox as int, r.dx as int, c.x as int, n.x as int, s, t)
    &&& on_plane(r.oy as int, r.dy as int, c.y as int, n.y as int, s, t)
    &&& on_plane(r.oz as int, r.dz as int, c.z as int, n.z as int, s, t)
}

/// Whether a step is one cell along one axis.
pub open spec fn unit_step(n: Cell) -> bool {
    ||| (n.x == 1 || n.x == -1) && n.y == 0 && n.z == 0
    ||| n.x == 0 && (n.y == 1 || n.y == -1) && n.z == 0
    ||| n.x == 0 && n.y == 0 && (n.z == 1 || n.z == -1)
}

/// A hit is a voxel of the build. Its normal is one step along one axis and points
/// back at where the ray comes from, and the ray comes in through the face that the
/// voxel shares with the cell on that side.
pub proof fn lemma_hit_faces_the_viewer(
    r: Ray,
    voxels: Seq<Voxel>,
    s: int,
    cell: Cell,
    n: Cell,
)
    requires
        s >= 0,
        hit_of(r, voxels, s) == Some((cell, n)),
    ensures
        exists|i: int| 0 <= i < voxels.len() && (#[trigger] voxels[i]).cell == cell,
        unit_step(n),
        n.x * r.dx + n.y * r.dy + n.z * r.dz < 0,
        exists|t: Frac| #[trigger] on_shared_face(r, cell, n, s, t),
{
    lemma_soonest_enters(r, voxels, s, voxels.len() as int);
    lemma_entry_is_on_the_face(r, cell, s);
}

/// At the time of entry the ray is on the face that it enters through.
proof fn lemma_entry_is_on_the_face(r: Ray, c: Cell, s: int)
    requires
        entry_time(r, c, s) is Some,
        s >= 0,
    ensures
        ({
            let n = face_normal(r, entry_axis(r, c, s)->0);
            &&& unit_step(n)
            &&& n.x * r.dx + n.y * r.dy + n.z * r.dz < 0
            &&& on_shared_face(r, c, n, s, entry_time(r, c, s)->0)
        }),
{
    let a = entry_axis(r, c, s)->0;
    let t = entry_time(r, c, s)->0;
    let n = face_normal(r, a);
    lemma_last_is_last(r, c, s, 0);
    lemma_entry_is_in_the_cell(r, c, s, 0);
    lemma_entry_is_in_the_cell(r, c, s, 1);
    lemma_entry_is_in_the_cell(r, c, s, 2);
    let (o, d) = (r.start(a), r.way(a));
    let (lo, hi) = (along_axis(c, a) * s, (along_axis(c, a) + 1) * s);
    if d > 0 {
        assert(o * d + d * (lo - o) == lo * d) by (nonlinear_arith);
        assert(o * t.den + d * t.num == lo * t.den);
    } else {
        assert(d < 0);
        assert(o * (-d) + d * (o - hi) == hi * (-d)) by (nonlinear_arith);
        assert(o * t.den + d * t.num == hi * t.den);
    }
    assert(n.x * r.dx == (if a == 0 { if d > 0 { -d } else { d } } else { 0 })) by (nonlinear_arith)
        requires
            n.x == (if a == 0 { if d > 0 { -1int } else { 1 } } else { 0 }),
            a == 0 ==> r.dx == d,
    ;
    assert(n.y * r.dy == (if a == 1 { if d > 0 { -d } else { d } } else { 0 })) by (nonlinear_arith)
        requires
            n.y == (if a == 1 { if d > 0 { -1int } else { 1 } } else { 0 }),
            a == 1 ==> r.dy == d,
    ;
    assert(n.z * r.dz == (if a == 2 { if d > 0 { -d } else { d } } else { 0 })) by (nonlinear_arith)
        requires
            n.z == (if a == 2 { if d > 0 { -1int } else { 1 } } else { 0 }),
            a == 2 ==> r.dz == d,
    ;
}

/// Nothing is in front of a hit: where a ray that starts outside a voxel comes into
/// it, there is a hit, and the ray is at the hit's face no later than that.
pub proof fn lemma_nothing_is_in_front_of_a_hit(
    r: Ray,
    voxels: Seq<Voxel>,
    s: int,
    j: int,
    u: Frac,
)
    requires
        s >= 0,
        0 <= j < voxels.len(),
        starts_outside(r, voxels[j].cell, s),
        u.num >= 0,
        u.den > 0,
        within(r, voxels[j].cell, s, u),
    ensures
        hit_of(r, voxels, s) is Some,
        exists|t: Frac| #[trigger]
            on_shared_face(r, (hit_of(r, voxels, s)->0).0, (hit_of(r, voxels, s)->0).1, s, t) && t.num
                * u.den <= u.num * t.den,
{
    lemma_coming_in_is_an_entry(r, voxels[j].cell, s, u);
    lemma_hit_is_the_nearest(r, voxels, s, voxels.len() as int, j);
    let b = soonest(r, voxels, s, voxels.len() as int)->0;
    let cell = voxels[b].cell;
    lemma_entry_is_on_the_face(r, cell, s);
    lemma_last_is_last(r, voxels[j].cell, s, 0);
    let t = entry_time(r, cell, s)->0;
    let e = entry_time(r, voxels[j].cell, s)->0;
    lemma_later_chains(t, e, u);
    let n = face_normal(r, entry_axis(r, cell, s)->0);
    assert(hit_of(r, voxels, s) == Some((cell, n)));
    assert(on_shared_face(r, cell, n, s, t));
    assert(t.num * u.den <= u.num * t.den);
    let hit = hit_of(r, voxels, s)->0;
    assert(on_shared_face(r, hit.0, hit.1, s, t) && t.num * u.den <= u.num * t.den);
}

/// What a ray within a cell at a time does along one axis until then.
proof fn lemma_slab_until(r: Ray, c: Cell, s: int, k: int, u: Frac)
    requires
        0 <= k <= 2,
        u.den > 0,
        u.num >= 0,
        inside(r, c, s, k, u),
    ensures
        !slab_missed(r, c, s, k),
        r.way(k) != 0 ==> slab_enter(r, c, s, k) is Some && slab_exit(r, c, s, k) is Some && !later(
            slab_enter(r, c, s, k)->0,
            u,
        ) && !later(u, slab_exit(r, c, s, k)->0) && slab_enter(r, c, s, k)->0.den > 0 && slab_exit(
            r,
            c,
            s,
            k,
        )->0.den > 0,
        !(along_axis(c, k) * s <= r.start(k) <= (along_axis(c, k) + 1) * s) ==> r.way(k) != 0
            && slab_enter(r, c, s, k)->0.num > 0,
{
    let (o, d) = (r.start(k), r.way(k));
    let (lo, hi) = (along_axis(c, k) * s, (along_axis(c, k) + 1) * s);
    let (n, m) = (u.num, u.den);
    assert(lo * m <= o * m + d * n <= hi * m);
    if d == 0 {
        assert(lo <= o <= hi) by (nonlinear_arith)
            requires
                lo * m <= o * m + d * n,
                o * m + d * n <= hi * m,
                d == 0,
                m > 0,
        ;
    } else if d > 0 {
        assert((lo - o) * m <= n * d && n * d <= (hi - o) * m) by (nonlinear_arith)
            requires
                lo * m <= o * m + d * n,
                o * m + d * n <= hi * m,
        ;
        assert(o <= hi) by (nonlinear_arith)
            requires
                o * m + d * n <= hi * m,
                d > 0,
                n >= 0,
                m > 0,
        ;
    } else {
        assert((o - hi) * m <= n * (-d) && n * (-d) <= (o - lo) * m) by (nonlinear_arith)
            requires
                lo * m <= o * m + d * n,
                o * m + d * n <= hi * m,
        ;
        assert(lo <= o) by (nonlinear_arith)
            requires
                lo * m <= o * m + d * n,
                d < 0,
                n >= 0,
                m > 0,
        ;
    }
}

/// A ray that starts outside a cell and comes into it enters it by then.
proof fn lemma_coming_in_is_an_entry(r: Ray, c: Cell, s: int, u: Frac)
    requires
        starts_outside(r, c, s),
        u.num >= 0,
        u.den > 0,
        within(r, c, s, u),
    ensures
        entry_time(r, c, s) is Some,
        !later(entry_time(r, c, s)->0, u),
{
    assert(inside(r, c, s, 0, u) && inside(r, c, s, 1, u) && inside(r, c, s, 2, u));
    lemma_slab_until(r, c, s, 0, u);
    lemma_slab_until(r, c, s, 1, u);
    lemma_slab_until(r, c, s, 2, u);
    let e0 = slab_enter(r, c, s, 0);
    let e1 = slab_enter(r, c, s, 1);
    let e2 = slab_enter(r, c, s, 2);
    if e0 is Some && e1 is Some && e2 is Some {
        lemma_later_chains(e0->0, e1->0, e2->0);
        lemma_later_chains(e1->0, e0->0, e2->0);
    }
    let q: int = if !(c.x * s <= r.ox <= (c.x + 1) * s) {
        0
    } else if !(c.y * s <= r.oy <= (c.y + 1) * s) {
        1
    } else {
        2
    };
    let a = last_entered(r, c, s)->0;
    let t = slab_enter(r, c, s, a)->0;
    let e = slab_enter(r, c, s, q)->0;
    assert(!later(e, t));
    assert(t.num > 0) by (nonlinear_arith)
        requires
            e.num * t.den <= t.num * e.den,
            e.num > 0,
            e.den > 0,
            t.den > 0,
    ;
    if r.way(0) != 0 {
        lemma_later_chains(t, u, slab_exit(r, c, s, 0)->0);
    }
    if r.way(1) != 0 {
        lemma_later_chains(t, u, slab_exit(r, c, s, 1)->0);
    }
    if r.way(2) != 0 {
        lemma_later_chains(t, u, slab_exit(r, c, s, 2)->0);
    }
}

/// A ray that goes down from above, or up from below, more steeply than the least
/// steepness has a ground cell, and no other has. The ray meets the ground over that
/// cell, unless the cell is at the end of the lattice.
pub proof fn lemma_ground_cell_is_where_the_ray_lands(r: Ray, s: int)
    requires
        s > 0,
    ensures
        ground_cell(r, s) is Some <==> (r.oy > 0 && r.dy < -1_000) || (r.oy < 0 && r.dy > 1_000),
        ground_cell(r, s) matches Some(c) ==> {
            let (den, num) = if r.dy < 0 {
                (-r.dy as int, r.oy as int)
            } else {
                (r.dy as int, -r.oy as int)
            };
            &&& den > 0 && num > 0 && r.oy * den + r.dy * num == 0
            &&& c.y == 0
            &&& i32::MIN < c.x < i32::MAX ==> c.x * s * den <= r.ox * den + r.dx * num < (c.x + 1)
                * s * den
            &&& i32::MIN < c.z < i32::MAX ==> c.z * s * den <= r.oz * den + r.dz * num < (c.z + 1)
                * s * den
        },
{
    if let Some(c) = ground_cell(r, s) {
        let (den, num) = if r.dy < 0 {
            (-r.dy as int, r.oy as int)
        } else {
            (r.dy as int, -r.oy as int)
        };
        assert(r.oy * den + r.dy * num == 0) by (nonlinear_arith)
            requires
                (den == -r.dy && num == r.oy) || (den == r.dy && num == -r.oy),
        ;
        let d = den * s;
        assert(d > 0) by (nonlinear_arith)
            requires
                d == den * s,
                den > 0,
                s > 0,
        ;
        lemma_floor_is_below(ground_at(r, 0), d);
        lemma_floor_is_below(ground_at(r, 2), d);
        let (qx, qz) = (ground_at(r, 0) / d, ground_at(r, 2) / d);
        assert(c.x * s * den == c.x * d && (c.x + 1) * s * den == (c.x + 1) * d) by (nonlinear_arith)
            requires
                d == den * s,
        ;
        assert(c.z * s * den == c.z * d && (c.z + 1) * s * den == (c.z + 1) * d) by (nonlinear_arith)
            requires
                d == den * s,
        ;
        assert(i32::MIN < c.x < i32::MAX ==> c.x == qx);
        assert(i32::MIN < c.z < i32::MAX ==> c.z == qz);
    }
}

proof fn lemma_floor_is_below(n: int, d: int)
    requires
        d > 0,
    ensures
        (n / d) * d <= n < (n / d + 1) * d,
{
    vstd::arithmetic::div_mod::lemma_fundamental_div_mod(n, d);
    assert((n / d) * d == d * (n / d) && (n / d + 1) * d == d * (n / d) + d) by (nonlinear_arith);
}

/// Over a build the pointer adds on the near side of the voxel that it hits, one cell
/// towards the viewer, and removes that voxel; over bare ground it adds on the ground
/// and removes nothing. It hovers over nothing exactly when it is off the view or
/// meets neither.
pub proof fn lemma_hover_builds_towards_the_viewer(ray: Option<Ray>, voxels: Seq<Voxel>, s: int)
    requires
        s > 0,
        ray matches Some(r) ==> hit_of(r, voxels, s) matches Some(hit) ==> has_beside(
            hit.0,
            hit.1,
        ),
    ensures
        ray is None ==> hovered(ray, voxels, s) is None,
        ray matches Some(r) ==> match hovered(ray, voxels, s) {
            Some(h) => match h.remove_cell {
                Some(cell) => {
                    &&& h.highlight == cell
                    &&& exists|i: int| 0 <= i < voxels.len() && (#[trigger] voxels[i]).cell == cell
                    &&& ({
                        let (x, y, z) = (
                            h.add_cell.x - cell.x,
                            h.add_cell.y - cell.y,
                            h.add_cell.z - cell.z,
                        );
                        &&& x * x + y * y + z * z == 1
                        &&& x * r.dx + y * r.dy + z * r.dz < 0
                    })
                },
                None => {
                    &&& h.highlight == h.add_cell
                    &&& h.add_cell.y == 0
                    &&& hit_of(r, voxels, s) is None
                    &&& ground_cell(r, s) == Some(h.add_cell)
                },
            },
            None => hit_of(r, voxels, s) is None && ground_cell(r, s) is None,
        },
{
    if let Some(r) = ray {
        if let Some((cell, n)) = hit_of(r, voxels, s) {
            lemma_hit_faces_the_viewer(r, voxels, s, cell, n);
            let (x, y, z) = (n.x as int, n.y as int, n.z as int);
            assert(x * x + y * y + z * z == 1) by (nonlinear_arith)
                requires
                    ((x == 1 || x == -1) && y == 0 && z == 0) || (x == 0 && (y == 1 || y == -1) && z
                        == 0) || (x == 0 && y == 0 && (z == 1 || z == -1)),
            ;
        }
    }
}

} // verus!
