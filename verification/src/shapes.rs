//! The scenes' own craft: boxes of cells, laid out in loops and cut by a rule,
//! and the four-wheeled buggy.

use crate::voxel::AttachmentPoint;
use crate::voxel::Cell;
use crate::voxel::CraftSpec;
use crate::voxel::Device;
use crate::voxel::Material;
use crate::voxel::Mount;
use crate::voxel::Part;
use crate::voxel::PartKind;
use crate::voxel::RimSpec;
use crate::voxel::SuspensionSpec;
use crate::voxel::TireSpec;
use crate::voxel::Voxel;
use crate::voxel::VoxelCraft;
use vstd::prelude::*;

verus! {

/// One metre, in micrometres.
pub const METRE_UM: u32 = 1_000_000;

/// Half a metre, in micrometres.
pub const HALF_METRE_UM: u32 = 500_000;

/// The order in which a box is walked, from the slowest axis to the fastest.
#[derive(Clone, Copy, Debug, PartialEq, Eq, Structural)]
pub enum Walk {
    XYZ,
    XZY,
    ZXY,
}

/// Which cells of a box are kept.
#[derive(Clone, Copy, Debug, PartialEq, Eq, Structural)]
pub enum Cut {
    /// All of them.
    Solid,
    /// The outermost layer.
    Shell,
    /// The outermost layer and a wall across the box.
    Walled { x: i32 },
    /// The outermost layer and a wall across the box with a gap in it.
    Gapped { x: i32, gap: Cell },
    /// A taper: the layer at `x` is a square of that many cells a side.
    Tapered,
}

/// A box of cells with one corner at the origin.
#[derive(Clone, Copy, Debug, PartialEq, Eq, Structural)]
pub struct Extent {
    pub nx: i32,
    pub ny: i32,
    pub nz: i32,
}

/// The width of the taper's layer: it grows by one to the middle and falls off
/// again.
pub open spec fn taper_width(x: int) -> int {
    if x <= 3 {
        x + 1
    } else {
        7 - x
    }
}

/// Whether a cell is in the outermost layer of a box.
pub open spec fn on_shell(c: Cell, e: Extent) -> bool {
    c.x == 0 || c.x == e.nx - 1 || c.y == 0 || c.y == e.ny - 1 || c.z == 0 || c.z == e.nz - 1
}

/// Whether a cell of a box is kept.
pub open spec fn kept(c: Cell, e: Extent, cut: Cut) -> bool {
    match cut {
        Cut::Solid => true,
        Cut::Shell => on_shell(c, e),
        Cut::Walled { x } => on_shell(c, e) || c.x == x,
        Cut::Gapped { x, gap } => on_shell(c, e) || (c.x == x && c != gap),
        Cut::Tapered => c.y < taper_width(c.x as int) && c.z < taper_width(c.x as int),
    }
}

/// Whether a cell lies in a box.
pub open spec fn in_box(c: Cell, e: Extent) -> bool {
    0 <= c.x < e.nx && 0 <= c.y < e.ny && 0 <= c.z < e.nz
}

/// The cell that the walk's counters stand for.
pub open spec fn cell_at(walk: Walk, a: int, b: int, c: int) -> Cell {
    match walk {
        Walk::XYZ => Cell { x: a as i32, y: b as i32, z: c as i32 },
        Walk::XZY => Cell { x: a as i32, y: c as i32, z: b as i32 },
        Walk::ZXY => Cell { x: b as i32, y: c as i32, z: a as i32 },
    }
}

/// How far each counter of a walk goes.
pub open spec fn counts(walk: Walk, e: Extent) -> (int, int, int) {
    match walk {
        Walk::XYZ => (e.nx as int, e.ny as int, e.nz as int),
        Walk::XZY => (e.nx as int, e.nz as int, e.ny as int),
        Walk::ZXY => (e.nz as int, e.nx as int, e.ny as int),
    }
}

/// A place in the walk of a box: the box, its walk, its cut and its material.
#[derive(Clone, Copy, Debug, PartialEq, Eq, Structural)]
pub struct Plan {
    pub extent: Extent,
    pub walk: Walk,
    pub cut: Cut,
    pub material: Material,
}

/// What a plan puts into one cell.
pub open spec fn put(p: Plan, c: Cell) -> Seq<Voxel> {
    if kept(c, p.extent, p.cut) {
        seq![Voxel { cell: c, material: p.material }]
    } else {
        Seq::empty()
    }
}

/// The first `c` cells of a run.
pub open spec fn run(p: Plan, a: int, b: int, c: int) -> Seq<Voxel>
    decreases c,
{
    if c <= 0 {
        Seq::empty()
    } else {
        run(p, a, b, c - 1) + put(p, cell_at(p.walk, a, b, c - 1))
    }
}

/// The first `b` runs of a layer.
pub open spec fn layer(p: Plan, a: int, b: int) -> Seq<Voxel>
    decreases b,
{
    if b <= 0 {
        Seq::empty()
    } else {
        layer(p, a, b - 1) + run(p, a, b - 1, counts(p.walk, p.extent).2)
    }
}

/// The first `a` layers of a box.
pub open spec fn layers(p: Plan, a: int) -> Seq<Voxel>
    decreases a,
{
    if a <= 0 {
        Seq::empty()
    } else {
        layers(p, a - 1) + layer(p, a - 1, counts(p.walk, p.extent).1)
    }
}

/// The voxels of a plan, in the order of its walk.
pub open spec fn built(p: Plan) -> Seq<Voxel> {
    layers(p, counts(p.walk, p.extent).0)
}

/// Whether a cell is kept.
fn is_kept(c: Cell, e: Extent, cut: Cut) -> (b: bool)
    requires
        in_box(c, e),
    ensures
        b == kept(c, e, cut),
{
    let shell: bool = c.x == 0 || c.x == e.nx - 1 || c.y == 0 || c.y == e.ny - 1 || c.z == 0 || c.z
        == e.nz - 1;
    match cut {
        Cut::Solid => true,
        Cut::Shell => shell,
        Cut::Walled { x } => shell || c.x == x,
        Cut::Gapped { x, gap } => shell || (c.x == x && c != gap),
        Cut::Tapered => {
            let w: i32 = if c.x <= 3 {
                c.x + 1
            } else {
                7 - c.x
            };
            c.y < w && c.z < w
        },
    }
}

/// The cell that the walk's counters stand for.
fn cell_of(walk: Walk, a: i32, b: i32, c: i32) -> (r: Cell)
    ensures
        r == cell_at(walk, a as int, b as int, c as int),
{
    match walk {
        Walk::XYZ => Cell { x: a, y: b, z: c },
        Walk::XZY => Cell { x: a, y: c, z: b },
        Walk::ZXY => Cell { x: b, y: c, z: a },
    }
}

/// Builds a plan's voxels, in the order of its walk: none where a side is negative.
pub fn build(p: Plan) -> (v: Vec<Voxel>)
    ensures
        v@ == built(p),
{
    let (na, nb, nc): (i32, i32, i32) = match p.walk {
        Walk::XYZ => (p.extent.nx, p.extent.ny, p.extent.nz),
        Walk::XZY => (p.extent.nx, p.extent.nz, p.extent.ny),
        Walk::ZXY => (p.extent.nz, p.extent.nx, p.extent.ny),
    };
    let mut out: Vec<Voxel> = Vec::new();
    let mut a: i32 = 0;
    while a < na
        invariant
            0 <= a,
            a <= na || a == 0,
            counts(p.walk, p.extent) == (na as int, nb as int, nc as int),
            out@ == layers(p, a as int),
        decreases na - a,
    {
        let ghost before = out@;
        let mut b: i32 = 0;
        assert(out@ =~= before + layer(p, a as int, 0));
        while b < nb
            invariant
                0 <= a < na,
                0 <= b,
                b <= nb || b == 0,
                counts(p.walk, p.extent) == (na as int, nb as int, nc as int),
                out@ == before + layer(p, a as int, b as int),
            decreases nb - b,
        {
            let ghost middle = out@;
            let mut c: i32 = 0;
            assert(out@ =~= middle + run(p, a as int, b as int, 0));
            while c < nc
                invariant
                    0 <= a < na,
                    0 <= b < nb,
                    0 <= c,
                    c <= nc || c == 0,
                    counts(p.walk, p.extent) == (na as int, nb as int, nc as int),
                    out@ == middle + run(p, a as int, b as int, c as int),
                decreases nc - c,
            {
                let cell: Cell = cell_of(p.walk, a, b, c);
                if is_kept(cell, p.extent, p.cut) {
                    out.push(Voxel { cell, material: p.material });
                }
                c += 1;
                assert(out@ =~= middle + run(p, a as int, b as int, c as int));
            }
            assert(run(p, a as int, b as int, c as int) == run(p, a as int, b as int, nc as int));
            b += 1;
            assert(out@ =~= before + layer(p, a as int, b as int));
        }
        assert(layer(p, a as int, b as int) == layer(p, a as int, nb as int));
        a += 1;
    }
    out
}

/// Whether a voxel is in a list.
pub open spec fn has_cell(s: Seq<Voxel>, c: Cell) -> bool {
    exists|i: int| 0 <= i < s.len() && (#[trigger] s[i]).cell == c
}

proof fn lemma_has_cell_in_sum(s: Seq<Voxel>, t: Seq<Voxel>, c: Cell)
    ensures
        has_cell(s + t, c) == (has_cell(s, c) || has_cell(t, c)),
{
    if has_cell(s, c) {
        let i = choose|i: int| 0 <= i < s.len() && (#[trigger] s[i]).cell == c;
        assert((s + t)[i].cell == c);
    }
    if has_cell(t, c) {
        let i = choose|i: int| 0 <= i < t.len() && (#[trigger] t[i]).cell == c;
        assert((s + t)[s.len() + i].cell == c);
    }
    if has_cell(s + t, c) {
        let i = choose|i: int| 0 <= i < (s + t).len() && (#[trigger] (s + t)[i]).cell == c;
        if i < s.len() {
            assert(s[i].cell == c);
        } else {
            assert(t[i - s.len()].cell == c);
        }
    }
}

/// The counters that a cell stands for.
spec fn counters(walk: Walk, c: Cell) -> (int, int, int) {
    match walk {
        Walk::XYZ => (c.x as int, c.y as int, c.z as int),
        Walk::XZY => (c.x as int, c.z as int, c.y as int),
        Walk::ZXY => (c.z as int, c.x as int, c.y as int),
    }
}

proof fn lemma_run_holds(p: Plan, a: int, b: int, n: int, c: Cell)
    requires
        0 <= a <= i32::MAX,
        0 <= b <= i32::MAX,
        n <= i32::MAX,
    ensures
        has_cell(run(p, a, b, n), c) == (kept(c, p.extent, p.cut) && counters(p.walk, c).0 == a
            && counters(p.walk, c).1 == b && 0 <= counters(p.walk, c).2 < n),
    decreases n,
{
    if n > 0 {
        lemma_run_holds(p, a, b, n - 1, c);
        let d = cell_at(p.walk, a, b, n - 1);
        lemma_has_cell_in_sum(run(p, a, b, n - 1), put(p, d), c);
        if kept(d, p.extent, p.cut) && d == c {
            assert(put(p, d)[0].cell == c);
        }
        assert(has_cell(put(p, d), c) == (kept(d, p.extent, p.cut) && d == c));
    }
}

proof fn lemma_layer_holds(p: Plan, a: int, n: int, c: Cell)
    requires
        0 <= a <= i32::MAX,
        n <= i32::MAX,
    ensures
        has_cell(layer(p, a, n), c) == (kept(c, p.extent, p.cut) && counters(p.walk, c).0 == a && 0
            <= counters(p.walk, c).1 < n && 0 <= counters(p.walk, c).2 < counts(
            p.walk,
            p.extent,
        ).2),
    decreases n,
{
    if n > 0 {
        let m = counts(p.walk, p.extent).2;
        lemma_layer_holds(p, a, n - 1, c);
        lemma_run_holds(p, a, n - 1, m, c);
        lemma_has_cell_in_sum(layer(p, a, n - 1), run(p, a, n - 1, m), c);
    }
}

proof fn lemma_layers_hold(p: Plan, n: int, c: Cell)
    requires
        n <= i32::MAX,
    ensures
        has_cell(layers(p, n), c) == (kept(c, p.extent, p.cut) && 0 <= counters(p.walk, c).0 < n
            && 0 <= counters(p.walk, c).1 < counts(p.walk, p.extent).1 && 0 <= counters(
            p.walk,
            c,
        ).2 < counts(p.walk, p.extent).2),
    decreases n,
{
    if n > 0 {
        let m = counts(p.walk, p.extent).1;
        lemma_layers_hold(p, n - 1, c);
        lemma_layer_holds(p, n - 1, m, c);
        lemma_has_cell_in_sum(layers(p, n - 1), layer(p, n - 1, m), c);
    }
}

/// A plan builds exactly the kept cells of its box, whatever its walk.
pub proof fn lemma_built_cells_are_the_kept_ones(p: Plan, c: Cell)
    ensures
        has_cell(built(p), c) == (in_box(c, p.extent) && kept(c, p.extent, p.cut)),
{
    lemma_layers_hold(p, counts(p.walk, p.extent).0, c);
}

/// Whether no two voxels share a cell.
pub open spec fn cells_once(s: Seq<Voxel>) -> bool {
    forall|i: int, j: int|
        0 <= i < j < s.len() ==> (#[trigger] s[i]).cell != (#[trigger] s[j]).cell
}

proof fn lemma_once_in_sum(s: Seq<Voxel>, t: Seq<Voxel>)
    requires
        cells_once(s),
        cells_once(t),
        forall|c: Cell| has_cell(s, c) ==> !(#[trigger] has_cell(t, c)),
    ensures
        cells_once(s + t),
{
    let u = s + t;
    assert forall|i: int, j: int| 0 <= i < j < u.len() implies (#[trigger] u[i]).cell != (
    #[trigger] u[j]).cell by {
        if j < s.len() {
            assert(u[i] == s[i] && u[j] == s[j]);
        } else if i >= s.len() {
            assert(u[i] == t[i - s.len()] && u[j] == t[j - s.len()]);
        } else {
            assert(u[i] == s[i] && u[j] == t[j - s.len()]);
            assert(has_cell(s, u[i].cell));
            assert(t[j - s.len()].cell == u[j].cell);
            assert(has_cell(t, u[j].cell));
        }
    }
}

proof fn lemma_run_once(p: Plan, a: int, b: int, n: int)
    requires
        0 <= a <= i32::MAX,
        0 <= b <= i32::MAX,
        n <= i32::MAX,
    ensures
        cells_once(run(p, a, b, n)),
    decreases n,
{
    if n > 0 {
        let d = cell_at(p.walk, a, b, n - 1);
        lemma_run_once(p, a, b, n - 1);
        assert forall|c: Cell| has_cell(run(p, a, b, n - 1), c) implies !(#[trigger] has_cell(
            put(p, d),
            c,
        )) by {
            lemma_run_holds(p, a, b, n - 1, c);
        }
        lemma_once_in_sum(run(p, a, b, n - 1), put(p, d));
    }
}

proof fn lemma_layer_once(p: Plan, a: int, n: int)
    requires
        0 <= a <= i32::MAX,
        n <= i32::MAX,
    ensures
        cells_once(layer(p, a, n)),
    decreases n,
{
    if n > 0 {
        let m = counts(p.walk, p.extent).2;
        lemma_layer_once(p, a, n - 1);
        lemma_run_once(p, a, n - 1, m);
        assert forall|c: Cell| has_cell(layer(p, a, n - 1), c) implies !(#[trigger] has_cell(
            run(p, a, n - 1, m),
            c,
        )) by {
            lemma_layer_holds(p, a, n - 1, c);
            lemma_run_holds(p, a, n - 1, m, c);
        }
        lemma_once_in_sum(layer(p, a, n - 1), run(p, a, n - 1, m));
    }
}

proof fn lemma_layers_once(p: Plan, n: int)
    requires
        n <= i32::MAX,
    ensures
        cells_once(layers(p, n)),
    decreases n,
{
    if n > 0 {
        let m = counts(p.walk, p.extent).1;
        lemma_layers_once(p, n - 1);
        lemma_layer_once(p, n - 1, m);
        assert forall|c: Cell| has_cell(layers(p, n - 1), c) implies !(#[trigger] has_cell(
            layer(p, n - 1, m),
            c,
        )) by {
            lemma_layers_hold(p, n - 1, c);
            lemma_layer_holds(p, n - 1, m, c);
        }
        lemma_once_in_sum(layers(p, n - 1), layer(p, n - 1, m));
    }
}

/// A plan fills no cell twice.
pub proof fn lemma_no_cell_is_filled_twice(p: Plan)
    ensures
        cells_once(built(p)),
{
    lemma_layers_once(p, counts(p.walk, p.extent).0);
}

/// A craft that is nothing but voxels.
pub open spec fn plain(cell_size: int, voxels: Seq<Voxel>) -> CraftSpec {
    CraftSpec {
        cell_size,
        voxels,
        devices: Seq::empty(),
        parts: Seq::empty(),
        attachments: Seq::empty(),
    }
}

/// A craft that is nothing but a plan's voxels.
fn craft_of(cell_size_um: u32, p: Plan) -> (c: VoxelCraft)
    ensures
        c@ == plain(cell_size_um as int, built(p)),
{
    let mut c: VoxelCraft = VoxelCraft::new(cell_size_um);
    c.voxels = build(p);
    c
}

/// A solid cube of `n` cells a side.
pub open spec fn cube_plan(n: i32, material: Material) -> Plan {
    Plan {
        extent: Extent { nx: n, ny: n, nz: n },
        walk: Walk::XYZ,
        cut: Cut::Solid,
        material,
    }
}

/// A solid cube of `n` cells of one metre a side.
pub fn cube_craft(n: i32, material: Material) -> (c: VoxelCraft)
    ensures
        c@ == plain(METRE_UM as int, built(cube_plan(n, material))),
{
    craft_of(
        METRE_UM,
        Plan {
            extent: Extent { nx: n, ny: n, nz: n },
            walk: Walk::XYZ,
            cut: Cut::Solid,
            material,
        },
    )
}

/// A bar of `n` cells along the first axis.
pub open spec fn bar_plan(n: i32, material: Material) -> Plan {
    Plan {
        extent: Extent { nx: n, ny: 1, nz: 1 },
        walk: Walk::XYZ,
        cut: Cut::Solid,
        material,
    }
}

/// A bar of `n` cells of one metre.
pub fn bar_craft(n: i32, material: Material) -> (c: VoxelCraft)
    ensures
        c@ == plain(METRE_UM as int, built(bar_plan(n, material))),
{
    craft_of(
        METRE_UM,
        Plan {
            extent: Extent { nx: n, ny: 1, nz: 1 },
            walk: Walk::XYZ,
            cut: Cut::Solid,
            material,
        },
    )
}

/// The slim rocket: a stack of five composite cells.
pub open spec fn column_plan() -> Plan {
    Plan {
        extent: Extent { nx: 1, ny: 5, nz: 1 },
        walk: Walk::XYZ,
        cut: Cut::Solid,
        material: Material::Composite,
    }
}

/// The slim rocket.
pub fn column_craft() -> (c: VoxelCraft)
    ensures
        c@ == plain(METRE_UM as int, built(column_plan())),
{
    craft_of(
        METRE_UM,
        Plan {
            extent: Extent { nx: 1, ny: 5, nz: 1 },
            walk: Walk::XYZ,
            cut: Cut::Solid,
            material: Material::Composite,
        },
    )
}

/// The chunky hull: two by five by two composite cells, column by column.
pub open spec fn hull_plan() -> Plan {
    Plan {
        extent: Extent { nx: 2, ny: 5, nz: 2 },
        walk: Walk::XZY,
        cut: Cut::Solid,
        material: Material::Composite,
    }
}

/// The chunky hull.
pub fn hull_craft() -> (c: VoxelCraft)
    ensures
        c@ == plain(METRE_UM as int, built(hull_plan())),
{
    craft_of(
        METRE_UM,
        Plan {
            extent: Extent { nx: 2, ny: 5, nz: 2 },
            walk: Walk::XZY,
            cut: Cut::Solid,
            material: Material::Composite,
        },
    )
}

/// The tapered sample: seven layers that widen to four cells and narrow again.
pub open spec fn taper_plan() -> Plan {
    Plan {
        extent: Extent { nx: 7, ny: 4, nz: 4 },
        walk: Walk::XYZ,
        cut: Cut::Tapered,
        material: Material::Aluminium,
    }
}

/// The tapered sample.
pub fn taper_craft() -> (c: VoxelCraft)
    ensures
        c@ == plain(METRE_UM as int, built(taper_plan())),
{
    craft_of(
        METRE_UM,
        Plan {
            extent: Extent { nx: 7, ny: 4, nz: 4 },
            walk: Walk::XYZ,
            cut: Cut::Tapered,
            material: Material::Aluminium,
        },
    )
}

/// The deck of a rover: three by one by five composite cells.
pub open spec fn deck_plan() -> Plan {
    Plan {
        extent: Extent { nx: 3, ny: 1, nz: 5 },
        walk: Walk::XYZ,
        cut: Cut::Solid,
        material: Material::Composite,
    }
}

/// The deck of a rover.
pub fn deck_craft(cell_size_um: u32) -> (c: VoxelCraft)
    ensures
        c@ == plain(cell_size_um as int, built(deck_plan())),
{
    craft_of(
        cell_size_um,
        Plan {
            extent: Extent { nx: 3, ny: 1, nz: 5 },
            walk: Walk::XYZ,
            cut: Cut::Solid,
            material: Material::Composite,
        },
    )
}

/// The hatch: the gap in the wall between the two rooms.
pub open spec fn hatch() -> Cell {
    Cell { x: 3, y: 2, z: 2 }
}

/// The cell whose removal breaches the far room's hull.
pub open spec fn breach() -> Cell {
    Cell { x: 6, y: 2, z: 2 }
}

/// The hatch.
pub fn hatch_cell() -> (c: Cell)
    ensures
        c == hatch(),
{
    Cell { x: 3, y: 2, z: 2 }
}

/// The cell whose removal breaches the far room's hull.
pub fn breach_cell() -> (c: Cell)
    ensures
        c == breach(),
{
    Cell { x: 6, y: 2, z: 2 }
}

/// Two rooms in a shell of seven by five by five cells, with a hatch between
/// them.
pub open spec fn hatch_plan() -> Plan {
    Plan {
        extent: Extent { nx: 7, ny: 5, nz: 5 },
        walk: Walk::XYZ,
        cut: Cut::Gapped { x: 3, gap: hatch() },
        material: Material::Aluminium,
    }
}

/// Two rooms with a hatch between them.
pub fn demo_craft() -> (c: VoxelCraft)
    ensures
        c@ == plain(METRE_UM as int, built(hatch_plan())),
{
    craft_of(
        METRE_UM,
        Plan {
            extent: Extent { nx: 7, ny: 5, nz: 5 },
            walk: Walk::XYZ,
            cut: Cut::Gapped { x: 3, gap: hatch_cell() },
            material: Material::Aluminium,
        },
    )
}

/// Two sealed rooms in a shell of seven by five by five cells.
pub open spec fn rooms_plan() -> Plan {
    Plan {
        extent: Extent { nx: 7, ny: 5, nz: 5 },
        walk: Walk::XYZ,
        cut: Cut::Walled { x: 3 },
        material: Material::Composite,
    }
}

/// Two sealed rooms.
pub fn two_room_craft() -> (c: VoxelCraft)
    ensures
        c@ == plain(METRE_UM as int, built(rooms_plan())),
{
    craft_of(
        METRE_UM,
        Plan {
            extent: Extent { nx: 7, ny: 5, nz: 5 },
            walk: Walk::XYZ,
            cut: Cut::Walled { x: 3 },
            material: Material::Composite,
        },
    )
}

/// The re-entry body's hull: three by three by four composite cells, layer by
/// layer along the forward axis.
pub open spec fn reentry_plan() -> Plan {
    Plan {
        extent: Extent { nx: 3, ny: 3, nz: 4 },
        walk: Walk::ZXY,
        cut: Cut::Solid,
        material: Material::Composite,
    }
}

/// The re-entry body: its hull, and a heat-shield tip in front of it.
pub fn dive_craft() -> (c: VoxelCraft)
    ensures
        c@ == plain(
            METRE_UM as int,
            built(reentry_plan()).push(
                Voxel { cell: Cell { x: 1, y: 1, z: 4 }, material: Material::Ablator },
            ),
        ),
{
    let mut c: VoxelCraft = craft_of(
        METRE_UM,
        Plan {
            extent: Extent { nx: 3, ny: 3, nz: 4 },
            walk: Walk::ZXY,
            cut: Cut::Solid,
            material: Material::Composite,
        },
    );
    c.voxels.push(Voxel { cell: Cell { x: 1, y: 1, z: 4 }, material: Material::Ablator });
    c
}

/// The rooms of the hatch craft: a cell inside the shell that is not in the wall
/// belongs to one of them, and the hatch joins them.
pub proof fn lemma_hatch_craft_is_hollow(c: Cell)
    requires
        0 < c.x < 6,
        0 < c.y < 4,
        0 < c.z < 4,
    ensures
        has_cell(built(hatch_plan()), c) == (c.x == 3 && c != hatch()),
        has_cell(built(rooms_plan()), c) == (c.x == 3),
{
    lemma_built_cells_are_the_kept_ones(hatch_plan(), c);
    lemma_built_cells_are_the_kept_ones(rooms_plan(), c);
}

/// The buggy's cell, in micrometres.
pub const BUGGY_CELL_UM: u32 = 300_000;

/// Where the buggy's stations are mounted: at the corners of its deck, a fifth of
/// a cell below it.
pub open spec fn buggy_mount(station: int) -> Mount {
    Mount {
        x: if station == 1 || station == 3 {
            1_800_000
        } else {
            0
        },
        y: -120_000i64,
        z: if station >= 2 {
            3_000_000
        } else {
            0
        },
    }
}

/// The parts of one station: a driven rim, a tyre and a strut. The far pair
/// steers.
pub open spec fn station_parts(station: int, tire: TireSpec) -> Seq<Part> {
    let mount = buggy_mount(station);
    let id = Some(station as u32);
    seq![
        Part {
            mount,
            mass_mg: 2_400_000,
            kind: PartKind::Rim(
                RimSpec { radius_nm: 150_000_000, drive: true, steer: station >= 2 },
            ),
            station: id,
        },
        Part { mount, mass_mg: 2_400_000, kind: PartKind::Tire(tire), station: id },
        Part {
            mount,
            mass_mg: 1_200_000,
            kind: PartKind::Suspension(SuspensionSpec { cell_size_um: BUGGY_CELL_UM }),
            station: id,
        },
    ]
}

/// The parts of the first `n` stations.
pub open spec fn stations(n: int, tire: TireSpec) -> Seq<Part>
    decreases n,
{
    if n <= 0 {
        Seq::empty()
    } else {
        stations(n - 1, tire) + station_parts(n - 1, tire)
    }
}

/// The four-wheeled buggy: a deck on four complete wheel stations.
pub fn build_buggy(tire: TireSpec) -> (c: VoxelCraft)
    ensures
        c@ == (CraftSpec {
            cell_size: BUGGY_CELL_UM as int,
            voxels: built(deck_plan()),
            devices: Seq::empty(),
            parts: stations(4, tire),
            attachments: Seq::empty(),
        }),
{
    let mut c: VoxelCraft = deck_craft(BUGGY_CELL_UM);
    let mut n: u32 = 0;
    while n < 4
        invariant
            n <= 4,
            c@.cell_size == BUGGY_CELL_UM,
            c@.voxels == built(deck_plan()),
            c@.devices == Seq::<Device>::empty(),
            c@.attachments == Seq::<AttachmentPoint>::empty(),
            c@.parts == stations(n as int, tire),
        decreases 4 - n,
    {
        let ghost before = c@.parts;
        let mount: Mount = Mount {
            x: if n == 1 || n == 3 {
                1_800_000
            } else {
                0
            },
            y: -120_000,
            z: if n >= 2 {
                3_000_000
            } else {
                0
            },
        };
        let rim: RimSpec = RimSpec { radius_nm: 150_000_000, drive: true, steer: n >= 2 };
        let strut: SuspensionSpec = SuspensionSpec { cell_size_um: BUGGY_CELL_UM };
        c.parts.push(
            Part { mount, mass_mg: 2_400_000, kind: PartKind::Rim(rim), station: Some(n) },
        );
        c.parts.push(
            Part { mount, mass_mg: 2_400_000, kind: PartKind::Tire(tire), station: Some(n) },
        );
        c.parts.push(
            Part { mount, mass_mg: 1_200_000, kind: PartKind::Suspension(strut), station: Some(n) },
        );
        assert(c@.parts =~= before + station_parts(n as int, tire));
        n += 1;
    }
    c
}

/// Every voxel that a plan builds is of the plan's material.
pub proof fn lemma_built_of_one_material(p: Plan, i: int)
    requires
        0 <= i < built(p).len(),
    ensures
        built(p)[i].material == p.material,
{
    lemma_layers_material(p, counts(p.walk, p.extent).0, i);
}

proof fn lemma_run_material(p: Plan, a: int, b: int, n: int, i: int)
    requires
        0 <= i < run(p, a, b, n).len(),
    ensures
        run(p, a, b, n)[i].material == p.material,
    decreases n,
{
    if n > 0 && i < run(p, a, b, n - 1).len() {
        lemma_run_material(p, a, b, n - 1, i);
    }
}

proof fn lemma_layer_material(p: Plan, a: int, n: int, i: int)
    requires
        0 <= i < layer(p, a, n).len(),
    ensures
        layer(p, a, n)[i].material == p.material,
    decreases n,
{
    if n > 0 {
        let front = layer(p, a, n - 1);
        if i < front.len() {
            lemma_layer_material(p, a, n - 1, i);
        } else {
            lemma_run_material(p, a, n - 1, counts(p.walk, p.extent).2, i - front.len());
        }
    }
}

proof fn lemma_layers_material(p: Plan, n: int, i: int)
    requires
        0 <= i < layers(p, n).len(),
    ensures
        layers(p, n)[i].material == p.material,
    decreases n,
{
    if n > 0 {
        let front = layers(p, n - 1);
        if i < front.len() {
            lemma_layers_material(p, n - 1, i);
        } else {
            lemma_layer_material(p, n - 1, counts(p.walk, p.extent).1, i - front.len());
        }
    }
}

/// A cube fills every cell with coordinates below its side, and a bar every cell along the
/// first axis below its length; neither fills any other.
pub proof fn lemma_cubes_and_bars_are_solid(n: i32, material: Material, c: Cell)
    ensures
        has_cell(built(cube_plan(n, material)), c) <==> 0 <= c.x < n && 0 <= c.y < n && 0 <= c.z
            < n,
        has_cell(built(bar_plan(n, material)), c) <==> 0 <= c.x < n && c.y == 0 && c.z == 0,
        cube_plan(n, material).material == material && bar_plan(n, material).material == material,
{
    lemma_built_cells_are_the_kept_ones(cube_plan(n, material), c);
    lemma_built_cells_are_the_kept_ones(bar_plan(n, material), c);
}

/// The rocket is one by five by one, the chunky hull two by five by two, the deck three by
/// one by five and the re-entry hull three by three by four cells; all are solid and of
/// composite.
pub proof fn lemma_solid_craft_have_their_sizes(c: Cell)
    ensures
        has_cell(built(column_plan()), c) <==> c.x == 0 && 0 <= c.y < 5 && c.z == 0,
        has_cell(built(hull_plan()), c) <==> 0 <= c.x < 2 && 0 <= c.y < 5 && 0 <= c.z < 2,
        has_cell(built(deck_plan()), c) <==> 0 <= c.x < 3 && c.y == 0 && 0 <= c.z < 5,
        has_cell(built(reentry_plan()), c) <==> 0 <= c.x < 3 && 0 <= c.y < 3 && 0 <= c.z < 4,
        column_plan().material == Material::Composite && hull_plan().material
            == Material::Composite,
        deck_plan().material == Material::Composite && reentry_plan().material
            == Material::Composite,
{
    lemma_built_cells_are_the_kept_ones(column_plan(), c);
    lemma_built_cells_are_the_kept_ones(hull_plan(), c);
    lemma_built_cells_are_the_kept_ones(deck_plan(), c);
    lemma_built_cells_are_the_kept_ones(reentry_plan(), c);
}

/// The tapered sample is as wide at one end as at the other: its layers are squares of one,
/// two, three, four, three, two and one cells a side, with a common corner.
pub proof fn lemma_the_taper_is_symmetric(c: Cell)
    ensures
        has_cell(built(taper_plan()), c) <==> 0 <= c.x < 7 && 0 <= c.y && 0 <= c.z && c.y + c.x
            < 7 && c.z + c.x < 7 && c.y <= c.x && c.z <= c.x,
        0 <= c.x < 7 ==> (has_cell(built(taper_plan()), c) <==> has_cell(
            built(taper_plan()),
            Cell { x: (6 - c.x) as i32, y: c.y, z: c.z },
        )),
        taper_plan().material == Material::Aluminium,
{
    lemma_built_cells_are_the_kept_ones(taper_plan(), c);
    if 0 <= c.x < 7 {
        lemma_built_cells_are_the_kept_ones(
            taper_plan(),
            Cell { x: (6 - c.x) as i32, y: c.y, z: c.z },
        );
    }
}

/// The two-room craft are closed boxes of seven by five by five: their outermost layer is
/// whole, and the hatch is inside it, in the wall, while the breach is in the layer, beside
/// the far room.
pub proof fn lemma_the_rooms_are_closed(c: Cell)
    ensures
        0 <= c.x < 7 && 0 <= c.y < 5 && 0 <= c.z < 5 && (c.x == 0 || c.x == 6 || c.y == 0 || c.y
            == 4 || c.z == 0 || c.z == 4) ==> has_cell(built(hatch_plan()), c) && has_cell(
            built(rooms_plan()),
            c,
        ),
        has_cell(built(rooms_plan()), c) ==> 0 <= c.x < 7 && 0 <= c.y < 5 && 0 <= c.z < 5,
        has_cell(built(rooms_plan()), c) <==> has_cell(built(hatch_plan()), c) || c == hatch(),
        !has_cell(built(hatch_plan()), hatch()) && has_cell(built(hatch_plan()), breach()),
        hatch().x == 3 && breach().x == 6 && hatch().y == breach().y && hatch().z == breach().z,
        hatch_plan().material == Material::Aluminium && rooms_plan().material
            == Material::Composite,
{
    lemma_built_cells_are_the_kept_ones(hatch_plan(), c);
    lemma_built_cells_are_the_kept_ones(rooms_plan(), c);
    lemma_built_cells_are_the_kept_ones(hatch_plan(), hatch());
    lemma_built_cells_are_the_kept_ones(hatch_plan(), breach());
    lemma_built_cells_are_the_kept_ones(rooms_plan(), hatch());
}

/// A craft of voxels alone has those voxels and nothing else.
pub proof fn lemma_plain_craft_are_voxels_alone(cell_size: int, voxels: Seq<Voxel>)
    ensures
        plain(cell_size, voxels).voxels == voxels && plain(cell_size, voxels).cell_size
            == cell_size,
        plain(cell_size, voxels).devices.len() == 0 && plain(cell_size, voxels).parts.len() == 0
            && plain(cell_size, voxels).attachments.len() == 0,
{
}

/// The buggy has four stations, one at each corner of its deck and all as low. Each has a
/// driven rim, the tyre asked for and a strut, at one point; the far two steer.
pub proof fn lemma_the_buggy_stands_on_four_wheels(tire: TireSpec, k: int)
    requires
        0 <= k < 4,
    ensures
        stations(4, tire).len() == 12,
        ({
            let (rim, tyre, strut) = (
                stations(4, tire)[3 * k],
                stations(4, tire)[3 * k + 1],
                stations(4, tire)[3 * k + 2],
            );
            &&& (rim.kind matches PartKind::Rim(r) && r.drive && r.steer == (k >= 2) && r.radius_nm
                == 150_000_000)
            &&& tyre.kind == PartKind::Tire(tire)
            &&& (strut.kind matches PartKind::Suspension(s) && s.cell_size_um == 300_000)
            &&& rim.station == Some(k as u32) && tyre.station == rim.station && strut.station
                == rim.station
            &&& rim.mount == tyre.mount && rim.mount == strut.mount
            &&& rim.mount.y == -120_000
            &&& rim.mount.x == (if k % 2 == 1 {
                1_800_000int
            } else {
                0
            })
            &&& rim.mount.z == (if k >= 2 {
                3_000_000int
            } else {
                0
            })
            &&& rim.mass_mg == 2_400_000 && tyre.mass_mg == 2_400_000 && strut.mass_mg == 1_200_000
        }),
{
    reveal_with_fuel(stations, 5);
    let all = stations(4, tire);
    let s = station_parts(k, tire);
    assert(all.len() == 12);
    assert(all[3 * k] == s[0] && all[3 * k + 1] == s[1] && all[3 * k + 2] == s[2]) by {
        if k == 0 {
        } else if k == 1 {
        } else if k == 2 {
        } else {
        }
    }
}

} // verus!
