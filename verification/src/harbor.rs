//! The harbor: building a hull and floating it, and the water inside it.
//!
//! Lattice lengths are micrometres. The boxes that water fills are given in
//! twentieths of a micrometre, in which the proportions of a bilge are whole.

use crate::flight::axis;
use crate::flight::push_of;
use crate::input::KeyCode;
use crate::input::Keyboard;
use crate::readout::field;
use crate::readout::show;
use crate::readout::shown;
use crate::readout::Field;
use crate::text::decimal;
use crate::text::push_decimal;
use crate::voxel::copy_craft;
use crate::voxel::Cell;
use crate::voxel::VoxelCraft;
use crate::text::lemma_says_its_end;
use crate::text::lemma_says_itself;
use crate::text::lemma_says_on;
use crate::text::says;
use vstd::prelude::*;

verus! {

/// What the harbor is doing.
#[derive(Clone, Copy, Debug, PartialEq, Eq, Structural)]
pub enum HarborMode {
    Float,
    Build,
}

/// The other mode.
pub open spec fn other_mode(m: HarborMode) -> HarborMode {
    match m {
        HarborMode::Float => HarborMode::Build,
        HarborMode::Build => HarborMode::Float,
    }
}

/// The document that the harbour loads: the second argument, or else its own.
pub fn harbor_scenario(arg: Option<&str>) -> (s: String)
    ensures
        s@ == (match arg {
            Some(path) => path@,
            None => "content/scenarios/harbor.ron"@,
        }),
{
    match arg {
        Some(path) => path.to_owned(),
        None => "content/scenarios/harbor.ron".to_owned(),
    }
}

/// Enter switches between floating and building.
pub fn toggle_mode(keys: &Keyboard, mode: HarborMode) -> (m: HarborMode)
    ensures
        m == (if keys.tapped(KeyCode::Enter) {
            other_mode(mode)
        } else {
            mode
        }),
{
    if keys.just_pressed(KeyCode::Enter) {
        match mode {
            HarborMode::Float => HarborMode::Build,
            HarborMode::Build => HarborMode::Float,
        }
    } else {
        mode
    }
}

/// Two switches lead back.
pub proof fn lemma_two_switches_lead_back(m: HarborMode)
    ensures
        other_mode(other_mode(m)) == m,
{
}

/// A point, in micrometres.
#[derive(Clone, Copy, Debug, PartialEq, Eq, Structural)]
pub struct Point {
    pub x: i64,
    pub y: i64,
    pub z: i64,
}

/// A corner, in twentieths of a micrometre.
#[derive(Clone, Copy, Debug, PartialEq, Eq, Structural)]
pub struct Corner {
    pub x: i128,
    pub y: i128,
    pub z: i128,
}

/// The smaller of two numbers.
pub open spec fn least(a: int, b: int) -> int {
    if a < b {
        a
    } else {
        b
    }
}

/// The larger of two numbers.
pub open spec fn most(a: int, b: int) -> int {
    if a > b {
        a
    } else {
        b
    }
}

/// The lowest cell coordinates.
pub open spec fn low_cell(cells: Seq<Cell>) -> (int, int, int)
    decreases cells.len(),
{
    if cells.len() == 0 {
        (i32::MAX as int, i32::MAX as int, i32::MAX as int)
    } else {
        let lo = low_cell(cells.drop_last());
        let c = cells.last();
        (least(lo.0, c.x as int), least(lo.1, c.y as int), least(lo.2, c.z as int))
    }
}

/// The highest cell coordinates.
pub open spec fn high_cell(cells: Seq<Cell>) -> (int, int, int)
    decreases cells.len(),
{
    if cells.len() == 0 {
        (i32::MIN as int, i32::MIN as int, i32::MIN as int)
    } else {
        let hi = high_cell(cells.drop_last());
        let c = cells.last();
        (most(hi.0, c.x as int), most(hi.1, c.y as int), most(hi.2, c.z as int))
    }
}

/// The near face of a row of cells, from the centre of mass.
pub open spec fn near_face(lo: int, cell_size: int, com: int) -> int {
    20 * (lo * cell_size - com)
}

/// The far face of a row of cells, from the centre of mass.
pub open spec fn far_face(hi: int, cell_size: int, com: int) -> int {
    20 * ((hi + 1) * cell_size - com)
}

/// A box.
#[derive(Clone, Copy, Debug, PartialEq, Eq, Structural)]
pub struct Bounds {
    pub min: Corner,
    pub max: Corner,
}

/// Whether a box is that of a set of cells, seen from the centre of mass.
pub open spec fn bounds_cells(b: Bounds, cells: Seq<Cell>, cell_size: int, com: Point) -> bool {
    let lo = low_cell(cells);
    let hi = high_cell(cells);
    &&& b.min.x == near_face(lo.0, cell_size, com.x as int)
    &&& b.min.y == near_face(lo.1, cell_size, com.y as int)
    &&& b.min.z == near_face(lo.2, cell_size, com.z as int)
    &&& b.max.x == far_face(hi.0, cell_size, com.x as int)
    &&& b.max.y == far_face(hi.1, cell_size, com.y as int)
    &&& b.max.z == far_face(hi.2, cell_size, com.z as int)
}

/// The extremes of cells are machine numbers, and no cell lies outside them.
pub proof fn lemma_extremes_hold_every_cell(cells: Seq<Cell>)
    ensures
        i32::MIN <= low_cell(cells).0 <= i32::MAX,
        i32::MIN <= low_cell(cells).1 <= i32::MAX,
        i32::MIN <= low_cell(cells).2 <= i32::MAX,
        i32::MIN <= high_cell(cells).0 <= i32::MAX,
        i32::MIN <= high_cell(cells).1 <= i32::MAX,
        i32::MIN <= high_cell(cells).2 <= i32::MAX,
        forall|i: int|
            0 <= i < cells.len() ==> {
                let c = #[trigger] cells[i];
                &&& low_cell(cells).0 <= c.x <= high_cell(cells).0
                &&& low_cell(cells).1 <= c.y <= high_cell(cells).1
                &&& low_cell(cells).2 <= c.z <= high_cell(cells).2
            },
    decreases cells.len(),
{
    if cells.len() > 0 {
        let front = cells.drop_last();
        lemma_extremes_hold_every_cell(front);
        assert forall|i: int| 0 <= i < cells.len() implies {
            let c = #[trigger] cells[i];
            &&& low_cell(cells).0 <= c.x <= high_cell(cells).0
            &&& low_cell(cells).1 <= c.y <= high_cell(cells).1
            &&& low_cell(cells).2 <= c.z <= high_cell(cells).2
        } by {
            if i < front.len() {
                assert(front[i] == cells[i]);
            }
        }
    }
}

/// One face of a box.
fn face(k: i64, cell_size_um: u32, com: i64) -> (r: i128)
    requires
        -0x1_0000_0000 <= k <= 0x1_0000_0000,
    ensures
        r == 20 * (k * cell_size_um - com),
        -0x100_0000_0000_0000_0000 <= r <= 0x100_0000_0000_0000_0000,
{
    assert(-0x1_0000_0000 * 0xffff_ffff <= k * cell_size_um <= 0x1_0000_0000 * 0xffff_ffff)
        by (nonlinear_arith)
        requires
            -0x1_0000_0000 <= k <= 0x1_0000_0000,
            0 <= cell_size_um <= 0xffff_ffff,
    ;
    20 * (k as i128 * cell_size_um as i128 - com as i128)
}

/// The box of a set of cells, seen from the centre of mass.
pub fn cell_aabb(cells: &Vec<Cell>, cell_size_um: u32, com: Point) -> (b: Bounds)
    ensures
        bounds_cells(b, cells@, cell_size_um as int, com),
        in_range(b),
{
    let mut lo: Cell = Cell { x: i32::MAX, y: i32::MAX, z: i32::MAX };
    let mut hi: Cell = Cell { x: i32::MIN, y: i32::MIN, z: i32::MIN };
    let mut i: usize = 0;
    assert(cells@.take(0) =~= Seq::<Cell>::empty());
    while i < cells.len()
        invariant
            i <= cells@.len(),
            (lo.x as int, lo.y as int, lo.z as int) == low_cell(cells@.take(i as int)),
            (hi.x as int, hi.y as int, hi.z as int) == high_cell(cells@.take(i as int)),
        decreases cells.len() - i,
    {
        assert(cells@.take(i + 1).drop_last() =~= cells@.take(i as int));
        let c: Cell = cells[i];
        if c.x < lo.x {
            lo.x = c.x;
        }
        if c.y < lo.y {
            lo.y = c.y;
        }
        if c.z < lo.z {
            lo.z = c.z;
        }
        if c.x > hi.x {
            hi.x = c.x;
        }
        if c.y > hi.y {
            hi.y = c.y;
        }
        if c.z > hi.z {
            hi.z = c.z;
        }
        i += 1;
    }
    assert(cells@.take(i as int) =~= cells@);
    Bounds {
        min: Corner {
            x: face(lo.x as i64, cell_size_um, com.x),
            y: face(lo.y as i64, cell_size_um, com.y),
            z: face(lo.z as i64, cell_size_um, com.z),
        },
        max: Corner {
            x: face(hi.x as i64 + 1, cell_size_um, com.x),
            y: face(hi.y as i64 + 1, cell_size_um, com.y),
            z: face(hi.z as i64 + 1, cell_size_um, com.z),
        },
    }
}

/// Whether a number is that of a face.
pub open spec fn face_range(v: int) -> bool {
    -0x100_0000_0000_0000_0000 <= v <= 0x100_0000_0000_0000_0000
}

/// Whether a box is one that cells can have.
pub open spec fn in_range(b: Bounds) -> bool {
    &&& face_range(b.min.x as int)
    &&& face_range(b.min.y as int)
    &&& face_range(b.min.z as int)
    &&& face_range(b.max.x as int)
    &&& face_range(b.max.y as int)
    &&& face_range(b.max.z as int)
}

/// Where a region's water comes from.
#[derive(Clone, Copy, Debug, PartialEq, Eq, Structural)]
pub enum WaterSource {
    /// A sealed compartment.
    Sealed { comp: usize },
    /// The open cavity.
    Open,
    /// A ballast tank.
    Ballast { tank: usize },
}

/// A volume that can hold water.
#[derive(Clone, Copy, Debug, PartialEq, Eq, Structural)]
pub struct InteriorWaterRegion {
    pub bounds: Bounds,
    pub source: WaterSource,
}

/// The box of a ballast tank: three tenths of the hull's width to either side of
/// the mount, on the floor, thirty-five hundredths of its height, cut to the hull.
pub open spec fn tank_bounds(b: Bounds, hull: Bounds, mount: Point, com: Point) -> bool {
    let cx = 20 * (mount.x - com.x);
    let cz = 20 * (mount.z - com.z);
    let hx = 3 * (hull.max.x - hull.min.x) / 10;
    let hz = 3 * (hull.max.z - hull.min.z) / 10;
    let top = hull.min.y + 7 * (hull.max.y - hull.min.y) / 20;
    &&& b.min.x == most(cx - hx, hull.min.x as int)
    &&& b.min.y == hull.min.y
    &&& b.min.z == most(cz - hz, hull.min.z as int)
    &&& b.max.x == least(cx + hx, hull.max.x as int)
    &&& b.max.y == least(top, hull.max.y as int)
    &&& b.max.z == least(cz + hz, hull.max.z as int)
}

/// `k` parts of a span out of `over`, rounded down.
fn tenths_of(lo: i128, hi: i128, k: i128, over: i128) -> (r: i128)
    requires
        face_range(lo as int),
        face_range(hi as int),
        0 <= k <= 20,
        over == 10 || over == 20,
    ensures
        r == k * (hi - lo) / over as int,
        -0x4000_0000_0000_0000_0000 <= r <= 0x4000_0000_0000_0000_0000,
{
    let span: i128 = hi - lo;
    assert(-20 * 0x200_0000_0000_0000_0000 <= k * span <= 20 * 0x200_0000_0000_0000_0000)
        by (nonlinear_arith)
        requires
            0 <= k <= 20,
            -0x200_0000_0000_0000_0000 <= span <= 0x200_0000_0000_0000_0000,
    ;
    let n: i128 = k * span;
    if n >= 0 {
        n / over
    } else {
        let m: i128 = -n;
        let q: i128 = m / over;
        if q * over == m {
            -q
        } else {
            -q - 1
        }
    }
}

/// The box of a ballast tank.
fn tank_box(hull: Bounds, mount: Point, com: Point) -> (b: Bounds)
    requires
        in_range(hull),
    ensures
        tank_bounds(b, hull, mount, com),
{
    let cx: i128 = 20 * (mount.x as i128 - com.x as i128);
    let cz: i128 = 20 * (mount.z as i128 - com.z as i128);
    let hx: i128 = tenths_of(hull.min.x, hull.max.x, 3, 10);
    let hz: i128 = tenths_of(hull.min.z, hull.max.z, 3, 10);
    let top: i128 = hull.min.y + tenths_of(hull.min.y, hull.max.y, 7, 20);
    Bounds {
        min: Corner {
            x: if cx - hx > hull.min.x {
                cx - hx
            } else {
                hull.min.x
            },
            y: hull.min.y,
            z: if cz - hz > hull.min.z {
                cz - hz
            } else {
                hull.min.z
            },
        },
        max: Corner {
            x: if cx + hx < hull.max.x {
                cx + hx
            } else {
                hull.max.x
            },
            y: if top < hull.max.y {
                top
            } else {
                hull.max.y
            },
            z: if cz + hz < hull.max.z {
                cz + hz
            } else {
                hull.max.z
            },
        },
    }
}

/// A ballast tank's box never leaves the hull.
pub proof fn lemma_tank_stays_in_the_hull(b: Bounds, hull: Bounds, mount: Point, com: Point)
    requires
        tank_bounds(b, hull, mount, com),
    ensures
        hull.min.x <= b.min.x,
        hull.min.y <= b.min.y,
        hull.min.z <= b.min.z,
        b.max.x <= hull.max.x,
        b.max.y <= hull.max.y,
        b.max.z <= hull.max.z,
{
}

/// A tank mounted in a hull of whole cells has room for water: its box is of
/// positive size.
pub proof fn lemma_tank_has_room(b: Bounds, hull: Bounds, mount: Point, com: Point)
    requires
        tank_bounds(b, hull, mount, com),
        hull.max.x - hull.min.x >= 20,
        hull.max.y - hull.min.y >= 20,
        hull.max.z - hull.min.z >= 20,
        hull.min.x <= 20 * (mount.x - com.x) <= hull.max.x,
        hull.min.z <= 20 * (mount.z - com.z) <= hull.max.z,
    ensures
        b.min.x < b.max.x,
        b.min.y < b.max.y,
        b.min.z < b.max.z,
{
}

/// The regions of a hull: one for each sealed compartment, one for an open cavity
/// that has cells, one for each ballast tank.
pub open spec fn regions_of(
    r: Seq<InteriorWaterRegion>,
    comps: Seq<Vec<Cell>>,
    cavity: Seq<Cell>,
    hull_cells: Seq<Cell>,
    tanks: Seq<Point>,
    cell_size: int,
    com: Point,
) -> bool {
    let n = comps.len() as int;
    let open = if cavity.len() > 0 {
        1int
    } else {
        0
    };
    &&& r.len() == n + open + tanks.len()
    &&& forall|i: int|
        0 <= i < n ==> (#[trigger] r[i]).source == (WaterSource::Sealed { comp: i as usize })
            && bounds_cells(r[i].bounds, comps[i]@, cell_size, com)
    &&& open == 1 ==> r[n].source == WaterSource::Open && bounds_cells(
        r[n].bounds,
        cavity,
        cell_size,
        com,
    )
    &&& forall|i: int|
        n + open <= i < r.len() ==> {
            let tank = i - n - open;
            &&& (#[trigger] r[i]).source == (WaterSource::Ballast { tank: tank as usize })
            &&& exists|hull: Bounds| #[trigger]
                bounds_cells(hull, hull_cells, cell_size, com) && tank_bounds(
                    r[i].bounds,
                    hull,
                    tanks[tank],
                    com,
                )
        }
}

/// The regions of a hull that can hold water. The hull's cells are those of its
/// voxels and of its plates.
pub fn build_flood_state(
    comps: &Vec<Vec<Cell>>,
    cavity: &Vec<Cell>,
    hull_cells: &Vec<Cell>,
    tanks: &Vec<Point>,
    cell_size_um: u32,
    com: Point,
) -> (r: Vec<InteriorWaterRegion>)
    ensures
        regions_of(r@, comps@, cavity@, hull_cells@, tanks@, cell_size_um as int, com),
{
    let mut r: Vec<InteriorWaterRegion> = Vec::new();
    let mut i: usize = 0;
    while i < comps.len()
        invariant
            i <= comps@.len(),
            r@.len() == i,
            forall|j: int|
                0 <= j < i ==> (#[trigger] r@[j]).source == (WaterSource::Sealed {
                    comp: j as usize,
                }) && bounds_cells(r@[j].bounds, comps@[j]@, cell_size_um as int, com),
        decreases comps.len() - i,
    {
        let bounds: Bounds = cell_aabb(&comps[i], cell_size_um, com);
        r.push(InteriorWaterRegion { bounds, source: WaterSource::Sealed { comp: i } });
        i += 1;
    }
    let ghost sealed = r@;
    if cavity.len() > 0 {
        let bounds: Bounds = cell_aabb(cavity, cell_size_um, com);
        r.push(InteriorWaterRegion { bounds, source: WaterSource::Open });
    }
    let ghost head = r@;
    let hull: Bounds = cell_aabb(hull_cells, cell_size_um, com);
    let mut k: usize = 0;
    while k < tanks.len()
        invariant
            k <= tanks@.len(),
            in_range(hull),
            bounds_cells(hull, hull_cells@, cell_size_um as int, com),
            r@.len() == head.len() + k,
            forall|j: int| 0 <= j < head.len() ==> #[trigger] r@[j] == head[j],
            forall|j: int|
                head.len() <= j < r@.len() ==> (#[trigger] r@[j]).source == (
                WaterSource::Ballast { tank: (j - head.len()) as usize }) && tank_bounds(
                    r@[j].bounds,
                    hull,
                    tanks@[j - head.len()],
                    com,
                ),
        decreases tanks.len() - k,
    {
        let bounds: Bounds = tank_box(hull, tanks[k], com);
        r.push(InteriorWaterRegion { bounds, source: WaterSource::Ballast { tank: k } });
        k += 1;
    }
    r
}

/// A tank's fill and its capacity, in the same unit.
#[derive(Clone, Copy, Debug, PartialEq, Eq, Structural)]
pub struct Tank {
    pub fill: u64,
    pub capacity: u64,
}

/// A full region, in millionths.
pub const FULL: u32 = 1_000_000;

/// How full a tank is, in millionths; one without capacity is empty.
pub open spec fn tank_level(t: Tank) -> int {
    if t.capacity == 0 {
        0
    } else if t.fill >= t.capacity {
        FULL as int
    } else {
        t.fill * FULL / t.capacity as int
    }
}

/// How full a region is, in millionths: a compartment's flooding, the cavity's
/// swamping, or a tank's fill; what its source no longer has counts as empty.
pub open spec fn level_of(source: WaterSource, flooded: Seq<u32>, open: u32, tanks: Seq<Tank>) -> int {
    match source {
        WaterSource::Sealed { comp } => if comp < flooded.len() {
            flooded[comp as int] as int
        } else {
            0
        },
        WaterSource::Open => open as int,
        WaterSource::Ballast { tank } => if tank < tanks.len() {
            tank_level(tanks[tank as int])
        } else {
            0
        },
    }
}

/// How full a region is.
pub fn fill_level(
    source: WaterSource,
    flooded: &Vec<u32>,
    open: u32,
    tanks: &Vec<Tank>,
) -> (f: u32)
    ensures
        f == level_of(source, flooded@, open, tanks@),
{
    match source {
        WaterSource::Sealed { comp } => if comp < flooded.len() {
            flooded[comp]
        } else {
            0
        },
        WaterSource::Open => open,
        WaterSource::Ballast { tank } => if tank < tanks.len() {
            let t: Tank = tanks[tank];
            if t.capacity == 0 {
                0
            } else if t.fill >= t.capacity {
                FULL
            } else {
                assert(0 <= t.fill * 1_000_000 / t.capacity as int <= 1_000_000) by (nonlinear_arith)
                    requires
                        0 <= t.fill < t.capacity,
                ;
                (t.fill as u128 * 1_000_000u128 / t.capacity as u128) as u32
            }
        } else {
            0
        },
    }
}

/// Whether any region is the open cavity.
pub open spec fn has_open(r: Seq<InteriorWaterRegion>) -> bool {
    exists|i: int| 0 <= i < r.len() && (#[trigger] r[i]).source == WaterSource::Open
}

/// The cavity's swamping from its rim factor: without an open cavity nothing
/// swamps.
pub open spec fn swamping(regions: Seq<InteriorWaterRegion>, rim_factor: u32) -> u32 {
    if has_open(regions) && rim_factor < FULL {
        (FULL - rim_factor) as u32
    } else {
        0
    }
}

/// The cavity's swamping from its rim factor, and the flooding that the readout
/// shows.
pub fn swamp(
    regions: &Vec<InteriorWaterRegion>,
    flooded: u32,
    rim_factor: u32,
) -> (r: (u32, u32))
    ensures
        r.0 == swamping(regions@, rim_factor),
        r.1 == most(flooded as int, r.0 as int),
{
    let mut i: usize = 0;
    let mut open: bool = false;
    while i < regions.len()
        invariant
            i <= regions@.len(),
            open == exists|j: int|
                0 <= j < i && (#[trigger] regions@[j]).source == WaterSource::Open,
        decreases regions.len() - i,
    {
        if regions[i].source == WaterSource::Open {
            open = true;
            assert(regions@[i as int].source == WaterSource::Open);
        }
        i += 1;
    }
    let swamped: u32 = if open && rim_factor < FULL {
        FULL - rim_factor
    } else {
        0
    };
    let total: u32 = if flooded > swamped {
        flooded
    } else {
        swamped
    };
    (swamped, total)
}

/// The thinnest water that is drawn: a tenth of a millimetre, in millionths of a
/// twentieth of a micrometre.
pub const THINNEST_WATER: i128 = 2_000_000_000;

/// The height of the water in a region and twice its middle, in millionths of a
/// twentieth of a micrometre.
pub open spec fn water_column(min_y: int, extent: int, level: int) -> (int, int) {
    let h = most(
        most(0, least(level, FULL as int)) * extent,
        THINNEST_WATER as int,
    );
    (h, 2 * min_y * FULL + h)
}

/// The height of the water in a region and twice its middle: it rises from the
/// region's floor.
pub fn fill_cuboid_y(min_y: i128, extent: i128, level: i32) -> (r: (i128, i128))
    requires
        face_range(min_y as int),
        -0x200_0000_0000_0000_0000 <= extent <= 0x200_0000_0000_0000_0000,
    ensures
        (r.0 as int, r.1 as int) == water_column(min_y as int, extent as int, level as int),
{
    let f: i128 = if level < 0 {
        0
    } else if level > 1_000_000 {
        1_000_000
    } else {
        level as i128
    };
    assert(-1_000_000 * 0x200_0000_0000_0000_0000 <= f * extent <= 1_000_000
        * 0x200_0000_0000_0000_0000) by (nonlinear_arith)
        requires
            0 <= f <= 1_000_000,
            -0x200_0000_0000_0000_0000 <= extent <= 0x200_0000_0000_0000_0000,
    ;
    let deep: i128 = f * extent;
    let h: i128 = if deep > THINNEST_WATER {
        deep
    } else {
        THINNEST_WATER
    };
    (h, 2 * min_y * 1_000_000 + h)
}

/// Water rises with its level and never leaves a region that is thicker than the
/// thinnest film.
pub proof fn lemma_water_rises_within_its_region(min_y: int, extent: int, a: int, b: int)
    requires
        a <= b,
        extent * FULL >= THINNEST_WATER,
    ensures
        water_column(min_y, extent, a).0 <= water_column(min_y, extent, b).0,
        water_column(min_y, extent, b).0 <= extent * FULL,
{
    let fa = most(0, least(a, FULL as int));
    let fb = most(0, least(b, FULL as int));
    assert(extent >= 0) by (nonlinear_arith)
        requires
            extent * 1_000_000 >= 2_000_000_000,
    ;
    assert(fa * extent <= fb * extent <= 1_000_000 * extent) by (nonlinear_arith)
        requires
            extent >= 0,
            fa <= fb <= 1_000_000,
    ;
    assert(1_000_000 * extent == extent * 1_000_000) by (nonlinear_arith);
}

/// The room that an occluder leaves to the skin, in twentieths of a micrometre.
pub const OCCLUDER_GAP: i128 = 400_000;

/// The thinnest occluder, in twentieths of a micrometre.
pub const OCCLUDER_MIN: i128 = 200_000;

/// How much of a region its occluder fills, in hundredths: an open hold stays open
/// above the waterline.
pub open spec fn occluder_share(source: WaterSource) -> int {
    if source == WaterSource::Open {
        72
    } else {
        100
    }
}

/// An occluder: its width, a hundred times its height, its depth, and two hundred
/// times the height of its middle.
#[derive(Clone, Copy, Debug, PartialEq, Eq, Structural)]
pub struct Occluder {
    pub width: i128,
    pub height_x100: i128,
    pub depth: i128,
    pub middle_x200: i128,
}

/// The occluder of a region.
pub open spec fn occludes(o: Occluder, r: InteriorWaterRegion) -> bool {
    let share = occluder_share(r.source);
    let tall = r.bounds.max.y - r.bounds.min.y;
    &&& o.width == most(r.bounds.max.x - r.bounds.min.x - OCCLUDER_GAP, OCCLUDER_MIN as int)
    &&& o.height_x100 == most(tall * share - 100 * OCCLUDER_GAP, 100 * OCCLUDER_MIN)
    &&& o.depth == most(r.bounds.max.z - r.bounds.min.z - OCCLUDER_GAP, OCCLUDER_MIN as int)
    &&& o.middle_x200 == 200 * r.bounds.min.y + tall * share
}

/// The occluder of a region.
pub fn occluder(r: InteriorWaterRegion) -> (o: Occluder)
    requires
        in_range(r.bounds),
    ensures
        occludes(o, r),
{
    let share: i128 = if r.source == WaterSource::Open {
        72
    } else {
        100
    };
    let wide: i128 = r.bounds.max.x - r.bounds.min.x - OCCLUDER_GAP;
    let deep: i128 = r.bounds.max.z - r.bounds.min.z - OCCLUDER_GAP;
    let span: i128 = r.bounds.max.y - r.bounds.min.y;
    assert(-100 * 0x200_0000_0000_0000_0000 <= span * share <= 100 * 0x200_0000_0000_0000_0000)
        by (nonlinear_arith)
        requires
            0 <= share <= 100,
            -0x200_0000_0000_0000_0000 <= span <= 0x200_0000_0000_0000_0000,
    ;
    let tall: i128 = span * share - 100 * OCCLUDER_GAP;
    Occluder {
        width: if wide > OCCLUDER_MIN {
            wide
        } else {
            OCCLUDER_MIN
        },
        height_x100: if tall > 100 * OCCLUDER_MIN {
            tall
        } else {
            100 * OCCLUDER_MIN
        },
        depth: if deep > OCCLUDER_MIN {
            deep
        } else {
            OCCLUDER_MIN
        },
        middle_x200: 200 * r.bounds.min.y + span * share,
    }
}

/// What a ballast tank is told.
#[derive(Clone, Copy, Debug, PartialEq, Eq, Structural)]
pub enum BallastCommand {
    Fill,
    Blow,
    Hold,
}

/// What the keys tell the ballast tanks.
pub open spec fn ballast_of(keys: Keyboard) -> BallastCommand {
    if keys.held(KeyCode::KeyF) {
        BallastCommand::Fill
    } else if keys.held(KeyCode::KeyG) {
        BallastCommand::Blow
    } else {
        BallastCommand::Hold
    }
}

/// `F` floods, `G` blows, neither holds.
pub fn harbor_ballast_input(keys: &Keyboard) -> (c: BallastCommand)
    ensures
        c == (if keys.held(KeyCode::KeyF) {
            BallastCommand::Fill
        } else if keys.held(KeyCode::KeyG) {
            BallastCommand::Blow
        } else {
            BallastCommand::Hold
        }),
        c == ballast_of(*keys),
{
    if keys.pressed(KeyCode::KeyF) {
        BallastCommand::Fill
    } else if keys.pressed(KeyCode::KeyG) {
        BallastCommand::Blow
    } else {
        BallastCommand::Hold
    }
}

/// What the keys ask of the drive: forward, and a turn to port.
pub open spec fn drive_of(keys: Keyboard) -> (int, int) {
    (push_of(keys, KeyCode::KeyW, KeyCode::KeyS), push_of(keys, KeyCode::KeyA, KeyCode::KeyD))
}

/// The drive: forward and turn, each -1, 0 or 1. A turn to port is positive.
pub fn harbor_drive_input(keys: &Keyboard) -> (d: (i32, i32))
    ensures
        d.0 == push_of(*keys, KeyCode::KeyW, KeyCode::KeyS),
        d.1 == push_of(*keys, KeyCode::KeyA, KeyCode::KeyD),
        (d.0 as int, d.1 as int) == drive_of(*keys),
{
    (axis(keys, KeyCode::KeyW, KeyCode::KeyS), axis(keys, KeyCode::KeyA, KeyCode::KeyD))
}

/// Whether the hull is breached in this frame: `X` breaches it once.
pub fn harbor_breach_input(keys: &Keyboard, breached: bool) -> (b: bool)
    ensures
        b == (keys.tapped(KeyCode::KeyX) && !breached),
{
    keys.just_pressed(KeyCode::KeyX) && !breached
}

/// What a hull weighs and lifts. Volumes are cubic millimetres.
#[derive(Clone, Copy, Debug, PartialEq, Eq, Structural)]
pub struct Hull {
    /// Its mass in milligrams, if it has any cells.
    pub mass: Option<u64>,
    /// The lift of its shell under water, in micronewtons.
    pub shell_lift: u64,
    /// The cells of its open cavity.
    pub cavity_cells: u64,
    /// The volume of one cell, in cubic millimetres.
    pub cell_volume: u64,
}

/// A hull's weight, in hundred-thousandths of a micronewton, at 9.81 metres per
/// second squared.
pub open spec fn weight_of(mass: int) -> int {
    mass * 981_000
}

/// A hull's greatest lift, in hundred-thousandths of a micronewton: its shell's,
/// and that of the water its cavity holds out, at 1025 kilograms per cubic metre.
pub open spec fn lift_of(h: Hull) -> int {
    h.shell_lift * 100_000 + (h.cavity_cells * h.cell_volume) * 1_005_525
}

/// Whether a hull floats, and how deep it sits in millionths: one that has no
/// weight does not.
pub open spec fn floating(h: Hull) -> (bool, int) {
    match h.mass {
        None => (false, FULL as int),
        Some(m) => if m == 0 {
            (false, FULL as int)
        } else {
            let w = weight_of(m as int);
            let l = lift_of(h);
            (l > w, if l <= w {
                FULL as int
            } else {
                w * FULL / l
            })
        },
    }
}

/// Whether a hull floats, and how deep it sits in millionths.
pub fn would_float(h: &Hull) -> (r: (bool, u32))
    requires
        h.cavity_cells * h.cell_volume <= u64::MAX,
    ensures
        (r.0, r.1 as int) == floating(*h),
{
    match h.mass {
        None => (false, FULL),
        Some(m) => {
            if m == 0 {
                return (false, FULL);
            }
            assert(0 <= h.cavity_cells * h.cell_volume) by (nonlinear_arith)
                requires
                    h.cavity_cells >= 0,
                    h.cell_volume >= 0,
            ;
            let hold: u64 = h.cavity_cells * h.cell_volume;
            let w: u128 = m as u128 * 981_000u128;
            let l: u128 = h.shell_lift as u128 * 100_000u128 + hold as u128 * 1_005_525u128;
            if l <= w {
                (false, FULL)
            } else {
                assert(0 <= w * 1_000_000 / l as int <= 1_000_000) by (nonlinear_arith)
                    requires
                        0 <= w < l,
                ;
                (true, (w * 1_000_000u128 / l) as u32)
            }
        },
    }
}

/// A hull that floats sits partly out of the water, and one that sinks is awash.
pub proof fn lemma_floating_hulls_ride_high(h: Hull)
    ensures
        floating(h).0 ==> 0 <= floating(h).1 < FULL,
        !floating(h).0 ==> floating(h).1 == FULL,
{
    if floating(h).0 {
        let w = weight_of(h.mass->0 as int);
        let l = lift_of(h);
        assert(0 <= w * 1_000_000 / l < 1_000_000) by (nonlinear_arith)
            requires
                0 <= w < l,
        ;
    }
}

/// More lift never sinks a hull.
pub proof fn lemma_more_lift_keeps_afloat(h: Hull, lift: u64)
    requires
        h.shell_lift <= lift,
        floating(h).0,
    ensures
        floating(
            (Hull {
                mass: h.mass,
                shell_lift: lift,
                cavity_cells: h.cavity_cells,
                cell_volume: h.cell_volume,
            }),
        ).0,
{
}

/// The prediction's line.
pub open spec fn prediction(h: Hull) -> Seq<char> {
    if floating(h).0 {
        "will FLOAT (draft ~"@ + shown(
            floating(h).1 * 100,
            (Field { width: 0, digits: 0, plus: false }),
        ) + "%)"@
    } else {
        "will SINK"@
    }
}

/// The build mode's readout.
pub fn build_hud(
    h: &Hull,
    panel_mode: bool,
    shape: &str,
    cells: usize,
    panels: usize,
) -> (s: String)
    requires
        h.cavity_cells * h.cell_volume <= u64::MAX,
    ensures
        s@
            == "harbor — Build (Enter: Float)\nmouse: orbit/zoom · L-click place · R-click remove · click palette (left) to pick\nT: place mode — "@
            + (if panel_mode {
            "PANEL (thin)"@
        } else {
            "solid"@
        }) + " · Tab: material · shape: "@ + shape@ + "\ncells: "@ + decimal(cells as nat)
            + "  panels: "@ + decimal(panels as nat) + "\n>> "@ + prediction(*h) + " <<"@,
{
    let mut s: String = "harbor — Build (Enter: Float)\nmouse: orbit/zoom · L-click place · R-click remove · click palette (left) to pick\nT: place mode — ".to_owned();
    s.append(
        if panel_mode {
            "PANEL (thin)"
        } else {
            "solid"
        },
    );
    s.append(" · Tab: material · shape: ");
    s.append(shape);
    s.append("\ncells: ");
    push_decimal(&mut s, cells as u64);
    s.append("  panels: ");
    push_decimal(&mut s, panels as u64);
    s.append("\n>> ");
    let ghost head = s@;
    let (floats, draft): (bool, u32) = would_float(h);
    if floats {
        s.append("will FLOAT (draft ~");
        show(&mut s, draft as i64 * 100, field(0, 0));
        s.append("%)");
    } else {
        s.append("will SINK");
    }
    assert(s@ =~= head + prediction(*h));
    s.append(" <<");
    s
}

/// What the float mode shows: lengths in micrometres, angles in millionths of a
/// degree, forces in micronewtons, shares in millionths.
#[derive(Clone, Copy, Debug, PartialEq, Eq, Structural)]
pub struct HarborReadout {
    pub draft: i64,
    pub heel: i64,
    pub net_buoyancy: i64,
    pub thrust: i64,
    pub fuel: u32,
    pub ballast: u32,
    pub rudder: i64,
    pub flood: u32,
}

/// The net buoyancy below which a hull is sinking, in micronewtons.
pub const SINKING_BELOW: i64 = -500_000_000;

/// The float mode's readout.
pub open spec fn float_text(r: HarborReadout) -> Seq<char> {
    "harbor — Float (Enter: Build) — "@ + (if r.net_buoyancy < SINKING_BELOW {
            "SINKING"@
        } else {
            "floating"@
        })
            + "\nWASD: drive / steer   F/G: dive / surface   X: breach\ndraft:    "@
            + shown(r.draft as int, (Field { width: 6, digits: 2, plus: false }))
            + " m\nheel:     "@ + shown(
            r.heel as int,
            (Field { width: 6, digits: 1, plus: false }),
        ) + " deg\nnet buoy: "@ + shown(
            r.net_buoyancy as int,
            (Field { width: 8, digits: 0, plus: false }),
        ) + " N\nthrust:   "@ + shown(
            r.thrust as int,
            (Field { width: 8, digits: 0, plus: false }),
        ) + " N   fuel:    "@ + shown(
            r.fuel * 100,
            (Field { width: 3, digits: 0, plus: false }),
        ) + "%\nballast:  "@ + shown(
            r.ballast * 100,
            (Field { width: 3, digits: 0, plus: false }),
        ) + "%   rudder: "@ + shown(
            r.rudder as int,
            (Field { width: 5, digits: 1, plus: false }),
        ) + " deg\nflood:    "@ + shown(
            r.flood * 100,
            (Field { width: 3, digits: 0, plus: false }),
        ) + "%"@
}

/// The float mode's readout.
pub fn float_hud(r: &HarborReadout) -> (s: String)
    ensures
        s@ == "harbor — Float (Enter: Build) — "@ + (if r.net_buoyancy < SINKING_BELOW {
            "SINKING"@
        } else {
            "floating"@
        })
            + "\nWASD: drive / steer   F/G: dive / surface   X: breach\ndraft:    "@
            + shown(r.draft as int, (Field { width: 6, digits: 2, plus: false }))
            + " m\nheel:     "@ + shown(
            r.heel as int,
            (Field { width: 6, digits: 1, plus: false }),
        ) + " deg\nnet buoy: "@ + shown(
            r.net_buoyancy as int,
            (Field { width: 8, digits: 0, plus: false }),
        ) + " N\nthrust:   "@ + shown(
            r.thrust as int,
            (Field { width: 8, digits: 0, plus: false }),
        ) + " N   fuel:    "@ + shown(
            r.fuel * 100,
            (Field { width: 3, digits: 0, plus: false }),
        ) + "%\nballast:  "@ + shown(
            r.ballast * 100,
            (Field { width: 3, digits: 0, plus: false }),
        ) + "%   rudder: "@ + shown(
            r.rudder as int,
            (Field { width: 5, digits: 1, plus: false }),
        ) + " deg\nflood:    "@ + shown(
            r.flood * 100,
            (Field { width: 3, digits: 0, plus: false }),
        ) + "%"@,
        s@ == float_text(*r),
{
    let mut s: String = "harbor — Float (Enter: Build) — ".to_owned();
    s.append(
        if r.net_buoyancy < SINKING_BELOW {
            "SINKING"
        } else {
            "floating"
        },
    );
    s.append("\nWASD: drive / steer   F/G: dive / surface   X: breach\ndraft:    ");
    show(&mut s, r.draft, field(6, 2));
    s.append(" m\nheel:     ");
    show(&mut s, r.heel, field(6, 1));
    s.append(" deg\nnet buoy: ");
    show(&mut s, r.net_buoyancy, field(8, 0));
    s.append(" N\nthrust:   ");
    show(&mut s, r.thrust, field(8, 0));
    s.append(" N   fuel:    ");
    show(&mut s, r.fuel as i64 * 100, field(3, 0));
    s.append("%\nballast:  ");
    show(&mut s, r.ballast as i64 * 100, field(3, 0));
    s.append("%   rudder: ");
    show(&mut s, r.rudder, field(5, 1));
    s.append(" deg\nflood:    ");
    show(&mut s, r.flood as i64 * 100, field(3, 0));
    s.append("%");
    s
}

/// What a scenario document is to the harbor.
#[derive(Debug, PartialEq, Eq)]
pub enum Document {
    /// It could not be loaded, for this reason.
    Unreadable(String),
    /// It starts somewhere else than on the water.
    Ashore,
    /// It starts on the water.
    Afloat,
}

/// Why the harbor does not open a document, if it does not.
pub fn refusal(path: &str, document: &Document) -> (r: Option<String>)
    ensures
        match (document, r) {
            (Document::Afloat, None) => true,
            (Document::Unreadable(e), Some(s)) => s@ == "scenario `"@ + path@
                + "` failed to load: "@ + e@,
            (Document::Ashore, Some(s)) => s@ == "scenario `"@ + path@
                + "` is not an afloat scenario — the harbor presents Afloat placements"@,
            _ => false,
        },
{
    match document {
        Document::Afloat => None,
        Document::Unreadable(e) => {
            let mut s: String = "scenario `".to_owned();
            s.append(path);
            s.append("` failed to load: ");
            s.append(e.as_str());
            Some(s)
        },
        Document::Ashore => {
            let mut s: String = "scenario `".to_owned();
            s.append(path);
            s.append("` is not an afloat scenario — the harbor presents Afloat placements");
            Some(s)
        },
    }
}

/// What each water surface of a hull becomes: the height of the water and twice
/// its middle, in the region that it stands for. A surface without a region is
/// left as it is.
pub open spec fn raised(
    slot: int,
    regions: Seq<InteriorWaterRegion>,
    flooded: Seq<u32>,
    open: u32,
    tanks: Seq<Tank>,
) -> Option<(int, int)> {
    if 0 <= slot < regions.len() {
        let b = regions[slot].bounds;
        Some(
            water_column(
                b.min.y as int,
                b.max.y - b.min.y,
                least(
                    level_of(regions[slot].source, flooded, open, tanks),
                    FULL as int,
                ),
            ),
        )
    } else {
        None
    }
}

/// Raises a hull's water: each surface to its region's level. Gives what each
/// becomes, and the flooding that the readout shows.
pub fn raise_interior_water(
    slots: &Vec<usize>,
    regions: &Vec<InteriorWaterRegion>,
    flooded: &Vec<u32>,
    flooded_in_all: u32,
    rim_factor: u32,
    tanks: &Vec<Tank>,
) -> (r: (Vec<Option<(i128, i128)>>, u32))
    requires
        forall|i: int| 0 <= i < regions@.len() ==> in_range((#[trigger] regions@[i]).bounds),
    ensures
        r.0@.len() == slots@.len(),
        forall|i: int|
            0 <= i < slots@.len() ==> match #[trigger] r.0@[i] {
                Some(w) => raised(
                    slots@[i] as int,
                    regions@,
                    flooded@,
                    swamping(regions@, rim_factor),
                    tanks@,
                ) == Some((w.0 as int, w.1 as int)),
                None => raised(
                    slots@[i] as int,
                    regions@,
                    flooded@,
                    swamping(regions@, rim_factor),
                    tanks@,
                ) is None,
            },
        r.1 == most(flooded_in_all as int, swamping(regions@, rim_factor) as int),
{
    let (open, total) = swamp(regions, flooded_in_all, rim_factor);
    let mut out: Vec<Option<(i128, i128)>> = Vec::new();
    let mut i: usize = 0;
    while i < slots.len()
        invariant
            i <= slots@.len(),
            out@.len() == i,
            open == swamping(regions@, rim_factor),
            forall|k: int| 0 <= k < regions@.len() ==> in_range((#[trigger] regions@[k]).bounds),
            forall|k: int|
                0 <= k < i ==> match #[trigger] out@[k] {
                    Some(w) => raised(slots@[k] as int, regions@, flooded@, open, tanks@) == Some(
                        (w.0 as int, w.1 as int),
                    ),
                    None => raised(slots@[k] as int, regions@, flooded@, open, tanks@) is None,
                },
        decreases slots.len() - i,
    {
        let slot: usize = slots[i];
        if slot < regions.len() {
            let region: InteriorWaterRegion = regions[slot];
            assert(in_range(regions@[slot as int].bounds));
            let level: u32 = fill_level(region.source, flooded, open, tanks);
            let capped: i32 = if level < FULL {
                level as i32
            } else {
                FULL as i32
            };
            let extent: i128 = region.bounds.max.y - region.bounds.min.y;
            out.push(Some(fill_cuboid_y(region.bounds.min.y, extent, capped)));
        } else {
            out.push(None);
        }
        i += 1;
    }
    (out, total)
}

/// What is staged as the harbor goes afloat: the build as it is, once a scenario
/// has been loaded to spawn it into.
pub fn enter_float(template_loaded: bool, build: &VoxelCraft) -> (staged: Option<VoxelCraft>)
    ensures
        staged is Some == template_loaded,
        staged matches Some(c) ==> c@ == build@,
{
    if template_loaded {
        Some(copy_craft(build))
    } else {
        None
    }
}

/// `F` floods the tanks, `G` alone blows them, and without either they hold.
pub proof fn lemma_ballast_keys(keys: Keyboard)
    ensures
        ballast_of(keys) is Fill <==> keys.held(KeyCode::KeyF),
        ballast_of(keys) is Blow <==> keys.held(KeyCode::KeyG) && !keys.held(KeyCode::KeyF),
        ballast_of(keys) is Hold <==> !keys.held(KeyCode::KeyG) && !keys.held(KeyCode::KeyF),
{
}

/// `W` drives forward and `S` back, `A` turns to port and `D` to starboard; the two of a
/// pair together do nothing.
pub proof fn lemma_drive_keys(keys: Keyboard)
    ensures
        drive_of(keys).0 == 1 <==> keys.held(KeyCode::KeyW) && !keys.held(KeyCode::KeyS),
        drive_of(keys).0 == -1 <==> keys.held(KeyCode::KeyS) && !keys.held(KeyCode::KeyW),
        drive_of(keys).1 == 1 <==> keys.held(KeyCode::KeyA) && !keys.held(KeyCode::KeyD),
        drive_of(keys).1 == -1 <==> keys.held(KeyCode::KeyD) && !keys.held(KeyCode::KeyA),
        -1 <= drive_of(keys).0 <= 1,
        -1 <= drive_of(keys).1 <= 1,
{
}

/// The extremes of cells are those of cells: each of the six is some cell's own.
proof fn lemma_extremes_are_reached(cells: Seq<Cell>)
    requires
        cells.len() > 0,
    ensures
        exists|i: int| 0 <= i < cells.len() && (#[trigger] cells[i]).x == low_cell(cells).0,
        exists|i: int| 0 <= i < cells.len() && (#[trigger] cells[i]).y == low_cell(cells).1,
        exists|i: int| 0 <= i < cells.len() && (#[trigger] cells[i]).z == low_cell(cells).2,
        exists|i: int| 0 <= i < cells.len() && (#[trigger] cells[i]).x == high_cell(cells).0,
        exists|i: int| 0 <= i < cells.len() && (#[trigger] cells[i]).y == high_cell(cells).1,
        exists|i: int| 0 <= i < cells.len() && (#[trigger] cells[i]).z == high_cell(cells).2,
    decreases cells.len(),
{
    let t = cells.drop_last();
    let n = cells.len() - 1;
    assert(cells[n] == cells.last());
    if t.len() > 0 {
        lemma_extremes_are_reached(t);
        let a = choose|i: int| 0 <= i < t.len() && (#[trigger] t[i]).x == low_cell(t).0;
        let b = choose|i: int| 0 <= i < t.len() && (#[trigger] t[i]).y == low_cell(t).1;
        let c = choose|i: int| 0 <= i < t.len() && (#[trigger] t[i]).z == low_cell(t).2;
        let d = choose|i: int| 0 <= i < t.len() && (#[trigger] t[i]).x == high_cell(t).0;
        let e = choose|i: int| 0 <= i < t.len() && (#[trigger] t[i]).y == high_cell(t).1;
        let f = choose|i: int| 0 <= i < t.len() && (#[trigger] t[i]).z == high_cell(t).2;
        assert(cells[a] == t[a] && cells[b] == t[b] && cells[c] == t[c]);
        assert(cells[d] == t[d] && cells[e] == t[e] && cells[f] == t[f]);
    } else {
        assert(low_cell(t) == (i32::MAX as int, i32::MAX as int, i32::MAX as int));
        assert(high_cell(t) == (i32::MIN as int, i32::MIN as int, i32::MIN as int));
    }
}

/// The box of cells is the smallest that holds them: no cell sticks out of it, and each of
/// its six faces is a face of some cell.
pub proof fn lemma_box_fits_its_cells(b: Bounds, cells: Seq<Cell>, s: int, com: Point)
    requires
        bounds_cells(b, cells, s, com),
        cells.len() > 0,
        s >= 0,
    ensures
        forall|i: int|
            0 <= i < cells.len() ==> {
                let c = #[trigger] cells[i];
                &&& b.min.x <= 20 * (c.x * s - com.x) && 20 * ((c.x + 1) * s - com.x) <= b.max.x
                &&& b.min.y <= 20 * (c.y * s - com.y) && 20 * ((c.y + 1) * s - com.y) <= b.max.y
                &&& b.min.z <= 20 * (c.z * s - com.z) && 20 * ((c.z + 1) * s - com.z) <= b.max.z
            },
        exists|i: int| 0 <= i < cells.len() && b.min.x == 20 * ((#[trigger] cells[i]).x * s - com.x),
        exists|i: int| 0 <= i < cells.len() && b.min.y == 20 * ((#[trigger] cells[i]).y * s - com.y),
        exists|i: int| 0 <= i < cells.len() && b.min.z == 20 * ((#[trigger] cells[i]).z * s - com.z),
        exists|i: int|
            0 <= i < cells.len() && b.max.x == 20 * (((#[trigger] cells[i]).x + 1) * s - com.x),
        exists|i: int|
            0 <= i < cells.len() && b.max.y == 20 * (((#[trigger] cells[i]).y + 1) * s - com.y),
        exists|i: int|
            0 <= i < cells.len() && b.max.z == 20 * (((#[trigger] cells[i]).z + 1) * s - com.z),
{
    lemma_extremes_hold_every_cell(cells);
    lemma_extremes_are_reached(cells);
    let (lo, hi) = (low_cell(cells), high_cell(cells));
    assert forall|i: int| 0 <= i < cells.len() implies {
        let c = #[trigger] cells[i];
        &&& b.min.x <= 20 * (c.x * s - com.x) && 20 * ((c.x + 1) * s - com.x) <= b.max.x
        &&& b.min.y <= 20 * (c.y * s - com.y) && 20 * ((c.y + 1) * s - com.y) <= b.max.y
        &&& b.min.z <= 20 * (c.z * s - com.z) && 20 * ((c.z + 1) * s - com.z) <= b.max.z
    } by {
        let c = cells[i];
        assert(lo.0 * s <= c.x * s && (c.x + 1) * s <= (hi.0 + 1) * s) by (nonlinear_arith)
            requires
                lo.0 <= c.x <= hi.0,
                s >= 0,
        ;
        assert(lo.1 * s <= c.y * s && (c.y + 1) * s <= (hi.1 + 1) * s) by (nonlinear_arith)
            requires
                lo.1 <= c.y <= hi.1,
                s >= 0,
        ;
        assert(lo.2 * s <= c.z * s && (c.z + 1) * s <= (hi.2 + 1) * s) by (nonlinear_arith)
            requires
                lo.2 <= c.z <= hi.2,
                s >= 0,
        ;
    }
}

/// A tank that the hull does not cut has its mount in its middle and three fifths of the
/// hull's width and depth; it stands on the hull's floor and is seven twentieths of its
/// height, to within the rounding of a twentieth of a micrometre.
pub proof fn lemma_tank_is_around_its_mount(b: Bounds, hull: Bounds, mount: Point, com: Point)
    requires
        tank_bounds(b, hull, mount, com),
        hull.min.y <= hull.max.y,
    ensures
        b.min.y == hull.min.y,
        7 * (hull.max.y - hull.min.y) - 20 < 20 * (b.max.y - b.min.y) <= 7 * (hull.max.y
            - hull.min.y),
        b.min.x > hull.min.x && b.max.x < hull.max.x ==> b.min.x + b.max.x == 40 * (mount.x - com.x)
            && 6 * (hull.max.x - hull.min.x) - 20 < 10 * (b.max.x - b.min.x) <= 6 * (hull.max.x
            - hull.min.x),
        b.min.z > hull.min.z && b.max.z < hull.max.z ==> b.min.z + b.max.z == 40 * (mount.z - com.z)
            && 6 * (hull.max.z - hull.min.z) - 20 < 10 * (b.max.z - b.min.z) <= 6 * (hull.max.z
            - hull.min.z),
{
}

/// Every compartment, the open cavity if it has cells, and every tank is a region, once,
/// and each region is the box of its own cells or the tank's own.
pub proof fn lemma_every_hold_is_a_region(
    r: Seq<InteriorWaterRegion>,
    comps: Seq<Vec<Cell>>,
    cavity: Seq<Cell>,
    hull_cells: Seq<Cell>,
    tanks: Seq<Point>,
    cell_size: int,
    com: Point,
    k: int,
)
    requires
        regions_of(r, comps, cavity, hull_cells, tanks, cell_size, com),
        comps.len() <= usize::MAX,
        tanks.len() <= usize::MAX,
    ensures
        0 <= k < comps.len() ==> exists|i: int|
            0 <= i < r.len() && (#[trigger] r[i]).source == (WaterSource::Sealed {
                comp: k as usize,
            }) && bounds_cells(r[i].bounds, comps[k]@, cell_size, com),
        0 <= k < tanks.len() ==> exists|i: int|
            0 <= i < r.len() && (#[trigger] r[i]).source == (WaterSource::Ballast {
                tank: k as usize,
            }),
        cavity.len() > 0 <==> exists|i: int|
            0 <= i < r.len() && (#[trigger] r[i]).source == WaterSource::Open,
        r.len() == comps.len() + tanks.len() + (if cavity.len() > 0 {
            1int
        } else {
            0
        }),
{
    let n = comps.len() as int;
    let open = if cavity.len() > 0 {
        1int
    } else {
        0
    };
    if 0 <= k < comps.len() {
        assert(r[k].source == (WaterSource::Sealed { comp: k as usize }));
    }
    if 0 <= k < tanks.len() {
        assert(r[n + open + k].source == (WaterSource::Ballast { tank: k as usize }));
    }
    if cavity.len() > 0 {
        assert(r[n].source == WaterSource::Open);
    }
}

/// A tank's level is its share of its capacity, rounded down to a millionth; none without
/// capacity, and full from a full tank on. It grows with the fill.
pub proof fn lemma_tank_level_is_its_share(t: Tank, more: u64)
    requires
        more >= t.fill,
    ensures
        t.capacity == 0 ==> tank_level(t) == 0,
        t.capacity > 0 && t.fill >= t.capacity ==> tank_level(t) == 1_000_000,
        t.capacity > 0 && t.fill < t.capacity ==> tank_level(t) * t.capacity <= t.fill * 1_000_000
            < (tank_level(t) + 1) * t.capacity,
        0 <= tank_level(t) <= 1_000_000,
{
    if t.capacity > 0 && t.fill < t.capacity {
        let (n, d) = (t.fill * 1_000_000, t.capacity as int);
        vstd::arithmetic::div_mod::lemma_fundamental_div_mod(n, d);
        assert((n / d) * d == d * (n / d) && (n / d + 1) * d == d * (n / d) + d)
            by (nonlinear_arith);
        assert(0 <= n / d <= 1_000_000) by (nonlinear_arith)
            requires
                0 <= n <= d * 1_000_000,
                d > 0,
        ;
    }
}

/// A region is as full as its own source: a compartment as it is flooded, the cavity as it
/// is swamped, a tank as it is filled.
pub proof fn lemma_regions_fill_from_their_source(
    i: usize,
    flooded: Seq<u32>,
    open: u32,
    tanks: Seq<Tank>,
)
    ensures
        i < flooded.len() ==> level_of(WaterSource::Sealed { comp: i }, flooded, open, tanks)
            == flooded[i as int],
        i >= flooded.len() ==> level_of(WaterSource::Sealed { comp: i }, flooded, open, tanks) == 0,
        level_of(WaterSource::Open, flooded, open, tanks) == open,
        i < tanks.len() && tanks[i as int].capacity > 0 && tanks[i as int].fill
            == tanks[i as int].capacity ==> level_of(
            WaterSource::Ballast { tank: i },
            flooded,
            open,
            tanks,
        ) == 1_000_000,
        i < tanks.len() ==> level_of(WaterSource::Ballast { tank: i }, flooded, open, tanks)
            == tank_level(tanks[i as int]),
        i >= tanks.len() ==> level_of(WaterSource::Ballast { tank: i }, flooded, open, tanks) == 0,
{
}

/// An open cavity is swamped by what its rim lets in: swamping and rim together are
/// everything. A rim that keeps all out, or a hull without a cavity, swamps nothing.
pub proof fn lemma_swamping_is_what_the_rim_lets_in(
    regions: Seq<InteriorWaterRegion>,
    rim: u32,
)
    ensures
        ({
            let open = exists|i: int|
                0 <= i < regions.len() && (#[trigger] regions[i]).source == WaterSource::Open;
            &&& open && rim <= 1_000_000 ==> swamping(regions, rim) + rim == 1_000_000
            &&& rim >= 1_000_000 || !open ==> swamping(regions, rim) == 0
        }),
{
}

/// Water stands on its region's floor, whatever its level: twice its middle is its height
/// above twice the floor. It is as high as its share of the region, but never less than the
/// thinnest film.
pub proof fn lemma_water_stands_on_the_floor(min_y: int, extent: int, level: int)
    requires
        extent >= 0,
    ensures
        ({
            let (h, twice) = water_column(min_y, extent, level);
            &&& twice - h == 2 * (min_y * 1_000_000)
            &&& h >= 2_000_000_000
            &&& 0 <= level <= 1_000_000 ==> h == level * extent || (h == 2_000_000_000 && level
                * extent <= h)
            &&& level <= 0 ==> h == 2_000_000_000
            &&& level > 1_000_000 ==> h == 1_000_000 * extent || h == 2_000_000_000
        }),
{
    if level <= 0 {
        assert(0 * extent == 0);
    }
}

/// An occluder is as wide and as deep as its region less the gap, and at least its least
/// size. It fills a closed region up to the top and an open one to seventy-two hundredths,
/// and it is in the middle of what it fills.
pub proof fn lemma_occluders_leave_a_gap(o: Occluder, r: InteriorWaterRegion)
    requires
        occludes(o, r),
        r.bounds.max.x - r.bounds.min.x >= 600_000,
        r.bounds.max.y - r.bounds.min.y >= 1_000_000,
        r.bounds.max.z - r.bounds.min.z >= 600_000,
    ensures
        o.width == r.bounds.max.x - r.bounds.min.x - 400_000,
        o.depth == r.bounds.max.z - r.bounds.min.z - 400_000,
        r.source == WaterSource::Open ==> o.height_x100 == 72 * (r.bounds.max.y - r.bounds.min.y)
            - 40_000_000 && o.middle_x200 - 200 * r.bounds.min.y == 72 * (r.bounds.max.y
            - r.bounds.min.y),
        r.source != WaterSource::Open ==> o.height_x100 == 100 * (r.bounds.max.y - r.bounds.min.y)
            - 40_000_000 && o.middle_x200 == 100 * (r.bounds.min.y + r.bounds.max.y),
{
}

/// A hull floats exactly when its shell's lift, and that of the sea water that its cavity
/// holds out, is more than its weight; one without mass does not. It sits as deep as the
/// share of that lift that its weight uses up, rounded down to a millionth.
pub proof fn lemma_hulls_float_on_more_lift_than_weight(h: Hull)
    ensures
        h.mass is None || h.mass == Some(0u64) ==> !floating(h).0,
        h.mass is Some && h.mass->0 > 0 ==> ({
            let m = h.mass->0;
            let weight = 981_000 * m;
            let lift = 100_000 * h.shell_lift + 1_005_525 * (h.cavity_cells * h.cell_volume);
            let draft = floating(h).1;
            &&& floating(h).0 <==> lift > weight
            &&& floating(h).0 ==> draft * lift <= 1_000_000 * weight < (draft + 1) * lift
        }),
{
    if floating(h).0 {
        let w = weight_of(h.mass->0 as int);
        let l = lift_of(h);
        assert(0 <= h.cavity_cells * h.cell_volume) by (nonlinear_arith)
            requires
                h.cavity_cells >= 0,
                h.cell_volume >= 0,
        ;
        let volume = h.cavity_cells * h.cell_volume;
        assert(l == 100_000 * h.shell_lift + 1_005_525 * volume);
        let n = w * 1_000_000;
        vstd::arithmetic::div_mod::lemma_fundamental_div_mod(n, l);
        assert((n / l) * l == l * (n / l) && (n / l + 1) * l == l * (n / l) + l)
            by (nonlinear_arith);
    }
}

/// A hull that floats is said to float and one that does not is said to sink.
pub proof fn lemma_prediction_says_whether_it_floats(h: Hull)
    ensures
        prediction(h).len() > 5,
        floating(h).0 <==> prediction(h)[5] == 'F',
        !floating(h).0 <==> prediction(h)[5] == 'S',
{
    reveal_strlit("will FLOAT (draft ~");
    reveal_strlit("will SINK");
}

/// Each surface is raised in its own region, from that region's floor, and one without a
/// region is left.
pub proof fn lemma_surfaces_rise_in_their_own_region(
    slot: int,
    regions: Seq<InteriorWaterRegion>,
    flooded: Seq<u32>,
    open: u32,
    tanks: Seq<Tank>,
)
    ensures
        raised(slot, regions, flooded, open, tanks) is Some <==> 0 <= slot < regions.len(),
        raised(slot, regions, flooded, open, tanks) matches Some(w) ==> w.1 - w.0 == 2
            * regions[slot].bounds.min.y * 1_000_000,
        0 <= slot < regions.len() && regions[slot].source == WaterSource::Open && open <= 1_000_000
            ==> raised(slot, regions, flooded, open, tanks) == Some(
            water_column(
                regions[slot].bounds.min.y as int,
                regions[slot].bounds.max.y - regions[slot].bounds.min.y,
                open as int,
            ),
        ),
{
}

/// Every measure stands behind its own label in the float mode's readout.
pub proof fn lemma_the_float_readout_labels_its_measures(
    r: HarborReadout,
)
    ensures
        says(
            float_text(r),
            "harbor — Float (Enter: Build) — "@ + (if r.net_buoyancy < SINKING_BELOW { "SINKING"@ } else { "floating"@ }),
        ),
        says(
            float_text(r),
            "\nWASD: drive / steer   F/G: dive / surface   X: breach\ndraft:    "@ + shown(r.draft as int, (Field { width: 6, digits: 2, plus: false })),
        ),
        says(
            float_text(r),
            " m\nheel:     "@ + shown(r.heel as int, (Field { width: 6, digits: 1, plus: false })),
        ),
        says(
            float_text(r),
            " deg\nnet buoy: "@ + shown(r.net_buoyancy as int, (Field { width: 8, digits: 0, plus: false })),
        ),
        says(
            float_text(r),
            " N\nthrust:   "@ + shown(r.thrust as int, (Field { width: 8, digits: 0, plus: false })),
        ),
        says(
            float_text(r),
            " N   fuel:    "@ + shown(r.fuel * 100, (Field { width: 3, digits: 0, plus: false })),
        ),
        says(
            float_text(r),
            "%\nballast:  "@ + shown(r.ballast * 100, (Field { width: 3, digits: 0, plus: false })),
        ),
        says(
            float_text(r),
            "%   rudder: "@ + shown(r.rudder as int, (Field { width: 5, digits: 1, plus: false })),
        ),
        says(
            float_text(r),
            " deg\nflood:    "@ + shown(r.flood * 100, (Field { width: 3, digits: 0, plus: false })),
        ),
{
    let text = float_text(r);
    let t0 = "harbor — Float (Enter: Build) — "@;
    let t1 = (if r.net_buoyancy < SINKING_BELOW { "SINKING"@ } else { "floating"@ });
    let t2 = "\nWASD: drive / steer   F/G: dive / surface   X: breach\ndraft:    "@;
    let t3 = shown(r.draft as int, (Field { width: 6, digits: 2, plus: false }));
    let t4 = " m\nheel:     "@;
    let t5 = shown(r.heel as int, (Field { width: 6, digits: 1, plus: false }));
    let t6 = " deg\nnet buoy: "@;
    let t7 = shown(r.net_buoyancy as int, (Field { width: 8, digits: 0, plus: false }));
    let t8 = " N\nthrust:   "@;
    let t9 = shown(r.thrust as int, (Field { width: 8, digits: 0, plus: false }));
    let t10 = " N   fuel:    "@;
    let t11 = shown(r.fuel * 100, (Field { width: 3, digits: 0, plus: false }));
    let t12 = "%\nballast:  "@;
    let t13 = shown(r.ballast * 100, (Field { width: 3, digits: 0, plus: false }));
    let t14 = "%   rudder: "@;
    let t15 = shown(r.rudder as int, (Field { width: 5, digits: 1, plus: false }));
    let t16 = " deg\nflood:    "@;
    let t17 = shown(r.flood * 100, (Field { width: 3, digits: 0, plus: false }));
    let t18 = "%"@;
    let a1 = t0 + t1;
    lemma_says_itself(a1);
    let a2 = a1 + t2;
    lemma_says_on(a1, t2);
    let a3 = a2 + t3;
    lemma_says_on(a2, t3);
    lemma_says_its_end(a1, t2, t3);
    let a4 = a3 + t4;
    lemma_says_on(a3, t4);
    let a5 = a4 + t5;
    lemma_says_on(a4, t5);
    lemma_says_its_end(a3, t4, t5);
    let a6 = a5 + t6;
    lemma_says_on(a5, t6);
    let a7 = a6 + t7;
    lemma_says_on(a6, t7);
    lemma_says_its_end(a5, t6, t7);
    let a8 = a7 + t8;
    lemma_says_on(a7, t8);
    let a9 = a8 + t9;
    lemma_says_on(a8, t9);
    lemma_says_its_end(a7, t8, t9);
    let a10 = a9 + t10;
    lemma_says_on(a9, t10);
    let a11 = a10 + t11;
    lemma_says_on(a10, t11);
    lemma_says_its_end(a9, t10, t11);
    let a12 = a11 + t12;
    lemma_says_on(a11, t12);
    let a13 = a12 + t13;
    lemma_says_on(a12, t13);
    lemma_says_its_end(a11, t12, t13);
    let a14 = a13 + t14;
    lemma_says_on(a13, t14);
    let a15 = a14 + t15;
    lemma_says_on(a14, t15);
    lemma_says_its_end(a13, t14, t15);
    let a16 = a15 + t16;
    lemma_says_on(a15, t16);
    let a17 = a16 + t17;
    lemma_says_on(a16, t17);
    lemma_says_its_end(a15, t16, t17);
    let a18 = a17 + t18;
    lemma_says_on(a17, t18);
    assert(text == a18);
}

} // verus!
