//! What the editor draws over a build, and what the scenes of rooms draw, as lists
//! of marks.

use crate::editor::EditorState;
use crate::editor::Hovered;
use crate::rooms::by_height;
use crate::rooms::lemma_water_fills_from_none_to_all;
use crate::rooms::wet_cells;
use crate::rooms::wet_count;
use crate::rooms::Door;
use crate::voxel::cell_center;
use crate::voxel::center_of;
use crate::voxel::Cell;
use crate::voxel::Device;
use crate::voxel::Material;
use crate::voxel::Mount;
use crate::voxel::Part;
use crate::voxel::PartKind;
use crate::voxel::Voxel;
use crate::voxel::VoxelCraft;
use crate::voxel::MAX_CELL_SIZE_UM;
use vstd::prelude::*;

verus! {

/// What a mark is painted as.
#[derive(Clone, Copy, Debug, PartialEq, Eq, Structural)]
pub enum Paint {
    Material(Material),
    Device,
    Wheel,
    SteeredWheel,
    Strut,
    Cursor,
    FaintCursor,
    Highlight,
    Preview,
    Structure,
    ClosedDoor,
    /// A room, in one of the colours that rooms take turns in.
    Room { color: usize },
    Plating,
    Floodwater,
    CenterOfMass,
    Forward,
    /// A principal axis of inertia, in the colour of its place.
    InertiaAxis { color: usize },
    AreaCurve,
}

/// A mark: a cube whose side is a percentage of a cell, a ball, a line, or an arrow.
#[derive(Clone, Copy, Debug, PartialEq, Eq, Structural)]
pub enum Mark {
    Cube { center: Mount, side_percent: u32, paint: Paint },
    Ball { center: Mount, radius_nm: u64, paint: Paint },
    Line { from: Mount, to: Mount, paint: Paint },
    Arrow { from: Mount, to: Mount, paint: Paint },
}

/// A principal axis of inertia: its direction, in millionths, and the moment about
/// it, in a unit that the three axes of a craft share.
#[derive(Clone, Copy, Debug, PartialEq, Eq, Structural)]
pub struct PrincipalAxis {
    pub dx: i32,
    pub dy: i32,
    pub dz: i32,
    pub moment: u64,
}

/// How a craft balances: its centre of mass and its principal axes.
#[derive(Clone, Copy, Debug, PartialEq, Eq, Structural)]
pub struct Balance {
    pub com: Mount,
    pub first: PrincipalAxis,
    pub second: PrincipalAxis,
    pub third: PrincipalAxis,
}

/// What is derived from a craft: how it balances, if it weighs anything, and its
/// cross-sections from station to station, in one unit.
pub struct Derived {
    pub balance: Option<Balance>,
    pub areas: Vec<u64>,
}

/// How far from the origin a centre of mass can be drawn, in half micrometres.
pub const FARTHEST_COM: i64 = 0x4000_0000_0000_0000;

impl Balance {
    /// Whether the numbers that place the axes fit.
    pub open spec fn wf(self) -> bool {
        &&& -FARTHEST_COM <= self.com.x <= FARTHEST_COM
        &&& -FARTHEST_COM <= self.com.y <= FARTHEST_COM
        &&& -FARTHEST_COM <= self.com.z <= FARTHEST_COM
    }
}

impl Derived {
    /// Whether the numbers that place it all fit.
    pub open spec fn wf(self) -> bool {
        &&& self.balance matches Some(b) ==> b.wf()
        &&& self.areas@.len() <= u32::MAX
    }
}

/// The middle of a cell.
pub open spec fn middle(cell: Cell, cell_size: int) -> Mount {
    let c = center_of(cell, cell_size);
    Mount { x: c.0 as i64, y: c.1 as i64, z: c.2 as i64 }
}

/// A cube in a cell.
pub open spec fn cube_at(cell: Cell, cell_size: int, side_percent: u32, paint: Paint) -> Mark {
    Mark::Cube { center: middle(cell, cell_size), side_percent, paint }
}

/// A cube in a cell.
fn cube(cell: Cell, cell_size_um: u32, side_percent: u32, paint: Paint) -> (m: Mark)
    requires
        cell_size_um <= MAX_CELL_SIZE_UM,
    ensures
        m == cube_at(cell, cell_size_um as int, side_percent, paint),
{
    Mark::Cube { center: cell_center(cell, cell_size_um), side_percent, paint }
}

/// The paint of a wheel.
pub open spec fn wheel_paint(steer: bool) -> Paint {
    if steer {
        Paint::SteeredWheel
    } else {
        Paint::Wheel
    }
}

/// How a part is drawn: wheels and rims as balls of their size, struts as small
/// ones, other parts not at all.
pub open spec fn part_marks(p: Part, cell_size: int) -> Seq<Mark> {
    match p.kind {
        PartKind::Wheel(r) | PartKind::Rim(r) => seq![
            Mark::Ball { center: p.mount, radius_nm: r.radius_nm, paint: wheel_paint(r.steer) },
        ],
        PartKind::Suspension(_) => seq![
            Mark::Ball {
                center: p.mount,
                radius_nm: (400 * cell_size) as u64,
                paint: Paint::Strut,
            },
        ],
        _ => Seq::empty(),
    }
}

/// How parts are drawn.
pub open spec fn parts_marks(parts: Seq<Part>, cell_size: int) -> Seq<Mark>
    decreases parts.len(),
{
    if parts.len() == 0 {
        Seq::empty()
    } else {
        parts_marks(parts.drop_last(), cell_size) + part_marks(parts.last(), cell_size)
    }
}

/// The largest number up to `top` whose square, times `d`, is no more than `n`.
pub open spec fn root_of_share(n: int, d: int, top: nat) -> int
    decreases top,
{
    if top == 0 || top * top * d <= n {
        top as int
    } else {
        root_of_share(n, d, (top - 1) as nat)
    }
}

/// How long an axis is drawn, in millionths of the longest: the square root of its
/// share of the largest moment.
pub open spec fn length_share(moment: int, largest: int) -> int {
    root_of_share(moment * 1_000_000_000_000, largest, 1_000_000)
}

/// The larger of two numbers.
pub open spec fn larger(a: int, b: int) -> int {
    if a > b {
        a
    } else {
        b
    }
}

/// The largest moment of a craft, at least one.
pub open spec fn largest_moment(b: Balance) -> int {
    larger(larger(b.first.moment as int, b.second.moment as int), larger(b.third.moment as int, 1))
}

/// How far a line reaches along one coordinate: two and a half cells times its
/// share, in the direction `d`.
pub open spec fn reach(d: int, cell_size: int, share: int) -> int {
    if d >= 0 {
        d * (5 * cell_size) * share / 1_000_000_000_000
    } else {
        -((-d) * (5 * cell_size) * share / 1_000_000_000_000)
    }
}

/// The point that an axis reaches from the centre of mass, forward or back.
pub open spec fn tip(com: Mount, a: PrincipalAxis, cell_size: int, share: int, way: int) -> Mount {
    Mount {
        x: (com.x + way * reach(a.dx as int, cell_size, share)) as i64,
        y: (com.y + way * reach(a.dy as int, cell_size, share)) as i64,
        z: (com.z + way * reach(a.dz as int, cell_size, share)) as i64,
    }
}

/// How an axis is drawn: a line forward and a line back.
pub open spec fn axis_marks(
    com: Mount,
    a: PrincipalAxis,
    cell_size: int,
    largest: int,
    color: usize,
) -> Seq<Mark> {
    let share = length_share(a.moment as int, largest);
    let paint = Paint::InertiaAxis { color };
    seq![
        Mark::Line { from: com, to: tip(com, a, cell_size, share, 1), paint },
        Mark::Line { from: com, to: tip(com, a, cell_size, share, -1), paint },
    ]
}

/// The ball at a centre of mass.
pub open spec fn com_mark(com: Mount, cell_size: int) -> Mark {
    Mark::Ball { center: com, radius_nm: (300 * cell_size) as u64, paint: Paint::CenterOfMass }
}

/// The three axes of a balance.
pub open spec fn axes_marks(b: Balance, cell_size: int) -> Seq<Mark> {
    let most = largest_moment(b);
    axis_marks(b.com, b.first, cell_size, most, 0) + axis_marks(
        b.com,
        b.second,
        cell_size,
        most,
        1,
    ) + axis_marks(b.com, b.third, cell_size, most, 2)
}

/// How a balance is drawn: a ball at the centre of mass, then the three axes.
pub open spec fn balance_marks(balance: Option<Balance>, cell_size: int) -> Seq<Mark> {
    match balance {
        Some(b) => seq![com_mark(b.com, cell_size)] + axes_marks(b, cell_size),
        None => Seq::empty(),
    }
}

/// How long the arrow that points forward is: five cells, and a metre and a half at
/// least.
pub open spec fn forward_length(cell_size: int) -> int {
    larger(10 * cell_size, 3_000_000)
}

/// The arrow that points forward from a centre of mass.
pub open spec fn forward_mark(com: Mount, cell_size: int) -> Mark {
    Mark::Arrow {
        from: com,
        to: Mount { x: com.x, y: com.y, z: (com.z + forward_length(cell_size)) as i64 },
        paint: Paint::Forward,
    }
}

/// The largest cross-section, at least one.
pub open spec fn largest_area(areas: Seq<u64>) -> int
    decreases areas.len(),
{
    if areas.len() == 0 {
        1
    } else {
        larger(largest_area(areas.drop_last()), areas.last() as int)
    }
}

/// A point of the plot of the cross-sections, off to the side of the build: one
/// every six tenths of a metre, the largest three metres high.
pub open spec fn plot_point(areas: Seq<u64>, i: int) -> Mount {
    Mount {
        x: (1_200_000 * i - 8_000_000) as i64,
        y: (6_000_000 * areas[i] as int / largest_area(areas)) as i64,
        z: -4_000_000i64,
    }
}

/// The plot: a line from each point to the next.
pub open spec fn curve_marks(areas: Seq<u64>) -> Seq<Mark> {
    Seq::new(
        if areas.len() > 0 {
            (areas.len() - 1) as nat
        } else {
            0
        },
        |i: int|
            Mark::Line {
                from: plot_point(areas, i),
                to: plot_point(areas, i + 1),
                paint: Paint::AreaCurve,
            },
    )
}

/// The build itself: the voxels, the devices, the parts.
pub open spec fn build_marks(
    voxels: Seq<Voxel>,
    devices: Seq<Device>,
    parts: Seq<Part>,
    cell_size: int,
) -> Seq<Mark> {
    Seq::new(
        voxels.len(),
        |i: int| cube_at(voxels[i].cell, cell_size, 100, Paint::Material(voxels[i].material)),
    ) + Seq::new(
        devices.len(),
        |i: int| cube_at(devices[i].cell, cell_size, 60, Paint::Device),
    ) + parts_marks(parts, cell_size)
}

/// What the editor draws: the build, the cursor, and what is derived from the
/// build.
pub open spec fn editor_marks(
    voxels: Seq<Voxel>,
    devices: Seq<Device>,
    parts: Seq<Part>,
    cursor: Cell,
    balance: Option<Balance>,
    areas: Seq<u64>,
    cell_size: int,
) -> Seq<Mark> {
    build_marks(voxels, devices, parts, cell_size) + seq![
        cube_at(cursor, cell_size, 106, Paint::Cursor),
    ] + balance_marks(balance, cell_size) + curve_marks(areas)
}

/// A bound from both sides fixes the root.
proof fn lemma_root_of_share(n: int, d: int, top: nat, r: int)
    requires
        d > 0,
        0 <= r <= top,
        r * r * d <= n,
        r < top ==> n < (r + 1) * (r + 1) * d,
    ensures
        root_of_share(n, d, top) == r,
    decreases top,
{
    if r < top {
        assert((r + 1) * (r + 1) * d <= top * top * d) by (nonlinear_arith)
            requires
                0 <= r,
                r + 1 <= top,
                d > 0,
        ;
        lemma_root_of_share(n, d, (top - 1) as nat, r);
    }
}

/// How long an axis is drawn.
fn drawn_share(moment: u64, largest: u64) -> (r: u32)
    requires
        1 <= largest,
    ensures
        r == length_share(moment as int, largest as int),
        r <= 1_000_000,
{
    let n: u128 = moment as u128 * 1_000_000_000_000;
    let d: u128 = largest as u128;
    let mut lo: u128 = 0;
    let mut hi: u128 = 1_000_001;
    assert(0 * 0 * d == 0) by (nonlinear_arith);
    while lo + 1 < hi
        invariant
            lo < hi <= 1_000_001,
            1 <= d <= u64::MAX,
            lo * lo * d <= n,
            hi <= 1_000_000 ==> n < hi * hi * d,
        decreases hi - lo,
    {
        let mid: u128 = (lo + hi) / 2;
        assert(0 <= mid * mid <= 1_000_000 * 1_000_000) by (nonlinear_arith)
            requires
                0 <= mid <= 1_000_000,
        ;
        assert(mid * mid * d <= 1_000_000_000_000 * u64::MAX) by (nonlinear_arith)
            requires
                0 <= mid * mid <= 1_000_000_000_000,
                0 <= d <= u64::MAX,
        ;
        if mid * mid * d <= n {
            lo = mid;
        } else {
            hi = mid;
        }
    }
    proof {
        lemma_root_of_share(n as int, d as int, 1_000_000, lo as int);
    }
    lo as u32
}

/// How far a line reaches along one coordinate.
fn reached(d: i32, cell_size_um: u32, share: u32) -> (r: i64)
    requires
        cell_size_um <= MAX_CELL_SIZE_UM,
        share <= 1_000_000,
    ensures
        r == reach(d as int, cell_size_um as int, share as int),
        -0x1_0000_0000_0000 <= r <= 0x1_0000_0000_0000,
{
    let size: i128 = if d >= 0 {
        d as i128
    } else {
        -(d as i128)
    };
    let most: i128 = 5 * cell_size_um as i128;
    let part: i128 = share as i128;
    assert(0 <= size * most <= 0x8000_0000 * (5 * 0x7fff_ffff)) by (nonlinear_arith)
        requires
            0 <= size <= 0x8000_0000,
            0 <= most <= 5 * 0x7fff_ffff,
    ;
    let span: i128 = size * most;
    assert(0 <= span * part <= 0x8000_0000 * (5 * 0x7fff_ffff) * 1_000_000) by (nonlinear_arith)
        requires
            0 <= span <= 0x8000_0000 * (5 * 0x7fff_ffff),
            0 <= part <= 1_000_000,
    ;
    let q: i64 = (span * part / 1_000_000_000_000) as i64;
    if d >= 0 {
        q
    } else {
        -q
    }
}

/// Draws an axis.
fn push_axis(
    out: &mut Vec<Mark>,
    com: Mount,
    a: PrincipalAxis,
    cell_size_um: u32,
    largest: u64,
    color: usize,
)
    requires
        cell_size_um <= MAX_CELL_SIZE_UM,
        1 <= largest,
        -FARTHEST_COM <= com.x <= FARTHEST_COM,
        -FARTHEST_COM <= com.y <= FARTHEST_COM,
        -FARTHEST_COM <= com.z <= FARTHEST_COM,
    ensures
        final(out)@ == old(out)@ + axis_marks(
            com,
            a,
            cell_size_um as int,
            largest as int,
            color,
        ),
{
    let ghost before = out@;
    let share: u32 = drawn_share(a.moment, largest);
    let x: i64 = reached(a.dx, cell_size_um, share);
    let y: i64 = reached(a.dy, cell_size_um, share);
    let z: i64 = reached(a.dz, cell_size_um, share);
    let paint: Paint = Paint::InertiaAxis { color };
    let ahead: Mount = Mount { x: com.x + x, y: com.y + y, z: com.z + z };
    let behind: Mount = Mount { x: com.x - x, y: com.y - y, z: com.z - z };
    out.push(Mark::Line { from: com, to: ahead, paint });
    out.push(Mark::Line { from: com, to: behind, paint });
    assert(out@ =~= before + axis_marks(com, a, cell_size_um as int, largest as int, color));
}

/// The ball at a centre of mass.
fn com_ball(com: Mount, cell_size_um: u32) -> (m: Mark)
    ensures
        m == com_mark(com, cell_size_um as int),
{
    Mark::Ball { center: com, radius_nm: 300 * cell_size_um as u64, paint: Paint::CenterOfMass }
}

/// Draws the three axes of a balance.
fn push_axes(out: &mut Vec<Mark>, b: &Balance, cell_size_um: u32)
    requires
        b.wf(),
        cell_size_um <= MAX_CELL_SIZE_UM,
    ensures
        final(out)@ == old(out)@ + axes_marks(*b, cell_size_um as int),
{
    let ghost before = out@;
    let mut most: u64 = 1;
    if b.first.moment > most {
        most = b.first.moment;
    }
    if b.second.moment > most {
        most = b.second.moment;
    }
    if b.third.moment > most {
        most = b.third.moment;
    }
    assert(most == largest_moment(*b));
    push_axis(out, b.com, b.first, cell_size_um, most, 0);
    push_axis(out, b.com, b.second, cell_size_um, most, 1);
    push_axis(out, b.com, b.third, cell_size_um, most, 2);
    assert(out@ =~= before + axes_marks(*b, cell_size_um as int));
}

/// The arrow that points forward.
fn forward_arrow(com: Mount, cell_size_um: u32) -> (m: Mark)
    requires
        cell_size_um <= MAX_CELL_SIZE_UM,
        com.z <= FARTHEST_COM,
    ensures
        m == forward_mark(com, cell_size_um as int),
{
    let five: i64 = 10 * cell_size_um as i64;
    let length: i64 = if five > 3_000_000 {
        five
    } else {
        3_000_000
    };
    Mark::Arrow {
        from: com,
        to: Mount { x: com.x, y: com.y, z: com.z + length },
        paint: Paint::Forward,
    }
}

/// No cross-section is larger than the largest.
proof fn lemma_largest_area(areas: Seq<u64>)
    ensures
        1 <= largest_area(areas) <= u64::MAX,
        forall|i: int| 0 <= i < areas.len() ==> #[trigger] areas[i] <= largest_area(areas),
    decreases areas.len(),
{
    if areas.len() > 0 {
        let front = areas.drop_last();
        lemma_largest_area(front);
        assert forall|i: int| 0 <= i < areas.len() implies #[trigger] areas[i] <= largest_area(
            areas,
        ) by {
            if i < front.len() {
                assert(front[i] == areas[i]);
            }
        }
    }
}

/// A cross-section's height in the plot is within its three metres.
proof fn lemma_plot_height(area: int, most: int)
    requires
        0 <= area <= most,
        1 <= most,
    ensures
        0 <= 6_000_000 * area / most <= 6_000_000,
{
    assert(0 <= 6_000_000 * area / most <= 6_000_000) by (nonlinear_arith)
        requires
            0 <= area <= most,
            1 <= most,
    ;
}

/// A point of the plot.
fn plotted(areas: &Vec<u64>, i: usize, most: u64) -> (p: Mount)
    requires
        i < areas@.len() <= u32::MAX,
        most == largest_area(areas@),
    ensures
        p == plot_point(areas@, i as int),
{
    proof {
        lemma_largest_area(areas@);
        lemma_plot_height(areas@[i as int] as int, most as int);
    }
    let height: u128 = 6_000_000 * areas[i] as u128 / most as u128;
    Mount { x: 1_200_000 * i as i64 - 8_000_000, y: height as i64, z: -4_000_000 }
}

/// Draws the plot of the cross-sections.
fn push_curve(out: &mut Vec<Mark>, areas: &Vec<u64>)
    requires
        areas@.len() <= u32::MAX,
    ensures
        final(out)@ == old(out)@ + curve_marks(areas@),
{
    let ghost before = out@;
    let ghost all = areas@;
    let mut most: u64 = 1;
    let mut i: usize = 0;
    assert(all.take(0) =~= Seq::<u64>::empty());
    while i < areas.len()
        invariant
            i <= all.len(),
            all == areas@,
            most == largest_area(all.take(i as int)),
        decreases areas.len() - i,
    {
        assert(all.take(i + 1).drop_last() =~= all.take(i as int));
        assert(all.take(i + 1).last() == all[i as int]);
        if areas[i] > most {
            most = areas[i];
        }
        i += 1;
    }
    assert(all.take(i as int) =~= all);
    let ghost marks = curve_marks(all);
    let mut j: usize = 1;
    assert(out@ =~= before + marks.take(0));
    while j < areas.len()
        invariant
            1 <= j,
            all == areas@,
            all.len() <= u32::MAX,
            j <= all.len() || all.len() == 0 && j == 1,
            most == largest_area(all),
            marks == curve_marks(all),
            out@ == before + marks.take(j - 1),
        decreases areas.len() - j,
    {
        let from: Mount = plotted(areas, j - 1, most);
        let to: Mount = plotted(areas, j, most);
        out.push(Mark::Line { from, to, paint: Paint::AreaCurve });
        j += 1;
        assert(out@ =~= before + marks.take(j - 1));
    }
    assert(marks.take(j - 1) =~= marks);
}

/// Draws the editor's craft, its cursor, and what is derived from the craft.
pub fn draw_editor(state: &EditorState, derived: &Derived) -> (out: Vec<Mark>)
    requires
        state@.wf(),
        derived.wf(),
    ensures
        out@ == editor_marks(
            state@.craft.voxels,
            state@.craft.devices,
            state@.craft.parts,
            state@.cursor,
            derived.balance,
            derived.areas@,
            state@.craft.cell_size,
        ),
{
    let s: u32 = state.craft.cell_size_um;
    let ghost voxels = state.craft.voxels@;
    let ghost devices = state.craft.devices@;
    let ghost parts = state.craft.parts@;
    let ghost size = s as int;
    let ghost solid = Seq::new(
        voxels.len(),
        |i: int| cube_at(voxels[i].cell, size, 100, Paint::Material(voxels[i].material)),
    );
    let ghost gear = Seq::new(
        devices.len(),
        |i: int| cube_at(devices[i].cell, size, 60, Paint::Device),
    );
    let mut out: Vec<Mark> = Vec::new();
    let mut i: usize = 0;
    while i < state.craft.voxels.len()
        invariant
            i <= voxels.len(),
            voxels == state.craft.voxels@,
            size == s,
            s <= MAX_CELL_SIZE_UM,
            solid == Seq::new(
                voxels.len(),
                |i: int| cube_at(voxels[i].cell, size, 100, Paint::Material(voxels[i].material)),
            ),
            out@ == solid.take(i as int),
        decreases state.craft.voxels.len() - i,
    {
        let v: Voxel = state.craft.voxels[i];
        out.push(cube(v.cell, s, 100, Paint::Material(v.material)));
        i += 1;
        assert(out@ =~= solid.take(i as int));
    }
    assert(out@ =~= solid + gear.take(0));
    let mut j: usize = 0;
    while j < state.craft.devices.len()
        invariant
            j <= devices.len(),
            devices == state.craft.devices@,
            size == s,
            s <= MAX_CELL_SIZE_UM,
            gear == Seq::new(
                devices.len(),
                |i: int| cube_at(devices[i].cell, size, 60, Paint::Device),
            ),
            out@ == solid + gear.take(j as int),
        decreases state.craft.devices.len() - j,
    {
        let d: Device = state.craft.devices[j];
        out.push(cube(d.cell, s, 60, Paint::Device));
        j += 1;
        assert(out@ =~= solid + gear.take(j as int));
    }
    assert(gear.take(j as int) =~= gear);
    let ghost head = out@;
    let mut k: usize = 0;
    assert(parts.take(0) =~= Seq::<Part>::empty());
    assert(out@ =~= head + parts_marks(parts.take(0), size));
    while k < state.craft.parts.len()
        invariant
            k <= parts.len(),
            parts == state.craft.parts@,
            size == s,
            s <= MAX_CELL_SIZE_UM,
            out@ == head + parts_marks(parts.take(k as int), size),
        decreases state.craft.parts.len() - k,
    {
        assert(parts.take(k + 1).drop_last() =~= parts.take(k as int));
        assert(parts.take(k + 1).last() == parts[k as int]);
        let p: Part = state.craft.parts[k];
        match p.kind {
            PartKind::Wheel(r) | PartKind::Rim(r) => {
                let paint: Paint = if r.steer {
                    Paint::SteeredWheel
                } else {
                    Paint::Wheel
                };
                out.push(Mark::Ball { center: p.mount, radius_nm: r.radius_nm, paint });
            },
            PartKind::Suspension(_) => {
                out.push(
                    Mark::Ball {
                        center: p.mount,
                        radius_nm: 400 * s as u64,
                        paint: Paint::Strut,
                    },
                );
            },
            _ => {},
        }
        k += 1;
        assert(out@ =~= head + parts_marks(parts.take(k as int), size));
    }
    assert(parts.take(k as int) =~= parts);
    assert(out@ =~= build_marks(voxels, devices, parts, size));
    let ghost build = out@;
    out.push(cube(state.cursor, s, 106, Paint::Cursor));
    assert(out@ =~= build + seq![cube_at(state.cursor, size, 106, Paint::Cursor)]);
    match &derived.balance {
        Some(b) => {
            let ghost drawn = out@;
            out.push(com_ball(b.com, s));
            push_axes(&mut out, b, s);
            assert(out@ =~= drawn + balance_marks(derived.balance, size));
        },
        None => {
            assert(out@ =~= out@ + balance_marks(derived.balance, size));
        },
    }
    push_curve(&mut out, &derived.areas);
    out
}

/// What is drawn over a build: a faint cursor; the cell under the pointer, and a
/// preview where a click would add; then the centre of mass, the way forward and the
/// axes.
pub open spec fn overlay_marks(
    cursor: Cell,
    hover: Option<Hovered>,
    balance: Option<Balance>,
    cell_size: int,
) -> Seq<Mark> {
    seq![cube_at(cursor, cell_size, 104, Paint::FaintCursor)] + (match hover {
        Some(h) => seq![
            cube_at(h.highlight, cell_size, 108, Paint::Highlight),
            cube_at(h.add_cell, cell_size, 94, Paint::Preview),
        ],
        None => Seq::empty(),
    }) + (match balance {
        Some(b) => seq![com_mark(b.com, cell_size), forward_mark(b.com, cell_size)] + axes_marks(
            b,
            cell_size,
        ),
        None => Seq::empty(),
    })
}

/// What is drawn over a build.
pub fn draw_build_overlays(
    state: &EditorState,
    hover: &Option<Hovered>,
    balance: &Option<Balance>,
) -> (out: Vec<Mark>)
    requires
        state@.wf(),
        balance matches Some(b) ==> b.wf(),
    ensures
        out@ == overlay_marks(state@.cursor, *hover, *balance, state@.craft.cell_size),
{
    let s: u32 = state.craft.cell_size_um;
    let mut out: Vec<Mark> = Vec::new();
    out.push(cube(state.cursor, s, 104, Paint::FaintCursor));
    if let Some(h) = hover {
        out.push(cube(h.highlight, s, 108, Paint::Highlight));
        out.push(cube(h.add_cell, s, 94, Paint::Preview));
    }
    assert(out@ =~= overlay_marks(state@.cursor, *hover, None, s as int));
    if let Some(b) = balance {
        let ghost drawn = out@;
        out.push(com_ball(b.com, s));
        out.push(forward_arrow(b.com, s));
        push_axes(&mut out, b, s);
        assert(out@ =~= drawn + (seq![com_mark(b.com, s as int), forward_mark(b.com, s as int)]
            + axes_marks(*b, s as int)));
    }
    assert(out@ =~= overlay_marks(state@.cursor, *hover, *balance, s as int));
    out
}

/// The cursor is always drawn, right over the build, and what follows it is derived:
/// nothing more where the craft weighs nothing and has no cross-sections.
pub proof fn lemma_cursor_is_drawn_over_the_build(
    voxels: Seq<Voxel>,
    devices: Seq<Device>,
    parts: Seq<Part>,
    cursor: Cell,
    balance: Option<Balance>,
    areas: Seq<u64>,
    cell_size: int,
)
    ensures
        ({
            let build = build_marks(voxels, devices, parts, cell_size);
            let m = editor_marks(voxels, devices, parts, cursor, balance, areas, cell_size);
            &&& m.len() > build.len() >= voxels.len() + devices.len()
            &&& m.take(build.len() as int) == build
            &&& m[build.len() as int] == cube_at(cursor, cell_size, 106, Paint::Cursor)
            &&& balance is None && areas.len() <= 1 ==> m.len() == build.len() + 1
        }),
{
    let build = build_marks(voxels, devices, parts, cell_size);
    let m = editor_marks(voxels, devices, parts, cursor, balance, areas, cell_size);
    assert(m.take(build.len() as int) =~= build);
}

/// The axis with the largest moment is drawn at its full length, and no axis is
/// drawn longer.
pub proof fn lemma_largest_moment_is_drawn_longest(moment: int, largest: int)
    requires
        0 <= moment <= largest,
        1 <= largest,
    ensures
        0 <= length_share(moment, largest) <= 1_000_000,
        moment == largest ==> length_share(moment, largest) == 1_000_000,
        moment == 0 ==> length_share(moment, largest) == 0,
{
    lemma_root_is_bounded(moment * 1_000_000_000_000, largest, 1_000_000);
    if moment == largest {
        let n = moment * 1_000_000_000_000;
        assert(1_000_000 * 1_000_000 * largest == n) by (nonlinear_arith)
            requires
                n == largest * 1_000_000_000_000,
        ;
        lemma_root_of_share(n, largest, 1_000_000, 1_000_000);
    }
    if moment == 0 {
        assert(0 * 0 * largest == 0 && (0 + 1) * (0 + 1) * largest == largest) by (nonlinear_arith);
        lemma_root_of_share(0, largest, 1_000_000, 0);
    }
}

/// A root lies between nothing and its top.
proof fn lemma_root_is_bounded(n: int, d: int, top: nat)
    ensures
        0 <= root_of_share(n, d, top) <= top,
    decreases top,
{
    if top > 0 {
        lemma_root_is_bounded(n, d, (top - 1) as nat);
    }
}

/// The plot stays within its three metres, and the largest cross-section reaches
/// their end.
pub proof fn lemma_plot_fits_its_height(areas: Seq<u64>, i: int)
    requires
        0 <= i < areas.len(),
    ensures
        0 <= plot_point(areas, i).y <= 6_000_000,
        areas[i] == largest_area(areas) ==> plot_point(areas, i).y == 6_000_000,
{
    lemma_largest_area(areas);
    let most = largest_area(areas);
    lemma_plot_height(areas[i] as int, most);
    if areas[i] == most {
        assert(6_000_000 * most / most == 6_000_000) by (nonlinear_arith)
            requires
                1 <= most,
        ;
    }
}

/// The cubes of voxels, all in one paint.
pub open spec fn voxel_cubes(voxels: Seq<Voxel>, cell_size: int, paint: Paint) -> Seq<Mark> {
    Seq::new(voxels.len(), |i: int| cube_at(voxels[i].cell, cell_size, 100, paint))
}

/// The cubes of cells, all in one paint and of one size.
pub open spec fn cell_cubes(
    cells: Seq<Cell>,
    cell_size: int,
    side_percent: u32,
    paint: Paint,
) -> Seq<Mark> {
    Seq::new(cells.len(), |i: int| cube_at(cells[i], cell_size, side_percent, paint))
}

/// Draws voxels, all in one paint.
fn push_voxels(out: &mut Vec<Mark>, voxels: &Vec<Voxel>, cell_size_um: u32, paint: Paint)
    requires
        cell_size_um <= MAX_CELL_SIZE_UM,
    ensures
        final(out)@ == old(out)@ + voxel_cubes(voxels@, cell_size_um as int, paint),
{
    let ghost before = out@;
    let ghost all = voxel_cubes(voxels@, cell_size_um as int, paint);
    let mut i: usize = 0;
    assert(out@ =~= before + all.take(0));
    while i < voxels.len()
        invariant
            i <= voxels@.len(),
            cell_size_um <= MAX_CELL_SIZE_UM,
            all == voxel_cubes(voxels@, cell_size_um as int, paint),
            out@ == before + all.take(i as int),
        decreases voxels.len() - i,
    {
        out.push(cube(voxels[i].cell, cell_size_um, 100, paint));
        i += 1;
        assert(out@ =~= before + all.take(i as int));
    }
    assert(all.take(i as int) =~= all);
}

/// Draws cells, all in one paint and of one size.
fn push_cells(
    out: &mut Vec<Mark>,
    cells: &Vec<Cell>,
    cell_size_um: u32,
    side_percent: u32,
    paint: Paint,
)
    requires
        cell_size_um <= MAX_CELL_SIZE_UM,
    ensures
        final(out)@ == old(out)@ + cell_cubes(cells@, cell_size_um as int, side_percent, paint),
{
    let ghost before = out@;
    let ghost all = cell_cubes(cells@, cell_size_um as int, side_percent, paint);
    let mut i: usize = 0;
    assert(out@ =~= before + all.take(0));
    while i < cells.len()
        invariant
            i <= cells@.len(),
            cell_size_um <= MAX_CELL_SIZE_UM,
            all == cell_cubes(cells@, cell_size_um as int, side_percent, paint),
            out@ == before + all.take(i as int),
        decreases cells.len() - i,
    {
        out.push(cube(cells[i], cell_size_um, side_percent, paint));
        i += 1;
        assert(out@ =~= before + all.take(i as int));
    }
    assert(all.take(i as int) =~= all);
}

/// The doors that are drawn: the closed ones.
pub open spec fn door_cubes(doors: Seq<Door>, cell_size: int) -> Seq<Mark>
    decreases doors.len(),
{
    if doors.len() == 0 {
        Seq::empty()
    } else {
        let d = doors.last();
        door_cubes(doors.drop_last(), cell_size) + (if d.open {
            Seq::empty()
        } else {
            seq![cube_at(d.cell, cell_size, 100, Paint::ClosedDoor)]
        })
    }
}

/// How many colours rooms take turns in.
pub const ROOM_COLORS: usize = 4;

/// The rooms' cells, smaller than their walls, in a colour for each room.
pub open spec fn room_cubes(rooms: Seq<Vec<Cell>>, cell_size: int) -> Seq<Mark>
    decreases rooms.len(),
{
    if rooms.len() == 0 {
        Seq::empty()
    } else {
        let k = rooms.len() - 1;
        room_cubes(rooms.drop_last(), cell_size) + cell_cubes(
            rooms.last()@,
            cell_size,
            70,
            Paint::Room { color: (k % ROOM_COLORS as int) as usize },
        )
    }
}

/// What the compartments scene shows: the structure, the closed doors, the rooms.
pub open spec fn compartments_marks(
    voxels: Seq<Voxel>,
    doors: Seq<Door>,
    rooms: Seq<Vec<Cell>>,
    cell_size: int,
) -> Seq<Mark> {
    voxel_cubes(voxels, cell_size, Paint::Structure) + door_cubes(doors, cell_size) + room_cubes(
        rooms,
        cell_size,
    )
}

/// Draws the compartments scene: the structure, the closed doors, the rooms.
pub fn draw_compartments(
    craft: &VoxelCraft,
    doors: &Vec<Door>,
    rooms: &Vec<Vec<Cell>>,
) -> (out: Vec<Mark>)
    requires
        craft.cell_size_um <= MAX_CELL_SIZE_UM,
    ensures
        out@ == voxel_cubes(craft@.voxels, craft@.cell_size, Paint::Structure) + door_cubes(
            doors@,
            craft@.cell_size,
        ) + room_cubes(rooms@, craft@.cell_size),
        out@ == compartments_marks(craft@.voxels, doors@, rooms@, craft@.cell_size),
{
    let s: u32 = craft.cell_size_um;
    let mut out: Vec<Mark> = Vec::new();
    push_voxels(&mut out, &craft.voxels, s, Paint::Structure);
    let ghost walls = out@;
    assert(walls =~= voxel_cubes(craft@.voxels, craft@.cell_size, Paint::Structure));
    let mut i: usize = 0;
    assert(doors@.take(0) =~= Seq::<Door>::empty());
    assert(out@ =~= walls + door_cubes(doors@.take(0), s as int));
    while i < doors.len()
        invariant
            i <= doors@.len(),
            s <= MAX_CELL_SIZE_UM,
            out@ == walls + door_cubes(doors@.take(i as int), s as int),
        decreases doors.len() - i,
    {
        assert(doors@.take(i + 1).drop_last() =~= doors@.take(i as int));
        assert(doors@.take(i + 1).last() == doors@[i as int]);
        if !doors[i].open {
            out.push(cube(doors[i].cell, s, 100, Paint::ClosedDoor));
        }
        i += 1;
        assert(out@ =~= walls + door_cubes(doors@.take(i as int), s as int));
    }
    assert(doors@.take(i as int) =~= doors@);
    let ghost shut = out@;
    let mut k: usize = 0;
    assert(rooms@.take(0) =~= Seq::<Vec<Cell>>::empty());
    assert(out@ =~= shut + room_cubes(rooms@.take(0), s as int));
    while k < rooms.len()
        invariant
            k <= rooms@.len(),
            s <= MAX_CELL_SIZE_UM,
            out@ == shut + room_cubes(rooms@.take(k as int), s as int),
        decreases rooms.len() - k,
    {
        assert(rooms@.take(k + 1).drop_last() =~= rooms@.take(k as int));
        assert(rooms@.take(k + 1).last() == rooms@[k as int]);
        push_cells(&mut out, &rooms[k], s, 70, Paint::Room { color: k % ROOM_COLORS });
        k += 1;
        assert(out@ =~= shut + room_cubes(rooms@.take(k as int), s as int));
    }
    assert(rooms@.take(k as int) =~= rooms@);
    out
}

/// The water in the first `n` rooms.
pub open spec fn water_cubes(
    rooms: Seq<Vec<Cell>>,
    flooded: Seq<u32>,
    n: int,
    cell_size: int,
) -> Seq<Mark>
    decreases n,
{
    if n <= 0 {
        Seq::empty()
    } else {
        water_cubes(rooms, flooded, n - 1, cell_size) + cell_cubes(
            by_height(rooms[n - 1]@).take(
                wet_count(rooms[n - 1]@.len() as int, flooded[n - 1] as int),
            ),
            cell_size,
            85,
            Paint::Floodwater,
        )
    }
}

/// What the flooding scene shows: the hull, and in each room whose flooding is known the cells
/// that hold water.
pub open spec fn flooding_marks(
    voxels: Seq<Voxel>,
    rooms: Seq<Vec<Cell>>,
    flooded: Seq<u32>,
    cell_size: int,
) -> Seq<Mark> {
    voxel_cubes(voxels, cell_size, Paint::Plating) + water_cubes(
        rooms,
        flooded,
        if rooms.len() < flooded.len() {
            rooms.len() as int
        } else {
            flooded.len() as int
        },
        cell_size,
    )
}

/// Draws the flooding scene: the hull, and in each room the cells that hold
/// water. Each room's flooding is in millionths.
pub fn draw_flooding(
    craft: &VoxelCraft,
    rooms: &Vec<Vec<Cell>>,
    flooded: &Vec<u32>,
) -> (out: Vec<Mark>)
    requires
        craft.cell_size_um <= MAX_CELL_SIZE_UM,
    ensures
        out@ == voxel_cubes(craft@.voxels, craft@.cell_size, Paint::Plating) + water_cubes(
            rooms@,
            flooded@,
            if rooms@.len() < flooded@.len() {
                rooms@.len() as int
            } else {
                flooded@.len() as int
            },
            craft@.cell_size,
        ),
        out@ == flooding_marks(craft@.voxels, rooms@, flooded@, craft@.cell_size),
{
    let s: u32 = craft.cell_size_um;
    let mut out: Vec<Mark> = Vec::new();
    push_voxels(&mut out, &craft.voxels, s, Paint::Plating);
    let ghost hull = out@;
    assert(hull =~= voxel_cubes(craft@.voxels, craft@.cell_size, Paint::Plating));
    let n: usize = if rooms.len() < flooded.len() {
        rooms.len()
    } else {
        flooded.len()
    };
    let mut i: usize = 0;
    assert(out@ =~= hull + water_cubes(rooms@, flooded@, 0, s as int));
    while i < n
        invariant
            i <= n,
            n <= rooms@.len(),
            n <= flooded@.len(),
            s <= MAX_CELL_SIZE_UM,
            out@ == hull + water_cubes(rooms@, flooded@, i as int, s as int),
        decreases n - i,
    {
        let wet_now: Vec<Cell> = wet_cells(&rooms[i], flooded[i]);
        push_cells(&mut out, &wet_now, s, 85, Paint::Floodwater);
        i += 1;
        assert(out@ =~= hull + water_cubes(rooms@, flooded@, i as int, s as int));
    }
    out
}

/// A dry hull shows no water.
pub proof fn lemma_dry_rooms_show_no_water(
    rooms: Seq<Vec<Cell>>,
    flooded: Seq<u32>,
    n: int,
    cell_size: int,
)
    requires
        n <= rooms.len(),
        n <= flooded.len(),
        forall|i: int| 0 <= i < n ==> #[trigger] flooded[i] == 0,
    ensures
        water_cubes(rooms, flooded, n, cell_size).len() == 0,
    decreases n,
{
    if n > 0 {
        lemma_dry_rooms_show_no_water(rooms, flooded, n - 1, cell_size);
        assert(flooded[n - 1] == 0);
        lemma_water_fills_from_none_to_all(rooms[n - 1]@.len() as int);
    }
}

/// Every voxel is drawn as a full cube at the middle of its own cell, in its own material,
/// and every device as a smaller one at the middle of its own.
pub proof fn lemma_the_build_is_drawn_where_it_is(
    voxels: Seq<Voxel>,
    devices: Seq<Device>,
    parts: Seq<Part>,
    cell_size: int,
    i: int,
)
    requires
        0 <= cell_size <= MAX_CELL_SIZE_UM,
    ensures
        0 <= i < voxels.len() ==> (build_marks(voxels, devices, parts, cell_size)[i] matches Mark::Cube {
            center,
            side_percent,
            paint,
        } && side_percent == 100 && paint == Paint::Material(voxels[i].material) && center.x == (2
            * voxels[i].cell.x + 1) * cell_size && center.y == (2 * voxels[i].cell.y + 1)
            * cell_size && center.z == (2 * voxels[i].cell.z + 1) * cell_size),
        0 <= i < devices.len() ==> (build_marks(voxels, devices, parts, cell_size)[voxels.len()
            + i] matches Mark::Cube { center, side_percent, paint } && side_percent == 60 && paint
            == Paint::Device && center.x == (2 * devices[i].cell.x + 1) * cell_size && center.y
            == (2 * devices[i].cell.y + 1) * cell_size && center.z == (2 * devices[i].cell.z + 1)
            * cell_size),
{
    if 0 <= i < voxels.len() {
        lemma_middle_fits(voxels[i].cell, cell_size);
    }
    if 0 <= i < devices.len() {
        lemma_middle_fits(devices[i].cell, cell_size);
    }
}

/// The middle of a cell is a machine number, half a cell from its corner along each axis.
proof fn lemma_middle_fits(c: Cell, s: int)
    requires
        0 <= s <= MAX_CELL_SIZE_UM,
    ensures
        middle(c, s).x == (2 * c.x + 1) * s,
        middle(c, s).y == (2 * c.y + 1) * s,
        middle(c, s).z == (2 * c.z + 1) * s,
{
    let (kx, ky, kz) = (2 * c.x + 1, 2 * c.y + 1, 2 * c.z + 1);
    assert(-0x7fff_ffff_ffff_ffff <= kx * s <= 0x7fff_ffff_ffff_ffff) by (nonlinear_arith)
        requires
            -0xffff_ffff <= kx <= 0xffff_ffff,
            0 <= s <= 0x7fff_ffff,
    ;
    assert(-0x7fff_ffff_ffff_ffff <= ky * s <= 0x7fff_ffff_ffff_ffff) by (nonlinear_arith)
        requires
            -0xffff_ffff <= ky <= 0xffff_ffff,
            0 <= s <= 0x7fff_ffff,
    ;
    assert(-0x7fff_ffff_ffff_ffff <= kz * s <= 0x7fff_ffff_ffff_ffff) by (nonlinear_arith)
        requires
            -0xffff_ffff <= kz <= 0xffff_ffff,
            0 <= s <= 0x7fff_ffff,
    ;
}

/// The cursor's cube, and the cubes over a hovered cell, are at the middle of their cells.
/// Over a build the pointer's cell is highlighted and the place of the next voxel previewed.
pub proof fn lemma_the_pointer_is_shown(
    cursor: Cell,
    h: Hovered,
    balance: Option<Balance>,
    cell_size: int,
)
    requires
        0 <= cell_size <= MAX_CELL_SIZE_UM,
    ensures
        ({
            let m = overlay_marks(cursor, Some(h), balance, cell_size);
            &&& m.len() >= 3
            &&& (m[0] matches Mark::Cube { center, paint, .. } && paint == Paint::FaintCursor
                && center.x == (2 * cursor.x + 1) * cell_size && center.y == (2 * cursor.y + 1)
                * cell_size && center.z == (2 * cursor.z + 1) * cell_size)
            &&& (m[1] matches Mark::Cube { center, paint, .. } && paint == Paint::Highlight
                && center.x == (2 * h.highlight.x + 1) * cell_size && center.y == (2
                * h.highlight.y + 1) * cell_size && center.z == (2 * h.highlight.z + 1)
                * cell_size)
            &&& (m[2] matches Mark::Cube { center, paint, .. } && paint == Paint::Preview
                && center.x == (2 * h.add_cell.x + 1) * cell_size && center.y == (2 * h.add_cell.y
                + 1) * cell_size && center.z == (2 * h.add_cell.z + 1) * cell_size)
            &&& m.len() == (if balance is Some {
                11int
            } else {
                3
            })
        }),
        overlay_marks(cursor, None, None, cell_size).len() == 1,
{
    lemma_middle_fits(cursor, cell_size);
    lemma_middle_fits(h.highlight, cell_size);
    lemma_middle_fits(h.add_cell, cell_size);
}

/// A wheel is drawn as a ball of its own radius at its mount, told apart if it steers, a
/// strut as a small one, and no other part is drawn.
pub proof fn lemma_parts_are_drawn_at_their_mounts(p: Part, cell_size: int)
    requires
        0 <= cell_size <= MAX_CELL_SIZE_UM,
    ensures
        ({
            let m = part_marks(p, cell_size);
            let wheel = p.kind is Wheel || p.kind is Rim;
            &&& m.len() == (if wheel || p.kind is Suspension {
                1int
            } else {
                0
            })
            &&& (p.kind matches PartKind::Rim(r) ==> m[0] == (Mark::Ball {
                center: p.mount,
                radius_nm: r.radius_nm,
                paint: if r.steer {
                    Paint::SteeredWheel
                } else {
                    Paint::Wheel
                },
            }))
            &&& (p.kind matches PartKind::Wheel(r) ==> m[0] == (Mark::Ball {
                center: p.mount,
                radius_nm: r.radius_nm,
                paint: if r.steer {
                    Paint::SteeredWheel
                } else {
                    Paint::Wheel
                },
            }))
            &&& p.kind is Suspension ==> (m[0] matches Mark::Ball { center, radius_nm, paint }
                && center == p.mount && radius_nm == 400 * cell_size && paint == Paint::Strut)
        }),
{
}

/// Parts are drawn one after another: a further part's marks come after the others'.
pub proof fn lemma_parts_are_drawn_in_order(parts: Seq<Part>, p: Part, cell_size: int)
    ensures
        parts_marks(parts.push(p), cell_size) == parts_marks(parts, cell_size) + part_marks(
            p,
            cell_size,
        ),
        parts_marks(Seq::empty(), cell_size).len() == 0,
{
    assert(parts.push(p).drop_last() =~= parts);
}

/// How long an axis is drawn follows the square root of its moment: the square of its share,
/// times the largest moment, is no more than its own, and that of the next share is more.
pub proof fn lemma_axes_grow_with_the_root(moment: int, largest: int)
    requires
        0 <= moment <= largest,
        1 <= largest,
    ensures
        ({
            let r = length_share(moment, largest);
            &&& 0 <= r <= 1_000_000
            &&& r * r * largest <= moment * 1_000_000_000_000
            &&& r < 1_000_000 ==> moment * 1_000_000_000_000 < (r + 1) * (r + 1) * largest
        }),
{
    lemma_root_is_bounded(moment * 1_000_000_000_000, largest, 1_000_000);
    lemma_root_is_tight(moment * 1_000_000_000_000, largest, 1_000_000);
}

proof fn lemma_root_is_tight(n: int, d: int, top: nat)
    requires
        n >= 0,
        d > 0,
    ensures
        ({
            let r = root_of_share(n, d, top);
            &&& r * r * d <= n
            &&& r < top ==> n < (r + 1) * (r + 1) * d
        }),
    decreases top,
{
    if top == 0 {
        assert(0 * 0 * d == 0) by (nonlinear_arith);
    } else if top * top * d > n {
        lemma_root_is_tight(n, d, (top - 1) as nat);
        lemma_root_is_bounded(n, d, (top - 1) as nat);
    }
}

/// The largest moment is one of the three, or one where all are smaller, and none is larger.
pub proof fn lemma_the_largest_moment_bounds_the_others(b: Balance)
    ensures
        largest_moment(b) >= b.first.moment && largest_moment(b) >= b.second.moment
            && largest_moment(b) >= b.third.moment && largest_moment(b) >= 1,
        largest_moment(b) == b.first.moment || largest_moment(b) == b.second.moment
            || largest_moment(b) == b.third.moment || largest_moment(b) == 1,
{
}

/// A line reaches two and a half cells along an axis of full length and share, and as much
/// less for less of either; the other way along is the same length.
pub proof fn lemma_a_line_reaches_its_length(d: int, cell_size: int, share: int)
    requires
        cell_size >= 0,
        0 <= share <= 1_000_000,
        d >= 0,
    ensures
        reach(-d, cell_size, share) == -reach(d, cell_size, share),
        reach(1_000_000, cell_size, 1_000_000) == 5 * cell_size,
        reach(d, cell_size, share) >= 0,
        reach(d, cell_size, share) * 1_000_000_000_000 <= d * (5 * cell_size) * share < (reach(
            d,
            cell_size,
            share,
        ) + 1) * 1_000_000_000_000,
        reach(0, cell_size, share) == 0,
{
    let n = d * (5 * cell_size) * share;
    assert(n >= 0) by (nonlinear_arith)
        requires
            n == d * (5 * cell_size) * share,
            d >= 0,
            cell_size >= 0,
            share >= 0,
    ;
    assert(0 * (5 * cell_size) * share == 0) by (nonlinear_arith);
    assert(1_000_000 * (5 * cell_size) * 1_000_000 == 5 * cell_size * 1_000_000_000_000)
        by (nonlinear_arith);
    assert(-(-d) == d);
    if d == 0 {
        assert(n == 0) by (nonlinear_arith)
            requires
                n == d * (5 * cell_size) * share,
                d == 0,
        ;
    }
}

/// Each axis is drawn from the centre of mass as far one way as the other, in the colour of
/// its place.
pub proof fn lemma_axes_go_both_ways(
    com: Mount,
    a: PrincipalAxis,
    cell_size: int,
    largest: int,
    color: usize,
)
    ensures
        ({
            let m = axis_marks(com, a, cell_size, largest, color);
            let share = length_share(a.moment as int, largest);
            &&& m.len() == 2
            &&& (m[0] matches Mark::Line { from, to, paint } && from == com && to == tip(
                com,
                a,
                cell_size,
                share,
                1,
            ) && paint == (Paint::InertiaAxis { color }))
            &&& (m[1] matches Mark::Line { from, to, paint } && from == com && to == tip(
                com,
                a,
                cell_size,
                share,
                -1,
            ) && paint == (Paint::InertiaAxis { color }))
        }),
{
}

/// The three axes of a balance are the first, the second and the third, in that order and
/// each in its own colour, around a ball at the centre of mass.
pub proof fn lemma_a_balance_is_drawn_around_its_center(b: Balance, cell_size: int)
    requires
        0 <= cell_size <= MAX_CELL_SIZE_UM,
    ensures
        balance_marks(None, cell_size).len() == 0,
        ({
            let m = balance_marks(Some(b), cell_size);
            let most = largest_moment(b);
            &&& m.len() == 7
            &&& (m[0] matches Mark::Ball { center, radius_nm, paint } && center == b.com
                && radius_nm == 300 * cell_size && paint == Paint::CenterOfMass)
            &&& m.subrange(1, 3) == axis_marks(b.com, b.first, cell_size, most, 0)
            &&& m.subrange(3, 5) == axis_marks(b.com, b.second, cell_size, most, 1)
            &&& m.subrange(5, 7) == axis_marks(b.com, b.third, cell_size, most, 2)
        }),
{
    let m = balance_marks(Some(b), cell_size);
    let most = largest_moment(b);
    assert(m.subrange(1, 3) =~= axis_marks(b.com, b.first, cell_size, most, 0));
    assert(m.subrange(3, 5) =~= axis_marks(b.com, b.second, cell_size, most, 1));
    assert(m.subrange(5, 7) =~= axis_marks(b.com, b.third, cell_size, most, 2));
}

/// The arrow points forward, along the third axis and nowhere else, for five cells or a metre
/// and a half, whichever is longer.
pub proof fn lemma_the_arrow_points_forward(com: Mount, cell_size: int)
    requires
        0 <= cell_size <= MAX_CELL_SIZE_UM,
        com.z <= FARTHEST_COM,
    ensures
        forward_mark(com, cell_size) matches Mark::Arrow { from, to, paint } && from == com && to.x
            == com.x && to.y == com.y && to.z - com.z >= 10 * cell_size && to.z - com.z >= 3_000_000
            && (to.z - com.z == 10 * cell_size || to.z - com.z == 3_000_000) && paint
            == Paint::Forward,
{
}

/// The plot goes on by six tenths of a metre from each cross-section to the next, one line
/// for each step, and each point is as high as its share of the largest.
pub proof fn lemma_the_plot_follows_the_areas(areas: Seq<u64>, i: int)
    requires
        0 <= i < areas.len() - 1,
        areas.len() <= u32::MAX,
    ensures
        curve_marks(areas).len() == areas.len() - 1,
        curve_marks(areas)[i] matches Mark::Line { from, to, paint } && paint == Paint::AreaCurve
            && to.x - from.x == 1_200_000 && from.z == to.z && from.y * largest_area(areas)
            <= 6_000_000 * areas[i] < (from.y + 1) * largest_area(areas),
        largest_area(areas) >= areas[i],
{
    lemma_largest_area(areas);
    let most = largest_area(areas);
    lemma_plot_height(areas[i] as int, most);
    let n = 6_000_000 * areas[i] as int;
    vstd::arithmetic::div_mod::lemma_fundamental_div_mod(n, most);
    assert((n / most) * most == most * (n / most) && (n / most + 1) * most == most * (n / most)
        + most) by (nonlinear_arith);
}

/// Only closed doors are drawn, each in its own cell.
pub proof fn lemma_closed_doors_are_drawn(doors: Seq<Door>, d: Door, cell_size: int)
    ensures
        d.open ==> door_cubes(doors.push(d), cell_size) == door_cubes(doors, cell_size),
        !d.open ==> door_cubes(doors.push(d), cell_size) == door_cubes(doors, cell_size).push(
            Mark::Cube {
                center: middle(d.cell, cell_size),
                side_percent: 100,
                paint: Paint::ClosedDoor,
            },
        ),
        door_cubes(Seq::empty(), cell_size).len() == 0,
{
    assert(doors.push(d).drop_last() =~= doors);
    assert(door_cubes(doors.push(d), cell_size) =~= (if d.open {
        door_cubes(doors, cell_size)
    } else {
        door_cubes(doors, cell_size).push(cube_at(d.cell, cell_size, 100, Paint::ClosedDoor))
    }));
}

/// A room's cells are drawn smaller than its walls, all in one colour, which is not that of
/// the room before.
pub proof fn lemma_rooms_take_turns_in_colour(
    rooms: Seq<Vec<Cell>>,
    room: Vec<Cell>,
    cell_size: int,
    i: int,
)
    requires
        0 <= i < room@.len(),
    ensures
        ({
            let before = room_cubes(rooms, cell_size);
            let after = room_cubes(rooms.push(room), cell_size);
            &&& after.len() == before.len() + room@.len()
            &&& after.take(before.len() as int) == before
            &&& after[before.len() + i] == (Mark::Cube {
                center: middle(room@[i], cell_size),
                side_percent: 70,
                paint: Paint::Room { color: (rooms.len() % 4) as usize },
            })
        }),
{
    assert(rooms.push(room).drop_last() =~= rooms);
    let before = room_cubes(rooms, cell_size);
    let after = room_cubes(rooms.push(room), cell_size);
    assert(after.take(before.len() as int) =~= before);
}

/// A full room shows water in all of its cells.
pub proof fn lemma_full_rooms_show_all_their_water(
    rooms: Seq<Vec<Cell>>,
    flooded: Seq<u32>,
    n: int,
    cell_size: int,
)
    requires
        0 < n <= rooms.len(),
        n <= flooded.len(),
        flooded[n - 1] == 1_000_000,
    ensures
        water_cubes(rooms, flooded, n, cell_size).len() == water_cubes(
            rooms,
            flooded,
            n - 1,
            cell_size,
        ).len() + rooms[n - 1]@.len(),
        forall|i: int|
            0 <= i < rooms[n - 1]@.len() ==> (#[trigger] water_cubes(
                rooms,
                flooded,
                n,
                cell_size,
            )[water_cubes(rooms, flooded, n - 1, cell_size).len() + i]) == (Mark::Cube {
                center: middle(by_height(rooms[n - 1]@)[i], cell_size),
                side_percent: 85,
                paint: Paint::Floodwater,
            }),
{
    lemma_water_fills_from_none_to_all(rooms[n - 1]@.len() as int);
    crate::rooms::lemma_by_height_rises(rooms[n - 1]@);
}

/// Both scenes show every cell of the hull as a full cube at its own place, all in one paint:
/// the structure of the one can be looked into, the plating of the other covers the water.
/// The doors come next in the one, and a sound hull without rooms shows no water in the other.
pub proof fn lemma_hulls_are_drawn_where_they_are(
    voxels: Seq<Voxel>,
    doors: Seq<Door>,
    rooms: Seq<Vec<Cell>>,
    flooded: Seq<u32>,
    cell_size: int,
    i: int,
)
    requires
        0 <= cell_size <= MAX_CELL_SIZE_UM,
        0 <= i < voxels.len(),
    ensures
        compartments_marks(voxels, doors, rooms, cell_size)[i] matches Mark::Cube {
            center,
            side_percent,
            paint,
        } && side_percent == 100 && paint == Paint::Structure && center.x == (2 * voxels[i].cell.x
            + 1) * cell_size && center.y == (2 * voxels[i].cell.y + 1) * cell_size && center.z == (2
            * voxels[i].cell.z + 1) * cell_size,
        flooding_marks(voxels, rooms, flooded, cell_size)[i] matches Mark::Cube {
            center,
            side_percent,
            paint,
        } && side_percent == 100 && paint == Paint::Plating && center.x == (2 * voxels[i].cell.x
            + 1) * cell_size && center.y == (2 * voxels[i].cell.y + 1) * cell_size && center.z == (2
            * voxels[i].cell.z + 1) * cell_size,
        compartments_marks(voxels, doors, rooms, cell_size).len() == voxels.len() + door_cubes(
            doors,
            cell_size,
        ).len() + room_cubes(rooms, cell_size).len(),
        flooding_marks(voxels, Seq::empty(), flooded, cell_size).len() == voxels.len(),
{
    lemma_middle_fits(voxels[i].cell, cell_size);
}

/// The cursor's cube and the highlight stand out around their cells, the highlight further; the
/// preview keeps within its own.
pub proof fn lemma_overlays_do_not_hide_one_another(
    cursor: Cell,
    h: Hovered,
    balance: Option<Balance>,
    cell_size: int,
)
    ensures
        ({
            let m = overlay_marks(cursor, Some(h), balance, cell_size);
            &&& (m[0] matches Mark::Cube { side_percent, .. } && side_percent == 104)
            &&& (m[1] matches Mark::Cube { side_percent, .. } && side_percent == 108)
            &&& (m[2] matches Mark::Cube { side_percent, .. } && side_percent == 94)
            &&& balance matches Some(b) ==> m[3] == (Mark::Ball {
                center: b.com,
                radius_nm: m[3]->radius_nm,
                paint: Paint::CenterOfMass,
            }) && m[4] is Arrow
        }),
{
}

} // verus!
