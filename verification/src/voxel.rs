//! The craft under construction: voxels on a cubic lattice, devices in cells,
//! and parts mounted at points.
//!
//! Lengths are whole micrometres and masses whole milligrams, so that equal
//! builds compare equal. Mount points are kept in half micrometres, which makes
//! the centre of every cell a whole number.

use crate::seq_facts::lemma_filter_next;
use vstd::prelude::*;

verus! {

/// A cell of the lattice.
#[derive(Clone, Copy, Debug, PartialEq, Eq, Structural)]
pub struct Cell {
    pub x: i32,
    pub y: i32,
    pub z: i32,
}

/// What a voxel is made of.
#[derive(Clone, Copy, Debug, PartialEq, Eq, Structural)]
pub enum Material {
    Aluminium,
    Steel,
    Titanium,
    Composite,
    Ablator,
    /// As light as aluminium, and weak enough to shatter in a ram.
    Frangible,
}

/// An occupied cell.
#[derive(Clone, Copy, Debug, PartialEq, Eq, Structural)]
pub struct Voxel {
    pub cell: Cell,
    pub material: Material,
}

/// A point of the craft's frame, in half micrometres.
#[derive(Clone, Copy, Debug, PartialEq, Eq, Structural)]
pub struct Mount {
    pub x: i64,
    pub y: i64,
    pub z: i64,
}

/// The size of a drive motor.
#[derive(Clone, Copy, Debug, PartialEq, Eq, Structural)]
pub enum MotorTier {
    Economy,
    Standard,
    Performance,
    Heavy,
}

/// What a device is.
#[derive(Clone, Copy, Debug, PartialEq, Eq, Structural)]
pub enum DeviceKind {
    /// A control point.
    Command { crewed: bool },
    /// A control computer with its tuning gain, in tenths.
    Computer { gain_tenths: u32 },
    /// A full battery with its capacity.
    Battery { capacity: u32 },
    Engine { motor: MotorTier },
    Tank,
}

/// A device in a cell.
#[derive(Clone, Copy, Debug, PartialEq, Eq, Structural)]
pub struct Device {
    pub cell: Cell,
    pub kind: DeviceKind,
}

/// A rim: its radius in nanometres, and whether it is driven and steered.
#[derive(Clone, Copy, Debug, PartialEq, Eq, Structural)]
pub struct RimSpec {
    pub radius_nm: u64,
    pub drive: bool,
    pub steer: bool,
}

/// A tyre: its section height in nanometres, its grip in hundredths, its slip
/// stiffness along and across in tenths, and its spring stiffness.
#[derive(Clone, Copy, Debug, PartialEq, Eq, Structural)]
pub struct TireSpec {
    pub profile_nm: u64,
    pub grip_percent: u32,
    pub slip_long_tenths: u32,
    pub slip_lat_tenths: u32,
    pub stiffness: u32,
}

/// A strut, sized for a lattice.
#[derive(Clone, Copy, Debug, PartialEq, Eq, Structural)]
pub struct SuspensionSpec {
    pub cell_size_um: u32,
}

/// What a part is.
#[derive(Clone, Copy, Debug, PartialEq, Eq, Structural)]
pub enum PartKind {
    /// A one-piece wheel.
    Wheel(RimSpec),
    Rim(RimSpec),
    Tire(TireSpec),
    Suspension(SuspensionSpec),
    Seat,
    Antenna,
    SolarPanel,
    Bumper,
}

/// A part mounted at a point. The components of one wheel share a station.
#[derive(Clone, Copy, Debug, PartialEq, Eq, Structural)]
pub struct Part {
    pub mount: Mount,
    pub mass_mg: u64,
    pub kind: PartKind,
    pub station: Option<u32>,
}

/// A side of a cell.
#[derive(Clone, Copy, Debug, PartialEq, Eq, Structural)]
pub enum Face {
    PosX,
    NegX,
    PosY,
    NegY,
    PosZ,
    NegZ,
}

/// Where a subassembly can be attached.
#[derive(Clone, Copy, Debug, PartialEq, Eq, Structural)]
pub struct AttachmentPoint {
    pub cell: Cell,
    pub face: Face,
}

/// A craft.
#[derive(Debug, PartialEq, Eq)]
pub struct VoxelCraft {
    pub cell_size_um: u32,
    pub voxels: Vec<Voxel>,
    pub devices: Vec<Device>,
    pub parts: Vec<Part>,
    pub attachments: Vec<AttachmentPoint>,
}

/// A craft over sequences.
#[verifier::ext_equal]
pub struct CraftSpec {
    pub cell_size: int,
    pub voxels: Seq<Voxel>,
    pub devices: Seq<Device>,
    pub parts: Seq<Part>,
    pub attachments: Seq<AttachmentPoint>,
}

impl View for VoxelCraft {
    type V = CraftSpec;

    open spec fn view(&self) -> CraftSpec {
        CraftSpec {
            cell_size: self.cell_size_um as int,
            voxels: self.voxels@,
            devices: self.devices@,
            parts: self.parts@,
            attachments: self.attachments@,
        }
    }
}

/// The largest cell for which every cell's centre is a machine number.
pub const MAX_CELL_SIZE_UM: u32 = 0x7fff_ffff;

impl CraftSpec {
    /// Whether every cell's centre is a machine number.
    pub open spec fn wf(self) -> bool {
        0 <= self.cell_size <= MAX_CELL_SIZE_UM
    }

    /// Whether a cell is occupied.
    pub open spec fn occupied(self, cell: Cell) -> bool {
        exists|i: int| 0 <= i < self.voxels.len() && (#[trigger] self.voxels[i]).cell == cell
    }
}

impl VoxelCraft {
    /// An empty craft.
    pub fn new(cell_size_um: u32) -> (c: VoxelCraft)
        ensures
            c@ == (CraftSpec {
                cell_size: cell_size_um as int,
                voxels: Seq::empty(),
                devices: Seq::empty(),
                parts: Seq::empty(),
                attachments: Seq::empty(),
            }),
    {
        let c = VoxelCraft {
            cell_size_um,
            voxels: Vec::new(),
            devices: Vec::new(),
            parts: Vec::new(),
            attachments: Vec::new(),
        };
        c
    }

    /// Whether a cell is occupied.
    pub fn is_occupied(&self, cell: Cell) -> (b: bool)
        ensures
            b == self@.occupied(cell),
    {
        let mut i: usize = 0;
        while i < self.voxels.len()
            invariant
                i <= self.voxels.len(),
                forall|j: int| 0 <= j < i ==> (#[trigger] self.voxels@[j]).cell != cell,
            decreases self.voxels.len() - i,
        {
            if self.voxels[i].cell == cell {
                assert(self@.voxels[i as int].cell == cell);
                return true;
            }
            i += 1;
        }
        false
    }
}

/// Copies a craft.
pub(crate) fn copy_craft(c: &VoxelCraft) -> (r: VoxelCraft)
    ensures
        r@ == c@,
{
    let r = VoxelCraft {
        cell_size_um: c.cell_size_um,
        voxels: c.voxels.clone(),
        devices: c.devices.clone(),
        parts: c.parts.clone(),
        attachments: c.attachments.clone(),
    };
    assert(r@ =~= c@);
    r
}

/// The point at the centre of a cell.
pub open spec fn center_of(cell: Cell, cell_size: int) -> (int, int, int) {
    ((2 * cell.x + 1) * cell_size, (2 * cell.y + 1) * cell_size, (2 * cell.z + 1) * cell_size)
}

/// One coordinate of a cell's centre.
fn center_coordinate(c: i32, cell_size_um: u32) -> (r: i64)
    requires
        cell_size_um <= MAX_CELL_SIZE_UM,
    ensures
        r == (2 * c + 1) * cell_size_um,
{
    let k: i64 = 2 * c as i64 + 1;
    let s: i64 = cell_size_um as i64;
    assert(-0x7fff_ffff_ffff_ffff <= k * s <= 0x7fff_ffff_ffff_ffff) by (nonlinear_arith)
        requires
            -0xffff_ffff <= k <= 0xffff_ffff,
            0 <= s <= 0x7fff_ffff,
    ;
    k * s
}

/// The point at the centre of a cell.
pub fn cell_center(cell: Cell, cell_size_um: u32) -> (m: Mount)
    requires
        cell_size_um <= MAX_CELL_SIZE_UM,
    ensures
        (m.x as int, m.y as int, m.z as int) == center_of(cell, cell_size_um as int),
{
    Mount {
        x: center_coordinate(cell.x, cell_size_um),
        y: center_coordinate(cell.y, cell_size_um),
        z: center_coordinate(cell.z, cell_size_um),
    }
}

/// The square of the distance between two points, in half micrometres squared.
pub open spec fn gap(a: Mount, b: Mount) -> int {
    (a.x - b.x) * (a.x - b.x) + (a.y - b.y) * (a.y - b.y) + (a.z - b.z) * (a.z - b.z)
}

/// Whether two points are the same to within a micrometre.
pub open spec fn same_spot(a: Mount, b: Mount) -> bool {
    gap(a, b) <= 4
}

/// Whether two points are more than six tenths of a cell apart.
pub open spec fn well_apart(a: Mount, b: Mount, cell_size: int) -> bool {
    25 * gap(a, b) > 36 * (cell_size * cell_size)
}

/// The distance of two points along one axis.
fn along(a: i64, b: i64) -> (d: i128)
    ensures
        d == a - b,
        -0x1_0000_0000_0000_0000 < d < 0x1_0000_0000_0000_0000,
{
    a as i128 - b as i128
}

/// Whether two points are the same to within a micrometre.
pub fn is_same_spot(a: Mount, b: Mount) -> (r: bool)
    ensures
        r == same_spot(a, b),
{
    let (dx, dy, dz): (i128, i128, i128) = (along(a.x, b.x), along(a.y, b.y), along(a.z, b.z));
    assert(dx * dx >= 0 && dy * dy >= 0 && dz * dz >= 0) by (nonlinear_arith);
    if dx < -2 || dx > 2 || dy < -2 || dy > 2 || dz < -2 || dz > 2 {
        assert((dx < -2 || dx > 2) ==> dx * dx > 4) by (nonlinear_arith);
        assert((dy < -2 || dy > 2) ==> dy * dy > 4) by (nonlinear_arith);
        assert((dz < -2 || dz > 2) ==> dz * dz > 4) by (nonlinear_arith);
        return false;
    }
    assert(dx * dx <= 4 && dy * dy <= 4 && dz * dz <= 4) by (nonlinear_arith)
        requires
            -2 <= dx <= 2,
            -2 <= dy <= 2,
            -2 <= dz <= 2,
    ;
    dx * dx + dy * dy + dz * dz <= 4
}

/// Whether two points are more than six tenths of a cell apart.
pub fn is_well_apart(a: Mount, b: Mount, cell_size_um: u32) -> (r: bool)
    ensures
        r == well_apart(a, b, cell_size_um as int),
{
    let (dx, dy, dz): (i128, i128, i128) = (along(a.x, b.x), along(a.y, b.y), along(a.z, b.z));
    let s: i128 = cell_size_um as i128;
    let w: i128 = 2 * s;
    assert(dx * dx >= 0 && dy * dy >= 0 && dz * dz >= 0 && s * s >= 0) by (nonlinear_arith);
    assert(s * s <= 0xffff_ffff_ffff_ffff) by (nonlinear_arith)
        requires
            0 <= s <= 0xffff_ffff,
    ;
    if dx < -w || dx > w || dy < -w || dy > w || dz < -w || dz > w {
        assert((dx < -w || dx > w) ==> dx * dx > 4 * (s * s)) by (nonlinear_arith)
            requires
                w == 2 * s,
                s >= 0,
        ;
        assert((dy < -w || dy > w) ==> dy * dy > 4 * (s * s)) by (nonlinear_arith)
            requires
                w == 2 * s,
                s >= 0,
        ;
        assert((dz < -w || dz > w) ==> dz * dz > 4 * (s * s)) by (nonlinear_arith)
            requires
                w == 2 * s,
                s >= 0,
        ;
        return true;
    }
    assert(dx * dx <= 4 * (s * s) && dy * dy <= 4 * (s * s) && dz * dz <= 4 * (s * s))
        by (nonlinear_arith)
        requires
            w == 2 * s,
            s >= 0,
            -w <= dx <= w,
            -w <= dy <= w,
            -w <= dz <= w,
    ;
    25 * (dx * dx + dy * dy + dz * dz) > 36 * (s * s)
}

/// Keeps the voxels that are not in `cell`.
pub fn drop_voxels_at(voxels: &mut Vec<Voxel>, cell: Cell)
    ensures
        final(voxels)@ == old(voxels)@.filter(|v: Voxel| v.cell != cell),
{
    let ghost s = voxels@;
    let ghost keep = |v: Voxel| v.cell != cell;
    let mut kept: Vec<Voxel> = Vec::new();
    let mut i: usize = 0;
    proof {
        reveal(Seq::filter);
        assert(s.take(0).filter(keep) =~= Seq::<Voxel>::empty());
    }
    while i < voxels.len()
        invariant
            i <= voxels.len(),
            voxels@ == s,
            keep == (|v: Voxel| v.cell != cell),
            kept@ == s.take(i as int).filter(keep),
        decreases voxels.len() - i,
    {
        proof {
            lemma_filter_next(s, i as int, keep);
        }
        if voxels[i].cell != cell {
            kept.push(voxels[i]);
        }
        i += 1;
    }
    assert(s.take(i as int) =~= s);
    *voxels = kept;
}

/// Keeps the devices that are not in `cell`.
pub fn drop_devices_at(devices: &mut Vec<Device>, cell: Cell)
    ensures
        final(devices)@ == old(devices)@.filter(|d: Device| d.cell != cell),
{
    let ghost s = devices@;
    let ghost keep = |d: Device| d.cell != cell;
    let mut kept: Vec<Device> = Vec::new();
    let mut i: usize = 0;
    proof {
        reveal(Seq::filter);
        assert(s.take(0).filter(keep) =~= Seq::<Device>::empty());
    }
    while i < devices.len()
        invariant
            i <= devices.len(),
            devices@ == s,
            keep == (|d: Device| d.cell != cell),
            kept@ == s.take(i as int).filter(keep),
        decreases devices.len() - i,
    {
        proof {
            lemma_filter_next(s, i as int, keep);
        }
        if devices[i].cell != cell {
            kept.push(devices[i]);
        }
        i += 1;
    }
    assert(s.take(i as int) =~= s);
    *devices = kept;
}

/// Cells are as far apart as they are wide: the centres of neighbours along one axis are one
/// cell apart along it, and no two cells share a centre.
pub proof fn lemma_neighbours_are_a_cell_apart(a: Cell, b: Cell, cell_size: int)
    requires
        cell_size > 0,
    ensures
        center_of(b, cell_size).0 - center_of(a, cell_size).0 == (b.x - a.x) * (2 * cell_size),
        center_of(b, cell_size).1 - center_of(a, cell_size).1 == (b.y - a.y) * (2 * cell_size),
        center_of(b, cell_size).2 - center_of(a, cell_size).2 == (b.z - a.z) * (2 * cell_size),
        center_of(a, cell_size) == center_of(b, cell_size) <==> a == b,
{
    let s = cell_size;
    assert((2 * b.x + 1) * s - (2 * a.x + 1) * s == (b.x - a.x) * (2 * s)) by (nonlinear_arith);
    assert((2 * b.y + 1) * s - (2 * a.y + 1) * s == (b.y - a.y) * (2 * s)) by (nonlinear_arith);
    assert((2 * b.z + 1) * s - (2 * a.z + 1) * s == (b.z - a.z) * (2 * s)) by (nonlinear_arith);
    let (dx, dy, dz) = (b.x - a.x, b.y - a.y, b.z - a.z);
    assert(dx * (2 * s) == 0 ==> dx == 0) by (nonlinear_arith)
        requires
            s > 0,
    ;
    assert(dy * (2 * s) == 0 ==> dy == 0) by (nonlinear_arith)
        requires
            s > 0,
    ;
    assert(dz * (2 * s) == 0 ==> dz == 0) by (nonlinear_arith)
        requires
            s > 0,
    ;
}

/// Distance is the same both ways and nothing only between a point and itself; points that are
/// a whole cell apart are well apart, and a point is never well apart from itself.
pub proof fn lemma_distance_is_symmetric(a: Mount, b: Mount, cell_size: int)
    requires
        cell_size > 0,
    ensures
        gap(a, b) == gap(b, a),
        gap(a, b) == 0 <==> a == b,
        same_spot(a, b) == same_spot(b, a),
        same_spot(a, a),
        well_apart(a, b, cell_size) == well_apart(b, a, cell_size),
        !well_apart(a, a, cell_size),
        gap(a, b) >= 4 * (cell_size * cell_size) ==> well_apart(a, b, cell_size),
        a.y == b.y && a.z == b.z && 5 * (a.x - b.x) == 6 * cell_size ==> !well_apart(
            a,
            b,
            cell_size,
        ),
        a.y == b.y && a.z == b.z && 5 * (a.x - b.x) > 6 * cell_size ==> well_apart(a, b, cell_size),
{
    let (dx, dy, dz) = (a.x - b.x, a.y - b.y, a.z - b.z);
    let s = cell_size;
    assert(dx * dx == (-dx) * (-dx) && dy * dy == (-dy) * (-dy) && dz * dz == (-dz) * (-dz))
        by (nonlinear_arith);
    assert(dx * dx >= 0 && dy * dy >= 0 && dz * dz >= 0) by (nonlinear_arith);
    assert(dx * dx == 0 <==> dx == 0) by (nonlinear_arith);
    assert(dy * dy == 0 <==> dy == 0) by (nonlinear_arith);
    assert(dz * dz == 0 <==> dz == 0) by (nonlinear_arith);
    assert(s * s > 0) by (nonlinear_arith)
        requires
            s > 0,
    ;
    assert(5 * dx == 6 * s ==> 25 * (dx * dx) == 36 * (s * s)) by (nonlinear_arith);
    assert(5 * dx > 6 * s ==> 25 * (dx * dx) > 36 * (s * s)) by (nonlinear_arith)
        requires
            s > 0,
    ;
    assert((a.x - a.x) * (a.x - a.x) == 0 && (a.y - a.y) * (a.y - a.y) == 0 && (a.z - a.z) * (a.z
        - a.z) == 0) by (nonlinear_arith);
}

} // verus!
