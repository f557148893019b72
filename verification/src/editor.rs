//! The voxel editor: a cursor and brushes over a craft.
//!
//! The keyboard and the mouse select a brush and place or remove with it; the
//! palette is a view of the same selection. Documents are saved and loaded by
//! the caller, on the editor's request.

use crate::input::KeyCode;
use crate::input::Keyboard;
use crate::input::Mouse;
use crate::input::MouseButton;
use crate::seq_facts::lemma_filter_contains;
use crate::seq_facts::lemma_filter_next;
use crate::voxel::cell_center;
use crate::voxel::center_of;
use crate::voxel::drop_devices_at;
use crate::voxel::drop_voxels_at;
use crate::voxel::gap;
use crate::voxel::is_same_spot;
use crate::voxel::is_well_apart;
use crate::voxel::same_spot;
use crate::voxel::well_apart;
use crate::voxel::AttachmentPoint;
use crate::voxel::Cell;
use crate::voxel::CraftSpec;
use crate::voxel::Device;
use crate::voxel::DeviceKind;
use crate::voxel::Face;
use crate::voxel::Material;
use crate::voxel::MotorTier;
use crate::voxel::Mount;
use crate::voxel::Part;
use crate::voxel::PartKind;
use crate::voxel::RimSpec;
use crate::voxel::SuspensionSpec;
use crate::voxel::TireSpec;
use crate::voxel::Voxel;
use crate::voxel::VoxelCraft;
use crate::voxel::MAX_CELL_SIZE_UM;
use vstd::prelude::*;

verus! {

/// How many structural materials can be selected.
pub const PALETTE_LEN: usize = 4;

/// The structural materials, in the order they are cycled through.
pub open spec fn palette_material(i: int) -> Material {
    if i == 0 {
        Material::Aluminium
    } else if i == 1 {
        Material::Steel
    } else if i == 2 {
        Material::Titanium
    } else {
        Material::Composite
    }
}

/// The materials' names.
pub open spec fn palette_name(i: int) -> Seq<char> {
    if i == 0 {
        "aluminium"@
    } else if i == 1 {
        "steel"@
    } else if i == 2 {
        "titanium"@
    } else {
        "composite"@
    }
}

/// A material by its place in the palette.
pub(crate) fn material_at(i: usize) -> (m: Material)
    requires
        i < PALETTE_LEN,
    ensures
        m == palette_material(i as int),
{
    if i == 0 {
        Material::Aluminium
    } else if i == 1 {
        Material::Steel
    } else if i == 2 {
        Material::Titanium
    } else {
        Material::Composite
    }
}

/// The name of a palette material, counted round and round.
pub fn material_label(index: usize) -> (s: &'static str)
    ensures
        s@ == palette_name(index as int % 4),
{
    let i: usize = index % PALETTE_LEN;
    if i == 0 {
        "aluminium"
    } else if i == 1 {
        "steel"
    } else if i == 2 {
        "titanium"
    } else {
        "composite"
    }
}

/// A rim and tyre combination that is picked as a unit.
#[derive(Clone, Copy, Debug, PartialEq, Eq, Structural)]
pub enum WheelPreset {
    /// Grippy, soft, tall.
    OffRoad,
    /// Balanced.
    Road,
    /// Very grippy, stiff, low-profile.
    Slick,
}

impl Default for WheelPreset {
    fn default() -> (p: WheelPreset)
        ensures
            p == WheelPreset::Road,
    {
        WheelPreset::Road
    }
}

impl WheelPreset {
    /// The tyre's section height, in thousandths of the cell size. The wheel as
    /// a whole is one and a half cells in radius, and the section is forty-five,
    /// thirty or fifteen hundredths of that.
    pub open spec fn profile_permille(self) -> int {
        match self {
            WheelPreset::OffRoad => 675,
            WheelPreset::Road => 450,
            WheelPreset::Slick => 225,
        }
    }

    /// The rim of this preset.
    pub open spec fn rim_of(self, cell_size: int, steer: bool) -> RimSpec {
        RimSpec {
            radius_nm: ((1500 - self.profile_permille()) * cell_size) as u64,
            drive: true,
            steer,
        }
    }

    /// The tyre of this preset.
    pub open spec fn tire_of(self, cell_size: int) -> TireSpec {
        let profile_nm = (self.profile_permille() * cell_size) as u64;
        match self {
            WheelPreset::OffRoad => TireSpec {
                profile_nm,
                grip_percent: 135,
                slip_long_tenths: 45,
                slip_lat_tenths: 35,
                stiffness: 50_000,
            },
            WheelPreset::Road => TireSpec {
                profile_nm,
                grip_percent: 100,
                slip_long_tenths: 50,
                slip_lat_tenths: 40,
                stiffness: 150_000,
            },
            WheelPreset::Slick => TireSpec {
                profile_nm,
                grip_percent: 160,
                slip_long_tenths: 65,
                slip_lat_tenths: 55,
                stiffness: 400_000,
            },
        }
    }

    /// The rim of this preset, driven, and steered if asked.
    pub fn rim(self, cell_size_um: u32, steer: bool) -> (r: RimSpec)
        ensures
            r == self.rim_of(cell_size_um as int, steer),
    {
        let k: u64 = match self {
            WheelPreset::OffRoad => 825,
            WheelPreset::Road => 1050,
            WheelPreset::Slick => 1275,
        };
        RimSpec { radius_nm: k * cell_size_um as u64, drive: true, steer }
    }

    /// The tyre of this preset: grip, compliance, slip response and section
    /// height.
    pub fn tire(self, cell_size_um: u32) -> (t: TireSpec)
        ensures
            t == self.tire_of(cell_size_um as int),
    {
        let s: u64 = cell_size_um as u64;
        match self {
            WheelPreset::OffRoad => TireSpec {
                profile_nm: 675 * s,
                grip_percent: 135,
                slip_long_tenths: 45,
                slip_lat_tenths: 35,
                stiffness: 50_000,
            },
            WheelPreset::Road => TireSpec {
                profile_nm: 450 * s,
                grip_percent: 100,
                slip_long_tenths: 50,
                slip_lat_tenths: 40,
                stiffness: 150_000,
            },
            WheelPreset::Slick => TireSpec {
                profile_nm: 225 * s,
                grip_percent: 160,
                slip_long_tenths: 65,
                slip_lat_tenths: 55,
                stiffness: 400_000,
            },
        }
    }
}

/// The active placement tool: what a click, or Space, places.
#[derive(Clone, Copy, Debug, PartialEq, Eq, Structural)]
pub enum Brush {
    Voxel,
    ControlPoint,
    Computer,
    Battery,
    Engine,
    Tank,
    /// A rim and a tyre of the preset; `steer` adds it to the steered wheels.
    Wheel { preset: WheelPreset, steer: bool },
    /// An optional strut for a wheel's station.
    Suspension,
    Seat,
    Antenna,
    SolarPanel,
    Bumper,
}

impl Default for Brush {
    fn default() -> (b: Brush)
        ensures
            b == Brush::Voxel,
    {
        Brush::Voxel
    }
}

impl Brush {
    /// The brush's name.
    pub open spec fn name(self) -> Seq<char> {
        match self {
            Brush::Voxel => "voxel"@,
            Brush::ControlPoint => "control point"@,
            Brush::Computer => "computer"@,
            Brush::Battery => "battery"@,
            Brush::Engine => "engine"@,
            Brush::Tank => "tank"@,
            Brush::Wheel { preset: WheelPreset::OffRoad, steer: false } => "off-road wheel"@,
            Brush::Wheel { preset: WheelPreset::OffRoad, steer: true } => "off-road wheel (steer)"@,
            Brush::Wheel { preset: WheelPreset::Road, steer: false } => "road wheel"@,
            Brush::Wheel { preset: WheelPreset::Road, steer: true } => "road wheel (steer)"@,
            Brush::Wheel { preset: WheelPreset::Slick, steer: false } => "slick wheel"@,
            Brush::Wheel { preset: WheelPreset::Slick, steer: true } => "slick wheel (steer)"@,
            Brush::Suspension => "suspension"@,
            Brush::Seat => "seat"@,
            Brush::Antenna => "antenna"@,
            Brush::SolarPanel => "solar panel"@,
            Brush::Bumper => "bumper"@,
        }
    }

    /// A short label for the display.
    pub fn label(self) -> (s: &'static str)
        ensures
            s@ == self.name(),
    {
        match self {
            Brush::Voxel => "voxel",
            Brush::ControlPoint => "control point",
            Brush::Computer => "computer",
            Brush::Battery => "battery",
            Brush::Engine => "engine",
            Brush::Tank => "tank",
            Brush::Wheel { preset: WheelPreset::OffRoad, steer: false } => "off-road wheel",
            Brush::Wheel { preset: WheelPreset::OffRoad, steer: true } => "off-road wheel (steer)",
            Brush::Wheel { preset: WheelPreset::Road, steer: false } => "road wheel",
            Brush::Wheel { preset: WheelPreset::Road, steer: true } => "road wheel (steer)",
            Brush::Wheel { preset: WheelPreset::Slick, steer: false } => "slick wheel",
            Brush::Wheel { preset: WheelPreset::Slick, steer: true } => "slick wheel (steer)",
            Brush::Suspension => "suspension",
            Brush::Seat => "seat",
            Brush::Antenna => "antenna",
            Brush::SolarPanel => "solar panel",
            Brush::Bumper => "bumper",
        }
    }
}

/// The editor's state.
#[derive(Debug, PartialEq, Eq)]
pub struct EditorState {
    /// The craft under construction.
    pub craft: VoxelCraft,
    /// The build cursor.
    pub cursor: Cell,
    /// The selected material's place in the palette.
    pub material: usize,
    /// The active brush.
    pub brush: Brush,
    /// A loaded subassembly.
    pub subassembly: Option<VoxelCraft>,
    /// The motor that a placed engine gets.
    pub motor: MotorTier,
}

/// What the editor's input changes.
#[verifier::ext_equal]
pub struct EditorSpec {
    pub craft: CraftSpec,
    pub cursor: Cell,
    pub material: int,
    pub brush: Brush,
    pub motor: MotorTier,
}

impl View for EditorState {
    type V = EditorSpec;

    open spec fn view(&self) -> EditorSpec {
        EditorSpec {
            craft: self.craft@,
            cursor: self.cursor,
            material: self.material as int,
            brush: self.brush,
            motor: self.motor,
        }
    }
}

impl EditorSpec {
    /// A material is selected, and every cell's centre is a machine number.
    pub open spec fn wf(self) -> bool {
        self.material < 4 && self.craft.wf()
    }
}

/// The craft that a new editor shows: three by two cells of aluminium.
pub open spec fn seed_voxels() -> Seq<Voxel> {
    Seq::new(
        6,
        |i: int|
            Voxel {
                cell: Cell { x: (i / 2) as i32, y: 0, z: (i % 2) as i32 },
                material: Material::Aluminium,
            },
    )
}

impl Default for EditorState {
    fn default() -> (s: EditorState)
        ensures
            s@.wf(),
            s@ == (EditorSpec {
                craft: CraftSpec {
                    cell_size: 100_000,
                    voxels: seed_voxels(),
                    devices: Seq::empty(),
                    parts: Seq::empty(),
                    attachments: Seq::empty(),
                },
                cursor: Cell { x: 0, y: 1, z: 0 },
                material: 0,
                brush: Brush::Voxel,
                motor: MotorTier::Standard,
            }),
            s@ == new_editor(),
            s.subassembly is None,
    {
        let mut craft: VoxelCraft = VoxelCraft::new(100_000);
        let mut x: i32 = 0;
        while x < 3
            invariant
                0 <= x <= 3,
                craft@.cell_size == 100_000,
                craft@.devices == Seq::<Device>::empty(),
                craft@.parts == Seq::<Part>::empty(),
                craft@.attachments == Seq::<AttachmentPoint>::empty(),
                craft.voxels@ == seed_voxels().take(2 * x),
            decreases 3 - x,
        {
            craft.voxels.push(
                Voxel { cell: Cell { x, y: 0, z: 0 }, material: Material::Aluminium },
            );
            craft.voxels.push(
                Voxel { cell: Cell { x, y: 0, z: 1 }, material: Material::Aluminium },
            );
            x += 1;
            assert(craft.voxels@ =~= seed_voxels().take(2 * x));
        }
        assert(seed_voxels().take(6) =~= seed_voxels());
        EditorState {
            craft,
            cursor: Cell { x: 0, y: 1, z: 0 },
            material: 0,
            brush: Brush::Voxel,
            subassembly: None,
            motor: MotorTier::Standard,
        }
    }
}

/// The station of the first part at (or within a micrometre of) a point that
/// belongs to one.
pub open spec fn station_of(parts: Seq<Part>, mount: Mount) -> Option<u32>
    decreases parts.len(),
{
    if parts.len() == 0 {
        None
    } else if same_spot(parts[0].mount, mount) && parts[0].station is Some {
        parts[0].station
    } else {
        station_of(parts.skip(1), mount)
    }
}

/// The first station number past all that are in use.
pub open spec fn fresh_station(parts: Seq<Part>) -> int
    decreases parts.len(),
{
    if parts.len() == 0 {
        0
    } else {
        let front = fresh_station(parts.drop_last());
        match parts.last().station {
            Some(id) => if id + 1 > front {
                id + 1
            } else {
                front
            },
            None => front,
        }
    }
}

/// Whether there is a station number left to give out.
pub open spec fn station_left(parts: Seq<Part>) -> bool {
    fresh_station(parts) <= u32::MAX
}

/// Whether a brush finds the station number that it needs: only a wheel or a strut
/// on a point without a station needs a fresh one.
pub open spec fn station_found(parts: Seq<Part>, brush: Brush, mount: Mount) -> bool {
    (brush is Wheel || brush is Suspension) && station_of(parts, mount) is None ==> station_left(
        parts,
    )
}

/// The station of a part that is already at the point, if there is one.
fn station_at(parts: &Vec<Part>, mount: Mount) -> (id: Option<u32>)
    ensures
        id == station_of(parts@, mount),
{
    let mut i: usize = 0;
    assert(parts@.skip(0) =~= parts@);
    while i < parts.len()
        invariant
            i <= parts.len(),
            station_of(parts@, mount) == station_of(parts@.skip(i as int), mount),
        decreases parts.len() - i,
    {
        assert(parts@.skip(i as int)[0] == parts@[i as int]);
        assert(parts@.skip(i as int).skip(1) =~= parts@.skip(i + 1));
        if parts[i].station.is_some() && is_same_spot(parts[i].mount, mount) {
            return parts[i].station;
        }
        i += 1;
    }
    None
}

/// A longer run of parts needs at least as fresh a station.
proof fn lemma_fresh_station_grows(parts: Seq<Part>, k: int)
    requires
        0 <= k <= parts.len(),
    ensures
        fresh_station(parts.take(k)) <= fresh_station(parts),
    decreases parts.len() - k,
{
    if k < parts.len() {
        lemma_fresh_station_grows(parts, k + 1);
        assert(parts.take(k + 1).drop_last() =~= parts.take(k));
    } else {
        assert(parts.take(k) =~= parts);
    }
}

/// A station number that no part uses yet.
fn next_station_id(parts: &Vec<Part>) -> (id: u32)
    requires
        station_left(parts@),
    ensures
        id == fresh_station(parts@),
{
    let mut fresh: u32 = 0;
    let mut i: usize = 0;
    assert(parts@.take(0) =~= Seq::<Part>::empty());
    while i < parts.len()
        invariant
            i <= parts.len(),
            station_left(parts@),
            fresh == fresh_station(parts@.take(i as int)),
        decreases parts.len() - i,
    {
        proof {
            lemma_fresh_station_grows(parts@, i + 1);
            assert(parts@.take(i + 1).drop_last() =~= parts@.take(i as int));
            assert(parts@.take(i + 1).last() == parts@[i as int]);
        }
        if let Some(id) = parts[i].station {
            if id >= fresh {
                fresh = id + 1;
            }
        }
        i += 1;
    }
    assert(parts@.take(i as int) =~= parts@);
    fresh
}

/// The station that a component placed at a point joins: the one already there,
/// or else a fresh one.
pub open spec fn joining(parts: Seq<Part>, mount: Mount) -> u32 {
    match station_of(parts, mount) {
        Some(id) => id,
        None => fresh_station(parts) as u32,
    }
}

/// Whether a part is the rim or the tyre of a station.
pub open spec fn wheel_part(p: Part, id: u32) -> bool {
    p.station == Some(id) && (p.kind is Rim || p.kind is Tire)
}

/// Whether a part is the strut of a station.
pub open spec fn strut_part(p: Part, id: u32) -> bool {
    p.station == Some(id) && p.kind is Suspension
}

/// `k` milligrams for each micrometre of the cell, but never less than `least`.
pub open spec fn scaled_mass(k: int, cell_size: int, least: int) -> u64 {
    if k * cell_size > least {
        (k * cell_size) as u64
    } else {
        least as u64
    }
}

/// The cosmetic part that a brush places.
pub open spec fn trim_kind(brush: Brush) -> PartKind {
    match brush {
        Brush::Seat => PartKind::Seat,
        Brush::Antenna => PartKind::Antenna,
        Brush::SolarPanel => PartKind::SolarPanel,
        _ => PartKind::Bumper,
    }
}

/// The device that a brush places.
pub open spec fn device_kind(brush: Brush, motor: MotorTier) -> DeviceKind {
    match brush {
        Brush::ControlPoint => DeviceKind::Command { crewed: true },
        Brush::Computer => DeviceKind::Computer { gain_tenths: 4 },
        Brush::Battery => DeviceKind::Battery { capacity: 120 },
        Brush::Engine => DeviceKind::Engine { motor },
        _ => DeviceKind::Tank,
    }
}

/// Where a brush aims: a voxel's cell, a device's cell, and a part's point.
#[derive(Clone, Copy, Debug, PartialEq, Eq, Structural)]
pub struct Aim {
    pub voxel_cell: Cell,
    pub device_cell: Cell,
    pub wheel_mount: Mount,
}

/// The craft after a brush was used.
pub open spec fn placed(
    c: CraftSpec,
    brush: Brush,
    material: Material,
    aim: Aim,
    motor: MotorTier,
) -> CraftSpec {
    let s = c.cell_size;
    let mount = aim.wheel_mount;
    match brush {
        Brush::Voxel => if c.occupied(aim.voxel_cell) {
            c
        } else {
            CraftSpec {
                voxels: c.voxels.push(Voxel { cell: aim.voxel_cell, material }),
                ..c
            }
        },
        Brush::Wheel { preset, steer } => {
            let id = joining(c.parts, mount);
            let mass_mg = scaled_mass(8, s, 500_000);
            CraftSpec {
                parts: c.parts.filter(|p: Part| !wheel_part(p, id)).push(
                    Part {
                        mount,
                        mass_mg,
                        kind: PartKind::Rim(preset.rim_of(s, steer)),
                        station: Some(id),
                    },
                ).push(
                    Part {
                        mount,
                        mass_mg,
                        kind: PartKind::Tire(preset.tire_of(s)),
                        station: Some(id),
                    },
                ),
                ..c
            }
        },
        Brush::Suspension => {
            let id = joining(c.parts, mount);
            CraftSpec {
                parts: c.parts.filter(|p: Part| !strut_part(p, id)).push(
                    Part {
                        mount,
                        mass_mg: scaled_mass(4, s, 300_000),
                        kind: PartKind::Suspension(SuspensionSpec { cell_size_um: s as u32 }),
                        station: Some(id),
                    },
                ),
                ..c
            }
        },
        Brush::Seat | Brush::Antenna | Brush::SolarPanel | Brush::Bumper => CraftSpec {
            parts: c.parts.filter(|p: Part| !same_spot(p.mount, mount)).push(
                Part {
                    mount,
                    mass_mg: scaled_mass(10, s, 1_000_000),
                    kind: trim_kind(brush),
                    station: None,
                },
            ),
            ..c
        },
        Brush::ControlPoint
        | Brush::Computer
        | Brush::Battery
        | Brush::Engine
        | Brush::Tank => CraftSpec {
            devices: c.devices.filter(|d: Device| d.cell != aim.device_cell).push(
                Device { cell: aim.device_cell, kind: device_kind(brush, motor) },
            ),
            ..c
        },
    }
}

/// Keeps the parts that are not the rim or tyre of a station.
fn drop_wheel_parts(parts: &mut Vec<Part>, id: u32)
    ensures
        final(parts)@ == old(parts)@.filter(|p: Part| !wheel_part(p, id)),
{
    let ghost s = parts@;
    let ghost keep = |p: Part| !wheel_part(p, id);
    let mut kept: Vec<Part> = Vec::new();
    let mut i: usize = 0;
    proof {
        reveal(Seq::filter);
        assert(s.take(0).filter(keep) =~= Seq::<Part>::empty());
    }
    while i < parts.len()
        invariant
            i <= parts.len(),
            parts@ == s,
            keep == (|p: Part| !wheel_part(p, id)),
            kept@ == s.take(i as int).filter(keep),
        decreases parts.len() - i,
    {
        proof {
            lemma_filter_next(s, i as int, keep);
        }
        let p: Part = parts[i];
        let here: bool = match p.station {
            Some(k) => k == id,
            None => false,
        };
        if !(here && matches!(p.kind, PartKind::Rim(_) | PartKind::Tire(_))) {
            kept.push(p);
        }
        i += 1;
    }
    assert(s.take(i as int) =~= s);
    *parts = kept;
}

/// Keeps the parts that are not the strut of a station.
fn drop_struts(parts: &mut Vec<Part>, id: u32)
    ensures
        final(parts)@ == old(parts)@.filter(|p: Part| !strut_part(p, id)),
{
    let ghost s = parts@;
    let ghost keep = |p: Part| !strut_part(p, id);
    let mut kept: Vec<Part> = Vec::new();
    let mut i: usize = 0;
    proof {
        reveal(Seq::filter);
        assert(s.take(0).filter(keep) =~= Seq::<Part>::empty());
    }
    while i < parts.len()
        invariant
            i <= parts.len(),
            parts@ == s,
            keep == (|p: Part| !strut_part(p, id)),
            kept@ == s.take(i as int).filter(keep),
        decreases parts.len() - i,
    {
        proof {
            lemma_filter_next(s, i as int, keep);
        }
        let p: Part = parts[i];
        let here: bool = match p.station {
            Some(k) => k == id,
            None => false,
        };
        if !(here && matches!(p.kind, PartKind::Suspension(_))) {
            kept.push(p);
        }
        i += 1;
    }
    assert(s.take(i as int) =~= s);
    *parts = kept;
}

/// Keeps the parts that are not at a point.
fn drop_parts_at(parts: &mut Vec<Part>, mount: Mount)
    ensures
        final(parts)@ == old(parts)@.filter(|p: Part| !same_spot(p.mount, mount)),
{
    let ghost s = parts@;
    let ghost keep = |p: Part| !same_spot(p.mount, mount);
    let mut kept: Vec<Part> = Vec::new();
    let mut i: usize = 0;
    proof {
        reveal(Seq::filter);
        assert(s.take(0).filter(keep) =~= Seq::<Part>::empty());
    }
    while i < parts.len()
        invariant
            i <= parts.len(),
            parts@ == s,
            keep == (|p: Part| !same_spot(p.mount, mount)),
            kept@ == s.take(i as int).filter(keep),
        decreases parts.len() - i,
    {
        proof {
            lemma_filter_next(s, i as int, keep);
        }
        let p: Part = parts[i];
        if !is_same_spot(p.mount, mount) {
            kept.push(p);
        }
        i += 1;
    }
    assert(s.take(i as int) =~= s);
    *parts = kept;
}

/// Uses a brush on a craft: a voxel goes to the aim's voxel cell, a device to
/// its device cell, and a wheel, strut or other part to its point.
pub fn place_brush(
    craft: &mut VoxelCraft,
    brush: Brush,
    material: Material,
    aim: Aim,
    motor: MotorTier,
)
    requires
        old(craft)@.wf(),
        station_found(old(craft)@.parts, brush, aim.wheel_mount),
    ensures
        final(craft)@ == placed(old(craft)@, brush, material, aim, motor),
        final(craft)@.wf(),
{
    let ghost c = craft@;
    let s: u64 = craft.cell_size_um as u64;
    let mount: Mount = aim.wheel_mount;
    match brush {
        Brush::Voxel => {
            if !craft.is_occupied(aim.voxel_cell) {
                craft.voxels.push(Voxel { cell: aim.voxel_cell, material });
            }
        },
        Brush::Wheel { preset, steer } => {
            let id: u32 = match station_at(&craft.parts, mount) {
                Some(id) => id,
                None => next_station_id(&craft.parts),
            };
            drop_wheel_parts(&mut craft.parts, id);
            let mass_mg: u64 = if 8 * s > 500_000 {
                8 * s
            } else {
                500_000
            };
            let rim: RimSpec = preset.rim(craft.cell_size_um, steer);
            let tire: TireSpec = preset.tire(craft.cell_size_um);
            craft.parts.push(
                Part { mount, mass_mg, kind: PartKind::Rim(rim), station: Some(id) },
            );
            craft.parts.push(
                Part { mount, mass_mg, kind: PartKind::Tire(tire), station: Some(id) },
            );
        },
        Brush::Suspension => {
            let id: u32 = match station_at(&craft.parts, mount) {
                Some(id) => id,
                None => next_station_id(&craft.parts),
            };
            drop_struts(&mut craft.parts, id);
            let mass_mg: u64 = if 4 * s > 300_000 {
                4 * s
            } else {
                300_000
            };
            let strut = SuspensionSpec { cell_size_um: craft.cell_size_um };
            craft.parts.push(
                Part { mount, mass_mg, kind: PartKind::Suspension(strut), station: Some(id) },
            );
        },
        Brush::Seat | Brush::Antenna | Brush::SolarPanel | Brush::Bumper => {
            let kind: PartKind = match brush {
                Brush::Seat => PartKind::Seat,
                Brush::Antenna => PartKind::Antenna,
                Brush::SolarPanel => PartKind::SolarPanel,
                _ => PartKind::Bumper,
            };
            drop_parts_at(&mut craft.parts, mount);
            let mass_mg: u64 = if 10 * s > 1_000_000 {
                10 * s
            } else {
                1_000_000
            };
            craft.parts.push(Part { mount, mass_mg, kind, station: None });
        },
        Brush::ControlPoint | Brush::Computer | Brush::Battery | Brush::Engine | Brush::Tank => {
            let kind: DeviceKind = match brush {
                Brush::ControlPoint => DeviceKind::Command { crewed: true },
                Brush::Computer => DeviceKind::Computer { gain_tenths: 4 },
                Brush::Battery => DeviceKind::Battery { capacity: 120 },
                Brush::Engine => DeviceKind::Engine { motor },
                _ => DeviceKind::Tank,
            };
            drop_devices_at(&mut craft.devices, aim.device_cell);
            craft.devices.push(Device { cell: aim.device_cell, kind });
        },
    }
    assert(craft@ =~= placed(c, brush, material, aim, motor));
}

/// One step along an axis: what the two keys for it ask for together.
pub open spec fn step_of(keys: Keyboard, less: KeyCode, more: KeyCode) -> int {
    (if keys.tapped(more) {
        1int
    } else {
        0
    }) - (if keys.tapped(less) {
        1int
    } else {
        0
    })
}

/// The cursor after the arrow keys and the page keys.
pub open spec fn cursor_after(c: Cell, keys: Keyboard) -> Cell {
    Cell {
        x: (c.x + step_of(keys, KeyCode::ArrowLeft, KeyCode::ArrowRight)) as i32,
        y: (c.y + step_of(keys, KeyCode::PageDown, KeyCode::PageUp)) as i32,
        z: (c.z + step_of(keys, KeyCode::ArrowUp, KeyCode::ArrowDown)) as i32,
    }
}

/// Whether the cursor has room for the step that the keys ask for.
pub open spec fn cursor_fits(c: Cell, keys: Keyboard) -> bool {
    &&& i32::MIN <= c.x + step_of(keys, KeyCode::ArrowLeft, KeyCode::ArrowRight) <= i32::MAX
    &&& i32::MIN <= c.y + step_of(keys, KeyCode::PageDown, KeyCode::PageUp) <= i32::MAX
    &&& i32::MIN <= c.z + step_of(keys, KeyCode::ArrowUp, KeyCode::ArrowDown) <= i32::MAX
}

/// One step along an axis.
fn step(keys: &Keyboard, less: KeyCode, more: KeyCode) -> (d: i32)
    ensures
        d == step_of(*keys, less, more),
        -1 <= d <= 1,
{
    let up: i32 = if keys.just_pressed(more) {
        1
    } else {
        0
    };
    let down: i32 = if keys.just_pressed(less) {
        1
    } else {
        0
    };
    up - down
}

/// The brush that a key selects, the first of those pressed.
pub open spec fn keyed_brush(keys: Keyboard) -> Option<Brush> {
    if keys.tapped(KeyCode::Digit1) {
        Some(Brush::ControlPoint)
    } else if keys.tapped(KeyCode::Digit2) {
        Some(Brush::Computer)
    } else if keys.tapped(KeyCode::Digit3) {
        Some(Brush::Battery)
    } else if keys.tapped(KeyCode::KeyG) || keys.tapped(KeyCode::Digit4) {
        Some(Brush::Engine)
    } else if keys.tapped(KeyCode::Digit5) {
        Some(Brush::Tank)
    } else if keys.tapped(KeyCode::Digit6) {
        Some(Brush::Wheel { preset: WheelPreset::Road, steer: false })
    } else if keys.tapped(KeyCode::Digit7) {
        Some(Brush::Wheel { preset: WheelPreset::Road, steer: true })
    } else if keys.tapped(KeyCode::KeyU) {
        Some(Brush::Suspension)
    } else if keys.tapped(KeyCode::Digit8) {
        Some(Brush::Seat)
    } else if keys.tapped(KeyCode::Digit9) {
        Some(Brush::Antenna)
    } else if keys.tapped(KeyCode::Digit0) {
        Some(Brush::SolarPanel)
    } else if keys.tapped(KeyCode::Minus) {
        Some(Brush::Bumper)
    } else {
        None
    }
}

/// The brush that a key selects.
fn brush_key(keys: &Keyboard) -> (b: Option<Brush>)
    ensures
        b == keyed_brush(*keys),
{
    if keys.just_pressed(KeyCode::Digit1) {
        Some(Brush::ControlPoint)
    } else if keys.just_pressed(KeyCode::Digit2) {
        Some(Brush::Computer)
    } else if keys.just_pressed(KeyCode::Digit3) {
        Some(Brush::Battery)
    } else if keys.just_pressed(KeyCode::KeyG) || keys.just_pressed(KeyCode::Digit4) {
        Some(Brush::Engine)
    } else if keys.just_pressed(KeyCode::Digit5) {
        Some(Brush::Tank)
    } else if keys.just_pressed(KeyCode::Digit6) {
        Some(Brush::Wheel { preset: WheelPreset::Road, steer: false })
    } else if keys.just_pressed(KeyCode::Digit7) {
        Some(Brush::Wheel { preset: WheelPreset::Road, steer: true })
    } else if keys.just_pressed(KeyCode::KeyU) {
        Some(Brush::Suspension)
    } else if keys.just_pressed(KeyCode::Digit8) {
        Some(Brush::Seat)
    } else if keys.just_pressed(KeyCode::Digit9) {
        Some(Brush::Antenna)
    } else if keys.just_pressed(KeyCode::Digit0) {
        Some(Brush::SolarPanel)
    } else if keys.just_pressed(KeyCode::Minus) {
        Some(Brush::Bumper)
    } else {
        None
    }
}

/// The next larger motor, round and round.
pub open spec fn next_motor(m: MotorTier) -> MotorTier {
    match m {
        MotorTier::Economy => MotorTier::Standard,
        MotorTier::Standard => MotorTier::Performance,
        MotorTier::Performance => MotorTier::Heavy,
        MotorTier::Heavy => MotorTier::Economy,
    }
}

/// The selection after the keyboard: Tab takes the next material and the voxel
/// brush, a brush key takes its brush, and `M` takes the next motor.
pub open spec fn selected(e: EditorSpec, keys: Keyboard) -> EditorSpec {
    EditorSpec {
        material: if keys.tapped(KeyCode::Tab) {
            (e.material + 1) % 4
        } else {
            e.material
        },
        brush: match keyed_brush(keys) {
            Some(b) => b,
            None => if keys.tapped(KeyCode::Tab) {
                Brush::Voxel
            } else {
                e.brush
            },
        },
        motor: if keys.tapped(KeyCode::KeyM) {
            next_motor(e.motor)
        } else {
            e.motor
        },
        ..e
    }
}

/// The point at a cell's centre.
pub open spec fn center_mount(cell: Cell, cell_size: int) -> Mount {
    let c = center_of(cell, cell_size);
    Mount { x: c.0 as i64, y: c.1 as i64, z: c.2 as i64 }
}

/// The aim of the keyboard: everything goes to one cell.
pub open spec fn aim_at(cell: Cell, cell_size: int) -> Aim {
    Aim { voxel_cell: cell, device_cell: cell, wheel_mount: center_mount(cell, cell_size) }
}

/// The craft without what is in a cell: its voxel, its device, and the parts at
/// its centre.
pub open spec fn removed(c: CraftSpec, cell: Cell) -> CraftSpec {
    let center = center_mount(cell, c.cell_size);
    CraftSpec {
        voxels: c.voxels.filter(|v: Voxel| v.cell != cell),
        devices: c.devices.filter(|d: Device| d.cell != cell),
        parts: c.parts.filter(|p: Part| !same_spot(p.mount, center)),
        ..c
    }
}

/// The editor after a frame of the keyboard: the cursor moves, the selection
/// changes, Space places at the cursor, Backspace removes there.
pub open spec fn edited(e: EditorSpec, keys: Keyboard) -> EditorSpec {
    let f = moved(e, keys);
    let a = if keys.tapped(KeyCode::Space) {
        placed(
            f.craft,
            f.brush,
            palette_material(f.material),
            aim_at(f.cursor, f.craft.cell_size),
            f.motor,
        )
    } else {
        f.craft
    };
    EditorSpec {
        craft: if keys.tapped(KeyCode::Backspace) {
            removed(a, f.cursor)
        } else {
            a
        },
        ..f
    }
}

/// What the editor asks of the caller.
#[derive(Clone, Copy, Debug, PartialEq, Eq, Structural)]
pub enum EditorRequest {
    /// Save the build as a craft.
    SaveCraft,
    /// Replace the build by the saved craft.
    LoadCraft,
    /// Save the build as a blueprint.
    SaveBlueprint,
    /// Save the build as a subassembly.
    SaveSubassembly,
    /// Load the subassembly into the buffer.
    LoadSubassembly,
    /// Insert the buffered subassembly, if there is one, at a cell.
    InsertSubassembly(Cell),
    /// Print the build's mass properties.
    LogMass,
}

/// One request, if its key went down.
pub open spec fn asked(keys: Keyboard, key: KeyCode, r: EditorRequest) -> Seq<EditorRequest> {
    if keys.tapped(key) {
        seq![r]
    } else {
        Seq::empty()
    }
}

/// What the keyboard asks of the caller, in order.
pub open spec fn requests(cursor: Cell, keys: Keyboard) -> Seq<EditorRequest> {
    asked(keys, KeyCode::KeyK, EditorRequest::SaveCraft) + asked(
        keys,
        KeyCode::KeyO,
        EditorRequest::LoadCraft,
    ) + asked(keys, KeyCode::KeyB, EditorRequest::SaveBlueprint) + asked(
        keys,
        KeyCode::KeyN,
        EditorRequest::SaveSubassembly,
    ) + asked(keys, KeyCode::KeyL, EditorRequest::LoadSubassembly) + asked(
        keys,
        KeyCode::KeyV,
        EditorRequest::InsertSubassembly(cursor),
    ) + asked(keys, KeyCode::KeyM, EditorRequest::LogMass)
}

/// Removes what is in a cell.
fn remove_at(craft: &mut VoxelCraft, cell: Cell)
    requires
        old(craft)@.wf(),
    ensures
        final(craft)@ == removed(old(craft)@, cell),
        final(craft)@.wf(),
{
    let ghost c = craft@;
    let center: Mount = cell_center(cell, craft.cell_size_um);
    drop_voxels_at(&mut craft.voxels, cell);
    drop_devices_at(&mut craft.devices, cell);
    drop_parts_at(&mut craft.parts, center);
    assert(craft@ =~= removed(c, cell));
}

/// Moves the cursor and changes the selection.
fn move_and_select(keys: &Keyboard, state: &mut EditorState)
    requires
        old(state)@.wf(),
        cursor_fits(old(state).cursor, *keys),
    ensures
        final(state)@ == selected(
            EditorSpec { cursor: cursor_after(old(state).cursor, *keys), ..old(state)@ },
            *keys,
        ),
        final(state)@.wf(),
        final(state).subassembly == old(state).subassembly,
{
    let ghost e = state@;
    let dx: i32 = step(keys, KeyCode::ArrowLeft, KeyCode::ArrowRight);
    let dy: i32 = step(keys, KeyCode::PageDown, KeyCode::PageUp);
    let dz: i32 = step(keys, KeyCode::ArrowUp, KeyCode::ArrowDown);
    state.cursor = Cell {
        x: state.cursor.x + dx,
        y: state.cursor.y + dy,
        z: state.cursor.z + dz,
    };
    if keys.just_pressed(KeyCode::Tab) {
        state.material = (state.material + 1) % PALETTE_LEN;
        state.brush = Brush::Voxel;
    }
    if let Some(b) = brush_key(keys) {
        state.brush = b;
    }
    if keys.just_pressed(KeyCode::KeyM) {
        state.motor = match state.motor {
            MotorTier::Economy => MotorTier::Standard,
            MotorTier::Standard => MotorTier::Performance,
            MotorTier::Performance => MotorTier::Heavy,
            MotorTier::Heavy => MotorTier::Economy,
        };
    }
}

/// Adds a request if its key went down.
fn ask_for(out: &mut Vec<EditorRequest>, keys: &Keyboard, key: KeyCode, r: EditorRequest)
    ensures
        final(out)@ == old(out)@ + asked(*keys, key, r),
{
    let ghost before = out@;
    if keys.just_pressed(key) {
        out.push(r);
    }
    assert(out@ =~= before + asked(*keys, key, r));
}

/// What the keyboard asks of the caller.
fn ask(keys: &Keyboard, at: Cell) -> (out: Vec<EditorRequest>)
    ensures
        out@ == requests(at, *keys),
{
    let mut out: Vec<EditorRequest> = Vec::new();
    ask_for(&mut out, keys, KeyCode::KeyK, EditorRequest::SaveCraft);
    assert(out@ =~= asked(*keys, KeyCode::KeyK, EditorRequest::SaveCraft));
    ask_for(&mut out, keys, KeyCode::KeyO, EditorRequest::LoadCraft);
    ask_for(&mut out, keys, KeyCode::KeyB, EditorRequest::SaveBlueprint);
    ask_for(&mut out, keys, KeyCode::KeyN, EditorRequest::SaveSubassembly);
    ask_for(&mut out, keys, KeyCode::KeyL, EditorRequest::LoadSubassembly);
    ask_for(&mut out, keys, KeyCode::KeyV, EditorRequest::InsertSubassembly(at));
    ask_for(&mut out, keys, KeyCode::KeyM, EditorRequest::LogMass);
    out
}

/// The editor's cursor and selection after a frame of the keyboard.
pub open spec fn moved(e: EditorSpec, keys: Keyboard) -> EditorSpec {
    selected(EditorSpec { cursor: cursor_after(e.cursor, keys), ..e }, keys)
}

/// Whether the numbers of a build suffice for what the keys ask for: room for the
/// cursor's step, and the station that a placed part needs.
pub open spec fn numbers_suffice(e: EditorSpec, keys: Keyboard) -> bool {
    &&& cursor_fits(e.cursor, keys)
    &&& keys.tapped(KeyCode::Space) ==> {
        let f = moved(e, keys);
        station_found(
            f.craft.parts,
            f.brush,
            aim_at(f.cursor, f.craft.cell_size).wheel_mount,
        )
    }
}

/// Whether a coordinate has room for a step.
fn has_room(v: i32, keys: &Keyboard, less: KeyCode, more: KeyCode) -> (b: bool)
    ensures
        b == (i32::MIN <= v + step_of(*keys, less, more) <= i32::MAX),
{
    let d: i32 = step(keys, less, more);
    let next: i64 = v as i64 + d as i64;
    i32::MIN as i64 <= next && next <= i32::MAX as i64
}

/// Whether there is a station number left to give out.
fn any_station_left(parts: &Vec<Part>) -> (b: bool)
    ensures
        b == station_left(parts@),
{
    let mut i: usize = 0;
    assert(parts@.take(0) =~= Seq::<Part>::empty());
    while i < parts.len()
        invariant
            i <= parts.len(),
            station_left(parts@.take(i as int)),
        decreases parts.len() - i,
    {
        proof {
            lemma_fresh_station_grows(parts@, i + 1);
            assert(parts@.take(i + 1).drop_last() =~= parts@.take(i as int));
            assert(parts@.take(i + 1).last() == parts@[i as int]);
        }
        if let Some(id) = parts[i].station {
            if id == u32::MAX {
                return false;
            }
        }
        i += 1;
    }
    assert(parts@.take(i as int) =~= parts@);
    true
}

/// Whether the numbers of a build suffice for what the keys ask for.
pub fn can_edit(keys: &Keyboard, state: &EditorState) -> (b: bool)
    requires
        state@.wf(),
    ensures
        b == numbers_suffice(state@, *keys),
{
    if !has_room(state.cursor.x, keys, KeyCode::ArrowLeft, KeyCode::ArrowRight) || !has_room(
        state.cursor.y,
        keys,
        KeyCode::PageDown,
        KeyCode::PageUp,
    ) || !has_room(state.cursor.z, keys, KeyCode::ArrowUp, KeyCode::ArrowDown) {
        return false;
    }
    if !keys.just_pressed(KeyCode::Space) {
        return true;
    }
    let brush: Brush = match brush_key(keys) {
        Some(b) => b,
        None => if keys.just_pressed(KeyCode::Tab) {
            Brush::Voxel
        } else {
            state.brush
        },
    };
    let at = Cell {
        x: state.cursor.x + step(keys, KeyCode::ArrowLeft, KeyCode::ArrowRight),
        y: state.cursor.y + step(keys, KeyCode::PageDown, KeyCode::PageUp),
        z: state.cursor.z + step(keys, KeyCode::ArrowUp, KeyCode::ArrowDown),
    };
    let ghost f = moved(state@, *keys);
    assert(at == f.cursor && brush == f.brush);
    let mount: Mount = cell_center(at, state.craft.cell_size_um);
    assert(mount == aim_at(f.cursor, f.craft.cell_size).wheel_mount);
    if !matches!(brush, Brush::Wheel { .. } | Brush::Suspension) {
        return true;
    }
    if station_at(&state.craft.parts, mount).is_some() {
        return true;
    }
    any_station_left(&state.craft.parts)
}

/// Editor key bindings: one frame of the keyboard; what is asked of the caller.
pub fn editor_input(keys: &Keyboard, state: &mut EditorState) -> (out: Vec<EditorRequest>)
    requires
        old(state)@.wf(),
        numbers_suffice(old(state)@, *keys),
    ensures
        final(state)@ == edited(old(state)@, *keys),
        final(state)@.wf(),
        final(state).subassembly == old(state).subassembly,
        out@ == requests(final(state).cursor, *keys),
{
    let ghost e = state@;
    move_and_select(keys, state);
    let ghost f = state@;
    let at: Cell = state.cursor;
    if keys.just_pressed(KeyCode::Space) {
        let material: Material = material_at(state.material);
        let center: Mount = cell_center(at, state.craft.cell_size_um);
        let aim = Aim { voxel_cell: at, device_cell: at, wheel_mount: center };
        assert(aim == aim_at(at, f.craft.cell_size));
        let brush: Brush = state.brush;
        let motor: MotorTier = state.motor;
        place_brush(&mut state.craft, brush, material, aim, motor);
    }
    if keys.just_pressed(KeyCode::Backspace) {
        remove_at(&mut state.craft, at);
    }
    assert(state@ =~= edited(e, *keys));
    ask(keys, at)
}

/// The cell under the mouse: where a left click adds, what a right click
/// removes (nothing over bare ground), and which cell to highlight.
#[derive(Clone, Copy, Debug, PartialEq, Eq, Structural)]
pub struct Hovered {
    pub add_cell: Cell,
    pub remove_cell: Option<Cell>,
    pub highlight: Cell,
}

/// Where a left click aims: a voxel or a part goes on the face, into the empty
/// cell beside it; a device goes into the hovered cell itself.
pub open spec fn click_aim(h: Hovered, cell_size: int) -> Aim {
    Aim {
        voxel_cell: h.add_cell,
        device_cell: match h.remove_cell {
            Some(cell) => cell,
            None => h.add_cell,
        },
        wheel_mount: center_mount(h.add_cell, cell_size),
    }
}

/// Whether a part stays after a right click: it has to be well apart from the
/// centre of the face cell and from that of the hovered cell.
pub open spec fn spared(p: Part, h: Hovered, cell_size: int) -> bool {
    &&& well_apart(p.mount, center_mount(h.add_cell, cell_size), cell_size)
    &&& match h.remove_cell {
        Some(cell) => well_apart(p.mount, center_mount(cell, cell_size), cell_size),
        None => true,
    }
}

/// The craft after a right click: the hovered cell loses its voxel and its
/// device, and parts near it or near the face go.
pub open spec fn cleared(c: CraftSpec, h: Hovered) -> CraftSpec {
    CraftSpec {
        voxels: match h.remove_cell {
            Some(cell) => c.voxels.filter(|v: Voxel| v.cell != cell),
            None => c.voxels,
        },
        devices: match h.remove_cell {
            Some(cell) => c.devices.filter(|d: Device| d.cell != cell),
            None => c.devices,
        },
        parts: c.parts.filter(|p: Part| spared(p, h, c.cell_size)),
        ..c
    }
}

/// The editor after a frame of the mouse. A click on the palette never edits
/// the craft behind it.
pub open spec fn clicked(
    e: EditorSpec,
    mouse: Mouse,
    hover: Option<Hovered>,
    on_palette: bool,
) -> EditorSpec {
    if on_palette || hover is None {
        e
    } else {
        let h = hover->0;
        let a = if mouse.tapped(MouseButton::Left) {
            placed(
                e.craft,
                e.brush,
                palette_material(e.material),
                click_aim(h, e.craft.cell_size),
                e.motor,
            )
        } else {
            e.craft
        };
        EditorSpec {
            craft: if mouse.tapped(MouseButton::Right) {
                cleared(a, h)
            } else {
                a
            },
            ..e
        }
    }
}

/// Keeps the parts that a right click spares.
fn drop_parts_near(parts: &mut Vec<Part>, h: Hovered, cell_size_um: u32)
    requires
        cell_size_um <= MAX_CELL_SIZE_UM,
    ensures
        final(parts)@ == old(parts)@.filter(|p: Part| spared(p, h, cell_size_um as int)),
{
    let ghost s = parts@;
    let ghost keep = |p: Part| spared(p, h, cell_size_um as int);
    let face: Mount = cell_center(h.add_cell, cell_size_um);
    let mut kept: Vec<Part> = Vec::new();
    let mut i: usize = 0;
    proof {
        reveal(Seq::filter);
        assert(s.take(0).filter(keep) =~= Seq::<Part>::empty());
    }
    while i < parts.len()
        invariant
            cell_size_um <= MAX_CELL_SIZE_UM,
            i <= parts.len(),
            parts@ == s,
            face == center_mount(h.add_cell, cell_size_um as int),
            keep == (|p: Part| spared(p, h, cell_size_um as int)),
            kept@ == s.take(i as int).filter(keep),
        decreases parts.len() - i,
    {
        proof {
            lemma_filter_next(s, i as int, keep);
        }
        let p: Part = parts[i];
        let mut stays: bool = is_well_apart(p.mount, face, cell_size_um);
        if let Some(cell) = h.remove_cell {
            let center: Mount = cell_center(cell, cell_size_um);
            stays = stays && is_well_apart(p.mount, center, cell_size_um);
        }
        if stays {
            kept.push(p);
        }
        i += 1;
    }
    assert(s.take(i as int) =~= s);
    *parts = kept;
}

/// Mouse building: a left click places the active brush, a right click removes.
pub fn mouse_build(
    mouse: &Mouse,
    hover: Option<Hovered>,
    on_palette: bool,
    state: &mut EditorState,
)
    requires
        old(state)@.wf(),
        hover is Some && !on_palette && mouse.tapped(MouseButton::Left) ==> station_found(
            old(state)@.craft.parts,
            old(state)@.brush,
            click_aim(hover->0, old(state)@.craft.cell_size).wheel_mount,
        ),
    ensures
        final(state)@ == clicked(old(state)@, *mouse, hover, on_palette),
        final(state)@.wf(),
        final(state).subassembly == old(state).subassembly,
{
    let ghost e = state@;
    if on_palette {
        return;
    }
    if let Some(h) = hover {
        if mouse.just_pressed(MouseButton::Left) {
            let material: Material = material_at(state.material);
            let device_cell: Cell = match h.remove_cell {
                Some(cell) => cell,
                None => h.add_cell,
            };
            let wheel_mount: Mount = cell_center(h.add_cell, state.craft.cell_size_um);
            let aim = Aim { voxel_cell: h.add_cell, device_cell, wheel_mount };
            assert(aim == click_aim(h, e.craft.cell_size));
            let brush: Brush = state.brush;
            let motor: MotorTier = state.motor;
            place_brush(&mut state.craft, brush, material, aim, motor);
        }
        if mouse.just_pressed(MouseButton::Right) {
            if let Some(cell) = h.remove_cell {
                drop_voxels_at(&mut state.craft.voxels, cell);
                drop_devices_at(&mut state.craft.devices, cell);
            }
            let s: u32 = state.craft.cell_size_um;
            drop_parts_near(&mut state.craft.parts, h, s);
        }
        assert(state@ =~= clicked(e, *mouse, hover, on_palette));
    }
}

/// One selectable item of the palette: a structural material, which comes with
/// the voxel brush, or a tool.
#[derive(Clone, Copy, Debug, PartialEq, Eq, Structural)]
pub enum PaletteEntry {
    Material(usize),
    Tool(Brush),
}

/// A titled group of palette entries.
#[derive(Debug, PartialEq, Eq)]
pub struct PaletteGroup {
    pub title: &'static str,
    pub entries: Vec<PaletteEntry>,
}

/// The structural blocks.
pub open spec fn block_entries() -> Seq<PaletteEntry> {
    seq![
        PaletteEntry::Material(0),
        PaletteEntry::Material(1),
        PaletteEntry::Material(2),
        PaletteEntry::Material(3),
    ]
}

/// The devices.
pub open spec fn device_entries() -> Seq<PaletteEntry> {
    seq![
        PaletteEntry::Tool(Brush::ControlPoint),
        PaletteEntry::Tool(Brush::Computer),
        PaletteEntry::Tool(Brush::Battery),
        PaletteEntry::Tool(Brush::Engine),
        PaletteEntry::Tool(Brush::Tank),
    ]
}

/// The wheels and the strut.
pub open spec fn wheel_entries() -> Seq<PaletteEntry> {
    seq![
        PaletteEntry::Tool(Brush::Wheel { preset: WheelPreset::OffRoad, steer: false }),
        PaletteEntry::Tool(Brush::Wheel { preset: WheelPreset::OffRoad, steer: true }),
        PaletteEntry::Tool(Brush::Wheel { preset: WheelPreset::Road, steer: false }),
        PaletteEntry::Tool(Brush::Wheel { preset: WheelPreset::Road, steer: true }),
        PaletteEntry::Tool(Brush::Wheel { preset: WheelPreset::Slick, steer: false }),
        PaletteEntry::Tool(Brush::Wheel { preset: WheelPreset::Slick, steer: true }),
        PaletteEntry::Tool(Brush::Suspension),
    ]
}

/// The other parts.
pub open spec fn part_entries() -> Seq<PaletteEntry> {
    seq![
        PaletteEntry::Tool(Brush::Seat),
        PaletteEntry::Tool(Brush::Antenna),
        PaletteEntry::Tool(Brush::SolarPanel),
        PaletteEntry::Tool(Brush::Bumper),
    ]
}

/// Every entry of the palette, in order.
pub open spec fn palette_entries() -> Seq<PaletteEntry> {
    block_entries() + device_entries() + wheel_entries() + part_entries()
}

/// The palette's groups: blocks, devices, wheels, parts.
pub fn palette_groups() -> (g: Vec<PaletteGroup>)
    ensures
        g@.len() == 4,
        g@[0].title@ == "BLOCKS"@,
        g@[0].entries@ == block_entries(),
        g@[1].title@ == "DEVICES"@,
        g@[1].entries@ == device_entries(),
        g@[2].title@ == "WHEELS"@,
        g@[2].entries@ == wheel_entries(),
        g@[3].title@ == "PARTS"@,
        g@[3].entries@ == part_entries(),
{
    let mut blocks: Vec<PaletteEntry> = Vec::new();
    blocks.push(PaletteEntry::Material(0));
    blocks.push(PaletteEntry::Material(1));
    blocks.push(PaletteEntry::Material(2));
    blocks.push(PaletteEntry::Material(3));
    assert(blocks@ =~= block_entries());
    let mut devices: Vec<PaletteEntry> = Vec::new();
    devices.push(PaletteEntry::Tool(Brush::ControlPoint));
    devices.push(PaletteEntry::Tool(Brush::Computer));
    devices.push(PaletteEntry::Tool(Brush::Battery));
    devices.push(PaletteEntry::Tool(Brush::Engine));
    devices.push(PaletteEntry::Tool(Brush::Tank));
    assert(devices@ =~= device_entries());
    let mut wheels: Vec<PaletteEntry> = Vec::new();
    wheels.push(PaletteEntry::Tool(Brush::Wheel { preset: WheelPreset::OffRoad, steer: false }));
    wheels.push(PaletteEntry::Tool(Brush::Wheel { preset: WheelPreset::OffRoad, steer: true }));
    wheels.push(PaletteEntry::Tool(Brush::Wheel { preset: WheelPreset::Road, steer: false }));
    wheels.push(PaletteEntry::Tool(Brush::Wheel { preset: WheelPreset::Road, steer: true }));
    wheels.push(PaletteEntry::Tool(Brush::Wheel { preset: WheelPreset::Slick, steer: false }));
    wheels.push(PaletteEntry::Tool(Brush::Wheel { preset: WheelPreset::Slick, steer: true }));
    wheels.push(PaletteEntry::Tool(Brush::Suspension));
    assert(wheels@ =~= wheel_entries());
    let mut parts: Vec<PaletteEntry> = Vec::new();
    parts.push(PaletteEntry::Tool(Brush::Seat));
    parts.push(PaletteEntry::Tool(Brush::Antenna));
    parts.push(PaletteEntry::Tool(Brush::SolarPanel));
    parts.push(PaletteEntry::Tool(Brush::Bumper));
    assert(parts@ =~= part_entries());
    let mut g: Vec<PaletteGroup> = Vec::new();
    g.push(PaletteGroup { title: "BLOCKS", entries: blocks });
    g.push(PaletteGroup { title: "DEVICES", entries: devices });
    g.push(PaletteGroup { title: "WHEELS", entries: wheels });
    g.push(PaletteGroup { title: "PARTS", entries: parts });
    g
}

/// The selection after an entry was picked.
pub open spec fn picked(entry: PaletteEntry, e: EditorSpec) -> EditorSpec {
    match entry {
        PaletteEntry::Material(i) => EditorSpec {
            material: i as int % 4,
            brush: Brush::Voxel,
            ..e
        },
        PaletteEntry::Tool(brush) => EditorSpec { brush, ..e },
    }
}

/// Whether an entry is the one selected. With the voxel brush that is the
/// material being placed.
pub open spec fn shows_active(entry: PaletteEntry, e: EditorSpec) -> bool {
    match entry {
        PaletteEntry::Material(i) => e.brush == Brush::Voxel && e.material % 4 == i as int % 4,
        PaletteEntry::Tool(brush) => e.brush == brush,
    }
}

impl PaletteEntry {
    /// Picks this entry: a material sets the material and the voxel brush, a
    /// tool sets its brush.
    pub fn apply(self, state: &mut EditorState)
        ensures
            final(state)@ == picked(self, old(state)@),
            old(state)@.wf() ==> final(state)@.wf(),
            final(state).subassembly == old(state).subassembly,
    {
        match self {
            PaletteEntry::Material(i) => {
                state.material = i % PALETTE_LEN;
                state.brush = Brush::Voxel;
            },
            PaletteEntry::Tool(brush) => {
                state.brush = brush;
            },
        }
    }

    /// Whether this entry is the one selected.
    pub fn is_active(self, state: &EditorState) -> (b: bool)
        ensures
            b == shows_active(self, state@),
    {
        match self {
            PaletteEntry::Material(i) => state.brush == Brush::Voxel && state.material % PALETTE_LEN
                == i % PALETTE_LEN,
            PaletteEntry::Tool(brush) => state.brush == brush,
        }
    }

    /// The label shown beside the swatch.
    pub fn label(self) -> (s: &'static str)
        ensures
            s@ == (match self {
                PaletteEntry::Material(i) => palette_name(i as int % 4),
                PaletteEntry::Tool(brush) => brush.name(),
            }),
    {
        match self {
            PaletteEntry::Material(i) => material_label(i),
            PaletteEntry::Tool(brush) => brush.label(),
        }
    }
}

/// Picking an entry of the palette selects it, and then it is the only one that
/// shows as active.
pub proof fn lemma_one_entry_is_active(e: EditorSpec, i: int, j: int)
    requires
        0 <= i < palette_entries().len(),
        0 <= j < palette_entries().len(),
    ensures
        shows_active(palette_entries()[j], picked(palette_entries()[i], e)) <==> i == j,
{
}

/// The kinds of saved document that hold a craft, and one that does not.
#[derive(Clone, Copy, Debug, PartialEq, Eq, Structural)]
pub enum Kind {
    Craft,
    Subassembly,
    Blueprint,
    WorldSave,
}

/// The kind of document that a build is saved as when `kind` is asked for: a
/// subassembly or a blueprint as such, anything else as a craft.
pub open spec fn kind_saved(kind: Kind) -> Kind {
    match kind {
        Kind::Subassembly => Kind::Subassembly,
        Kind::Blueprint => Kind::Blueprint,
        _ => Kind::Craft,
    }
}

/// The kind of document that a build is saved as when `kind` is asked for.
pub fn saved_kind(kind: Kind) -> (k: Kind)
    ensures
        k == kind_saved(kind),
{
    match kind {
        Kind::Subassembly => Kind::Subassembly,
        Kind::Blueprint => Kind::Blueprint,
        _ => Kind::Craft,
    }
}

/// The craft that a loaded document holds, if it is of a kind that holds one.
pub open spec fn held_craft(kind: Kind, craft: VoxelCraft) -> Option<VoxelCraft> {
    if kind == Kind::WorldSave {
        None
    } else {
        Some(craft)
    }
}

/// The craft that a loaded document holds, if it is of a kind that holds one.
pub fn loaded_craft(kind: Kind, craft: VoxelCraft) -> (c: Option<VoxelCraft>)
    ensures
        c == held_craft(kind, craft),
{
    match kind {
        Kind::WorldSave => None,
        _ => Some(craft),
    }
}

/// Whatever kind of document is asked for, a build that is saved loads again.
pub proof fn lemma_saved_builds_load_again(kind: Kind, craft: VoxelCraft)
    ensures
        held_craft(kind_saved(kind), craft) == Some(craft),
{
}

/// Whether one cell comes before another: lower first, then by `x`, then by
/// `z`.
pub open spec fn lower_first(a: Cell, b: Cell) -> bool {
    a.y < b.y || (a.y == b.y && (a.x < b.x || (a.x == b.x && a.z < b.z)))
}

/// Gives a subassembly that has no attachment point one, on the underside of
/// its lowest cell; an empty one gets none.
pub fn save_subassembly(craft: &mut VoxelCraft)
    ensures
        final(craft)@.cell_size == old(craft)@.cell_size,
        final(craft)@.voxels == old(craft)@.voxels,
        final(craft)@.devices == old(craft)@.devices,
        final(craft)@.parts == old(craft)@.parts,
        old(craft)@.attachments.len() > 0 || old(craft)@.voxels.len() == 0
            ==> final(craft)@.attachments == old(craft)@.attachments,
        old(craft)@.attachments.len() == 0 && old(craft)@.voxels.len() > 0 ==> {
            &&& final(craft)@.attachments.len() == 1
            &&& final(craft)@.attachments[0].face == Face::NegY
            &&& old(craft)@.occupied(final(craft)@.attachments[0].cell)
            &&& forall|i: int|
                0 <= i < old(craft)@.voxels.len() ==> !lower_first(
                    (#[trigger] old(craft)@.voxels[i]).cell,
                    final(craft)@.attachments[0].cell,
                )
        },
{
    if craft.attachments.len() == 0 && craft.voxels.len() > 0 {
        let mut lowest: Cell = craft.voxels[0].cell;
        let mut i: usize = 1;
        assert(craft@.voxels[0].cell == lowest);
        while i < craft.voxels.len()
            invariant
                1 <= i <= craft.voxels.len(),
                craft@.occupied(lowest),
                forall|j: int|
                    0 <= j < i ==> !lower_first((#[trigger] craft@.voxels[j]).cell, lowest),
            decreases craft.voxels.len() - i,
        {
            let c: Cell = craft.voxels[i].cell;
            if c.y < lowest.y || (c.y == lowest.y && (c.x < lowest.x || (c.x == lowest.x && c.z
                < lowest.z))) {
                lowest = c;
                assert(craft@.voxels[i as int].cell == lowest);
            }
            i += 1;
        }
        craft.attachments.push(AttachmentPoint { cell: lowest, face: Face::NegY });
    }
}

/// Whether no two voxels share a cell and no two devices share a cell.
pub open spec fn one_per_cell(c: CraftSpec) -> bool {
    &&& forall|i: int, j: int|
        0 <= i < j < c.voxels.len() ==> (#[trigger] c.voxels[i]).cell != (
        #[trigger] c.voxels[j]).cell
    &&& forall|i: int, j: int|
        0 <= i < j < c.devices.len() ==> (#[trigger] c.devices[i]).cell != (
        #[trigger] c.devices[j]).cell
}

/// Filtering keeps devices apart.
proof fn lemma_devices_stay_apart(devices: Seq<Device>, keep: spec_fn(Device) -> bool)
    requires
        forall|i: int, j: int|
            0 <= i < j < devices.len() ==> (#[trigger] devices[i]).cell != (
            #[trigger] devices[j]).cell,
    ensures
        ({
            let f = devices.filter(keep);
            forall|i: int, j: int|
                0 <= i < j < f.len() ==> (#[trigger] f[i]).cell != (#[trigger] f[j]).cell
        }),
    decreases devices.len(),
{
    reveal(Seq::filter);
    if devices.len() > 0 {
        let t = devices.drop_last();
        lemma_devices_stay_apart(t, keep);
        let f = t.filter(keep);
        assert forall|i: int| 0 <= i < f.len() implies (#[trigger] f[i]).cell
            != devices.last().cell by {
            lemma_filter_contains(t, keep, f[i]);
            assert(f.contains(f[i]));
            let j = choose|j: int| 0 <= j < t.len() && t[j] == f[i];
            assert(devices[j] == f[i]);
        }
    }
}

/// No brush ever puts two voxels, or two devices, into one cell.
pub proof fn lemma_placing_keeps_one_per_cell(
    c: CraftSpec,
    brush: Brush,
    material: Material,
    aim: Aim,
    motor: MotorTier,
)
    requires
        one_per_cell(c),
    ensures
        one_per_cell(placed(c, brush, material, aim, motor)),
{
    let d = placed(c, brush, material, aim, motor);
    let keep = |x: Device| x.cell != aim.device_cell;
    lemma_devices_stay_apart(c.devices, keep);
    let f = c.devices.filter(keep);
    assert forall|i: int| 0 <= i < f.len() implies (#[trigger] f[i]).cell != aim.device_cell by {
        assert(f.contains(f[i]));
        lemma_filter_contains(c.devices, keep, f[i]);
    }
    if !c.occupied(aim.voxel_cell) {
        assert forall|i: int| 0 <= i < c.voxels.len() implies (#[trigger] c.voxels[i]).cell
            != aim.voxel_cell by {}
    }
}

/// How many parts of a run satisfy a condition.
pub open spec fn how_many(parts: Seq<Part>, counts: spec_fn(Part) -> bool) -> nat {
    parts.filter(counts).len()
}

/// A wheel brush leaves its station with exactly one rim and one tyre, both at
/// the point that was aimed at.
pub proof fn lemma_wheel_station_is_complete(
    c: CraftSpec,
    preset: WheelPreset,
    steer: bool,
    material: Material,
    aim: Aim,
    motor: MotorTier,
)
    ensures
        ({
            let d = placed(c, Brush::Wheel { preset, steer }, material, aim, motor);
            let id = joining(c.parts, aim.wheel_mount);
            &&& how_many(d.parts, |p: Part| p.station == Some(id) && p.kind is Rim) == 1
            &&& how_many(d.parts, |p: Part| p.station == Some(id) && p.kind is Tire) == 1
            &&& forall|i: int|
                0 <= i < d.parts.len() && wheel_part(#[trigger] d.parts[i], id)
                    ==> d.parts[i].mount == aim.wheel_mount
        }),
{
    let d = placed(c, Brush::Wheel { preset, steer }, material, aim, motor);
    let id = joining(c.parts, aim.wheel_mount);
    let keep = |p: Part| !wheel_part(p, id);
    let rest = c.parts.filter(keep);
    let n = rest.len() as int;
    let is_rim = |p: Part| p.station == Some(id) && p.kind is Rim;
    let is_tire = |p: Part| p.station == Some(id) && p.kind is Tire;
    assert forall|i: int| 0 <= i < n implies !wheel_part(#[trigger] rest[i], id) by {
        assert(rest.contains(rest[i]));
        lemma_filter_contains(c.parts, keep, rest[i]);
    }
    assert(d.parts.take(n) =~= rest);
    lemma_none_pass(rest, is_rim);
    lemma_none_pass(rest, is_tire);
    assert(d.parts.take(n + 2) =~= d.parts);
    lemma_filter_next(d.parts, n, is_rim);
    lemma_filter_next(d.parts, n, is_tire);
    lemma_filter_next(d.parts, n + 1, is_rim);
    lemma_filter_next(d.parts, n + 1, is_tire);
    assert forall|i: int| 0 <= i < d.parts.len() && wheel_part(
        #[trigger] d.parts[i],
        id,
    ) implies d.parts[i].mount == aim.wheel_mount by {
        if i < n {
            assert(d.parts[i] == rest[i]);
        }
    }
}

/// A filter that nothing passes leaves nothing.
proof fn lemma_none_pass(parts: Seq<Part>, counts: spec_fn(Part) -> bool)
    requires
        forall|i: int| 0 <= i < parts.len() ==> !counts(#[trigger] parts[i]),
    ensures
        parts.filter(counts) == Seq::<Part>::empty(),
    decreases parts.len(),
{
    reveal(Seq::filter);
    if parts.len() > 0 {
        let t = parts.drop_last();
        assert forall|i: int| 0 <= i < t.len() implies !counts(#[trigger] t[i]) by {
            assert(t[i] == parts[i]);
        }
        lemma_none_pass(t, counts);
        assert(!counts(parts[parts.len() - 1]));
    }
    assert(parts.filter(counts) =~= Seq::<Part>::empty());
}

/// A filter that everything passes changes nothing.
proof fn lemma_all_pass<T>(s: Seq<T>, keep: spec_fn(T) -> bool)
    requires
        forall|i: int| 0 <= i < s.len() ==> keep(#[trigger] s[i]),
    ensures
        s.filter(keep) == s,
    decreases s.len(),
{
    reveal(Seq::filter);
    if s.len() > 0 {
        let t = s.drop_last();
        assert forall|i: int| 0 <= i < t.len() implies keep(#[trigger] t[i]) by {
            assert(t[i] == s[i]);
        }
        lemma_all_pass(t, keep);
        assert(keep(s[s.len() - 1]));
        assert(t.push(s.last()) =~= s);
    } else {
        assert(s.filter(keep) =~= s);
    }
}

/// Whether a cell holds no voxel and no device, and no part is at its centre.
pub open spec fn bare(c: CraftSpec, cell: Cell) -> bool {
    &&& !c.occupied(cell)
    &&& forall|i: int| 0 <= i < c.devices.len() ==> (#[trigger] c.devices[i]).cell != cell
    &&& forall|i: int|
        0 <= i < c.parts.len() ==> !same_spot(
            (#[trigger] c.parts[i]).mount,
            center_mount(cell, c.cell_size),
        )
}

/// The first part at a point with a station is at the point.
proof fn lemma_no_station_without_parts(parts: Seq<Part>, mount: Mount)
    requires
        forall|i: int| 0 <= i < parts.len() ==> !same_spot((#[trigger] parts[i]).mount, mount),
    ensures
        station_of(parts, mount) is None,
    decreases parts.len(),
{
    if parts.len() > 0 {
        assert(!same_spot(parts[0].mount, mount));
        let t = parts.skip(1);
        assert forall|i: int| 0 <= i < t.len() implies !same_spot(
            (#[trigger] t[i]).mount,
            mount,
        ) by {
            assert(t[i] == parts[i + 1]);
        }
        lemma_no_station_without_parts(t, mount);
    }
}

/// A fresh station is past every station in use.
proof fn lemma_fresh_is_unused(parts: Seq<Part>, i: int)
    requires
        0 <= i < parts.len(),
        parts[i].station is Some,
    ensures
        parts[i].station->0 < fresh_station(parts),
    decreases parts.len(),
{
    if i < parts.len() - 1 {
        lemma_fresh_is_unused(parts.drop_last(), i);
    }
}

/// Placing into a bare cell and then removing there leaves the craft as it was,
/// whatever the brush.
pub proof fn lemma_removing_undoes_placing(
    c: CraftSpec,
    brush: Brush,
    material: Material,
    cell: Cell,
    motor: MotorTier,
)
    requires
        c.wf(),
        bare(c, cell),
        station_found(c.parts, brush, center_mount(cell, c.cell_size)),
    ensures
        removed(placed(c, brush, material, aim_at(cell, c.cell_size), motor), cell) == c,
{
    let aim = aim_at(cell, c.cell_size);
    let center = center_mount(cell, c.cell_size);
    let d = placed(c, brush, material, aim, motor);
    let keep_v = |v: Voxel| v.cell != cell;
    let keep_d = |x: Device| x.cell != cell;
    let keep_p = |p: Part| !same_spot(p.mount, center);
    assert forall|i: int| 0 <= i < c.voxels.len() implies keep_v(#[trigger] c.voxels[i]) by {}
    lemma_all_pass(c.voxels, keep_v);
    lemma_all_pass(c.devices, keep_d);
    lemma_all_pass(c.parts, keep_p);
    assert(same_spot(center, center)) by {
        assert(gap(center, center) == 0);
    }
    let nv = c.voxels.len() as int;
    let nd = c.devices.len() as int;
    let np = c.parts.len() as int;
    match brush {
        Brush::Voxel => {
            assert(d.voxels.take(nv) =~= c.voxels);
            assert(d.voxels.take(nv + 1) =~= d.voxels);
            lemma_filter_next(d.voxels, nv, keep_v);
        },
        Brush::Wheel { preset, steer } => {
            lemma_no_station_without_parts(c.parts, center);
            let id = joining(c.parts, center);
            let other = |p: Part| !wheel_part(p, id);
            assert forall|i: int| 0 <= i < np implies other(#[trigger] c.parts[i]) by {
                if c.parts[i].station is Some {
                    lemma_fresh_is_unused(c.parts, i);
                }
            }
            lemma_all_pass(c.parts, other);
            assert(d.parts.take(np) =~= c.parts);
            assert(d.parts.take(np + 2) =~= d.parts);
            lemma_filter_next(d.parts, np, keep_p);
            lemma_filter_next(d.parts, np + 1, keep_p);
        },
        Brush::Suspension => {
            lemma_no_station_without_parts(c.parts, center);
            let id = joining(c.parts, center);
            let other = |p: Part| !strut_part(p, id);
            assert forall|i: int| 0 <= i < np implies other(#[trigger] c.parts[i]) by {
                if c.parts[i].station is Some {
                    lemma_fresh_is_unused(c.parts, i);
                }
            }
            lemma_all_pass(c.parts, other);
            assert(d.parts.take(np) =~= c.parts);
            assert(d.parts.take(np + 1) =~= d.parts);
            lemma_filter_next(d.parts, np, keep_p);
        },
        Brush::Seat | Brush::Antenna | Brush::SolarPanel | Brush::Bumper => {
            assert(d.parts.take(np) =~= c.parts);
            assert(d.parts.take(np + 1) =~= d.parts);
            lemma_filter_next(d.parts, np, keep_p);
        },
        _ => {
            assert(d.devices.take(nd) =~= c.devices);
            assert(d.devices.take(nd + 1) =~= d.devices);
            lemma_filter_next(d.devices, nd, keep_d);
        },
    }
    assert(removed(d, cell) =~= c);
}

/// Whether a part is at a point and belongs to a station.
pub open spec fn stationed_at(p: Part, mount: Mount) -> bool {
    same_spot(p.mount, mount) && p.station is Some
}

/// A point has a station exactly when some part there belongs to one, and the
/// station is that of such a part.
proof fn lemma_station_of(parts: Seq<Part>, mount: Mount)
    ensures
        station_of(parts, mount) is Some <==> exists|i: int|
            0 <= i < parts.len() && stationed_at(#[trigger] parts[i], mount),
        station_of(parts, mount) is Some ==> exists|i: int|
            0 <= i < parts.len() && stationed_at(#[trigger] parts[i], mount) && parts[i].station
                == station_of(parts, mount),
    decreases parts.len(),
{
    if parts.len() > 0 {
        if stationed_at(parts[0], mount) {
            assert(parts[0].station == station_of(parts, mount));
        } else {
            let t = parts.skip(1);
            lemma_station_of(t, mount);
            if station_of(t, mount) is Some {
                let i = choose|i: int|
                    0 <= i < t.len() && stationed_at(#[trigger] t[i], mount) && t[i].station
                        == station_of(t, mount);
                assert(parts[i + 1] == t[i]);
            }
            if exists|i: int| 0 <= i < parts.len() && stationed_at(#[trigger] parts[i], mount) {
                let i = choose|i: int|
                    0 <= i < parts.len() && stationed_at(#[trigger] parts[i], mount);
                assert(t[i - 1] == parts[i]);
            }
        }
    }
}

/// A strut placed where a wheel was placed joins the wheel's station, as long as
/// the parts at that point were all of one station before.
pub proof fn lemma_strut_joins_the_wheel(
    c: CraftSpec,
    preset: WheelPreset,
    steer: bool,
    material: Material,
    aim: Aim,
    motor: MotorTier,
)
    requires
        forall|i: int|
            0 <= i < c.parts.len() && stationed_at(#[trigger] c.parts[i], aim.wheel_mount)
                ==> c.parts[i].station == station_of(c.parts, aim.wheel_mount),
    ensures
        ({
            let d = placed(c, Brush::Wheel { preset, steer }, material, aim, motor);
            joining(d.parts, aim.wheel_mount) == joining(c.parts, aim.wheel_mount)
        }),
{
    let mount = aim.wheel_mount;
    let d = placed(c, Brush::Wheel { preset, steer }, material, aim, motor);
    let id = joining(c.parts, mount);
    let keep = |p: Part| !wheel_part(p, id);
    let rest = c.parts.filter(keep);
    let n = rest.len() as int;
    assert(gap(mount, mount) == 0);
    assert(stationed_at(d.parts[n], mount));
    lemma_station_of(d.parts, mount);
    lemma_station_of(c.parts, mount);
    let i = choose|i: int|
        0 <= i < d.parts.len() && stationed_at(#[trigger] d.parts[i], mount) && d.parts[i].station
            == station_of(d.parts, mount);
    if i < n {
        assert(d.parts[i] == rest[i]);
        assert(rest.contains(rest[i]));
        lemma_filter_contains(c.parts, keep, rest[i]);
        let j = choose|j: int| 0 <= j < c.parts.len() && c.parts[j] == rest[i];
        assert(stationed_at(c.parts[j], mount));
    }
}

/// Whether a brush places a device.
pub open spec fn places_device(brush: Brush) -> bool {
    brush is ControlPoint || brush is Computer || brush is Battery || brush is Engine
        || brush is Tank
}

/// After a device brush the aimed cell holds one device, of the brush's own kind: the
/// engine brush gives an engine with the selected motor, the tank brush a tank, the
/// battery brush a battery, the computer brush a computer and the control-point brush a
/// crewed command seat. Devices in other cells, and all voxels and parts, stay.
pub proof fn lemma_device_brush_installs_its_own_kind(
    c: CraftSpec,
    brush: Brush,
    material: Material,
    aim: Aim,
    motor: MotorTier,
    other: Device,
)
    requires
        places_device(brush),
    ensures
        ({
            let d = placed(c, brush, material, aim, motor);
            &&& d.voxels == c.voxels && d.parts == c.parts && d.cell_size == c.cell_size
                && d.attachments == c.attachments
            &&& exists|i: int|
                0 <= i < d.devices.len() && (#[trigger] d.devices[i]).cell == aim.device_cell
            &&& forall|i: int|
                0 <= i < d.devices.len() && (#[trigger] d.devices[i]).cell == aim.device_cell ==> {
                    let kind = d.devices[i].kind;
                    &&& i == d.devices.len() - 1
                    &&& kind is Engine <==> brush is Engine
                    &&& kind is Tank <==> brush is Tank
                    &&& kind is Battery <==> brush is Battery
                    &&& kind is Computer <==> brush is Computer
                    &&& kind is Command <==> brush is ControlPoint
                    &&& kind matches DeviceKind::Engine { motor: fitted } ==> fitted == motor
                    &&& kind matches DeviceKind::Command { crewed } ==> crewed
                    &&& kind matches DeviceKind::Battery { capacity } ==> capacity == 120
                    &&& kind matches DeviceKind::Computer { gain_tenths } ==> gain_tenths == 4
                }
            &&& other.cell != aim.device_cell ==> (d.devices.contains(other)
                <==> c.devices.contains(other))
        }),
{
    let d = placed(c, brush, material, aim, motor);
    let keep = |x: Device| x.cell != aim.device_cell;
    let rest = c.devices.filter(keep);
    let n = rest.len() as int;
    assert(d.devices[n].cell == aim.device_cell);
    assert forall|i: int| 0 <= i < n implies (#[trigger] d.devices[i]).cell != aim.device_cell by {
        assert(d.devices[i] == rest[i]);
        assert(rest.contains(rest[i]));
        lemma_filter_contains(c.devices, keep, rest[i]);
    }
    lemma_filter_contains(c.devices, keep, other);
    lemma_push_contains(rest, d.devices[n], other);
}

/// A run with one more at its end holds that one and what it held.
proof fn lemma_push_contains<T>(s: Seq<T>, last: T, x: T)
    ensures
        s.push(last).contains(x) <==> s.contains(x) || x == last,
{
    let t = s.push(last);
    if s.contains(x) {
        let i = choose|i: int| 0 <= i < s.len() && s[i] == x;
        assert(t[i] == x);
    }
    if x == last {
        assert(t[s.len() as int] == x);
    }
    if t.contains(x) && x != last {
        let i = choose|i: int| 0 <= i < t.len() && t[i] == x;
        assert(s[i] == x);
    }
}

/// After the voxel brush the aimed cell is filled: with the selected material if it was
/// empty, and otherwise as it was. Every other voxel, and every device and part, stays.
pub proof fn lemma_voxel_brush_fills_the_aimed_cell(
    c: CraftSpec,
    material: Material,
    aim: Aim,
    motor: MotorTier,
    other: Voxel,
)
    ensures
        ({
            let d = placed(c, Brush::Voxel, material, aim, motor);
            let full = exists|i: int|
                0 <= i < c.voxels.len() && (#[trigger] c.voxels[i]).cell == aim.voxel_cell;
            &&& full ==> d == c
            &&& !full ==> d.voxels.contains(Voxel { cell: aim.voxel_cell, material })
            &&& !full ==> d.voxels.len() == c.voxels.len() + 1
            &&& other.cell != aim.voxel_cell ==> (d.voxels.contains(other) <==> c.voxels.contains(
                other,
            ))
            &&& d.devices == c.devices && d.parts == c.parts && d.cell_size == c.cell_size
                && d.attachments == c.attachments
        }),
{
    if !c.occupied(aim.voxel_cell) {
        let new = Voxel { cell: aim.voxel_cell, material };
        lemma_push_contains(c.voxels, new, other);
        lemma_push_contains(c.voxels, new, new);
    }
}

/// After a trim brush the only part at the aimed point is of the brush's own kind, with
/// no station and a mass of ten milligrams for each micrometre of the cell, or a kilogram
/// if that is more. Parts elsewhere, and all voxels and devices, stay.
pub proof fn lemma_trim_brush_mounts_its_own_kind(
    c: CraftSpec,
    brush: Brush,
    material: Material,
    aim: Aim,
    motor: MotorTier,
    other: Part,
)
    requires
        0 <= c.cell_size <= u32::MAX,
        brush is Seat || brush is Antenna || brush is SolarPanel || brush is Bumper,
    ensures
        ({
            let d = placed(c, brush, material, aim, motor);
            &&& d.voxels == c.voxels && d.devices == c.devices && d.cell_size == c.cell_size
                && d.attachments == c.attachments
            &&& d.parts.len() > 0
            &&& ({
                let p = d.parts.last();
                &&& p.mount == aim.wheel_mount
                &&& p.station is None
                &&& p.mass_mg >= 1_000_000 && p.mass_mg >= 10 * c.cell_size
                &&& p.mass_mg == 1_000_000 || p.mass_mg == 10 * c.cell_size
                &&& p.kind is Seat <==> brush is Seat
                &&& p.kind is Antenna <==> brush is Antenna
                &&& p.kind is SolarPanel <==> brush is SolarPanel
                &&& p.kind is Bumper <==> brush is Bumper
            })
            &&& forall|i: int|
                0 <= i < d.parts.len() - 1 ==> !same_spot(
                    (#[trigger] d.parts[i]).mount,
                    aim.wheel_mount,
                )
            &&& !same_spot(other.mount, aim.wheel_mount) ==> (d.parts.contains(other)
                <==> c.parts.contains(other))
        }),
{
    let d = placed(c, brush, material, aim, motor);
    let keep = |p: Part| !same_spot(p.mount, aim.wheel_mount);
    let rest = c.parts.filter(keep);
    assert forall|i: int| 0 <= i < rest.len() implies !same_spot(
        (#[trigger] d.parts[i]).mount,
        aim.wheel_mount,
    ) by {
        assert(rest.contains(rest[i]));
        lemma_filter_contains(c.parts, keep, rest[i]);
    }
    lemma_filter_contains(c.parts, keep, other);
    lemma_push_contains(rest, d.parts.last(), other);
    assert(gap(aim.wheel_mount, aim.wheel_mount) == 0);
}

/// Two points within a micrometre of each other are one spot, and points that differ by
/// more along some axis are not; the order in which they are named does not matter.
pub proof fn lemma_spots_are_within_a_micrometre(a: Mount, b: Mount)
    ensures
        same_spot(a, a),
        same_spot(a, b) == same_spot(b, a),
        a.x - b.x > 2 || b.x - a.x > 2 || a.y - b.y > 2 || b.y - a.y > 2 || a.z - b.z > 2 || b.z
            - a.z > 2 ==> !same_spot(a, b),
        a.y == b.y && a.z == b.z ==> (same_spot(a, b) <==> -2 <= a.x - b.x <= 2),
{
    let (x, y, z) = (a.x - b.x, a.y - b.y, a.z - b.z);
    assert(gap(a, a) == 0) by (nonlinear_arith);
    assert(gap(a, b) == x * x + y * y + z * z);
    assert((a.x - b.x) * (a.x - b.x) == (b.x - a.x) * (b.x - a.x)) by (nonlinear_arith);
    assert((a.y - b.y) * (a.y - b.y) == (b.y - a.y) * (b.y - a.y)) by (nonlinear_arith);
    assert((a.z - b.z) * (a.z - b.z) == (b.z - a.z) * (b.z - a.z)) by (nonlinear_arith);
    assert(x * x >= 0 && y * y >= 0 && z * z >= 0) by (nonlinear_arith);
    assert((x > 2 || x < -2) ==> x * x > 4) by (nonlinear_arith);
    assert((y > 2 || y < -2) ==> y * y > 4) by (nonlinear_arith);
    assert((z > 2 || z < -2) ==> z * z > 4) by (nonlinear_arith);
    assert(-2 <= x <= 2 ==> x * x <= 4) by (nonlinear_arith);
    assert(y == 0 ==> y * y == 0) by (nonlinear_arith);
    assert(z == 0 ==> z * z == 0) by (nonlinear_arith);
}

/// After a wheel brush a rim and a tyre of one station are at the aimed point. The rim is
/// driven, and steered as asked; rim and tyre together are one and a half cells in radius.
/// The station is the one that a part at the point already had, or else one that no part
/// had. What is no rim or tyre of that station stays, as do all voxels and devices.
pub proof fn lemma_wheel_brush_mounts_a_rim_and_a_tyre(
    c: CraftSpec,
    preset: WheelPreset,
    steer: bool,
    material: Material,
    aim: Aim,
    motor: MotorTier,
    other: Part,
)
    requires
        0 <= c.cell_size <= u32::MAX,
        station_found(c.parts, Brush::Wheel { preset, steer }, aim.wheel_mount),
    ensures
        ({
            let d = placed(c, Brush::Wheel { preset, steer }, material, aim, motor);
            let n = d.parts.len() as int;
            let rim = d.parts[n - 2];
            let tyre = d.parts[n - 1];
            let id = rim.station->0;
            &&& d.voxels == c.voxels && d.devices == c.devices && d.cell_size == c.cell_size
                && d.attachments == c.attachments
            &&& n >= 2
            &&& rim.mount == aim.wheel_mount && tyre.mount == aim.wheel_mount
            &&& rim.station is Some && tyre.station == rim.station
            &&& (rim.kind matches PartKind::Rim(r) && (tyre.kind matches PartKind::Tire(t) && r.drive
                && r.steer == steer && r.radius_nm + t.profile_nm == 1_500 * c.cell_size))
            &&& rim.mass_mg == tyre.mass_mg && rim.mass_mg >= 500_000 && rim.mass_mg >= 8
                * c.cell_size
            &&& rim.mass_mg == 500_000 || rim.mass_mg == 8 * c.cell_size
            &&& (exists|i: int|
                0 <= i < c.parts.len() && stationed_at(#[trigger] c.parts[i], aim.wheel_mount)
                    && c.parts[i].station == Some(id)) || forall|i: int|
                0 <= i < c.parts.len() ==> (#[trigger] c.parts[i]).station != Some(id)
                    && !stationed_at(c.parts[i], aim.wheel_mount)
            &&& other.station != Some(id) || !(other.kind is Rim || other.kind is Tire) ==> (
            d.parts.contains(other) <==> c.parts.contains(other))
        }),
{
    let mount = aim.wheel_mount;
    let d = placed(c, Brush::Wheel { preset, steer }, material, aim, motor);
    let id = joining(c.parts, mount);
    let keep = |p: Part| !wheel_part(p, id);
    let rest = c.parts.filter(keep);
    let n = rest.len() as int;
    lemma_filter_contains(c.parts, keep, other);
    lemma_push_contains(rest, d.parts[n], other);
    lemma_push_contains(rest.push(d.parts[n]), d.parts[n + 1], other);
    lemma_joined_station(c.parts, mount);
    lemma_wheels_are_of_one_size(preset, c.cell_size, steer);
}

/// A rim and its tyre are one and a half cells in radius.
proof fn lemma_wheels_are_of_one_size(p: WheelPreset, cell_size: int, steer: bool)
    requires
        0 <= cell_size <= u32::MAX,
    ensures
        p.tire_of(cell_size).profile_nm == p.profile_permille() * cell_size,
        p.tire_of(cell_size).profile_nm + p.rim_of(cell_size, steer).radius_nm == 1_500 * cell_size,
{
    let k = p.profile_permille();
    assert((1_500 - k) * cell_size + k * cell_size == 1_500 * cell_size) by (nonlinear_arith);
    assert(0 <= k * cell_size <= 1_500 * cell_size && 0 <= (1_500 - k) * cell_size) by (nonlinear_arith)
        requires
            0 <= k <= 1_500,
            0 <= cell_size,
    ;
}

/// The station that a component joins is one that a part at the point has, or else one
/// that no part has, and then no part at the point has any.
proof fn lemma_joined_station(parts: Seq<Part>, mount: Mount)
    requires
        station_of(parts, mount) is None ==> station_left(parts),
    ensures
        ({
            let id = joining(parts, mount);
            ||| exists|i: int|
                0 <= i < parts.len() && stationed_at(#[trigger] parts[i], mount) && parts[i].station
                    == Some(id)
            ||| forall|i: int|
                0 <= i < parts.len() ==> (#[trigger] parts[i]).station != Some(id) && !stationed_at(
                    parts[i],
                    mount,
                )
        }),
{
    let id = joining(parts, mount);
    lemma_station_of(parts, mount);
    if station_of(parts, mount) is None {
        assert forall|i: int| 0 <= i < parts.len() implies (#[trigger] parts[i]).station != Some(id)
            && !stationed_at(parts[i], mount) by {
            if parts[i].station is Some {
                lemma_fresh_is_unused(parts, i);
            }
        }
    }
}

/// After the strut brush one strut of its station is at the aimed point, sized for the
/// lattice; the station is chosen as for a wheel. What is no strut of that station stays,
/// as do all voxels and devices.
pub proof fn lemma_strut_brush_mounts_a_strut(
    c: CraftSpec,
    material: Material,
    aim: Aim,
    motor: MotorTier,
    other: Part,
)
    requires
        0 <= c.cell_size <= u32::MAX,
        station_found(c.parts, Brush::Suspension, aim.wheel_mount),
    ensures
        ({
            let d = placed(c, Brush::Suspension, material, aim, motor);
            let strut = d.parts.last();
            let id = strut.station->0;
            &&& d.voxels == c.voxels && d.devices == c.devices && d.cell_size == c.cell_size
                && d.attachments == c.attachments
            &&& d.parts.len() > 0
            &&& strut.mount == aim.wheel_mount && strut.station is Some
            &&& (strut.kind matches PartKind::Suspension(k) && k.cell_size_um == c.cell_size)
            &&& strut.mass_mg >= 300_000 && strut.mass_mg >= 4 * c.cell_size
            &&& strut.mass_mg == 300_000 || strut.mass_mg == 4 * c.cell_size
            &&& forall|i: int|
                0 <= i < d.parts.len() - 1 ==> !((#[trigger] d.parts[i]).kind is Suspension
                    && d.parts[i].station == Some(id))
            &&& (exists|i: int|
                0 <= i < c.parts.len() && stationed_at(#[trigger] c.parts[i], aim.wheel_mount)
                    && c.parts[i].station == Some(id)) || forall|i: int|
                0 <= i < c.parts.len() ==> (#[trigger] c.parts[i]).station != Some(id)
                    && !stationed_at(c.parts[i], aim.wheel_mount)
            &&& other.station != Some(id) || !(other.kind is Suspension) ==> (d.parts.contains(
                other,
            ) <==> c.parts.contains(other))
        }),
{
    let mount = aim.wheel_mount;
    let d = placed(c, Brush::Suspension, material, aim, motor);
    let id = joining(c.parts, mount);
    let keep = |p: Part| !strut_part(p, id);
    let rest = c.parts.filter(keep);
    lemma_filter_contains(c.parts, keep, other);
    lemma_push_contains(rest, d.parts.last(), other);
    lemma_joined_station(c.parts, mount);
    assert forall|i: int| 0 <= i < rest.len() implies !strut_part(#[trigger] d.parts[i], id) by {
        assert(rest.contains(rest[i]));
        lemma_filter_contains(c.parts, keep, rest[i]);
    }
}

/// The off-road tyre is the tallest and softest, the slick the lowest, stiffest and
/// grippiest, and the road tyre the least grippy; all wheels are of one size.
pub proof fn lemma_presets_differ_as_they_should(cell_size: int, steer: bool)
    requires
        0 < cell_size <= u32::MAX,
    ensures
        ({
            let off = WheelPreset::OffRoad.tire_of(cell_size);
            let road = WheelPreset::Road.tire_of(cell_size);
            let slick = WheelPreset::Slick.tire_of(cell_size);
            &&& off.profile_nm > road.profile_nm > slick.profile_nm > 0
            &&& off.stiffness < road.stiffness < slick.stiffness
            &&& road.grip_percent == 100
            &&& road.grip_percent < off.grip_percent < slick.grip_percent
            &&& off.slip_long_tenths < road.slip_long_tenths < slick.slip_long_tenths
            &&& off.slip_lat_tenths < road.slip_lat_tenths < slick.slip_lat_tenths
            &&& forall|p: WheelPreset|
                (#[trigger] p.tire_of(cell_size)).profile_nm + p.rim_of(cell_size, steer).radius_nm
                    == 1_500 * cell_size && p.rim_of(cell_size, steer).drive && p.rim_of(
                    cell_size,
                    steer,
                ).steer == steer
        }),
{
    lemma_wheels_are_of_one_size(WheelPreset::OffRoad, cell_size, steer);
    lemma_wheels_are_of_one_size(WheelPreset::Road, cell_size, steer);
    lemma_wheels_are_of_one_size(WheelPreset::Slick, cell_size, steer);
    let (a, b, c) = (
        WheelPreset::OffRoad.profile_permille(),
        WheelPreset::Road.profile_permille(),
        WheelPreset::Slick.profile_permille(),
    );
    assert(a * cell_size > b * cell_size > c * cell_size > 0) by (nonlinear_arith)
        requires
            a > b > c > 0,
            cell_size > 0,
    ;
}

/// Removing at a cell leaves no voxel and no device there and no part at its centre, and
/// takes nothing else.
pub proof fn lemma_removing_clears_one_cell(
    c: CraftSpec,
    cell: Cell,
    v: Voxel,
    x: Device,
    p: Part,
)
    ensures
        ({
            let d = removed(c, cell);
            let (cx, cy, cz) = center_of(cell, c.cell_size);
            let center = Mount { x: cx as i64, y: cy as i64, z: cz as i64 };
            &&& d.voxels.contains(v) <==> c.voxels.contains(v) && v.cell != cell
            &&& d.devices.contains(x) <==> c.devices.contains(x) && x.cell != cell
            &&& d.parts.contains(p) <==> c.parts.contains(p) && !same_spot(p.mount, center)
            &&& d.cell_size == c.cell_size && d.attachments == c.attachments
        }),
{
    let center = center_mount(cell, c.cell_size);
    lemma_filter_contains(c.voxels, |v: Voxel| v.cell != cell, v);
    lemma_filter_contains(c.devices, |d: Device| d.cell != cell, x);
    lemma_filter_contains(c.parts, |p: Part| !same_spot(p.mount, center), p);
}

/// A cell's centre is half a cell from its corner along each axis, in half micrometres.
pub proof fn lemma_centers_are_half_way(cell: Cell, cell_size: int)
    ensures
        ({
            let (x, y, z) = center_of(cell, cell_size);
            &&& x == 2 * (cell.x * cell_size) + cell_size
            &&& y == 2 * (cell.y * cell_size) + cell_size
            &&& z == 2 * (cell.z * cell_size) + cell_size
        }),
{
    assert((2 * cell.x + 1) * cell_size == 2 * (cell.x * cell_size) + cell_size)
        by (nonlinear_arith);
    assert((2 * cell.y + 1) * cell_size == 2 * (cell.y * cell_size) + cell_size)
        by (nonlinear_arith);
    assert((2 * cell.z + 1) * cell_size == 2 * (cell.z * cell_size) + cell_size)
        by (nonlinear_arith);
}

/// A key of the editor, alone. The arrows and the page keys step the cursor one cell along
/// their own axis; a brush key selects its brush; Tab goes on to the next of the four
/// materials and takes up the voxel brush; `M` goes on to the next motor. Nothing but
/// Space and Backspace touches the build.
pub proof fn lemma_editor_keys(e: EditorSpec, keys: Keyboard, k: KeyCode)
    requires
        e.wf(),
        0 <= e.material,
        cursor_fits(e.cursor, keys),
        keys.lone_tap(k),
    ensures
        ({
            let f = edited(e, keys);
            &&& f.cursor.x - e.cursor.x == (if k == KeyCode::ArrowRight {
                1int
            } else if k == KeyCode::ArrowLeft {
                -1
            } else {
                0
            })
            &&& f.cursor.y - e.cursor.y == (if k == KeyCode::PageUp {
                1int
            } else if k == KeyCode::PageDown {
                -1
            } else {
                0
            })
            &&& f.cursor.z - e.cursor.z == (if k == KeyCode::ArrowDown {
                1int
            } else if k == KeyCode::ArrowUp {
                -1
            } else {
                0
            })
            &&& k == KeyCode::Digit1 ==> f.brush == Brush::ControlPoint
            &&& k == KeyCode::Digit2 ==> f.brush == Brush::Computer
            &&& k == KeyCode::Digit3 ==> f.brush == Brush::Battery
            &&& k == KeyCode::Digit4 || k == KeyCode::KeyG ==> f.brush == Brush::Engine
            &&& k == KeyCode::Digit5 ==> f.brush == Brush::Tank
            &&& k == KeyCode::Digit6 ==> f.brush == (Brush::Wheel {
                preset: WheelPreset::Road,
                steer: false,
            })
            &&& k == KeyCode::Digit7 ==> f.brush == (Brush::Wheel {
                preset: WheelPreset::Road,
                steer: true,
            })
            &&& k == KeyCode::KeyU ==> f.brush == Brush::Suspension
            &&& k == KeyCode::Digit8 ==> f.brush == Brush::Seat
            &&& k == KeyCode::Digit9 ==> f.brush == Brush::Antenna
            &&& k == KeyCode::Digit0 ==> f.brush == Brush::SolarPanel
            &&& k == KeyCode::Minus ==> f.brush == Brush::Bumper
            &&& k == KeyCode::Tab ==> f.brush == Brush::Voxel && (f.material == e.material + 1 || (
            e.material == 3 && f.material == 0))
            &&& k != KeyCode::Tab ==> f.material == e.material
            &&& k == KeyCode::KeyM <==> f.motor != e.motor
            &&& k != KeyCode::Space && k != KeyCode::Backspace ==> f.craft == e.craft
            &&& (k == KeyCode::Space || k == KeyCode::Backspace || k == KeyCode::KeyM || k
                == KeyCode::ArrowUp || k == KeyCode::KeyK) ==> f.brush == e.brush
        }),
{
}

/// Space alone builds at the cursor with the selected brush, material and motor, and
/// Backspace alone removes at the cursor.
pub proof fn lemma_space_builds_and_backspace_removes(e: EditorSpec, keys: Keyboard, k: KeyCode)
    requires
        e.wf(),
        keys.lone_tap(k),
        k == KeyCode::Space || k == KeyCode::Backspace,
    ensures
        ({
            let f = edited(e, keys);
            let (x, y, z) = center_of(e.cursor, e.craft.cell_size);
            let aim = Aim {
                voxel_cell: e.cursor,
                device_cell: e.cursor,
                wheel_mount: Mount { x: x as i64, y: y as i64, z: z as i64 },
            };
            &&& k == KeyCode::Space ==> f.craft == placed(
                e.craft,
                e.brush,
                palette_material(e.material),
                aim,
                e.motor,
            )
            &&& k == KeyCode::Backspace ==> f.craft == removed(e.craft, e.cursor)
            &&& f.cursor == e.cursor
        }),
{
    assert(Cell { x: e.cursor.x, y: e.cursor.y, z: e.cursor.z } == e.cursor);
}

/// The four materials of the palette are aluminium, steel, titanium and composite, each
/// under its own name.
pub proof fn lemma_the_palette_has_four_materials(i: int, j: int)
    requires
        0 <= i < 4,
        0 <= j < 4,
    ensures
        palette_material(i) == palette_material(j) ==> i == j,
        palette_material(i) == Material::Aluminium <==> palette_name(i)[0] == 'a',
        palette_material(i) == Material::Steel <==> palette_name(i)[0] == 's',
        palette_material(i) == Material::Titanium <==> palette_name(i)[0] == 't',
        palette_material(i) == Material::Composite <==> palette_name(i)[0] == 'c',
        palette_material(i) == Material::Aluminium || palette_material(i) == Material::Steel
            || palette_material(i) == Material::Titanium || palette_material(i)
            == Material::Composite,
{
    reveal_strlit("aluminium");
    reveal_strlit("steel");
    reveal_strlit("titanium");
    reveal_strlit("composite");
}

/// The motors come round after four steps and not before, each the next larger until the
/// largest.
pub proof fn lemma_motors_come_round(m: MotorTier)
    ensures
        next_motor(m) != m,
        next_motor(next_motor(m)) != m,
        next_motor(next_motor(next_motor(m))) != m,
        next_motor(next_motor(next_motor(next_motor(m)))) == m,
        next_motor(MotorTier::Economy) == MotorTier::Standard,
        next_motor(MotorTier::Standard) == MotorTier::Performance,
        next_motor(MotorTier::Performance) == MotorTier::Heavy,
{
}

/// A document key, alone: `K` saves the craft, `O` loads it, `B` saves a blueprint, `N`
/// saves a subassembly, `L` loads one, `V` inserts it at the cursor and `M` prints the
/// mass; any other asks for nothing.
pub proof fn lemma_document_keys(cursor: Cell, keys: Keyboard, k: KeyCode)
    requires
        keys.lone_tap(k),
    ensures
        ({
            let out = requests(cursor, keys);
            &&& out.len() <= 1
            &&& out.len() == 1 <==> k == KeyCode::KeyK || k == KeyCode::KeyO || k == KeyCode::KeyB
                || k == KeyCode::KeyN || k == KeyCode::KeyL || k == KeyCode::KeyV || k
                == KeyCode::KeyM
            &&& k == KeyCode::KeyK ==> out[0] is SaveCraft
            &&& k == KeyCode::KeyO ==> out[0] is LoadCraft
            &&& k == KeyCode::KeyB ==> out[0] is SaveBlueprint
            &&& k == KeyCode::KeyN ==> out[0] is SaveSubassembly
            &&& k == KeyCode::KeyL ==> out[0] is LoadSubassembly
            &&& k == KeyCode::KeyV ==> out[0] == EditorRequest::InsertSubassembly(cursor)
            &&& k == KeyCode::KeyM ==> out[0] is LogMass
        }),
{
    let a = asked(keys, KeyCode::KeyK, EditorRequest::SaveCraft);
    let b = asked(keys, KeyCode::KeyO, EditorRequest::LoadCraft);
    let c = asked(keys, KeyCode::KeyB, EditorRequest::SaveBlueprint);
    let d = asked(keys, KeyCode::KeyN, EditorRequest::SaveSubassembly);
    let f = asked(keys, KeyCode::KeyL, EditorRequest::LoadSubassembly);
    let g = asked(keys, KeyCode::KeyV, EditorRequest::InsertSubassembly(cursor));
    let h = asked(keys, KeyCode::KeyM, EditorRequest::LogMass);
    assert((a + b + c + d + f + g + h).len() == a.len() + b.len() + c.len() + d.len() + f.len()
        + g.len() + h.len());
}

/// A click on the palette, or with nothing under the pointer, leaves the build. A left
/// click on a face puts a voxel or a part into the cell beside it and a device into the
/// hovered cell; on bare ground everything goes into the ground cell. A click changes
/// neither the cursor nor the selection.
pub proof fn lemma_left_click_builds_on_the_face(
    e: EditorSpec,
    mouse: Mouse,
    h: Hovered,
    on_palette: bool,
)
    ensures
        clicked(e, mouse, None, on_palette) == e,
        clicked(e, mouse, Some(h), true) == e,
        ({
            let f = clicked(e, mouse, Some(h), false);
            let (x, y, z) = center_of(h.add_cell, e.craft.cell_size);
            let aim = Aim {
                voxel_cell: h.add_cell,
                device_cell: if h.remove_cell is Some {
                    h.remove_cell->0
                } else {
                    h.add_cell
                },
                wheel_mount: Mount { x: x as i64, y: y as i64, z: z as i64 },
            };
            &&& f.cursor == e.cursor && f.material == e.material && f.brush == e.brush && f.motor
                == e.motor
            &&& !mouse.tapped(MouseButton::Left) && !mouse.tapped(MouseButton::Right) ==> f == e
            &&& mouse.tapped(MouseButton::Left) && !mouse.tapped(MouseButton::Right) ==> f.craft
                == placed(e.craft, e.brush, palette_material(e.material), aim, e.motor)
        }),
{
}

/// A right click takes the hovered cell's voxel and device, and the parts within six
/// tenths of a cell of its centre or of the centre of the cell beside its face; it takes
/// nothing else. Over bare ground only parts can go.
pub proof fn lemma_right_click_clears_the_hovered_cell(
    e: EditorSpec,
    mouse: Mouse,
    h: Hovered,
    v: Voxel,
    x: Device,
    p: Part,
)
    requires
        mouse.tapped(MouseButton::Right),
        !mouse.tapped(MouseButton::Left),
    ensures
        ({
            let c = e.craft;
            let d = clicked(e, mouse, Some(h), false).craft;
            let s = c.cell_size;
            &&& d.voxels.contains(v) <==> c.voxels.contains(v) && h.remove_cell != Some(v.cell)
            &&& d.devices.contains(x) <==> c.devices.contains(x) && h.remove_cell != Some(x.cell)
            &&& d.parts.contains(p) <==> c.parts.contains(p) && 25 * gap(
                p.mount,
                center_mount(h.add_cell, s),
            ) > 36 * (s * s) && (h.remove_cell matches Some(cell) ==> 25 * gap(
                p.mount,
                center_mount(cell, s),
            ) > 36 * (s * s))
            &&& d.cell_size == c.cell_size && d.attachments == c.attachments
        }),
{
    let c = e.craft;
    if let Some(cell) = h.remove_cell {
        lemma_filter_contains(c.voxels, |v: Voxel| v.cell != cell, v);
        lemma_filter_contains(c.devices, |d: Device| d.cell != cell, x);
    }
    lemma_filter_contains(c.parts, |p: Part| spared(p, h, c.cell_size), p);
}

/// Picking a material selects it and the voxel brush; picking a tool selects its brush and
/// keeps the material. Neither touches the build, the cursor or the motor.
pub proof fn lemma_picking_selects(entry: PaletteEntry, e: EditorSpec)
    ensures
        ({
            let f = picked(entry, e);
            &&& f.craft == e.craft && f.cursor == e.cursor && f.motor == e.motor
            &&& entry matches PaletteEntry::Material(i) ==> f.brush == Brush::Voxel && (i < 4
                ==> f.material == i)
            &&& entry matches PaletteEntry::Tool(b) ==> f.brush == b && f.material == e.material
        }),
{
}

/// The palette offers every brush and every material once: an entry for each.
pub proof fn lemma_the_palette_offers_every_brush(b: Brush, i: usize)
    ensures
        palette_entries().len() == 20,
        b != Brush::Voxel ==> exists|k: int|
            0 <= k < 20 && #[trigger] palette_entries()[k] == PaletteEntry::Tool(b),
        i < 4 ==> exists|k: int|
            0 <= k < 20 && #[trigger] palette_entries()[k] == PaletteEntry::Material(i),
{
    let all = palette_entries();
    assert(all.len() == 20);
    if i < 4 {
        assert(all[i as int] == PaletteEntry::Material(i));
    }
    let k: int = match b {
        Brush::Voxel => 0,
        Brush::ControlPoint => 4,
        Brush::Computer => 5,
        Brush::Battery => 6,
        Brush::Engine => 7,
        Brush::Tank => 8,
        Brush::Wheel { preset: WheelPreset::OffRoad, steer } => if steer {
            10
        } else {
            9
        },
        Brush::Wheel { preset: WheelPreset::Road, steer } => if steer {
            12
        } else {
            11
        },
        Brush::Wheel { preset: WheelPreset::Slick, steer } => if steer {
            14
        } else {
            13
        },
        Brush::Suspension => 15,
        Brush::Seat => 16,
        Brush::Antenna => 17,
        Brush::SolarPanel => 18,
        Brush::Bumper => 19,
    };
    if b != Brush::Voxel {
        assert(all[k] == PaletteEntry::Tool(b));
    }
}

/// A subassembly and a blueprint are saved as such, and a document that is no world save
/// gives its craft back; a world save gives none.
pub proof fn lemma_documents_keep_their_kind(kind: Kind, craft: VoxelCraft)
    ensures
        kind != Kind::WorldSave ==> kind_saved(kind) == kind,
        kind_saved(kind) != Kind::WorldSave,
        held_craft(kind, craft) is None <==> kind == Kind::WorldSave,
        held_craft(kind, craft) matches Some(c) ==> c == craft,
{
}

/// Of two cells, the lower comes first, whatever the rest; of cells as high, the one that
/// is farther back along the other axes. No cell comes before itself.
pub proof fn lemma_lowest_comes_first(a: Cell, b: Cell)
    ensures
        a.y < b.y ==> lower_first(a, b),
        a.y == b.y && a.x < b.x ==> lower_first(a, b),
        a.y == b.y && a.x == b.x && a.z < b.z ==> lower_first(a, b),
        lower_first(a, b) ==> !lower_first(b, a),
        a != b ==> lower_first(a, b) || lower_first(b, a),
{
}

/// An editor as it opens.
pub open spec fn new_editor() -> EditorSpec {
    EditorSpec {
        craft: CraftSpec {
            cell_size: 100_000,
            voxels: seed_voxels(),
            devices: Seq::empty(),
            parts: Seq::empty(),
            attachments: Seq::empty(),
        },
        cursor: Cell { x: 0, y: 1, z: 0 },
        material: 0,
        brush: Brush::Voxel,
        motor: MotorTier::Standard,
    }
}

/// An editor opens on a plate of aluminium, three cells by two and each cell once, with
/// nothing on it; the cursor is free and stands on the plate, ready to build.
pub proof fn lemma_an_editor_opens_on_a_plate(c: Cell, i: int, j: int)
    ensures
        ({
            let e = new_editor();
            &&& e.craft.occupied(c) <==> 0 <= c.x < 3 && c.y == 0 && 0 <= c.z < 2
            &&& 0 <= i < j < e.craft.voxels.len() ==> e.craft.voxels[i].cell
                != e.craft.voxels[j].cell
            &&& 0 <= i < e.craft.voxels.len() ==> e.craft.voxels[i].material == Material::Aluminium
            &&& e.craft.devices.len() == 0 && e.craft.parts.len() == 0
            &&& !e.craft.occupied(e.cursor)
            &&& e.craft.occupied(
                Cell { x: e.cursor.x, y: (e.cursor.y - 1) as i32, z: e.cursor.z },
            )
            &&& e.brush == Brush::Voxel
            &&& e.wf()
        }),
{
    let e = new_editor();
    let s = seed_voxels();
    assert forall|k: int| 0 <= k < 6 implies (#[trigger] s[k]).cell.x == k / 2 && s[k].cell.z == k
        % 2 by {}
    if 0 <= c.x < 3 && c.y == 0 && 0 <= c.z < 2 {
        let k = 2 * c.x + c.z;
        assert(k / 2 == c.x && k % 2 == c.z);
        assert(e.craft.voxels[k].cell == c);
    }
    let under = Cell { x: 0, y: 0, z: 0 };
    assert(e.craft.voxels[0].cell == under);
}

/// Without a key an edit always has the numbers it needs, and so has every edit of a cursor
/// away from the ends of the axes, as long as it does not place a part.
pub proof fn lemma_edits_away_from_the_ends_have_room(e: EditorSpec, keys: Keyboard)
    ensures
        (forall|k: KeyCode| !#[trigger] keys.tapped(k)) ==> numbers_suffice(e, keys),
        !keys.tapped(KeyCode::Space) && i32::MIN < e.cursor.x < i32::MAX && i32::MIN < e.cursor.y
            < i32::MAX && i32::MIN < e.cursor.z < i32::MAX ==> numbers_suffice(e, keys),
        e.cursor.x == i32::MAX && keys.tapped(KeyCode::ArrowRight) && !keys.tapped(
            KeyCode::ArrowLeft,
        ) ==> !numbers_suffice(e, keys),
        e.cursor.y == i32::MAX && keys.tapped(KeyCode::PageUp) && !keys.tapped(KeyCode::PageDown)
            ==> !numbers_suffice(e, keys),
        e.cursor.z == i32::MAX && keys.tapped(KeyCode::ArrowDown) && !keys.tapped(KeyCode::ArrowUp)
            ==> !numbers_suffice(e, keys),
        e.cursor.x == i32::MIN && keys.tapped(KeyCode::ArrowLeft) && !keys.tapped(
            KeyCode::ArrowRight,
        ) ==> !numbers_suffice(e, keys),
        e.cursor.y == i32::MIN && keys.tapped(KeyCode::PageDown) && !keys.tapped(KeyCode::PageUp)
            ==> !numbers_suffice(e, keys),
        e.cursor.z == i32::MIN && keys.tapped(KeyCode::ArrowUp) && !keys.tapped(KeyCode::ArrowDown)
            ==> !numbers_suffice(e, keys),
{
    if forall|k: KeyCode| !#[trigger] keys.tapped(k) {
        assert(!keys.tapped(KeyCode::Space) && !keys.tapped(KeyCode::ArrowLeft) && !keys.tapped(
            KeyCode::ArrowRight,
        ) && !keys.tapped(KeyCode::ArrowUp) && !keys.tapped(KeyCode::ArrowDown) && !keys.tapped(
            KeyCode::PageUp,
        ) && !keys.tapped(KeyCode::PageDown));
    }
}

/// The tyres' numbers: the section is fifteen hundredths of the wheel on a slick, twice that on
/// a road tyre and three times that off the road; the road tyre is three times as stiff as the
/// off-road one, and the slick eight times.
pub proof fn lemma_tyres_have_their_numbers(cell_size: int)
    requires
        0 < cell_size <= u32::MAX,
    ensures
        ({
            let off = WheelPreset::OffRoad.tire_of(cell_size);
            let road = WheelPreset::Road.tire_of(cell_size);
            let slick = WheelPreset::Slick.tire_of(cell_size);
            &&& 20 * slick.profile_nm == 3 * (1_500 * cell_size)
            &&& road.profile_nm == 2 * slick.profile_nm && off.profile_nm == 3 * slick.profile_nm
            &&& off.stiffness == 50_000 && road.stiffness == 3 * off.stiffness && slick.stiffness
                == 8 * off.stiffness
            &&& off.grip_percent == 135 && slick.grip_percent == 160
            &&& road.slip_long_tenths == 50 && road.slip_lat_tenths == 40
            &&& off.slip_long_tenths == 45 && off.slip_lat_tenths == 35
            &&& slick.slip_long_tenths == 65 && slick.slip_lat_tenths == 55
        }),
{
}

/// A new station's number is one past the largest in use, and nought where none is in use.
pub proof fn lemma_a_new_station_is_the_next(parts: Seq<Part>)
    ensures
        forall|i: int|
            0 <= i < parts.len() && (#[trigger] parts[i]).station is Some ==> parts[i].station->0
                < fresh_station(parts),
        fresh_station(parts) == 0 || exists|i: int|
            0 <= i < parts.len() && (#[trigger] parts[i]).station is Some && parts[i].station->0 + 1
                == fresh_station(parts),
    decreases parts.len(),
{
    if parts.len() > 0 {
        let front = parts.drop_last();
        lemma_a_new_station_is_the_next(front);
        assert forall|i: int|
            0 <= i < parts.len() && (#[trigger] parts[i]).station is Some implies parts[i].station->0
            < fresh_station(parts) by {
            if i < front.len() {
                assert(front[i] == parts[i]);
            }
        }
        if fresh_station(parts) == fresh_station(front) && fresh_station(front) != 0 {
            let i = choose|i: int|
                0 <= i < front.len() && (#[trigger] front[i]).station is Some && front[i].station->0
                    + 1 == fresh_station(front);
            assert(parts[i] == front[i]);
        } else {
            assert(parts[parts.len() - 1] == parts.last());
        }
    }
}

/// A brush's label names what it places: a steered wheel's is that of the plain one with a
/// note, and the others begin as what they place is called.
pub proof fn lemma_labels_name_what_is_placed(preset: WheelPreset)
    ensures
        (Brush::Wheel { preset, steer: true }).name() == (Brush::Wheel {
            preset,
            steer: false,
        }).name() + " (steer)"@,
        (Brush::Wheel { preset: WheelPreset::OffRoad, steer: false }).name()[0] == 'o',
        (Brush::Wheel { preset: WheelPreset::Road, steer: false }).name()[0] == 'r',
        (Brush::Wheel { preset: WheelPreset::Slick, steer: false }).name()[0] == 's',
        Brush::Voxel.name()[0] == 'v',
        Brush::ControlPoint.name()[2] == 'n' && Brush::Computer.name()[2] == 'm',
        Brush::Battery.name()[1] == 'a' && Brush::Bumper.name()[1] == 'u',
        Brush::Engine.name()[0] == 'e' && Brush::Tank.name()[0] == 't',
        Brush::Suspension.name()[1] == 'u' && Brush::Seat.name()[1] == 'e'
            && Brush::SolarPanel.name()[1] == 'o',
        Brush::Antenna.name()[0] == 'a',
{
    reveal_strlit("voxel");
    reveal_strlit("control point");
    reveal_strlit("computer");
    reveal_strlit("battery");
    reveal_strlit("engine");
    reveal_strlit("tank");
    reveal_strlit("off-road wheel");
    reveal_strlit("off-road wheel (steer)");
    reveal_strlit("road wheel");
    reveal_strlit("road wheel (steer)");
    reveal_strlit("slick wheel");
    reveal_strlit("slick wheel (steer)");
    reveal_strlit("suspension");
    reveal_strlit("seat");
    reveal_strlit("antenna");
    reveal_strlit("solar panel");
    reveal_strlit("bumper");
    reveal_strlit(" (steer)");
    assert((Brush::Wheel { preset, steer: true }).name() =~= (Brush::Wheel {
        preset,
        steer: false,
    }).name() + " (steer)"@);
}

} // verus!
