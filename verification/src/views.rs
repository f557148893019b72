//! The small viewers: the wind tunnel, the streamed surface, and the skins.

use crate::input::KeyCode;
use crate::input::Keyboard;
use crate::readout::field;
use crate::readout::show;
use crate::readout::shown;
use crate::readout::Field;
use crate::text::decimal;
use crate::text::push_decimal;
use crate::voxel::Material;
use crate::text::lemma_says_its_end;
use crate::text::lemma_says_itself;
use crate::text::lemma_says_on;
use crate::text::says;
use vstd::prelude::*;

verus! {

/// What blows through the wind tunnel.
#[derive(Clone, Copy, Debug, PartialEq, Eq, Structural)]
pub enum Flow {
    Air,
    Water,
    Vacuum,
}

/// The next medium.
pub open spec fn next_flow(f: Flow) -> Flow {
    match f {
        Flow::Air => Flow::Water,
        Flow::Water => Flow::Vacuum,
        Flow::Vacuum => Flow::Air,
    }
}

/// `M` goes on to the next medium.
pub fn cycle_medium(keys: &Keyboard, flow: Flow) -> (f: Flow)
    ensures
        f == (if keys.tapped(KeyCode::KeyM) {
            next_flow(flow)
        } else {
            flow
        }),
{
    if keys.just_pressed(KeyCode::KeyM) {
        match flow {
            Flow::Air => Flow::Water,
            Flow::Water => Flow::Vacuum,
            Flow::Vacuum => Flow::Air,
        }
    } else {
        flow
    }
}

/// Three steps lead round.
pub proof fn lemma_three_media_lead_round(f: Flow)
    ensures
        next_flow(next_flow(next_flow(f))) == f,
{
}

/// A medium's name.
pub open spec fn flow_name(f: Flow) -> Seq<char> {
    match f {
        Flow::Air => "air"@,
        Flow::Water => "water"@,
        Flow::Vacuum => "vacuum"@,
    }
}

/// What the drag plot shows in a medium: the spike is there in air alone.
pub open spec fn flow_note(f: Flow) -> Seq<char> {
    if f == Flow::Air {
        "transonic area-ruling spike near Mach 1"@
    } else {
        "no wave drag (incompressible / vacuum)"@
    }
}

/// The wind tunnel's readout.
pub fn tunnel_hud(flow: Flow) -> (s: String)
    ensures
        s@
            == "left: lift Cl vs angle of attack (2pi slope + stall)\nright: wave drag vs speed in "@
            + flow_name(flow) + " — "@ + flow_note(flow)
            + "\nM: cycle medium (air -> water -> vacuum)"@,
{
    let mut s: String = "left: lift Cl vs angle of attack (2pi slope + stall)\nright: wave drag vs speed in ".to_owned();
    s.append(
        match flow {
            Flow::Air => "air",
            Flow::Water => "water",
            Flow::Vacuum => "vacuum",
        },
    );
    s.append(" — ");
    s.append(
        match flow {
            Flow::Air => "transonic area-ruling spike near Mach 1",
            _ => "no wave drag (incompressible / vacuum)",
        },
    );
    s.append("\nM: cycle medium (air -> water -> vacuum)");
    s
}

/// Whether the debug overlay is shown: `F3` toggles it.
pub fn toggle_overlay(keys: &Keyboard, overlay: bool) -> (o: bool)
    ensures
        o == (overlay != keys.tapped(KeyCode::F3)),
{
    overlay != keys.just_pressed(KeyCode::F3)
}

/// Whether the telemetry box is shown: `F4` toggles it.
pub fn toggle_telemetry(keys: &Keyboard, shown_now: bool) -> (o: bool)
    ensures
        o == (shown_now != keys.tapped(KeyCode::F4)),
{
    shown_now != keys.just_pressed(KeyCode::F4)
}

/// The number of colours for levels of detail.
pub const LOD_COLORS: u32 = 6;

/// Which colour outlines a level of detail.
pub fn lod_color(level: u32) -> (c: u32)
    ensures
        c == level as int % 6,
        c < LOD_COLORS,
        c == outline_of(level as int),
{
    level % LOD_COLORS
}

/// Neighbouring levels of detail are outlined in different colours.
pub proof fn lemma_neighbouring_levels_differ(level: int)
    ensures
        level % 6 != (level + 1) % 6,
{
}

/// The ground's base colour.
#[derive(Clone, Copy, Debug, PartialEq, Eq, Structural)]
pub enum GroundTint {
    Wet,
    Dusty,
    Bare,
}

/// The ground's base colour, from what surrounds the body.
pub fn ground_tint(air: bool, sea: bool) -> (t: GroundTint)
    ensures
        t == (if sea {
            GroundTint::Wet
        } else if air {
            GroundTint::Dusty
        } else {
            GroundTint::Bare
        }),
        t == tint_of(air, sea),
{
    if sea {
        GroundTint::Wet
    } else if air {
        GroundTint::Dusty
    } else {
        GroundTint::Bare
    }
}

/// The streamed surface's readout: lengths are metres and millimetres.
pub open spec fn surface_text(name: &str, radius_m: u32, altitude_mm: i64, live: usize, meshing: usize, atmosphere: bool, overlay: bool) -> Seq<char> {
    "SURFACE (-- surface)\nbody: "@ + name@ + "\nradius: "@ + shown(
            radius_m * 1_000,
            (Field { width: 0, digits: 0, plus: false }),
        ) + " km\naltitude: "@ + shown(
            altitude_mm as int,
            (Field { width: 0, digits: 1, plus: false }),
        ) + " km\nchunks: "@ + decimal(live as nat) + " live, "@ + decimal(meshing as nat)
            + " meshing\natmosphere: "@ + (if atmosphere {
            "on"@
        } else {
            "off (airless)"@
        })
            + "\n\nW/A/S/D move \u{b7} R/F up/down \u{b7} arrows look \u{b7} F3 overlay ["@ + (
        if overlay {
            "on"@
        } else {
            "off"@
        }) + "]"@
}

/// The streamed surface's readout: lengths are metres and millimetres.
pub fn surface_hud(
    name: &str,
    radius_m: u32,
    altitude_mm: i64,
    live: usize,
    meshing: usize,
    atmosphere: bool,
    overlay: bool,
) -> (s: String)
    ensures
        s@ == "SURFACE (-- surface)\nbody: "@ + name@ + "\nradius: "@ + shown(
            radius_m * 1_000,
            (Field { width: 0, digits: 0, plus: false }),
        ) + " km\naltitude: "@ + shown(
            altitude_mm as int,
            (Field { width: 0, digits: 1, plus: false }),
        ) + " km\nchunks: "@ + decimal(live as nat) + " live, "@ + decimal(meshing as nat)
            + " meshing\natmosphere: "@ + (if atmosphere {
            "on"@
        } else {
            "off (airless)"@
        })
            + "\n\nW/A/S/D move \u{b7} R/F up/down \u{b7} arrows look \u{b7} F3 overlay ["@ + (
        if overlay {
            "on"@
        } else {
            "off"@
        }) + "]"@,
        s@ == surface_text(name, radius_m, altitude_mm, live, meshing, atmosphere, overlay),
{
    let mut s: String = "SURFACE (-- surface)\nbody: ".to_owned();
    s.append(name);
    s.append("\nradius: ");
    show(&mut s, radius_m as i64 * 1_000, field(0, 0));
    s.append(" km\naltitude: ");
    show(&mut s, altitude_mm, field(0, 1));
    s.append(" km\nchunks: ");
    push_decimal(&mut s, live as u64);
    s.append(" live, ");
    push_decimal(&mut s, meshing as u64);
    s.append(" meshing\natmosphere: ");
    s.append(
        if atmosphere {
            "on"
        } else {
            "off (airless)"
        },
    );
    s.append("\n\nW/A/S/D move \u{b7} R/F up/down \u{b7} arrows look \u{b7} F3 overlay [");
    s.append(
        if overlay {
            "on"
        } else {
            "off"
        },
    );
    s.append("]");
    s
}

/// How a craft's mesh is made from its lattice.
#[derive(Clone, Copy, Debug, PartialEq, Eq, Structural)]
pub enum VoxelSkin {
    /// A cube for each cell.
    Blocky,
    /// Coplanar faces merged into panels.
    Hull,
}

/// The texture set of a structural cell: one set serves every material.
pub fn material_set_for(_material: Material) -> (s: &'static str)
    ensures
        s@ == "hull_panel"@,
{
    "hull_panel"
}

/// A texture of a set.
#[derive(Clone, Copy, Debug, PartialEq, Eq, Structural)]
pub enum MapKind {
    Albedo,
    Normal,
    MetallicRoughness,
    Occlusion,
}

/// A texture's suffix.
pub open spec fn map_suffix(kind: MapKind) -> Seq<char> {
    match kind {
        MapKind::Albedo => "_albedo.png"@,
        MapKind::Normal => "_normal.png"@,
        MapKind::MetallicRoughness => "_metallic_roughness.png"@,
        MapKind::Occlusion => "_occlusion.png"@,
    }
}

/// Where a texture of a set is, and whether it holds colours: only the albedo
/// does, the others hold plain data.
pub fn texture(set: &str, kind: MapKind) -> (r: (String, bool))
    ensures
        r.0@ == "materials/"@ + set@ + map_suffix(kind),
        r.1 == (kind == MapKind::Albedo),
{
    let mut s: String = "materials/".to_owned();
    s.append(set);
    s.append(
        match kind {
            MapKind::Albedo => "_albedo.png",
            MapKind::Normal => "_normal.png",
            MapKind::MetallicRoughness => "_metallic_roughness.png",
            MapKind::Occlusion => "_occlusion.png",
        },
    );
    (s, kind == MapKind::Albedo)
}

/// The two skins shown side by side, and how far to the side, in metres.
pub fn skin_slots() -> (v: Vec<(i32, VoxelSkin)>)
    ensures
        v@ == seq![(-4i32, VoxelSkin::Blocky), (4i32, VoxelSkin::Hull)],
        v@ == slots(),
{
    let mut v: Vec<(i32, VoxelSkin)> = Vec::new();
    v.push((-4, VoxelSkin::Blocky));
    v.push((4, VoxelSkin::Hull));
    assert(v@ =~= seq![(-4i32, VoxelSkin::Blocky), (4i32, VoxelSkin::Hull)]);
    v
}

/// Air is followed by water, water by vacuum, and vacuum by air; no medium comes back before
/// the third step.
pub proof fn lemma_media_follow_one_another(f: Flow)
    ensures
        next_flow(Flow::Air) == Flow::Water,
        next_flow(Flow::Water) == Flow::Vacuum,
        next_flow(f) != f && next_flow(next_flow(f)) != f,
{
}

/// Only air has the spike.
pub proof fn lemma_only_air_has_wave_drag(f: Flow)
    ensures
        f == Flow::Air <==> flow_note(f)[0] == 't',
        f != Flow::Air <==> flow_note(f)[0] == 'n',
        flow_name(Flow::Air)[0] == 'a' && flow_name(Flow::Water)[0] == 'w' && flow_name(
            Flow::Vacuum,
        )[0] == 'v',
{
    reveal_strlit("transonic area-ruling spike near Mach 1");
    reveal_strlit("no wave drag (incompressible / vacuum)");
    reveal_strlit("air");
    reveal_strlit("water");
    reveal_strlit("vacuum");
}

/// Each texture of a set has its own suffix.
pub proof fn lemma_textures_have_their_own_suffix(kind: MapKind)
    ensures
        kind == MapKind::Albedo <==> map_suffix(kind)[1] == 'a',
        kind == MapKind::Normal <==> map_suffix(kind)[1] == 'n',
        kind == MapKind::MetallicRoughness <==> map_suffix(kind)[1] == 'm',
        kind == MapKind::Occlusion <==> map_suffix(kind)[1] == 'o',
{
    reveal_strlit("_albedo.png");
    reveal_strlit("_normal.png");
    reveal_strlit("_metallic_roughness.png");
    reveal_strlit("_occlusion.png");
}

/// Every measure stands behind its own label in the streamed surface's readout.
pub proof fn lemma_the_surface_readout_labels_its_measures(
    name: &str,
    radius_m: u32,
    altitude_mm: i64,
    live: usize,
    meshing: usize,
    atmosphere: bool,
    overlay: bool,
)
    ensures
        says(
            surface_text(name, radius_m, altitude_mm, live, meshing, atmosphere, overlay),
            "SURFACE (-- surface)\nbody: "@ + name@,
        ),
        says(
            surface_text(name, radius_m, altitude_mm, live, meshing, atmosphere, overlay),
            "\nradius: "@ + shown(radius_m * 1_000, (Field { width: 0, digits: 0, plus: false })),
        ),
        says(
            surface_text(name, radius_m, altitude_mm, live, meshing, atmosphere, overlay),
            " km\naltitude: "@ + shown(altitude_mm as int, (Field { width: 0, digits: 1, plus: false })),
        ),
        says(
            surface_text(name, radius_m, altitude_mm, live, meshing, atmosphere, overlay),
            " km\nchunks: "@ + decimal(live as nat),
        ),
        says(
            surface_text(name, radius_m, altitude_mm, live, meshing, atmosphere, overlay),
            " live, "@ + decimal(meshing as nat),
        ),
        says(
            surface_text(name, radius_m, altitude_mm, live, meshing, atmosphere, overlay),
            " meshing\natmosphere: "@ + (if atmosphere { "on"@ } else { "off (airless)"@ }),
        ),
        says(
            surface_text(name, radius_m, altitude_mm, live, meshing, atmosphere, overlay),
            "\n\nW/A/S/D move \u{b7} R/F up/down \u{b7} arrows look \u{b7} F3 overlay ["@ + (if overlay { "on"@ } else { "off"@ }),
        ),
{
    let text = surface_text(name, radius_m, altitude_mm, live, meshing, atmosphere, overlay);
    let t0 = "SURFACE (-- surface)\nbody: "@;
    let t1 = name@;
    let t2 = "\nradius: "@;
    let t3 = shown(radius_m * 1_000, (Field { width: 0, digits: 0, plus: false }));
    let t4 = " km\naltitude: "@;
    let t5 = shown(altitude_mm as int, (Field { width: 0, digits: 1, plus: false }));
    let t6 = " km\nchunks: "@;
    let t7 = decimal(live as nat);
    let t8 = " live, "@;
    let t9 = decimal(meshing as nat);
    let t10 = " meshing\natmosphere: "@;
    let t11 = (if atmosphere { "on"@ } else { "off (airless)"@ });
    let t12 = "\n\nW/A/S/D move \u{b7} R/F up/down \u{b7} arrows look \u{b7} F3 overlay ["@;
    let t13 = (if overlay { "on"@ } else { "off"@ });
    let t14 = "]"@;
    let a1 = t0 + t1;
    lemma_says_itself(a1);
    let a2 = a1 + t2;
    lemma_says_on(a1, t2);
    let a3 = a2 + t3;
    lemma_says_on(a2, t3);
    lemma_says_its_end(a1, t2, t3);
    let a4 = a3 + t4;
    lemma_says_on(a3, t4);
    let a5 = a4 + t5;
    lemma_says_on(a4, t5);
    lemma_says_its_end(a3, t4, t5);
    let a6 = a5 + t6;
    lemma_says_on(a5, t6);
    let a7 = a6 + t7;
    lemma_says_on(a6, t7);
    lemma_says_its_end(a5, t6, t7);
    let a8 = a7 + t8;
    lemma_says_on(a7, t8);
    let a9 = a8 + t9;
    lemma_says_on(a8, t9);
    lemma_says_its_end(a7, t8, t9);
    let a10 = a9 + t10;
    lemma_says_on(a9, t10);
    let a11 = a10 + t11;
    lemma_says_on(a10, t11);
    lemma_says_its_end(a9, t10, t11);
    let a12 = a11 + t12;
    lemma_says_on(a11, t12);
    let a13 = a12 + t13;
    lemma_says_on(a12, t13);
    lemma_says_its_end(a11, t12, t13);
    let a14 = a13 + t14;
    lemma_says_on(a13, t14);
    assert(text == a14);
}

/// The ground's base colour.
pub open spec fn tint_of(air: bool, sea: bool) -> GroundTint {
    if sea {
        GroundTint::Wet
    } else if air {
        GroundTint::Dusty
    } else {
        GroundTint::Bare
    }
}

/// A sea wets the ground, air alone makes it dusty, and without either it is bare.
pub proof fn lemma_surroundings_colour_the_ground(air: bool, sea: bool)
    ensures
        tint_of(air, sea) is Wet <==> sea,
        tint_of(air, sea) is Dusty <==> air && !sea,
        tint_of(air, sea) is Bare <==> !air && !sea,
{
}

/// Which colour outlines a level of detail.
pub open spec fn outline_of(level: int) -> int {
    level % 6
}

/// The outlines come round after six levels, and no two levels closer than that share one.
pub proof fn lemma_outlines_come_round(level: int, d: int)
    requires
        0 < d < 6,
    ensures
        outline_of(level + 6) == outline_of(level),
        outline_of(level + d) != outline_of(level),
        0 <= outline_of(level) < 6,
{
}

/// The two skins shown side by side.
pub open spec fn slots() -> Seq<(i32, VoxelSkin)> {
    seq![(-4i32, VoxelSkin::Blocky), (4i32, VoxelSkin::Hull)]
}

/// Each skin is shown once, the blocky one on the left and the hull as far on the right.
pub proof fn lemma_skins_stand_side_by_side()
    ensures
        slots().len() == 2,
        slots()[0].1 == VoxelSkin::Blocky && slots()[0].0 < 0,
        slots()[1].1 == VoxelSkin::Hull && slots()[1].0 == -slots()[0].0,
{
}

} // verus!
