use sounding::contact::all_rest;
use sounding::contact::collide_caption;
use sounding::contact::collide_hud;
use sounding::contact::collide_substep;
use sounding::contact::crash_hud;
use sounding::contact::crash_substep;
use sounding::contact::debris_position;
use sounding::contact::land_hud;
use sounding::contact::resting_positions;
use sounding::contact::start_positions;
use sounding::contact::Act;
use sounding::contact::BreakWorld;
use sounding::contact::CollideWorld;
use sounding::contact::CrashWorld;
use sounding::contact::PieceColor;
use sounding::flight::autopilot_commands;
use sounding::flight::autopilot_hud;
use sounding::flight::fmt_alt;
use sounding::flight::gauge;
use sounding::flight::launch_hud;
use sounding::flight::orbit_line;
use sounding::flight::phase_label;
use sounding::flight::play_hud;
use sounding::flight::player_input;
use sounding::flight::recapture_input;
use sounding::flight::sas_input;
use sounding::flight::sas_label;
use sounding::flight::scenario_hud;
use sounding::flight::scenario_input;
use sounding::flight::target_throttle;
use sounding::flight::tier_label;
use sounding::flight::warp_input;
use sounding::flight::Attitude;
use sounding::flight::Command;
use sounding::flight::ControlTier;
use sounding::flight::Controls;
use sounding::flight::FlightReadout;
use sounding::flight::MediumKind;
use sounding::flight::Mission;
use sounding::flight::SasMode;
use sounding::flight::Setting;
use sounding::harness_fixture::Fixture;
use sounding::input::KeyCode;
use sounding::input::Keyboard;
use sounding::net::Outcome;
use sounding::net::Phase;
use sounding::pause::SimClock;
use sounding::rover::buggy_input;
use sounding::rover::drive_input;
use sounding::rover::moon_hud;
use sounding::rover::rover_hud;
use sounding::rover::wheel_torques;
use sounding::rover::Track;
use sounding::rover::MAX_TRACK;
use sounding::shapes::bar_craft;
use sounding::shapes::build_buggy;
use sounding::shapes::column_craft;
use sounding::shapes::cube_craft;
use sounding::shapes::deck_craft;
use sounding::shapes::demo_craft;
use sounding::shapes::dive_craft;
use sounding::shapes::hatch_cell;
use sounding::shapes::hull_craft;
use sounding::shapes::taper_craft;
use sounding::shapes::two_room_craft;
use sounding::voxel::Cell;
use sounding::voxel::Material;
use sounding::voxel::TireSpec;
use sounding::voxel::VoxelCraft;

fn held(list: &[KeyCode]) -> Keyboard {
    let mut keys = Keyboard::new();
    for k in list {
        keys.press(*k);
    }
    keys
}

/// No cell of a craft is filled twice.
fn once(c: &VoxelCraft) -> bool {
    let cells: std::collections::BTreeSet<(i32, i32, i32)> =
        c.voxels.iter().map(|v| (v.cell.x, v.cell.y, v.cell.z)).collect();
    cells.len() == c.voxels.len()
}

#[test]
fn the_crafts_are_built_as_planned() {
    assert_eq!(cube_craft(3, Material::Steel).voxels.len(), 27);
    let bar = bar_craft(6, Material::Frangible);
    assert_eq!(bar.voxels.len(), 6);
    assert_eq!(bar.voxels[5].cell, Cell { x: 5, y: 0, z: 0 });
    assert_eq!(bar.voxels[5].material, Material::Frangible);
    for craft in [
        column_craft(),
        hull_craft(),
        taper_craft(),
        deck_craft(500_000),
        demo_craft(),
        two_room_craft(),
        dive_craft(),
    ] {
        assert!(!craft.voxels.is_empty());
        assert!(once(&craft));
    }
    let demo = demo_craft();
    assert!(!demo.is_occupied(hatch_cell()), "the hatch is a gap");
    assert!(demo.is_occupied(Cell { x: 0, y: 0, z: 0 }));
    assert!(!demo.is_occupied(Cell { x: 1, y: 1, z: 1 }));
    let tire = TireSpec {
        profile_nm: 1,
        grip_percent: 100,
        slip_long_tenths: 1,
        slip_lat_tenths: 1,
        stiffness: 1,
    };
    let buggy = build_buggy(tire);
    assert!(once(&buggy));
    assert!(buggy.parts.len() >= 8, "four wheels of a rim and a tire");
}

#[test]
fn a_substep_meets_every_pair_once() {
    let acts = crash_substep(3, true, true);
    let pairs: Vec<Act> = acts
        .iter()
        .copied()
        .filter(|a| matches!(a, Act::Pair { .. }))
        .collect();
    assert_eq!(
        pairs,
        vec![
            Act::Pair { a: 0, b: 1 },
            Act::Pair { a: 0, b: 2 },
            Act::Pair { a: 1, b: 2 },
        ]
    );
    assert_eq!(acts[0], Act::Ground { body: 0 });
    assert_eq!(
        acts[6],
        Act::Integrate {
            body: 0,
            thrust: true,
        }
    );
    assert_eq!(acts.last(), Some(&Act::Fracture));
    assert!(!crash_substep(3, false, true).contains(&Act::Fracture));
    assert_eq!(collide_substep(2, true)[2], Act::Thrust);
}

#[test]
fn a_fracture_replaces_the_projectile() {
    let mut w: CrashWorld<u8> = CrashWorld::new(1, 2);
    assert!(w.intact && w.pieces.len() == 2);
    w.fracture(None);
    assert!(w.intact && w.pieces.len() == 2, "nothing broke");
    let frags = vec![
        (bar_craft(1, Material::Frangible), 7),
        (bar_craft(2, Material::Frangible), 8),
    ];
    w.fracture(Some(frags));
    assert!(!w.intact);
    assert_eq!(w.pieces.len(), 3);
    assert!(w.pieces.iter().any(|p| p.body == 2));
    assert!(w
        .pieces
        .iter()
        .any(|p| matches!(p.color, PieceColor::Fragment { .. })));
    w.crash_input(&held(&[KeyCode::KeyR]), 1, 2);
    assert!(w.intact && w.pieces.len() == 2);
    assert_ne!(start_positions().0, start_positions().1);
    assert_eq!(
        crash_hud(false, 12_340_000, 3),
        "crash: FRACTURED\nprojectile speed:  12.3 m/s\npieces: 3"
    );
}

#[test]
fn a_loaded_target_swaps_only_its_slot() {
    let target = Some(Fixture {
        name: "bar".into(),
        craft: bar_craft(4, Material::Steel),
    });
    let bodies = vec![0u8, 1, 2, 3, 4];
    let mut w = CollideWorld::new(&None, &target, &bodies);
    assert_eq!(w.colliders.len(), 5);
    assert_eq!(w.colliders[1].voxels, bar_craft(4, Material::Steel));
    assert_eq!(w.colliders[0].voxels, cube_craft(2, Material::Composite));
    w.colliders[3].body = 9;
    w.collide_input(&held(&[KeyCode::KeyR]));
    assert_eq!(w.colliders[3].body, 3, "a reset puts bodies back");
    assert_ne!(debris_position(0), debris_position(1));
    assert_ne!(debris_position(1), debris_position(2));
}

#[test]
fn slow_bodies_rest() {
    assert!(all_rest(&vec![0, 99_999]));
    assert!(!all_rest(&vec![0, 100_000]));
    assert!(collide_hud(&vec![0], 0, 0).starts_with("collide: RESTING"));
    assert!(land_hud(1_000_000, 200_000).starts_with("land: falling"));
}

#[test]
fn a_spinning_craft_breaks_once() {
    let mut w: BreakWorld<u8> = BreakWorld::new(5);
    let before = w.spin;
    assert_eq!(w.spin_up(16_000), 16_000);
    assert!(w.spin > before);
    assert_eq!(w.spin_up(900_000), 50_000, "a long frame is cut");
    assert!(w.hud().starts_with("intact"));
    w.fracture(Some(vec![
        (bar_craft(1, Material::Steel), 1),
        (bar_craft(1, Material::Steel), 2),
    ]));
    assert!(w.fractured);
    assert_eq!(w.hud(), "fractured into 2 pieces");
}

#[test]
fn the_throttle_ramps_and_snaps() {
    let mut c = Controls::new();
    player_input(&mut c, &held(&[KeyCode::ShiftLeft]), 300_000);
    assert_eq!(c.throttle, 300_000);
    let out = player_input(&mut c, &held(&[KeyCode::KeyZ, KeyCode::KeyW]), 16_000);
    assert_eq!(
        out,
        vec![
            Command::SetThrottle(1_000_000),
            Command::SetAttitude(Attitude { x: 1, y: 0, z: 0 }),
        ]
    );
    player_input(&mut c, &held(&[KeyCode::KeyX]), 16_000);
    assert_eq!(c.throttle, 0);
    warp_input(&mut c, &held(&[KeyCode::Period]));
    warp_input(&mut c, &held(&[KeyCode::Period]));
    assert_eq!(c.warp, 4);
    warp_input(&mut c, &held(&[KeyCode::Comma]));
    assert_eq!(c.warp, 2);
}

#[test]
fn the_hold_toggles() {
    assert_eq!(
        sas_input(&held(&[KeyCode::KeyT]), SasMode::Off),
        vec![Command::SetSas(SasMode::Hold)]
    );
    assert_eq!(
        sas_input(&held(&[KeyCode::KeyT, KeyCode::KeyR]), SasMode::Hold),
        vec![
            Command::SetSas(SasMode::Off),
            Command::SetSas(SasMode::KillRotation),
        ]
    );
    assert_eq!(
        recapture_input(&held(&[KeyCode::KeyG]), true),
        Some(Command::SetSasRecapture(false))
    );
    let mut active = false;
    assert_eq!(scenario_input(&Keyboard::new(), &mut active), vec![]);
    scenario_input(&held(&[KeyCode::KeyA]), &mut active);
    assert!(active);
    assert_eq!(
        scenario_input(&Keyboard::new(), &mut active),
        vec![Command::SetAttitude(Attitude { x: 0, y: 0, z: 0 })],
        "one zero on release"
    );
    assert_eq!(scenario_input(&Keyboard::new(), &mut active), vec![]);
}

#[test]
fn the_schedule_holds_then_ramps() {
    assert_eq!(target_throttle(2_000_000), 0);
    assert_eq!(target_throttle(2_750_000), 500_000);
    assert_eq!(target_throttle(9_000_000), 1_000_000);
    let first = autopilot_commands(0, SasMode::Off);
    assert!(first.contains(&Command::SetThrottle(0)));
}

#[test]
fn gauges_and_distances_read_well() {
    let full = gauge(10, 10);
    let empty = gauge(0, 10);
    assert_eq!(full.chars().count(), empty.chars().count());
    assert_ne!(full, empty);
    assert_eq!(fmt_alt(12_345_678_000_000), "12346 km");
    assert_eq!(fmt_alt(850_400_000), "850 m");
    assert_eq!(orbit_line(None), "orbit:    escape");
    assert_eq!(
        orbit_line(Some((120_000_000_000, -5_000_000_000))),
        "orbit:    suborbital  apoapsis 120 km"
    );
    assert_eq!(phase_label(Phase::Recovery, Outcome::Crashed), "RECOVERY (crashed)");
    assert_eq!(sas_label(SasMode::Hold, false), "unavail");
    assert_eq!(tier_label(ControlTier::Direct), "direct");
}

fn readout() -> FlightReadout {
    FlightReadout {
        phase: Phase::Flight,
        outcome: Outcome::Open,
        throttle: 500_000,
        fuel: 0,
        fuel_capacity: 100_000_000,
        delta_v: 1_200_000_000,
        g_force: 1_000_000,
        altitude: 80_000_000_000,
        vertical_speed: -3_000_000,
        speed: 2_200_000_000,
        energy: 0,
        tilt: 4_000_000,
        medium: MediumKind::Vacuum,
        sas: SasMode::Hold,
        recapture: true,
        tier: ControlTier::Stabilized,
        stabilizes: true,
    }
}

#[test]
fn the_flight_readouts_name_what_happens() {
    let auto = autopilot_hud(&readout());
    assert!(auto.starts_with("phase:    FLIGHT\nthrottle: "));
    assert!(auto.contains(" 50%") && auto.contains("FLAMEOUT"));
    let play = play_hud(&readout(), Some((90_000_000_000, 85_000_000_000)));
    assert!(play.contains("orbit:    ORBIT  apo 90 km / peri 85 km"));
    assert!(play.contains("vacuum") && play.contains("stabilized"));
    assert!(launch_hud(0, 0, 0, false) != launch_hud(0, 0, 0, true));
    let hud = scenario_hud(
        "First Flight",
        true,
        &SimClock {
            paused: true,
            step_budget: 0,
        },
        100_000_000,
        0,
        0,
        0,
        &vec![Setting {
            name: "gravity".into(),
            factor: "0.5".into(),
            rationale: Some("easier".into()),
        }],
        &vec![Mission {
            name: "Reach space".into(),
            state: "active".into(),
            progress: 250_000,
        }],
        Some("A tale."),
    );
    for part in ["First Flight", "gravity", "easier", "Reach space", "25", "A tale.", "PAUSED"] {
        assert!(hud.contains(part), "{part} in {hud}");
    }
}

#[test]
fn the_rover_reads_its_keys() {
    let out = drive_input(&held(&[KeyCode::KeyW, KeyCode::KeyA, KeyCode::Space]), 4);
    assert_eq!(out.len(), 4);
    assert!(out[0].drive_torque > 0 && out[0].brake == 3_000);
    let r = buggy_input(&held(&[KeyCode::KeyA]), 0, 100_000);
    assert_eq!(r.steer, 300_000, "three full turns a second");
    assert_eq!(buggy_input(&Keyboard::new(), 200_000, 100_000).steer, 0);
    assert_eq!(wheel_torques(4, &vec![2, 3], 50), vec![0, 0, 50, 50]);
    let clock = SimClock::default();
    assert_eq!(rover_hud(1_500_000, 250_000, &clock), "speed:   1.5 m/s\nheight:  0.25 m");
    assert!(moon_hud(0, 0).contains("clearance:  0.00 m"));
}

#[test]
fn the_trail_keeps_the_recent_past() {
    let mut t: Track<usize> = Track::new();
    for i in 1..=16 * (MAX_TRACK + 5) {
        t.step(i);
    }
    assert_eq!(t.points.len(), MAX_TRACK);
    assert_eq!(t.points[0], 16 * 6);
    assert_eq!(t.points.last(), Some(&(16 * (MAX_TRACK + 5))));
}

#[test]
fn the_caption_names_the_slots() {
    let dart = Some(Fixture {
        name: "dart".into(),
        craft: bar_craft(1, Material::Steel),
    });
    assert_eq!(
        collide_caption(&None, &dart),
        "hold SPACE to accelerate projectile · R reset\nfixtures: procedural / dart"
    );
}

#[test]
fn a_crash_takes_saved_craft() {
    let fixture = |n: i32| {
        Some(Fixture {
            name: "dart".to_string(),
            craft: bar_craft(n, Material::Titanium),
        })
    };
    let mut w: CrashWorld<u8> = CrashWorld::with_fixtures(&fixture(4), &None, 1, 2);
    assert_eq!(w.pieces[0].voxels, bar_craft(4, Material::Titanium));
    assert_eq!(w.pieces[1].voxels, cube_craft(3, Material::Steel));
    w.fracture(Some(vec![]));
    w.crash_input_with(&held(&[KeyCode::KeyR]), &None, &fixture(2), 5, 6);
    assert!(w.intact && !w.thrust);
    assert_eq!(w.pieces[0].voxels, bar_craft(6, Material::Frangible));
    assert_eq!(w.pieces[1].voxels, bar_craft(2, Material::Titanium));
    assert_eq!((w.pieces[0].body, w.pieces[1].body), (5, 6));
    w.crash_input_with(&held(&[KeyCode::Space]), &None, &None, 5, 6);
    assert!(w.thrust);
    assert_eq!(resting_positions(500, 1_500), start_positions());
    assert_eq!(resting_positions(700, 90), ((-9_000, 700, 0), (3_000, 90, 0)));
}

#[test]
fn a_negative_side_builds_nothing() {
    assert!(cube_craft(-1, Material::Steel).voxels.is_empty());
    assert!(bar_craft(-3, Material::Steel).voxels.is_empty());
    assert!(cube_craft(0, Material::Steel).voxels.is_empty());
}
