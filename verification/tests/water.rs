use sounding::dive::aged;
use sounding::dive::dive_hud;
use sounding::dive::emit_splash;
use sounding::dive::emit_steam;
use sounding::dive::rests;
use sounding::dive::splash_intensity;
use sounding::dive::steam_intensity;
use sounding::dive::DiveReadout;
use sounding::dive::Plume;
use sounding::dive::Spray;
use sounding::dive::REST_DEPTH;
use sounding::dive::SPLASH_FULL;
use sounding::dive::SPLASH_MAX;
use sounding::dive::SPLASH_ONSET;
use sounding::dive::SPLASH_RANGE;
use sounding::dive::STEAM_LIFETIME;
use sounding::dive::STEAM_MASS_FULL;
use sounding::dive::STEAM_MAX;
use sounding::drawing::draw_compartments;
use sounding::drawing::draw_flooding;
use sounding::drawing::Mark;
use sounding::drawing::Paint;
use sounding::flight::MediumKind;
use sounding::harbor::build_flood_state;
use sounding::harbor::build_hud;
use sounding::harbor::cell_aabb;
use sounding::harbor::harbor_scenario;
use sounding::harbor::enter_float;
use sounding::harbor::fill_cuboid_y;
use sounding::harbor::fill_level;
use sounding::harbor::float_hud;
use sounding::harbor::harbor_ballast_input;
use sounding::harbor::harbor_breach_input;
use sounding::harbor::harbor_drive_input;
use sounding::harbor::occluder;
use sounding::harbor::raise_interior_water;
use sounding::harbor::refusal;
use sounding::harbor::swamp;
use sounding::harbor::toggle_mode;
use sounding::harbor::would_float;
use sounding::harbor::BallastCommand;
use sounding::harbor::Document;
use sounding::harbor::HarborMode;
use sounding::harbor::HarborReadout;
use sounding::harbor::Hull;
use sounding::harbor::InteriorWaterRegion;
use sounding::harbor::Point;
use sounding::harbor::Tank;
use sounding::harbor::WaterSource;
use sounding::input::KeyCode;
use sounding::input::Keyboard;
use sounding::rooms::compartments_hud;
use sounding::rooms::flood_input;
use sounding::rooms::flooding_hud;
use sounding::rooms::wet_cells;
use sounding::rooms::CompartmentsWorld;
use sounding::shapes::breach_cell;
use sounding::shapes::two_room_craft;
use sounding::voxel::Cell;
use sounding::voxel::Device;
use sounding::voxel::DeviceKind;

fn tapped(key: KeyCode) -> Keyboard {
    let mut keys = Keyboard::new();
    keys.press(key);
    keys
}

fn cell(x: i32, y: i32, z: i32) -> Cell {
    Cell { x, y, z }
}

#[test]
fn steam_intensity_tracks_vaporised_mass() {
    assert_eq!(steam_intensity(0), 0);
    assert!(steam_intensity(STEAM_MASS_FULL / 4) > 0);
    assert!(steam_intensity(STEAM_MASS_FULL / 2) > steam_intensity(STEAM_MASS_FULL / 4));
    assert!(steam_intensity(STEAM_MASS_FULL * 10) <= STEAM_MASS_FULL);
    assert_eq!(steam_intensity(STEAM_MASS_FULL / 4) * 4, STEAM_MASS_FULL);
    assert_eq!(steam_intensity(1), 1, "the least steam is steam");
}

#[test]
fn splash_intensity_is_speed_gated() {
    assert_eq!(splash_intensity(0), 0);
    assert_eq!(splash_intensity(SPLASH_ONSET), 0);
    assert!(splash_intensity(SPLASH_FULL * 2 / 5) > 0);
    assert!(splash_intensity(SPLASH_FULL * 3 / 5) > splash_intensity(SPLASH_FULL * 3 / 10));
    assert!(splash_intensity(SPLASH_FULL * 10) <= SPLASH_RANGE);
    assert_eq!(splash_intensity(SPLASH_FULL), SPLASH_RANGE);
}

#[test]
fn steam_comes_at_its_rate_and_stops_at_the_pool() {
    let mut plume = Plume { accum: 0, seed: 1 };
    let puffs = emit_steam(&mut plume, 100_000, STEAM_MASS_FULL, true, 0);
    assert_eq!(puffs.len(), 4, "forty puffs a second");
    assert_ne!(puffs[0], puffs[1]);
    assert!(emit_steam(&mut plume, 100_000, STEAM_MASS_FULL, true, STEAM_MAX).is_empty());
    assert!(emit_steam(&mut plume, 100_000, STEAM_MASS_FULL, false, 0).is_empty());
    assert_eq!(plume.accum, 0);
    emit_steam(&mut plume, 10_000, STEAM_MASS_FULL, true, 0);
    assert_ne!(plume.accum, 0);
    assert!(emit_steam(&mut plume, 10_000, 0, true, 0).is_empty());
    assert_eq!(plume.accum, 0, "steam that dies down forgets");
}

#[test]
fn a_nearly_full_steam_pool_takes_only_what_fits() {
    let mut plume = Plume { accum: 0, seed: 1 };
    let puffs = emit_steam(&mut plume, 1_000_000, STEAM_MASS_FULL, true, STEAM_MAX - 1);
    assert_eq!(puffs.len(), 1, "forty are due, one fits");
    assert_eq!(plume.accum, 0, "the rest is not made up for");
    let mut roomy = Plume { accum: 0, seed: 1 };
    let all = emit_steam(&mut roomy, 1_000_000, STEAM_MASS_FULL, true, 0);
    assert_eq!(all.len(), 40);
    assert_eq!(all[0], puffs[0]);
    let next = emit_steam(&mut plume, 25_000, STEAM_MASS_FULL, true, 0);
    assert_eq!(next[0], all[1], "the seed went on by one puff");
}

#[test]
fn faint_steam_builds_up_to_a_puff() {
    let mut plume = Plume { accum: 0, seed: 1 };
    assert!(emit_steam(&mut plume, 1_000_000, 100, true, 0).is_empty());
    assert_ne!(plume.accum, 0, "a hundred micrograms count");
    let mut half = Plume { accum: 0, seed: 1 };
    assert_eq!(emit_steam(&mut half, 1_000_000, STEAM_MASS_FULL / 2, true, 0).len(), 20);
}

#[test]
fn a_burst_is_its_whole_share_of_the_droplets() {
    for (speed, droplets) in [
        (22_999, 0),
        (23_000, 1),
        (26_000, 2),
        (32_000, 4),
        (110_000, 30),
        (199_999, 59),
        (200_000, 60),
    ] {
        let mut spray = Spray {
            previous: None,
            seed: 1,
        };
        let burst = emit_splash(&mut spray, MediumKind::Liquid, speed, true, 0);
        assert_eq!(burst.len(), droplets, "at {speed} mm/s");
    }
}

#[test]
fn spray_goes_up_once_per_entry() {
    let mut spray = Spray {
        previous: None,
        seed: 1,
    };
    let none = emit_splash(&mut spray, MediumKind::Atmosphere, SPLASH_FULL, true, 0);
    assert!(none.is_empty());
    let burst = emit_splash(&mut spray, MediumKind::Liquid, SPLASH_FULL, true, 0);
    assert_eq!(burst.len(), 60);
    assert!(emit_splash(&mut spray, MediumKind::Liquid, SPLASH_FULL, true, 0).is_empty());
    emit_splash(&mut spray, MediumKind::Atmosphere, 0, true, 0);
    let last = emit_splash(
        &mut spray,
        MediumKind::Liquid,
        SPLASH_FULL,
        true,
        SPLASH_MAX - 3,
    );
    assert_eq!(last.len(), 3, "the pool has room for three");
}

#[test]
fn puffs_age_and_hulls_rest() {
    assert_eq!(aged(0, 16_000, STEAM_LIFETIME), Some(16_000));
    assert_eq!(aged(STEAM_LIFETIME - 1, 1, STEAM_LIFETIME), None);
    assert!(rests(-REST_DEPTH - 1) != rests(REST_DEPTH));
    let hud = dive_hud(&DiveReadout {
        active: true,
        altitude: -12_300_000,
        speed: 4_500_000,
        medium: MediumKind::Liquid,
        pressure: 224_000_000,
        ram: 10_000_000,
        skin_temp: 300_000_000,
        over_limit: false,
        ablator_remaining: Some(500_000),
    });
    assert!(hud.starts_with("gear:     active\naltitude: "));
    assert!(hud.contains("medium:   ocean") && hud.contains("-12"));
    assert!(hud.contains("shield:   ") && !hud.contains("OVERHEAT"));
}

/// The hull of solid cells, seven by five by eleven half metres, hollow.
fn shell_cells() -> Vec<Cell> {
    let mut cells = Vec::new();
    for x in 0..7 {
        for y in 0..5 {
            for z in 0..11 {
                if x == 0 || x == 6 || y == 0 || y == 4 || z == 0 || z == 10 {
                    cells.push(cell(x, y, z));
                }
            }
        }
    }
    cells
}

fn cavity_cells() -> Vec<Cell> {
    let mut cells = Vec::new();
    for x in 1..6 {
        for y in 1..4 {
            for z in 1..10 {
                cells.push(cell(x, y, z));
            }
        }
    }
    cells
}

const CELL_MM3: u64 = 125_000_000;
const HALF_METRE: u32 = 500_000;
const COM: Point = Point {
    x: 1_750_000,
    y: 1_250_000,
    z: 2_750_000,
};

/// The lift of a closed volume of cells in sea water, in micronewtons.
fn lift_of(cells: u64) -> u64 {
    (cells as f64 * 0.125 * 1_025.0 * 9.81 * 1e6) as u64
}

/// A plate hull of four tonnes.
fn plate_hull() -> Hull {
    Hull {
        mass: Some(4_000_000_000),
        shell_lift: lift_of(cavity_cells().len() as u64),
        cavity_cells: 0,
        cell_volume: CELL_MM3,
    }
}

#[test]
fn would_float_predicts_an_open_top_hull_floats() {
    let open = Hull {
        shell_lift: 0,
        cavity_cells: cavity_cells().len() as u64,
        ..plate_hull()
    };
    assert_ne!(open.cavity_cells, 0);
    assert!(
        would_float(&open).0,
        "an open-top plate hull floats on its held-out volume"
    );
    let bare = Hull {
        cavity_cells: 0,
        ..open
    };
    assert!(!would_float(&bare).0, "its shell alone would sink");
}

#[test]
fn a_hull_that_barely_floats_is_not_awash() {
    let hull = Hull {
        mass: Some(100_000_000),
        shell_lift: 981_000_001,
        cavity_cells: 0,
        cell_volume: 0,
    };
    assert_eq!(would_float(&hull), (true, 999_999));
    let even = Hull {
        shell_lift: 981_000_000,
        ..hull
    };
    assert_eq!(would_float(&even), (false, 1_000_000));
}

#[test]
fn would_float_predicts_panel_floats_solid_sinks() {
    let (floats, draft) = would_float(&plate_hull());
    assert!(floats, "the plate hull is predicted to float");
    assert!(draft > 0 && draft < 1_000_000, "with a real draft: {draft}");

    let solid = shell_cells().len() as u64;
    let cubes = Hull {
        mass: Some((solid as f64 * 0.125 * 2_700.0 * 1e6) as u64),
        shell_lift: lift_of(7 * 5 * 11),
        cavity_cells: 0,
        cell_volume: CELL_MM3,
    };
    assert!(
        !would_float(&cubes).0,
        "the same hull in solid cubes is predicted to sink"
    );

    let empty = Hull {
        mass: None,
        shell_lift: 0,
        cavity_cells: 0,
        cell_volume: CELL_MM3,
    };
    assert!(!would_float(&empty).0);
}

#[test]
fn a_draft_is_the_share_of_lift_that_is_used() {
    let h = Hull {
        mass: Some(1_025_000_000),
        shell_lift: 0,
        cavity_cells: 16,
        cell_volume: CELL_MM3,
    };
    assert_eq!(would_float(&h), (true, 500_000));
    let hud = build_hud(&h, true, "flat", 16, 40);
    assert!(hud.contains("will FLOAT (draft ~50%)"));
}

fn flood(cavity: &Vec<Cell>, comps: &Vec<Vec<Cell>>, tanks: &Vec<Point>) -> Vec<InteriorWaterRegion> {
    build_flood_state(comps, cavity, &shell_cells(), tanks, HALF_METRE, COM)
}

#[test]
fn build_flood_state_yields_one_region_per_source() {
    let count = |r: &Vec<InteriorWaterRegion>, want: fn(WaterSource) -> bool| {
        r.iter().filter(|r| want(r.source)).count()
    };
    let comps = vec![cavity_cells()];
    let sealed = flood(&vec![], &comps, &vec![]);
    assert!(
        count(&sealed, |s| matches!(s, WaterSource::Sealed { .. })) >= 1,
        "the sealed hull yields at least one Sealed region"
    );
    assert_eq!(
        count(&sealed, |s| matches!(s, WaterSource::Open)),
        0,
        "a sealed hull has no open cavity"
    );
    assert_eq!(
        count(&sealed, |s| matches!(s, WaterSource::Ballast { .. })),
        0,
        "no ballast, no Ballast region"
    );
    assert_eq!(
        comps.len(),
        count(&sealed, |s| matches!(s, WaterSource::Sealed { .. })),
        "each Sealed region maps to a compartment"
    );

    let open = flood(&cavity_cells(), &vec![], &vec![]);
    assert_eq!(
        count(&open, |s| matches!(s, WaterSource::Open)),
        1,
        "an open-top hull yields exactly one Open region"
    );

    let mount = Point {
        x: 0,
        y: 500_000,
        z: 0,
    };
    let ballasted = flood(&vec![], &comps, &vec![mount]);
    assert_eq!(
        count(&ballasted, |s| matches!(s, WaterSource::Ballast { tank: 0 })),
        1,
        "one tank, one Ballast region"
    );
}

#[test]
fn ballast_region_fits_within_the_hull() {
    let regions = flood(&vec![], &vec![cavity_cells()], &vec![COM]);
    let region = regions
        .iter()
        .find(|r| matches!(r.source, WaterSource::Ballast { .. }))
        .expect("a ballast region exists");
    let hull = cell_aabb(&shell_cells(), HALF_METRE, COM);
    let b = region.bounds;
    assert!(b.min.x >= hull.min.x && b.min.y >= hull.min.y && b.min.z >= hull.min.z);
    assert!(b.max.x <= hull.max.x && b.max.y <= hull.max.y && b.max.z <= hull.max.z);
    let centimetre = 200_000;
    assert!(b.max.x - b.min.x > centimetre);
    assert!(b.max.y - b.min.y > centimetre);
    assert!(b.max.z - b.min.z > centimetre);
    assert_eq!(b.max.x - b.min.x, 20 * 2_100_000, "six tenths of the width");
    assert_eq!(b.max.y - b.min.y, 20 * 875_000, "thirty-five hundredths high");
}

#[test]
fn fill_cuboid_rises_from_the_floor() {
    let metre: i128 = 20_000_000;
    let fine = |v: i128| v as f64 / (metre as f64 * 1e6);
    let (min_y, extent) = (2 * metre, 4 * metre);
    let (s0, t0) = fill_cuboid_y(min_y, extent, 0);
    assert!(
        fine(s0) <= 0.001 && (fine(t0) / 2.0 - 2.0).abs() < 0.01,
        "empty sits on the floor"
    );
    let (s1, t1) = fill_cuboid_y(min_y, extent, 500_000);
    assert!(
        (fine(s1) - 2.0).abs() < 1e-4 && (fine(t1) / 2.0 - 3.0).abs() < 1e-4,
        "half fills to mid-height"
    );
    let (s2, t2) = fill_cuboid_y(min_y, extent, 1_500_000);
    assert!(
        (fine(s2) - 4.0).abs() < 1e-4 && (fine(t2) / 2.0 - 4.0).abs() < 1e-4,
        "full clamps to the region"
    );
}

#[test]
fn each_region_reads_its_own_level() {
    let tanks = vec![Tank {
        fill: 1,
        capacity: 4,
    }];
    let flooded = vec![300_000];
    assert_eq!(
        fill_level(WaterSource::Sealed { comp: 0 }, &flooded, 7, &tanks),
        300_000
    );
    assert_eq!(
        fill_level(WaterSource::Sealed { comp: 5 }, &flooded, 7, &tanks),
        0
    );
    assert_eq!(fill_level(WaterSource::Open, &flooded, 7, &tanks), 7);
    assert_eq!(
        fill_level(WaterSource::Ballast { tank: 0 }, &flooded, 7, &tanks),
        250_000
    );
    let open = flood(&cavity_cells(), &vec![], &vec![]);
    assert_eq!(swamp(&open, 100_000, 400_000), (600_000, 600_000));
    assert_eq!(swamp(&vec![], 100_000, 400_000), (0, 100_000));
    let o = occluder(open[0]);
    assert!(o.width > 0 && o.depth > 0 && o.height_x100 > 0);
}

#[test]
fn the_harbor_reads_its_keys() {
    assert_eq!(harbor_ballast_input(&Keyboard::new()), BallastCommand::Hold);
    assert_eq!(harbor_drive_input(&Keyboard::new()), (0, 0));
    assert!(!harbor_breach_input(&Keyboard::new(), false));
    assert_eq!(
        toggle_mode(&Keyboard::new(), HarborMode::Float),
        HarborMode::Float
    );
    let there = toggle_mode(&tapped(KeyCode::Tab), HarborMode::Float);
    assert_eq!(toggle_mode(&tapped(KeyCode::Tab), there), HarborMode::Float);
    assert!(refusal("a.json", &Document::Afloat).is_none());
    assert!(refusal("a.json", &Document::Ashore).unwrap().contains("a.json"));
    assert!(refusal("a.json", &Document::Unreadable("bad".into()))
        .unwrap()
        .contains("bad"));
}

#[test]
fn the_harbor_warns_of_sinking() {
    let mut r = HarborReadout {
        draft: 500_000,
        heel: 1_000_000,
        net_buoyancy: 0,
        thrust: 0,
        fuel: 1_000_000,
        ballast: 0,
        rudder: 0,
        flood: 0,
    };
    let calm = float_hud(&r);
    r.net_buoyancy = -600_000_000;
    let sinking = float_hud(&r);
    assert_ne!(calm, sinking);
    assert!(sinking.contains("SINK"));
}

#[test]
fn the_hatch_toggles_and_the_hull_breaches() {
    let mut w = CompartmentsWorld::new();
    assert!(w.dirty && !w.doors[0].open);
    w.dirty = false;
    let tank = Device {
        cell: breach_cell(),
        kind: DeviceKind::Tank,
    };
    w.craft.devices.push(tank);
    w.handle_input(&tapped(KeyCode::KeyH));
    assert!(w.dirty && w.doors[0].open);
    assert!(w.craft.is_occupied(breach_cell()));
    w.handle_input(&tapped(KeyCode::KeyB));
    assert!(!w.craft.is_occupied(breach_cell()));
    assert_eq!(w.craft.devices, vec![tank], "a breach takes plating only");
    w.handle_input(&tapped(KeyCode::KeyR));
    assert_eq!(w, CompartmentsWorld::new());
    assert_eq!(
        compartments_hud(2, 9_000_000),
        "sealed compartments: 2   volume: 9 m³\nH toggle hatch · B breach hull · R reset"
    );
}

#[test]
fn water_fills_a_room_from_below() {
    let room = vec![cell(0, 2, 0), cell(0, 0, 0), cell(0, 1, 0), cell(0, 3, 0)];
    assert!(wet_cells(&room, 0).is_empty());
    assert_eq!(
        wet_cells(&room, 500_000),
        vec![cell(0, 0, 0), cell(0, 1, 0)]
    );
    assert_eq!(wet_cells(&room, 1_000_000).len(), 4);
    let r = flood_input(&tapped(KeyCode::KeyB), &vec![true, false, false]);
    assert_eq!(r.breach, Some(1));
    assert!(!r.reset);
    assert_eq!(
        flood_input(&tapped(KeyCode::KeyB), &vec![true]).breach,
        None
    );
    let hud = flooding_hud(120_500_000, 250_000, 1_500_000_000, true);
    assert_eq!(
        hud,
        "depth:  120.5 m   flooded:   25%   mass:     1500 kg   [IMPLODED]\nB breach a compartment · R reset"
    );
}

fn painted(marks: &[Mark], paint: Paint) -> usize {
    marks
        .iter()
        .filter(|m| matches!(m, Mark::Cube { paint: p, .. } if *p == paint))
        .count()
}

#[test]
fn rooms_are_drawn_in_turn() {
    let w = CompartmentsWorld::new();
    let rooms: Vec<Vec<Cell>> = (0..5).map(|i| vec![cell(i, 0, 0), cell(i, 1, 0)]).collect();
    let marks = draw_compartments(&w.craft, &w.doors, &rooms);
    assert_eq!(painted(&marks, Paint::Structure), w.craft.voxels.len());
    assert_eq!(painted(&marks, Paint::ClosedDoor), 1);
    assert_eq!(painted(&marks, Paint::Room { color: 0 }), 4, "the fifth is as the first");
    assert_eq!(painted(&marks, Paint::Room { color: 3 }), 2);
    let mut open = w.doors.clone();
    open[0].open = true;
    let marks = draw_compartments(&w.craft, &open, &vec![]);
    assert_eq!(painted(&marks, Paint::ClosedDoor), 0);
}

#[test]
fn floodwater_is_drawn_room_by_room() {
    let craft = two_room_craft();
    let rooms = vec![
        vec![cell(1, 1, 1), cell(1, 2, 1)],
        vec![cell(4, 1, 1), cell(4, 2, 1)],
    ];
    let dry = draw_flooding(&craft, &rooms, &vec![0, 0]);
    assert_eq!(painted(&dry, Paint::Floodwater), 0);
    assert_eq!(painted(&dry, Paint::Plating), craft.voxels.len());
    let wet = draw_flooding(&craft, &rooms, &vec![500_000, 1_000_000]);
    assert_eq!(painted(&wet, Paint::Floodwater), 3);
}

#[test]
fn interior_water_follows_its_sources() {
    let regions = flood(&cavity_cells(), &vec![cavity_cells()], &vec![COM]);
    assert_eq!(regions.len(), 3);
    let tanks = vec![Tank {
        fill: 2,
        capacity: 2,
    }];
    let (water, shown) =
        raise_interior_water(&vec![2, 0, 9], &regions, &vec![250_000], 250_000, 400_000, &tanks);
    assert_eq!(shown, 600_000, "the swamped cavity is deeper");
    assert_eq!(water[2], None);
    let full = |i: usize| {
        let b = regions[i].bounds;
        (b.max.y - b.min.y) * 1_000_000
    };
    assert_eq!(water[0].unwrap().0, full(2));
    assert_eq!(water[1].unwrap().0, full(0) / 4);
}

#[test]
fn the_live_build_goes_afloat() {
    let craft = two_room_craft();
    assert_eq!(enter_float(true, &craft), Some(two_room_craft()));
    assert_eq!(enter_float(false, &craft), None);
}

#[test]
fn the_harbour_takes_only_afloat_documents() {
    assert_eq!(harbor_scenario(None), "content/scenarios/harbor.ron");
    assert_eq!(harbor_scenario(Some("mine.ron")), "mine.ron");
    assert_eq!(refusal("mine.ron", &Document::Afloat), None);
    assert_eq!(
        refusal("mine.ron", &Document::Ashore),
        Some(
            "scenario `mine.ron` is not an afloat scenario — the harbor presents Afloat placements"
                .to_string()
        )
    );
}
