use sounding::bodies::apply_body;
use sounding::bodies::atmo_tint;
use sounding::bodies::bodies_input;
use sounding::bodies::body_tint;
use sounding::bodies::hud_text;
use sounding::bodies::kept;
use sounding::bodies::BodyView;
use sounding::bodies::Shell;
use sounding::bodies::Surroundings;
use sounding::cameras::bodies_feel;
use sounding::cameras::dive_feel;
use sounding::cameras::dive_view;
use sounding::cameras::editor_feel;
use sounding::cameras::editor_view;
use sounding::cameras::fly_camera;
use sounding::cameras::fly_speed;
use sounding::cameras::gallery_feel;
use sounding::cameras::harbor_feel;
use sounding::cameras::harbor_view;
use sounding::cameras::orbit_camera;
use sounding::cameras::orbit_follow_input;
use sounding::cameras::toggle_sun;
use sounding::cameras::Feel;
use sounding::cameras::OrbitFollowCam;
use sounding::cameras::EDITOR_FAR;
use sounding::cameras::EDITOR_NEAR;
use sounding::gallery::gallery_keys;
use sounding::gallery::inspector_text;
use sounding::gallery::layout;
use sounding::gallery::legend;
use sounding::gallery::CatalogPart;
use sounding::gallery::ROW_GAP;
use sounding::gamepad::PadSample;
use sounding::input::KeyCode;
use sounding::input::Keyboard;
use sounding::input::Mouse;
use sounding::input::MouseButton;
use sounding::quadtree::QuadNode;
use sounding::surface_stream::stream;
use sounding::surface_stream::ChunkStreamer;
use sounding::surface_stream::Traversal;
use sounding::surface_stream::SPAWN_BUDGET;
use sounding::surface_stream::UPLOAD_BUDGET;
use sounding::views::cycle_medium;
use sounding::views::ground_tint;
use sounding::views::lod_color;
use sounding::views::material_set_for;
use sounding::views::skin_slots;
use sounding::views::surface_hud;
use sounding::views::texture;
use sounding::views::toggle_overlay;
use sounding::views::toggle_telemetry;
use sounding::views::tunnel_hud;
use sounding::views::Flow;
use sounding::views::GroundTint;
use sounding::views::MapKind;
use sounding::voxel::Material;

fn tapped(key: KeyCode) -> Keyboard {
    let mut keys = Keyboard::new();
    keys.press(key);
    keys
}

/// A tree whose first root is split `depth` times along its first child.
fn refined(depth: u32) -> Vec<QuadNode> {
    let mut t = Traversal::new();
    while let Some(n) = t.next_node() {
        t.decide(n.face == 0 && n.x == 0 && n.y == 0 && n.level < depth);
    }
    t.finish()
}

#[test]
fn a_tree_covers_every_face_once() {
    let leaves = refined(3);
    assert_eq!(leaves.len(), 5 + 3 * 3 + 1);
    for (i, a) in leaves.iter().enumerate() {
        for b in &leaves[i + 1..] {
            assert!(!a.overlaps(b));
        }
    }
    assert_eq!(QuadNode::roots().len(), 6);
    let root = QuadNode::roots()[0];
    for c in root.children() {
        assert!(c.overlaps(&root) && root.overlaps(&c));
    }
}

/// Streams until nothing is left to do; every mesh is done a frame later.
fn settle(s: &mut ChunkStreamer, desired: &Vec<QuadNode>) -> Vec<(usize, usize)> {
    let mut done = Vec::new();
    let mut spent = Vec::new();
    for frame in 0..200u64 {
        let orders = stream(s, desired, &done);
        spent.push((orders.upload.len(), orders.build.len()));
        done = orders.build.iter().map(|n| (*n, 1_000 * frame)).collect();
        if done.is_empty() && s.pending_count() == 0 {
            break;
        }
    }
    spent
}

#[test]
fn streaming_settles_within_its_budgets() {
    let mut s = ChunkStreamer::new();
    let coarse = refined(0);
    let spent = settle(&mut s, &coarse);
    assert_eq!(s.live_count(), 6);
    assert!(spent
        .iter()
        .all(|(u, b)| *u <= UPLOAD_BUDGET && *b <= SPAWN_BUDGET));
    let fine = refined(4);
    settle(&mut s, &fine);
    assert_eq!(s.live_count(), fine.len(), "the old chunks are gone");
    assert_eq!(s.meshing_count() + s.ready_count(), 0);
}

#[test]
fn a_parent_stays_until_its_children_are_up() {
    let mut s = ChunkStreamer::new();
    settle(&mut s, &refined(0));
    let fine = refined(1);
    let first = stream(&mut s, &fine, &vec![]);
    assert!(first.despawn.is_empty(), "no hole while the children mesh");
    assert_eq!(first.build.len(), 4);
}

#[test]
fn the_body_viewer_steps_through_bodies() {
    let mut v = BodyView::default();
    let r = bodies_input(&mut v, &tapped(KeyCode::Space), 3);
    assert!(r.regenerate && !r.keep && v.seed == 2 && v.dirty);
    for _ in 0..3 {
        bodies_input(&mut v, &tapped(KeyCode::Tab), 3);
    }
    assert_eq!(v.archetype_idx, 0);
    assert!(bodies_input(&mut v, &tapped(KeyCode::KeyK), 3).keep);
    kept(&mut v, &Ok("saves/bodies/a.json".into()));
    assert_eq!(v.status, "kept: saves/bodies/a.json");
    kept(&mut v, &Err("disk full".into()));
    assert_eq!(v.status, "keep failed: disk full");
    assert!(apply_body(&mut v));
    assert!(!apply_body(&mut v));
    let sea = Surroundings {
        air: true,
        sea: true,
    };
    let bare = Surroundings {
        air: false,
        sea: false,
    };
    assert_ne!(body_tint(sea, 1), body_tint(bare, 1));
    assert_eq!(atmo_tint(sea), Some(Shell::Blue));
    assert_eq!(atmo_tint(bare), None);
    let hud = hud_text(&v, "Vex", "Ocean World", 730_000, 3_700_000, sea);
    assert!(hud.contains("name: Vex") && hud.contains("atmosphere + ocean"));
    assert!(hud.contains("730") && hud.contains("3.7"));
}

#[test]
fn every_part_has_a_pedestal() {
    let rows = vec![1, 0, 1, 1];
    let places = layout(&rows, 2);
    assert_eq!(places.len(), 4);
    let mut parts: Vec<usize> = places.iter().map(|p| p.part).collect();
    parts.sort();
    assert_eq!(parts, vec![0, 1, 2, 3]);
    let z = |part: usize| places.iter().find(|p| p.part == part).unwrap().z;
    assert_eq!((z(0) - z(1)).abs(), ROW_GAP);
    assert_eq!(z(0), z(3));
    assert!(legend(4, &vec!["Hull".into(), "Wheels".into()]).contains("row 2: Wheels"));
    assert_eq!(inspector_text(&None), "(no part selected)");
    let part = CatalogPart {
        name: "Rim".into(),
        category: "Wheels".into(),
        material_set: "steel".into(),
        orientation: "y-up".into(),
        verts: 120,
        device: None,
        device_mass: Some(12_500_000),
    };
    assert_eq!(
        inspector_text(&Some(part)),
        "Rim\ncategory: Wheels\nmaterial: steel\norientation: y-up\nverts: 120\ndevice mass: 12.5 kg (@ 0.5 m cell)"
    );
    let (_, _, spin) = gallery_keys(&tapped(KeyCode::Space), true);
    assert!(!spin);
}

#[test]
fn cameras_stay_within_their_limits() {
    for feel in [
        editor_feel(),
        dive_feel(),
        harbor_feel(),
        gallery_feel(),
        bodies_feel(),
    ] {
        let mut cam = OrbitFollowCam {
            yaw: 0,
            pitch: 0,
            dist: feel.dist_min,
        };
        let before = cam;
        orbit_follow_input(&mut cam, &feel, &Mouse::new(), 9_000, 9_000, 0);
        assert_eq!(cam, before, "an idle button leaves the camera");
        let mut mouse = Mouse::new();
        mouse.press(MouseButton::Middle);
        for _ in 0..100 {
            orbit_follow_input(&mut cam, &feel, &mouse, 5_000, 50_000, -9_000);
        }
        assert_eq!(cam.pitch.abs(), feel.pitch_limit);
        assert!(cam.yaw != 0);
        assert!(feel.dist_min <= cam.dist && cam.dist <= feel.dist_max);
    }
    let f = fly_camera(&tapped(KeyCode::KeyW));
    assert_eq!((f.forward, f.right, f.up), (1, 0, 0));
    assert!(fly_speed(1_000_000, 9_000) <= 9_000);
    assert!(!toggle_sun(&Keyboard::new(), false));
}

#[test]
fn the_cameras_start_within_their_limits() {
    for (cam, feel) in [
        (editor_view(), editor_feel()),
        (dive_view(), dive_feel()),
        (harbor_view(), harbor_feel()),
    ] {
        assert!(cam.pitch.abs() <= feel.pitch_limit);
        assert!(feel.dist_min <= cam.dist && cam.dist <= feel.dist_max);
    }
    assert_eq!(editor_view().dist, 3_000_000);
    assert_eq!(dive_view().pitch, 305_000);
    assert_eq!(harbor_view().dist, 22_000_000);
}

#[test]
fn a_camera_far_out_zooms_by_a_share_of_its_distance() {
    let feel = Feel {
        dist_min: 1_000_000,
        dist_max: 100_000_000_000,
        ..editor_feel()
    };
    let mut cam = OrbitFollowCam {
        yaw: 0,
        pitch: 0,
        dist: 10_000_000_000,
    };
    orbit_follow_input(&mut cam, &feel, &Mouse::new(), 0, 0, 1_000);
    assert_eq!(cam.dist, 9_000_000_000);
    orbit_follow_input(&mut cam, &feel, &Mouse::new(), 0, 0, 20_000);
    assert_eq!(cam.dist, feel.dist_min, "past the target is the nearest");
}

#[test]
fn the_views_switch_on_their_keys() {
    let mut flow = Flow::Air;
    for want in [Flow::Water, Flow::Vacuum, Flow::Air] {
        flow = cycle_medium(&tapped(KeyCode::KeyM), flow);
        assert_eq!(flow, want);
    }
    assert!(tunnel_hud(Flow::Water).contains("wave drag vs speed in water"));
    assert!(toggle_overlay(&tapped(KeyCode::F3), false));
    assert!(!toggle_telemetry(&tapped(KeyCode::F4), true));
    assert_ne!(lod_color(3), lod_color(4));
    assert_eq!(lod_color(1), lod_color(7));
    assert_eq!(ground_tint(true, true), GroundTint::Wet);
    assert_eq!(ground_tint(false, false), GroundTint::Bare);
    let hud = surface_hud("Vex", 730_000, 12_345_000, 40, 2, false, true);
    assert!(hud.contains("40 live, 2 meshing") && hud.contains("off (airless)"));
    assert!(hud.contains("F3 overlay [on]"));
    assert_eq!(
        texture("hull_panel", MapKind::Normal),
        ("materials/hull_panel_normal.png".to_string(), false)
    );
    assert!(texture("hull_panel", MapKind::Albedo).1);
    assert_eq!(material_set_for(Material::Steel), "hull_panel");
    assert_eq!(skin_slots().len(), 2);
}

#[test]
fn the_editor_orbits_by_keys_and_stick() {
    let start = OrbitFollowCam {
        yaw: 0,
        pitch: 0,
        dist: 10_000_000,
    };
    let mut cam = start;
    orbit_camera(&mut cam, &tapped(KeyCode::KeyQ), &PadSample::default(), 100_000);
    assert_eq!(cam.yaw, 100_000);
    orbit_camera(&mut cam, &tapped(KeyCode::KeyZ), &PadSample::default(), 100_000);
    assert_eq!(cam.dist, 8_500_000);
    orbit_camera(&mut cam, &tapped(KeyCode::KeyC), &PadSample::default(), 100_000);
    assert_eq!(cam.dist, 9_700_000);
    let pad = PadSample {
        cam_yaw: 500_000,
        cam_pitch: -1_000_000,
        zoom_out: true,
        ..PadSample::default()
    };
    let mut cam = start;
    orbit_camera(&mut cam, &Keyboard::new(), &pad, 100_000);
    assert_eq!((cam.yaw, cam.pitch), (-100_000, 200_000));
    for _ in 0..100 {
        orbit_camera(&mut cam, &Keyboard::new(), &pad, 1_000_000);
    }
    assert_eq!((cam.pitch, cam.dist), (1_400_000, EDITOR_FAR));
    for _ in 0..100 {
        orbit_camera(&mut cam, &tapped(KeyCode::KeyZ), &PadSample::default(), 1_000_000);
    }
    assert_eq!(cam.dist, EDITOR_NEAR);
}

#[test]
fn the_streamer_publishes_its_counts() {
    let mut s = ChunkStreamer::new();
    let orders = stream(&mut s, &refined(0), &vec![]);
    let stats = s.stats(orders.upload.len());
    assert_eq!((stats.live, stats.meshing, stats.uploaded), (0, 6, 0));
}
