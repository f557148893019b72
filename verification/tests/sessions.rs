use sounding::debug_control::apply_debug_commands;
use sounding::debug_control::publish_camera_pose;
use sounding::debug_control::resolve_named;
use sounding::debug_control::CameraMove;
use sounding::debug_control::DebugCommand;
use sounding::debug_control::DebugOverlayState;
use sounding::debug_control::LookMode;
use sounding::debug_control::SurfaceView;
use sounding::harness_fixture::candidates;
use sounding::harness_fixture::choose_candidate;
use sounding::harness_fixture::conclude;
use sounding::harness_fixture::fixture_arg;
use sounding::harness_fixture::slot_name;
use sounding::harness_fixture::Fixture;
use sounding::harness_fixture::Loaded;
use sounding::harness_fixture::PROCEDURAL;
use sounding::net::assemble_record_parts;
use sounding::net::content_identity;
use sounding::net::label_text;
use sounding::net::net_ghosts;
use sounding::net::net_labels;
use sounding::net::net_start;
use sounding::net::net_track;
use sounding::net::peers_block;
use sounding::net::settings;
use sounding::net::Fate;
use sounding::net::FlightParts;
use sounding::net::GhostOrder;
use sounding::net::LabelAnchor;
use sounding::net::NetGhost;
use sounding::net::NetGhostLabel;
use sounding::net::Outcome;
use sounding::net::PeerView;
use sounding::net::Phase;
use sounding::net::Position;
use sounding::net::SyncCommand;
use sounding::scenes::dispatch;
use sounding::scenes::resumed_save;
use sounding::scenes::scenario_path;
use sounding::scenes::selected_scene;
use sounding::scenes::surface_args;
use sounding::scenes::ArchetypeNames;
use sounding::scenes::ScenarioDoc;
use sounding::scenes::Scene;
use sounding::scenes::Start;
use sounding::shapes::bar_craft;
use sounding::voxel::Material;
use sounding::voxel::VoxelCraft;

/// What an argument resolves to among documents that load as `loaded` says.
fn resolve(arg: &str, slug: &str, files: &[(&str, Loaded)]) -> Result<String, String> {
    let dirs = vec!["saves".to_string(), "blueprints".to_string()];
    let tried = candidates(arg, slug, &dirs);
    let present: Vec<bool> = tried
        .iter()
        .map(|p| files.iter().any(|f| f.0 == p))
        .collect();
    let i = choose_candidate(&tried, &present)?;
    let loaded = &files.iter().find(|f| f.0 == tried[i]).unwrap().1;
    conclude(&tried[i], loaded)
}

#[test]
fn resolution_walks_literal_then_saves_then_blueprints() {
    let files = [
        ("lit/by-path.json", Loaded::Craft),
        ("saves/in-saves.json", Loaded::Craft),
        ("blueprints/in-blueprints.json", Loaded::Craft),
    ];
    assert_eq!(
        resolve("lit/by-path.json", "lit-by-path-json", &files).unwrap(),
        "by-path"
    );
    assert_eq!(resolve("in saves", "in-saves", &files).unwrap(), "in-saves");
    assert_eq!(
        resolve("in blueprints", "in-blueprints", &files).unwrap(),
        "in-blueprints"
    );
    let miss = resolve("no such craft", "no-such-craft", &files).unwrap_err();
    assert!(miss.contains("not found") && miss.contains("no-such-craft.json"));
}

#[test]
fn a_present_but_broken_or_empty_file_is_an_error_not_a_fallback() {
    let files = [
        ("saves/broken.json", Loaded::Broken("bad syntax".into())),
        ("blueprints/broken.json", Loaded::Craft),
        ("saves/empty.json", Loaded::Empty),
    ];
    assert!(resolve("broken", "broken", &files).is_err());
    assert!(resolve("empty", "empty", &files)
        .unwrap_err()
        .contains("empty"));
}

#[test]
fn slot_names_fall_back_to_procedural() {
    assert_eq!(slot_name(&None), PROCEDURAL);
    let f = Fixture {
        name: "wedge-dart".into(),
        craft: bar_craft(1, Material::Aluminium),
    };
    assert_eq!(slot_name(&Some(f)), "wedge-dart");
}

#[test]
fn only_a_named_slot_asks_for_a_fixture() {
    assert!(!fixture_arg(&None));
    assert!(!fixture_arg(&Some("-".into())));
    assert!(fixture_arg(&Some("wedge dart".into())));
}

fn parts<'a>(voxels: &'a VoxelCraft, id: &'a str, name: &'a str, elapsed: f64) -> FlightParts<'a> {
    FlightParts {
        scenario_id: id,
        scenario_name: name,
        position: Position {
            x: 1.0f64.to_bits(),
            y: 6.36e6f64.to_bits(),
            z: (-2.0f64).to_bits(),
        },
        voxels,
        elapsed: elapsed.to_bits(),
    }
}

#[test]
fn assemble_record_maps_state_and_identity() {
    let voxels = VoxelCraft::new(1_000_000);
    let first = parts(&voxels, "first-flight", "First Flight", 42.5);
    let record = assemble_record_parts(&first, "vessel-1", "dave", false, None);
    assert_eq!(record.vessel_id, "vessel-1");
    assert_eq!(record.owner, "dave");
    assert_eq!(f64::from_bits(record.stamp), 42.5);
    assert!(!record.live && record.fate.is_none());
    assert_eq!(
        record.structure.vessel_id.as_deref(),
        Some("vessel-1"),
        "instance id rides the subgraph"
    );
    assert_eq!(record.position, first.position);

    let later = parts(&voxels, "s", "S", 50.0);
    assert!(assemble_record_parts(&later, "vessel-1", "dave", true, None).live);
    let last = parts(&voxels, "s", "S", 60.0);
    let tomb = assemble_record_parts(&last, "vessel-1", "dave", false, Some(Fate::Destroyed));
    assert!(tomb.is_tombstone());
}

#[test]
fn a_session_needs_all_three_settings() {
    let s = |t: &str| Some(t.to_string());
    assert!(settings(s("url"), s("token"), None).is_none());
    assert!(settings(s("url"), None, s("dave")).is_none());
    assert!(settings(None, s("token"), s("dave")).is_none());
    let all = settings(s("url"), s("token"), s("dave")).unwrap();
    assert_eq!(all.server_url, "url");
    assert_eq!(all.player, "dave");
    assert!(content_identity("id", "Name").contains("id"));
}

#[test]
fn a_flight_is_published_as_it_starts_and_ends() {
    let one = 1.0f64.to_bits();
    let now = 5.0f64.to_bits();
    let (mut link, first) = net_start(None, Phase::Build, false, one, now);
    assert!(first.contains(&SyncCommand::Start));
    assert_eq!(
        net_track(&mut link, Phase::Build, Outcome::Open, false, one, now),
        vec![],
        "a frame in which nothing happened is silent"
    );
    let crash = net_track(&mut link, Phase::Recovery, Outcome::Crashed, false, one, now);
    assert!(crash.contains(&SyncCommand::Publish {
        live: false,
        fate: Some(Fate::Destroyed),
    }));
    let again = net_track(&mut link, Phase::Recovery, Outcome::Crashed, false, one, now);
    assert_eq!(again, vec![]);
}

fn peer(id: &str, stamp: f64) -> PeerView {
    PeerView {
        vessel_id: id.into(),
        name: "Dart".into(),
        owner: "erin".into(),
        live: true,
        stamp: stamp.to_bits(),
        stale: 0,
    }
}

#[test]
fn every_peer_is_drawn_once() {
    let views = vec![peer("a", 1.0), peer("b", 2.0)];
    let block = peers_block(&views, true).unwrap();
    assert_eq!(block.len(), 2);
    assert_eq!(block[1].player, "erin");
    assert!(peers_block(&vec![], false).is_none());
    let ghosts = vec![
        NetGhost {
            entity: 10,
            vessel_id: "a".into(),
            stamp: 1.0f64.to_bits(),
        },
        NetGhost {
            entity: 11,
            vessel_id: "gone".into(),
            stamp: 0,
        },
    ];
    let orders = net_ghosts(&ghosts, &views, &vec![]);
    assert!(orders.contains(&GhostOrder::Move { entity: 10, view: 0 }));
    assert!(orders.contains(&GhostOrder::Despawn { entity: 11 }));
    assert!(orders.contains(&GhostOrder::Spawn { view: 1 }));
    assert!(orders.contains(&GhostOrder::SpawnLabel { view: 1 }));
    assert_eq!(orders.len(), 4);
    assert_eq!(label_text("Dart", "erin", false, 0), "Dart · erin · parked");
    assert_eq!(
        label_text("Dart", "erin", true, 12_400_000),
        "Dart · erin · flying · last seen t+12s"
    );
    let labels: Vec<NetGhostLabel> = ["gone", "a", "b"]
        .iter()
        .map(|id| NetGhostLabel {
            entity: 20,
            vessel_id: id.to_string(),
        })
        .collect();
    assert_eq!(
        net_labels(&labels, &ghosts, &views),
        vec![None, Some(LabelAnchor { body: 0, view: 0 }), None],
        "a vessel without a view or a ghost has no label"
    );
}

#[test]
fn named_poses_resolve_and_unknown_is_none() {
    assert!(resolve_named("nadir_200km").is_some());
    assert!(resolve_named("grazing_horizon_6km").is_some());
    assert!(resolve_named("does_not_exist").is_none());
}

#[test]
fn surface_views_are_named() {
    assert_eq!(SurfaceView::parse("bogus"), None);
    assert_eq!(
        SurfaceView::parse("dominant"),
        Some(SurfaceView::DominantBiome)
    );
    assert_eq!(SurfaceView::parse("biome"), Some(SurfaceView::Biome));
    assert_eq!(
        SurfaceView::parse("temperature"),
        Some(SurfaceView::Temperature)
    );
    assert_eq!(SurfaceView::parse("moisture"), Some(SurfaceView::Moisture));
}

#[test]
fn commands_move_the_camera_or_the_overlay() {
    let mut overlay = DebugOverlayState {
        lod: false,
        view: SurfaceView::Biome,
    };
    let cmds = vec![
        DebugCommand::SetOverlay {
            lod: Some(true),
            biome_view: Some("bogus".into()),
        },
        DebugCommand::NamedPose("nadir_200km".into()),
        DebugCommand::NamedPose("does_not_exist".into()),
        DebugCommand::SetOverlay {
            lod: None,
            biome_view: Some("temperature".into()),
        },
    ];
    let moves = apply_debug_commands(&cmds, true, true, &mut overlay);
    assert_eq!(moves.len(), 1);
    assert!(matches!(
        moves[0],
        CameraMove::Framing(f) if f.altitude_m == 200_000 && f.look == LookMode::Nadir
    ));
    assert_eq!(
        overlay,
        DebugOverlayState {
            lod: true,
            view: SurfaceView::Temperature,
        }
    );
    assert!(publish_camera_pose(true, true));
    assert!(!publish_camera_pose(true, false));
}

#[test]
fn an_argument_selects_the_scene() {
    assert_eq!(dispatch(Some("check")), Start::Check);
    assert_eq!(dispatch(Some("export-body")), Start::ExportBody);
    assert_eq!(selected_scene(Some("editor")), Scene::Editor);
    assert_eq!(selected_scene(Some("harbor")), Scene::Harbor);
    assert_eq!(dispatch(None), Start::Show(selected_scene(None)));
    assert_eq!(
        scenario_path(ScenarioDoc::Play, Some("mine.json")),
        "mine.json"
    );
    assert_eq!(
        scenario_path(ScenarioDoc::Launch, None),
        ScenarioDoc::Launch.path()
    );
}

#[test]
fn the_surface_scene_reads_a_seed_and_an_archetype() {
    let all = vec![
        ArchetypeNames {
            slug: "rocky".into(),
            label: "Rocky".into(),
        },
        ArchetypeNames {
            slug: "ocean-world".into(),
            label: "Ocean World".into(),
        },
    ];
    let args = |list: &[&str]| list.iter().map(|s| s.to_string()).collect::<Vec<_>>();
    let (seed, which) = surface_args(&args(&["sounding", "surface", "77", "OCEAN-WORLD"]), &all, 0);
    assert_eq!((seed, which), (77, 1));
    let (seed, which) = surface_args(&args(&["sounding", "surface"]), &all, 0);
    assert_eq!((seed, which), (7, 0));
}

#[test]
fn the_surface_scene_takes_an_archetype_by_index() {
    let names = |slug: &str, label: &str| ArchetypeNames {
        slug: slug.into(),
        label: label.into(),
    };
    let args = |list: &[&str]| list.iter().map(|s| s.to_string()).collect::<Vec<_>>();
    let line = |word: &str| args(&["sounding", "surface", "5", word]);
    let all = vec![names("rocky", "Rocky"), names("icy", "Icy"), names("gas", "Gas")];
    assert_eq!(surface_args(&line("1"), &all, 0), (5, 1));
    assert_eq!(surface_args(&line("2"), &all, 0), (5, 2));
    assert_eq!(surface_args(&line("3"), &all, 1), (5, 1), "past the last");
    assert_eq!(surface_args(&line("lava"), &all, 1), (5, 1));
    let odd = vec![names("1", "One"), names("0", "Nought")];
    assert_eq!(surface_args(&line("1"), &odd, 1), (5, 0), "a name comes first");
}

#[test]
fn a_resume_takes_the_named_save_or_the_latest() {
    let latest = Some("saves/worlds/b.json".to_string());
    assert_eq!(
        resumed_save(Some("a"), &latest),
        Some("saves/worlds/a.json".to_string())
    );
    assert_eq!(resumed_save(None, &latest), latest);
    assert_eq!(resumed_save(None, &None), None);
}

#[test]
fn a_fixture_path_is_joined_once() {
    let dirs = |list: &[&str]| list.iter().map(|s| s.to_string()).collect::<Vec<_>>();
    assert_eq!(
        candidates("Dart", "dart", &dirs(&["saves", "saves/", ""])),
        vec!["Dart", "saves/dart.json", "saves/dart.json", "dart.json"]
    );
    assert_eq!(
        candidates("x", "/abs", &dirs(&["saves"])),
        vec!["x", "/abs.json"]
    );
}
