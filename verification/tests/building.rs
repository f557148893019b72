use sounding::craft_library::CraftLibraryModal;
use sounding::drawing::draw_build_overlays;
use sounding::drawing::draw_editor;
use sounding::drawing::Balance;
use sounding::drawing::Derived;
use sounding::drawing::Mark;
use sounding::drawing::Paint;
use sounding::drawing::PrincipalAxis;
use sounding::editor::can_edit;
use sounding::editor::editor_input;
use sounding::editor::loaded_craft;
use sounding::editor::mouse_build;
use sounding::editor::palette_groups;
use sounding::editor::place_brush;
use sounding::editor::saved_kind;
use sounding::editor::Aim;
use sounding::editor::Brush;
use sounding::editor::EditorRequest;
use sounding::editor::EditorState;
use sounding::editor::Hovered;
use sounding::editor::Kind;
use sounding::editor::PaletteEntry;
use sounding::editor::WheelPreset;
use sounding::input::KeyCode;
use sounding::input::Keyboard;
use sounding::input::Mouse;
use sounding::input::MouseButton;
use sounding::palette::build_clicks;
use sounding::palette::build_keys;
use sounding::palette::palette_click;
use sounding::palette::swatch_color;
use sounding::palette::track_pointer_over_palette;
use sounding::palette::update_palette_highlight;
use sounding::palette::Highlight;
use sounding::palette::Interaction;
use sounding::palette::PaletteButton;
use sounding::palette::Rgb;
use sounding::palette::Swatch;
use sounding::raycast::raycast_voxels;
use sounding::raycast::update_hover;
use sounding::raycast::Ray;
use sounding::voxel::Cell;
use sounding::voxel::Device;
use sounding::voxel::DeviceKind;
use sounding::voxel::Material;
use sounding::voxel::MotorTier;
use sounding::voxel::Mount;
use sounding::voxel::Part;
use sounding::voxel::PartKind;
use sounding::voxel::Voxel;
use sounding::voxel::VoxelCraft;

const ORIGIN: Cell = Cell { x: 0, y: 0, z: 0 };

fn cell(x: i32, y: i32, z: i32) -> Cell {
    Cell { x, y, z }
}

/// A ray from a point in metres along a direction.
fn ray(o: [f64; 3], d: [f64; 3]) -> Ray {
    Ray {
        ox: (o[0] * 1e6) as i64,
        oy: (o[1] * 1e6) as i64,
        oz: (o[2] * 1e6) as i64,
        dx: (d[0] * 1e9) as i32,
        dy: (d[1] * 1e9) as i32,
        dz: (d[2] * 1e9) as i32,
    }
}

fn unit_craft(cells: &[Cell]) -> VoxelCraft {
    let mut craft = VoxelCraft::new(1_000_000);
    for c in cells {
        craft.voxels.push(Voxel {
            cell: *c,
            material: Material::Aluminium,
        });
    }
    craft
}

#[test]
fn raycast_hits_top_face_of_a_voxel() {
    let craft = unit_craft(&[ORIGIN]);
    let hit = raycast_voxels(ray([0.5, 5.0, 0.5], [0.0, -1.0, 0.0]), &craft);
    assert_eq!(hit, Some((ORIGIN, cell(0, 1, 0))), "top face, +Y normal");
}

#[test]
fn raycast_misses_when_pointing_away() {
    let craft = unit_craft(&[ORIGIN]);
    assert_eq!(
        raycast_voxels(ray([0.5, 5.0, 0.5], [0.0, 1.0, 0.0]), &craft),
        None
    );
}

#[test]
fn raycast_nearest_voxel_wins() {
    let craft = unit_craft(&[ORIGIN, cell(0, 3, 0)]);
    let hit = raycast_voxels(ray([0.5, 20.0, 0.5], [0.0, -1.0, 0.0]), &craft);
    assert_eq!(hit, Some((cell(0, 3, 0), cell(0, 1, 0))));
}

#[test]
fn a_slanted_ray_enters_through_the_side() {
    let craft = unit_craft(&[ORIGIN]);
    let hit = raycast_voxels(ray([-2.0, 0.5, 0.25], [0.8, 0.0, 0.1]), &craft);
    assert_eq!(hit, Some((ORIGIN, cell(-1, 0, 0))));
    let inside = raycast_voxels(ray([0.5, 0.5, 0.5], [1.0, 0.0, 0.0]), &craft);
    assert_eq!(inside, None, "a ray from within does not enter");
}

#[test]
fn the_hover_falls_back_to_the_ground() {
    let craft = unit_craft(&[ORIGIN]);
    let over = update_hover(Some(ray([0.5, 5.0, 0.5], [0.0, -1.0, 0.0])), &craft);
    assert_eq!(
        over,
        Some(Hovered {
            add_cell: cell(0, 1, 0),
            remove_cell: Some(ORIGIN),
            highlight: ORIGIN,
        })
    );
    let beside = update_hover(Some(ray([-2.5, 4.0, 7.5], [0.0, -1.0, 0.0])), &craft);
    assert_eq!(
        beside,
        Some(Hovered {
            add_cell: cell(-3, 0, 7),
            remove_cell: None,
            highlight: cell(-3, 0, 7),
        })
    );
    assert_eq!(
        update_hover(Some(ray([5.0, 5.0, 5.0], [0.0, 1.0, 0.0])), &craft),
        None,
        "a ray that goes up meets nothing"
    );
    assert_eq!(update_hover(None, &craft), None);
}

#[test]
fn palette_entries_round_trip_to_selection() {
    for group in palette_groups() {
        for entry in group.entries {
            let mut state = EditorState::default();
            entry.apply(&mut state);
            assert!(
                entry.is_active(&state),
                "applied entry must read back as active: {}",
                entry.label()
            );
            let active: Vec<&str> = palette_groups()
                .iter()
                .flat_map(|g| g.entries.iter())
                .filter(|e| e.is_active(&state))
                .map(|e| e.label())
                .collect();
            assert_eq!(
                active,
                vec![entry.label()],
                "exactly one entry active for {}",
                entry.label()
            );
        }
    }
}

fn chassis() -> VoxelCraft {
    let mut craft = VoxelCraft::new(500_000);
    for x in 0..3 {
        for z in 0..4 {
            craft.voxels.push(Voxel {
                cell: cell(x, 0, z),
                material: Material::Composite,
            });
        }
    }
    craft
}

/// The mount (0.5, -0.2, 0.5) in half micrometres.
fn corner() -> Mount {
    Mount {
        x: 1_000_000,
        y: -400_000,
        z: 1_000_000,
    }
}

fn place(craft: &mut VoxelCraft, brush: Brush) {
    place_brush(
        craft,
        brush,
        Material::Composite,
        Aim {
            voxel_cell: ORIGIN,
            device_cell: ORIGIN,
            wheel_mount: corner(),
        },
        MotorTier::Standard,
    );
}

#[test]
fn wheel_brush_places_a_complete_station() {
    let mut craft = chassis();
    place(
        &mut craft,
        Brush::Wheel {
            preset: WheelPreset::OffRoad,
            steer: true,
        },
    );
    let rim: &Part = craft
        .parts
        .iter()
        .find(|p| matches!(p.kind, PartKind::Rim(_)))
        .unwrap();
    let tire: &Part = craft
        .parts
        .iter()
        .find(|p| matches!(p.kind, PartKind::Tire(_)))
        .unwrap();
    assert_eq!(rim.station, tire.station);
    assert!(rim.station.is_some());
    assert_eq!(craft.parts.len(), 2);
    assert!(matches!(rim.kind, PartKind::Rim(r) if r.steer));
}

#[test]
fn suspension_joins_the_wheels_station_and_makes_it_sprung() {
    let mut craft = chassis();
    place(
        &mut craft,
        Brush::Wheel {
            preset: WheelPreset::Road,
            steer: false,
        },
    );
    place(&mut craft, Brush::Suspension);
    let ids: std::collections::BTreeSet<u32> =
        craft.parts.iter().filter_map(|p| p.station).collect();
    assert_eq!(ids.len(), 1, "all three components share one station");
    assert_eq!(craft.parts.len(), 3, "rim + tire + suspension");
    assert!(craft
        .parts
        .iter()
        .any(|p| matches!(p.kind, PartKind::Suspension(_))));
}

#[test]
fn reselecting_a_preset_replaces_the_rim_and_tire_in_place() {
    let mut craft = chassis();
    for preset in [WheelPreset::Road, WheelPreset::Slick] {
        place(
            &mut craft,
            Brush::Wheel {
                preset,
                steer: false,
            },
        );
    }
    assert_eq!(craft.parts.len(), 2, "still one rim + one tire");
    let grips: Vec<u32> = craft
        .parts
        .iter()
        .filter_map(|p| match p.kind {
            PartKind::Tire(t) => Some(t.grip_percent),
            _ => None,
        })
        .collect();
    assert_eq!(grips, vec![160]);
}

#[test]
fn voxel_brush_activates_the_selected_material_entry() {
    let state = EditorState {
        brush: Brush::Voxel,
        material: 2,
        ..Default::default()
    };
    assert!(PaletteEntry::Material(2).is_active(&state));
    assert!(!PaletteEntry::Material(0).is_active(&state));
}

#[test]
fn removing_undoes_placing() {
    let mut state = EditorState::default();
    state.cursor = cell(9, 9, 9);
    let before = state.craft.voxels.len();
    let mut keys = Keyboard::new();
    keys.press(KeyCode::Space);
    editor_input(&keys, &mut state);
    assert_eq!(state.craft.voxels.len(), before + 1);
    let mut keys = Keyboard::new();
    keys.press(KeyCode::Backspace);
    editor_input(&keys, &mut state);
    assert_eq!(state.craft.voxels.len(), before);
}

#[test]
fn a_click_builds_on_the_face_and_the_palette_swallows_it() {
    let mut state = EditorState::default();
    state.craft = unit_craft(&[ORIGIN]);
    let hover = Some(Hovered {
        add_cell: cell(0, 1, 0),
        remove_cell: Some(ORIGIN),
        highlight: ORIGIN,
    });
    let mut mouse = Mouse::new();
    mouse.press(MouseButton::Left);
    mouse_build(&mouse, hover, true, &mut state);
    assert_eq!(state.craft.voxels.len(), 1);
    mouse_build(&mouse, hover, false, &mut state);
    assert_eq!(state.craft.voxels.len(), 2);
    assert!(state.craft.is_occupied(cell(0, 1, 0)));
    let mut mouse = Mouse::new();
    mouse.press(MouseButton::Right);
    mouse_build(&mouse, hover, false, &mut state);
    assert!(!state.craft.is_occupied(ORIGIN));
}

#[test]
fn only_a_craft_document_loads_as_a_craft() {
    assert_eq!(saved_kind(Kind::Craft), Kind::Craft);
    assert!(loaded_craft(Kind::Craft, chassis()).is_some());
    assert!(loaded_craft(Kind::WorldSave, chassis()).is_none());
}

#[test]
fn the_editor_asks_for_its_files_by_key() {
    for (key, wanted) in [
        (KeyCode::KeyK, EditorRequest::SaveCraft),
        (KeyCode::KeyO, EditorRequest::LoadCraft),
        (KeyCode::KeyB, EditorRequest::SaveBlueprint),
        (KeyCode::KeyN, EditorRequest::SaveSubassembly),
        (KeyCode::KeyL, EditorRequest::LoadSubassembly),
        (KeyCode::KeyV, EditorRequest::InsertSubassembly(cell(4, 5, 6))),
        (KeyCode::KeyM, EditorRequest::LogMass),
    ] {
        let mut state = EditorState::default();
        state.cursor = cell(4, 5, 6);
        let mut keys = Keyboard::new();
        keys.press(key);
        assert_eq!(editor_input(&keys, &mut state), vec![wanted]);
    }
}

#[test]
fn a_palette_click_picks_unless_the_library_is_open() {
    let buttons = vec![
        PaletteButton {
            entry: PaletteEntry::Material(3),
            interaction: Interaction::Hovered,
        },
        PaletteButton {
            entry: PaletteEntry::Tool(Brush::Seat),
            interaction: Interaction::Pressed,
        },
    ];
    let mut state = EditorState::default();
    state.subassembly = Some(unit_craft(&[ORIGIN]));
    let naming = CraftLibraryModal::Naming {
        buffer: String::new(),
        rejected: false,
    };
    palette_click(&mut state, &buttons, &naming);
    assert!(!buttons[1].entry.is_active(&state));
    palette_click(&mut state, &buttons, &CraftLibraryModal::Closed);
    assert!(buttons[1].entry.is_active(&state));
    assert_eq!(state.subassembly, Some(unit_craft(&[ORIGIN])));
    assert_eq!(
        update_palette_highlight(&state, &buttons),
        vec![Highlight::Hovered, Highlight::Active]
    );
    assert!(!track_pointer_over_palette(&vec![Interaction::Idle], &vec![]));
    assert!(track_pointer_over_palette(
        &vec![Interaction::Idle],
        &vec![Interaction::Pressed]
    ));
}

#[test]
fn the_editor_draws_its_build_and_its_cursor() {
    let mut state = EditorState::default();
    state.craft = chassis();
    place(
        &mut state.craft,
        Brush::Wheel {
            preset: WheelPreset::Road,
            steer: true,
        },
    );
    place(&mut state.craft, Brush::Suspension);
    state.cursor = cell(1, 2, 3);
    let nothing = Derived {
        balance: None,
        areas: vec![],
    };
    let marks = draw_editor(&state, &nothing);
    assert_eq!(marks.len(), 12 + 2 + 1, "voxels, rim and strut, cursor");
    assert_eq!(
        marks[0],
        Mark::Cube {
            center: Mount {
                x: 500_000,
                y: 500_000,
                z: 500_000
            },
            side_percent: 100,
            paint: Paint::Material(Material::Composite),
        }
    );
    assert!(marks.iter().any(|m| matches!(
        m,
        Mark::Ball {
            paint: Paint::Strut,
            radius_nm: 200_000_000,
            ..
        }
    )));
    assert!(matches!(
        marks.last(),
        Some(Mark::Cube {
            side_percent: 106,
            paint: Paint::Cursor,
            ..
        })
    ));
    assert_eq!(draw_build_overlays(&state, &None, &None).len(), 1);
    let hover = Some(Hovered {
        add_cell: ORIGIN,
        remove_cell: None,
        highlight: ORIGIN,
    });
    assert_eq!(draw_build_overlays(&state, &hover, &None).len(), 3);
}

#[test]
fn swatches_tell_the_tools_apart() {
    assert_eq!(
        swatch_color(PaletteEntry::Material(6)),
        Swatch::Worn(Material::Titanium),
        "materials are counted round and round"
    );
    let wheel = |steer: bool| {
        swatch_color(PaletteEntry::Tool(Brush::Wheel {
            preset: WheelPreset::Slick,
            steer,
        }))
    };
    assert_eq!(wheel(false), Swatch::Plain(Rgb { r: 5, g: 5, b: 7 }));
    assert_eq!(wheel(true), Swatch::Plain(Rgb { r: 13, g: 15, b: 29 }));
}

fn mount(x: i64, y: i64, z: i64) -> Mount {
    Mount { x, y, z }
}

#[test]
fn the_editor_draws_what_it_derives_after_the_cursor() {
    let mut state = EditorState::default();
    state.craft = unit_craft(&[ORIGIN]);
    let axis = |dx: i32, dy: i32, dz: i32, moment: u64| PrincipalAxis { dx, dy, dz, moment };
    let com = mount(1_000_000, 1_000_000, 1_000_000);
    let derived = Derived {
        balance: Some(Balance {
            com,
            first: axis(1_000_000, 0, 0, 400),
            second: axis(0, -1_000_000, 0, 100),
            third: axis(0, 0, 1_000_000, 0),
        }),
        areas: vec![2, 4, 0],
    };
    let marks = draw_editor(&state, &derived);
    assert_eq!(marks.len(), 1 + 1 + 1 + 6 + 2);
    assert!(matches!(
        marks[1],
        Mark::Cube {
            paint: Paint::Cursor,
            ..
        }
    ));
    assert_eq!(
        marks[2],
        Mark::Ball {
            center: com,
            radius_nm: 300_000_000,
            paint: Paint::CenterOfMass
        }
    );
    let line = |to: Mount, color: usize| Mark::Line {
        from: com,
        to,
        paint: Paint::InertiaAxis { color },
    };
    assert_eq!(marks[3], line(mount(6_000_000, 1_000_000, 1_000_000), 0));
    assert_eq!(marks[4], line(mount(-4_000_000, 1_000_000, 1_000_000), 0));
    assert_eq!(marks[5], line(mount(1_000_000, -1_500_000, 1_000_000), 1), "half as long");
    assert_eq!(marks[6], line(mount(1_000_000, 3_500_000, 1_000_000), 1));
    assert_eq!(marks[7], line(com, 2));
    let curve = |from: Mount, to: Mount| Mark::Line {
        from,
        to,
        paint: Paint::AreaCurve,
    };
    let (a, b, c) = (
        mount(-8_000_000, 3_000_000, -4_000_000),
        mount(-6_800_000, 6_000_000, -4_000_000),
        mount(-5_600_000, 0, -4_000_000),
    );
    assert_eq!(marks[9], curve(a, b));
    assert_eq!(marks[10], curve(b, c));
    let over = draw_build_overlays(&state, &None, &derived.balance);
    assert_eq!(over.len(), 1 + 1 + 1 + 6);
    assert_eq!(over[1], marks[2]);
    assert_eq!(
        over[2],
        Mark::Arrow {
            from: com,
            to: mount(1_000_000, 1_000_000, 11_000_000),
            paint: Paint::Forward
        }
    );
    assert_eq!(over[3..], marks[3..9]);
}

/// A wheel that has taken the last station number.
fn last_station() -> Part {
    let mut craft = chassis();
    place(
        &mut craft,
        Brush::Wheel {
            preset: WheelPreset::Road,
            steer: false,
        },
    );
    Part {
        station: Some(u32::MAX),
        mount: mount(77, 77, 77),
        ..craft.parts[0]
    }
}

#[test]
fn a_build_without_numbers_left_still_takes_what_needs_none() {
    let mut state = EditorState::default();
    state.craft = unit_craft(&[ORIGIN]);
    state.craft.parts.push(last_station());
    state.cursor = cell(i32::MAX, 0, 0);
    let tap = |key: KeyCode| {
        let mut keys = Keyboard::new();
        keys.press(key);
        keys
    };
    assert!(!can_edit(&tap(KeyCode::ArrowRight), &state));
    assert!(can_edit(&tap(KeyCode::ArrowLeft), &state));
    assert!(can_edit(&tap(KeyCode::Tab), &state));
    assert!(can_edit(&tap(KeyCode::Space), &state), "a voxel needs no station");
    editor_input(&tap(KeyCode::Space), &mut state);
    assert_eq!(state.craft.voxels.len(), 2);
    editor_input(&tap(KeyCode::Backspace), &mut state);
    assert_eq!(state.craft.voxels.len(), 1);
    state.brush = Brush::Wheel {
        preset: WheelPreset::Road,
        steer: false,
    };
    assert!(!can_edit(&tap(KeyCode::Space), &state));
    assert!(can_edit(&tap(KeyCode::Backspace), &state));
}

#[test]
fn devices_and_palette_clicks_need_no_station() {
    let mut craft = unit_craft(&[ORIGIN]);
    craft.parts.push(last_station());
    place(&mut craft, Brush::Tank);
    assert_eq!(
        craft.devices,
        vec![Device {
            cell: ORIGIN,
            kind: DeviceKind::Tank
        }]
    );
    let mut state = EditorState::default();
    state.craft = craft;
    state.brush = Brush::Suspension;
    let parts = state.craft.parts.len();
    let mut mouse = Mouse::new();
    mouse.press(MouseButton::Left);
    let hover = Some(Hovered {
        add_cell: ORIGIN,
        remove_cell: None,
        highlight: ORIGIN,
    });
    mouse_build(&mouse, hover, true, &mut state);
    mouse_build(&mouse, None, false, &mut state);
    assert_eq!(state.craft.parts.len(), parts);
}

#[test]
fn an_open_library_keeps_the_build_as_it_is() {
    let mut state = EditorState::default();
    state.cursor = cell(9, 9, 9);
    let before = state.craft.voxels.len();
    let naming = CraftLibraryModal::Naming {
        buffer: "ro".to_string(),
        rejected: false,
    };
    let mut keys = Keyboard::new();
    keys.press(KeyCode::Space);
    keys.press(KeyCode::KeyB);
    let mut mouse = Mouse::new();
    mouse.press(MouseButton::Left);
    let hover = Some(Hovered {
        add_cell: cell(5, 5, 5),
        remove_cell: None,
        highlight: cell(5, 5, 5),
    });
    assert!(build_keys(&naming, &keys, &mut state).is_empty());
    build_clicks(&naming, &mouse, hover, false, &mut state);
    assert_eq!(state.craft.voxels.len(), before);
    let closed = CraftLibraryModal::Closed;
    assert_eq!(build_keys(&closed, &keys, &mut state), vec![EditorRequest::SaveBlueprint]);
    build_clicks(&closed, &mouse, hover, false, &mut state);
    assert_eq!(state.craft.voxels.len(), before + 2);
}
